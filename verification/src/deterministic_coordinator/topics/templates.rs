//! Topics of one node.
use vstd::prelude::*;

use crate::text::{chars_of, joined2, joined3, push_text, string_of};

verus! {

/// The topic where a node is told to start a quantum.
pub fn clock_start(node_id: &str) -> (topic: String)
    ensures
        topic@ == "sim/clock/start/"@ + node_id@,
{
    joined2("sim/clock/start/", node_id)
}

/// The topic where a node is asked to advance its clock.
pub fn clock_advance(node_id: &str) -> (topic: String)
    ensures
        topic@ == "sim/clock/advance/"@ + node_id@,
{
    joined2("sim/clock/advance/", node_id)
}

/// The topic where a node shows that it runs.
pub fn clock_heartbeat(node_id: &str) -> (topic: String)
    ensures
        topic@ == "sim/clock/heartbeat/"@ + node_id@,
{
    joined2("sim/clock/heartbeat/", node_id)
}

/// The topic where a node shows that it is there.
pub fn clock_liveliness(node_id: &str) -> (topic: String)
    ensures
        topic@ == "sim/clock/liveliness/"@ + node_id@,
{
    joined2("sim/clock/liveliness/", node_id)
}

/// The topic where a node tells its virtual time.
pub fn clock_vtime(node_id: &str) -> (topic: String)
    ensures
        topic@ == "sim/clock/vtime/"@ + node_id@,
{
    joined2("sim/clock/vtime/", node_id)
}

/// The topic that only one node may claim.
pub fn clock_unique_prefix(node_id: &str) -> (topic: String)
    ensures
        topic@ == "sim/clock/unique/"@ + node_id@,
{
    joined2("sim/clock/unique/", node_id)
}

/// The topic where a node says over a socket that it is done with a quantum. On the bus the number
/// of the node stands before `done`.
pub fn coord_done(node_id: &str) -> (topic: String)
    ensures
        topic@ == "sim/coord/done/"@ + node_id@,
{
    joined2("sim/coord/done/", node_id)
}

/// The topic of what a node sends on one of its UART ports.
pub fn uart_port_tx(node_id: &str, port: &str) -> (topic: String)
    ensures
        topic@ == "virtmcu/uart/"@ + node_id@ + "/"@ + port@ + "/tx"@,
{
    let mut out = chars_of("virtmcu/uart/");
    push_text(&mut out, node_id);
    push_text(&mut out, "/");
    push_text(&mut out, port);
    push_text(&mut out, "/tx");
    string_of(out)
}

/// The topic of the Ethernet frames that a node sends.
pub fn eth_tx(node_id: &str) -> (topic: String)
    ensures
        topic@ == "sim/eth/frame/"@ + node_id@ + "/tx"@,
{
    joined3("sim/eth/frame/", node_id, "/tx")
}

/// The topic of the UART bytes that a node sends.
pub fn uart_tx(node_id: &str) -> (topic: String)
    ensures
        topic@ == "virtmcu/uart/"@ + node_id@ + "/tx"@,
{
    joined3("virtmcu/uart/", node_id, "/tx")
}

/// The topic of the CAN frames that a node sends.
pub fn can_tx(node_id: &str) -> (topic: String)
    ensures
        topic@ == "sim/can/"@ + node_id@ + "/tx"@,
{
    joined3("sim/can/", node_id, "/tx")
}

/// The topic of the LIN frames that a node sends.
pub fn lin_tx(node_id: &str) -> (topic: String)
    ensures
        topic@ == "sim/lin/"@ + node_id@ + "/tx"@,
{
    joined3("sim/lin/", node_id, "/tx")
}

/// The topic of the HCI packets that a node sends.
pub fn rf_hci_tx(node_id: &str) -> (topic: String)
    ensures
        topic@ == "sim/rf/hci/"@ + node_id@ + "/tx"@,
{
    joined3("sim/rf/hci/", node_id, "/tx")
}

/// The topic of the IEEE 802.15.4 frames that a node sends.
pub fn rf_ieee802154_tx(node_id: &str) -> (topic: String)
    ensures
        topic@ == "sim/rf/ieee802154/"@ + node_id@ + "/tx"@,
{
    joined3("sim/rf/ieee802154/", node_id, "/tx")
}

/// The topic of the character device bytes that a node sends.
pub fn chardev_tx(node_id: &str) -> (topic: String)
    ensures
        topic@ == "sim/chardev/"@ + node_id@ + "/tx"@,
{
    joined3("sim/chardev/", node_id, "/tx")
}

/// The topic of the reference bus frames that a node sends.
pub fn reference_bus_tx(node_id: &str) -> (topic: String)
    ensures
        topic@ == "sim/reference_bus/"@ + node_id@ + "/tx"@,
{
    joined3("sim/reference_bus/", node_id, "/tx")
}

/// The topic of the simulated UART bytes that a node sends.
pub fn sim_uart_tx(node_id: &str) -> (topic: String)
    ensures
        topic@ == "sim/uart/"@ + node_id@ + "/tx"@,
{
    joined3("sim/uart/", node_id, "/tx")
}

/// The topic of the SystemC frames that a node sends.
pub fn systemc_frame_tx(node_id: &str) -> (topic: String)
    ensures
        topic@ == "sim/systemc/frame/"@ + node_id@ + "/tx"@,
{
    joined3("sim/systemc/frame/", node_id, "/tx")
}

/// The topic of the SPI transfers on the default bus that a node sends.
pub fn spi_tx(node_id: &str) -> (topic: String)
    ensures
        topic@ == "sim/spi/default/"@ + node_id@ + "/tx"@,
{
    joined3("sim/spi/default/", node_id, "/tx")
}

/// The topic of the Ethernet frames that a node receives.
pub fn eth_rx(node_id: &str) -> (topic: String)
    ensures
        topic@ == "sim/eth/frame/"@ + node_id@ + "/rx"@,
{
    joined3("sim/eth/frame/", node_id, "/rx")
}

/// The topic of the UART bytes that a node receives.
pub fn uart_rx(node_id: &str) -> (topic: String)
    ensures
        topic@ == "virtmcu/uart/"@ + node_id@ + "/rx"@,
{
    joined3("virtmcu/uart/", node_id, "/rx")
}

/// The topic of the CAN frames that a node receives.
pub fn can_rx(node_id: &str) -> (topic: String)
    ensures
        topic@ == "sim/can/"@ + node_id@ + "/rx"@,
{
    joined3("sim/can/", node_id, "/rx")
}

/// The topic of the LIN frames that a node receives.
pub fn lin_rx(node_id: &str) -> (topic: String)
    ensures
        topic@ == "sim/lin/"@ + node_id@ + "/rx"@,
{
    joined3("sim/lin/", node_id, "/rx")
}

/// The topic of the HCI packets that a node receives.
pub fn rf_hci_rx(node_id: &str) -> (topic: String)
    ensures
        topic@ == "sim/rf/hci/"@ + node_id@ + "/rx"@,
{
    joined3("sim/rf/hci/", node_id, "/rx")
}

/// The topic of the IEEE 802.15.4 frames that a node receives.
pub fn rf_ieee802154_rx(node_id: &str) -> (topic: String)
    ensures
        topic@ == "sim/rf/ieee802154/"@ + node_id@ + "/rx"@,
{
    joined3("sim/rf/ieee802154/", node_id, "/rx")
}

/// The topic of the SPI transfers on the default bus that a node receives.
pub fn spi_rx(node_id: &str) -> (topic: String)
    ensures
        topic@ == "sim/spi/default/"@ + node_id@ + "/rx"@,
{
    joined3("sim/spi/default/", node_id, "/rx")
}

/// The topic of the messages of any kind that a node receives.
pub fn coord_rx(node_id: &str) -> (topic: String)
    ensures
        topic@ == "sim/coord/"@ + node_id@ + "/rx"@,
{
    joined3("sim/coord/", node_id, "/rx")
}

} // verus!
