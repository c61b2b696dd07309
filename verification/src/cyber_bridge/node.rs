//! Driving the clock of a node, quantum by quantum.
use vstd::prelude::*;

use crate::text;
use crate::text::{begins_with, decimal_text, ends_with, joined3, joined5, numbered, owned};

verus! {

/// A list of addresses in JSON: an address that is no list yet becomes one.
pub open spec fn address_list(connect: Seq<char>) -> Seq<char> {
    if connect.len() > 0 && connect[0] == '[' && connect.last() == ']' {
        connect
    } else {
        "[\""@ + connect + "\"]"@
    }
}

/// A list of addresses in JSON.
pub fn connect_json(connect: &str) -> (r: String)
    ensures
        r@ == address_list(connect@),
{
    if begins_with(connect, '[') && ends_with(connect, ']') {
        owned(connect)
    } else {
        joined3("[\"", connect, "\"]")
    }
}

/// Making a list of addresses twice makes the same list.
pub proof fn law_address_list_is_stable(connect: Seq<char>)
    ensures
        address_list(address_list(connect)) == address_list(connect),
{
    reveal_strlit("[\"");
    reveal_strlit("\"]");
}

/// The topic of a sensor.
pub fn sensor_topic(prefix: &str, node_id: u32, sensor: u32) -> (r: String)
    ensures
        r@ == prefix@ + "/"@ + text::decimal(node_id as nat) + "/sensordata_"@ + text::decimal(
            sensor as nat,
        ),
{
    joined5(
        prefix,
        "/",
        decimal_text(node_id as u64).as_str(),
        "/sensordata_",
        decimal_text(sensor as u64).as_str(),
    )
}

/// How often the first request may go unanswered.
pub const FIRST_ATTEMPTS: u32 = 60;

/// Where a node's clock is.
#[derive(Debug, Clone, Copy, PartialEq, Eq, Structural)]
pub struct NodeClock {
    pub quantum_number: u64,
    pub absolute_vtime_ns: u64,
    pub delta_ns: u64,
}

/// Why a node's clock did not advance.
#[derive(Debug, Clone, Copy, PartialEq, Eq, Structural)]
pub enum AdvanceError {
    /// There was no answer in this quantum.
    NoAnswer(u64),
    /// The clock stood still in this quantum.
    Stall(u64),
}

impl AdvanceError {
    /// What is said of the error.
    pub fn message(&self) -> (r: String)
        ensures
            r@ == match *self {
                AdvanceError::NoAnswer(q) => "Transport timeout or error at quantum "@
                    + text::decimal(q as nat),
                AdvanceError::Stall(q) => "Clock stall detected at quantum "@ + text::decimal(
                    q as nat,
                ) + ". Simulation aborted."@,
            },
    {
        match *self {
            AdvanceError::NoAnswer(q) => numbered("Transport timeout or error at quantum ", q),
            AdvanceError::Stall(q) => joined3(
                "Clock stall detected at quantum ",
                decimal_text(q).as_str(),
                ". Simulation aborted.",
            ),
        }
    }
}

impl NodeClock {
    /// A clock at the start.
    pub fn new(delta_ns: u64) -> (r: Self)
        ensures
            r == (NodeClock { quantum_number: 0, absolute_vtime_ns: 0, delta_ns }),
    {
        NodeClock { quantum_number: 0, absolute_vtime_ns: 0, delta_ns }
    }

    /// How often the clock is asked before it counts as not answering: it may take a while until
    /// it answers for the first time.
    pub fn attempts(&self) -> (r: u32)
        ensures
            r == if self.quantum_number == 0 {
                FIRST_ATTEMPTS
            } else {
                1
            },
    {
        if self.quantum_number == 0 {
            FIRST_ATTEMPTS
        } else {
            1
        }
    }

    /// What the answer means: the code that came, or nothing where none did.
    pub fn judge(&self, code: Option<u32>, stall_code: u32) -> (r: Result<(), AdvanceError>)
        ensures
            r == match code {
                None => Err::<(), AdvanceError>(AdvanceError::NoAnswer(self.quantum_number)),
                Some(c) => if c == stall_code {
                    Err::<(), AdvanceError>(AdvanceError::Stall(self.quantum_number))
                } else {
                    Ok::<(), AdvanceError>(())
                },
            },
    {
        match code {
            None => Err(AdvanceError::NoAnswer(self.quantum_number)),
            Some(c) => {
                if c == stall_code {
                    Err(AdvanceError::Stall(self.quantum_number))
                } else {
                    Ok(())
                }
            },
        }
    }

    /// The time at which the quantum ends.
    pub fn end_vtime(&self) -> (r: u64)
        requires
            self.absolute_vtime_ns + self.delta_ns <= u64::MAX,
        ensures
            r == self.absolute_vtime_ns + self.delta_ns,
    {
        self.absolute_vtime_ns + self.delta_ns
    }

    /// Ends the quantum.
    pub fn end_quantum(&mut self)
        requires
            old(self).quantum_number < u64::MAX,
            old(self).absolute_vtime_ns + old(self).delta_ns <= u64::MAX,
        ensures
            *final(self) == (NodeClock {
                quantum_number: (old(self).quantum_number + 1) as u64,
                absolute_vtime_ns: (old(self).absolute_vtime_ns + old(self).delta_ns) as u64,
                delta_ns: old(self).delta_ns,
            }),
    {
        self.quantum_number = self.quantum_number + 1;
        self.absolute_vtime_ns = self.absolute_vtime_ns + self.delta_ns;
    }
}

/// Where a clock is after so many quanta.
pub open spec fn clock_after(delta_ns: u64, n: nat) -> NodeClock
    decreases n,
{
    if n == 0 {
        NodeClock { quantum_number: 0, absolute_vtime_ns: 0, delta_ns }
    } else {
        let c = clock_after(delta_ns, (n - 1) as nat);
        NodeClock {
            quantum_number: (c.quantum_number + 1) as u64,
            absolute_vtime_ns: (c.absolute_vtime_ns + delta_ns) as u64,
            delta_ns,
        }
    }
}

/// Time and quanta stay together: after so many quanta, so many times the step has passed.
pub proof fn law_time_follows_quanta(delta_ns: u64, n: nat)
    requires
        n * delta_ns <= u64::MAX,
        n <= u64::MAX,
    ensures
        clock_after(delta_ns, n).quantum_number == n,
        clock_after(delta_ns, n).absolute_vtime_ns == n * delta_ns,
    decreases n,
{
    if n > 0 {
        let m = (n - 1) as nat;
        assert(n * delta_ns == m * delta_ns + delta_ns) by (nonlinear_arith)
            requires
                n == m + 1,
        ;
        law_time_follows_quanta(delta_ns, m);
    } else {
        assert(0 * delta_ns == 0);
    }
}

/// The path of the memory that is shared with a simulator of bodies.
pub fn body_shm_path(node_id: u32) -> (r: String)
    ensures
        r@ == "/dev/shm/virtmcu_mujoco_"@ + text::decimal(node_id as nat),
{
    numbered("/dev/shm/virtmcu_mujoco_", node_id as u64)
}

/// The size of that memory.
pub fn body_shm_size(n_sensors: u32, n_actuators: u32) -> (r: u64)
    requires
        n_sensors + n_actuators <= u32::MAX,
    ensures
        r == 16 + 8 * (n_sensors + n_actuators),
{
    16 + (n_sensors + n_actuators) as u64 * 8
}

} // verus!
