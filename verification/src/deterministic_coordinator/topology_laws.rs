//! What holds of the nodes that a topology names.
use vstd::prelude::*;

use crate::deterministic_coordinator::graph;
use crate::deterministic_coordinator::graph::Positions;
use crate::deterministic_coordinator::machine_laws;
use crate::deterministic_coordinator::topology;
use crate::deterministic_coordinator::topology::{
    NodeIdView, TopologyErrorView, TopologySpecView, WirelessNode, WirelessSpecView, WorldView,
};
use crate::text;

verus! {

proof fn lemma_listed(ids: Seq<u32>, i: int)
    requires
        0 <= i <= ids.len(),
        forall|j: int| 0 <= j < ids.len() ==> #[trigger] ids[j] != u32::MAX,
    ensures
        graph::listed_ids(machine_laws::listed_nodes(ids), i, ids.take(i)) == Ok::<
            Seq<u32>,
            TopologyErrorView,
        >(ids),
        graph::fallback_ids(machine_laws::listed_nodes(ids), i, ids.take(i)) == Ok::<
            Seq<u32>,
            TopologyErrorView,
        >(ids),
    decreases ids.len() - i,
{
    if i < ids.len() {
        text::law_decimal_reads_back(ids[i] as nat, u32::MAX as nat);
        assert(ids.take(i).push(ids[i]) =~= ids.take(i + 1));
        lemma_listed(ids, i + 1);
    } else {
        assert(ids.take(i) =~= ids);
    }
}

/// The nodes that may be linked are those that the topology lists, in order; where it lists none,
/// those that the peripherals name.
pub proof fn law_known_nodes(w: WorldView, t: TopologySpecView, ids: Seq<u32>)
    requires
        forall|j: int| 0 <= j < ids.len() ==> #[trigger] ids[j] != u32::MAX,
    ensures
        w.topology == Some(t) && ids.len() > 0 && t.nodes == machine_laws::listed_nodes(ids)
            ==> graph::valid_ids(w) == Ok::<Seq<u32>, TopologyErrorView>(ids),
        w.topology == Some(t) && t.nodes.len() == 0 && w.peripherals == machine_laws::listed_nodes(
            ids,
        ) ==> graph::valid_ids(w) == Ok::<Seq<u32>, TopologyErrorView>(ids),
        w.topology is None && w.peripherals == machine_laws::listed_nodes(ids)
            ==> graph::valid_ids(w) == Ok::<Seq<u32>, TopologyErrorView>(ids),
{
    assert(ids.take(0) =~= Seq::<u32>::empty());
    lemma_listed(ids, 0);
}

/// A name that is no number is refused by its text.
pub proof fn law_unnamed_node(name: Seq<char>, rest: Seq<NodeIdView>)
    requires
        text::parsed_unsigned(name, u32::MAX as nat) is None,
    ensures
        ({
            let nodes = seq![NodeIdView::Name(name)] + rest;
            let refused = Err::<Seq<u32>, TopologyErrorView>(TopologyErrorView::InvalidNodeId(name));
            &&& graph::listed_ids(nodes, 0, Seq::empty()) == refused
            &&& graph::fallback_ids(nodes, 0, Seq::empty()) == refused
            &&& graph::link_ids(nodes, Seq::empty(), 0, Seq::empty()) is Err
        }),
{
    let nodes = seq![NodeIdView::Name(name)] + rest;
    assert(nodes[0] == NodeIdView::Name(name));
}

proof fn lemma_built_wireless(
    w: WirelessSpecView,
    ids: Seq<u32>,
    valid: Seq<u32>,
    i: int,
    nodes: Seq<WirelessNode>,
    positions: Positions,
    k: int,
)
    requires
        0 <= i <= ids.len(),
        nodes.len() == i,
        w.nodes == machine_laws::listed_nodes(ids),
        forall|j: int|
            0 <= j < ids.len() ==> valid.contains(#[trigger] ids[j]) && ids[j] != u32::MAX,
        0 <= k < ids.len(),
        forall|j: int| k < j < ids.len() ==> #[trigger] ids[j] != ids[k],
        k < i ==> nodes[k].id == ids[k] && nodes[k].initial_position == w.positions[k],
        k < i ==> machine_laws::position_of(positions, ids[k]) == Some(w.positions[k]),
    ensures
        ({
            let built = graph::built_wireless(w, valid, i, nodes, positions);
            &&& built is Ok
            &&& built->Ok_0.0.len() == ids.len()
            &&& built->Ok_0.0[k].id == ids[k]
            &&& built->Ok_0.0[k].initial_position == w.positions[k]
            &&& machine_laws::position_of(built->Ok_0.1, ids[k]) == Some(w.positions[k])
        }),
    decreases ids.len() - i,
{
    if i < ids.len() {
        text::law_decimal_reads_back(ids[i] as nat, u32::MAX as nat);
        assert(valid.contains(ids[i]));
        machine_laws::law_moved_node(positions, ids[i], w.positions[i], ids[k]);
        let more = nodes.push(WirelessNode { id: ids[i], initial_position: w.positions[i] });
        lemma_built_wireless(
            w,
            ids,
            valid,
            i + 1,
            more,
            graph::with_position(positions, ids[i], w.positions[i]),
            k,
        );
    }
}

/// Each node of the air is where the topology puts it, if it is known; one that is listed twice is
/// where it is put last.
pub proof fn law_nodes_of_the_air(w: WirelessSpecView, ids: Seq<u32>, valid: Seq<u32>, k: int)
    requires
        w.nodes == machine_laws::listed_nodes(ids),
        forall|j: int|
            0 <= j < ids.len() ==> valid.contains(#[trigger] ids[j]) && ids[j] != u32::MAX,
        0 <= k < ids.len(),
        forall|j: int| k < j < ids.len() ==> #[trigger] ids[j] != ids[k],
    ensures
        ({
            let built = graph::built_wireless(w, valid, 0, Seq::empty(), Seq::empty());
            &&& built is Ok
            &&& built->Ok_0.0.len() == ids.len()
            &&& built->Ok_0.0[k].id == ids[k]
            &&& built->Ok_0.0[k].initial_position == w.positions[k]
            &&& machine_laws::position_of(built->Ok_0.1, ids[k]) == Some(w.positions[k])
        }),
{
    lemma_built_wireless(w, ids, valid, 0, Seq::empty(), Seq::empty(), k);
}

/// The text of an error says its kind and ends in what it is about.
pub proof fn law_error_texts(s: Seq<char>, n: u32)
    ensures
        topology::topology_error_text(TopologyErrorView::IoError(s)) == "IO Error: "@ + s,
        topology::topology_error_text(TopologyErrorView::YamlError(s)) == "YAML Error: "@ + s,
        topology::topology_error_text(TopologyErrorView::UnknownNode(n))
            == "Unknown node in topology: "@ + text::decimal(n as nat),
        topology::topology_error_text(TopologyErrorView::SplitBrainError(s))
            == "Split-brain Error: "@ + s,
        topology::topology_error_text(TopologyErrorView::InvalidNodeId(s))
            == "Invalid data format: "@ + s,
{
}

} // verus!
