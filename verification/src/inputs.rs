//! Canonicalization of a lock document: the canonical URI of every node
//! that is locked to a source.

use crate::lock::{FlakeLock, LockedSource};
use crate::ordered_map::{has_key, keys_distinct, OrderedMap};
use crate::uri::{canonical_uri, flake_uri};
use vstd::prelude::*;

verus! {

/// What a node contributes to the inputs: its name with the canonical URI of
/// its locked source, or nothing where it is not locked.
pub open spec fn input_of() -> spec_fn((Seq<char>, Option<LockedSource>)) -> Option<
    (Seq<char>, Seq<char>),
> {
    |node: (Seq<char>, Option<LockedSource>)|
        match node.1 {
            Some(source) => Some((node.0, canonical_uri(source))),
            None => None,
        }
}

/// The inputs of a sequence of nodes: for each locked node, in order, its
/// name with its canonical URI.
pub open spec fn canonical_inputs(nodes: Seq<(Seq<char>, Option<LockedSource>)>) -> Seq<
    (Seq<char>, Seq<char>),
> {
    nodes.filter_map(input_of())
}

/// Every input goes back to a locked node of the same name, and carries the
/// canonical URI of that node's source.
pub proof fn lemma_input_has_node(
    nodes: Seq<(Seq<char>, Option<LockedSource>)>,
    k: int,
) -> (i: int)
    requires
        0 <= k < canonical_inputs(nodes).len(),
    ensures
        0 <= i < nodes.len(),
        nodes[i].1 is Some,
        canonical_inputs(nodes)[k] == (nodes[i].0, canonical_uri(nodes[i].1->0)),
    decreases nodes.len(),
{
    let earlier = nodes.drop_last();
    let last = nodes.last();
    if last.1 is Some && k == canonical_inputs(earlier).len() {
        nodes.len() - 1
    } else {
        lemma_input_has_node(earlier, k)
    }
}

/// Every locked node has an input of its name with the canonical URI of its
/// source.
pub proof fn lemma_node_has_input(
    nodes: Seq<(Seq<char>, Option<LockedSource>)>,
    i: int,
) -> (k: int)
    requires
        0 <= i < nodes.len(),
        nodes[i].1 is Some,
    ensures
        0 <= k < canonical_inputs(nodes).len(),
        canonical_inputs(nodes)[k] == (nodes[i].0, canonical_uri(nodes[i].1->0)),
    decreases nodes.len(),
{
    let earlier = nodes.drop_last();
    if i == nodes.len() - 1 {
        canonical_inputs(earlier).len() as int
    } else {
        lemma_node_has_input(earlier, i)
    }
}

/// Inputs keep the order of their nodes, so nodes with distinct names give
/// inputs with distinct names: there is one input for each locked node.
pub proof fn lemma_inputs_keys_distinct(nodes: Seq<(Seq<char>, Option<LockedSource>)>)
    requires
        keys_distinct(nodes),
    ensures
        keys_distinct(canonical_inputs(nodes)),
    decreases nodes.len(),
{
    if nodes.len() > 0 {
        let earlier = nodes.drop_last();
        let last = nodes.last();
        assert forall|i: int, j: int| 0 <= i < j < earlier.len() implies (#[trigger] earlier[i]).0
            != (#[trigger] earlier[j]).0 by {
            assert(nodes[i].0 != nodes[j].0);
        }
        lemma_inputs_keys_distinct(earlier);
        let inputs = canonical_inputs(nodes);
        let before = canonical_inputs(earlier);
        if last.1 is Some {
            assert forall|i: int, j: int| 0 <= i < j < inputs.len() implies (#[trigger] inputs[i]).0
                != (#[trigger] inputs[j]).0 by {
                if j == before.len() {
                    let n = lemma_input_has_node(earlier, i);
                    assert(nodes[n].0 != nodes[nodes.len() - 1].0);
                } else {
                    assert(before[i].0 != before[j].0);
                }
            }
        }
    }
}

/// Maps every node that is locked to a source to the canonical URI of that
/// source. Nodes without a locked source are passed over.
pub fn parse_inputs(flake_lock: FlakeLock) -> (inputs: OrderedMap<String>)
    ensures
        inputs@ == canonical_inputs(flake_lock@.nodes),
{
    let ghost all = flake_lock@.nodes;
    let mut data: OrderedMap<String> = OrderedMap::new();
    let nodes = flake_lock.nodes.into_entries();
    let ghost raw = nodes@;
    proof {
        assert(all.take(0) =~= Seq::empty());
    }
    for entry in it: nodes
        invariant
            it.seq() == raw,
            all.len() == raw.len(),
            forall|k: int| 0 <= k < raw.len() ==> (#[trigger] all[k]) == (raw[k].0@, raw[k].1@),
            keys_distinct(all),
            data@ == canonical_inputs(all.take(it.index())),
    {
        let ghost done = all.take(it.index());
        let ghost node = all[it.index()];
        let (k, v) = entry;
        proof {
            all.lemma_filter_map_take_succ(input_of(), it.index());
            if has_key(data@, node.0) {
                let at = choose|at: int| 0 <= at < data@.len() && (#[trigger] data@[at]).0 == node.0;
                let from = lemma_input_has_node(done, at);
                assert(all[from].0 != all[it.index()].0);
            }
        }
        match v.locked {
            None => {},
            Some(locked) => {
                let val = flake_uri(locked);
                data.insert(k, val);
            },
        }
    }
    proof {
        assert(all.take(all.len() as int) =~= all);
    }
    data
}

/// Canonicalization is a function of the document: whatever two runs on the
/// same document return, the two mappings are the same.
pub proof fn lemma_parse_inputs_is_repeatable(
    flake_lock: FlakeLock,
    first: OrderedMap<String>,
    second: OrderedMap<String>,
)
    requires
        call_ensures(parse_inputs, (flake_lock,), first),
        call_ensures(parse_inputs, (flake_lock,), second),
    ensures
        first@ == second@,
{
}

} // verus!
