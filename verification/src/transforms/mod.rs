//! The built-in transforms.
use vstd::prelude::*;

use crate::transforms::dead_definition::DeadDefinitionTransform;
use crate::transforms::delete::DeleteTransform;
use crate::transforms::unwrap::{unwrap_upto, UnwrapTransform};
use crate::tree::{SyntaxNode, SyntaxTree};

pub mod dead_definition;
pub mod delete;
pub mod unwrap;

verus! {

/// Every proposal replaces a range that lies within a source of `len` bytes.
pub open spec fn within(ps: Seq<(int, int, Seq<u8>)>, len: nat) -> bool {
    forall|i: int| 0 <= i < ps.len() ==> 0 <= #[trigger] ps[i].0 <= ps[i].1 <= len
}

proof fn lemma_unwrap_within(
    ns: Seq<SyntaxNode>,
    len: nat,
    source: Seq<u8>,
    node: int,
    supers: spec_fn(u16) -> Seq<u16>,
    k: int,
)
    requires
        crate::tree::nodes_wf(ns, len),
        0 <= node < ns.len(),
    ensures
        within(unwrap_upto(ns, source, node, supers, k), len),
    decreases k - node,
{
    if k > node + 1 {
        lemma_unwrap_within(ns, len, source, node, supers, k - 1);
    }
}

/// Candidates stay within the source: for a well-formed tree, every
/// replacement that the built-in transforms propose for any of its nodes
/// covers a range `start..end` with `start <= end <= ` the source length.
pub proof fn law_candidates_within_source(
    tree: SyntaxTree,
    node: int,
    source: Seq<u8>,
    supers: spec_fn(u16) -> Seq<u16>,
    dead: DeadDefinitionTransform,
)
    requires
        tree.wf(),
        0 <= node < tree.nodes@.len(),
    ensures
        within(DeleteTransform::proposals(tree, node), tree.source_len as nat),
        within(UnwrapTransform::proposals(tree, node, source, supers), tree.source_len as nat),
        within(dead.proposals(tree, node), tree.source_len as nat),
{
    assert(tree.nodes@[node].start_byte <= tree.nodes@[node].end_byte);
    assert(tree.nodes@[node].end_byte <= tree.source_len);
    if tree.nodes@[node].is_named {
        lemma_unwrap_within(
            tree.nodes@,
            tree.source_len as nat,
            source,
            node,
            supers,
            crate::tree::subtree_end(tree.nodes@, node),
        );
    }
}

} // verus!
