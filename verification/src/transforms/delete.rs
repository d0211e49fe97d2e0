//! Deleting a named node.
use vstd::prelude::*;

use crate::supertype::SupertypeProvider;
use crate::transform::{rviews, Transform};
use crate::tree::SyntaxTree;
use crate::validity::Replacement;

verus! {

/// Proposes deleting a named node by replacing its byte range with nothing.
/// Does NOT check validity: the caller must validate by reparsing.
pub struct DeleteTransform;

impl DeleteTransform {
    /// The single deletion proposed for a named node; nothing for others.
    pub open spec fn proposals(tree: SyntaxTree, node: int) -> Seq<(int, int, Seq<u8>)> {
        let n = tree.nodes@[node];
        if n.is_named {
            seq![(n.start_byte as int, n.end_byte as int, Seq::<u8>::empty())]
        } else {
            Seq::empty()
        }
    }
}

impl Transform for DeleteTransform {
    open spec fn proposes_from_tree(&self) -> bool {
        true
    }

    open spec fn proposed(&self, tree: SyntaxTree, node: int, source: Seq<u8>) -> Seq<
        (int, int, Seq<u8>),
    > {
        DeleteTransform::proposals(tree, node)
    }

    fn candidates(
        &self,
        tree: &SyntaxTree,
        node: usize,
        source: &[u8],
        provider: &dyn SupertypeProvider,
    ) -> (r: Vec<Replacement>)
        ensures
            rviews(r@) == DeleteTransform::proposals(*tree, node as int),
    {
        let mut r: Vec<Replacement> = Vec::new();
        if !tree.nodes[node].is_named {
            assert(rviews(r@) =~= DeleteTransform::proposals(*tree, node as int));
            return r;
        }
        r.push(
            Replacement {
                start_byte: tree.nodes[node].start_byte,
                end_byte: tree.nodes[node].end_byte,
                new_bytes: Vec::new(),
            },
        );
        assert(rviews(r@) =~= DeleteTransform::proposals(*tree, node as int));
        r
    }

    fn name(&self) -> (r: &str)
        ensures
            r@ == "delete"@,
    {
        "delete"
    }
}

} // verus!
