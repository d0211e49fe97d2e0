//! The transform interface: proposals of candidate replacements for nodes.
use vstd::prelude::*;

use crate::supertype::SupertypeProvider;
use crate::tree::SyntaxTree;
use crate::validity::Replacement;

verus! {

/// A replacement as plain values: (start, end, new bytes).
pub open spec fn rview(r: Replacement) -> (int, int, Seq<u8>) {
    (r.start_byte as int, r.end_byte as int, r.new_bytes@)
}

/// The replacements of a list, as plain values.
pub open spec fn rviews(rs: Seq<Replacement>) -> Seq<(int, int, Seq<u8>)> {
    rs.map_values(|r: Replacement| rview(r))
}

/// A transform proposes candidate replacements for tree nodes.
/// Each candidate is a [`Replacement`] that the caller validates by reparsing.
pub trait Transform {
    /// Whether the transform's proposals are a function of the tree, the
    /// node and the source alone (given by `proposed`). A transform that says
    /// nothing of its proposals keeps the default, `false`.
    open spec fn proposes_from_tree(&self) -> bool {
        false
    }

    /// The proposals for node `node` of `tree` over `source`, as plain
    /// values, for a transform whose proposals depend on these alone.
    open spec fn proposed(&self, tree: SyntaxTree, node: int, source: Seq<u8>) -> Seq<
        (int, int, Seq<u8>),
    > {
        Seq::empty()
    }

    /// Propose candidate replacements for the given node.
    /// Returns an empty list if no replacements are applicable.
    fn candidates(
        &self,
        tree: &SyntaxTree,
        node: usize,
        source: &[u8],
        provider: &dyn SupertypeProvider,
    ) -> (r: Vec<Replacement>)
        requires
            tree.wf(),
            node < tree.nodes@.len(),
            tree.source_len == source@.len(),
        ensures
            self.proposes_from_tree() ==> rviews(r@) == self.proposed(*tree, node as int, source@),
    ;

    /// Human-readable name of this transform (for logging and progress).
    fn name(&self) -> &str;

    /// Called after each accepted reduction so transforms can update internal
    /// state. The default does nothing.
    fn on_reduction(&mut self, tree: &SyntaxTree, source: &[u8], language: &tree_sitter::Language)
        requires
            tree.wf(),
            tree.source_len == source@.len(),
    {
    }
}

} // verus!
