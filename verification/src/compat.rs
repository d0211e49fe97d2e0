//! Node type compatibility checking for tree reduction.
//!
//! Determines which node types can legally replace a given node in the tree,
//! using supertype relationships from a [`SupertypeProvider`].
use vstd::prelude::*;

use crate::supertype::{add_distinct, compatible_spec, extend_distinct, SupertypeProvider};
use crate::tree::SyntaxTree;

verus! {

/// For the supertypes `ss`, in order, the subtypes of each (given by `subs`)
/// other than `kind`, without duplicates.
pub open spec fn sibling_kinds(ss: Seq<u16>, subs: spec_fn(u16) -> Seq<u16>, kind: u16) -> Seq<u16>
    decreases ss.len(),
{
    if ss.len() == 0 {
        Seq::empty()
    } else {
        add_distinct(sibling_kinds(ss.drop_last(), subs, kind), subs(ss.last()), Some(kind))
    }
}

/// Find all node kind IDs that could be valid replacements for the given
/// node, based on supertype relationships: the other subtypes of each of its
/// supertypes. An empty list means only exact-type replacement or deletion
/// is possible.
pub fn compatible_replacements(
    tree: &SyntaxTree,
    node: usize,
    provider: &dyn SupertypeProvider,
) -> (r: Vec<u16>)
    requires
        node < tree.nodes@.len(),
    ensures
        r@ == sibling_kinds(
            provider.supers(tree.nodes@[node as int].kind_id),
            |s: u16| provider.subs(s),
            tree.nodes@[node as int].kind_id,
        ),
{
    let kind_id = tree.nodes[node].kind_id;
    let mut result: Vec<u16> = Vec::new();
    let supertypes = provider.supertypes_for(kind_id);
    let ghost subs = |s: u16| provider.subs(s);
    let mut i: usize = 0;
    while i < supertypes.len()
        invariant
            i <= supertypes@.len(),
            supertypes@ == provider.supers(kind_id),
            subs == |s: u16| provider.subs(s),
            result@ == sibling_kinds(supertypes@.take(i as int), subs, kind_id),
        decreases supertypes@.len() - i,
    {
        let subtypes = provider.subtypes_for(supertypes[i]);
        extend_distinct(&mut result, &subtypes, Some(kind_id));
        proof {
            assert(supertypes@.take(i + 1).drop_last() =~= supertypes@.take(i as int));
        }
        i = i + 1;
    }
    proof {
        assert(supertypes@.take(supertypes@.len() as int) =~= supertypes@);
    }
    result
}

/// Check if a candidate node kind can replace a position that expects the given kind.
pub fn is_compatible_replacement(
    candidate_kind: u16,
    expected_kind: u16,
    provider: &dyn SupertypeProvider,
) -> (r: bool)
    ensures
        r == compatible_spec(
            candidate_kind,
            expected_kind,
            provider.supers(candidate_kind),
            provider.supers(expected_kind),
        ),
{
    provider.is_compatible(candidate_kind, expected_kind)
}

/// Check if a node is a named node (as opposed to anonymous punctuation or
/// keywords). Only named nodes are typically candidates for reduction.
pub fn is_named_node(tree: &SyntaxTree, node: usize) -> (r: bool)
    requires
        node < tree.nodes@.len(),
    ensures
        r == tree.nodes@[node as int].is_named,
{
    tree.nodes[node].is_named
}

} // verus!
