//! Replacing a node with one of its children.
use vstd::prelude::*;

use crate::supertype::{compatible_spec, SupertypeProvider};
use crate::transform::{rviews, Transform};
use crate::tree::{subtree_end, SyntaxNode, SyntaxTree};
use crate::validity::{push_range, Replacement};

verus! {

/// Proposals for replacing node `node` by a compatible named child, for the
/// nodes `node+1..k`, in order; `supers` gives the supertypes of a kind. A
/// node whose kind has no known supertype gets no proposal.
pub open spec fn unwrap_upto(
    ns: Seq<SyntaxNode>,
    source: Seq<u8>,
    node: int,
    supers: spec_fn(u16) -> Seq<u16>,
    k: int,
) -> Seq<(int, int, Seq<u8>)>
    decreases k - node,
{
    if k <= node + 1 {
        Seq::empty()
    } else {
        let rest = unwrap_upto(ns, source, node, supers, k - 1);
        let c = ns[k - 1];
        let n = ns[node];
        if c.parent == node && c.is_named && supers(n.kind_id).len() > 0 && compatible_spec(
            c.kind_id,
            n.kind_id,
            supers(c.kind_id),
            supers(n.kind_id),
        ) {
            rest.push(
                (
                    n.start_byte as int,
                    n.end_byte as int,
                    source.subrange(c.start_byte as int, c.end_byte as int),
                ),
            )
        } else {
            rest
        }
    }
}

/// Proposes replacing a node with one of its children that has a compatible
/// type; for example, replacing `(x + y)` (a parenthesized expression) with
/// `x + y`. Compatibility needs supertype information: where the provider
/// knows no supertype of the node's kind (always, with `EmptyProvider`),
/// nothing is proposed.
pub struct UnwrapTransform;

impl UnwrapTransform {
    /// One proposal per named child whose kind is compatible with the node's,
    /// in child order; nothing for anonymous nodes.
    pub open spec fn proposals(
        tree: SyntaxTree,
        node: int,
        source: Seq<u8>,
        supers: spec_fn(u16) -> Seq<u16>,
    ) -> Seq<(int, int, Seq<u8>)> {
        if tree.nodes@[node].is_named {
            unwrap_upto(tree.nodes@, source, node, supers, subtree_end(tree.nodes@, node))
        } else {
            Seq::empty()
        }
    }
}

impl Transform for UnwrapTransform {
    fn candidates(
        &self,
        tree: &SyntaxTree,
        node: usize,
        source: &[u8],
        provider: &dyn SupertypeProvider,
    ) -> (r: Vec<Replacement>)
        ensures
            rviews(r@) == UnwrapTransform::proposals(
                *tree,
                node as int,
                source@,
                |k: u16| provider.supers(k),
            ),
    {
        let ghost supers = |k: u16| provider.supers(k);
        let ghost ns = tree.nodes@;
        let mut candidates: Vec<Replacement> = Vec::new();
        if !tree.nodes[node].is_named {
            assert(rviews(candidates@) =~= Seq::empty());
            return candidates;
        }
        let node_kind = tree.nodes[node].kind_id;
        let informed = provider.supertypes_for(node_kind).len() > 0;
        let e = tree.subtree_end(node);
        proof {
            crate::tree::lemma_subtree_end(ns, node as int);
        }
        let mut j = node + 1;
        while j < e
            invariant
                ns == tree.nodes@,
                tree.wf(),
                tree.source_len == source@.len(),
                node < j <= e,
                e <= ns.len(),
                node_kind == ns[node as int].kind_id,
                supers == |k: u16| provider.supers(k),
                informed == (supers(node_kind).len() > 0),
                rviews(candidates@) == unwrap_upto(ns, source@, node as int, supers, j as int),
            decreases e - j,
        {
            let child = &tree.nodes[j];
            if child.parent == node && child.is_named && informed && provider.is_compatible(
                child.kind_id,
                node_kind,
            ) {
                let mut bytes: Vec<u8> = Vec::new();
                push_range(&mut bytes, source, child.start_byte, child.end_byte);
                let ghost before = candidates@;
                candidates.push(
                    Replacement {
                        start_byte: tree.nodes[node].start_byte,
                        end_byte: tree.nodes[node].end_byte,
                        new_bytes: bytes,
                    },
                );
                proof {
                    assert(bytes@ =~= source@.subrange(
                        ns[j as int].start_byte as int,
                        ns[j as int].end_byte as int,
                    ));
                    assert(rviews(candidates@) =~= rviews(before).push(rview_last(candidates@)));
                }
            } else {
                proof {
                    assert(!(ns[j as int].parent == node && ns[j as int].is_named && supers(ns[node as int].kind_id).len() > 0 && compatible_spec(
                        ns[j as int].kind_id,
                        ns[node as int].kind_id,
                        supers(ns[j as int].kind_id),
                        supers(ns[node as int].kind_id),
                    )));
                }
            }
            j = j + 1;
        }
        candidates
    }

    fn name(&self) -> (r: &str)
        ensures
            r@ == "unwrap"@,
    {
        "unwrap"
    }
}

spec fn rview_last(rs: Seq<Replacement>) -> (int, int, Seq<u8>) {
    crate::transform::rview(rs.last())
}

} // verus!
