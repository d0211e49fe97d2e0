//! The priority queue of the Perses-style reduction algorithm.
use vstd::prelude::*;

use crate::tree::{token_count, SyntaxNode, SyntaxTree};
use vstd::multiset::Multiset;

verus! {

broadcast use {vstd::seq_lib::group_to_multiset_ensures, vstd::multiset::group_multiset_axioms};

/// An entry in the reduction queue: a named node to try reducing.
/// Stores stable identifiers (byte ranges, not node handles) since nodes are
/// invalidated when the tree is reparsed.
#[derive(Debug, Clone, Copy, PartialEq, Eq, Structural)]
pub struct QueueEntry {
    /// Start byte of the node in the source.
    pub start_byte: usize,
    /// End byte of the node in the source.
    pub end_byte: usize,
    /// The node's kind ID (grammar symbol).
    pub kind_id: u16,
    /// Number of descendant leaf nodes (both named and anonymous).
    /// Larger nodes are tried first.
    pub token_count: usize,
}

/// `a` has at most the priority of `b`: fewer tokens, or as many tokens and
/// a start at or after `b`'s (earlier nodes are tried first on ties).
pub open spec fn prio_le(a: QueueEntry, b: QueueEntry) -> bool {
    a.token_count < b.token_count || (a.token_count == b.token_count && a.start_byte
        >= b.start_byte)
}

/// Entries in non-decreasing priority.
pub open spec fn sorted_by_prio(s: Seq<QueueEntry>) -> bool {
    forall|i: int, j: int| 0 <= i < j < s.len() ==> prio_le(#[trigger] s[i], #[trigger] s[j])
}

/// The queue entry describing node `i`.
pub open spec fn entry_of(ns: Seq<SyntaxNode>, i: int) -> QueueEntry {
    QueueEntry {
        start_byte: ns[i].start_byte,
        end_byte: ns[i].end_byte,
        kind_id: ns[i].kind_id,
        token_count: token_count(ns, i) as usize,
    }
}

/// Entries for the named nodes among the first `k` nodes, in preorder.
pub open spec fn named_entries_upto(ns: Seq<SyntaxNode>, k: int) -> Seq<QueueEntry>
    decreases k,
{
    if k <= 0 {
        Seq::empty()
    } else if ns[k - 1].is_named {
        named_entries_upto(ns, k - 1).push(entry_of(ns, k - 1))
    } else {
        named_entries_upto(ns, k - 1)
    }
}

/// Entries for all named nodes of a tree.
pub open spec fn named_entries(ns: Seq<SyntaxNode>) -> Seq<QueueEntry> {
    named_entries_upto(ns, ns.len() as int)
}

/// Whether `a` has at most the priority of `b`.
pub fn priority_le(a: &QueueEntry, b: &QueueEntry) -> (r: bool)
    ensures
        r == prio_le(*a, *b),
{
    a.token_count < b.token_count || (a.token_count == b.token_count && a.start_byte
        >= b.start_byte)
}

/// Merge two sorted lists into one sorted list with the same entries.
fn merge(a: Vec<QueueEntry>, b: Vec<QueueEntry>) -> (r: Vec<QueueEntry>)
    requires
        sorted_by_prio(a@),
        sorted_by_prio(b@),
    ensures
        sorted_by_prio(r@),
        r@.to_multiset() == a@.to_multiset().add(b@.to_multiset()),
{
    let mut r: Vec<QueueEntry> = Vec::new();
    let mut i: usize = 0;
    let mut j: usize = 0;
    while i < a.len() || j < b.len()
        invariant
            i <= a@.len(),
            j <= b@.len(),
            sorted_by_prio(a@),
            sorted_by_prio(b@),
            sorted_by_prio(r@),
            r@.len() == i + j,
            r@.to_multiset() == a@.take(i as int).to_multiset().add(b@.take(j as int).to_multiset()),
            r@.len() > 0 ==> forall|k: int| i <= k < a@.len() ==> prio_le(r@.last(), #[trigger] a@[k]),
            r@.len() > 0 ==> forall|k: int| j <= k < b@.len() ==> prio_le(r@.last(), #[trigger] b@[k]),
        decreases a@.len() + b@.len() - i - j,
    {
        let take_a = if i < a.len() && j < b.len() {
            priority_le(&a[i], &b[j])
        } else {
            i < a.len()
        };
        let ghost before = r@;
        if take_a {
            let e = a[i];
            r.push(e);
            proof {
                assert(a@.take(i + 1) =~= a@.take(i as int).push(e));
            }
            i = i + 1;
        } else {
            let e = b[j];
            r.push(e);
            proof {
                assert(b@.take(j + 1) =~= b@.take(j as int).push(e));
            }
            j = j + 1;
        }
        proof {
            assert forall|p: int, q: int| 0 <= p < q < r@.len() implies prio_le(
                #[trigger] r@[p],
                #[trigger] r@[q],
            ) by {
                if q == r@.len() - 1 && p < q {
                    assert(prio_le(r@[p], before.last()) || p == before.len() - 1);
                }
            }
        }
    }
    proof {
        assert(a@.take(a@.len() as int) =~= a@);
        assert(b@.take(b@.len() as int) =~= b@);
    }
    r
}

/// Sort entries into non-decreasing priority.
fn sort_entries(v: Vec<QueueEntry>) -> (r: Vec<QueueEntry>)
    ensures
        sorted_by_prio(r@),
        r@.to_multiset() == v@.to_multiset(),
    decreases v@.len(),
{
    let n = v.len();
    if n <= 1 {
        return v;
    }
    let mid = n / 2;
    let mut left: Vec<QueueEntry> = Vec::new();
    let mut right: Vec<QueueEntry> = Vec::new();
    let mut k: usize = 0;
    while k < n
        invariant
            n == v@.len(),
            mid < n,
            k <= n,
            k <= mid ==> left@ == v@.take(k as int) && right@.len() == 0,
            k > mid ==> left@ == v@.take(mid as int) && right@ == v@.subrange(mid as int, k as int),
        decreases n - k,
    {
        if k < mid {
            left.push(v[k]);
            assert(left@ =~= v@.take(k + 1));
        } else {
            right.push(v[k]);
            assert(right@ =~= v@.subrange(mid as int, k + 1));
        }
        k = k + 1;
    }
    proof {
        assert(v@ =~= left@ + right@);
        vstd::seq_lib::lemma_multiset_commutative(left@, right@);
    }
    let sl = sort_entries(left);
    let sr = sort_entries(right);
    merge(sl, sr)
}

/// Priority queue for the Perses-style reduction algorithm.
/// Nodes are ordered by token count (largest first).
pub struct ReductionQueue {
    /// Entries in non-decreasing priority: the next entry is the last one.
    entries: Vec<QueueEntry>,
}

/// What a call of `pop` does: with entries left it removes and returns one of
/// the highest priority; with none it returns `None` and leaves the queue empty.
pub open spec fn pop_post(
    before: Multiset<QueueEntry>,
    after: Multiset<QueueEntry>,
    r: Option<QueueEntry>,
) -> bool {
    match r {
        Some(e) => {
            &&& before == after.insert(e)
            &&& forall|x: QueueEntry| #[trigger] after.count(x) > 0 ==> prio_le(x, e)
        },
        None => before.len() == 0 && after.len() == 0,
    }
}

impl ReductionQueue {
    #[verifier::type_invariant]
    spec fn inv(&self) -> bool {
        sorted_by_prio(self.entries@)
    }

    /// The entries waiting in the queue.
    pub closed spec fn contents(&self) -> Multiset<QueueEntry> {
        self.entries@.to_multiset()
    }

    /// Entries for the named nodes of a tree, in preorder.
    fn collect_named(tree: &SyntaxTree) -> (r: Vec<QueueEntry>)
        ensures
            r@ == named_entries(tree.nodes@),
    {
        let ghost ns = tree.nodes@;
        let mut r: Vec<QueueEntry> = Vec::new();
        let mut i: usize = 0;
        while i < tree.nodes.len()
            invariant
                ns == tree.nodes@,
                i <= ns.len(),
                r@ == named_entries_upto(ns, i as int),
            decreases ns.len() - i,
        {
            if tree.nodes[i].is_named {
                let tc = tree.token_count(i);
                r.push(
                    QueueEntry {
                        start_byte: tree.nodes[i].start_byte,
                        end_byte: tree.nodes[i].end_byte,
                        kind_id: tree.nodes[i].kind_id,
                        token_count: tc,
                    },
                );
            }
            i = i + 1;
        }
        r
    }

    /// Build a queue from all named nodes in the tree.
    pub fn from_tree(tree: &SyntaxTree) -> (r: Self)
        ensures
            r.contents() == named_entries(tree.nodes@).to_multiset(),
    {
        let named = Self::collect_named(tree);
        ReductionQueue { entries: sort_entries(named) }
    }

    /// Rebuild the queue from a new tree (after a reduction was accepted).
    pub fn rebuild(&mut self, tree: &SyntaxTree)
        ensures
            final(self).contents() == named_entries(tree.nodes@).to_multiset(),
    {
        let named = Self::collect_named(tree);
        self.entries = sort_entries(named);
    }

    /// Pop the highest-priority entry (largest token count).
    pub fn pop(&mut self) -> (r: Option<QueueEntry>)
        ensures
            pop_post(old(self).contents(), final(self).contents(), r),
    {
        proof {
            use_type_invariant(&*self);
        }
        let ghost before = self.entries@;
        let mut entries: Vec<QueueEntry> = Vec::new();
        std::mem::swap(&mut entries, &mut self.entries);
        let r = entries.pop();
        proof {
            assert(sorted_by_prio(entries@));
        }
        self.entries = entries;
        proof {
            if let Some(e) = r {
                assert(before =~= self.entries@.push(e));
                assert forall|x: QueueEntry| #[trigger] self.entries@.to_multiset().count(x)
                    > 0 implies prio_le(x, e) by {
                    let k = choose|k: int| 0 <= k < self.entries@.len() && self.entries@[k] == x;
                    assert(before[k] == x);
                    assert(prio_le(before[k], before[before.len() - 1]));
                }
            }
        }
        r
    }

    /// Number of entries remaining.
    pub fn len(&self) -> (r: usize)
        ensures
            r == self.contents().len(),
    {
        self.entries.len()
    }

    /// Whether no entries remain.
    pub fn is_empty(&self) -> (r: bool)
        ensures
            r == (self.contents().len() == 0),
    {
        self.entries.len() == 0
    }
}

/// Entries come out of the queue in non-increasing priority: an entry popped
/// after another never has a higher priority.
pub proof fn law_pop_order(
    q0: Multiset<QueueEntry>,
    q1: Multiset<QueueEntry>,
    q2: Multiset<QueueEntry>,
    e1: QueueEntry,
    e2: QueueEntry,
)
    requires
        pop_post(q0, q1, Some(e1)),
        pop_post(q1, q2, Some(e2)),
    ensures
        prio_le(e2, e1),
{
    assert(q1.count(e2) > 0);
}

/// Every entry put into a queue comes out of it exactly once: popping until
/// `None` drains the queue, one entry per call.
pub proof fn law_pop_removes_one(
    q0: Multiset<QueueEntry>,
    q1: Multiset<QueueEntry>,
    r: Option<QueueEntry>,
)
    requires
        pop_post(q0, q1, r),
    ensures
        r is Some ==> q1.len() + 1 == q0.len(),
        r is None ==> q0.len() == 0,
{
}

} // verus!
