//! A flat, preorder model of a concrete syntax tree.
//!
//! Every node of the parse tree is stored in preorder (the order in which a
//! depth-first walk first reaches it), together with its depth and the index
//! of its parent. The structure of the tree is fully described by the depths:
//! the parent of a node is the nearest preceding node one level up, and the
//! subtree of a node is the contiguous run of following nodes that are deeper.
use vstd::prelude::*;

verus! {

/// One node of a syntax tree, with the values that the reducer reads.
pub struct SyntaxNode {
    /// Identity of the node in the parser's tree (stable across a parse).
    pub id: usize,
    /// Grammar symbol of the node.
    pub kind_id: u16,
    /// Name of the grammar symbol (e.g. "module", "ERROR").
    pub kind: String,
    pub start_byte: usize,
    pub end_byte: usize,
    /// Distance from the root (the root has depth 0).
    pub depth: usize,
    /// Index of the parent node in preorder (the root points at itself).
    pub parent: usize,
    pub is_named: bool,
    pub is_error: bool,
    pub is_missing: bool,
}

/// A syntax tree in preorder over a source text of `source_len` bytes.
pub struct SyntaxTree {
    pub nodes: Vec<SyntaxNode>,
    pub source_len: usize,
}

/// The parent of node `i` is the nearest preceding node one level up, and its
/// byte range encloses the range of node `i`.
pub open spec fn parent_ok(ns: Seq<SyntaxNode>, i: int) -> bool {
    let p = ns[i].parent as int;
    &&& 0 <= p < i
    &&& ns[p].depth + 1 == ns[i].depth
    &&& forall|j: int| p < j < i ==> #[trigger] ns[j].depth >= ns[i].depth
    &&& ns[p].start_byte <= ns[i].start_byte
    &&& ns[i].end_byte <= ns[p].end_byte
}

/// Well-formedness of a preorder node sequence over `len` source bytes.
pub open spec fn nodes_wf(ns: Seq<SyntaxNode>, len: nat) -> bool {
    &&& ns.len() >= 1
    &&& ns[0].depth == 0
    &&& ns[0].parent == 0
    &&& forall|i: int| 0 <= i < ns.len() ==> #[trigger] ns[i].start_byte <= ns[i].end_byte
    &&& forall|i: int| 0 <= i < ns.len() ==> #[trigger] ns[i].end_byte <= len
    &&& forall|i: int| 1 <= i < ns.len() ==> #[trigger] parent_ok(ns, i)
}

/// A node is a leaf when the next node in preorder is not one of its children.
pub open spec fn is_leaf(ns: Seq<SyntaxNode>, k: int) -> bool {
    k + 1 >= ns.len() || ns[k + 1].depth <= ns[k].depth
}

/// The first index after `i`, starting the scan at `j`, whose depth is not
/// greater than that of `i` (or the length of the sequence).
pub open spec fn scan_end(ns: Seq<SyntaxNode>, i: int, j: int) -> int
    decreases ns.len() - j,
{
    if j >= ns.len() || j < 0 || ns[j].depth <= ns[i].depth {
        j
    } else {
        scan_end(ns, i, j + 1)
    }
}

/// One past the last node of the subtree rooted at `i`.
pub open spec fn subtree_end(ns: Seq<SyntaxNode>, i: int) -> int {
    scan_end(ns, i, i + 1)
}

/// Node `d` lies in the subtree rooted at `a` (a node is in its own subtree).
pub open spec fn in_subtree(ns: Seq<SyntaxNode>, a: int, d: int) -> bool {
    a <= d < subtree_end(ns, a)
}

/// Number of leaves among the nodes `lo..hi`.
pub open spec fn leaves_between(ns: Seq<SyntaxNode>, lo: int, hi: int) -> nat
    decreases hi - lo,
{
    if hi <= lo {
        0
    } else {
        leaves_between(ns, lo, hi - 1) + if is_leaf(ns, hi - 1) {
            1nat
        } else {
            0nat
        }
    }
}

/// Number of leaves (nodes without children, named or anonymous) in the
/// subtree rooted at `i`.
pub open spec fn token_count(ns: Seq<SyntaxNode>, i: int) -> nat {
    leaves_between(ns, i, subtree_end(ns, i))
}

pub proof fn lemma_scan_end_bounds(ns: Seq<SyntaxNode>, i: int, j: int)
    requires
        0 <= i < j <= ns.len(),
    ensures
        j <= scan_end(ns, i, j) <= ns.len(),
        forall|k: int| j <= k < scan_end(ns, i, j) ==> ns[k].depth > ns[i].depth,
        scan_end(ns, i, j) < ns.len() ==> ns[scan_end(ns, i, j)].depth <= ns[i].depth,
    decreases ns.len() - j,
{
    if j < ns.len() && ns[j].depth > ns[i].depth {
        lemma_scan_end_bounds(ns, i, j + 1);
    }
}

/// Characterizes the end of a subtree by the depths around it.
pub proof fn lemma_subtree_end(ns: Seq<SyntaxNode>, i: int)
    requires
        0 <= i < ns.len(),
    ensures
        i < subtree_end(ns, i) <= ns.len(),
        forall|k: int| i < k < subtree_end(ns, i) ==> ns[k].depth > ns[i].depth,
        subtree_end(ns, i) < ns.len() ==> ns[subtree_end(ns, i)].depth <= ns[i].depth,
{
    lemma_scan_end_bounds(ns, i, i + 1);
}

/// If the scan stops at `e`, `e` is the subtree end.
pub proof fn lemma_subtree_end_unique(ns: Seq<SyntaxNode>, i: int, e: int)
    requires
        0 <= i < e <= ns.len(),
        forall|k: int| i < k < e ==> ns[k].depth > ns[i].depth,
        e < ns.len() ==> ns[e].depth <= ns[i].depth,
    ensures
        subtree_end(ns, i) == e,
{
    lemma_subtree_end(ns, i);
    let s = subtree_end(ns, i);
    if s < e {
        assert(ns[s].depth > ns[i].depth);
    } else if e < s {
        assert(ns[e].depth > ns[i].depth);
    }
}

impl SyntaxTree {
    pub open spec fn wf(&self) -> bool {
        nodes_wf(self.nodes@, self.source_len as nat)
    }

    /// Number of nodes in the tree.
    pub fn node_count(&self) -> (n: usize)
        ensures
            n == self.nodes@.len(),
    {
        self.nodes.len()
    }

    /// Index one past the last node of the subtree rooted at `i`.
    pub fn subtree_end(&self, i: usize) -> (e: usize)
        requires
            i < self.nodes@.len(),
        ensures
            e == subtree_end(self.nodes@, i as int),
    {
        let ghost ns = self.nodes@;
        let n = self.nodes.len();
        let d = self.nodes[i].depth;
        let mut j = i + 1;
        while j < n && self.nodes[j].depth > d
            invariant
                ns == self.nodes@,
                n == ns.len(),
                d == ns[i as int].depth,
                i < j <= n,
                forall|k: int| i < k < j ==> ns[k].depth > d,
            decreases n - j,
        {
            j = j + 1;
        }
        proof {
            lemma_subtree_end_unique(ns, i as int, j as int);
        }
        j
    }

    /// Whether node `k` has no children.
    pub fn is_leaf(&self, k: usize) -> (b: bool)
        requires
            k < self.nodes@.len(),
        ensures
            b == is_leaf(self.nodes@, k as int),
    {
        k >= self.nodes.len() - 1 || self.nodes[k + 1].depth <= self.nodes[k].depth
    }

    /// Number of leaf nodes (tokens) in the subtree rooted at `i`.
    pub fn token_count(&self, i: usize) -> (c: usize)
        requires
            i < self.nodes@.len(),
        ensures
            c == token_count(self.nodes@, i as int),
    {
        let ghost ns = self.nodes@;
        let e = self.subtree_end(i);
        proof {
            lemma_subtree_end(ns, i as int);
        }
        let mut c: usize = 0;
        let mut k = i;
        while k < e
            invariant
                ns == self.nodes@,
                i <= k <= e,
                e <= ns.len(),
                c == leaves_between(ns, i as int, k as int),
                c <= k - i,
            decreases e - k,
        {
            if self.is_leaf(k) {
                c = c + 1;
            }
            k = k + 1;
        }
        c
    }
}

/// Two nodes agree on everything but the parent link.
pub open spec fn same_except_parent(a: SyntaxNode, b: SyntaxNode) -> bool {
    &&& a.id == b.id
    &&& a.kind_id == b.kind_id
    &&& a.kind == b.kind
    &&& a.start_byte == b.start_byte
    &&& a.end_byte == b.end_byte
    &&& a.depth == b.depth
    &&& a.is_named == b.is_named
    &&& a.is_error == b.is_error
    &&& a.is_missing == b.is_missing
}

/// `l` is the latest node before `i` at depth `d`.
spec fn last_ok(ns: Seq<SyntaxNode>, l: int, d: int, i: int) -> bool {
    &&& 0 <= l < i
    &&& ns[l].depth == d
    &&& forall|j: int| l < j < i ==> #[trigger] ns[j].depth > d
}

/// The latest node before `i` whose depth is `d`, or -1 when there is none.
pub open spec fn latest_at(ns: Seq<SyntaxNode>, i: int, d: int) -> int
    decreases i,
{
    if i <= 0 {
        -1
    } else if ns[i - 1].depth == d {
        i - 1
    } else {
        latest_at(ns, i - 1, d)
    }
}

/// Node `k` fits in a tree over `len` bytes: its range lies in the source,
/// and (but for the first node) it sits at most one level below the node
/// before it, inside the latest node one level up.
pub open spec fn node_fits(ns: Seq<SyntaxNode>, k: int, len: nat) -> bool {
    &&& ns[k].start_byte <= ns[k].end_byte
    &&& ns[k].end_byte <= len
    &&& k > 0 ==> {
        let p = latest_at(ns, k, ns[k].depth - 1);
        &&& 1 <= ns[k].depth <= ns[k - 1].depth + 1
        &&& ns[p].start_byte <= ns[k].start_byte
        &&& ns[k].end_byte <= ns[p].end_byte
    }
}

/// The nodes, in preorder with their depths, describe a tree over `len`
/// bytes: there is a root at depth 0 and every node fits.
pub open spec fn linkable(ns: Seq<SyntaxNode>, len: nat) -> bool {
    &&& ns.len() > 0
    &&& ns[0].depth == 0
    &&& forall|k: int| 0 <= k < ns.len() ==> #[trigger] node_fits(ns, k, len)
}

/// The latest node at depth `d` before `i` is `l` when `l` has that depth
/// and every node between them lies deeper.
proof fn lemma_latest_at(ns: Seq<SyntaxNode>, orig: Seq<SyntaxNode>, l: int, d: int, i: int)
    requires
        last_ok(ns, l, d, i),
        i <= ns.len(),
        ns.len() == orig.len(),
        forall|k: int| 0 <= k < ns.len() ==> #[trigger] ns[k].depth == orig[k].depth,
    ensures
        latest_at(orig, i, d) == l,
    decreases i,
{
    assert(ns[i - 1].depth == orig[i - 1].depth);
    if l < i - 1 {
        assert(ns[i - 1].depth > d);
        assert forall|j: int| l < j < i - 1 implies #[trigger] ns[j].depth > d by {
            assert(ns[j].depth > d);
        }
        lemma_latest_at(ns, orig, l, d, i - 1);
    }
}

/// Links a preorder sequence of nodes, given their depths, into a tree:
/// computes every parent and checks that the depths and byte ranges describe
/// a tree over `source_len` bytes. Returns `None` when they do not.
pub fn link_nodes(raw: Vec<SyntaxNode>, source_len: usize) -> (r: Option<SyntaxTree>)
    ensures
        r is Some <==> linkable(raw@, source_len as nat),
        r matches Some(t) ==> {
            &&& t.wf()
            &&& t.source_len == source_len
            &&& t.nodes@.len() == raw@.len()
            &&& forall|i: int|
                0 <= i < raw@.len() ==> same_except_parent(#[trigger] t.nodes@[i], raw@[i])
        },
{
    let n = raw.len();
    if n == 0 {
        return None;
    }
    let mut nodes = raw;
    let ghost orig = raw@;
    if nodes[0].depth != 0 || nodes[0].start_byte > nodes[0].end_byte || nodes[0].end_byte > source_len {
        proof {
            if nodes@[0].depth == 0 {
                assert(!node_fits(orig, 0, source_len as nat));
            }
        }
        return None;
    }
    nodes[0].parent = 0;
    // last[d] is the latest node seen so far at depth d, for each depth on
    // the path from the root to the previous node.
    let mut last: Vec<usize> = Vec::new();
    last.push(0);
    let mut i: usize = 1;
    while i < n
        invariant
            1 <= i <= n,
            n == nodes@.len(),
            n == orig.len(),
            nodes@[0].depth == 0,
            nodes@[0].parent == 0,
            forall|k: int| 0 <= k < n ==> same_except_parent(#[trigger] nodes@[k], orig[k]),
            forall|k: int| 0 <= k < i ==> #[trigger] nodes@[k].start_byte <= nodes@[k].end_byte,
            forall|k: int| 0 <= k < i ==> #[trigger] nodes@[k].end_byte <= source_len,
            forall|k: int| 1 <= k < i ==> #[trigger] parent_ok(nodes@, k),
            orig[0].depth == 0,
            orig == raw@,
            forall|k: int| 0 <= k < i ==> #[trigger] node_fits(orig, k, source_len as nat),
            last@.len() == nodes@[i - 1].depth + 1,
            last@[last@.len() - 1] == i - 1,
            forall|d: int| 0 <= d < last@.len() ==> last_ok(nodes@, #[trigger] last@[d] as int, d, i as int),
        decreases n - i,
    {
        let d = nodes[i].depth;
        proof {
            assert(same_except_parent(nodes@[i as int], orig[i as int]));
            assert(same_except_parent(nodes@[i - 1], orig[i - 1]));
        }
        if d == 0 || d > last.len() || nodes[i].start_byte > nodes[i].end_byte || nodes[i].end_byte
            > source_len {
            assert(!node_fits(orig, i as int, source_len as nat));
            return None;
        }
        let p = last[d - 1];
        proof {
            assert(last_ok(nodes@, p as int, d - 1, i as int));
            assert forall|k: int| 0 <= k < nodes@.len() implies #[trigger] nodes@[k].depth
                == orig[k].depth by {
                assert(same_except_parent(nodes@[k], orig[k]));
            }
            lemma_latest_at(nodes@, orig, p as int, d - 1, i as int);
            assert(same_except_parent(nodes@[p as int], orig[p as int]));
        }
        if nodes[p].start_byte > nodes[i].start_byte || nodes[i].end_byte > nodes[p].end_byte {
            assert(!node_fits(orig, i as int, source_len as nat));
            return None;
        }
        assert(node_fits(orig, i as int, source_len as nat));
        let ghost before = nodes@;
        let ghost last_before = last@;
        nodes[i].parent = p;
        proof {
            assert forall|k: int| 1 <= k < i implies #[trigger] parent_ok(nodes@, k) by {
                assert(nodes@[k] == before[k]);
                assert(parent_ok(before, k));
                assert forall|j: int| nodes@[k].parent < j < k implies #[trigger] nodes@[j].depth
                    >= nodes@[k].depth by {
                    assert(nodes@[j] == before[j]);
                }
            }
            let ii = i as int;
            assert forall|j: int| p < j < ii implies #[trigger] nodes@[j].depth >= nodes@[ii].depth by {
                assert(nodes@[j] == before[j]);
                assert(before[j].depth > d - 1);
            }
            assert(parent_ok(nodes@, i as int));
        }
        last.truncate(d);
        last.push(i);
        proof {
            assert forall|dd: int| 0 <= dd < last@.len() implies last_ok(nodes@, #[trigger] last@[dd] as int, dd, i + 1) by {
                if dd < d {
                    assert(last@[dd] == last_before[dd]);
                    assert(last_ok(before, last_before[dd] as int, dd, i as int));
                    assert forall|j: int| last@[dd] < j < i + 1 implies #[trigger] nodes@[j].depth
                        > dd by {
                        if j < i {
                            assert(nodes@[j] == before[j]);
                        }
                    }
                }
            }
        }
        i = i + 1;
    }
    Some(SyntaxTree { nodes: nodes, source_len })
}

} // verus!
