//! Scope analysis using tree-sitter `locals.scm` queries.
//!
//! Builds a mapping of scopes, definitions, and references from a parse tree
//! using the `@local.scope`, `@local.definition`, and `@local.reference`
//! captures of the query. A node is identified by its position in the
//! preorder of the [`SyntaxTree`]; the root (position 0) is always a scope.
//!
//! Each definition belongs to the innermost scope that contains it. A
//! reference resolves to a definition with the same name: the scopes that
//! contain the reference are searched innermost first, and within a scope
//! the nearest preceding definition wins (so re-bindings shadow earlier ones).
use vstd::prelude::*;

use crate::tree::{SyntaxNode, SyntaxTree};
use crate::validity::node_text;

verus! {

/// A definition found by scope analysis.
#[derive(Debug, Clone)]
pub struct Definition {
    /// The position of the defining node in the tree.
    pub node_id: usize,
    /// The name of the defined identifier.
    pub name: String,
    /// Byte range of the definition node.
    pub start_byte: usize,
    pub end_byte: usize,
    /// The position of the node of the scope containing this definition.
    pub scope_node_id: usize,
}

/// A reference found by scope analysis.
#[derive(Debug, Clone)]
pub struct Reference {
    /// The position of the referencing node in the tree.
    pub node_id: usize,
    /// The name being referenced.
    pub name: String,
    /// Byte range of the reference node.
    pub start_byte: usize,
    pub end_byte: usize,
    /// The definition this reference resolves to, if one was found.
    pub definition_node_id: Option<usize>,
}

/// A scope node with its byte range for containment checks.
pub struct ScopeNode {
    pub start_byte: usize,
    pub end_byte: usize,
    pub node_id: usize,
}

/// One capture of a query match: the capture's index in the query, and the
/// position of the captured node in the tree.
pub struct Capture {
    pub index: u32,
    pub node: usize,
}

/// Every capture names a node of the tree.
pub open spec fn captures_ok(ns: Seq<SyntaxNode>, caps: Seq<Capture>) -> bool {
    forall|i: int| 0 <= i < caps.len() ==> #[trigger] caps[i].node < ns.len()
}

/// The capture carries the capture index `idx` (when the query has one).
pub open spec fn tagged(c: Capture, idx: Option<u32>) -> bool {
    idx == Some(c.index)
}

/// The scope of node `p`.
pub open spec fn node_scope(ns: Seq<SyntaxNode>, p: int) -> ScopeNode {
    ScopeNode { start_byte: ns[p].start_byte, end_byte: ns[p].end_byte, node_id: p as usize }
}

/// The scopes: the root first, then each node captured as a scope, in
/// capture order.
pub open spec fn scope_list(ns: Seq<SyntaxNode>, caps: Seq<Capture>, sidx: Option<u32>) -> Seq<
    ScopeNode,
>
    decreases caps.len(),
{
    if caps.len() == 0 {
        seq![node_scope(ns, 0)]
    } else {
        let prev = scope_list(ns, caps.drop_last(), sidx);
        if tagged(caps.last(), sidx) {
            prev.push(node_scope(ns, caps.last().node as int))
        } else {
            prev
        }
    }
}

/// The scope contains the byte range `start..end`.
pub open spec fn covers(s: ScopeNode, start: int, end: int) -> bool {
    s.start_byte <= start && end <= s.end_byte
}

/// Size of a scope in bytes.
pub open spec fn size(s: ScopeNode) -> int {
    s.end_byte - s.start_byte
}

/// Scope `j` is searched before scope `k`: it is smaller, or as large and
/// starts earlier, or starts at the same byte and was found earlier.
pub open spec fn scope_before(ss: Seq<ScopeNode>, j: int, k: int) -> bool {
    ||| size(ss[j]) < size(ss[k])
    ||| size(ss[j]) == size(ss[k]) && ss[j].start_byte < ss[k].start_byte
    ||| size(ss[j]) == size(ss[k]) && ss[j].start_byte == ss[k].start_byte && j < k
}

/// Scope `j` is the innermost scope containing `start..end`.
pub open spec fn innermost(ss: Seq<ScopeNode>, j: int, start: int, end: int) -> bool {
    &&& 0 <= j < ss.len()
    &&& covers(ss[j], start, end)
    &&& forall|k: int|
        0 <= k < ss.len() && k != j && #[trigger] covers(ss[k], start, end) ==> scope_before(
            ss,
            j,
            k,
        )
}

/// The node of the innermost scope containing `start..end`, or the root when
/// no scope contains it.
pub open spec fn enclosing_scope(ss: Seq<ScopeNode>, start: int, end: int) -> usize {
    if exists|j: int| innermost(ss, j, start, end) {
        ss[choose|j: int| innermost(ss, j, start, end)].node_id
    } else {
        0
    }
}

/// There is at most one innermost scope.
pub proof fn lemma_innermost_unique(ss: Seq<ScopeNode>, j: int, k: int, start: int, end: int)
    requires
        innermost(ss, j, start, end),
        innermost(ss, k, start, end),
    ensures
        j == k,
{
    if j != k {
        assert(covers(ss[k], start, end));
        assert(covers(ss[j], start, end));
        assert(scope_before(ss, j, k));
        assert(scope_before(ss, k, j));
    }
}

/// Every scope's range is well ordered.
pub open spec fn scopes_ok(ss: Seq<ScopeNode>) -> bool {
    forall|i: int| 0 <= i < ss.len() ==> #[trigger] ss[i].start_byte <= ss[i].end_byte
}

/// Whether scope `j` is searched before scope `k`.
fn before(ss: &Vec<ScopeNode>, j: usize, k: usize) -> (r: bool)
    requires
        j < ss@.len(),
        k < ss@.len(),
        scopes_ok(ss@),
    ensures
        r == scope_before(ss@, j as int, k as int),
{
    let sj = ss[j].end_byte - ss[j].start_byte;
    let sk = ss[k].end_byte - ss[k].start_byte;
    sj < sk || (sj == sk && ss[j].start_byte < ss[k].start_byte) || (sj == sk && ss[j].start_byte
        == ss[k].start_byte && j < k)
}

/// The innermost scope containing `start..end`, if any scope contains it.
fn innermost_index(ss: &Vec<ScopeNode>, start: usize, end: usize) -> (r: Option<usize>)
    requires
        scopes_ok(ss@),
    ensures
        match r {
            Some(j) => innermost(ss@, j as int, start as int, end as int),
            None => forall|k: int| 0 <= k < ss@.len() ==> !#[trigger] covers(ss@[k], start as int, end as int),
        },
{
    let mut best: Option<usize> = None;
    let mut k: usize = 0;
    while k < ss.len()
        invariant
            k <= ss@.len(),
            scopes_ok(ss@),
            match best {
                Some(j) => {
                    &&& j < k
                    &&& covers(ss@[j as int], start as int, end as int)
                    &&& forall|m: int|
                        0 <= m < k && m != j && #[trigger] covers(ss@[m], start as int, end as int)
                            ==> scope_before(ss@, j as int, m)
                },
                None => forall|m: int| 0 <= m < k ==> !#[trigger] covers(ss@[m], start as int, end as int),
            },
        decreases ss@.len() - k,
    {
        if ss[k].start_byte <= start && end <= ss[k].end_byte {
            match best {
                None => {
                    best = Some(k);
                },
                Some(j) => {
                    if before(ss, k, j) {
                        best = Some(k);
                    }
                },
            }
        }
        k = k + 1;
    }
    best
}

/// The node of the innermost scope containing `start..end`, or the root.
fn enclosing(ss: &Vec<ScopeNode>, start: usize, end: usize) -> (r: usize)
    requires
        scopes_ok(ss@),
    ensures
        r == enclosing_scope(ss@, start as int, end as int),
{
    match innermost_index(ss, start, end) {
        Some(j) => {
            proof {
                let c = choose|c: int| innermost(ss@, c, start as int, end as int);
                lemma_innermost_unique(ss@, c, j as int, start as int, end as int);
            }
            ss[j].node_id
        },
        None => {
            proof {
                if exists|c: int| innermost(ss@, c, start as int, end as int) {
                    let c = choose|c: int| innermost(ss@, c, start as int, end as int);
                    assert(covers(ss@[c], start as int, end as int));
                }
            }
            0
        },
    }
}

/// The scopes of a tree and its captures, as `scope_list` describes them.
fn scope_nodes(tree: &SyntaxTree, caps: &Vec<Capture>, sidx: Option<u32>) -> (r: Vec<ScopeNode>)
    requires
        tree.wf(),
        captures_ok(tree.nodes@, caps@),
    ensures
        r@ == scope_list(tree.nodes@, caps@, sidx),
        scopes_ok(r@),
{
    let mut r: Vec<ScopeNode> = Vec::new();
    r.push(
        ScopeNode {
            start_byte: tree.nodes[0].start_byte,
            end_byte: tree.nodes[0].end_byte,
            node_id: 0,
        },
    );
    let mut i: usize = 0;
    while i < caps.len()
        invariant
            i <= caps@.len(),
            tree.wf(),
            captures_ok(tree.nodes@, caps@),
            r@ == scope_list(tree.nodes@, caps@.take(i as int), sidx),
            scopes_ok(r@),
        decreases caps@.len() - i,
    {
        proof {
            assert(caps@.take(i + 1).drop_last() =~= caps@.take(i as int));
        }
        let is_scope = match sidx {
            Some(s) => caps[i].index == s,
            None => false,
        };
        if is_scope {
            let p = caps[i].node;
            r.push(
                ScopeNode {
                    start_byte: tree.nodes[p].start_byte,
                    end_byte: tree.nodes[p].end_byte,
                    node_id: p,
                },
            );
        }
        i = i + 1;
    }
    proof {
        assert(caps@.take(caps@.len() as int) =~= caps@);
    }
    r
}

/// `std::str::from_utf8` of a byte string: its text when the bytes are
/// valid UTF-8, else `None`.
pub uninterp spec fn utf8_decoded(bytes: Seq<u8>) -> Option<Seq<char>>;

/// Calls `std::str::from_utf8`; the answer depends on the bytes alone.
#[verifier::external_body]
fn utf8_text(bytes: &[u8]) -> (r: Option<String>)
    ensures
        match r {
            Some(t) => utf8_decoded(bytes@) == Some(t@),
            None => utf8_decoded(bytes@) is None,
        },
{
    std::str::from_utf8(bytes).ok().map(|t| t.to_string())
}

/// The name of a node: its source text, or nothing when that text is not
/// valid UTF-8.
pub open spec fn node_name(source: Seq<u8>, n: SyntaxNode) -> Seq<char> {
    match utf8_decoded(node_text(source, n)) {
        Some(t) => t,
        None => Seq::empty(),
    }
}

/// The name of node `p`.
fn name_of(tree: &SyntaxTree, source: &[u8], p: usize) -> (r: String)
    requires
        tree.wf(),
        tree.source_len == source@.len(),
        p < tree.nodes@.len(),
    ensures
        r@ == node_name(source@, tree.nodes@[p as int]),
{
    let mut bytes: Vec<u8> = Vec::new();
    crate::validity::push_range(&mut bytes, source, tree.nodes[p].start_byte, tree.nodes[p].end_byte);
    assert(bytes@ =~= node_text(source@, tree.nodes@[p as int]));
    match utf8_text(bytes.as_slice()) {
        Some(t) => t,
        None => String::new(),
    }
}

/// The scope that the node at position `p` belongs to.
pub open spec fn def_scope(ns: Seq<SyntaxNode>, caps: Seq<Capture>, sidx: Option<u32>, p: int) -> usize {
    enclosing_scope(scope_list(ns, caps, sidx), ns[p].start_byte as int, ns[p].end_byte as int)
}

/// Node `p` is captured with the capture index `idx`.
pub open spec fn captured(caps: Seq<Capture>, idx: Option<u32>, p: int) -> bool {
    exists|i: int| 0 <= i < caps.len() && tagged(caps[i], idx) && caps[i].node == p
}

/// The definition describes its node: name, range and scope.
pub open spec fn def_ok(
    ns: Seq<SyntaxNode>,
    source: Seq<u8>,
    caps: Seq<Capture>,
    sidx: Option<u32>,
    d: Definition,
) -> bool {
    &&& d.node_id < ns.len()
    &&& d.name@ == node_name(source, ns[d.node_id as int])
    &&& d.start_byte == ns[d.node_id as int].start_byte
    &&& d.end_byte == ns[d.node_id as int].end_byte
    &&& d.scope_node_id == def_scope(ns, caps, sidx, d.node_id as int)
}

/// The definitions: one for each node among the first `upto` captures
/// that is captured as a definition, and no other.
pub open spec fn defs_upto(
    ns: Seq<SyntaxNode>,
    source: Seq<u8>,
    caps: Seq<Capture>,
    sidx: Option<u32>,
    didx: Option<u32>,
    upto: int,
    defs: Seq<Definition>,
) -> bool {
    &&& forall|k: int|
        0 <= k < defs.len() ==> def_ok(ns, source, caps, sidx, #[trigger] defs[k]) && exists|j: int|
            0 <= j < upto && tagged(caps[j], didx) && caps[j].node == defs[k].node_id
    &&& forall|j: int|
        0 <= j < upto && #[trigger] tagged(caps[j], didx) ==> exists|k: int|
            0 <= k < defs.len() && defs[k].node_id == caps[j].node
    &&& forall|k1: int, k2: int|
        0 <= k1 < defs.len() && 0 <= k2 < defs.len() && k1 != k2 ==> #[trigger] defs[k1].node_id
            != #[trigger] defs[k2].node_id
}

/// The definitions: one for each node captured as a definition, and no other.
pub open spec fn defs_describe(
    ns: Seq<SyntaxNode>,
    source: Seq<u8>,
    caps: Seq<Capture>,
    sidx: Option<u32>,
    didx: Option<u32>,
    defs: Seq<Definition>,
) -> bool {
    defs_upto(ns, source, caps, sidx, didx, caps.len() as int, defs)
}

/// The nodes, in capture order, of the first `upto` captures that are
/// definitions belonging to scope `s` (a node captured twice appears twice).
pub open spec fn defs_in_scope(
    ns: Seq<SyntaxNode>,
    caps: Seq<Capture>,
    sidx: Option<u32>,
    didx: Option<u32>,
    upto: int,
    s: usize,
) -> Seq<usize>
    decreases upto,
{
    if upto <= 0 {
        Seq::empty()
    } else {
        let prev = defs_in_scope(ns, caps, sidx, didx, upto - 1, s);
        let c = caps[upto - 1];
        if tagged(c, didx) && def_scope(ns, caps, sidx, c.node as int) == s {
            prev.push(c.node)
        } else {
            prev
        }
    }
}

/// The scope table: for each scope holding a definition, its definitions in
/// capture order; each scope once.
pub open spec fn table_describes(
    ns: Seq<SyntaxNode>,
    caps: Seq<Capture>,
    sidx: Option<u32>,
    didx: Option<u32>,
    upto: int,
    keys: Seq<usize>,
    lists: Seq<Seq<usize>>,
) -> bool {
    &&& keys.len() == lists.len()
    &&& forall|k: int|
        0 <= k < keys.len() ==> #[trigger] lists[k] == defs_in_scope(
            ns,
            caps,
            sidx,
            didx,
            upto,
            keys[k],
        ) && lists[k].len() > 0
    &&& forall|i: int|
        0 <= i < upto && #[trigger] tagged(caps[i], didx) ==> keys.contains(
            def_scope(ns, caps, sidx, caps[i].node as int),
        )
    &&& forall|k1: int, k2: int|
        0 <= k1 < keys.len() && 0 <= k2 < keys.len() && k1 != k2 ==> #[trigger] keys[k1]
            != #[trigger] keys[k2]
}

/// A scope that holds no definition among the first `upto` captures has an
/// empty list.
proof fn lemma_defs_in_scope_empty(
    ns: Seq<SyntaxNode>,
    caps: Seq<Capture>,
    sidx: Option<u32>,
    didx: Option<u32>,
    upto: int,
    s: usize,
)
    requires
        0 <= upto <= caps.len(),
        forall|i: int|
            0 <= i < upto && #[trigger] tagged(caps[i], didx) ==> def_scope(
                ns,
                caps,
                sidx,
                caps[i].node as int,
            ) != s,
    ensures
        defs_in_scope(ns, caps, sidx, didx, upto, s).len() == 0,
    decreases upto,
{
    if upto > 0 {
        lemma_defs_in_scope_empty(ns, caps, sidx, didx, upto - 1, s);
    }
}

/// Position of `key` in `keys`, if present.
fn find_key(keys: &Vec<usize>, key: usize) -> (r: Option<usize>)
    ensures
        match r {
            Some(k) => k < keys@.len() && keys@[k as int] == key,
            None => !keys@.contains(key),
        },
{
    let mut k: usize = 0;
    while k < keys.len()
        invariant
            k <= keys@.len(),
            forall|m: int| 0 <= m < k ==> keys@[m] != key,
        decreases keys@.len() - k,
    {
        if keys[k] == key {
            return Some(k);
        }
        k = k + 1;
    }
    None
}

/// Whether some definition is of node `p`.
fn has_def(defs: &Vec<Definition>, p: usize) -> (r: bool)
    ensures
        r <==> exists|k: int| 0 <= k < defs@.len() && defs@[k].node_id == p,
{
    let mut k: usize = 0;
    while k < defs.len()
        invariant
            k <= defs@.len(),
            forall|m: int| 0 <= m < k ==> defs@[m].node_id != p,
        decreases defs@.len() - k,
    {
        if defs[k].node_id == p {
            return true;
        }
        k = k + 1;
    }
    false
}

/// The lists of a scope table, as sequences.
pub open spec fn lists_view(lists: Seq<Vec<usize>>) -> Seq<Seq<usize>> {
    lists.map_values(|l: Vec<usize>| l@)
}

/// Record the definition captured by capture `i`.
fn add_definition(
    tree: &SyntaxTree,
    source: &[u8],
    caps: &Vec<Capture>,
    sidx: Option<u32>,
    didx: Option<u32>,
    i: usize,
    scope: usize,
    defs: &mut Vec<Definition>,
)
    requires
        tree.wf(),
        tree.source_len == source@.len(),
        captures_ok(tree.nodes@, caps@),
        i < caps@.len(),
        tagged(caps@[i as int], didx),
        scope == def_scope(tree.nodes@, caps@, sidx, caps@[i as int].node as int),
        defs_upto(tree.nodes@, source@, caps@, sidx, didx, i as int, old(defs)@),
    ensures
        defs_upto(tree.nodes@, source@, caps@, sidx, didx, i + 1, final(defs)@),
{
    let ghost ns = tree.nodes@;
    let p = caps[i].node;
    let ghost old_defs = defs@;
    if !has_def(&*defs, p) {
        let name = name_of(tree, source, p);
        defs.push(
            Definition {
                node_id: p,
                name,
                start_byte: tree.nodes[p].start_byte,
                end_byte: tree.nodes[p].end_byte,
                scope_node_id: scope,
            },
        );
    }
    proof {
        assert forall|k: int| 0 <= k < defs@.len() implies def_ok(
            ns,
            source@,
            caps@,
            sidx,
            #[trigger] defs@[k],
        ) && exists|j: int|
            0 <= j < i + 1 && tagged(caps@[j], didx) && caps@[j].node == defs@[k].node_id by {
            if k < old_defs.len() {
                assert(defs@[k] == old_defs[k]);
                let j = choose|j: int|
                    0 <= j < i && tagged(caps@[j], didx) && caps@[j].node == old_defs[k].node_id;
            } else {
                assert(tagged(caps@[i as int], didx) && caps@[i as int].node == defs@[k].node_id);
            }
        }
        assert(exists|k: int| 0 <= k < defs@.len() && defs@[k].node_id == p) by {
            if defs@.len() > old_defs.len() {
                assert(defs@[defs@.len() - 1].node_id == p);
            }
        }
        assert forall|j: int|
            0 <= j < i + 1 && #[trigger] tagged(caps@[j], didx) implies exists|k: int|
            0 <= k < defs@.len() && defs@[k].node_id == caps@[j].node by {
            if j < i {
                let k = choose|k: int|
                    0 <= k < old_defs.len() && old_defs[k].node_id == caps@[j].node;
                assert(defs@[k] == old_defs[k]);
            }
        }
    }
}

/// A capture that is not a definition changes no definition.
proof fn lemma_defs_skip(
    ns: Seq<SyntaxNode>,
    source: Seq<u8>,
    caps: Seq<Capture>,
    sidx: Option<u32>,
    didx: Option<u32>,
    i: int,
    defs: Seq<Definition>,
)
    requires
        0 <= i < caps.len(),
        !tagged(caps[i], didx),
        defs_upto(ns, source, caps, sidx, didx, i, defs),
    ensures
        defs_upto(ns, source, caps, sidx, didx, i + 1, defs),
{
    assert forall|k: int| 0 <= k < defs.len() implies exists|j: int|
        0 <= j < i + 1 && tagged(caps[j], didx) && caps[j].node == #[trigger] defs[k].node_id by {
        let j = choose|j: int| 0 <= j < i && tagged(caps[j], didx) && caps[j].node == defs[k].node_id;
    }
}

/// Record in the scope table that capture `i` is a definition in `scope`.
fn add_to_table(
    ns: Ghost<Seq<SyntaxNode>>,
    caps: &Vec<Capture>,
    sidx: Option<u32>,
    didx: Option<u32>,
    i: usize,
    scope: usize,
    keys: &mut Vec<usize>,
    lists: &mut Vec<Vec<usize>>,
)
    requires
        i < caps@.len(),
        tagged(caps@[i as int], didx),
        scope == def_scope(ns@, caps@, sidx, caps@[i as int].node as int),
        table_describes(ns@, caps@, sidx, didx, i as int, old(keys)@, lists_view(old(lists)@)),
    ensures
        table_describes(ns@, caps@, sidx, didx, i + 1, final(keys)@, lists_view(final(lists)@)),
{
    let p = caps[i].node;
    let ghost old_keys = keys@;
    let ghost old_lists = lists_view(lists@);
    match find_key(&*keys, scope) {
        Some(k) => {
            let mut l = lists[k].clone();
            l.push(p);
            lists.set(k, l);
            assert(keys@[k as int] == scope);
        },
        None => {
            proof {
                assert forall|j: int|
                    0 <= j < i && #[trigger] tagged(caps@[j], didx) implies def_scope(
                    ns@,
                    caps@,
                    sidx,
                    caps@[j].node as int,
                ) != scope by {
                    assert(old_keys.contains(def_scope(ns@, caps@, sidx, caps@[j].node as int)));
                }
                lemma_defs_in_scope_empty(ns@, caps@, sidx, didx, i as int, scope);
            }
            keys.push(scope);
            let mut l: Vec<usize> = Vec::new();
            l.push(p);
            lists.push(l);
            assert(keys@[keys@.len() - 1] == scope);
        },
    }
    proof {
        assert forall|k: int| 0 <= k < keys@.len() implies #[trigger] lists_view(lists@)[k]
            == defs_in_scope(ns@, caps@, sidx, didx, i + 1, keys@[k]) && lists_view(lists@)[k].len()
            > 0 by {
            if k < old_keys.len() && keys@[k] != scope {
                assert(lists_view(lists@)[k] == old_lists[k]);
            }
        }
        assert forall|j: int|
            0 <= j < i + 1 && #[trigger] tagged(caps@[j], didx) implies keys@.contains(
            def_scope(ns@, caps@, sidx, caps@[j].node as int),
        ) by {
            if j < i {
                let x = def_scope(ns@, caps@, sidx, caps@[j].node as int);
                assert(old_keys.contains(x));
                let m = choose|m: int| 0 <= m < old_keys.len() && old_keys[m] == x;
                assert(keys@[m] == x);
            } else {
                assert(keys@.contains(scope));
            }
        }
    }
}

/// A capture that is not a definition changes no list of the table.
proof fn lemma_table_skip(
    ns: Seq<SyntaxNode>,
    caps: Seq<Capture>,
    sidx: Option<u32>,
    didx: Option<u32>,
    i: int,
    keys: Seq<usize>,
    lists: Seq<Seq<usize>>,
)
    requires
        0 <= i < caps.len(),
        !tagged(caps[i], didx),
        table_describes(ns, caps, sidx, didx, i, keys, lists),
    ensures
        table_describes(ns, caps, sidx, didx, i + 1, keys, lists),
{
    assert forall|k: int| 0 <= k < keys.len() implies #[trigger] lists[k] == defs_in_scope(
        ns,
        caps,
        sidx,
        didx,
        i + 1,
        keys[k],
    ) by {
        assert(lists[k] == defs_in_scope(ns, caps, sidx, didx, i, keys[k]));
    }
}

/// The definitions and the scope table (keys and lists) of the captures.
fn collect_definitions(
    tree: &SyntaxTree,
    source: &[u8],
    caps: &Vec<Capture>,
    sidx: Option<u32>,
    didx: Option<u32>,
    ss: &Vec<ScopeNode>,
) -> (r: (Vec<Definition>, Vec<usize>, Vec<Vec<usize>>))
    requires
        tree.wf(),
        tree.source_len == source@.len(),
        captures_ok(tree.nodes@, caps@),
        ss@ == scope_list(tree.nodes@, caps@, sidx),
        scopes_ok(ss@),
    ensures
        defs_describe(tree.nodes@, source@, caps@, sidx, didx, r.0@),
        table_describes(
            tree.nodes@,
            caps@,
            sidx,
            didx,
            caps@.len() as int,
            r.1@,
            lists_view(r.2@),
        ),
{
    let ghost ns = tree.nodes@;
    let mut defs: Vec<Definition> = Vec::new();
    let mut keys: Vec<usize> = Vec::new();
    let mut lists: Vec<Vec<usize>> = Vec::new();
    let mut i: usize = 0;
    while i < caps.len()
        invariant
            ns == tree.nodes@,
            tree.wf(),
            tree.source_len == source@.len(),
            captures_ok(ns, caps@),
            ss@ == scope_list(ns, caps@, sidx),
            scopes_ok(ss@),
            i <= caps@.len(),
            defs_upto(ns, source@, caps@, sidx, didx, i as int, defs@),
            table_describes(ns, caps@, sidx, didx, i as int, keys@, lists_view(lists@)),
        decreases caps@.len() - i,
    {
        let is_def = match didx {
            Some(d) => caps[i].index == d,
            None => false,
        };
        if is_def {
            let p = caps[i].node;
            let scope = enclosing(ss, tree.nodes[p].start_byte, tree.nodes[p].end_byte);
            add_definition(tree, source, caps, sidx, didx, i, scope, &mut defs);
            add_to_table(Ghost(ns), caps, sidx, didx, i, scope, &mut keys, &mut lists);
        } else {
            proof {
                lemma_defs_skip(ns, source@, caps@, sidx, didx, i as int, defs@);
                lemma_table_skip(ns, caps@, sidx, didx, i as int, keys@, lists_view(lists@));
            }
        }
        i = i + 1;
    }
    (defs, keys, lists)
}

/// Capture `i` is a definition named `name` in scope `s` that starts at or
/// before byte `at`.
pub open spec fn qualifies(
    ns: Seq<SyntaxNode>,
    source: Seq<u8>,
    caps: Seq<Capture>,
    sidx: Option<u32>,
    didx: Option<u32>,
    s: usize,
    name: Seq<char>,
    at: int,
    i: int,
) -> bool {
    &&& 0 <= i < caps.len()
    &&& tagged(caps[i], didx)
    &&& def_scope(ns, caps, sidx, caps[i].node as int) == s
    &&& node_name(source, ns[caps[i].node as int]) == name
    &&& ns[caps[i].node as int].start_byte <= at
}

/// Where the node of capture `i` starts.
pub open spec fn cap_start(ns: Seq<SyntaxNode>, caps: Seq<Capture>, i: int) -> int {
    ns[caps[i].node as int].start_byte as int
}

/// Capture `i` is the nearest qualifying definition: none starts later, and
/// none that starts at the same byte was captured earlier.
pub open spec fn nearest_at(
    ns: Seq<SyntaxNode>,
    source: Seq<u8>,
    caps: Seq<Capture>,
    sidx: Option<u32>,
    didx: Option<u32>,
    s: usize,
    name: Seq<char>,
    at: int,
    i: int,
) -> bool {
    &&& qualifies(ns, source, caps, sidx, didx, s, name, at, i)
    &&& forall|j: int|
        #[trigger] qualifies(ns, source, caps, sidx, didx, s, name, at, j) ==> cap_start(ns, caps, j)
            < cap_start(ns, caps, i) || (cap_start(ns, caps, j) == cap_start(ns, caps, i) && i <= j)
}

/// The nearest preceding definition named `name` in scope `s`, if any.
pub open spec fn nearest_in(
    ns: Seq<SyntaxNode>,
    source: Seq<u8>,
    caps: Seq<Capture>,
    sidx: Option<u32>,
    didx: Option<u32>,
    s: usize,
    name: Seq<char>,
    at: int,
) -> Option<usize> {
    if exists|i: int| nearest_at(ns, source, caps, sidx, didx, s, name, at, i) {
        Some(caps[choose|i: int| nearest_at(ns, source, caps, sidx, didx, s, name, at, i)].node)
    } else {
        None
    }
}

proof fn lemma_nearest_unique(
    ns: Seq<SyntaxNode>,
    source: Seq<u8>,
    caps: Seq<Capture>,
    sidx: Option<u32>,
    didx: Option<u32>,
    s: usize,
    name: Seq<char>,
    at: int,
    i: int,
    j: int,
)
    requires
        nearest_at(ns, source, caps, sidx, didx, s, name, at, i),
        nearest_at(ns, source, caps, sidx, didx, s, name, at, j),
    ensures
        i == j,
{
    assert(qualifies(ns, source, caps, sidx, didx, s, name, at, i));
    assert(qualifies(ns, source, caps, sidx, didx, s, name, at, j));
}

/// What the analysis needs to know of each capture that is a definition:
/// its scope, its name and where it starts.
pub struct DefInfo {
    pub scope: usize,
    pub name: String,
    pub start: usize,
}

/// The facts of each definition capture.
pub open spec fn infos_ok(
    ns: Seq<SyntaxNode>,
    source: Seq<u8>,
    caps: Seq<Capture>,
    sidx: Option<u32>,
    didx: Option<u32>,
    infos: Seq<DefInfo>,
) -> bool {
    &&& infos.len() == caps.len()
    &&& forall|i: int|
        0 <= i < caps.len() && #[trigger] tagged(caps[i], didx) ==> {
            &&& infos[i].scope == def_scope(ns, caps, sidx, caps[i].node as int)
            &&& infos[i].name@ == node_name(source, ns[caps[i].node as int])
            &&& infos[i].start == ns[caps[i].node as int].start_byte
        }
}

/// The facts of each definition capture.
fn def_infos(
    tree: &SyntaxTree,
    source: &[u8],
    caps: &Vec<Capture>,
    sidx: Option<u32>,
    didx: Option<u32>,
    ss: &Vec<ScopeNode>,
) -> (r: Vec<DefInfo>)
    requires
        tree.wf(),
        tree.source_len == source@.len(),
        captures_ok(tree.nodes@, caps@),
        ss@ == scope_list(tree.nodes@, caps@, sidx),
        scopes_ok(ss@),
    ensures
        infos_ok(tree.nodes@, source@, caps@, sidx, didx, r@),
{
    let mut r: Vec<DefInfo> = Vec::new();
    let mut i: usize = 0;
    while i < caps.len()
        invariant
            tree.wf(),
            tree.source_len == source@.len(),
            captures_ok(tree.nodes@, caps@),
            ss@ == scope_list(tree.nodes@, caps@, sidx),
            scopes_ok(ss@),
            i <= caps@.len(),
            r@.len() == i,
            forall|j: int|
                0 <= j < i && #[trigger] tagged(caps@[j], didx) ==> {
                    &&& r@[j].scope == def_scope(tree.nodes@, caps@, sidx, caps@[j].node as int)
                    &&& r@[j].name@ == node_name(source@, tree.nodes@[caps@[j].node as int])
                    &&& r@[j].start == tree.nodes@[caps@[j].node as int].start_byte
                },
        decreases caps@.len() - i,
    {
        let is_def = match didx {
            Some(d) => caps[i].index == d,
            None => false,
        };
        if is_def {
            let p = caps[i].node;
            let scope = enclosing(ss, tree.nodes[p].start_byte, tree.nodes[p].end_byte);
            let name = name_of(tree, source, p);
            r.push(DefInfo { scope, name, start: tree.nodes[p].start_byte });
        } else {
            r.push(DefInfo { scope: 0, name: String::new(), start: 0 });
        }
        i = i + 1;
    }
    r
}

/// The nearest preceding definition named `name` in scope `s`.
fn nearest(
    ns: Ghost<Seq<SyntaxNode>>,
    source: Ghost<Seq<u8>>,
    caps: &Vec<Capture>,
    sidx: Ghost<Option<u32>>,
    didx: Option<u32>,
    infos: &Vec<DefInfo>,
    s: usize,
    name: &str,
    at: usize,
) -> (r: Option<usize>)
    requires
        infos_ok(ns@, source@, caps@, sidx@, didx, infos@),
        captures_ok(ns@, caps@),
    ensures
        r == nearest_in(ns@, source@, caps@, sidx@, didx, s, name@, at as int),
{
    let mut best: Option<usize> = None;
    let mut i: usize = 0;
    while i < caps.len()
        invariant
            infos_ok(ns@, source@, caps@, sidx@, didx, infos@),
            captures_ok(ns@, caps@),
            i <= caps@.len(),
            match best {
                Some(b) => {
                    &&& b < i
                    &&& qualifies(ns@, source@, caps@, sidx@, didx, s, name@, at as int, b as int)
                    &&& forall|j: int|
                        0 <= j < i && #[trigger] qualifies(
                            ns@,
                            source@,
                            caps@,
                            sidx@,
                            didx,
                            s,
                            name@,
                            at as int,
                            j,
                        ) ==> cap_start(ns@, caps@, j) < cap_start(ns@, caps@, b as int) || (
                        cap_start(ns@, caps@, j) == cap_start(ns@, caps@, b as int) && b <= j)
                },
                None => forall|j: int|
                    0 <= j < i ==> !#[trigger] qualifies(
                        ns@,
                        source@,
                        caps@,
                        sidx@,
                        didx,
                        s,
                        name@,
                        at as int,
                        j,
                    ),
            },
        decreases caps@.len() - i,
    {
        let is_def = match didx {
            Some(d) => caps[i].index == d,
            None => false,
        };
        if is_def && infos[i].scope == s && crate::text::str_eq(infos[i].name.as_str(), name)
            && infos[i].start <= at {
            assert(qualifies(ns@, source@, caps@, sidx@, didx, s, name@, at as int, i as int));
            match best {
                None => {
                    best = Some(i);
                },
                Some(b) => {
                    if infos[i].start > infos[b].start {
                        best = Some(i);
                    }
                },
            }
        } else {
            assert(!qualifies(ns@, source@, caps@, sidx@, didx, s, name@, at as int, i as int));
        }
        i = i + 1;
    }
    match best {
        Some(b) => {
            proof {
                assert(nearest_at(ns@, source@, caps@, sidx@, didx, s, name@, at as int, b as int));
                let c = choose|c: int| nearest_at(ns@, source@, caps@, sidx@, didx, s, name@, at as int, c);
                lemma_nearest_unique(ns@, source@, caps@, sidx@, didx, s, name@, at as int, b as int, c);
            }
            Some(caps[b].node)
        },
        None => {
            proof {
                if exists|c: int| nearest_at(ns@, source@, caps@, sidx@, didx, s, name@, at as int, c) {
                    let c = choose|c: int| nearest_at(ns@, source@, caps@, sidx@, didx, s, name@, at as int, c);
                    assert(qualifies(ns@, source@, caps@, sidx@, didx, s, name@, at as int, c));
                }
            }
            None
        },
    }
}

/// Scope `j` is the first scope, innermost first, that contains
/// `start..end` and holds a matching definition.
pub open spec fn first_hit(
    ns: Seq<SyntaxNode>,
    source: Seq<u8>,
    caps: Seq<Capture>,
    sidx: Option<u32>,
    didx: Option<u32>,
    name: Seq<char>,
    start: int,
    end: int,
    j: int,
) -> bool {
    let ss = scope_list(ns, caps, sidx);
    &&& 0 <= j < ss.len()
    &&& covers(ss[j], start, end)
    &&& nearest_in(ns, source, caps, sidx, didx, ss[j].node_id, name, start) is Some
    &&& forall|k: int|
        0 <= k < ss.len() && k != j && covers(ss[k], start, end) && (#[trigger] nearest_in(
            ns,
            source,
            caps,
            sidx,
            didx,
            ss[k].node_id,
            name,
            start,
        )) is Some ==> scope_before(ss, j, k)
}

/// The definition that the node at position `r`, used as a reference,
/// resolves to: the nearest preceding definition of its name in the first
/// scope, innermost first, that contains it and holds one; failing that, in
/// the root's scope when the root is not among the scopes that contain it.
pub open spec fn resolution(
    ns: Seq<SyntaxNode>,
    source: Seq<u8>,
    caps: Seq<Capture>,
    sidx: Option<u32>,
    didx: Option<u32>,
    r: int,
) -> Option<usize> {
    let ss = scope_list(ns, caps, sidx);
    let start = ns[r].start_byte as int;
    let end = ns[r].end_byte as int;
    let name = node_name(source, ns[r]);
    if exists|j: int| first_hit(ns, source, caps, sidx, didx, name, start, end, j) {
        nearest_in(
            ns,
            source,
            caps,
            sidx,
            didx,
            ss[choose|j: int| first_hit(ns, source, caps, sidx, didx, name, start, end, j)].node_id,
            name,
            start,
        )
    } else if exists|j: int| 0 <= j < ss.len() && covers(ss[j], start, end) && ss[j].node_id == 0 {
        None
    } else {
        nearest_in(ns, source, caps, sidx, didx, 0, name, start)
    }
}

proof fn lemma_first_hit_unique(
    ns: Seq<SyntaxNode>,
    source: Seq<u8>,
    caps: Seq<Capture>,
    sidx: Option<u32>,
    didx: Option<u32>,
    name: Seq<char>,
    start: int,
    end: int,
    i: int,
    j: int,
)
    requires
        first_hit(ns, source, caps, sidx, didx, name, start, end, i),
        first_hit(ns, source, caps, sidx, didx, name, start, end, j),
    ensures
        i == j,
{
    let ss = scope_list(ns, caps, sidx);
    if i != j {
        assert(nearest_in(ns, source, caps, sidx, didx, ss[i].node_id, name, start) is Some);
        assert(nearest_in(ns, source, caps, sidx, didx, ss[j].node_id, name, start) is Some);
        assert(scope_before(ss, i, j));
        assert(scope_before(ss, j, i));
    }
}

/// The definition that the reference at node `r` resolves to.
fn resolve(
    tree: &SyntaxTree,
    source: &[u8],
    caps: &Vec<Capture>,
    sidx: Ghost<Option<u32>>,
    didx: Option<u32>,
    ss: &Vec<ScopeNode>,
    infos: &Vec<DefInfo>,
    r: usize,
) -> (res: Option<usize>)
    requires
        tree.wf(),
        tree.source_len == source@.len(),
        captures_ok(tree.nodes@, caps@),
        ss@ == scope_list(tree.nodes@, caps@, sidx@),
        scopes_ok(ss@),
        infos_ok(tree.nodes@, source@, caps@, sidx@, didx, infos@),
        r < tree.nodes@.len(),
    ensures
        res == resolution(tree.nodes@, source@, caps@, sidx@, didx, r as int),
{
    let ghost ns = tree.nodes@;
    let start = tree.nodes[r].start_byte;
    let end = tree.nodes[r].end_byte;
    let name = name_of(tree, source, r);
    let ghost nm = name@;
    let mut best_j: Option<usize> = None;
    let mut best_d: usize = 0;
    let mut root_covered = false;
    let mut j: usize = 0;
    while j < ss.len()
        invariant
            ns == tree.nodes@,
            captures_ok(ns, caps@),
            ss@ == scope_list(ns, caps@, sidx@),
            scopes_ok(ss@),
            infos_ok(ns, source@, caps@, sidx@, didx, infos@),
            r < ns.len(),
            start == ns[r as int].start_byte,
            end == ns[r as int].end_byte,
            name@ == nm,
            nm == node_name(source@, ns[r as int]),
            j <= ss@.len(),
            root_covered <==> exists|k: int|
                0 <= k < j && covers(ss@[k], start as int, end as int) && ss@[k].node_id == 0,
            best_j is Some ==> best_j->0 < j,
            best_j is Some ==> covers(ss@[best_j->0 as int], start as int, end as int),
            best_j is Some ==> nearest_in(
                ns,
                source@,
                caps@,
                sidx@,
                didx,
                ss@[best_j->0 as int].node_id,
                nm,
                start as int,
            ) == Some(best_d),
            best_j is Some ==> forall|k: int|
                0 <= k < j && k != best_j->0 && covers(ss@[k], start as int, end as int) && (
                #[trigger] nearest_in(
                    ns,
                    source@,
                    caps@,
                    sidx@,
                    didx,
                    ss@[k].node_id,
                    nm,
                    start as int,
                )) is Some ==> scope_before(ss@, best_j->0 as int, k),
            best_j is None ==> forall|k: int|
                0 <= k < j && covers(ss@[k], start as int, end as int) ==> (#[trigger] nearest_in(
                    ns,
                    source@,
                    caps@,
                    sidx@,
                    didx,
                    ss@[k].node_id,
                    nm,
                    start as int,
                )) is None,
        decreases ss@.len() - j,
    {
        if ss[j].start_byte <= start && end <= ss[j].end_byte {
            if ss[j].node_id == 0 {
                root_covered = true;
            }
            let found = nearest(
                Ghost(ns),
                Ghost(source@),
                caps,
                sidx,
                didx,
                infos,
                ss[j].node_id,
                name.as_str(),
                start,
            );
            match found {
                Some(d) => {
                    match best_j {
                        None => {
                            best_j = Some(j);
                            best_d = d;
                        },
                        Some(b) => {
                            if before(ss, j, b) {
                                proof {
                                    assert forall|k: int|
                                        0 <= k < j + 1 && k != j && covers(
                                            ss@[k],
                                            start as int,
                                            end as int,
                                        ) && (#[trigger] nearest_in(
                                            ns,
                                            source@,
                                            caps@,
                                            sidx@,
                                            didx,
                                            ss@[k].node_id,
                                            nm,
                                            start as int,
                                        )) is Some implies scope_before(ss@, j as int, k) by {
                                        if k != b {
                                            assert(scope_before(ss@, b as int, k));
                                        }
                                    }
                                }
                                best_j = Some(j);
                                best_d = d;
                            } else {
                                assert(scope_before(ss@, b as int, j as int));
                            }
                        },
                    }
                },
                None => {},
            }
        }
        j = j + 1;
    }
    match best_j {
        Some(b) => {
            let d = best_d;
            proof {
                assert(first_hit(ns, source@, caps@, sidx@, didx, nm, start as int, end as int, b as int));
                let c = choose|c: int|
                    first_hit(ns, source@, caps@, sidx@, didx, nm, start as int, end as int, c);
                lemma_first_hit_unique(ns, source@, caps@, sidx@, didx, nm, start as int, end as int, b as int, c);
            }
            Some(d)
        },
        None => {
            proof {
                if exists|c: int|
                    first_hit(ns, source@, caps@, sidx@, didx, nm, start as int, end as int, c) {
                    let c = choose|c: int|
                        first_hit(ns, source@, caps@, sidx@, didx, nm, start as int, end as int, c);
                    assert(covers(ss@[c], start as int, end as int));
                }
            }
            if root_covered {
                None
            } else {
                nearest(Ghost(ns), Ghost(source@), caps, sidx, didx, infos, 0, name.as_str(), start)
            }
        },
    }
}

/// The reference describes its node: name, range and resolution.
pub open spec fn ref_ok(
    ns: Seq<SyntaxNode>,
    source: Seq<u8>,
    caps: Seq<Capture>,
    sidx: Option<u32>,
    didx: Option<u32>,
    x: Reference,
) -> bool {
    &&& x.node_id < ns.len()
    &&& x.name@ == node_name(source, ns[x.node_id as int])
    &&& x.start_byte == ns[x.node_id as int].start_byte
    &&& x.end_byte == ns[x.node_id as int].end_byte
    &&& x.definition_node_id == resolution(ns, source, caps, sidx, didx, x.node_id as int)
}

/// The references: one for each node among the first `upto` captures that
/// is captured as a reference and never as a definition, and no other.
pub open spec fn refs_upto(
    ns: Seq<SyntaxNode>,
    source: Seq<u8>,
    caps: Seq<Capture>,
    sidx: Option<u32>,
    didx: Option<u32>,
    ridx: Option<u32>,
    upto: int,
    refs: Seq<Reference>,
) -> bool {
    &&& forall|k: int|
        0 <= k < refs.len() ==> {
            &&& ref_ok(ns, source, caps, sidx, didx, #[trigger] refs[k])
            &&& !captured(caps, didx, refs[k].node_id as int)
            &&& exists|j: int|
                0 <= j < upto && tagged(caps[j], ridx) && caps[j].node == refs[k].node_id
        }
    &&& forall|j: int|
        0 <= j < upto && #[trigger] tagged(caps[j], ridx) && !captured(
            caps,
            didx,
            caps[j].node as int,
        ) ==> exists|k: int| 0 <= k < refs.len() && refs[k].node_id == caps[j].node
    &&& forall|k1: int, k2: int|
        0 <= k1 < refs.len() && 0 <= k2 < refs.len() && k1 != k2 ==> #[trigger] refs[k1].node_id
            != #[trigger] refs[k2].node_id
}

/// Whether some reference is of node `p`.
fn has_ref(refs: &Vec<Reference>, p: usize) -> (r: bool)
    ensures
        r <==> exists|k: int| 0 <= k < refs@.len() && refs@[k].node_id == p,
{
    let mut k: usize = 0;
    while k < refs.len()
        invariant
            k <= refs@.len(),
            forall|m: int| 0 <= m < k ==> refs@[m].node_id != p,
        decreases refs@.len() - k,
    {
        if refs[k].node_id == p {
            return true;
        }
        k = k + 1;
    }
    false
}

/// The references of the captures, given their definitions.
fn collect_references(
    tree: &SyntaxTree,
    source: &[u8],
    caps: &Vec<Capture>,
    sidx: Ghost<Option<u32>>,
    didx: Option<u32>,
    ridx: Option<u32>,
    ss: &Vec<ScopeNode>,
    infos: &Vec<DefInfo>,
    defs: &Vec<Definition>,
) -> (r: Vec<Reference>)
    requires
        tree.wf(),
        tree.source_len == source@.len(),
        captures_ok(tree.nodes@, caps@),
        ss@ == scope_list(tree.nodes@, caps@, sidx@),
        scopes_ok(ss@),
        infos_ok(tree.nodes@, source@, caps@, sidx@, didx, infos@),
        defs_describe(tree.nodes@, source@, caps@, sidx@, didx, defs@),
    ensures
        refs_upto(tree.nodes@, source@, caps@, sidx@, didx, ridx, caps@.len() as int, r@),
{
    let ghost ns = tree.nodes@;
    let mut refs: Vec<Reference> = Vec::new();
    let mut i: usize = 0;
    while i < caps.len()
        invariant
            ns == tree.nodes@,
            tree.wf(),
            tree.source_len == source@.len(),
            captures_ok(ns, caps@),
            ss@ == scope_list(ns, caps@, sidx@),
            scopes_ok(ss@),
            infos_ok(ns, source@, caps@, sidx@, didx, infos@),
            defs_describe(ns, source@, caps@, sidx@, didx, defs@),
            i <= caps@.len(),
            refs_upto(ns, source@, caps@, sidx@, didx, ridx, i as int, refs@),
        decreases caps@.len() - i,
    {
        let is_ref = match ridx {
            Some(x) => caps[i].index == x,
            None => false,
        };
        let p = caps[i].node;
        let ghost old_refs = refs@;
        if is_ref {
            let defined = has_def(defs, p);
            proof {
                if defined {
                    let k = choose|k: int| 0 <= k < defs@.len() && defs@[k].node_id == p;
                    assert(def_ok(ns, source@, caps@, sidx@, defs@[k]));
                    assert(captured(caps@, didx, p as int));
                } else {
                    if captured(caps@, didx, p as int) {
                        let j = choose|j: int|
                            0 <= j < caps@.len() && tagged(caps@[j], didx) && caps@[j].node == p;
                        assert(tagged(caps@[j], didx));
                    }
                }
            }
            if !defined && !has_ref(&refs, p) {
                let definition_node_id = resolve(tree, source, caps, sidx, didx, ss, infos, p);
                let name = name_of(tree, source, p);
                refs.push(
                    Reference {
                        node_id: p,
                        name,
                        start_byte: tree.nodes[p].start_byte,
                        end_byte: tree.nodes[p].end_byte,
                        definition_node_id,
                    },
                );
            }
        }
        proof {
            assert forall|k: int| 0 <= k < refs@.len() implies exists|j: int|
                0 <= j < i + 1 && tagged(caps@[j], ridx) && caps@[j].node
                    == #[trigger] refs@[k].node_id by {
                if k < old_refs.len() {
                    assert(refs@[k] == old_refs[k]);
                    let j = choose|j: int|
                        0 <= j < i && tagged(caps@[j], ridx) && caps@[j].node == old_refs[k].node_id;
                } else {
                    assert(tagged(caps@[i as int], ridx) && caps@[i as int].node == refs@[k].node_id);
                }
            }
            assert forall|k: int| 0 <= k < refs@.len() implies ref_ok(
                ns,
                source@,
                caps@,
                sidx@,
                didx,
                #[trigger] refs@[k],
            ) && !captured(caps@, didx, refs@[k].node_id as int) by {
                if k < old_refs.len() {
                    assert(refs@[k] == old_refs[k]);
                }
            }
            assert forall|j: int|
                0 <= j < i + 1 && #[trigger] tagged(caps@[j], ridx) && !captured(
                    caps@,
                    didx,
                    caps@[j].node as int,
                ) implies exists|k: int| 0 <= k < refs@.len() && refs@[k].node_id == caps@[j].node by {
                if j < i {
                    let k = choose|k: int| 0 <= k < old_refs.len() && old_refs[k].node_id == caps@[j].node;
                    assert(refs@[k] == old_refs[k]);
                } else if refs@.len() > old_refs.len() {
                    assert(refs@[refs@.len() - 1].node_id == p);
                }
            }
        }
        i = i + 1;
    }
    refs
}

/// Result of running scope analysis on a parse tree.
#[derive(Debug)]
pub struct ScopeAnalysis {
    /// All definitions found, one per defining node.
    pub definitions: Vec<Definition>,
    /// All references found, one per referencing node.
    pub references: Vec<Reference>,
    /// For each scope holding definitions: the scope's node and its
    /// definitions' nodes, in capture order.
    pub scope_definitions: Vec<(usize, Vec<usize>)>,
}

/// The scopes of a scope table.
pub open spec fn table_keys(t: Seq<(usize, Vec<usize>)>) -> Seq<usize> {
    t.map_values(|e: (usize, Vec<usize>)| e.0)
}

/// The definition lists of a scope table.
pub open spec fn table_lists(t: Seq<(usize, Vec<usize>)>) -> Seq<Seq<usize>> {
    t.map_values(|e: (usize, Vec<usize>)| e.1@)
}

/// `d` has a reference resolving to it.
pub open spec fn referenced(refs: Seq<Reference>, d: usize) -> bool {
    exists|k: int| 0 <= k < refs.len() && refs[k].definition_node_id == Some(d)
}

/// The definitions among the first `upto` without any reference, in order.
pub open spec fn unreferenced_upto(defs: Seq<Definition>, refs: Seq<Reference>, upto: int) -> Seq<
    Definition,
>
    decreases upto,
{
    if upto <= 0 {
        Seq::empty()
    } else {
        let prev = unreferenced_upto(defs, refs, upto - 1);
        if referenced(refs, defs[upto - 1].node_id) {
            prev
        } else {
            prev.push(defs[upto - 1])
        }
    }
}

/// Number of the first `upto` references that resolve to `d`.
pub open spec fn count_resolving(refs: Seq<Reference>, d: usize, upto: int) -> nat
    decreases upto,
{
    if upto <= 0 {
        0
    } else {
        count_resolving(refs, d, upto - 1) + if refs[upto - 1].definition_node_id == Some(d) {
            1nat
        } else {
            0nat
        }
    }
}

/// No reference among the first `upto` resolves to `d` exactly when the
/// count is zero.
proof fn lemma_count_zero(refs: Seq<Reference>, d: usize, upto: int)
    requires
        upto <= refs.len(),
    ensures
        count_resolving(refs, d, upto) == 0 <==> !exists|k: int|
            0 <= k < upto && #[trigger] refs[k].definition_node_id == Some(d),
    decreases upto,
{
    if upto > 0 {
        lemma_count_zero(refs, d, upto - 1);
        if count_resolving(refs, d, upto - 1) != 0 {
            let k = choose|k: int| 0 <= k < upto - 1 && #[trigger] refs[k].definition_node_id == Some(d);
            assert(0 <= k < upto && refs[k].definition_node_id == Some(d));
        }
    }
}

/// A definition is among the unreferenced ones of the first `upto` exactly
/// when it is one of them and nothing refers to it.
proof fn lemma_unreferenced_contains(
    defs: Seq<Definition>,
    refs: Seq<Reference>,
    upto: int,
    x: Definition,
)
    requires
        upto <= defs.len(),
    ensures
        unreferenced_upto(defs, refs, upto).contains(x) <==> (exists|j: int|
            0 <= j < upto && #[trigger] defs[j] == x) && !referenced(refs, x.node_id),
    decreases upto,
{
    if upto > 0 {
        lemma_unreferenced_contains(defs, refs, upto - 1, x);
        let prev = unreferenced_upto(defs, refs, upto - 1);
        if defs[upto - 1] == x {
            assert(0 <= upto - 1 < upto && defs[upto - 1] == x);
            if !referenced(refs, x.node_id) {
                assert(prev.push(x)[prev.len() as int] == x);
            }
        }
        if unreferenced_upto(defs, refs, upto).contains(x) && !prev.contains(x) {
            let i = choose|i: int| 0 <= i < unreferenced_upto(defs, refs, upto).len()
                && unreferenced_upto(defs, refs, upto)[i] == x;
            assert(i == prev.len());
        }
        if prev.contains(x) && !referenced(refs, defs[upto - 1].node_id) {
            let i = choose|i: int| 0 <= i < prev.len() && prev[i] == x;
            assert(prev.push(defs[upto - 1])[i] == x);
        }
        if (exists|j: int| 0 <= j < upto && #[trigger] defs[j] == x) && defs[upto - 1] != x {
            let j = choose|j: int| 0 <= j < upto && #[trigger] defs[j] == x;
            assert(0 <= j < upto - 1 && defs[j] == x);
        }
    }
}

/// A definition is reported as unreferenced exactly when its reference
/// count is zero.
pub proof fn law_unreferenced_iff_no_references(a: ScopeAnalysis, i: int)
    requires
        0 <= i < a.definitions@.len(),
    ensures
        unreferenced_upto(a.definitions@, a.references@, a.definitions@.len() as int).contains(
            a.definitions@[i],
        ) <==> count_resolving(
            a.references@,
            a.definitions@[i].node_id,
            a.references@.len() as int,
        ) == 0,
{
    let defs = a.definitions@;
    let refs = a.references@;
    lemma_unreferenced_contains(defs, refs, defs.len() as int, defs[i]);
    lemma_count_zero(refs, defs[i].node_id, refs.len() as int);
    assert(defs[i] == defs[i]);
}

impl ScopeAnalysis {
    /// The analysis is the one described by the captures `caps`, where the
    /// query's scope, definition and reference captures carry the indices
    /// `sidx`, `didx` and `ridx`.
    pub open spec fn describes(
        &self,
        ns: Seq<SyntaxNode>,
        source: Seq<u8>,
        caps: Seq<Capture>,
        sidx: Option<u32>,
        didx: Option<u32>,
        ridx: Option<u32>,
    ) -> bool {
        &&& defs_describe(ns, source, caps, sidx, didx, self.definitions@)
        &&& refs_upto(ns, source, caps, sidx, didx, ridx, caps.len() as int, self.references@)
        &&& table_describes(
            ns,
            caps,
            sidx,
            didx,
            caps.len() as int,
            table_keys(self.scope_definitions@),
            table_lists(self.scope_definitions@),
        )
    }

    /// Build the analysis from the captures of a `locals.scm` query over the
    /// tree: scopes, definitions and references, with each reference
    /// resolved.
    pub fn from_captures(
        tree: &SyntaxTree,
        source: &[u8],
        caps: &Vec<Capture>,
        sidx: Option<u32>,
        didx: Option<u32>,
        ridx: Option<u32>,
    ) -> (r: ScopeAnalysis)
        requires
            tree.wf(),
            tree.source_len == source@.len(),
            captures_ok(tree.nodes@, caps@),
        ensures
            r.describes(tree.nodes@, source@, caps@, sidx, didx, ridx),
    {
        let ss = scope_nodes(tree, caps, sidx);
        let (definitions, keys, lists) = collect_definitions(tree, source, caps, sidx, didx, &ss);
        let infos = def_infos(tree, source, caps, sidx, didx, &ss);
        let references = collect_references(
            tree,
            source,
            caps,
            Ghost(sidx),
            didx,
            ridx,
            &ss,
            &infos,
            &definitions,
        );
        let mut table: Vec<(usize, Vec<usize>)> = Vec::new();
        let mut k: usize = 0;
        while k < keys.len()
            invariant
                keys@.len() == lists@.len(),
                k <= keys@.len(),
                table_keys(table@) == keys@.take(k as int),
                table_lists(table@) == lists_view(lists@).take(k as int),
            decreases keys@.len() - k,
        {
            let ghost before = table@;
            let l = lists[k].clone();
            table.push((keys[k], l));
            proof {
                assert(table@ == before.push((keys@[k as int], l)));
                assert(table_keys(table@) =~= table_keys(before).push(keys@[k as int]));
                assert(table_lists(table@) =~= table_lists(before).push(l@));
                assert(keys@.take(k + 1) =~= keys@.take(k as int).push(keys@[k as int]));
                assert(lists_view(lists@).take(k + 1) =~= lists_view(lists@).take(k as int).push(
                    lists@[k as int]@,
                ));
            }
            k = k + 1;
        }
        assert(keys@.take(keys@.len() as int) =~= keys@);
        assert(lists_view(lists@).take(keys@.len() as int) =~= lists_view(lists@));
        ScopeAnalysis { definitions, references, scope_definitions: table }
    }

    /// Definitions that no reference resolves to, in order.
    pub fn unreferenced_definitions(&self) -> (r: Vec<&Definition>)
        ensures
            r@.map_values(|d: &Definition| *d) == unreferenced_upto(
                self.definitions@,
                self.references@,
                self.definitions@.len() as int,
            ),
    {
        let mut r: Vec<&Definition> = Vec::new();
        let mut k: usize = 0;
        while k < self.definitions.len()
            invariant
                k <= self.definitions@.len(),
                r@.map_values(|d: &Definition| *d) == unreferenced_upto(
                    self.definitions@,
                    self.references@,
                    k as int,
                ),
            decreases self.definitions@.len() - k,
        {
            let id = self.definitions[k].node_id;
            let mut used = false;
            let mut m: usize = 0;
            while m < self.references.len()
                invariant
                    m <= self.references@.len(),
                    used <==> exists|j: int|
                        0 <= j < m && self.references@[j].definition_node_id == Some(id),
                decreases self.references@.len() - m,
            {
                if self.references[m].definition_node_id == Some(id) {
                    used = true;
                }
                m = m + 1;
            }
            if !used {
                r.push(&self.definitions[k]);
            }
            k = k + 1;
            assert(r@.map_values(|d: &Definition| *d) =~= unreferenced_upto(
                self.definitions@,
                self.references@,
                k as int,
            ));
        }
        r
    }

    /// Count references to a given definition.
    pub fn reference_count(&self, def_node_id: usize) -> (r: usize)
        ensures
            r == count_resolving(self.references@, def_node_id, self.references@.len() as int),
    {
        let mut n: usize = 0;
        let mut m: usize = 0;
        while m < self.references.len()
            invariant
                m <= self.references@.len(),
                n == count_resolving(self.references@, def_node_id, m as int),
                n <= m,
            decreases self.references@.len() - m,
        {
            if self.references[m].definition_node_id == Some(def_node_id) {
                n = n + 1;
            }
            m = m + 1;
        }
        n
    }
}

/// The analysis is the one that some captures describe.
pub open spec fn analysis_of(
    a: ScopeAnalysis,
    ns: Seq<SyntaxNode>,
    source: Seq<u8>,
    caps: Seq<Capture>,
    sidx: Option<u32>,
    didx: Option<u32>,
    ridx: Option<u32>,
) -> bool {
    a.describes(ns, source, caps, sidx, didx, ridx)
}

/// The analysis is the one described by some captures of the tree's nodes.
pub open spec fn analysis_of_some_captures(a: ScopeAnalysis, ns: Seq<SyntaxNode>, source: Seq<u8>) -> bool {
    exists|caps: Seq<Capture>, sidx: Option<u32>, didx: Option<u32>, ridx: Option<u32>|
        captures_ok(ns, caps) && #[trigger] analysis_of(a, ns, source, caps, sidx, didx, ridx)
}

#[verifier::external_type_specification]
#[verifier::external_body]
pub struct ExQuery(tree_sitter::Query);

/// Calls `tree_sitter::Query::new`; `None` when the grammar rejects the
/// query text. Nothing is claimed of when it does.
#[verifier::external_body]
fn query_new(language: &tree_sitter::Language, source: &str) -> Option<tree_sitter::Query> {
    tree_sitter::Query::new(language, source).ok()
}

/// Calls `tree_sitter::Query::capture_index_for_name`: the index of the
/// capture with that name in the compiled query, if it has one.
#[verifier::external_body]
fn query_capture_index(query: &tree_sitter::Query, name: &str) -> Option<u32> {
    query.capture_index_for_name(name)
}

/// Runs the query over the whole tree with `tree_sitter::QueryCursor::matches`
/// and lists, match after match, each capture as its index and the
/// `tree_sitter::Node::id` of the captured node. Nothing is claimed of them.
#[verifier::external_body]
fn query_captures(query: &tree_sitter::Query, tree: &tree_sitter::Tree, source: &[u8]) -> Vec<(u32, usize)> {
    let mut cursor = tree_sitter::QueryCursor::new();
    let mut matches = cursor.matches(query, tree.root_node(), source);
    let mut out: Vec<(u32, usize)> = Vec::new();
    while let Some(m) = tree_sitter::StreamingIterator::next(&mut matches) {
        for c in m.captures {
            out.push((c.index, c.node.id()));
        }
    }
    out
}

/// Position of the node with parser id `id` in the preorder list `nodes`.
fn position_of(nodes: &Vec<SyntaxNode>, id: usize) -> (r: Option<usize>)
    ensures
        match r {
            Some(p) => p < nodes@.len() && nodes@[p as int].id == id,
            None => forall|k: int| 0 <= k < nodes@.len() ==> nodes@[k].id != id,
        },
{
    let mut k: usize = 0;
    while k < nodes.len()
        invariant
            k <= nodes@.len(),
            forall|m: int| 0 <= m < k ==> nodes@[m].id != id,
        decreases nodes@.len() - k,
    {
        if nodes[k].id == id {
            return Some(k);
        }
        k = k + 1;
    }
    None
}

impl ScopeAnalysis {
    /// Build scope analysis from a parse tree using a `locals.scm` query.
    ///
    /// The query runs over a fresh parse of `source`; each captured node is
    /// identified by its preorder position, which is its position in `tree`
    /// when `tree` is the parse of `source`. Returns `None` if the query is
    /// invalid for the language or the source cannot be parsed.
    pub fn from_tree(
        tree: &SyntaxTree,
        source: &[u8],
        language: &tree_sitter::Language,
        locals_query_str: &str,
    ) -> (r: Option<ScopeAnalysis>)
        requires
            tree.wf(),
            tree.source_len == source@.len(),
        ensures
            r matches Some(a) ==> analysis_of_some_captures(a, tree.nodes@, source@),
    {
        let query = match query_new(language, locals_query_str) {
            Some(q) => q,
            None => return None,
        };
        let sidx = query_capture_index(&query, "local.scope");
        let didx = query_capture_index(&query, "local.definition");
        let ridx = query_capture_index(&query, "local.reference");
        let ts_tree = match crate::parse::parse_raw(source, language) {
            Some(t) => t,
            None => return None,
        };
        let nodes = crate::parse::collect_nodes(&ts_tree);
        let raw = query_captures(&query, &ts_tree, source);
        let mut caps: Vec<Capture> = Vec::new();
        let mut i: usize = 0;
        while i < raw.len()
            invariant
                i <= raw@.len(),
                captures_ok(tree.nodes@, caps@),
            decreases raw@.len() - i,
        {
            let (index, id) = raw[i];
            match position_of(&nodes, id) {
                Some(p) => {
                    if p < tree.nodes.len() {
                        caps.push(Capture { index, node: p });
                    }
                },
                None => {},
            }
            i = i + 1;
        }
        let a = ScopeAnalysis::from_captures(tree, source, &caps, sidx, didx, ridx);
        assert(captures_ok(tree.nodes@, caps@) && analysis_of(a, tree.nodes@, source@, caps@, sidx, didx, ridx));
        Some(a)
    }
}

} // verus!
