//! Removing statements that hold definitions with no references.
use vstd::prelude::*;

use crate::parse::{find_node_at, spans};
use crate::scope::{referenced, ScopeAnalysis};
use crate::supertype::SupertypeProvider;
use crate::text::{occurs_in, str_contains, str_eq};
use crate::transform::{rviews, Transform};
use crate::tree::{nodes_wf, SyntaxNode, SyntaxTree};
use crate::validity::Replacement;

verus! {

/// Node kinds whose children are statements: blocks, bodies and the roots
/// of the registered grammars.
pub open spec fn is_statement_container(kind: Seq<char>) -> bool {
    ||| occurs_in(kind, "block"@)
    ||| occurs_in(kind, "body"@)
    ||| kind == "module"@
    ||| kind == "program"@
    ||| kind == "source_file"@
}

/// Walking up from node `c`: the first node whose parent is the root or a
/// statement container; `None` for the root itself.
pub open spec fn statement_from(ns: Seq<SyntaxNode>, c: int) -> Option<int>
    decreases c,
{
    if c <= 0 || c >= ns.len() || ns[c].parent as int >= c {
        None
    } else {
        let p = ns[c].parent as int;
        if p == 0 || is_statement_container(ns[p].kind@) {
            Some(c)
        } else {
            statement_from(ns, p)
        }
    }
}

/// Node `m` is the first node, in preorder, spanning `start..end`.
pub open spec fn first_spanning(ns: Seq<SyntaxNode>, start: int, end: int, m: int) -> bool {
    &&& 0 <= m < ns.len()
    &&& spans(ns, m, start, end)
    &&& forall|k: int| 0 <= k < m ==> !spans(ns, k, start, end)
}

/// The byte range of the statement holding the node that spans
/// `start..end`, if there is such a node and statement.
pub open spec fn statement_range(ns: Seq<SyntaxNode>, start: int, end: int) -> Option<(usize, usize)> {
    if exists|m: int| first_spanning(ns, start, end, m) {
        match statement_from(ns, choose|m: int| first_spanning(ns, start, end, m)) {
            Some(s) => Some((ns[s].start_byte, ns[s].end_byte)),
            None => None,
        }
    } else {
        None
    }
}

/// The ranges to delete for an analysis: one for each unreferenced
/// definition that sits in a statement, each range once.
pub open spec fn dead_ranges_of(ns: Seq<SyntaxNode>, a: ScopeAnalysis, ranges: Seq<(usize, usize)>) -> bool {
    &&& forall|x: (usize, usize)|
        #[trigger] ranges.contains(x) ==> exists|k: int|
            0 <= k < a.definitions@.len() && !referenced(
                a.references@,
                a.definitions@[k].node_id,
            ) && statement_range(
                ns,
                a.definitions@[k].start_byte as int,
                a.definitions@[k].end_byte as int,
            ) == Some(x)
    &&& forall|k: int|
        0 <= k < a.definitions@.len() && !referenced(a.references@, a.definitions@[k].node_id) ==> (
        #[trigger] statement_range(
            ns,
            a.definitions@[k].start_byte as int,
            a.definitions@[k].end_byte as int,
        ) matches Some(x) ==> ranges.contains(x))
    &&& forall|i: int, j: int|
        0 <= i < ranges.len() && 0 <= j < ranges.len() && i != j ==> #[trigger] ranges[i]
            != #[trigger] ranges[j]
}

/// A node directly inside a block (any kind whose name contains "block",
/// such as `statement_block` or `block`), a body, or a grammar root is
/// itself the statement that holds it: the walk stops there and does not
/// climb to an enclosing statement.
pub proof fn law_statement_directly_inside_container(ns: Seq<SyntaxNode>, c: int)
    requires
        0 < c < ns.len(),
        ns[c].parent < c,
        ({
            let k = ns[ns[c].parent as int].kind@;
            occurs_in(k, "block"@) || occurs_in(k, "body"@) || k == "module"@ || k == "program"@
                || k == "source_file"@
        }),
    ensures
        statement_from(ns, c) == Some(c),
{
}

/// A top-level node (whose parent is the root) is its own statement,
/// whatever the root's kind.
pub proof fn law_top_level_node_is_statement(ns: Seq<SyntaxNode>, c: int)
    requires
        0 < c < ns.len(),
        ns[c].parent == 0,
    ensures
        statement_from(ns, c) == Some(c),
{
}

/// The statement found from a node is that node or one of its ancestors,
/// and it sits directly inside the root or a container: no node on the
/// way up from `c` to it (other than it) has a container as its parent.
pub proof fn law_statement_is_innermost(ns: Seq<SyntaxNode>, c: int)
    requires
        statement_from(ns, c) is Some,
    ensures
        ({
            let s = statement_from(ns, c)->0;
            &&& 0 < s <= c
            &&& ns[s].parent as int == 0 || is_statement_container(ns[ns[s].parent as int].kind@)
        }),
    decreases c,
{
    let p = ns[c].parent as int;
    if !(p == 0 || is_statement_container(ns[p].kind@)) {
        law_statement_is_innermost(ns, p);
    }
}

/// In a well-formed tree every node lies in the root's subtree.
proof fn lemma_all_under_root(ns: Seq<SyntaxNode>, len: nat)
    requires
        nodes_wf(ns, len),
    ensures
        crate::tree::subtree_end(ns, 0) == ns.len(),
{
    assert forall|k: int| 0 < k < ns.len() implies #[trigger] ns[k].depth > ns[0].depth by {
        assert(crate::tree::parent_ok(ns, k));
    }
    crate::tree::lemma_subtree_end_unique(ns, 0, ns.len() as int);
}

/// Whether a node kind holds statements.
fn statement_container(kind: &str) -> (r: bool)
    ensures
        r == is_statement_container(kind@),
{
    str_contains(kind, "block") || str_contains(kind, "body") || str_eq(kind, "module") || str_eq(
        kind,
        "program",
    ) || str_eq(kind, "source_file")
}

/// Walk up from node `c` to the statement that holds it.
fn statement_of(tree: &SyntaxTree, c: usize) -> (r: Option<usize>)
    requires
        tree.wf(),
        c < tree.nodes@.len(),
    ensures
        match r {
            Some(s) => statement_from(tree.nodes@, c as int) == Some(s as int) && s < tree.nodes@.len(),
            None => statement_from(tree.nodes@, c as int) is None,
        },
    decreases c,
{
    if c == 0 {
        return None;
    }
    proof {
        assert(crate::tree::parent_ok(tree.nodes@, c as int));
    }
    let p = tree.nodes[c].parent;
    if p == 0 || statement_container(tree.nodes[p].kind.as_str()) {
        Some(c)
    } else {
        statement_of(tree, p)
    }
}

/// The byte range of the statement holding the node that spans `start..end`.
fn containing_statement(tree: &SyntaxTree, start: usize, end: usize) -> (r: Option<(usize, usize)>)
    requires
        tree.wf(),
    ensures
        r == statement_range(tree.nodes@, start as int, end as int),
{
    proof {
        lemma_all_under_root(tree.nodes@, tree.source_len as nat);
    }
    match find_node_at(tree, 0, start, end) {
        Some(m) => {
            proof {
                assert(first_spanning(tree.nodes@, start as int, end as int, m as int));
                let c = choose|c: int| first_spanning(tree.nodes@, start as int, end as int, c);
                if c < m {
                    assert(!spans(tree.nodes@, c, start as int, end as int));
                } else if m < c {
                    assert(!spans(tree.nodes@, m as int, start as int, end as int));
                }
            }
            match statement_of(tree, m) {
                Some(s) => Some((tree.nodes[s].start_byte, tree.nodes[s].end_byte)),
                None => None,
            }
        },
        None => {
            proof {
                if exists|c: int| first_spanning(tree.nodes@, start as int, end as int, c) {
                    let c = choose|c: int| first_spanning(tree.nodes@, start as int, end as int, c);
                    assert(crate::tree::in_subtree(tree.nodes@, 0, c));
                }
            }
            None
        },
    }
}

/// Whether a range is among `ranges`.
fn has_range(ranges: &Vec<(usize, usize)>, x: (usize, usize)) -> (r: bool)
    ensures
        r == ranges@.contains(x),
{
    let mut k: usize = 0;
    while k < ranges.len()
        invariant
            k <= ranges@.len(),
            forall|m: int| 0 <= m < k ==> ranges@[m] != x,
        decreases ranges@.len() - k,
    {
        if ranges[k].0 == x.0 && ranges[k].1 == x.1 {
            assert(ranges@[k as int] == x);
            return true;
        }
        k = k + 1;
    }
    false
}

/// Byte ranges of statements containing unreferenced definitions.
fn compute_dead_ranges(analysis: &ScopeAnalysis, tree: &SyntaxTree) -> (r: Vec<(usize, usize)>)
    requires
        tree.wf(),
    ensures
        dead_ranges_of(tree.nodes@, *analysis, r@),
{
    let ghost ns = tree.nodes@;
    let defs = &analysis.definitions;
    let refs = &analysis.references;
    let mut r: Vec<(usize, usize)> = Vec::new();
    let mut k: usize = 0;
    while k < defs.len()
        invariant
            ns == tree.nodes@,
            tree.wf(),
            defs == &analysis.definitions,
            refs == &analysis.references,
            k <= defs@.len(),
            forall|x: (usize, usize)|
                #[trigger] r@.contains(x) ==> exists|m: int|
                    0 <= m < k && !referenced(refs@, defs@[m].node_id) && statement_range(
                        ns,
                        defs@[m].start_byte as int,
                        defs@[m].end_byte as int,
                    ) == Some(x),
            forall|m: int|
                0 <= m < k && !referenced(refs@, defs@[m].node_id) ==> (#[trigger] statement_range(
                    ns,
                    defs@[m].start_byte as int,
                    defs@[m].end_byte as int,
                ) matches Some(x) ==> r@.contains(x)),
            forall|i: int, j: int|
                0 <= i < r@.len() && 0 <= j < r@.len() && i != j ==> #[trigger] r@[i]
                    != #[trigger] r@[j],
        decreases defs@.len() - k,
    {
        let id = defs[k].node_id;
        let mut used = false;
        let mut m: usize = 0;
        while m < refs.len()
            invariant
                m <= refs@.len(),
                used <==> exists|j: int| 0 <= j < m && refs@[j].definition_node_id == Some(id),
            decreases refs@.len() - m,
        {
            if refs[m].definition_node_id == Some(id) {
                used = true;
            }
            m = m + 1;
        }
        let ghost before = r@;
        if !used {
            match containing_statement(tree, defs[k].start_byte, defs[k].end_byte) {
                Some(x) => {
                    if !has_range(&r, x) {
                        r.push(x);
                    }
                    assert(r@.contains(x)) by {
                        if before.contains(x) {
                            let i = choose|i: int| 0 <= i < before.len() && before[i] == x;
                            assert(r@[i] == x);
                        } else {
                            assert(r@[r@.len() - 1] == x);
                        }
                    }
                },
                None => {},
            }
        }
        proof {
            assert forall|x: (usize, usize)| #[trigger] r@.contains(x) implies exists|m: int|
                0 <= m < k + 1 && !referenced(refs@, defs@[m].node_id) && statement_range(
                    ns,
                    defs@[m].start_byte as int,
                    defs@[m].end_byte as int,
                ) == Some(x) by {
                if before.contains(x) {
                } else {
                    assert(!referenced(refs@, defs@[k as int].node_id));
                }
            }
            assert forall|m: int|
                0 <= m < k + 1 && !referenced(refs@, defs@[m].node_id) implies (
            #[trigger] statement_range(
                ns,
                defs@[m].start_byte as int,
                defs@[m].end_byte as int,
            ) matches Some(x) ==> r@.contains(x)) by {
                if m < k {
                    if let Some(x) = statement_range(
                        ns,
                        defs@[m].start_byte as int,
                        defs@[m].end_byte as int,
                    ) {
                        assert(before.contains(x));
                        let i = choose|i: int| 0 <= i < before.len() && before[i] == x;
                        assert(r@[i] == x);
                    }
                }
            }
        }
        k = k + 1;
    }
    r
}

/// Proposes deleting statements that contain definitions with zero
/// references, found by scope analysis. Without an analysis it proposes
/// nothing. After each accepted reduction the dead statements are found
/// again, so definitions that became dead as the source shrank are caught.
pub struct DeadDefinitionTransform {
    /// Byte ranges of statements holding unreferenced definitions, each once.
    dead_ranges: Vec<(usize, usize)>,
    /// The `locals.scm` query, kept for analysing the source again.
    locals_query: Option<String>,
}

impl DeadDefinitionTransform {
    /// The byte ranges proposed for deletion.
    pub closed spec fn ranges(&self) -> Seq<(usize, usize)> {
        self.dead_ranges@
    }

    /// The query used to analyse the source again, if any.
    pub closed spec fn query(&self) -> Option<Seq<char>> {
        match self.locals_query {
            Some(q) => Some(q@),
            None => None,
        }
    }

    /// Build from a scope analysis of `tree`: the statements holding
    /// unreferenced definitions.
    pub fn from_analysis(analysis: &ScopeAnalysis, tree: &SyntaxTree, locals_query: &str) -> (r: Self)
        requires
            tree.wf(),
        ensures
            dead_ranges_of(tree.nodes@, *analysis, r.ranges()),
            r.query() == Some(locals_query@),
    {
        let dead_ranges = compute_dead_ranges(analysis, tree);
        DeadDefinitionTransform { dead_ranges, locals_query: Some(String::from_str(locals_query)) }
    }

    /// A transform with no scope analysis: it proposes nothing.
    pub fn empty() -> (r: Self)
        ensures
            r.ranges().len() == 0,
            r.query() is None,
    {
        DeadDefinitionTransform { dead_ranges: Vec::new(), locals_query: None }
    }

    /// A deletion of node `node` when its range is a dead statement's.
    pub open spec fn proposals(&self, tree: SyntaxTree, node: int) -> Seq<(int, int, Seq<u8>)> {
        let n = tree.nodes@[node];
        if self.ranges().contains((n.start_byte, n.end_byte)) {
            seq![(n.start_byte as int, n.end_byte as int, Seq::<u8>::empty())]
        } else {
            Seq::empty()
        }
    }
}

impl Transform for DeadDefinitionTransform {
    open spec fn proposes_from_tree(&self) -> bool {
        true
    }

    open spec fn proposed(&self, tree: SyntaxTree, node: int, source: Seq<u8>) -> Seq<
        (int, int, Seq<u8>),
    > {
        self.proposals(tree, node)
    }

    fn candidates(
        &self,
        tree: &SyntaxTree,
        node: usize,
        source: &[u8],
        provider: &dyn SupertypeProvider,
    ) -> (r: Vec<Replacement>)
        ensures
            rviews(r@) == self.proposals(*tree, node as int),
    {
        let range = (tree.nodes[node].start_byte, tree.nodes[node].end_byte);
        let mut r: Vec<Replacement> = Vec::new();
        if has_range(&self.dead_ranges, range) {
            r.push(Replacement { start_byte: range.0, end_byte: range.1, new_bytes: Vec::new() });
        }
        assert(rviews(r@) =~= self.proposals(*tree, node as int));
        r
    }

    fn name(&self) -> (r: &str)
        ensures
            r@ == "dead_definition"@,
    {
        "dead_definition"
    }

    fn on_reduction(&mut self, tree: &SyntaxTree, source: &[u8], language: &tree_sitter::Language)
        ensures
            final(self).query() == old(self).query(),
            old(self).query() is None ==> final(self).ranges() == old(self).ranges(),
            final(self).ranges() == old(self).ranges() || exists|a: ScopeAnalysis|
                crate::scope::analysis_of_some_captures(a, tree.nodes@, source@) && dead_ranges_of(
                    tree.nodes@,
                    a,
                    final(self).ranges(),
                ),
    {
        let fresh = match &self.locals_query {
            Some(q) => match ScopeAnalysis::from_tree(tree, source, language, q.as_str()) {
                Some(a) => Some(compute_dead_ranges(&a, tree)),
                None => None,
            },
            None => None,
        };
        match fresh {
            Some(ranges) => {
                self.dead_ranges = ranges;
            },
            None => {},
        }
    }
}

} // verus!
