//! Replacements of byte ranges, and the syntactic validity gate.
use vstd::prelude::*;

use crate::parse;
use crate::text::bytes_eq;
use crate::tree::{SyntaxNode, SyntaxTree};

verus! {

/// A proposed replacement: replace bytes `start_byte..end_byte` with `new_bytes`.
pub struct Replacement {
    pub start_byte: usize,
    pub end_byte: usize,
    pub new_bytes: Vec<u8>,
}

impl Clone for Replacement {
    fn clone(&self) -> (r: Self)
        ensures
            r.start_byte == self.start_byte,
            r.end_byte == self.end_byte,
            r.new_bytes@ == self.new_bytes@,
    {
        Replacement {
            start_byte: self.start_byte,
            end_byte: self.end_byte,
            new_bytes: self.new_bytes.clone(),
        }
    }
}

/// The bytes of `source` with `start..end` replaced by `new_bytes`.
pub open spec fn spliced(source: Seq<u8>, start: int, end: int, new_bytes: Seq<u8>) -> Seq<u8> {
    source.subrange(0, start) + new_bytes + source.subrange(end, source.len() as int)
}

/// The replacement's range lies within a source of `len` bytes.
pub open spec fn in_bounds(r: Replacement, len: nat) -> bool {
    r.start_byte <= r.end_byte && r.end_byte <= len
}

/// Append `src[from..to]` to `out`.
pub(crate) fn push_range(out: &mut Vec<u8>, src: &[u8], from: usize, to: usize)
    requires
        from <= to <= src@.len(),
    ensures
        final(out)@ == old(out)@ + src@.subrange(from as int, to as int),
{
    let ghost start = out@;
    let mut k = from;
    while k < to
        invariant
            from <= k <= to,
            to <= src@.len(),
            out@ == start + src@.subrange(from as int, k as int),
        decreases to - k,
    {
        out.push(src[k]);
        k = k + 1;
        assert(out@ =~= start + src@.subrange(from as int, k as int));
    }
}

/// Apply a replacement to source bytes, returning the new source.
pub fn apply_replacement(source: &[u8], replacement: &Replacement) -> (r: Vec<u8>)
    requires
        in_bounds(*replacement, source@.len()),
    ensures
        r@ == spliced(
            source@,
            replacement.start_byte as int,
            replacement.end_byte as int,
            replacement.new_bytes@,
        ),
        r@.len() == source@.len() - (replacement.end_byte - replacement.start_byte)
            + replacement.new_bytes@.len(),
{
    let mut out: Vec<u8> = Vec::new();
    push_range(&mut out, source, 0, replacement.start_byte);
    push_range(&mut out, replacement.new_bytes.as_slice(), 0, replacement.new_bytes.len());
    push_range(&mut out, source, replacement.end_byte, source.len());
    assert(replacement.new_bytes@.subrange(0, replacement.new_bytes@.len() as int)
        =~= replacement.new_bytes@);
    out
}

/// A node is an error when the parser marked it ERROR or MISSING.
pub open spec fn is_error_node(n: SyntaxNode) -> bool {
    n.is_error || n.is_missing
}

/// The source text of a node, or nothing when its range lies outside `source`.
pub open spec fn node_text(source: Seq<u8>, n: SyntaxNode) -> Seq<u8> {
    if n.start_byte <= n.end_byte && n.end_byte <= source.len() {
        source.subrange(n.start_byte as int, n.end_byte as int)
    } else {
        Seq::empty()
    }
}

/// An error's signature: its node kind and its source text. Signatures do
/// not depend on byte positions, so they survive edits earlier in the file.
pub open spec fn node_signature(source: Seq<u8>, n: SyntaxNode) -> (Seq<char>, Seq<u8>) {
    (n.kind@, node_text(source, n))
}

/// Number of error nodes among the first `k` nodes with signature `s`.
pub open spec fn error_count_upto(
    ns: Seq<SyntaxNode>,
    source: Seq<u8>,
    k: int,
    s: (Seq<char>, Seq<u8>),
) -> nat
    decreases k,
{
    if k <= 0 {
        0
    } else {
        error_count_upto(ns, source, k - 1, s) + if is_error_node(ns[k - 1]) && node_signature(
            source,
            ns[k - 1],
        ) == s {
            1nat
        } else {
            0nat
        }
    }
}

/// Number of error nodes of the tree with signature `s`.
pub open spec fn tree_error_count(
    ns: Seq<SyntaxNode>,
    source: Seq<u8>,
    s: (Seq<char>, Seq<u8>),
) -> nat {
    error_count_upto(ns, source, ns.len() as int, s)
}

/// The tree holds an ERROR or MISSING node.
pub open spec fn has_error_nodes(ns: Seq<SyntaxNode>) -> bool {
    exists|k: int| 0 <= k < ns.len() && #[trigger] is_error_node(ns[k])
}

/// One error signature with the number of times it occurs.
struct ErrorCount {
    kind: String,
    text: Vec<u8>,
    count: usize,
}

spec fn entry_sig(e: ErrorCount) -> (Seq<char>, Seq<u8>) {
    (e.kind@, e.text@)
}

/// Count recorded for `s` (the last entry with that signature wins).
spec fn count_in(es: Seq<ErrorCount>, s: (Seq<char>, Seq<u8>)) -> nat
    decreases es.len(),
{
    if es.len() == 0 {
        0
    } else if entry_sig(es.last()) == s {
        es.last().count as nat
    } else {
        count_in(es.drop_last(), s)
    }
}

spec fn sigs_of(es: Seq<ErrorCount>) -> Seq<(Seq<char>, Seq<u8>)> {
    es.map_values(|e: ErrorCount| entry_sig(e))
}

proof fn lemma_count_in_member(es: Seq<ErrorCount>, i: int)
    requires
        0 <= i < es.len(),
        sigs_of(es).no_duplicates(),
    ensures
        count_in(es, entry_sig(es[i])) == es[i].count,
    decreases es.len(),
{
    if i < es.len() - 1 {
        assert(sigs_of(es)[i] == entry_sig(es[i]));
        assert(sigs_of(es)[es.len() - 1] == entry_sig(es.last()));
        assert(sigs_of(es.drop_last()) =~= sigs_of(es).drop_last());
        lemma_count_in_member(es.drop_last(), i);
    }
}

proof fn lemma_count_in_absent(es: Seq<ErrorCount>, s: (Seq<char>, Seq<u8>))
    requires
        !sigs_of(es).contains(s),
    ensures
        count_in(es, s) == 0,
    decreases es.len(),
{
    if es.len() > 0 {
        assert(sigs_of(es)[es.len() - 1] == entry_sig(es.last()));
        assert(sigs_of(es.drop_last()) =~= sigs_of(es).drop_last());
        if sigs_of(es.drop_last()).contains(s) {
            let j = choose|j: int| 0 <= j < sigs_of(es.drop_last()).len() && sigs_of(es.drop_last())[j] == s;
            assert(sigs_of(es)[j] == s);
        }
        lemma_count_in_absent(es.drop_last(), s);
    }
}

/// A multiset of error signatures in a parse tree.
/// Used to distinguish pre-existing errors from new ones: errors are
/// identified by (node kind, source text) rather than byte position, so they
/// remain stable when byte offsets shift due to earlier deletions.
pub struct ErrorSet {
    errors: Vec<ErrorCount>,
}

impl ErrorSet {
    #[verifier::type_invariant]
    spec fn inv(&self) -> bool {
        &&& sigs_of(self.errors@).no_duplicates()
        &&& forall|i: int| 0 <= i < self.errors@.len() ==> #[trigger] self.errors@[i].count > 0
    }

    /// How many times signature `s` occurs.
    pub closed spec fn count(&self, s: (Seq<char>, Seq<u8>)) -> nat {
        count_in(self.errors@, s)
    }

    /// The signatures that occur at least once.
    pub closed spec fn signatures(&self) -> Set<(Seq<char>, Seq<u8>)> {
        sigs_of(self.errors@).to_set()
    }

    proof fn lemma_signatures(&self)
        requires
            self.inv(),
        ensures
            forall|s| #[trigger] self.signatures().contains(s) <==> self.count(s) > 0,
            self.signatures().finite(),
            self.signatures().len() == self.errors@.len(),
    {
        let es = self.errors@;
        assert forall|s| #[trigger] self.signatures().contains(s) <==> self.count(s) > 0 by {
            if sigs_of(es).contains(s) {
                let j = choose|j: int| 0 <= j < sigs_of(es).len() && sigs_of(es)[j] == s;
                lemma_count_in_member(es, j);
                assert(es[j].count > 0);
            } else {
                lemma_count_in_absent(es, s);
            }
        }
        sigs_of(es).unique_seq_to_set();
        vstd::seq_lib::seq_to_set_is_finite(sigs_of(es));
    }

    /// Collect all ERROR and MISSING nodes of a tree.
    pub fn from_tree(tree: &SyntaxTree, source: &[u8]) -> (r: ErrorSet)
        ensures
            forall|s| #[trigger] r.count(s) == tree_error_count(tree.nodes@, source@, s),
    {
        let ghost ns = tree.nodes@;
        let mut errors: Vec<ErrorCount> = Vec::new();
        let n = tree.nodes.len();
        let mut k: usize = 0;
        while k < n
            invariant
                ns == tree.nodes@,
                n == ns.len(),
                k <= n,
                sigs_of(errors@).no_duplicates(),
                forall|i: int| 0 <= i < errors@.len() ==> #[trigger] errors@[i].count > 0,
                forall|s| #[trigger] count_in(errors@, s) == error_count_upto(ns, source@, k as int, s),
                forall|i: int| 0 <= i < errors@.len() ==> #[trigger] errors@[i].count <= k,
            decreases n - k,
        {
            let node = &tree.nodes[k];
            if node.is_error || node.is_missing {
                let text: Vec<u8> = if node.start_byte <= node.end_byte && node.end_byte
                    <= source.len() {
                    let mut t: Vec<u8> = Vec::new();
                    push_range(&mut t, source, node.start_byte, node.end_byte);
                    t
                } else {
                    Vec::new()
                };
                assert(text@ =~= node_text(source@, ns[k as int]));
                let ghost sig = node_signature(source@, ns[k as int]);
                // look for an existing entry with this signature
                let mut found: Option<usize> = None;
                let mut j: usize = 0;
                while j < errors.len() && found.is_none()
                    invariant
                        j <= errors@.len(),
                        found matches Some(f) ==> f < errors@.len() && entry_sig(errors@[f as int]) == sig,
                        forall|m: int| 0 <= m < j ==> entry_sig(#[trigger] errors@[m]) != sig,
                        sig == (node.kind@, text@),
                    decreases (errors@.len() - j) * 2 + (if found is None { 1int } else { 0int }),
                {
                    if errors[j].kind == node.kind && bytes_eq(&errors[j].text, &text) {
                        found = Some(j);
                    } else {
                        j = j + 1;
                    }
                }
                let ghost old_errors = errors@;
                match found {
                    Some(f) => {
                        let c = errors[f].count;
                        let entry = ErrorCount {
                            kind: errors[f].kind.clone(),
                            text: text,
                            count: c + 1,
                        };
                        errors.set(f, entry);
                        proof {
                            assert(sigs_of(errors@) =~= sigs_of(old_errors));
                            assert forall|s| #[trigger] count_in(errors@, s) == error_count_upto(
                                ns,
                                source@,
                                k + 1,
                                s,
                            ) by {
                                if s == sig {
                                    lemma_count_in_member(old_errors, f as int);
                                    lemma_count_in_member(errors@, f as int);
                                } else {
                                    lemma_count_unchanged(old_errors, errors@, f as int, s);
                                }
                            }
                        }
                    },
                    None => {
                        errors.push(ErrorCount { kind: node.kind.clone(), text: text, count: 1 });
                        proof {
                            assert(!sigs_of(old_errors).contains(sig)) by {
                                if sigs_of(old_errors).contains(sig) {
                                    let m = choose|m: int| 0 <= m < sigs_of(old_errors).len() && sigs_of(old_errors)[m] == sig;
                                    assert(entry_sig(old_errors[m]) == sig);
                                }
                            }
                            lemma_count_in_absent(old_errors, sig);
                            assert(sigs_of(errors@) =~= sigs_of(old_errors).push(sig));
                            assert(errors@.drop_last() =~= old_errors);
                            assert forall|s| #[trigger] count_in(errors@, s) == error_count_upto(
                                ns,
                                source@,
                                k + 1,
                                s,
                            ) by {
                                assert(entry_sig(errors@.last()) == sig);
                                assert(count_in(old_errors, s) == error_count_upto(
                                    ns,
                                    source@,
                                    k as int,
                                    s,
                                ));
                            }
                        }
                    },
                }
            } else {
                proof {
                    assert forall|s| #[trigger] count_in(errors@, s) == error_count_upto(
                        ns,
                        source@,
                        k + 1,
                        s,
                    ) by {}
                }
            }
            k = k + 1;
        }
        ErrorSet { errors }
    }

    /// Check if this set contains any errors.
    pub fn has_errors(&self) -> (r: bool)
        ensures
            r == (exists|s| self.count(s) > 0),
    {
        proof {
            use_type_invariant(self);
            self.lemma_signatures();
            if self.errors@.len() > 0 {
                let s = entry_sig(self.errors@[0]);
                assert(sigs_of(self.errors@)[0] == s);
                assert(self.signatures().contains(s));
            }
        }
        self.errors.len() != 0
    }

    /// Number of distinct error signatures.
    pub fn len(&self) -> (r: usize)
        ensures
            r == self.signatures().len(),
            self.signatures().finite(),
            forall|s| #[trigger] self.signatures().contains(s) <==> self.count(s) > 0,
            r == 0 <==> forall|s| self.count(s) == 0,
    {
        proof {
            use_type_invariant(self);
            self.lemma_signatures();
            if self.errors@.len() > 0 {
                let s = entry_sig(self.errors@[0]);
                assert(sigs_of(self.errors@)[0] == s);
                assert(self.signatures().contains(s));
            }
        }
        self.errors.len()
    }

    /// Whether no error signature occurs.
    pub fn is_empty(&self) -> (r: bool)
        ensures
            r == (forall|s| self.count(s) == 0),
    {
        let b = self.has_errors();
        !b
    }

    /// Check if a tree has any NEW errors not in this set: an error is new if
    /// its signature occurs more times in the tree than in this set.
    pub fn has_new_errors(&self, tree: &SyntaxTree, source: &[u8]) -> (r: bool)
        ensures
            r == (exists|s| tree_error_count(tree.nodes@, source@, s) > self.count(s)),
    {
        let fresh = ErrorSet::from_tree(tree, source);
        self.exceeded_by(&fresh)
    }

    /// Whether `other` holds some signature more times than this set.
    pub fn exceeded_by(&self, other: &ErrorSet) -> (r: bool)
        ensures
            r == (exists|s| other.count(s) > self.count(s)),
    {
        proof {
            use_type_invariant(other);
        }
        let mut i: usize = 0;
        while i < other.errors.len()
            invariant
                i <= other.errors@.len(),
                sigs_of(other.errors@).no_duplicates(),
                forall|m: int|
                    0 <= m < i ==> other.count(entry_sig(#[trigger] other.errors@[m])) <= self.count(
                        entry_sig(other.errors@[m]),
                    ),
            decreases other.errors@.len() - i,
        {
            let known = self.count_of(&other.errors[i].kind, &other.errors[i].text);
            proof {
                lemma_count_in_member(other.errors@, i as int);
            }
            if other.errors[i].count > known {
                return true;
            }
            i = i + 1;
        }
        proof {
            assert forall|s| !(other.count(s) > self.count(s)) by {
                if sigs_of(other.errors@).contains(s) {
                    let m = choose|m: int| 0 <= m < sigs_of(other.errors@).len() && sigs_of(other.errors@)[m] == s;
                    assert(entry_sig(other.errors@[m]) == s);
                } else {
                    lemma_count_in_absent(other.errors@, s);
                }
            }
        }
        false
    }

    /// How many times the signature (`kind`, `text`) occurs.
    fn count_of(&self, kind: &String, text: &Vec<u8>) -> (r: usize)
        ensures
            r == self.count((kind@, text@)),
    {
        proof {
            use_type_invariant(self);
        }
        let ghost s = (kind@, text@);
        let mut j: usize = 0;
        while j < self.errors.len()
            invariant
                j <= self.errors@.len(),
                s == (kind@, text@),
                sigs_of(self.errors@).no_duplicates(),
                forall|m: int| 0 <= m < j ==> entry_sig(#[trigger] self.errors@[m]) != s,
            decreases self.errors@.len() - j,
        {
            if crate::text::str_eq(self.errors[j].kind.as_str(), kind.as_str()) && bytes_eq(
                &self.errors[j].text,
                text,
            ) {
                proof {
                    lemma_count_in_member(self.errors@, j as int);
                }
                return self.errors[j].count;
            }
            j = j + 1;
        }
        proof {
            if sigs_of(self.errors@).contains(s) {
                let m = choose|m: int| 0 <= m < sigs_of(self.errors@).len() && sigs_of(self.errors@)[m] == s;
                assert(entry_sig(self.errors@[m]) == s);
            }
            lemma_count_in_absent(self.errors@, s);
        }
        0
    }
}

proof fn lemma_count_unchanged(
    old_es: Seq<ErrorCount>,
    new_es: Seq<ErrorCount>,
    f: int,
    s: (Seq<char>, Seq<u8>),
)
    requires
        old_es.len() == new_es.len(),
        0 <= f < old_es.len(),
        forall|i: int| 0 <= i < old_es.len() && i != f ==> old_es[i] == new_es[i],
        entry_sig(old_es[f]) == entry_sig(new_es[f]),
        entry_sig(old_es[f]) != s,
    ensures
        count_in(old_es, s) == count_in(new_es, s),
    decreases old_es.len(),
{
    if old_es.len() > 0 && f < old_es.len() - 1 {
        lemma_count_unchanged(old_es.drop_last(), new_es.drop_last(), f, s);
    } else if old_es.len() > 0 {
        assert(old_es.drop_last() =~= new_es.drop_last());
    }
}

/// Check if a tree has any ERROR or MISSING node at all.
pub fn tree_has_errors(tree: &SyntaxTree) -> (r: bool)
    ensures
        r == has_error_nodes(tree.nodes@),
{
    let mut k: usize = 0;
    while k < tree.nodes.len()
        invariant
            k <= tree.nodes@.len(),
            forall|m: int| 0 <= m < k ==> !#[trigger] is_error_node(tree.nodes@[m]),
        decreases tree.nodes@.len() - k,
    {
        if tree.nodes[k].is_error || tree.nodes[k].is_missing {
            assert(is_error_node(tree.nodes@[k as int]));
            return true;
        }
        k = k + 1;
    }
    false
}

/// The validity decision for a candidate source, given how it parsed:
/// - with no parse, the candidate is rejected;
/// - if `initial_errors` is `None` (strict mode), any error node rejects it;
/// - otherwise only errors beyond those in `initial_errors` reject it.
/// Returns the candidate when it is accepted.
pub fn accept_parsed(
    new_source: Vec<u8>,
    parsed: Option<SyntaxTree>,
    initial_errors: Option<&ErrorSet>,
) -> (r: Option<Vec<u8>>)
    ensures
        r is Some <==> match parsed {
            None => false,
            Some(t) => match initial_errors {
                None => !has_error_nodes(t.nodes@),
                Some(known) => !(exists|s|
                    tree_error_count(t.nodes@, new_source@, s) > known.count(s)),
            },
        },
        r matches Some(v) ==> v@ == new_source@,
{
    let tree = match parsed {
        Some(t) => t,
        None => return None,
    };
    match initial_errors {
        None => {
            if tree_has_errors(&tree) {
                None
            } else {
                Some(new_source)
            }
        },
        Some(known) => {
            if known.has_new_errors(&tree, new_source.as_slice()) {
                None
            } else {
                Some(new_source)
            }
        },
    }
}

/// Check if applying a replacement produces a valid result: the range must
/// lie within `source`, and the spliced source must parse and pass
/// [`accept_parsed`]. Returns `Some(new_source)` if valid, `None` if not.
pub fn try_replacement(
    source: &[u8],
    replacement: &Replacement,
    language: &tree_sitter::Language,
    initial_errors: Option<&ErrorSet>,
) -> (r: Option<Vec<u8>>)
    ensures
        !in_bounds(*replacement, source@.len()) ==> r is None,
        r matches Some(v) ==> v@ == spliced(
            source@,
            replacement.start_byte as int,
            replacement.end_byte as int,
            replacement.new_bytes@,
        ),
{
    if replacement.start_byte > replacement.end_byte || replacement.end_byte > source.len() {
        return None;
    }
    let new_source = apply_replacement(source, replacement);
    let parsed = parse::parse(new_source.as_slice(), language);
    accept_parsed(new_source, parsed, initial_errors)
}

/// Node `b` is node `a` moved `d` bytes towards the start of the source.
pub open spec fn moved_earlier(a: SyntaxNode, b: SyntaxNode, d: int) -> bool {
    &&& b.kind@ == a.kind@
    &&& b.is_error == a.is_error
    &&& b.is_missing == a.is_missing
    &&& b.start_byte == a.start_byte - d
    &&& b.end_byte == a.end_byte - d
}

proof fn lemma_counts_after_shift(
    ns1: Seq<SyntaxNode>,
    source: Seq<u8>,
    ns2: Seq<SyntaxNode>,
    d: int,
    k: int,
    s: (Seq<char>, Seq<u8>),
)
    requires
        0 <= d <= source.len(),
        ns1.len() == ns2.len(),
        0 <= k <= ns1.len(),
        forall|i: int|
            0 <= i < ns1.len() ==> d <= #[trigger] ns1[i].start_byte && moved_earlier(
                ns1[i],
                ns2[i],
                d,
            ),
    ensures
        error_count_upto(ns2, source.skip(d), k, s) == error_count_upto(ns1, source, k, s),
    decreases k,
{
    if k > 0 {
        lemma_counts_after_shift(ns1, source, ns2, d, k - 1, s);
        let a = ns1[k - 1];
        let b = ns2[k - 1];
        assert(d <= a.start_byte && moved_earlier(a, b, d));
        if a.start_byte <= a.end_byte && a.end_byte <= source.len() {
            assert(node_text(source.skip(d), b) =~= node_text(source, a));
        } else {
            assert(node_text(source.skip(d), b) =~= node_text(source, a));
        }
    }
}

/// Some error node among the first `k` has signature `s` exactly when the
/// count is positive.
proof fn lemma_error_count_positive(ns: Seq<SyntaxNode>, source: Seq<u8>, k: int, s: (Seq<char>, Seq<u8>))
    requires
        k <= ns.len(),
    ensures
        error_count_upto(ns, source, k, s) > 0 <==> exists|j: int|
            0 <= j < k && is_error_node(ns[j]) && #[trigger] node_signature(source, ns[j]) == s,
    decreases k,
{
    if k > 0 {
        lemma_error_count_positive(ns, source, k - 1, s);
        if error_count_upto(ns, source, k - 1, s) > 0 {
            let j = choose|j: int|
                0 <= j < k - 1 && is_error_node(ns[j]) && #[trigger] node_signature(source, ns[j]) == s;
            assert(0 <= j < k);
        }
        if exists|j: int| 0 <= j < k && is_error_node(ns[j]) && #[trigger] node_signature(source, ns[j]) == s {
            let j = choose|j: int|
                0 <= j < k && is_error_node(ns[j]) && #[trigger] node_signature(source, ns[j]) == s;
            if j < k - 1 {
                assert(0 <= j < k - 1);
            }
        }
    }
}

/// The error set of a tree holds exactly the signatures of its ERROR and
/// MISSING nodes: a signature occurs in it exactly when some such node of
/// the tree has that kind and text.
pub proof fn law_error_set_lists_error_nodes(
    e: ErrorSet,
    ns: Seq<SyntaxNode>,
    source: Seq<u8>,
    s: (Seq<char>, Seq<u8>),
)
    requires
        forall|x| #[trigger] e.count(x) == tree_error_count(ns, source, x),
    ensures
        e.count(s) > 0 <==> exists|j: int|
            0 <= j < ns.len() && is_error_node(ns[j]) && #[trigger] node_signature(source, ns[j]) == s,
{
    assert(e.count(s) == tree_error_count(ns, source, s));
    lemma_error_count_positive(ns, source, ns.len() as int, s);
}

/// Errors are told apart by kind and text, not by position: when the first
/// `d` bytes of a source are deleted and every node of the new tree is the
/// matching node of the old tree moved `d` bytes earlier, every error
/// signature occurs as often as before.
pub proof fn law_error_counts_shift_invariant(
    ns1: Seq<SyntaxNode>,
    source: Seq<u8>,
    ns2: Seq<SyntaxNode>,
    d: int,
    s: (Seq<char>, Seq<u8>),
)
    requires
        0 <= d <= source.len(),
        ns1.len() == ns2.len(),
        forall|i: int|
            0 <= i < ns1.len() ==> d <= #[trigger] ns1[i].start_byte && moved_earlier(
                ns1[i],
                ns2[i],
                d,
            ),
    ensures
        tree_error_count(ns2, source.skip(d), s) == tree_error_count(ns1, source, s),
{
    lemma_counts_after_shift(ns1, source, ns2, d, ns1.len() as int, s);
}

} // verus!
