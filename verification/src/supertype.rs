//! Supertype/subtype relationships for tree-sitter grammars.
//!
//! A pluggable system for determining node type compatibility: which node
//! types can replace which positions in a parse tree.
use vstd::prelude::*;

use std::collections::HashMap;

verus! {

broadcast use vstd::std_specs::hash::group_hash_axioms;

/// `acc` extended, left to right, by the elements of `xs` not already in it
/// and different from `skip` (when a skip is given).
pub open spec fn add_distinct(acc: Seq<u16>, xs: Seq<u16>, skip: Option<u16>) -> Seq<u16>
    decreases xs.len(),
{
    if xs.len() == 0 {
        acc
    } else {
        let rest = add_distinct(acc, xs.drop_last(), skip);
        let x = xs.last();
        if rest.contains(x) || skip == Some(x) {
            rest
        } else {
            rest.push(x)
        }
    }
}

/// Two kinds are compatible when they are equal or share a supertype.
pub open spec fn compatible_spec(c: u16, e: u16, c_supers: Seq<u16>, e_supers: Seq<u16>) -> bool {
    c == e || exists|i: int, j: int|
        0 <= i < c_supers.len() && 0 <= j < e_supers.len() && c_supers[i] == e_supers[j]
}

/// Provides supertype/subtype relationships for a tree-sitter grammar.
/// Used to determine which node types can replace which positions in the tree.
pub trait SupertypeProvider {
    /// The supertype IDs that the node kind belongs to.
    spec fn supers(&self, kind_id: u16) -> Seq<u16>;

    /// The subtype IDs of a supertype.
    spec fn subs(&self, supertype_id: u16) -> Seq<u16>;

    /// Return the supertype IDs that this node kind belongs to.
    fn supertypes_for(&self, kind_id: u16) -> (r: Vec<u16>)
        ensures
            r@ == self.supers(kind_id),
    ;

    /// Return all subtype IDs for a given supertype.
    fn subtypes_for(&self, supertype_id: u16) -> (r: Vec<u16>)
        ensures
            r@ == self.subs(supertype_id),
    ;

    /// Check if a node kind is a valid replacement for a position expecting
    /// the given kind: the kinds are equal or share a supertype.
    fn is_compatible(&self, candidate_kind: u16, expected_kind: u16) -> (r: bool)
        ensures
            r == compatible_spec(
                candidate_kind,
                expected_kind,
                self.supers(candidate_kind),
                self.supers(expected_kind),
            ),
    {
        if candidate_kind == expected_kind {
            return true;
        }
        let cs = self.supertypes_for(candidate_kind);
        let es = self.supertypes_for(expected_kind);
        let mut i: usize = 0;
        while i < cs.len()
            invariant
                i <= cs@.len(),
                cs@ == self.supers(candidate_kind),
                es@ == self.supers(expected_kind),
                candidate_kind != expected_kind,
                forall|a: int, b: int| 0 <= a < i && 0 <= b < es@.len() ==> cs@[a] != es@[b],
            decreases cs@.len() - i,
        {
            let mut j: usize = 0;
            while j < es.len()
                invariant
                    i < cs@.len(),
                    j <= es@.len(),
                    cs@ == self.supers(candidate_kind),
                    es@ == self.supers(expected_kind),
                    forall|b: int| 0 <= b < j ==> cs@[i as int] != es@[b],
                decreases es@.len() - j,
            {
                if cs[i] == es[j] {
                    assert(cs@[i as int] == es@[j as int]);
                    return true;
                }
                j = j + 1;
            }
            i = i + 1;
        }
        false
    }
}

/// A copy of a list of kind IDs.
fn copy_ids(v: &Vec<u16>) -> (r: Vec<u16>)
    ensures
        r@ == v@,
{
    let mut r: Vec<u16> = Vec::new();
    let mut i: usize = 0;
    while i < v.len()
        invariant
            i <= v@.len(),
            r@ == v@.subrange(0, i as int),
        decreases v@.len() - i,
    {
        r.push(v[i]);
        i = i + 1;
        assert(r@ =~= v@.subrange(0, i as int));
    }
    assert(v@.subrange(0, v@.len() as int) =~= v@);
    r
}

/// The IDs stored under `k`, or none.
pub open spec fn ids_at(m: Map<u16, Vec<u16>>, k: u16) -> Seq<u16> {
    if m.contains_key(k) {
        m[k]@
    } else {
        Seq::empty()
    }
}

/// Look up the IDs stored under `k`.
fn lookup_ids(m: &HashMap<u16, Vec<u16>>, k: u16) -> (r: Vec<u16>)
    ensures
        r@ == ids_at(m@, k),
{
    match m.get(&k) {
        Some(v) => copy_ids(v),
        None => Vec::new(),
    }
}

/// `n` copies of `x`.
pub open spec fn repeat(x: u16, n: nat) -> Seq<u16> {
    Seq::new(n, |i: int| x)
}

/// Number of occurrences of `k` in `xs`.
pub open spec fn occurrences(xs: Seq<u16>, k: u16) -> nat
    decreases xs.len(),
{
    if xs.len() == 0 {
        0
    } else {
        occurrences(xs.drop_last(), k) + if xs.last() == k {
            1nat
        } else {
            0nat
        }
    }
}

/// Supertypes of `k` given by a table of (supertype, subtypes) entries: each
/// entry contributes its supertype once per occurrence of `k` in its subtypes.
pub open spec fn table_supers(table: Seq<(u16, Seq<u16>)>, k: u16) -> Seq<u16>
    decreases table.len(),
{
    if table.len() == 0 {
        Seq::empty()
    } else {
        table_supers(table.drop_last(), k) + repeat(
            table.last().0,
            occurrences(table.last().1, k),
        )
    }
}

/// Subtypes of `s` given by a table: those of the last entry for `s`.
pub open spec fn table_subs(table: Seq<(u16, Seq<u16>)>, s: u16) -> Seq<u16>
    decreases table.len(),
{
    if table.len() == 0 {
        Seq::empty()
    } else if table.last().0 == s {
        table.last().1
    } else {
        table_subs(table.drop_last(), s)
    }
}

/// Whether `s` is the supertype of some table entry.
pub open spec fn table_has(table: Seq<(u16, Seq<u16>)>, s: u16) -> bool {
    exists|i: int| 0 <= i < table.len() && #[trigger] table[i].0 == s
}

/// The view of a table of (supertype, subtype list) pairs.
pub open spec fn table_view(table: Seq<(u16, Vec<u16>)>) -> Seq<(u16, Seq<u16>)> {
    table.map_values(|e: (u16, Vec<u16>)| (e.0, e.1@))
}

/// Lookup maps built from a supertype table.
pub struct SupertypeMaps {
    /// kind_id -> list of supertype IDs this kind belongs to
    kind_to_supertypes: HashMap<u16, Vec<u16>>,
    /// supertype_id -> list of subtype IDs
    supertype_to_subtypes: HashMap<u16, Vec<u16>>,
}

impl SupertypeMaps {
    pub closed spec fn supers(&self, k: u16) -> Seq<u16> {
        ids_at(self.kind_to_supertypes@, k)
    }

    pub closed spec fn subs(&self, s: u16) -> Seq<u16> {
        ids_at(self.supertype_to_subtypes@, s)
    }

    /// The supertypes that have an entry.
    pub closed spec fn supertype_ids(&self) -> Set<u16> {
        self.supertype_to_subtypes@.dom()
    }

    /// Build the maps from (supertype, subtypes) entries, in order. A later
    /// entry for the same supertype replaces the subtype list of an earlier one.
    pub fn from_table(table: &Vec<(u16, Vec<u16>)>) -> (r: SupertypeMaps)
        ensures
            forall|k: u16| #[trigger] r.supers(k) == table_supers(table_view(table@), k),
            forall|s: u16| #[trigger] r.subs(s) == table_subs(table_view(table@), s),
            forall|s: u16| #[trigger] r.supertype_ids().contains(s) <==> table_has(table_view(table@), s),
    {
        let ghost tv = table_view(table@);
        let mut kind_to_supertypes: HashMap<u16, Vec<u16>> = HashMap::new();
        let mut supertype_to_subtypes: HashMap<u16, Vec<u16>> = HashMap::new();
        let mut i: usize = 0;
        while i < table.len()
            invariant
                i <= table@.len(),
                tv == table_view(table@),
                forall|k: u16| #[trigger] ids_at(kind_to_supertypes@, k) == table_supers(tv.take(i as int), k),
                forall|s: u16| #[trigger] ids_at(supertype_to_subtypes@, s) == table_subs(tv.take(i as int), s),
                forall|s: u16| #[trigger] supertype_to_subtypes@.contains_key(s) <==> table_has(tv.take(i as int), s),
            decreases table@.len() - i,
        {
            let supertype_id = table[i].0;
            let subtypes = copy_ids(&table[i].1);
            let ghost before = kind_to_supertypes@;
            // push the supertype onto the entry of each subtype, in order
            let mut j: usize = 0;
            while j < subtypes.len()
                invariant
                    j <= subtypes@.len(),
                    forall|k: u16| #[trigger] ids_at(kind_to_supertypes@, k) == ids_at(before, k) + repeat(
                        supertype_id,
                        occurrences(subtypes@.take(j as int), k),
                    ),
                decreases subtypes@.len() - j,
            {
                let sub = subtypes[j];
                let mut cur = lookup_ids(&kind_to_supertypes, sub);
                let ghost cur0 = cur@;
                cur.push(supertype_id);
                let ghost mid = kind_to_supertypes@;
                kind_to_supertypes.insert(sub, cur);
                proof {
                    assert forall|k: u16| #[trigger] ids_at(kind_to_supertypes@, k) == ids_at(before, k)
                        + repeat(supertype_id, occurrences(subtypes@.take(j + 1), k)) by {
                        assert(subtypes@.take(j + 1).drop_last() =~= subtypes@.take(j as int));
                        assert(ids_at(mid, k) == ids_at(before, k) + repeat(
                            supertype_id,
                            occurrences(subtypes@.take(j as int), k),
                        ));
                        if k == sub {
                            assert(repeat(supertype_id, occurrences(subtypes@.take(j as int), k) + 1)
                                =~= repeat(supertype_id, occurrences(subtypes@.take(j as int), k)).push(
                                supertype_id,
                            ));
                            assert(ids_at(kind_to_supertypes@, k) =~= ids_at(before, k) + repeat(
                                supertype_id,
                                occurrences(subtypes@.take(j + 1), k),
                            ));
                        }
                    }
                }
                j = j + 1;
            }
            let ghost subs_view = subtypes@;
            let ghost map_before = supertype_to_subtypes@;
            supertype_to_subtypes.insert(supertype_id, subtypes);
            proof {
                assert(tv.take(i + 1).last() == tv[i as int]);
                assert forall|s: u16| #[trigger] ids_at(supertype_to_subtypes@, s) == table_subs(
                    tv.take(i + 1),
                    s,
                ) by {
                    assert(tv.take(i + 1).drop_last() =~= tv.take(i as int));
                    if s != supertype_id {
                        assert(ids_at(map_before, s) == table_subs(tv.take(i as int), s));
                    }
                }
                assert(tv.take(i + 1).drop_last() =~= tv.take(i as int));
                assert(tv[i as int] == (table@[i as int].0, table@[i as int].1@));
                assert(subtypes@.take(subtypes@.len() as int) =~= subtypes@);
                assert forall|s: u16| #[trigger] supertype_to_subtypes@.contains_key(s) <==> table_has(
                    tv.take(i + 1),
                    s,
                ) by {
                    if table_has(tv.take(i + 1), s) && s != supertype_id {
                        let m = choose|m: int| 0 <= m < tv.take(i + 1).len() && #[trigger] tv.take(i + 1)[m].0 == s;
                        assert(tv.take(i as int)[m].0 == s);
                    }
                    if table_has(tv.take(i as int), s) {
                        let m = choose|m: int| 0 <= m < tv.take(i as int).len() && #[trigger] tv.take(i as int)[m].0 == s;
                        assert(tv.take(i + 1)[m].0 == s);
                    }
                    if s == supertype_id {
                        assert(tv.take(i + 1)[i as int].0 == s);
                    }
                }
            }
            i = i + 1;
        }
        proof {
            assert(tv.take(table@.len() as int) =~= tv);
        }
        SupertypeMaps { kind_to_supertypes, supertype_to_subtypes }
    }

    pub fn supertypes_for(&self, kind_id: u16) -> (r: Vec<u16>)
        ensures
            r@ == self.supers(kind_id),
    {
        lookup_ids(&self.kind_to_supertypes, kind_id)
    }

    pub fn subtypes_for(&self, supertype_id: u16) -> (r: Vec<u16>)
        ensures
            r@ == self.subs(supertype_id),
    {
        lookup_ids(&self.supertype_to_subtypes, supertype_id)
    }

    /// Whether any supertype has an entry.
    pub fn has_supertypes(&self) -> (r: bool)
        ensures
            r == !self.supertype_ids().is_empty(),
    {
        let e = self.supertype_to_subtypes.is_empty();
        proof {
            if !e {
                assert(!self.supertype_to_subtypes@.is_empty());
                let s = choose|s: u16| self.supertype_to_subtypes@.dom().contains(s);
                assert(self.supertype_ids().contains(s));
            } else {
                assert(self.supertype_ids() =~= Set::empty());
            }
        }
        !e
    }
}


/// Calls `tree_sitter::Language::supertypes` and copies the IDs.
#[verifier::external_body]
fn language_supertypes(language: &tree_sitter::Language) -> Vec<u16> {
    language.supertypes().to_vec()
}

/// Calls `tree_sitter::Language::subtypes_for_supertype` and copies the IDs.
#[verifier::external_body]
fn language_subtypes_for_supertype(language: &tree_sitter::Language, supertype: u16) -> Vec<u16> {
    language.subtypes_for_supertype(supertype).to_vec()
}

/// Calls `tree_sitter::Language::id_for_node_kind` for a named kind
/// (0 when the grammar has no such kind).
#[verifier::external_body]
fn language_id_for_named_kind(language: &tree_sitter::Language, kind: &str) -> u16 {
    language.id_for_node_kind(kind, true)
}

/// Wraps tree-sitter's `Language::supertypes()` and
/// `Language::subtypes_for_supertype()`, eagerly built into lookup maps.
pub struct LanguageApiProvider {
    maps: SupertypeMaps,
}

impl LanguageApiProvider {
    pub closed spec fn supertype_ids(&self) -> Set<u16> {
        self.maps.supertype_ids()
    }

    /// The provider answers as the (supertype, subtypes) table `t` does.
    pub open spec fn follows(&self, t: Seq<(u16, Seq<u16>)>) -> bool {
        &&& forall|k: u16| #[trigger] self.supers(k) == table_supers(t, k)
        &&& forall|s: u16| #[trigger] self.subs(s) == table_subs(t, s)
        &&& forall|s: u16| #[trigger] self.supertype_ids().contains(s) <==> table_has(t, s)
    }

    /// Read the supertype table of a grammar: the provider answers as the
    /// table of the grammar's supertypes, each with its subtypes.
    pub fn new(language: &tree_sitter::Language) -> (r: Self)
        ensures
            exists|t: Seq<(u16, Seq<u16>)>| #[trigger] r.follows(t),
    {
        let supertypes = language_supertypes(language);
        let mut table: Vec<(u16, Vec<u16>)> = Vec::new();
        let mut i: usize = 0;
        while i < supertypes.len()
            invariant
                i <= supertypes@.len(),
            decreases supertypes@.len() - i,
        {
            let s = supertypes[i];
            table.push((s, language_subtypes_for_supertype(language, s)));
            i = i + 1;
        }
        let r = Self::from_table(&table);
        assert(r.follows(table_view(table@)));
        r
    }

    /// Build from (supertype, subtypes) entries, as listed by the grammar.
    pub fn from_table(table: &Vec<(u16, Vec<u16>)>) -> (r: Self)
        ensures
            forall|k: u16| #[trigger] r.supers(k) == table_supers(table_view(table@), k),
            forall|s: u16| #[trigger] r.subs(s) == table_subs(table_view(table@), s),
            forall|s: u16| #[trigger] r.supertype_ids().contains(s) <==> table_has(table_view(table@), s),
    {
        LanguageApiProvider { maps: SupertypeMaps::from_table(table) }
    }

    /// Returns true if this provider has any supertype information.
    pub fn has_supertypes(&self) -> (r: bool)
        ensures
            r == !self.supertype_ids().is_empty(),
    {
        self.maps.has_supertypes()
    }
}

impl SupertypeProvider for LanguageApiProvider {
    closed spec fn supers(&self, kind_id: u16) -> Seq<u16> {
        self.maps.supers(kind_id)
    }

    closed spec fn subs(&self, supertype_id: u16) -> Seq<u16> {
        self.maps.subs(supertype_id)
    }

    fn supertypes_for(&self, kind_id: u16) -> (r: Vec<u16>) {
        self.maps.supertypes_for(kind_id)
    }

    fn subtypes_for(&self, supertype_id: u16) -> (r: Vec<u16>) {
        self.maps.subtypes_for(supertype_id)
    }
}

/// The IDs of `xs` other than 0 (0 stands for an unknown kind name).
pub open spec fn known_ids(xs: Seq<u16>) -> Seq<u16> {
    xs.filter(|x: u16| x != 0)
}

/// The entries of a name-resolved table that carry information: a known
/// supertype with at least one known subtype; unknown subtypes dropped.
pub open spec fn clean_table(t: Seq<(u16, Seq<u16>)>) -> Seq<(u16, Seq<u16>)>
    decreases t.len(),
{
    if t.len() == 0 {
        Seq::empty()
    } else {
        let rest = clean_table(t.drop_last());
        let e = t.last();
        if e.0 != 0 && known_ids(e.1).len() > 0 {
            rest.push((e.0, known_ids(e.1)))
        } else {
            rest
        }
    }
}

/// Provides supertype relationships from a grammar's `node-types.json`.
///
/// This fills in supertype information for grammars where
/// `Language::supertypes()` returns nothing (older grammar ABIs).
pub struct NodeTypesProvider {
    maps: SupertypeMaps,
}

impl NodeTypesProvider {
    pub closed spec fn supertype_ids(&self) -> Set<u16> {
        self.maps.supertype_ids()
    }

    /// The provider answers as the (supertype, subtypes) table `t` does.
    pub open spec fn follows(&self, t: Seq<(u16, Seq<u16>)>) -> bool {
        &&& forall|k: u16| #[trigger] self.supers(k) == table_supers(t, k)
        &&& forall|s: u16| #[trigger] self.subs(s) == table_subs(t, s)
        &&& forall|s: u16| #[trigger] self.supertype_ids().contains(s) <==> table_has(t, s)
    }

    /// Build from the supertype declarations of the named grammar, resolving
    /// type names to kind IDs with `language`: the provider answers as the
    /// resolved table with unknown names dropped (see `from_id_table`). A
    /// grammar that is not registered gives no supertypes.
    pub fn new(language: &tree_sitter::Language, lang_name: &str) -> (r: Self)
        ensures
            exists|t: Seq<(u16, Seq<u16>)>| #[trigger] r.follows(clean_table(t)),
            !crate::languages::is_registered(lang_name@) ==> r.follows(Seq::empty()),
            forall|k: u16| !#[trigger] r.supers(k).contains(0),
            forall|s: u16| !#[trigger] r.subs(s).contains(0),
    {
        let mappings = crate::languages::get_node_types_supertypes(lang_name);
        let mut table: Vec<(u16, Vec<u16>)> = Vec::new();
        let mut i: usize = 0;
        while i < mappings.len()
            invariant
                i <= mappings@.len(),
                table@.len() == i,
            decreases mappings@.len() - i,
        {
            let supertype_id = language_id_for_named_kind(language, mappings[i].0.as_str());
            let mut ids: Vec<u16> = Vec::new();
            let mut j: usize = 0;
            while j < mappings[i].1.len()
                invariant
                    i < mappings@.len(),
                    j <= mappings@[i as int].1@.len(),
                decreases mappings@[i as int].1@.len() - j,
            {
                ids.push(language_id_for_named_kind(language, mappings[i].1[j].as_str()));
                j = j + 1;
            }
            table.push((supertype_id, ids));
            i = i + 1;
        }
        let r = Self::from_id_table(&table);
        assert(r.follows(clean_table(table_view(table@))));
        proof {
            assert forall|k: u16| !#[trigger] r.supers(k).contains(0) by {
                lemma_clean_table_no_zero(table_view(table@), k, 0);
            }
            assert forall|s: u16| !#[trigger] r.subs(s).contains(0) by {
                lemma_clean_table_no_zero(table_view(table@), 0, s);
            }
        }
        proof {
            if !crate::languages::is_registered(lang_name@) {
                assert(table_view(table@) =~= Seq::empty());
                assert(clean_table(Seq::<(u16, Seq<u16>)>::empty()) =~= Seq::empty());
            }
        }
        r
    }

    /// Build from (supertype, subtypes) entries whose names were resolved to
    /// kind IDs, where 0 marks a name the grammar does not know: such IDs are
    /// skipped, and so are supertypes left without subtypes.
    pub fn from_id_table(table: &Vec<(u16, Vec<u16>)>) -> (r: Self)
        ensures
            forall|k: u16| #[trigger] r.supers(k) == table_supers(clean_table(table_view(table@)), k),
            forall|s: u16| #[trigger] r.subs(s) == table_subs(clean_table(table_view(table@)), s),
            forall|s: u16| #[trigger] r.supertype_ids().contains(s) <==> table_has(clean_table(table_view(table@)), s),
    {
        let ghost tv = table_view(table@);
        let mut cleaned: Vec<(u16, Vec<u16>)> = Vec::new();
        let mut i: usize = 0;
        while i < table.len()
            invariant
                i <= table@.len(),
                tv == table_view(table@),
                table_view(cleaned@) == clean_table(tv.take(i as int)),
            decreases table@.len() - i,
        {
            let supertype_id = table[i].0;
            let mut ids: Vec<u16> = Vec::new();
            let mut j: usize = 0;
            while j < table[i].1.len()
                invariant
                    i < table@.len(),
                    j <= table@[i as int].1@.len(),
                    ids@ == known_ids(table@[i as int].1@.take(j as int)),
                decreases table@[i as int].1@.len() - j,
            {
                let id = table[i].1[j];
                proof {
                    let xs = table@[i as int].1@;
                    assert(xs.take(j + 1).drop_last() =~= xs.take(j as int));
                    reveal_with_fuel(Seq::filter, 1);
                }
                if id != 0 {
                    ids.push(id);
                }
                j = j + 1;
            }
            proof {
                let xs = table@[i as int].1@;
                assert(xs.take(xs.len() as int) =~= xs);
                assert(tv.take(i + 1).drop_last() =~= tv.take(i as int));
                assert(tv[i as int] == (supertype_id, xs));
                assert(tv.take(i + 1).last() == tv[i as int]);
            }
            let ghost before = cleaned@;
            if supertype_id != 0 && ids.len() > 0 {
                cleaned.push((supertype_id, ids));
                proof {
                    assert(table_view(cleaned@) =~= table_view(before).push((supertype_id, cleaned@.last().1@)));
                }
            }
            i = i + 1;
        }
        proof {
            assert(tv.take(table@.len() as int) =~= tv);
        }
        NodeTypesProvider { maps: SupertypeMaps::from_table(&cleaned) }
    }

    /// Returns true if this provider has any supertype information.
    pub fn has_supertypes(&self) -> (r: bool)
        ensures
            r == !self.supertype_ids().is_empty(),
    {
        self.maps.has_supertypes()
    }
}

impl SupertypeProvider for NodeTypesProvider {
    closed spec fn supers(&self, kind_id: u16) -> Seq<u16> {
        self.maps.supers(kind_id)
    }

    closed spec fn subs(&self, supertype_id: u16) -> Seq<u16> {
        self.maps.subs(supertype_id)
    }

    fn supertypes_for(&self, kind_id: u16) -> (r: Vec<u16>) {
        self.maps.supertypes_for(kind_id)
    }

    fn subtypes_for(&self, supertype_id: u16) -> (r: Vec<u16>) {
        self.maps.subtypes_for(supertype_id)
    }
}

/// Fallback provider for grammars with no supertype information.
pub struct EmptyProvider;

impl SupertypeProvider for EmptyProvider {
    open spec fn supers(&self, kind_id: u16) -> Seq<u16> {
        Seq::empty()
    }

    open spec fn subs(&self, supertype_id: u16) -> Seq<u16> {
        Seq::empty()
    }

    fn supertypes_for(&self, kind_id: u16) -> (r: Vec<u16>) {
        Vec::new()
    }

    fn subtypes_for(&self, supertype_id: u16) -> (r: Vec<u16>) {
        Vec::new()
    }
}

/// Merge, in order and without duplicates, the lists of `lists`.
pub open spec fn merge_lists(lists: Seq<Seq<u16>>) -> Seq<u16>
    decreases lists.len(),
{
    if lists.len() == 0 {
        Seq::empty()
    } else {
        add_distinct(merge_lists(lists.drop_last()), lists.last(), None)
    }
}

/// `acc` extended by the elements of `xs` that are not in it and differ from
/// `skip` (if given), keeping their order.
pub fn extend_distinct(acc: &mut Vec<u16>, xs: &Vec<u16>, skip: Option<u16>)
    ensures
        final(acc)@ == add_distinct(old(acc)@, xs@, skip),
{
    let ghost start = acc@;
    let mut i: usize = 0;
    while i < xs.len()
        invariant
            i <= xs@.len(),
            acc@ == add_distinct(start, xs@.take(i as int), skip),
        decreases xs@.len() - i,
    {
        let x = xs[i];
        proof {
            assert(xs@.take(i + 1).drop_last() =~= xs@.take(i as int));
        }
        let mut present = false;
        let mut j: usize = 0;
        while j < acc.len()
            invariant
                j <= acc@.len(),
                present == exists|m: int| 0 <= m < j && acc@[m] == x,
            decreases acc@.len() - j,
        {
            if acc[j] == x {
                present = true;
            }
            j = j + 1;
        }
        let skipped = match skip {
            Some(s) => s == x,
            None => false,
        };
        if !present && !skipped {
            acc.push(x);
        }
        i = i + 1;
    }
    proof {
        assert(xs@.take(xs@.len() as int) =~= xs@);
    }
}

/// Tries multiple providers in order, merging results (deduplicating).
pub struct ChainProvider {
    providers: Vec<Box<dyn SupertypeProvider>>,
}

impl ChainProvider {
    pub closed spec fn providers(&self) -> Seq<Box<dyn SupertypeProvider>> {
        self.providers@
    }

    pub fn new(providers: Vec<Box<dyn SupertypeProvider>>) -> (r: Self)
        ensures
            r.providers() == providers@,
    {
        ChainProvider { providers }
    }
}

impl SupertypeProvider for ChainProvider {
    open spec fn supers(&self, kind_id: u16) -> Seq<u16> {
        merge_lists(Seq::new(self.providers().len(), |i: int| self.providers()[i].supers(kind_id)))
    }

    open spec fn subs(&self, supertype_id: u16) -> Seq<u16> {
        merge_lists(Seq::new(self.providers().len(), |i: int| self.providers()[i].subs(supertype_id)))
    }

    fn supertypes_for(&self, kind_id: u16) -> (r: Vec<u16>) {
        let mut result: Vec<u16> = Vec::new();
        let ghost lists = Seq::new(self.providers@.len(), |i: int| self.providers@[i].supers(kind_id));
        let mut i: usize = 0;
        while i < self.providers.len()
            invariant
                i <= self.providers@.len(),
                lists == Seq::new(self.providers@.len(), |i: int| self.providers@[i].supers(kind_id)),
                result@ == merge_lists(lists.take(i as int)),
            decreases self.providers@.len() - i,
        {
            let ids = self.providers[i].supertypes_for(kind_id);
            extend_distinct(&mut result, &ids, None);
            proof {
                assert(lists.take(i + 1).drop_last() =~= lists.take(i as int));
            }
            i = i + 1;
        }
        proof {
            assert(lists.take(self.providers@.len() as int) =~= lists);
        }
        result
    }

    fn subtypes_for(&self, supertype_id: u16) -> (r: Vec<u16>) {
        let mut result: Vec<u16> = Vec::new();
        let ghost lists = Seq::new(self.providers@.len(), |i: int| self.providers@[i].subs(supertype_id));
        let mut i: usize = 0;
        while i < self.providers.len()
            invariant
                i <= self.providers@.len(),
                lists == Seq::new(self.providers@.len(), |i: int| self.providers@[i].subs(supertype_id)),
                result@ == merge_lists(lists.take(i as int)),
            decreases self.providers@.len() - i,
        {
            let ids = self.providers[i].subtypes_for(supertype_id);
            extend_distinct(&mut result, &ids, None);
            proof {
                assert(lists.take(i + 1).drop_last() =~= lists.take(i as int));
            }
            i = i + 1;
        }
        proof {
            assert(lists.take(self.providers@.len() as int) =~= lists);
        }
        result
    }
}

proof fn lemma_add_distinct(acc: Seq<u16>, xs: Seq<u16>, skip: Option<u16>)
    requires
        acc.no_duplicates(),
    ensures
        add_distinct(acc, xs, skip).no_duplicates(),
        forall|x: u16| #[trigger]
            add_distinct(acc, xs, skip).contains(x) <==> acc.contains(x) || (xs.contains(x)
                && skip != Some(x)),
    decreases xs.len(),
{
    if xs.len() > 0 {
        lemma_add_distinct(acc, xs.drop_last(), skip);
        let rest = add_distinct(acc, xs.drop_last(), skip);
        assert forall|x: u16| #[trigger]
            add_distinct(acc, xs, skip).contains(x) <==> acc.contains(x) || (xs.contains(x)
                && skip != Some(x)) by {
            if xs.contains(x) && !xs.drop_last().contains(x) {
                let k = choose|k: int| 0 <= k < xs.len() && xs[k] == x;
                if k < xs.len() - 1 {
                    assert(xs.drop_last()[k] == x);
                }
            }
            if xs.drop_last().contains(x) {
                let k = choose|k: int| 0 <= k < xs.drop_last().len() && xs.drop_last()[k] == x;
                assert(xs[k] == x);
            }
            if !rest.contains(xs.last()) && skip != Some(xs.last()) {
                assert(rest.push(xs.last())[rest.len() as int] == xs.last());
                if rest.push(xs.last()).contains(x) && x != xs.last() {
                    let k = choose|k: int| 0 <= k < rest.len() + 1 && rest.push(xs.last())[k] == x;
                    assert(rest[k] == x);
                }
                if rest.contains(x) {
                    let k = choose|k: int| 0 <= k < rest.len() && rest[k] == x;
                    assert(rest.push(xs.last())[k] == x);
                }
            }
            assert(xs[xs.len() - 1] == xs.last());
        }
    }
}

/// `k` occurs in `xs` exactly when it is counted there.
proof fn lemma_occurrences_contains(xs: Seq<u16>, k: u16)
    ensures
        occurrences(xs, k) > 0 <==> xs.contains(k),
    decreases xs.len(),
{
    if xs.len() > 0 {
        lemma_occurrences_contains(xs.drop_last(), k);
        if xs.drop_last().contains(k) {
            let i = choose|i: int| 0 <= i < xs.drop_last().len() && xs.drop_last()[i] == k;
            assert(xs[i] == k);
        }
        if xs.contains(k) && xs.last() != k {
            let i = choose|i: int| 0 <= i < xs.len() && xs[i] == k;
            assert(xs.drop_last()[i] == k);
        }
        if xs.last() == k {
            assert(xs[xs.len() - 1] == k);
        }
    }
}

/// The supertypes a table gives kind `k`: `s` is among them exactly when
/// some entry for `s` lists `k`.
proof fn lemma_table_supers_contains(t: Seq<(u16, Seq<u16>)>, k: u16, s: u16)
    ensures
        table_supers(t, k).contains(s) <==> exists|i: int|
            0 <= i < t.len() && #[trigger] t[i].0 == s && t[i].1.contains(k),
    decreases t.len(),
{
    if t.len() > 0 {
        let prev = table_supers(t.drop_last(), k);
        let e = t.last();
        let rep = repeat(e.0, occurrences(e.1, k));
        lemma_table_supers_contains(t.drop_last(), k, s);
        lemma_occurrences_contains(e.1, k);
        assert(table_supers(t, k) == prev + rep);
        if (prev + rep).contains(s) {
            let j = choose|j: int| 0 <= j < (prev + rep).len() && (prev + rep)[j] == s;
            if j < prev.len() {
                assert(prev[j] == s);
                let i = choose|i: int| 0 <= i < t.drop_last().len() && #[trigger] t.drop_last()[i].0 == s
                    && t.drop_last()[i].1.contains(k);
                assert(t[i].0 == s && t[i].1.contains(k));
            } else {
                assert(rep[j - prev.len()] == e.0);
                assert(t[t.len() - 1].0 == s && t[t.len() - 1].1.contains(k));
            }
        }
        if exists|i: int| 0 <= i < t.len() && #[trigger] t[i].0 == s && t[i].1.contains(k) {
            let i = choose|i: int| 0 <= i < t.len() && #[trigger] t[i].0 == s && t[i].1.contains(k);
            if i < t.len() - 1 {
                assert(t.drop_last()[i].0 == s && t.drop_last()[i].1.contains(k));
                let j = choose|j: int| 0 <= j < prev.len() && prev[j] == s;
                assert((prev + rep)[j] == s);
            } else {
                assert(rep[0] == s);
                assert((prev + rep)[prev.len() as int] == s);
            }
        }
    }
}

/// With one entry per supertype, the subtypes a table gives `s` are those
/// of its entry, or none.
proof fn lemma_table_subs_entry(t: Seq<(u16, Seq<u16>)>, s: u16, i: int)
    requires
        0 <= i < t.len(),
        t[i].0 == s,
        forall|a: int, b: int| 0 <= a < t.len() && 0 <= b < t.len() && a != b ==> #[trigger] t[a].0 != #[trigger] t[b].0,
    ensures
        table_subs(t, s) == t[i].1,
    decreases t.len(),
{
    if i < t.len() - 1 {
        assert(t[t.len() - 1].0 != s);
        let u = t.drop_last();
        assert forall|a: int, b: int| 0 <= a < u.len() && 0 <= b < u.len() && a != b implies #[trigger] u[a].0 != #[trigger] u[b].0 by {
            assert(u[a] == t[a] && u[b] == t[b]);
        }
        lemma_table_subs_entry(u, s, i);
    }
}

/// A table with no entry for `s` gives it no subtypes.
proof fn lemma_table_subs_absent(t: Seq<(u16, Seq<u16>)>, s: u16)
    requires
        forall|i: int| 0 <= i < t.len() ==> #[trigger] t[i].0 != s,
    ensures
        table_subs(t, s) == Seq::<u16>::empty(),
    decreases t.len(),
{
    if t.len() > 0 {
        assert(t[t.len() - 1].0 != s);
        let u = t.drop_last();
        assert forall|i: int| 0 <= i < u.len() implies #[trigger] u[i].0 != s by {
            assert(u[i] == t[i]);
        }
        lemma_table_subs_absent(u, s);
    }
}

/// Supertypes and subtypes agree: for a table with one entry per
/// supertype, `s` is a supertype of `k` exactly when `k` is a subtype of `s`.
pub proof fn law_table_symmetric(t: Seq<(u16, Seq<u16>)>, k: u16, s: u16)
    requires
        forall|a: int, b: int| 0 <= a < t.len() && 0 <= b < t.len() && a != b ==> #[trigger] t[a].0 != #[trigger] t[b].0,
    ensures
        table_supers(t, k).contains(s) <==> table_subs(t, s).contains(k),
{
    lemma_table_supers_contains(t, k, s);
    if exists|i: int| 0 <= i < t.len() && #[trigger] t[i].0 == s {
        let i = choose|i: int| 0 <= i < t.len() && #[trigger] t[i].0 == s;
        lemma_table_subs_entry(t, s, i);
        if table_supers(t, k).contains(s) {
            let j = choose|j: int| 0 <= j < t.len() && #[trigger] t[j].0 == s && t[j].1.contains(k);
            assert(j == i);
        }
    } else {
        lemma_table_subs_absent(t, s);
    }
}

/// A provider read from a grammar answers symmetrically when the grammar
/// lists each supertype once: `s` is a supertype of `k` exactly when `k` is
/// a subtype of `s`.
pub proof fn law_provider_symmetric(p: LanguageApiProvider, t: Seq<(u16, Seq<u16>)>, k: u16, s: u16)
    requires
        p.follows(t),
        forall|a: int, b: int| 0 <= a < t.len() && 0 <= b < t.len() && a != b ==> #[trigger] t[a].0 != #[trigger] t[b].0,
    ensures
        p.supers(k).contains(s) <==> p.subs(s).contains(k),
{
    law_table_symmetric(t, k, s);
}

/// A provider read from node-types declarations answers symmetrically when
/// the resolved table lists each supertype once: `s` is a supertype of `k`
/// exactly when `k` is a subtype of `s`.
pub proof fn law_node_types_symmetric(p: NodeTypesProvider, t: Seq<(u16, Seq<u16>)>, k: u16, s: u16)
    requires
        p.follows(t),
        forall|a: int, b: int| 0 <= a < t.len() && 0 <= b < t.len() && a != b ==> #[trigger] t[a].0 != #[trigger] t[b].0,
    ensures
        p.supers(k).contains(s) <==> p.subs(s).contains(k),
{
    law_table_symmetric(t, k, s);
}

/// The known IDs of a list hold no 0.
proof fn lemma_known_ids_nonzero(xs: Seq<u16>)
    ensures
        !known_ids(xs).contains(0),
{
    broadcast use vstd::seq_lib::group_filter_ensures;
    if known_ids(xs).contains(0) {
        let j = choose|j: int| 0 <= j < known_ids(xs).len() && known_ids(xs)[j] == 0;
        assert(known_ids(xs)[j] != 0);
    }
}

/// Every entry of a cleaned table has a known supertype and only known
/// subtypes.
proof fn lemma_clean_table_known(t: Seq<(u16, Seq<u16>)>)
    ensures
        forall|i: int| 0 <= i < clean_table(t).len() ==> #[trigger] clean_table(t)[i].0 != 0
            && !clean_table(t)[i].1.contains(0),
    decreases t.len(),
{
    if t.len() > 0 {
        lemma_clean_table_known(t.drop_last());
        let rest = clean_table(t.drop_last());
        let e = t.last();
        if e.0 != 0 && known_ids(e.1).len() > 0 {
            assert forall|i: int| 0 <= i < clean_table(t).len() implies #[trigger] clean_table(t)[i].0 != 0
                && !clean_table(t)[i].1.contains(0) by {
                if i < rest.len() {
                    assert(clean_table(t)[i] == rest[i]);
                    assert(rest[i].0 != 0);
                } else {
                    assert(clean_table(t)[i] == (e.0, known_ids(e.1)));
                    lemma_known_ids_nonzero(e.1);
                }
            }
        }
    }
}

/// The subtypes a table gives `s` are those of one of its entries, or none.
proof fn lemma_table_subs_from_entry(t: Seq<(u16, Seq<u16>)>, s: u16)
    ensures
        table_subs(t, s).len() == 0 || exists|i: int| 0 <= i < t.len() && #[trigger] t[i].1 == table_subs(t, s),
    decreases t.len(),
{
    if t.len() > 0 && t.last().0 != s {
        lemma_table_subs_from_entry(t.drop_last(), s);
        if table_subs(t.drop_last(), s).len() != 0 {
            let i = choose|i: int| 0 <= i < t.drop_last().len() && #[trigger] t.drop_last()[i].1 == table_subs(t.drop_last(), s);
            assert(t[i].1 == table_subs(t, s));
        }
    } else if t.len() > 0 {
        assert(t[t.len() - 1].1 == table_subs(t, s));
    }
}

/// A cleaned table never answers the unknown kind 0.
proof fn lemma_clean_table_no_zero(t: Seq<(u16, Seq<u16>)>, k: u16, s: u16)
    ensures
        !table_supers(clean_table(t), k).contains(0),
        !table_subs(clean_table(t), s).contains(0),
{
    let ct = clean_table(t);
    lemma_clean_table_known(t);
    lemma_table_supers_contains(ct, k, 0);
    if table_supers(ct, k).contains(0) {
        let i = choose|i: int| 0 <= i < ct.len() && #[trigger] ct[i].0 == 0 && ct[i].1.contains(k);
        assert(ct[i].0 != 0);
    }
    lemma_table_subs_from_entry(ct, s);
    if table_subs(ct, s).contains(0) {
        let i = choose|i: int| 0 <= i < ct.len() && #[trigger] ct[i].1 == table_subs(ct, s);
        assert(ct[i].0 != 0);
        assert(!ct[i].1.contains(0));
    }
}

/// Compatibility is reflexive: every kind may replace itself, whatever the
/// supertypes.
pub proof fn law_compatible_reflexive(k: u16, supers: Seq<u16>)
    ensures
        compatible_spec(k, k, supers, supers),
{
}

/// Compatibility is symmetric: two kinds are compatible in either order.
pub proof fn law_compatible_symmetric(c: u16, e: u16, c_supers: Seq<u16>, e_supers: Seq<u16>)
    ensures
        compatible_spec(c, e, c_supers, e_supers) == compatible_spec(e, c, e_supers, c_supers),
{
    if compatible_spec(c, e, c_supers, e_supers) && c != e {
        let (i, j) = choose|i: int, j: int|
            0 <= i < c_supers.len() && 0 <= j < e_supers.len() && c_supers[i] == e_supers[j];
        assert(0 <= j < e_supers.len() && 0 <= i < c_supers.len() && e_supers[j] == c_supers[i]);
    }
    if compatible_spec(e, c, e_supers, c_supers) && c != e {
        let (j, i) = choose|j: int, i: int|
            0 <= j < e_supers.len() && 0 <= i < c_supers.len() && e_supers[j] == c_supers[i];
        assert(0 <= i < c_supers.len() && 0 <= j < e_supers.len() && c_supers[i] == e_supers[j]);
    }
}

/// A chain of providers merges their answers: an ID is reported by the chain
/// exactly when some provider reports it, and never twice.
pub proof fn law_chain_merges(lists: Seq<Seq<u16>>)
    ensures
        merge_lists(lists).no_duplicates(),
        forall|x: u16| #[trigger]
            merge_lists(lists).contains(x) <==> exists|i: int|
                0 <= i < lists.len() && #[trigger] lists[i].contains(x),
    decreases lists.len(),
{
    if lists.len() > 0 {
        law_chain_merges(lists.drop_last());
        lemma_add_distinct(merge_lists(lists.drop_last()), lists.last(), None);
        assert forall|x: u16| #[trigger]
            merge_lists(lists).contains(x) <==> exists|i: int|
                0 <= i < lists.len() && #[trigger] lists[i].contains(x) by {
            if exists|i: int| 0 <= i < lists.len() && #[trigger] lists[i].contains(x) {
                let i = choose|i: int| 0 <= i < lists.len() && #[trigger] lists[i].contains(x);
                if i < lists.len() - 1 {
                    assert(lists.drop_last()[i].contains(x));
                }
            }
            if merge_lists(lists.drop_last()).contains(x) {
                let i = choose|i: int|
                    0 <= i < lists.drop_last().len() && #[trigger] lists.drop_last()[i].contains(x);
                assert(lists[i].contains(x));
            }
            assert(lists[lists.len() - 1] == lists.last());
        }
    }
}

} // verus!
