//! Multi-file projects with command-pattern undo.
//!
//! A [`ProjectFileSet`] holds the files of a project, classified as roots
//! (the files being reduced) or dependencies (context for the
//! interestingness test), and supports tentative changes (modify, exclude)
//! that can be rolled back when the test rejects them. Every change is a
//! [`FileCommand`], which names the file operation that applies it and the
//! one that undoes it; the operations themselves are carried out by a
//! caller-supplied executor on the working copy of the project.
use vstd::prelude::*;

use crate::text::str_eq;

verus! {

/// Directories skipped when loading a project.
pub open spec fn is_skipped_dir(name: Seq<char>) -> bool {
    name == ".git"@ || name == ".hg"@ || name == "target"@ || name == "node_modules"@ || name
        == "__pycache__"@
}

/// Exactly five directory names are skipped when loading a project — the
/// version-control and build directories `.git`, `.hg`, `target`,
/// `node_modules` and `__pycache__`; every other directory is loaded.
pub proof fn law_only_five_directories_skipped(name: Seq<char>)
    ensures
        is_skipped_dir(name) <==> (name == ".git"@ || name == ".hg"@ || name == "target"@ || name
            == "node_modules"@ || name == "__pycache__"@),
{
}

/// Whether a directory of this name is skipped when loading a project.
pub fn skips_directory(name: &str) -> (r: bool)
    ensures
        r == is_skipped_dir(name@),
{
    str_eq(name, ".git") || str_eq(name, ".hg") || str_eq(name, "target") || str_eq(
        name,
        "node_modules",
    ) || str_eq(name, "__pycache__")
}

/// An operation on a file of the working copy.
pub enum FileOp {
    /// Write `contents` to the file at `path`, creating parent directories.
    Write { path: String, contents: Vec<u8> },
    /// Remove the file at `path`, if it exists.
    Remove { path: String },
}

/// A reversible file command.
pub trait FileCommand {
    /// The operation that applies the command.
    fn apply(&self) -> FileOp;

    /// The operation that undoes the command.
    fn undo(&self) -> FileOp;
}

/// Overwrite a file with new contents; undo restores the old contents.
pub struct ModifyCommand {
    pub relative_path: String,
    pub new_contents: Vec<u8>,
    pub old_contents: Vec<u8>,
}

impl FileCommand for ModifyCommand {
    fn apply(&self) -> (r: FileOp)
        ensures
            r matches FileOp::Write { path, contents } && path@ == self.relative_path@
                && contents@ == self.new_contents@,
    {
        FileOp::Write {
            path: self.relative_path.clone(),
            contents: self.new_contents.clone(),
        }
    }

    fn undo(&self) -> (r: FileOp)
        ensures
            r matches FileOp::Write { path, contents } && path@ == self.relative_path@
                && contents@ == self.old_contents@,
    {
        FileOp::Write {
            path: self.relative_path.clone(),
            contents: self.old_contents.clone(),
        }
    }
}

/// Remove a file; undo re-creates it with its contents.
pub struct ExcludeCommand {
    pub relative_path: String,
    pub contents: Vec<u8>,
}

impl FileCommand for ExcludeCommand {
    fn apply(&self) -> (r: FileOp)
        ensures
            r matches FileOp::Remove { path } && path@ == self.relative_path@,
    {
        FileOp::Remove { path: self.relative_path.clone() }
    }

    fn undo(&self) -> (r: FileOp)
        ensures
            r matches FileOp::Write { path, contents } && path@ == self.relative_path@
                && contents@ == self.contents@,
    {
        FileOp::Write { path: self.relative_path.clone(), contents: self.contents.clone() }
    }
}

/// A recorded command.
pub enum CommandRecord {
    Modify(ModifyCommand),
    Exclude(ExcludeCommand),
}

/// A recorded command as plain values: the file's contents before it, and
/// after it (`None` when the command removed the file).
pub open spec fn record_view(r: CommandRecord) -> (Seq<u8>, Option<Seq<u8>>) {
    match r {
        CommandRecord::Modify(m) => (m.old_contents@, Some(m.new_contents@)),
        CommandRecord::Exclude(e) => (e.contents@, None),
    }
}

/// The file a recorded command applies to.
pub open spec fn record_path(r: CommandRecord) -> Seq<char> {
    match r {
        CommandRecord::Modify(m) => m.relative_path@,
        CommandRecord::Exclude(e) => e.relative_path@,
    }
}

/// Why a change to the file set was refused.
pub enum FileSetError {
    /// The file (or the command to undo) does not exist.
    NotFound(String),
    /// The change is not allowed (excluding a root).
    InvalidInput(String),
    /// Carrying out the file operation failed.
    Io(String),
}

impl FileSetError {
    /// The error as a message for the user.
    pub fn message(&self) -> (r: String)
        ensures
            r@ == match self {
                FileSetError::NotFound(m) => m@,
                FileSetError::InvalidInput(m) => m@,
                FileSetError::Io(m) => m@,
            },
    {
        match self {
            FileSetError::NotFound(m) => m.clone(),
            FileSetError::InvalidInput(m) => m.clone(),
            FileSetError::Io(m) => m.clone(),
        }
    }
}

/// The map built from key-value pairs, later pairs winning.
pub open spec fn map_of<V>(s: Seq<(Seq<char>, V)>) -> Map<Seq<char>, V>
    decreases s.len(),
{
    if s.len() == 0 {
        Map::empty()
    } else {
        map_of(s.drop_last()).insert(s.last().0, s.last().1)
    }
}

/// No key occurs twice.
pub open spec fn keys_distinct<V>(s: Seq<(Seq<char>, V)>) -> bool {
    forall|i: int, j: int| 0 <= i < s.len() && 0 <= j < s.len() && i != j ==> #[trigger] s[i].0 != #[trigger] s[j].0
}

proof fn lemma_map_of_index<V>(s: Seq<(Seq<char>, V)>, k: int)
    requires
        keys_distinct(s),
        0 <= k < s.len(),
    ensures
        map_of(s).contains_key(s[k].0),
        map_of(s)[s[k].0] == s[k].1,
    decreases s.len(),
{
    if k < s.len() - 1 {
        assert(s.drop_last()[k] == s[k]);
        lemma_map_of_index(s.drop_last(), k);
        assert(s[k].0 != s[s.len() - 1].0);
    }
}

proof fn lemma_map_of_absent<V>(s: Seq<(Seq<char>, V)>, key: Seq<char>)
    requires
        forall|i: int| 0 <= i < s.len() ==> #[trigger] s[i].0 != key,
    ensures
        !map_of(s).contains_key(key),
    decreases s.len(),
{
    if s.len() > 0 {
        assert(s[s.len() - 1].0 != key);
        assert forall|i: int| 0 <= i < s.drop_last().len() implies #[trigger] s.drop_last()[i].0 != key by {
            assert(s[i].0 != key);
        }
        lemma_map_of_absent(s.drop_last(), key);
    }
}

proof fn lemma_map_of_update<V>(s: Seq<(Seq<char>, V)>, k: int, v: V)
    requires
        keys_distinct(s),
        0 <= k < s.len(),
    ensures
        map_of(s.update(k, (s[k].0, v))) == map_of(s).insert(s[k].0, v),
        keys_distinct(s.update(k, (s[k].0, v))),
    decreases s.len(),
{
    let t = s.update(k, (s[k].0, v));
    if k < s.len() - 1 {
        assert(t.drop_last() =~= s.drop_last().update(k, (s[k].0, v)));
        assert(s.drop_last()[k] == s[k]);
        lemma_map_of_update(s.drop_last(), k, v);
        assert(s[k].0 != s[s.len() - 1].0);
        assert(map_of(t) =~= map_of(s).insert(s[k].0, v));
    } else {
        assert(t.drop_last() =~= s.drop_last());
        assert(map_of(t) =~= map_of(s).insert(s[k].0, v));
    }
}

proof fn lemma_map_of_remove<V>(s: Seq<(Seq<char>, V)>, k: int)
    requires
        keys_distinct(s),
        0 <= k < s.len(),
    ensures
        map_of(s.remove(k)) == map_of(s).remove(s[k].0),
        keys_distinct(s.remove(k)),
    decreases s.len(),
{
    let t = s.remove(k);
    if k < s.len() - 1 {
        assert(t.drop_last() =~= s.drop_last().remove(k));
        assert(t.last() == s.last());
        assert(s.drop_last()[k] == s[k]);
        lemma_map_of_remove(s.drop_last(), k);
        assert(s[k].0 != s[s.len() - 1].0);
        assert(map_of(t) =~= map_of(s).remove(s[k].0));
    } else {
        assert(t =~= s.drop_last());
        assert forall|i: int| 0 <= i < t.len() implies #[trigger] t[i].0 != s[k].0 by {
            assert(s[i] == t[i]);
        }
        lemma_map_of_absent(t, s[k].0);
        assert(map_of(t) =~= map_of(s).remove(s[k].0));
    }
}

proof fn lemma_replace_entry<V>(s: Seq<(Seq<char>, V)>, k: int, v: V)
    requires
        keys_distinct(s),
        0 <= k < s.len(),
    ensures
        keys_distinct(s.remove(k).push((s[k].0, v))),
        map_of(s.remove(k).push((s[k].0, v))) == map_of(s).insert(s[k].0, v),
{
    let rest = s.remove(k);
    let t = rest.push((s[k].0, v));
    lemma_map_of_remove(s, k);
    assert(t.drop_last() =~= rest);
    assert(map_of(t) =~= map_of(s).insert(s[k].0, v));
    assert forall|i: int, j: int| 0 <= i < t.len() && 0 <= j < t.len() && i != j implies #[trigger] t[i].0 != #[trigger] t[j].0 by {
        let ii = if i < k { i } else { i + 1 };
        let jj = if j < k { j } else { j + 1 };
        if i < t.len() - 1 && j < t.len() - 1 {
            assert(t[i] == rest[i] && t[j] == rest[j]);
            assert(rest[i] == s[ii] && rest[j] == s[jj]);
        } else if i == t.len() - 1 {
            assert(t[j] == rest[j] && rest[j] == s[jj]);
            assert(jj != k);
        } else {
            assert(t[i] == rest[i] && rest[i] == s[ii]);
            assert(ii != k);
        }
    }
}

proof fn lemma_push_new_key<V>(s: Seq<(Seq<char>, V)>, key: Seq<char>, v: V)
    requires
        keys_distinct(s),
        !map_of(s).contains_key(key),
    ensures
        keys_distinct(s.push((key, v))),
        map_of(s.push((key, v))) == map_of(s).insert(key, v),
{
    let t = s.push((key, v));
    assert(t.drop_last() =~= s);
    assert forall|i: int| 0 <= i < s.len() implies #[trigger] s[i].0 != key by {
        if s[i].0 == key {
            lemma_map_of_index(s, i);
        }
    }
    assert forall|i: int, j: int| 0 <= i < t.len() && 0 <= j < t.len() && i != j implies #[trigger] t[i].0 != #[trigger] t[j].0 by {
        if i < s.len() && j < s.len() {
            assert(t[i] == s[i] && t[j] == s[j]);
        } else if i < s.len() {
            assert(t[i] == s[i]);
        } else {
            assert(t[j] == s[j]);
        }
    }
}

/// The stack of recorded commands for `p`, oldest first.
pub open spec fn stack_of(h: Map<Seq<char>, Seq<(Seq<u8>, Option<Seq<u8>>)>>, p: Seq<char>) -> Seq<
    (Seq<u8>, Option<Seq<u8>>),
> {
    if h.contains_key(p) {
        h[p]
    } else {
        Seq::empty()
    }
}

/// The files after `p` was overwritten with `c`.
pub open spec fn updated_files(files: Map<Seq<char>, Seq<u8>>, p: Seq<char>, c: Seq<u8>) -> Map<
    Seq<char>,
    Seq<u8>,
> {
    files.insert(p, c)
}

/// The files after `p` was excluded.
pub open spec fn excluded_files(files: Map<Seq<char>, Seq<u8>>, p: Seq<char>) -> Map<Seq<char>, Seq<u8>> {
    files.remove(p)
}

/// The history after a command with view `rec` was recorded for `p`.
pub open spec fn recorded(
    h: Map<Seq<char>, Seq<(Seq<u8>, Option<Seq<u8>>)>>,
    p: Seq<char>,
    rec: (Seq<u8>, Option<Seq<u8>>),
) -> Map<Seq<char>, Seq<(Seq<u8>, Option<Seq<u8>>)>> {
    h.insert(p, stack_of(h, p).push(rec))
}

/// The files after the last command for `p` was undone: the file holds
/// again what it held before that command.
pub open spec fn undone_files(
    files: Map<Seq<char>, Seq<u8>>,
    h: Map<Seq<char>, Seq<(Seq<u8>, Option<Seq<u8>>)>>,
    p: Seq<char>,
) -> Map<Seq<char>, Seq<u8>> {
    files.insert(p, stack_of(h, p).last().0)
}

/// The history after the last command for `p` was undone.
pub open spec fn undone_history(h: Map<Seq<char>, Seq<(Seq<u8>, Option<Seq<u8>>)>>, p: Seq<char>) -> Map<
    Seq<char>,
    Seq<(Seq<u8>, Option<Seq<u8>>)>,
> {
    if stack_of(h, p).len() <= 1 {
        h.remove(p)
    } else {
        h.insert(p, stack_of(h, p).drop_last())
    }
}

/// A history keeps no empty stack.
pub open spec fn stacks_nonempty(h: Map<Seq<char>, Seq<(Seq<u8>, Option<Seq<u8>>)>>) -> bool {
    forall|p: Seq<char>| #[trigger] h.contains_key(p) ==> h[p].len() > 0
}

/// Undoing a modification restores the project: after `p` is overwritten
/// and the change undone, every file holds what it held before, and the
/// history is as it was.
pub proof fn law_undo_reverts_update(
    files: Map<Seq<char>, Seq<u8>>,
    h: Map<Seq<char>, Seq<(Seq<u8>, Option<Seq<u8>>)>>,
    p: Seq<char>,
    c: Seq<u8>,
)
    requires
        files.contains_key(p),
        stacks_nonempty(h),
    ensures
        ({
            let h1 = recorded(h, p, (files[p], Some(c)));
            &&& undone_files(updated_files(files, p, c), h1, p) == files
            &&& undone_history(h1, p) == h
        }),
{
    let h1 = recorded(h, p, (files[p], Some(c)));
    assert(undone_files(updated_files(files, p, c), h1, p) =~= files);
    if h.contains_key(p) {
        assert(stack_of(h1, p).drop_last() =~= h[p]);
        assert(undone_history(h1, p) =~= h);
    } else {
        assert(undone_history(h1, p) =~= h);
    }
}

/// Undo is last-in, first-out: after two overwrites of `p`, the first undo
/// brings back the state between them and the second the state before both.
pub proof fn law_undo_lifo(
    files: Map<Seq<char>, Seq<u8>>,
    h: Map<Seq<char>, Seq<(Seq<u8>, Option<Seq<u8>>)>>,
    p: Seq<char>,
    v1: Seq<u8>,
    v2: Seq<u8>,
)
    requires
        files.contains_key(p),
        stacks_nonempty(h),
    ensures
        ({
            let f1 = updated_files(files, p, v1);
            let h1 = recorded(h, p, (files[p], Some(v1)));
            let f2 = updated_files(f1, p, v2);
            let h2 = recorded(h1, p, (f1[p], Some(v2)));
            &&& undone_files(f2, h2, p) == f1
            &&& undone_history(h2, p) == h1
            &&& undone_files(f1, h1, p) == files
            &&& undone_history(h1, p) == h
        }),
{
    let f1 = updated_files(files, p, v1);
    let h1 = recorded(h, p, (files[p], Some(v1)));
    law_undo_reverts_update(files, h, p, v1);
    assert(stacks_nonempty(h1)) by {
        assert forall|q: Seq<char>| #[trigger] h1.contains_key(q) implies h1[q].len() > 0 by {
            if q != p {
                assert(h1[q] == h[q]);
            }
        }
    }
    law_undo_reverts_update(f1, h1, p, v2);
}

/// Undoing an exclusion restores the project: the excluded file comes back
/// with its contents, and the history is as it was.
pub proof fn law_undo_reverts_exclude(
    files: Map<Seq<char>, Seq<u8>>,
    h: Map<Seq<char>, Seq<(Seq<u8>, Option<Seq<u8>>)>>,
    p: Seq<char>,
)
    requires
        files.contains_key(p),
        stacks_nonempty(h),
    ensures
        ({
            let h1 = recorded(h, p, (files[p], None));
            &&& undone_files(excluded_files(files, p), h1, p) == files
            &&& undone_history(h1, p) == h
        }),
{
    let h1 = recorded(h, p, (files[p], None));
    assert(undone_files(excluded_files(files, p), h1, p) =~= files);
    if h.contains_key(p) {
        assert(stack_of(h1, p).drop_last() =~= h[p]);
        assert(undone_history(h1, p) =~= h);
    } else {
        assert(undone_history(h1, p) =~= h);
    }
}

/// Names with sizes, as plain values.
pub open spec fn sized_names(s: Seq<(String, usize)>) -> Seq<(Seq<char>, usize)> {
    s.map_values(|e: (String, usize)| (e.0@, e.1))
}

/// The sizes in `sorted` do not increase.
pub open spec fn size_descending(sorted: Seq<(Seq<char>, usize)>) -> bool {
    forall|a: int, b: int| 0 <= a < b < sorted.len() ==> #[trigger] sorted[a].1 >= #[trigger] sorted[b].1
}

/// `e` is a non-root file among the first `k` of `fp`, with its size.
pub open spec fn from_entry(
    fp: Seq<(Seq<char>, Seq<u8>)>,
    roots: Set<Seq<char>>,
    k: int,
    e: (Seq<char>, usize),
) -> bool {
    exists|m: int| 0 <= m < k && #[trigger] fp[m].0 == e.0 && e.1 == fp[m].1.len() && !roots.contains(fp[m].0)
}

/// Every entry of `sorted` is a non-root file among the first `k` of `fp`,
/// with its size.
pub open spec fn drawn_from(
    fp: Seq<(Seq<char>, Seq<u8>)>,
    roots: Set<Seq<char>>,
    k: int,
    sorted: Seq<(Seq<char>, usize)>,
) -> bool {
    forall|i: int| 0 <= i < sorted.len() ==> #[trigger] from_entry(fp, roots, k, sorted[i])
}

/// Every non-root file among the first `k` of `fp` is in `sorted`.
pub open spec fn covers_files(
    fp: Seq<(Seq<char>, Seq<u8>)>,
    roots: Set<Seq<char>>,
    k: int,
    sorted: Seq<(Seq<char>, usize)>,
) -> bool {
    forall|m: int|
        0 <= m < k && !roots.contains(#[trigger] fp[m].0) ==> exists|i: int|
            0 <= i < sorted.len() && sorted[i].0 == fp[m].0
}

/// No name occurs twice in `sorted`.
pub open spec fn names_distinct(sorted: Seq<(Seq<char>, usize)>) -> bool {
    forall|a: int, b: int|
        0 <= a < sorted.len() && 0 <= b < sorted.len() && a != b ==> #[trigger] sorted[a].0
            != #[trigger] sorted[b].0
}

/// `sorted` lists, largest first and each once, the non-root files among
/// the first `k` entries of `fp`, with their sizes.
pub open spec fn ranked(
    fp: Seq<(Seq<char>, Seq<u8>)>,
    roots: Set<Seq<char>>,
    k: int,
    sorted: Seq<(Seq<char>, usize)>,
) -> bool {
    &&& size_descending(sorted)
    &&& drawn_from(fp, roots, k, sorted)
    &&& covers_files(fp, roots, k, sorted)
    &&& names_distinct(sorted)
}

proof fn lemma_ranked_skip(
    fp: Seq<(Seq<char>, Seq<u8>)>,
    roots: Set<Seq<char>>,
    k: int,
    sorted: Seq<(Seq<char>, usize)>,
)
    requires
        0 <= k < fp.len(),
        roots.contains(fp[k].0),
        ranked(fp, roots, k, sorted),
    ensures
        ranked(fp, roots, k + 1, sorted),
{
    assert forall|i: int| 0 <= i < sorted.len() implies #[trigger] from_entry(fp, roots, k + 1, sorted[i]) by {
        assert(from_entry(fp, roots, k, sorted[i]));
        let m = choose|m: int|
            0 <= m < k && #[trigger] fp[m].0 == sorted[i].0 && sorted[i].1 == fp[m].1.len()
                && !roots.contains(fp[m].0);
        assert(0 <= m < k + 1 && fp[m].0 == sorted[i].0);
    }
    assert forall|m: int| 0 <= m < k + 1 && !roots.contains(#[trigger] fp[m].0) implies exists|i: int|
        0 <= i < sorted.len() && sorted[i].0 == fp[m].0 by {
        if m == k {
            assert(roots.contains(fp[m].0));
        }
    }
    assert(size_descending(sorted));
    assert(names_distinct(sorted));
    assert(drawn_from(fp, roots, k + 1, sorted));
    assert(covers_files(fp, roots, k + 1, sorted));
}

proof fn lemma_insert_descending(before: Seq<(Seq<char>, usize)>, pos: int, x: (Seq<char>, usize))
    requires
        size_descending(before),
        0 <= pos <= before.len(),
        forall|a: int| 0 <= a < pos ==> #[trigger] before[a].1 >= x.1,
        pos < before.len() ==> before[pos].1 < x.1,
    ensures
        size_descending(before.insert(pos, x)),
{
    let sorted = before.insert(pos, x);
    assert forall|a: int, b: int| 0 <= a < b < sorted.len() implies #[trigger] sorted[a].1 >= #[trigger] sorted[b].1 by {
        if a < pos && b > pos {
            assert(sorted[b] == before[b - 1]);
            assert(sorted[a] == before[a]);
        } else if a > pos {
            assert(sorted[a] == before[a - 1] && sorted[b] == before[b - 1]);
        } else if a == pos && b > pos {
            assert(sorted[b] == before[b - 1]);
            assert(before[pos].1 >= before[b - 1].1);
        } else if b == pos {
            assert(sorted[a] == before[a]);
        } else {
            assert(sorted[a] == before[a] && sorted[b] == before[b]);
        }
    }
}

proof fn lemma_insert_distinct(before: Seq<(Seq<char>, usize)>, pos: int, x: (Seq<char>, usize))
    requires
        names_distinct(before),
        0 <= pos <= before.len(),
        forall|i: int| 0 <= i < before.len() ==> #[trigger] before[i].0 != x.0,
    ensures
        names_distinct(before.insert(pos, x)),
{
    let sorted = before.insert(pos, x);
    assert forall|a: int, b: int| 0 <= a < sorted.len() && 0 <= b < sorted.len() && a != b implies #[trigger] sorted[a].0 != #[trigger] sorted[b].0 by {
        let aa = if a < pos { a } else { a - 1 };
        let bb = if b < pos { b } else { b - 1 };
        if a != pos && b != pos {
            assert(sorted[a] == before[aa] && sorted[b] == before[bb]);
        } else if a == pos {
            assert(sorted[b] == before[bb]);
        } else {
            assert(sorted[a] == before[aa]);
        }
    }
}

proof fn lemma_ranked_insert(
    fp: Seq<(Seq<char>, Seq<u8>)>,
    roots: Set<Seq<char>>,
    k: int,
    before: Seq<(Seq<char>, usize)>,
    pos: int,
    size: usize,
)
    requires
        0 <= k < fp.len(),
        size == fp[k].1.len(),
        keys_distinct(fp),
        !roots.contains(fp[k].0),
        ranked(fp, roots, k, before),
        0 <= pos <= before.len(),
        forall|a: int| 0 <= a < pos ==> #[trigger] before[a].1 >= size,
        pos < before.len() ==> before[pos].1 < size,
    ensures
        ranked(fp, roots, k + 1, before.insert(pos, (fp[k].0, size))),
{
    let x = (fp[k].0, size);
    let sorted = before.insert(pos, x);
    assert forall|i: int| 0 <= i < before.len() implies #[trigger] before[i].0 != x.0 by {
        assert(from_entry(fp, roots, k, before[i]));
        let m = choose|m: int|
            0 <= m < k && #[trigger] fp[m].0 == before[i].0 && before[i].1 == fp[m].1.len()
                && !roots.contains(fp[m].0);
        assert(fp[m].0 != fp[k].0);
    }
    lemma_insert_descending(before, pos, x);
    lemma_insert_distinct(before, pos, x);
    assert forall|i: int| 0 <= i < sorted.len() implies #[trigger] from_entry(fp, roots, k + 1, sorted[i]) by {
        let e = sorted[i];
        if i != pos {
            let j = if i < pos { i } else { i - 1 };
            assert(e == before[j]);
            assert(from_entry(fp, roots, k, before[j]));
            let m = choose|m: int|
                0 <= m < k && #[trigger] fp[m].0 == e.0 && e.1 == fp[m].1.len() && !roots.contains(fp[m].0);
            assert(0 <= m < k + 1 && fp[m].0 == e.0);
        } else {
            assert(e == x);
            assert(0 <= k < k + 1 && fp[k].0 == e.0 && e.1 == fp[k].1.len());
        }
    }
    assert forall|m: int| 0 <= m < k + 1 && !roots.contains(#[trigger] fp[m].0) implies exists|i: int|
        0 <= i < sorted.len() && sorted[i].0 == fp[m].0 by {
        if m < k {
            let i = choose|i: int| 0 <= i < before.len() && before[i].0 == fp[m].0;
            if i < pos {
                assert(sorted[i] == before[i]);
            } else {
                assert(sorted[i + 1] == before[i]);
            }
        } else {
            assert(sorted[pos] == x);
        }
    }
}

/// File entries as plain values.
pub open spec fn file_pairs(s: Seq<(String, Vec<u8>)>) -> Seq<(Seq<char>, Seq<u8>)> {
    s.map_values(|e: (String, Vec<u8>)| (e.0@, e.1@))
}

/// Command stacks as plain values.
pub open spec fn command_pairs(s: Seq<(String, Vec<CommandRecord>)>) -> Seq<
    (Seq<char>, Seq<(Seq<u8>, Option<Seq<u8>>)>),
> {
    s.map_values(
        |e: (String, Vec<CommandRecord>)|
            (e.0@, e.1@.map_values(|r: CommandRecord| record_view(r))),
    )
}

/// The working set of a project's files, with the history of changes.
pub struct ProjectFileSet {
    /// (relative path, contents), each path once.
    files: Vec<(String, Vec<u8>)>,
    /// The root files.
    roots: Vec<String>,
    /// (relative path, commands applied to it, oldest first), each path once,
    /// no stack empty.
    commands: Vec<(String, Vec<CommandRecord>)>,
}

/// The message of a refusal: `prefix` then the path.
pub open spec fn message_for(prefix: Seq<char>, path: Seq<char>) -> Seq<char> {
    prefix + path
}

fn message(prefix: &str, path: &str) -> (r: String)
    ensures
        r@ == message_for(prefix@, path@),
{
    let mut m = String::from_str(prefix);
    m.append(path);
    m
}

/// The executor `run` was asked to write `contents` to the file at `path`,
/// and answered `res`.
pub open spec fn ran_write<F: Fn(&FileOp) -> Result<(), String>>(
    run: F,
    path: Seq<char>,
    contents: Seq<u8>,
    res: Result<(), String>,
) -> bool {
    exists|op: FileOp|
        #[trigger] call_ensures(run, (&op,), res) && (op matches FileOp::Write { path: p, contents: c }
            && p@ == path && c@ == contents)
}

/// The executor `run` was asked to remove the file at `path`, and answered
/// `res`.
pub open spec fn ran_remove<F: Fn(&FileOp) -> Result<(), String>>(
    run: F,
    path: Seq<char>,
    res: Result<(), String>,
) -> bool {
    exists|op: FileOp|
        #[trigger] call_ensures(run, (&op,), res) && (op matches FileOp::Remove { path: p } && p@
            == path)
}

/// What the executor's answer makes of an operation: `Ok`, or the failure
/// reported as an I/O error.
pub open spec fn outcome_of(res: Result<(), String>) -> Result<(), FileSetError> {
    match res {
        Ok(()) => Ok(()),
        Err(e) => Err(FileSetError::Io(e)),
    }
}

impl ProjectFileSet {
    /// The file set is well formed: no path twice, no empty stack.
    pub closed spec fn wf(&self) -> bool {
        &&& keys_distinct(file_pairs(self.files@))
        &&& keys_distinct(command_pairs(self.commands@))
        &&& forall|i: int| 0 <= i < self.commands@.len() ==> #[trigger] self.commands@[i].1@.len() > 0
        &&& forall|i: int, j: int|
            0 <= i < self.commands@.len() && 0 <= j < self.commands@[i].1@.len() ==> record_path(
                #[trigger] self.commands@[i].1@[j],
            ) == self.commands@[i].0@
    }

    /// The files of the project, by relative path.
    pub closed spec fn files_view(&self) -> Map<Seq<char>, Seq<u8>> {
        map_of(file_pairs(self.files@))
    }

    /// The root files, in the order they were declared.
    pub closed spec fn root_list(&self) -> Seq<Seq<char>> {
        self.roots@.map_values(|r: String| r@)
    }

    /// The root files.
    pub closed spec fn roots_view(&self) -> Set<Seq<char>> {
        self.roots@.map_values(|r: String| r@).to_set()
    }

    /// The commands applied to each file, oldest first.
    pub closed spec fn history(&self) -> Map<Seq<char>, Seq<(Seq<u8>, Option<Seq<u8>>)>> {
        map_of(command_pairs(self.commands@))
    }

    /// Position of `path` among the files.
    fn find_file(&self, path: &str) -> (r: Option<usize>)
        requires
            self.wf(),
        ensures
            match r {
                Some(k) => k < self.files@.len() && self.files@[k as int].0@ == path@
                    && self.files_view().contains_key(path@) && self.files_view()[path@]
                    == self.files@[k as int].1@,
                None => !self.files_view().contains_key(path@),
            },
    {
        let ghost fp = file_pairs(self.files@);
        let mut k: usize = 0;
        while k < self.files.len()
            invariant
                k <= self.files@.len(),
                self.wf(),
                fp == file_pairs(self.files@),
                forall|m: int| 0 <= m < k ==> #[trigger] fp[m].0 != path@,
            decreases self.files@.len() - k,
        {
            if str_eq(self.files[k].0.as_str(), path) {
                proof {
                    lemma_map_of_index(fp, k as int);
                }
                return Some(k);
            }
            k = k + 1;
        }
        proof {
            lemma_map_of_absent(fp, path@);
        }
        None
    }

    /// Position of `path` among the command stacks.
    fn find_stack(&self, path: &str) -> (r: Option<usize>)
        requires
            self.wf(),
        ensures
            match r {
                Some(k) => k < self.commands@.len() && self.commands@[k as int].0@ == path@
                    && self.history().contains_key(path@) && self.history()[path@]
                    == command_pairs(self.commands@)[k as int].1,
                None => !self.history().contains_key(path@),
            },
    {
        let ghost cp = command_pairs(self.commands@);
        let mut k: usize = 0;
        while k < self.commands.len()
            invariant
                k <= self.commands@.len(),
                self.wf(),
                cp == command_pairs(self.commands@),
                forall|m: int| 0 <= m < k ==> #[trigger] cp[m].0 != path@,
            decreases self.commands@.len() - k,
        {
            if str_eq(self.commands[k].0.as_str(), path) {
                proof {
                    lemma_map_of_index(cp, k as int);
                }
                return Some(k);
            }
            k = k + 1;
        }
        proof {
            lemma_map_of_absent(cp, path@);
        }
        None
    }

    /// Whether `path` is a root.
    fn is_root(&self, path: &str) -> (r: bool)
        ensures
            r == self.roots_view().contains(path@),
    {
        let ghost rs = self.roots@.map_values(|r: String| r@);
        let mut k: usize = 0;
        while k < self.roots.len()
            invariant
                k <= self.roots@.len(),
                rs == self.roots@.map_values(|r: String| r@),
                forall|m: int| 0 <= m < k ==> #[trigger] rs[m] != path@,
            decreases self.roots@.len() - k,
        {
            if str_eq(self.roots[k].as_str(), path) {
                assert(rs[k as int] == path@);
                return true;
            }
            k = k + 1;
        }
        false
    }

    /// Record `rec` on top of the stack of `path`.
    fn push_record(&mut self, path: &str, rec: CommandRecord)
        requires
            old(self).wf(),
            record_path(rec) == path@,
        ensures
            final(self).wf(),
            final(self).files_view() == old(self).files_view(),
            final(self).roots_view() == old(self).roots_view(),
            final(self).root_list() == old(self).root_list(),
            final(self).history() == recorded(old(self).history(), path@, record_view(rec)),
    {
        let ghost cp = command_pairs(self.commands@);
        let ghost rv = record_view(rec);
        let ghost old_commands = self.commands@;
        match self.find_stack(path) {
            Some(k) => {
                let (key, mut stack) = self.commands.remove(k);
                assert((key, stack) == old_commands[k as int]);
                let ghost before = stack@.map_values(|r: CommandRecord| record_view(r));
                stack.push(rec);
                self.commands.push((key, stack));
                proof {
                    assert(stack@.map_values(|r: CommandRecord| record_view(r)) =~= before.push(rv));
                    assert(cp[k as int].1 == before);
                    assert(command_pairs(self.commands@) =~= cp.remove(k as int).push(
                        (cp[k as int].0, before.push(rv)),
                    ));
                    lemma_replace_entry(cp, k as int, before.push(rv));
                    assert(self.history() =~= recorded(map_of(cp), path@, rv));
                    assert forall|i: int| 0 <= i < self.commands@.len() implies #[trigger] self.commands@[i].1@.len() > 0 by {
                        if i < self.commands@.len() - 1 {
                            let ii = if i < k { i } else { i + 1 };
                            assert(self.commands@[i] == old_commands[ii]);
                        }
                    }
                    assert forall|i: int, j: int|
                        0 <= i < self.commands@.len() && 0 <= j < self.commands@[i].1@.len() implies record_path(
                            #[trigger] self.commands@[i].1@[j],
                        ) == self.commands@[i].0@ by {
                        if i < self.commands@.len() - 1 {
                            let ii = if i < k { i } else { i + 1 };
                            assert(self.commands@[i] == old_commands[ii]);
                        } else if j < self.commands@[i].1@.len() - 1 {
                            assert(self.commands@[i].1@[j] == old_commands[k as int].1@[j]);
                        }
                    }
                }
            },
            None => {
                let mut stack: Vec<CommandRecord> = Vec::new();
                stack.push(rec);
                self.commands.push((String::from_str(path), stack));
                proof {
                    assert(stack@.map_values(|r: CommandRecord| record_view(r)) =~= seq![rv]);
                    assert(command_pairs(self.commands@) =~= cp.push((path@, seq![rv])));
                    lemma_push_new_key(cp, path@, seq![rv]);
                    assert(stack_of(map_of(cp), path@) =~= Seq::empty());
                    assert(seq![rv] =~= Seq::<(Seq<u8>, Option<Seq<u8>>)>::empty().push(rv));
                    assert(self.history() =~= recorded(map_of(cp), path@, rv));
                    assert forall|i: int| 0 <= i < self.commands@.len() implies #[trigger] self.commands@[i].1@.len() > 0 by {
                        if i < self.commands@.len() - 1 {
                            assert(self.commands@[i] == old_commands[i]);
                        }
                    }
                    assert forall|i: int, j: int|
                        0 <= i < self.commands@.len() && 0 <= j < self.commands@[i].1@.len() implies record_path(
                            #[trigger] self.commands@[i].1@[j],
                        ) == self.commands@[i].0@ by {
                        if i < self.commands@.len() - 1 {
                            assert(self.commands@[i] == old_commands[i]);
                        }
                    }
                }
            },
        }
    }

    /// Set `path` to hold `contents`, adding it when absent.
    fn put_file(&mut self, path: String, contents: Vec<u8>)
        requires
            old(self).wf(),
        ensures
            final(self).wf(),
            final(self).files_view() == old(self).files_view().insert(path@, contents@),
            final(self).roots_view() == old(self).roots_view(),
            final(self).root_list() == old(self).root_list(),
            final(self).history() == old(self).history(),
    {
        let ghost fp = file_pairs(self.files@);
        match self.find_file(path.as_str()) {
            Some(k) => {
                let ghost key = self.files@[k as int].0@;
                self.files.set(k, (path, contents));
                proof {
                    lemma_map_of_update(fp, k as int, contents@);
                    assert(file_pairs(self.files@) =~= fp.update(k as int, (fp[k as int].0, contents@)));
                }
            },
            None => {
                self.files.push((path, contents));
                proof {
                    let t = file_pairs(self.files@);
                    assert(t.drop_last() =~= fp);
                    assert forall|i: int| 0 <= i < fp.len() implies #[trigger] fp[i].0 != path@ by {
                        if fp[i].0 == path@ {
                            lemma_map_of_index(fp, i);
                        }
                    }
                    assert forall|i: int, j: int|
                        0 <= i < t.len() && 0 <= j < t.len() && i != j implies #[trigger] t[i].0
                        != #[trigger] t[j].0 by {
                        if i < fp.len() && j < fp.len() {
                            assert(t[i] == fp[i] && t[j] == fp[j]);
                        } else if i < fp.len() {
                            assert(t[i] == fp[i]);
                        } else {
                            assert(t[j] == fp[j]);
                        }
                    }
                }
            },
        }
    }

    /// The project made of the given files (a path given twice keeps its
    /// last contents) with the given roots. Every declared root must be one
    /// of the files; the first that is not is reported.
    pub fn new(entries: Vec<(String, Vec<u8>)>, roots: Vec<String>) -> (r: Result<
        Self,
        FileSetError,
    >)
        ensures
            match r {
                Ok(fs) => {
                    &&& fs.wf()
                    &&& fs.files_view() == map_of(file_pairs(entries@))
                    &&& fs.roots_view() == roots@.map_values(|x: String| x@).to_set()
                    &&& fs.root_list() == roots@.map_values(|x: String| x@)
                    &&& fs.history() == Map::<Seq<char>, Seq<(Seq<u8>, Option<Seq<u8>>)>>::empty()
                    &&& forall|i: int|
                        0 <= i < roots@.len() ==> map_of(file_pairs(entries@)).contains_key(
                            #[trigger] roots@[i]@,
                        )
                },
                Err(e) => exists|i: int|
                    0 <= i < roots@.len() && !map_of(file_pairs(entries@)).contains_key(
                        roots@[i]@,
                    ) && (forall|j: int|
                        0 <= j < i ==> map_of(file_pairs(entries@)).contains_key(
                            #[trigger] roots@[j]@,
                        )) && (e matches FileSetError::NotFound(m) && m@ == message_for(
                        "declared root not found: "@,
                        roots@[i]@,
                    )),
            },
    {
        let mut fs = ProjectFileSet { files: Vec::new(), roots: Vec::new(), commands: Vec::new() };
        proof {
            assert(fs.history() =~= Map::<Seq<char>, Seq<(Seq<u8>, Option<Seq<u8>>)>>::empty());
        }
        let mut i: usize = 0;
        while i < entries.len()
            invariant
                fs.wf(),
                i <= entries@.len(),
                fs.files_view() == map_of(file_pairs(entries@.take(i as int))),
                fs.history() == Map::<Seq<char>, Seq<(Seq<u8>, Option<Seq<u8>>)>>::empty(),
            decreases entries@.len() - i,
        {
            let path = entries[i].0.clone();
            let contents = entries[i].1.clone();
            proof {
                assert(contents@ =~= entries@[i as int].1@);
            }
            fs.put_file(path, contents);
            proof {
                assert(file_pairs(entries@.take(i + 1)).drop_last() =~= file_pairs(entries@.take(i as int)));
            }
            i = i + 1;
        }
        proof {
            assert(entries@.take(entries@.len() as int) =~= entries@);
        }
        let mut j: usize = 0;
        while j < roots.len()
            invariant
                fs.wf(),
                fs.files_view() == map_of(file_pairs(entries@)),
                j <= roots@.len(),
                forall|m: int| 0 <= m < j ==> fs.files_view().contains_key(#[trigger] roots@[m]@),
            decreases roots@.len() - j,
        {
            if fs.find_file(roots[j].as_str()).is_none() {
                return Err(FileSetError::NotFound(message("declared root not found: ", roots[j].as_str())));
            }
            j = j + 1;
        }
        fs.roots = roots;
        Ok(fs)
    }

    /// A file's contents by relative path.
    pub fn get_file(&self, path: &str) -> (r: Option<&[u8]>)
        requires
            self.wf(),
        ensures
            match r {
                Some(c) => self.files_view().contains_key(path@) && c@ == self.files_view()[path@],
                None => !self.files_view().contains_key(path@),
            },
    {
        match self.find_file(path) {
            Some(k) => Some(self.files[k].1.as_slice()),
            None => None,
        }
    }

    /// Overwrite a file with new contents, recording the change for undo.
    /// The write is carried out by `run`; when it fails nothing changes.
    pub fn update_file<F: Fn(&FileOp) -> Result<(), String>>(
        &mut self,
        path: &str,
        new_contents: Vec<u8>,
        run: &F,
    ) -> (r: Result<(), FileSetError>)
        requires
            old(self).wf(),
            forall|op: &FileOp| run.requires((op,)),
        ensures
            final(self).wf(),
            final(self).roots_view() == old(self).roots_view(),
            final(self).root_list() == old(self).root_list(),
            !old(self).files_view().contains_key(path@) ==> (r matches Err(
                FileSetError::NotFound(m),
            ) && m@ == message_for("file not in project: "@, path@)),
            r is Ok ==> old(self).files_view().contains_key(path@) && final(self).files_view()
                == updated_files(old(self).files_view(), path@, new_contents@) && final(self).history()
                == recorded(
                old(self).history(),
                path@,
                (old(self).files_view()[path@], Some(new_contents@)),
            ),
            r is Err ==> final(self).files_view() == old(self).files_view() && final(self).history()
                == old(self).history(),
            old(self).files_view().contains_key(path@) ==> exists|res: Result<(), String>|
                #[trigger] ran_write(*run, path@, new_contents@, res) && r == outcome_of(res),
    {
        let old_contents = match self.find_file(path) {
            Some(k) => self.files[k].1.clone(),
            None => {
                return Err(FileSetError::NotFound(message("file not in project: ", path)));
            },
        };
        let cmd = ModifyCommand {
            relative_path: String::from_str(path),
            new_contents: new_contents.clone(),
            old_contents,
        };
        let op = cmd.apply();
        let res = run(&op);
        proof {
            assert(ran_write(*run, path@, new_contents@, res));
        }
        match res {
            Ok(()) => {},
            Err(e) => {
                return Err(FileSetError::Io(e));
            },
        }
        proof {
            assert(record_view(CommandRecord::Modify(cmd)) == (
                self.files_view()[path@],
                Some(new_contents@),
            ));
        }
        self.put_file(String::from_str(path), new_contents);
        self.push_record(path, CommandRecord::Modify(cmd));
        Ok(())
    }

    /// Remove the file at position `k`.
    fn take_file(&mut self, k: usize) -> (r: (String, Vec<u8>))
        requires
            old(self).wf(),
            k < old(self).files@.len(),
        ensures
            final(self).wf(),
            r == old(self).files@[k as int],
            old(self).files_view().contains_key(r.0@),
            old(self).files_view()[r.0@] == r.1@,
            final(self).files_view() == old(self).files_view().remove(r.0@),
            final(self).roots_view() == old(self).roots_view(),
            final(self).root_list() == old(self).root_list(),
            final(self).history() == old(self).history(),
    {
        let ghost fp = file_pairs(self.files@);
        proof {
            lemma_map_of_index(fp, k as int);
            lemma_map_of_remove(fp, k as int);
        }
        let r = self.files.remove(k);
        proof {
            assert(file_pairs(self.files@) =~= fp.remove(k as int));
        }
        r
    }

    /// Take the newest command for `path` off its stack.
    fn pop_record(&mut self, path: &str) -> (r: Option<CommandRecord>)
        requires
            old(self).wf(),
        ensures
            final(self).wf(),
            final(self).files_view() == old(self).files_view(),
            final(self).roots_view() == old(self).roots_view(),
            final(self).root_list() == old(self).root_list(),
            match r {
                Some(rec) => {
                    &&& old(self).history().contains_key(path@)
                    &&& record_view(rec) == stack_of(old(self).history(), path@).last()
                    &&& record_path(rec) == path@
                    &&& final(self).history() == undone_history(old(self).history(), path@)
                },
                None => !old(self).history().contains_key(path@) && final(self).history()
                    == old(self).history(),
            },
    {
        let ghost cp = command_pairs(self.commands@);
        let ghost old_commands = self.commands@;
        let k = match self.find_stack(path) {
            Some(k) => k,
            None => return None,
        };
        proof {
            lemma_map_of_remove(cp, k as int);
        }
        let (key, mut stack) = self.commands.remove(k);
        assert((key, stack) == old_commands[k as int]);
        let ghost before = stack@.map_values(|x: CommandRecord| record_view(x));
        assert(before == cp[k as int].1);
        assert(command_pairs(self.commands@) =~= cp.remove(k as int));
        assert(old_commands[k as int].1@.len() > 0);
        let rec = stack.pop().unwrap();
        proof {
            assert(rec == old_commands[k as int].1@[old_commands[k as int].1@.len() - 1]);
            assert(stack@.map_values(|x: CommandRecord| record_view(x)) =~= before.drop_last());
            assert(record_view(rec) == before.last());
        }
        if stack.len() > 0 {
            self.commands.push((key, stack));
            proof {
                assert(command_pairs(self.commands@) =~= cp.remove(k as int).push(
                    (cp[k as int].0, before.drop_last()),
                ));
                lemma_replace_entry(cp, k as int, before.drop_last());
                assert(self.history() =~= map_of(cp).insert(path@, before.drop_last()));
                assert forall|i: int| 0 <= i < self.commands@.len() implies #[trigger] self.commands@[i].1@.len() > 0 by {
                    if i < self.commands@.len() - 1 {
                        let ii = if i < k { i } else { i + 1 };
                        assert(self.commands@[i] == old_commands[ii]);
                    }
                }
            }
        } else {
            proof {
                assert forall|i: int| 0 <= i < self.commands@.len() implies #[trigger] self.commands@[i].1@.len() > 0 by {
                    let ii = if i < k { i } else { i + 1 };
                    assert(self.commands@[i] == old_commands[ii]);
                }
            }
        }
        Some(rec)
    }

    /// Remove a file from the project, recording the change for undo. A root
    /// cannot be excluded. The removal is carried out by `run`; when it
    /// fails, the file is already out of the set and nothing is recorded.
    pub fn exclude_file<F: Fn(&FileOp) -> Result<(), String>>(&mut self, path: &str, run: &F) -> (r:
        Result<(), FileSetError>)
        requires
            old(self).wf(),
            forall|op: &FileOp| run.requires((op,)),
        ensures
            final(self).wf(),
            final(self).roots_view() == old(self).roots_view(),
            final(self).root_list() == old(self).root_list(),
            old(self).roots_view().contains(path@) ==> (r matches Err(
                FileSetError::InvalidInput(m),
            ) && m@ == message_for("cannot exclude root file: "@, path@)) && final(self).files_view()
                == old(self).files_view() && final(self).history() == old(self).history(),
            !old(self).roots_view().contains(path@) && !old(self).files_view().contains_key(path@)
                ==> (r matches Err(FileSetError::NotFound(m)) && m@ == message_for(
                "file not in project: "@,
                path@,
            )) && final(self).files_view() == old(self).files_view() && final(self).history()
                == old(self).history(),
            r is Ok ==> !old(self).roots_view().contains(path@) && old(self).files_view().contains_key(
                path@,
            ) && final(self).files_view() == excluded_files(old(self).files_view(), path@)
                && final(self).history() == recorded(
                old(self).history(),
                path@,
                (old(self).files_view()[path@], None),
            ),
            r matches Err(FileSetError::Io(_)) ==> final(self).files_view() == excluded_files(
                old(self).files_view(),
                path@,
            ) && final(self).history() == old(self).history(),
            !old(self).roots_view().contains(path@) && old(self).files_view().contains_key(path@)
                ==> exists|res: Result<(), String>|
                #[trigger] ran_remove(*run, path@, res) && r == outcome_of(res),
    {
        if self.is_root(path) {
            return Err(FileSetError::InvalidInput(message("cannot exclude root file: ", path)));
        }
        let k = match self.find_file(path) {
            Some(k) => k,
            None => {
                return Err(FileSetError::NotFound(message("file not in project: ", path)));
            },
        };
        let (_, contents) = self.take_file(k);
        let cmd = ExcludeCommand { relative_path: String::from_str(path), contents };
        let op = cmd.apply();
        let res = run(&op);
        proof {
            assert(ran_remove(*run, path@, res));
        }
        match res {
            Ok(()) => {},
            Err(e) => {
                return Err(FileSetError::Io(e));
            },
        }
        self.push_record(path, CommandRecord::Exclude(cmd));
        Ok(())
    }

    /// Undo the newest command for `path`: the file holds again what it
    /// held before that command. The restoring write is carried out by
    /// `run`; when it fails, the command is dropped and the file set kept.
    pub fn undo_last<F: Fn(&FileOp) -> Result<(), String>>(&mut self, path: &str, run: &F) -> (r:
        Result<(), FileSetError>)
        requires
            old(self).wf(),
            forall|op: &FileOp| run.requires((op,)),
        ensures
            final(self).wf(),
            final(self).roots_view() == old(self).roots_view(),
            final(self).root_list() == old(self).root_list(),
            !old(self).history().contains_key(path@) ==> (r matches Err(FileSetError::NotFound(m))
                && m@ == message_for("no commands to undo for: "@, path@)) && final(self).files_view()
                == old(self).files_view() && final(self).history() == old(self).history(),
            r is Ok ==> old(self).history().contains_key(path@) && final(self).files_view()
                == undone_files(old(self).files_view(), old(self).history(), path@)
                && final(self).history() == undone_history(old(self).history(), path@),
            r matches Err(FileSetError::Io(_)) ==> final(self).files_view() == old(self).files_view()
                && final(self).history() == undone_history(old(self).history(), path@),
            old(self).history().contains_key(path@) ==> exists|res: Result<(), String>|
                #[trigger] ran_write(
                    *run,
                    path@,
                    stack_of(old(self).history(), path@).last().0,
                    res,
                ) && r == outcome_of(res),
    {
        let rec = match self.pop_record(path) {
            Some(rec) => rec,
            None => {
                return Err(FileSetError::NotFound(message("no commands to undo for: ", path)));
            },
        };
        let op = match &rec {
            CommandRecord::Modify(m) => m.undo(),
            CommandRecord::Exclude(e) => e.undo(),
        };
        let res = run(&op);
        proof {
            assert(ran_write(*run, path@, record_view(rec).0, res));
        }
        match res {
            Ok(()) => {},
            Err(e) => {
                return Err(FileSetError::Io(e));
            },
        }
        let restored = match rec {
            CommandRecord::Modify(m) => m.old_contents,
            CommandRecord::Exclude(e) => e.contents,
        };
        self.put_file(String::from_str(path), restored);
        Ok(())
    }

    /// The root files, in the order they were declared.
    pub fn root_files(&self) -> (r: Vec<String>)
        ensures
            r@.map_values(|x: String| x@) == self.root_list(),
            self.root_list().to_set() == self.roots_view(),
    {
        let r = crate::config::copy_strings(&self.roots);
        r
    }

    /// The dependency (non-root) files, largest first; files of equal size
    /// keep the order in which the set holds them.
    pub fn dependency_files(&self) -> (r: Vec<String>)
        requires
            self.wf(),
        ensures
            forall|i: int|
                0 <= i < r@.len() ==> self.files_view().contains_key(#[trigger] r@[i]@)
                    && !self.roots_view().contains(r@[i]@),
            forall|p: Seq<char>|
                self.files_view().contains_key(p) && !self.roots_view().contains(p) ==> exists|i: int|
                    0 <= i < r@.len() && #[trigger] r@[i]@ == p,
            forall|i: int, j: int|
                0 <= i < r@.len() && 0 <= j < r@.len() && i != j ==> #[trigger] r@[i]@
                    != #[trigger] r@[j]@,
            forall|i: int, j: int|
                0 <= i < j < r@.len() ==> self.files_view()[#[trigger] r@[i]@].len()
                    >= self.files_view()[#[trigger] r@[j]@].len(),
    {
        let ghost fp = file_pairs(self.files@);
        let ghost rv = self.roots_view();
        let mut sorted: Vec<(String, usize)> = Vec::new();
        let mut k: usize = 0;
        while k < self.files.len()
            invariant
                self.wf(),
                fp == file_pairs(self.files@),
                rv == self.roots_view(),
                k <= self.files@.len(),
                ranked(fp, rv, k as int, sized_names(sorted@)),
            decreases self.files@.len() - k,
        {
            if !self.is_root(self.files[k].0.as_str()) {
                let size = self.files[k].1.len();
                let mut pos: usize = 0;
                while pos < sorted.len() && sorted[pos].1 >= size
                    invariant
                        pos <= sorted@.len(),
                        forall|a: int| 0 <= a < pos ==> #[trigger] sorted@[a].1 >= size,
                    decreases sorted@.len() - pos,
                {
                    pos = pos + 1;
                }
                let ghost before = sorted@;
                let name = self.files[k].0.clone();
                sorted.insert(pos, (name, size));
                proof {
                    assert(fp[k as int].0 == name@ && fp[k as int].1.len() == size);
                    assert(sized_names(sorted@) =~= sized_names(before).insert(
                        pos as int,
                        (name@, size),
                    ));
                    lemma_ranked_insert(fp, rv, k as int, sized_names(before), pos as int, size);
                }
            } else {
                proof {
                    lemma_ranked_skip(fp, rv, k as int, sized_names(sorted@));
                }
            }
            k = k + 1;
        }
        let mut r: Vec<String> = Vec::new();
        let mut i: usize = 0;
        while i < sorted.len()
            invariant
                i <= sorted@.len(),
                r@.len() == i,
                forall|j: int| 0 <= j < i ==> #[trigger] r@[j]@ == sorted@[j].0@,
            decreases sorted@.len() - i,
        {
            r.push(sorted[i].0.clone());
            i = i + 1;
        }
        proof {
            let sv = sized_names(sorted@);
            assert forall|i: int| 0 <= i < r@.len() implies self.files_view().contains_key(
                #[trigger] r@[i]@,
            ) && !self.roots_view().contains(r@[i]@) && self.files_view()[r@[i]@].len() == sv[i].1 by {
                assert(sv[i] == (sorted@[i].0@, sorted@[i].1));
                assert(from_entry(fp, rv, fp.len() as int, sv[i]));
                let m = choose|m: int|
                    0 <= m < fp.len() && #[trigger] fp[m].0 == sv[i].0 && sv[i].1 == fp[m].1.len()
                        && !rv.contains(fp[m].0);
                lemma_map_of_index(fp, m);
            }
            assert forall|p: Seq<char>|
                self.files_view().contains_key(p) && !self.roots_view().contains(p) implies exists|
                i: int,
            | 0 <= i < r@.len() && #[trigger] r@[i]@ == p by {
                if forall|m: int| 0 <= m < fp.len() ==> #[trigger] fp[m].0 != p {
                    lemma_map_of_absent(fp, p);
                } else {
                    let m = choose|m: int| 0 <= m < fp.len() && fp[m].0 == p;
                    let i = choose|i: int| 0 <= i < sv.len() && sv[i].0 == fp[m].0;
                    assert(sv[i] == (sorted@[i].0@, sorted@[i].1));
                    assert(r@[i]@ == p);
                }
            }
            assert forall|a: int, b: int|
                0 <= a < r@.len() && 0 <= b < r@.len() && a != b implies #[trigger] r@[a]@
                != #[trigger] r@[b]@ by {
                assert(sv[a] == (sorted@[a].0@, sorted@[a].1));
                assert(sv[b] == (sorted@[b].0@, sorted@[b].1));
                assert(names_distinct(sv));
                assert(sv[a].0 != sv[b].0);
            }
            assert forall|a: int, b: int|
                0 <= a < b < r@.len() implies self.files_view()[#[trigger] r@[a]@].len()
                >= self.files_view()[#[trigger] r@[b]@].len() by {
                assert(sv[a] == (sorted@[a].0@, sorted@[a].1));
                assert(sv[b] == (sorted@[b].0@, sorted@[b].1));
            }
        }
        r
    }
}

} // verus!
