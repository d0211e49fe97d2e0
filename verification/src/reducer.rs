//! The Perses-style reduction loop.
//!
//! Nodes are taken from a priority queue, largest first; for each, the
//! transforms propose replacements; a replacement is kept when the result
//! still parses (without new errors), is smaller, and the interestingness
//! test still holds. After each kept replacement the tree is parsed again
//! and the queue rebuilt. A final run of the test guards against cache
//! collisions: if it fails, the original input is returned.
use vstd::prelude::*;

use crate::cache::TestCache;
use crate::interest::{InterestingnessTest, TestResult};
use crate::progress::{ProgressCallback, ProgressStats};
use crate::queue::ReductionQueue;
use crate::supertype::SupertypeProvider;
use crate::transform::{rviews, Transform};
use crate::tree::SyntaxTree;
use crate::validity::{in_bounds, spliced, try_replacement, ErrorSet, Replacement};
use crate::cache::lookup;

verus! {

#[verifier::external_type_specification]
#[verifier::external_body]
pub struct ExInstant(std::time::Instant);

/// Calls `std::time::Instant::now`.
#[verifier::external_body]
fn clock_now() -> std::time::Instant {
    std::time::Instant::now()
}

/// Calls `std::time::Instant::elapsed`; what it returns depends on the clock.
#[verifier::external_body]
fn elapsed_since(start: &std::time::Instant) -> std::time::Duration {
    start.elapsed()
}

/// Calls `std::time::Duration::as_nanos`; Verus cannot see inside a `Duration`.
#[verifier::external_body]
fn duration_nanos(d: &std::time::Duration) -> u128 {
    d.as_nanos()
}

/// Whether a time limit is set: a zero limit means none.
fn has_time_limit(limit: &std::time::Duration) -> bool {
    duration_nanos(limit) > 0
}

/// Whether the time since `start` has reached `limit`.
fn time_is_up(start: &std::time::Instant, limit: &std::time::Duration) -> bool {
    let spent = elapsed_since(start);
    duration_nanos(&spent) >= duration_nanos(limit)
}

/// Reads the interrupt flag (a relaxed load); set from another thread, its
/// value cannot be predicted.
fn interrupt_requested(flag: &std::sync::Arc<std::sync::atomic::AtomicBool>) -> bool {
    flag.load(std::sync::atomic::Ordering::Relaxed)
}

/// Configuration for a reduction run.
pub struct ReducerConfig {
    /// The tree-sitter language for parsing.
    pub language: tree_sitter::Language,
    /// Transforms to try (Delete, Unwrap, etc.), in order.
    pub transforms: Vec<Box<dyn Transform>>,
    /// Supertype provider for compatibility checking.
    pub provider: Box<dyn SupertypeProvider>,
    /// Maximum number of interestingness test invocations (0 = unlimited).
    pub max_tests: usize,
    /// Maximum wall-clock time (zero = unlimited).
    pub max_time: std::time::Duration,
    /// Number of parallel test workers; runs are sequential whatever its value.
    pub jobs: usize,
    /// If true, reject any ERROR/MISSING nodes; if false, only new errors.
    pub strict: bool,
    /// Stop after this many consecutive test errors (0 = unlimited).
    pub max_test_errors: usize,
    /// When set to true, the reduction loop stops at the next opportunity.
    pub interrupted: std::sync::Arc<std::sync::atomic::AtomicBool>,
}

/// Result of a reduction run.
pub struct ReducerResult {
    /// The reduced source bytes.
    pub source: Vec<u8>,
    /// Number of interestingness tests executed.
    pub tests_run: usize,
    /// Number of successful reductions accepted.
    pub reductions: usize,
    /// Cache lookups answered from the cache.
    pub cache_hits: u64,
    /// Cache lookups made.
    pub cache_lookups: u64,
    /// Wall-clock time elapsed.
    pub elapsed: std::time::Duration,
}

/// The test `test` answered `res` on an input with the bytes `input`.
pub open spec fn test_answered<F: Fn(&[u8]) -> TestResult>(test: F, input: Seq<u8>, res: TestResult) -> bool {
    exists|x: &[u8]| x@ == input && call_ensures(test, (x,), res)
}

/// The test answered Interesting on `input`, or on an input with the same
/// hash (which the cache cannot tell apart from it).
pub open spec fn hash_vouched<F: Fn(&[u8]) -> TestResult>(test: F, input: Seq<u8>) -> bool {
    exists|s: Seq<u8>|
        crate::cache::xxh3_64_of(s) == crate::cache::xxh3_64_of(input) && #[trigger] test_answered(
            test,
            s,
            TestResult::Interesting,
        )
}

/// Every result the cache holds as interesting was answered Interesting by
/// the test on some input with that hash.
spec fn cache_vouched<F: Fn(&[u8]) -> TestResult>(test: F, results: Map<u64, bool>) -> bool {
    forall|h: u64|
        #[trigger] results.contains_key(h) && results[h] ==> exists|s: Seq<u8>|
            crate::cache::xxh3_64_of(s) == h && #[trigger] test_answered(
                test,
                s,
                TestResult::Interesting,
            )
}

/// What a run guarantees of its result: it is the input unchanged, with no
/// reduction counted; or it is smaller than the input, at most one byte
/// smaller per reduction, and confirmed interesting by a last run of the
/// test, except that an empty result is not tested again: it was accepted
/// on a test's answer for an input with its hash.
pub open spec fn reduction_outcome<F: Fn(&[u8]) -> TestResult>(
    test: F,
    source: Seq<u8>,
    result: Seq<u8>,
    reductions: nat,
) -> bool {
    ||| result == source && reductions == 0
    ||| {
        &&& result.len() < source.len()
        &&& reductions >= 1
        &&& result.len() + reductions <= source.len()
        &&& test_answered(test, result, TestResult::Interesting) || (result.len() == 0
            && hash_vouched(test, result))
    }
}

/// The state of a run between steps.
struct Run {
    current: Vec<u8>,
    tree: SyntaxTree,
    initial_errors: Option<ErrorSet>,
    queue: ReductionQueue,
    cache: TestCache,
    tests_run: usize,
    reductions: usize,
    consecutive_errors: usize,
    /// Set when the run must end (a reparse failed).
    stopped: bool,
}

impl Run {
    /// The run is consistent with the input `source`.
    spec fn ok(&self, source: Seq<u8>) -> bool {
        &&& source.len() <= usize::MAX
        &&& self.tree.wf()
        &&& self.tree.source_len == self.current@.len()
        &&& self.current@.len() + self.reductions <= source.len()
        &&& (self.reductions == 0 ==> self.current@ == source)
        &&& (self.reductions > 0 ==> self.current@.len() < source.len())
    }
}

/// The limits of a run that do not change while it runs.
struct Limits {
    max_tests: usize,
    max_time: std::time::Duration,
    max_test_errors: usize,
    strict: bool,
}

/// Whether the run must stop before another test: interrupted, out of tests,
/// out of time, or too many consecutive test errors.
fn must_stop(
    run: &Run,
    limits: &Limits,
    start: &std::time::Instant,
    interrupted: &std::sync::Arc<std::sync::atomic::AtomicBool>,
) -> (r: bool)
    ensures
        limits.max_tests > 0 && run.tests_run >= limits.max_tests ==> r,
        run.tests_run == usize::MAX ==> r,
        run.stopped ==> r,
        limits.max_test_errors > 0 && run.consecutive_errors >= limits.max_test_errors ==> r,
{
    if run.stopped || interrupt_requested(interrupted) {
        return true;
    }
    if limits.max_tests > 0 && run.tests_run >= limits.max_tests {
        return true;
    }
    if run.tests_run == usize::MAX {
        return true;
    }
    if has_time_limit(&limits.max_time) && time_is_up(start, &limits.max_time) {
        return true;
    }
    limits.max_test_errors > 0 && run.consecutive_errors >= limits.max_test_errors
}

/// The known errors of a tree in lenient mode, or `None` in strict mode or
/// when the tree has none.
fn known_errors(tree: &SyntaxTree, source: &[u8], strict: bool) -> (r: Option<ErrorSet>)
    requires
        tree.wf(),
        tree.source_len == source@.len(),
    ensures
        strict ==> r is None,
        !strict ==> (r is None <==> forall|s| crate::validity::tree_error_count(tree.nodes@, source@, s) == 0),
        r matches Some(e) ==> forall|s| #[trigger] e.count(s) == crate::validity::tree_error_count(
            tree.nodes@,
            source@,
            s,
        ),
{
    if strict {
        return None;
    }
    let errors = ErrorSet::from_tree(tree, source);
    if errors.is_empty() {
        proof {
            assert forall|s| crate::validity::tree_error_count(tree.nodes@, source@, s) == 0 by {
                assert(errors.count(s) == 0);
            }
        }
        None
    } else {
        Some(errors)
    }
}

/// Let every transform update its state after an accepted reduction; the
/// transforms keep their order.
fn notify_transforms(
    transforms: &mut Vec<Box<dyn Transform>>,
    tree: &SyntaxTree,
    source: &[u8],
    language: &tree_sitter::Language,
)
    requires
        tree.wf(),
        tree.source_len == source@.len(),
    ensures
        final(transforms)@.len() == old(transforms)@.len(),
{
    let ghost n = transforms@.len();
    let mut done: Vec<Box<dyn Transform>> = Vec::new();
    while transforms.len() > 0
        invariant
            tree.wf(),
            tree.source_len == source@.len(),
            done@.len() + transforms@.len() == n,
        decreases transforms@.len(),
    {
        let ghost before = transforms@;
        match transforms.pop() {
            Some(mut t) => {
                proof {
                    vstd::seq::axiom_seq_subrange_len(before, 0, before.len() - 1);
                }
                t.on_reduction(tree, source, language);
                let ghost done_before = done@;
                done.push(t);
                proof {
                    vstd::seq::axiom_seq_push_len(done_before, t);
                }
            },
            None => {},
        }
    }
    while done.len() > 0
        invariant
            done@.len() + transforms@.len() == n,
        decreases done@.len(),
    {
        let ghost before = done@;
        match done.pop() {
            Some(t) => {
                proof {
                    vstd::seq::axiom_seq_subrange_len(before, 0, before.len() - 1);
                }
                let ghost tr_before = transforms@;
                transforms.push(t);
                proof {
                    vstd::seq::axiom_seq_push_len(tr_before, t);
                }
            },
            None => {},
        }
    }
}

/// Accept `new_source`: parse it, refresh the known errors, rebuild the
/// queue and let the transforms update. When the new source does not parse
/// (the parser is not bound to agree with its earlier run) the source is
/// kept as it was and the run stops.
fn accept(
    run: &mut Run,
    new_source: Vec<u8>,
    limits: &Limits,
    language: &tree_sitter::Language,
    transforms: &mut Vec<Box<dyn Transform>>,
    source: Ghost<Seq<u8>>,
    progress: Option<&dyn ProgressCallback>,
) -> (accepted: bool)
    requires
        old(run).ok(source@),
        new_source@.len() < old(run).current@.len(),
    ensures
        final(run).ok(source@),
        accepted ==> final(run).reductions == old(run).reductions + 1 && final(run).current@
            == new_source@,
        !accepted ==> final(run).stopped && final(run).reductions == old(run).reductions
            && final(run).current@ == old(run).current@ && final(run).queue.contents() == old(
            run,
        ).queue.contents(),
        final(run).tests_run == old(run).tests_run,
        final(run).cache.hit_count() == old(run).cache.hit_count(),
        final(run).cache.miss_count() == old(run).cache.miss_count(),
        final(run).cache.results() == old(run).cache.results(),
{
    match crate::parse::parse(new_source.as_slice(), language) {
        Some(tree) => {
            run.initial_errors = known_errors(&tree, new_source.as_slice(), limits.strict);
            run.queue.rebuild(&tree);
            notify_transforms(transforms, &tree, new_source.as_slice(), language);
            run.tree = tree;
            run.current = new_source;
            run.reductions = run.reductions + 1;
            true
        },
        None => {
            match progress {
                Some(p) => p.on_warning("the reduced source no longer parses; stopping"),
                None => {},
            }
            run.stopped = true;
            false
        },
    }
}

/// Report a tested candidate, when there is a listener.
fn report_candidate(progress: Option<&dyn ProgressCallback>, name: &str, r: &Replacement, accepted: bool) {
    match progress {
        Some(p) => p.on_candidate(name, r.start_byte, r.end_byte, accepted),
        None => {},
    }
}

/// Whether a candidate that is valid and shorter than the current source is
/// kept: as the cache remembers it when it does, or else as the test
/// answered it (an error answer keeps nothing).
pub fn keeps_candidate(cached: Option<bool>, answer: &Option<TestResult>) -> (r: bool)
    ensures
        r == match cached {
            Some(b) => b,
            None => answer matches Some(TestResult::Interesting),
        },
{
    match cached {
        Some(b) => b,
        None => match answer {
            Some(TestResult::Interesting) => true,
            _ => false,
        },
    }
}

/// Try the candidates of one node in order, until one is accepted or the run
/// must stop. A candidate is accepted when the replaced source is valid (see
/// `try_replacement`), smaller than the current source, and interesting:
/// as the cache remembers it, or else as the test answers. A candidate the
/// test answers Interesting is never dropped: it is accepted, or the run
/// stops (its reparse failed), so a call that accepts nothing and does not
/// stop the run has added no interesting answer to the cache.
fn try_candidates<F: Fn(&[u8]) -> TestResult>(
    run: &mut Run,
    cands: &Vec<Replacement>,
    names: &Vec<String>,
    test: &F,
    limits: &Limits,
    start: &std::time::Instant,
    interrupted: &std::sync::Arc<std::sync::atomic::AtomicBool>,
    language: &tree_sitter::Language,
    transforms: &mut Vec<Box<dyn Transform>>,
    source: Ghost<Seq<u8>>,
    progress: Option<&dyn ProgressCallback>,
) -> (accepted: bool)
    requires
        old(run).ok(source@),
        names@.len() == cands@.len(),
        forall|x: &[u8]| test.requires((x,)),
        limits.max_tests > 0 ==> old(run).tests_run <= limits.max_tests,
        cache_vouched(*test, old(run).cache.results()),
    ensures
        final(run).ok(source@),
        limits.max_tests > 0 ==> final(run).tests_run <= limits.max_tests,
        final(run).tests_run <= old(run).tests_run + cands@.len(),
        cache_vouched(*test, final(run).cache.results()),
        accepted ==> final(run).current@.len() < old(run).current@.len(),
        accepted ==> final(run).reductions == old(run).reductions + 1 && exists|i: int|
            0 <= i < cands@.len() && #[trigger] in_bounds(cands@[i], old(run).current@.len())
                && final(run).current@ == spliced(
                old(run).current@,
                cands@[i].start_byte as int,
                cands@[i].end_byte as int,
                cands@[i].new_bytes@,
            ) && (test_answered(*test, final(run).current@, TestResult::Interesting) || lookup(
                old(run).cache.results(),
                final(run).current@,
            ) == Some(true)),
        !accepted ==> final(run).current@ == old(run).current@ && final(run).queue.contents()
            == old(run).queue.contents() && final(run).reductions == old(run).reductions,
        !accepted ==> final(run).stopped || forall|h: u64|
            #[trigger] final(run).cache.results().contains_key(h) && final(run).cache.results()[h]
                ==> old(run).cache.results().contains_key(h) && old(run).cache.results()[h],
{
    let mut i: usize = 0;
    while i < cands.len()
        invariant
            run.ok(source@),
            names@.len() == cands@.len(),
            forall|x: &[u8]| test.requires((x,)),
            limits.max_tests > 0 ==> run.tests_run <= limits.max_tests,
            run.current@ == old(run).current@,
            run.queue.contents() == old(run).queue.contents(),
            run.reductions == old(run).reductions,
            i <= cands@.len(),
            run.tests_run <= old(run).tests_run + i,
            forall|h: u64| #[trigger] run.cache.results().contains_key(h) && run.cache.results()[h]
                ==> old(run).cache.results().contains_key(h) && old(run).cache.results()[h],
            cache_vouched(*test, run.cache.results()),
        decreases cands@.len() - i,
    {
        if must_stop(&*run, limits, start, interrupted) {
            return false;
        }
        let new_source = match try_replacement(
            run.current.as_slice(),
            &cands[i],
            language,
            run.initial_errors.as_ref(),
        ) {
            Some(s) => s,
            None => {
                i = i + 1;
                continue ;
            },
        };
        if new_source.len() >= run.current.len() {
            i = i + 1;
            continue ;
        }
        let cached = if run.cache.lookups() < u64::MAX - 1 {
            run.cache.get(new_source.as_slice())
        } else {
            None
        };
        let ghost cache_now = run.cache.results();
        let answer: Option<TestResult> = match cached {
            Some(_) => None,
            None => {
                run.tests_run = run.tests_run + 1;
                let verdict = test(new_source.as_slice());
                match &verdict {
                    TestResult::Interesting => {
                        assert(test_answered(*test, new_source@, TestResult::Interesting));
                        run.consecutive_errors = 0;
                        run.cache.put(new_source.as_slice(), true);
                    },
                    TestResult::NotInteresting => {
                        run.consecutive_errors = 0;
                        run.cache.put(new_source.as_slice(), false);
                    },
                    TestResult::Error(msg) => {
                        if run.consecutive_errors < usize::MAX {
                            run.consecutive_errors = run.consecutive_errors + 1;
                        }
                        match progress {
                            Some(p) => p.on_warning(msg.as_str()),
                            None => {},
                        }
                    },
                }
                Some(verdict)
            },
        };
        let interesting = keeps_candidate(cached, &answer);
        report_candidate(progress, names[i].as_str(), &cands[i], interesting);
        if interesting {
            proof {
                if cached is Some {
                    let h = crate::cache::xxh3_64_of(new_source@);
                    assert(cache_now.contains_key(h) && cache_now[h]);
                }
                assert(in_bounds(cands@[i as int], old(run).current@.len()));
            }
            return accept(run, new_source, limits, language, transforms, source, progress);
        }
        i = i + 1;
    }
    false
}

/// Tell the listener, if any, how far the run has come.
fn report_update(progress: Option<&dyn ProgressCallback>, run: &Run, original_size: usize) {
    match progress {
        Some(p) => {
            let stats = ProgressStats {
                original_size,
                current_size: run.current.len(),
                tests_run: run.tests_run,
                reductions: run.reductions,
                cache_hits: run.cache.hits(),
                cache_lookups: run.cache.lookups(),
            };
            p.on_update(&stats);
        },
        None => {},
    }
}

/// Blocks of proposals, one after the other.
pub open spec fn concat_blocks(parts: Seq<Seq<(int, int, Seq<u8>)>>) -> Seq<(int, int, Seq<u8>)>
    decreases parts.len(),
{
    if parts.len() == 0 {
        Seq::empty()
    } else {
        concat_blocks(parts.drop_last()) + parts.last()
    }
}

/// No transform's proposal is lost when the blocks are gathered: every
/// proposal of every block is among the gathered candidates, and the
/// gathered list is as long as all blocks together.
pub proof fn law_every_block_gathered(parts: Seq<Seq<(int, int, Seq<u8>)>>, t: int, j: int)
    requires
        0 <= t < parts.len(),
        0 <= j < parts[t].len(),
    ensures
        concat_blocks(parts).contains(parts[t][j]),
        concat_blocks(parts).len() >= parts[t].len(),
    decreases parts.len(),
{
    let init = concat_blocks(parts.drop_last());
    if t == parts.len() - 1 {
        assert(concat_blocks(parts)[init.len() + j] == parts[t][j]);
    } else {
        law_every_block_gathered(parts.drop_last(), t, j);
        assert(parts.drop_last()[t] == parts[t]);
        let i = choose|i: int| 0 <= i < init.len() && init[i] == parts[t][j];
        assert(concat_blocks(parts)[i] == parts[t][j]);
    }
}

/// The candidates of all transforms for one node, in transform order, with
/// the name of the transform that proposed each. Every transform is asked:
/// the candidates are one block per transform, in transform order (`r.2`
/// holds the blocks), and the block of a transform whose proposals depend on
/// the tree alone is exactly those proposals.
fn gather_candidates(
    transforms: &Vec<Box<dyn Transform>>,
    tree: &SyntaxTree,
    node: usize,
    source: &[u8],
    provider: &dyn SupertypeProvider,
) -> (r: (Vec<Replacement>, Vec<String>, Ghost<Seq<Seq<(int, int, Seq<u8>)>>>))
    requires
        tree.wf(),
        node < tree.nodes@.len(),
        tree.source_len == source@.len(),
    ensures
        r.0@.len() == r.1@.len(),
        r.2@.len() == transforms@.len(),
        rviews(r.0@) == concat_blocks(r.2@),
        forall|t: int|
            0 <= t < transforms@.len() && #[trigger] transforms@[t].proposes_from_tree() ==> r.2@[t]
                == transforms@[t].proposed(*tree, node as int, source@),
{
    let mut cands: Vec<Replacement> = Vec::new();
    let mut names: Vec<String> = Vec::new();
    let ghost mut parts: Seq<Seq<(int, int, Seq<u8>)>> = Seq::empty();
    let mut t: usize = 0;
    proof {
        assert(rviews(cands@) =~= Seq::empty());
    }
    while t < transforms.len()
        invariant
            tree.wf(),
            node < tree.nodes@.len(),
            tree.source_len == source@.len(),
            cands@.len() == names@.len(),
            t <= transforms@.len(),
            parts.len() == t,
            rviews(cands@) == concat_blocks(parts),
            forall|k: int|
                0 <= k < t && #[trigger] transforms@[k].proposes_from_tree() ==> parts[k]
                    == transforms@[k].proposed(*tree, node as int, source@),
        decreases transforms@.len() - t,
    {
        let mut proposed = transforms[t].candidates(tree, node, source, provider);
        let name = transforms[t].name();
        let ghost block = rviews(proposed@);
        let ghost before = cands@;
        let mut k: usize = 0;
        while k < proposed.len()
            invariant
                k <= proposed@.len(),
                names@.len() == cands@.len() + k,
            decreases proposed@.len() - k,
        {
            names.push(String::from_str(name));
            k = k + 1;
        }
        cands.append(&mut proposed);
        proof {
            assert(rviews(cands@) =~= rviews(before) + block);
            assert(parts.push(block).drop_last() =~= parts);
            parts = parts.push(block);
        }
        t = t + 1;
    }
    (cands, names, Ghost(parts))
}

/// Run the reduction with the interestingness test `test`.
///
/// Returns the reduced source, which still passes the test, or the original
/// source if no reduction was possible (or the final check of the reduced
/// source failed).
pub fn reduce_with<F: Fn(&[u8]) -> TestResult>(
    source: &[u8],
    test: &F,
    config: ReducerConfig,
    progress: Option<&dyn ProgressCallback>,
) -> (r: ReducerResult)
    requires
        forall|x: &[u8]| test.requires((x,)),
    ensures
        reduction_outcome(*test, source@, r.source@, r.reductions as nat),
        config.max_tests > 0 ==> r.tests_run <= config.max_tests,
{
    let start = clock_now();
    let ReducerConfig {
        language,
        mut transforms,
        provider,
        max_tests,
        max_time,
        jobs,
        strict,
        max_test_errors,
        interrupted,
    } = config;
    let limits = Limits { max_tests, max_time, max_test_errors, strict };
    let mut original: Vec<u8> = Vec::new();
    crate::validity::push_range(&mut original, source, 0, source.len());
    assert(original@ =~= source@);
    let tree = match crate::parse::parse(source, &language) {
        Some(t) => t,
        None => {
            return ReducerResult {
                source: original,
                tests_run: 0,
                reductions: 0,
                cache_hits: 0,
                cache_lookups: 0,
                elapsed: elapsed_since(&start),
            };
        },
    };
    let initial_errors = known_errors(&tree, source, strict);
    let queue = ReductionQueue::from_tree(&tree);
    let mut run = Run {
        current: original.clone(),
        tree,
        initial_errors,
        queue,
        cache: TestCache::new(),
        tests_run: 0,
        reductions: 0,
        consecutive_errors: 0,
        stopped: false,
    };
    assert(run.current@ =~= original@);
    assert(run.cache.results() =~= Map::<u64, bool>::empty());
    loop
        invariant
            run.ok(source@),
            original@ == source@,
            forall|x: &[u8]| test.requires((x,)),
            limits.max_tests == max_tests,
            max_tests > 0 ==> run.tests_run <= max_tests,
            cache_vouched(*test, run.cache.results()),
            run.reductions > 0 ==> hash_vouched(*test, run.current@),
        decreases run.current@.len(), run.queue.contents().len(),
    {
        if must_stop(&run, &limits, &start, &interrupted) {
            break ;
        }
        let ghost before_len = run.queue.contents().len();
        let entry = match run.queue.pop() {
            Some(e) => e,
            None => break ,
        };
        let found = crate::parse::find_node_at(&run.tree, 0, entry.start_byte, entry.end_byte);
        proof {
            crate::tree::lemma_subtree_end(run.tree.nodes@, 0);
        }
        let node = match found {
            Some(n) => n,
            None => {
                report_update(progress, &run, source.len());
                continue ;
            },
        };
        if run.tree.nodes[node].kind_id != entry.kind_id {
            report_update(progress, &run, source.len());
            continue ;
        }
        let (cands, names, _) = gather_candidates(
            &transforms,
            &run.tree,
            node,
            run.current.as_slice(),
            &*provider,
        );
        let ghost cache_before = run.cache.results();
        let accepted = try_candidates(
            &mut run,
            &cands,
            &names,
            test,
            &limits,
            &start,
            &interrupted,
            &language,
            &mut transforms,
            Ghost(source@),
            progress,
        );
        proof {
            if accepted {
                let cur = run.current@;
                if test_answered(*test, cur, TestResult::Interesting) {
                    assert(hash_vouched(*test, cur));
                } else {
                    let h = crate::cache::xxh3_64_of(cur);
                    assert(cache_before.contains_key(h) && cache_before[h]);
                }
            }
        }
        report_update(progress, &run, source.len());
    }
    let tests_run = run.tests_run;
    let cache_hits = run.cache.hits();
    let cache_lookups = run.cache.lookups();
    let mut result = run.current;
    let mut reductions = run.reductions;
    if result.len() > 0 && !crate::text::bytes_eq(&result, &original) {
        let verdict = test(result.as_slice());
        match verdict {
            TestResult::Interesting => {
                assert(test_answered(*test, result@, TestResult::Interesting));
            },
            _ => {
                result = original;
                reductions = 0;
            },
        }
    }
    ReducerResult {
        source: result,
        tests_run,
        reductions,
        cache_hits,
        cache_lookups,
        elapsed: elapsed_since(&start),
    }
}

/// Run the Perses-style reduction algorithm.
///
/// Returns the reduced source that still passes the interestingness test,
/// or the original source if no reductions were possible. The result is
/// never larger than the input, and each counted reduction removed at least
/// one byte.
pub fn reduce(
    source: &[u8],
    test: &dyn InterestingnessTest,
    config: ReducerConfig,
    progress: Option<&dyn ProgressCallback>,
) -> (r: ReducerResult)
    ensures
        r.source@ == source@ && r.reductions == 0 || {
            &&& r.source@.len() < source@.len()
            &&& r.reductions >= 1
            &&& r.source@.len() + r.reductions <= source@.len()
            &&& test.answers(r.source@, TestResult::Interesting) || (r.source@.len() == 0
                && exists|s: Seq<u8>|
                crate::cache::xxh3_64_of(s) == crate::cache::xxh3_64_of(r.source@)
                    && #[trigger] test.answers(s, TestResult::Interesting))
        },
        config.max_tests > 0 ==> r.tests_run <= config.max_tests,
{
    let oracle = |input: &[u8]| -> (res: TestResult)
        ensures
            test.answers(input@, res),
        { test.test(input) };
    let r = reduce_with(source, &oracle, config, progress);
    proof {
        if test_answered(oracle, r.source@, TestResult::Interesting) {
            let x = choose|x: &[u8]| x@ == r.source@ && call_ensures(oracle, (x,), TestResult::Interesting);
            assert(test.answers(x@, TestResult::Interesting));
        } else if r.source@ != source@ || r.reductions != 0 {
            let s = choose|s: Seq<u8>|
                crate::cache::xxh3_64_of(s) == crate::cache::xxh3_64_of(r.source@) && #[trigger] test_answered(
                    oracle,
                    s,
                    TestResult::Interesting,
                );
            let x = choose|x: &[u8]| x@ == s && call_ensures(oracle, (x,), TestResult::Interesting);
            assert(test.answers(x@, TestResult::Interesting));
        }
    }
    r
}

} // verus!
