use vstd::prelude::*;

use crate::filter::{str_eq, FileTagFilter, FilenameFilter};
use crate::hook::{strs, Hook};

verus! {

broadcast use vstd::seq_lib::group_seq_properties;

/// Whether `skips` names the hook by id or by alias.
pub fn is_skipped(hook: &Hook, skips: &[String]) -> (r: bool)
    ensures
        r == (strs(skips@).contains(hook.id@) || strs(skips@).contains(hook.alias@)),
{
    let ghost v = strs(skips@);
    let mut i: usize = 0;
    while i < skips.len()
        invariant
            0 <= i <= skips.len(),
            v == strs(skips@),
            forall|j: int| 0 <= j < i ==> v[j] != hook.id@ && v[j] != hook.alias@,
        decreases skips.len() - i,
    {
        if str_eq(skips[i].as_str(), hook.id.as_str()) || str_eq(skips[i].as_str(), hook.alias.as_str()) {
            assert(v[i as int] == skips@[i as int]@);
            return true;
        }
        i = i + 1;
    }
    proof {
        if v.contains(hook.id@) {
            let j = choose|j: int| 0 <= j < v.len() && v[j] == hook.id@;
            assert(v[j] != hook.id@);
        }
        if v.contains(hook.alias@) {
            let j = choose|j: int| 0 <= j < v.len() && v[j] == hook.alias@;
            assert(v[j] != hook.alias@);
        }
    }
    false
}

/// The files of `filenames` that `filter` selects, in order.
pub fn select_by_name(filter: &FilenameFilter, filenames: &[String]) -> (r: Vec<String>)
    ensures
        strs(r@) == strs(filenames@).filter(|f: Seq<char>| filter.selects(f)),
{
    let ghost pred = |f: Seq<char>| filter.selects(f);
    let mut r: Vec<String> = Vec::new();
    let mut i: usize = 0;
    while i < filenames.len()
        invariant
            0 <= i <= filenames.len(),
            pred == (|f: Seq<char>| filter.selects(f)),
            strs(r@) == strs(filenames@).take(i as int).filter(pred),
        decreases filenames.len() - i,
    {
        let ghost before = strs(filenames@).take(i as int);
        assert(strs(filenames@).take(i + 1) == before.push(filenames@[i as int]@));
        proof {
            before.lemma_filter_push(filenames@[i as int]@, pred);
        }
        if filter.filter(filenames[i].as_str()) {
            r.push(filenames[i].clone());
            assert(strs(r@) == before.filter(pred).push(filenames@[i as int]@));
        }
        i = i + 1;
    }
    assert(strs(filenames@).take(filenames.len() as int) == strs(filenames@));
    r
}

/// Whether a file whose classification gave `tags` passes `filter`; a file
/// that could not be classified is left out.
pub open spec fn tag_kept<'a>(filter: FileTagFilter<'a>, tags: Option<Vec<&'a str>>) -> bool {
    match tags {
        Some(t) => filter.selects(t@.map_values(|x: &str| x@)),
        None => false,
    }
}

/// The files `files[i]` for which `keep[i]` holds, in order.
pub open spec fn kept(files: Seq<Seq<char>>, keep: Seq<bool>) -> Seq<Seq<char>>
    decreases files.len(),
{
    if files.len() == 0 || keep.len() == 0 {
        Seq::empty()
    } else if keep.last() {
        kept(files.drop_last(), keep.drop_last()).push(files.last())
    } else {
        kept(files.drop_last(), keep.drop_last())
    }
}

/// The files of `filenames` whose tags (`tags[i]` for `filenames[i]`, `None`
/// where classification failed) pass `filter`, in order.
pub fn select_by_tags<'a>(
    filter: &FileTagFilter<'a>,
    filenames: Vec<String>,
    tags: &[Option<Vec<&'a str>>],
) -> (r: Vec<String>)
    requires
        tags.len() == filenames.len(),
    ensures
        strs(r@) == kept(
            strs(filenames@),
            Seq::new(tags@.len(), |i: int| tag_kept(*filter, tags@[i])),
        ),
{
    let ghost keep = Seq::new(tags@.len(), |i: int| tag_kept(*filter, tags@[i]));
    let mut r: Vec<String> = Vec::new();
    let mut i: usize = 0;
    while i < filenames.len()
        invariant
            0 <= i <= filenames.len(),
            tags.len() == filenames.len(),
            keep == Seq::new(tags@.len(), |i: int| tag_kept(*filter, tags@[i])),
            strs(r@) == kept(strs(filenames@).take(i as int), keep.take(i as int)),
        decreases filenames.len() - i,
    {
        let ok = match &tags[i] {
            Some(t) => filter.filter(t.as_slice()),
            None => false,
        };
        assert(ok == keep[i as int]);
        assert(strs(filenames@).take(i + 1).drop_last() == strs(filenames@).take(i as int));
        assert(keep.take(i + 1).drop_last() == keep.take(i as int));
        if ok {
            r.push(filenames[i].clone());
        }
        i = i + 1;
    }
    assert(strs(filenames@).take(filenames.len() as int) == strs(filenames@));
    assert(keep.take(filenames.len() as int) == keep);
    r
}

/// Whether a hook is skipped for want of files: nothing was selected and it
/// is not marked to always run.
pub fn skip_for_no_files(hook: &Hook, selected: &Vec<String>) -> (r: bool)
    ensures
        r == (selected.len() == 0 && !hook.always_run),
{
    selected.len() == 0 && !hook.always_run
}

/// Byte-wise equality of two diff snapshots.
fn bytes_eq(a: &[u8], b: &[u8]) -> (r: bool)
    ensures
        r == (a@ == b@),
{
    if a.len() != b.len() {
        return false;
    }
    let mut i: usize = 0;
    while i < a.len()
        invariant
            0 <= i <= a.len(),
            a.len() == b.len(),
            forall|j: int| 0 <= j < i ==> a@[j] == b@[j],
        decreases a.len() - i,
    {
        if a[i] != b[i] {
            return false;
        }
        i = i + 1;
    }
    assert(a@ =~= b@);
    true
}

/// How a hook that ran came out.
#[derive(PartialEq, Eq, Structural, Clone, Copy, Debug)]
pub struct HookOutcome {
    pub success: bool,
    pub files_modified: bool,
}

/// The outcome of a hook that exited with `status`, given the working-tree
/// diff before and after it ran: it modified files when the diffs differ, and
/// succeeded when it exited with zero and modified nothing.
pub fn hook_outcome(status: i32, old_diff: &[u8], new_diff: &[u8]) -> (r: HookOutcome)
    ensures
        r.files_modified == (old_diff@ != new_diff@),
        r.success == (status == 0 && old_diff@ == new_diff@),
{
    let modified = !bytes_eq(old_diff, new_diff);
    HookOutcome { success: status == 0 && !modified, files_modified: modified }
}

/// A hook whose batches all exit with zero but which changed the working tree
/// is reported failed, with the notice that it modified files.
pub proof fn lemma_modifying_hook_fails(old_diff: Seq<u8>, new_diff: Seq<u8>, r: HookOutcome)
    requires
        old_diff != new_diff,
        r.files_modified == (old_diff != new_diff),
        r.success == (0i32 == 0 && old_diff == new_diff),
    ensures
        !r.success,
        r.files_modified,
{
}

/// Which parts of a hook's report are shown.
#[derive(PartialEq, Eq, Structural, Clone, Copy, Debug)]
pub struct ReportShape {
    /// `Passed` rather than `Failed`.
    pub passed: bool,
    /// The hook id, then the lines below that apply.
    pub details: bool,
    pub duration: bool,
    pub exit_code: bool,
    pub modified_notice: bool,
    /// The captured output, where it is not empty.
    pub output: bool,
}

/// What a hook's report shows: details on failure or in verbose mode, the
/// duration in verbose mode only, the exit code where it is not zero, and the
/// modification notice where files changed.
pub fn report_shape(outcome: HookOutcome, status: i32, verbose: bool, hook_verbose: bool) -> (r:
    ReportShape)
    ensures
        r.passed == outcome.success,
        r.details == (verbose || hook_verbose || !outcome.success),
        r.duration == (r.details && (verbose || hook_verbose)),
        r.exit_code == (r.details && status != 0),
        r.modified_notice == (r.details && outcome.files_modified),
        r.output == r.details,
{
    let details = verbose || hook_verbose || !outcome.success;
    ReportShape {
        passed: outcome.success,
        details,
        duration: details && (verbose || hook_verbose),
        exit_code: details && status != 0,
        modified_notice: details && outcome.files_modified,
        output: details,
    }
}

/// What the run does next.
#[derive(PartialEq, Eq, Structural, Clone, Copy, Debug)]
pub enum Step {
    /// Run the hook at this position.
    Run(usize),
    /// Stop; the run succeeded or not.
    Finish(bool),
}

/// Sequences hooks one at a time in configured order, folding their results
/// into the run's result and stopping early under fail-fast. It holds the
/// current working-tree diff, against which each hook's effect is judged.
pub struct RunSequencer {
    diff: Vec<u8>,
    count: usize,
    fail_fast: bool,
    success: bool,
    next: usize,
    stopped: bool,
    results: Ghost<Seq<bool>>,
}

/// Whether every recorded hook succeeded.
pub open spec fn all_passed(results: Seq<bool>) -> bool {
    forall|i: int| 0 <= i < results.len() ==> #[trigger] results[i]
}

impl RunSequencer {
    /// Results of the hooks run so far, in order.
    pub closed spec fn results(&self) -> Seq<bool> {
        self.results@
    }

    /// The working-tree diff after the last hook that ran.
    pub closed spec fn current_diff(&self) -> Seq<u8> {
        self.diff@
    }

    pub closed spec fn count(&self) -> nat {
        self.count as nat
    }

    pub closed spec fn global_fail_fast(&self) -> bool {
        self.fail_fast
    }

    /// Whether the run stopped early under fail-fast.
    pub closed spec fn stopped(&self) -> bool {
        self.stopped
    }

    pub closed spec fn wf(&self) -> bool {
        &&& self.next == self.results@.len()
        &&& self.next <= self.count
        &&& self.success == all_passed(self.results@)
        &&& self.stopped ==> !self.success
    }

    /// The step that follows the current state.
    pub open spec fn step_spec(&self) -> Step {
        if self.stopped() || self.results().len() >= self.count() {
            Step::Finish(all_passed(self.results()))
        } else {
            Step::Run(self.results().len() as usize)
        }
    }

    /// A run over `count` hooks; `fail_fast` stops after any failure;
    /// `initial_diff` is the working-tree diff before the first hook.
    pub fn new(count: usize, fail_fast: bool, initial_diff: Vec<u8>) -> (r: Self)
        ensures
            r.wf(),
            r.current_diff() == initial_diff@,
            r.results() == Seq::<bool>::empty(),
            r.count() == count,
            r.global_fail_fast() == fail_fast,
            !r.stopped(),
    {
        RunSequencer {
            diff: initial_diff,
            count,
            fail_fast,
            success: true,
            next: 0,
            stopped: false,
            results: Ghost(Seq::empty()),
        }
    }

    /// The next hook to run, or the run's result: success exactly when every
    /// hook that ran succeeded.
    pub fn next_step(&self) -> (r: Step)
        requires
            self.wf(),
        ensures
            r == self.step_spec(),
    {
        if self.stopped || self.next >= self.count {
            Step::Finish(self.success)
        } else {
            Step::Run(self.next)
        }
    }

    /// Records how the hook that `next_step` named came out, where it left the
    /// working tree as it found it (a skipped hook); `hook_fail_fast` is that
    /// hook's own fail-fast flag.
    pub fn record(&mut self, hook_success: bool, hook_fail_fast: bool)
        requires
            old(self).wf(),
            old(self).step_spec() is Run,
        ensures
            final(self).wf(),
            final(self).results() == old(self).results().push(hook_success),
            final(self).count() == old(self).count(),
            final(self).global_fail_fast() == old(self).global_fail_fast(),
            final(self).current_diff() == old(self).current_diff(),
            final(self).stopped() == (!all_passed(final(self).results()) && (
            old(self).global_fail_fast() || hook_fail_fast)),
    {
        let ghost before = self.results@;
        self.success = self.success && hook_success;
        self.next = self.next + 1;
        self.results = Ghost(self.results@.push(hook_success));
        assert(self.results@.drop_last() == before);
        proof {
            if !hook_success {
                assert(!self.results@[before.len() as int]);
            }
            if all_passed(before) && hook_success {
                assert forall|i: int| 0 <= i < self.results@.len() implies #[trigger] self.results@[i] by {
                    if i < before.len() {
                        assert(self.results@[i] == before[i]);
                    }
                }
            }
            if !all_passed(before) {
                let i = choose|i: int| 0 <= i < before.len() && !before[i];
                assert(self.results@[i] == before[i]);
            }
        }
        self.stopped = !self.success && (self.fail_fast || hook_fail_fast);
    }
}

impl RunSequencer {
    /// Records a hook that ran, exiting with `status` and leaving the working
    /// tree with diff `new_diff`: it modified files when `new_diff` differs from
    /// the current diff, and succeeded when it exited with zero and modified
    /// nothing. `new_diff` becomes the current diff.
    pub fn finish_hook(&mut self, status: i32, new_diff: Vec<u8>, hook_fail_fast: bool) -> (r:
        HookOutcome)
        requires
            old(self).wf(),
            old(self).step_spec() is Run,
        ensures
            r.files_modified == (old(self).current_diff() != new_diff@),
            r.success == (status == 0 && old(self).current_diff() == new_diff@),
            final(self).wf(),
            final(self).current_diff() == new_diff@,
            final(self).results() == old(self).results().push(r.success),
            final(self).count() == old(self).count(),
            final(self).global_fail_fast() == old(self).global_fail_fast(),
            final(self).stopped() == (!all_passed(final(self).results()) && (
            old(self).global_fail_fast() || hook_fail_fast)),
    {
        let outcome = hook_outcome(status, self.diff.as_slice(), new_diff.as_slice());
        self.record(outcome.success, hook_fail_fast);
        self.diff = new_diff;
        outcome
    }
}

/// Once a hook fails and fail-fast applies to it (its own flag or the run's),
/// no further hook runs and the run fails.
pub proof fn lemma_fail_fast_stops(before: RunSequencer, after: RunSequencer, hook_fail_fast: bool)
    requires
        before.wf(),
        after.wf(),
        after.results() == before.results().push(false),
        after.stopped() == (!all_passed(after.results()) && (before.global_fail_fast()
            || hook_fail_fast)),
        before.global_fail_fast() || hook_fail_fast,
    ensures
        after.step_spec() == Step::Finish(false),
{
    assert(!after.results()[before.results().len() as int]);
}

/// The run's result is success exactly when every hook that ran succeeded.
pub proof fn lemma_result_is_conjunction(s: RunSequencer, b: bool)
    requires
        s.wf(),
        s.step_spec() == Step::Finish(b),
    ensures
        b == all_passed(s.results()),
{
}

} // verus!
