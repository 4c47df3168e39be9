//! Driving a policy patch against the kernel, one statement at a time.
//!
//! The kernel is not called from here. [`PatchRun::next`] says which statement
//! to submit, the caller submits it and hands the kernel's verdict to
//! [`PatchRun::record`]. Nothing is rolled back: what the kernel accepted
//! stays accepted. A statement that the kernel refuses is noted and the run
//! goes on; a statement that does not parse ends the run.
use crate::bytes::{copy_range, pieces, rows, split, Delim};
use crate::sepolicy::{check, parse, PolicyError, Statement};
use vstd::prelude::*;

verus! {

/// A line that holds a statement: not blank, and not a comment, which is a
/// line whose first token begins with `#`.
pub open spec fn is_statement_line(line: Seq<u8>) -> bool {
    let tokens = pieces(line, Delim::Blank);
    tokens.len() > 0 && !(tokens[0].len() > 0 && tokens[0][0] == 35)
}

pub open spec fn statement_lines() -> spec_fn(Seq<u8>) -> bool {
    |line: Seq<u8>| is_statement_line(line)
}

/// The statements of a text whose statements are separated by `by`.
pub open spec fn statements_of(text: Seq<u8>, by: Delim) -> Seq<Seq<u8>> {
    pieces(text, by).filter(statement_lines())
}

pub fn holds_statement(line: &[u8]) -> (yes: bool)
    ensures
        yes == is_statement_line(line@),
{
    let tokens = split(line, Delim::Blank);
    if tokens.len() == 0 {
        return false;
    }
    assert(rows(tokens@)[0] == tokens@[0]@);
    let first = &tokens[0];
    !(first.len() > 0 && first[0] == 35)
}

fn split_statements(text: &[u8], by: Delim) -> (out: Vec<Vec<u8>>)
    ensures
        rows(out@) == statements_of(text@, by),
{
    let lines = split(text, by);
    let ghost all = rows(lines@);
    let mut out: Vec<Vec<u8>> = Vec::new();
    let mut i: usize = 0;
    proof {
        reveal(Seq::filter);
        assert(all.take(0).filter(statement_lines()) =~= Seq::<Seq<u8>>::empty());
        assert(rows(out@) =~= Seq::<Seq<u8>>::empty());
    }
    while i < lines.len()
        invariant
            i <= lines@.len(),
            all == rows(lines@),
            rows(out@) == all.take(i as int).filter(statement_lines()),
        decreases lines.len() - i,
    {
        let line = &lines[i];
        proof {
            assert(all[i as int] == line@);
            assert(all.take(i + 1) =~= all.take(i as int).push(line@));
            all.take(i as int).lemma_filter_push(line@, statement_lines());
        }
        if holds_statement(line.as_slice()) {
            let copy = copy_range(line.as_slice(), 0, line.len());
            assert(copy@ =~= line@);
            let ghost before = rows(out@);
            out.push(copy);
            assert(rows(out@) =~= before.push(line@));
        }
        i += 1;
    }
    proof {
        assert(all.take(i as int) =~= all);
    }
    out
}

/// The statements of a patch file: its lines, without the blank lines and the
/// comment lines.
pub fn file_statements(content: &[u8]) -> (out: Vec<Vec<u8>>)
    ensures
        rows(out@) == statements_of(content@, Delim::Line),
{
    split_statements(content, Delim::Line)
}

/// The statements of a patch given in one string, where a semicolon separates
/// statements as a line break does.
pub fn inline_statements(text: &[u8]) -> (out: Vec<Vec<u8>>)
    ensures
        rows(out@) == statements_of(text@, Delim::Statement),
{
    split_statements(text, Delim::Statement)
}

/// What the kernel said to one statement.
#[derive(Clone, Copy, PartialEq, Eq, Structural, Debug)]
pub enum Verdict {
    Applied,
    Rejected,
}

/// How a run ended, or how far it has come.
#[derive(Clone, Copy, PartialEq, Eq, Structural, Debug)]
pub struct ApplyReport {
    /// How many statements the kernel has accepted.
    pub applied: usize,
    /// The first failure of the run.
    pub first_error: Option<PolicyError>,
}

/// A run over a patch. `cursor` is the position of the statement that is
/// submitted next; a halted run submits nothing more.
#[derive(Clone, Copy, PartialEq, Eq, Structural, Debug)]
pub struct PatchRun {
    pub cursor: usize,
    pub report: ApplyReport,
    pub halted: bool,
}

/// What the caller does next.
#[derive(Debug)]
pub enum PatchAction {
    /// Hand this statement to the kernel, then call [`PatchRun::record`].
    Submit(Statement),
    /// The run is over.
    Finish(ApplyReport),
}

/// The report with `error` noted, unless a failure was noted before.
pub open spec fn noting(report: ApplyReport, error: PolicyError) -> ApplyReport {
    if report.first_error is None {
        ApplyReport { applied: report.applied, first_error: Some(error) }
    } else {
        report
    }
}

/// The run before anything was submitted. Where the kernel offers no live
/// patching the run is over at once.
pub open spec fn begun(supported: bool) -> PatchRun {
    PatchRun {
        cursor: 0,
        report: ApplyReport {
            applied: 0,
            first_error: if supported {
                None
            } else {
                Some(PolicyError::NotSupported)
            },
        },
        halted: !supported,
    }
}

impl PatchRun {
    /// No more statements were accepted than were submitted, and no more
    /// submitted than the patch holds.
    pub open spec fn wf(self, patch: Seq<Seq<u8>>) -> bool {
        self.report.applied <= self.cursor <= patch.len()
    }

    pub open spec fn finished(self, patch: Seq<Seq<u8>>) -> bool {
        self.halted || self.cursor >= patch.len()
    }

    /// The run after it has looked at the statement under the cursor: a
    /// malformed one halts it.
    pub open spec fn looked(self, patch: Seq<Seq<u8>>) -> PatchRun {
        if self.finished(patch) || parse(patch[self.cursor as int]) is Some {
            self
        } else {
            PatchRun {
                cursor: self.cursor,
                report: noting(self.report, PolicyError::ParseError { index: self.cursor }),
                halted: true,
            }
        }
    }

    /// The run after the kernel's verdict on the statement under the cursor.
    pub open spec fn recorded(self, patch: Seq<Seq<u8>>, verdict: Verdict) -> PatchRun {
        if self.finished(patch) {
            self
        } else {
            match verdict {
                Verdict::Applied => PatchRun {
                    cursor: (self.cursor + 1) as usize,
                    report: ApplyReport {
                        applied: (self.report.applied + 1) as usize,
                        first_error: self.report.first_error,
                    },
                    halted: false,
                },
                Verdict::Rejected => PatchRun {
                    cursor: (self.cursor + 1) as usize,
                    report: noting(
                        self.report,
                        PolicyError::KernelPolicyError { index: self.cursor },
                    ),
                    halted: false,
                },
            }
        }
    }

    /// Starts a run. `supported` is what the kernel answered when asked
    /// whether it offers live patching.
    pub fn begin(supported: bool) -> (run: PatchRun)
        ensures
            run == begun(supported),
            forall|patch: Seq<Seq<u8>>| run.wf(patch),
    {
        PatchRun {
            cursor: 0,
            report: ApplyReport {
                applied: 0,
                first_error: if supported {
                    None
                } else {
                    Some(PolicyError::NotSupported)
                },
            },
            halted: !supported,
        }
    }

    /// Says what to do next. While statements are left and none was
    /// malformed, that is to submit the statement under the cursor; otherwise
    /// the run is over and the report is final.
    pub fn next(&mut self, patch: &Vec<Vec<u8>>) -> (action: PatchAction)
        requires
            old(self).wf(rows(patch@)),
        ensures
            *final(self) == old(self).looked(rows(patch@)),
            final(self).wf(rows(patch@)),
            match action {
                PatchAction::Finish(report) => final(self).finished(rows(patch@)) && report
                    == final(self).report,
                PatchAction::Submit(statement) => !final(self).finished(rows(patch@)) && Some(
                    statement@,
                ) == parse(rows(patch@)[old(self).cursor as int]),
            },
    {
        if self.halted || self.cursor >= patch.len() {
            return PatchAction::Finish(self.report);
        }
        assert(rows(patch@)[self.cursor as int] == patch@[self.cursor as int]@);
        match check(patch[self.cursor].as_slice()) {
            Ok(statement) => PatchAction::Submit(statement),
            Err(_) => {
                if self.report.first_error.is_none() {
                    self.report.first_error = Some(PolicyError::ParseError { index: self.cursor });
                }
                self.halted = true;
                PatchAction::Finish(self.report)
            },
        }
    }

    /// Takes the kernel's verdict on the statement that [`PatchRun::next`]
    /// handed out, and moves on to the statement after it. A refusal is noted
    /// as the run's failure if it is the first. On a finished run nothing
    /// changes.
    pub fn record(&mut self, patch: &Vec<Vec<u8>>, verdict: Verdict)
        requires
            old(self).wf(rows(patch@)),
        ensures
            *final(self) == old(self).recorded(rows(patch@), verdict),
            final(self).wf(rows(patch@)),
    {
        if self.halted || self.cursor >= patch.len() {
            return ;
        }
        match verdict {
            Verdict::Applied => {
                self.report.applied = self.report.applied + 1;
            },
            Verdict::Rejected => {
                if self.report.first_error.is_none() {
                    self.report.first_error = Some(
                        PolicyError::KernelPolicyError { index: self.cursor },
                    );
                }
            },
        }
        self.cursor = self.cursor + 1;
    }
}

/// The report of a whole run from `run` on, where `verdicts[i]` is what the
/// kernel says to the statement at position `i` if it is submitted.
pub open spec fn driven(patch: Seq<Seq<u8>>, verdicts: Seq<Verdict>, run: PatchRun) -> ApplyReport
    decreases patch.len() - run.cursor,
    when patch.len() <= usize::MAX
{
    let seen = run.looked(patch);
    if seen.finished(patch) {
        seen.report
    } else {
        driven(patch, verdicts, seen.recorded(patch, verdicts[seen.cursor as int]))
    }
}

/// The report of applying `patch`, see [`driven`].
pub open spec fn applied(patch: Seq<Seq<u8>>, supported: bool, verdicts: Seq<Verdict>)
    -> ApplyReport {
    driven(patch, verdicts, begun(supported))
}

/// Applies a patch where the kernel's verdicts are known beforehand:
/// `verdicts[i]` answers the statement at position `i`. Verdicts on statements
/// that are never submitted play no part.
pub fn apply(patch: &Vec<Vec<u8>>, supported: bool, verdicts: &Vec<Verdict>) -> (report:
    ApplyReport)
    requires
        verdicts@.len() == patch@.len(),
    ensures
        report == applied(rows(patch@), supported, verdicts@),
{
    let mut run = PatchRun::begin(supported);
    let total: usize = patch.len();
    assert(rows(patch@).len() == total);
    loop
        invariant
            run.wf(rows(patch@)),
            verdicts@.len() == patch@.len(),
            rows(patch@).len() <= usize::MAX,
            driven(rows(patch@), verdicts@, run) == applied(rows(patch@), supported, verdicts@),
        decreases patch@.len() - run.cursor,
    {
        match run.next(patch) {
            PatchAction::Finish(report) => {
                return report;
            },
            PatchAction::Submit(_) => {
                run.record(patch, verdicts[run.cursor]);
            },
        }
    }
}

/// Applies the statements of a patch file, see [`apply`]: `verdicts` holds
/// one verdict for each statement line of the file.
pub fn apply_from_file(content: &[u8], supported: bool, verdicts: &Vec<Verdict>) -> (report:
    ApplyReport)
    requires
        verdicts@.len() == statements_of(content@, Delim::Line).len(),
    ensures
        report == applied(statements_of(content@, Delim::Line), supported, verdicts@),
{
    let patch = file_statements(content);
    apply(&patch, supported, verdicts)
}

/// A run that meets a malformed statement after a stretch of well-formed
/// statements that the kernel accepts ends there: it has applied the stretch
/// and nothing after it, and the failure it reports, if it had none before, is
/// the parse error at the malformed statement.
pub proof fn lemma_run_stops_at_malformed(
    patch: Seq<Seq<u8>>,
    verdicts: Seq<Verdict>,
    run: PatchRun,
    k: int,
)
    requires
        run.wf(patch),
        !run.halted,
        run.cursor <= k < patch.len(),
        patch.len() <= usize::MAX,
        verdicts.len() == patch.len(),
        forall|i: int| run.cursor <= i < k ==> parse(#[trigger] patch[i]) is Some,
        forall|i: int| run.cursor <= i < k ==> #[trigger] verdicts[i] == Verdict::Applied,
        parse(patch[k]) is None,
    ensures
        driven(patch, verdicts, run) == noting(
            ApplyReport {
                applied: (run.report.applied + (k - run.cursor)) as usize,
                first_error: run.report.first_error,
            },
            PolicyError::ParseError { index: k as usize },
        ),
    decreases k - run.cursor,
{
    if run.cursor == k {
    } else {
        assert(parse(patch[run.cursor as int]) is Some);
        assert(verdicts[run.cursor as int] == Verdict::Applied);
        let step = run.looked(patch).recorded(patch, verdicts[run.cursor as int]);
        lemma_run_stops_at_malformed(patch, verdicts, step, k);
    }
}

/// Where the first malformed statement of a patch stands at position `k` and
/// the kernel accepts every statement before it, applying the patch applies
/// exactly the `k` statements before it and reports the parse error at `k`.
pub proof fn law_apply_stops_at_first_malformed(
    patch: Seq<Seq<u8>>,
    verdicts: Seq<Verdict>,
    k: int,
)
    requires
        0 <= k < patch.len(),
        patch.len() <= usize::MAX,
        verdicts.len() == patch.len(),
        forall|i: int| 0 <= i < k ==> parse(#[trigger] patch[i]) is Some,
        forall|i: int| 0 <= i < k ==> #[trigger] verdicts[i] == Verdict::Applied,
        parse(patch[k]) is None,
    ensures
        applied(patch, true, verdicts) == (ApplyReport {
            applied: k as usize,
            first_error: Some(PolicyError::ParseError { index: k as usize }),
        }),
{
    lemma_run_stops_at_malformed(patch, verdicts, begun(true), k);
}

/// A kernel without live patching gets nothing submitted: the report is
/// `NotSupported` with nothing applied, whatever the patch holds.
pub proof fn law_unsupported_applies_nothing(patch: Seq<Seq<u8>>, verdicts: Seq<Verdict>)
    requires
        patch.len() <= usize::MAX,
    ensures
        applied(patch, false, verdicts) == (ApplyReport {
            applied: 0,
            first_error: Some(PolicyError::NotSupported),
        }),
{
}

/// A finished run stays as it is, whatever is recorded or asked of it.
pub proof fn law_finished_run_is_final(patch: Seq<Seq<u8>>, run: PatchRun, verdict: Verdict)
    requires
        run.finished(patch),
        patch.len() <= usize::MAX,
    ensures
        run.looked(patch) == run,
        run.recorded(patch, verdict) == run,
        driven(patch, seq![verdict], run) == run.report,
{
}

} // verus!
