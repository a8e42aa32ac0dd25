//! The aggregated stream: the outcomes of all linters merged into one
//! ordered sequence of entries, and the exit code that the stream calls for.

use vstd::prelude::*;
use crate::issue::{IssueModel, LintIssue, LinterOutcome, OutcomeModel, Severity};

verus! {

/// One entry of the aggregated stream: a finding, or the failure of a
/// linter's process, tagged with that linter's name.
#[derive(Debug, PartialEq, Eq)]
pub enum ReportEntry {
    Finding(LintIssue),
    Failure { linter: String, exit_code: Option<i32>, stderr: String },
}

/// The mathematical value of a [`ReportEntry`].
pub ghost enum EntryModel {
    Finding(IssueModel),
    Failure { linter: Seq<char>, exit_code: Option<i32>, stderr: Seq<char> },
}

impl View for ReportEntry {
    type V = EntryModel;

    open spec fn view(&self) -> EntryModel {
        match self {
            ReportEntry::Finding(issue) => EntryModel::Finding(issue@),
            ReportEntry::Failure { linter, exit_code, stderr } => EntryModel::Failure {
                linter: linter@,
                exit_code: *exit_code,
                stderr: stderr@,
            },
        }
    }
}

impl DeepView for ReportEntry {
    type V = EntryModel;

    open spec fn deep_view(&self) -> EntryModel {
        self@
    }
}

impl Clone for ReportEntry {
    fn clone(&self) -> (out: Self)
        ensures
            out@ == self@,
    {
        match self {
            ReportEntry::Finding(issue) => ReportEntry::Finding(issue.clone()),
            ReportEntry::Failure { linter, exit_code, stderr } => ReportEntry::Failure {
                linter: linter.clone(),
                exit_code: *exit_code,
                stderr: stderr.clone(),
            },
        }
    }
}

/// What the outcome of the linter `linter` adds to the stream: its findings
/// in the order it emitted them, or the one entry for its failure.
pub open spec fn entries_of(linter: Seq<char>, outcome: OutcomeModel) -> Seq<EntryModel> {
    match outcome {
        OutcomeModel::Issues(issues) => issues.map_values(|i: IssueModel| EntryModel::Finding(i)),
        OutcomeModel::ProcessFailure { exit_code, stderr } => seq![
            EntryModel::Failure { linter, exit_code, stderr },
        ],
    }
}

/// What the slot of the linter `linter` adds to the stream: nothing while
/// the linter has no outcome.
pub open spec fn slot_entries(linter: Seq<char>, slot: Option<OutcomeModel>) -> Seq<EntryModel> {
    match slot {
        Some(outcome) => entries_of(linter, outcome),
        None => Seq::empty(),
    }
}

/// The aggregated stream of the linters `names`, whose outcomes stand in
/// `slots` at the same positions: by position first, then in each linter's
/// own order.
pub open spec fn merged(names: Seq<Seq<char>>, slots: Seq<Option<OutcomeModel>>) -> Seq<EntryModel>
    recommends
        names.len() == slots.len(),
    decreases slots.len(),
{
    if slots.len() == 0 {
        Seq::empty()
    } else {
        merged(names.drop_last(), slots.drop_last()) + slot_entries(names.last(), slots.last())
    }
}

/// The aggregator invents nothing: every entry of the stream is an entry of
/// the outcome of one of the linters.
pub proof fn lemma_stream_invents_nothing(
    names: Seq<Seq<char>>,
    slots: Seq<Option<OutcomeModel>>,
    entry: EntryModel,
)
    requires
        names.len() == slots.len(),
        merged(names, slots).contains(entry),
    ensures
        exists|k: int|
            0 <= k < slots.len() && (#[trigger] slots[k]) is Some && entries_of(
                names[k],
                slots[k]->0,
            ).contains(entry),
    decreases slots.len(),
{
    if slots.len() > 0 {
        let front = merged(names.drop_last(), slots.drop_last());
        let back = slot_entries(names.last(), slots.last());
        let at = choose|at: int| 0 <= at < (front + back).len() && (front + back)[at] == entry;
        if at < front.len() {
            assert(front[at] == entry);
            lemma_stream_invents_nothing(names.drop_last(), slots.drop_last(), entry);
            let k = choose|k: int|
                0 <= k < slots.drop_last().len() && (#[trigger] slots.drop_last()[k]) is Some
                    && entries_of(names.drop_last()[k], slots.drop_last()[k]->0).contains(entry);
            assert(slots[k] == slots.drop_last()[k] && names[k] == names.drop_last()[k]);
        } else {
            assert(back[at - front.len()] == entry);
            let k = slots.len() - 1;
            assert(slots[k] is Some);
            assert(entries_of(names[k], slots[k]->0).contains(entry));
        }
    }
}

/// Whether the entry makes the run fail: a finding of severity error, or a
/// process failure.
pub open spec fn is_failing(entry: EntryModel) -> bool {
    match entry {
        EntryModel::Finding(issue) => issue.severity == Severity::Error,
        EntryModel::Failure { .. } => true,
    }
}

/// The exit code that the stream calls for: 1 where an entry is failing,
/// else 0.
pub open spec fn exit_code_of(entries: Seq<EntryModel>) -> int {
    if exists|i: int| 0 <= i < entries.len() && is_failing(#[trigger] entries[i]) {
        1
    } else {
        0
    }
}

/// Appends to `out` what the outcome of the linter `linter` adds to the
/// stream.
pub fn push_entries(out: &mut Vec<ReportEntry>, linter: &String, outcome: &LinterOutcome)
    ensures
        final(out).deep_view() == old(out).deep_view() + entries_of(linter@, outcome@),
{
    match outcome {
        LinterOutcome::Issues(issues) => {
            let mut i: usize = 0;
            while i < issues.len()
                invariant
                    i <= issues.len(),
                    out.deep_view() == old(out).deep_view() + entries_of(
                        linter@,
                        OutcomeModel::Issues(issues.deep_view().take(i as int)),
                    ),
                decreases issues.len() - i,
            {
                let ghost before = out.deep_view();
                out.push(ReportEntry::Finding(issues[i].clone()));
                assert(out.deep_view() =~= before.push(EntryModel::Finding(issues[i as int]@)));
                assert(entries_of(
                    linter@,
                    OutcomeModel::Issues(issues.deep_view().take(i + 1)),
                ) =~= entries_of(
                    linter@,
                    OutcomeModel::Issues(issues.deep_view().take(i as int)),
                ).push(EntryModel::Finding(issues[i as int]@)));
                i += 1;
            }
            assert(issues.deep_view().take(issues.len() as int) =~= issues.deep_view());
        },
        LinterOutcome::ProcessFailure { exit_code, stderr } => {
            let ghost before = out.deep_view();
            out.push(
                ReportEntry::Failure {
                    linter: linter.clone(),
                    exit_code: *exit_code,
                    stderr: stderr.clone(),
                },
            );
            assert(out.deep_view() =~= before + entries_of(linter@, outcome@));
        },
    }
}

/// The aggregated stream of the linters `names` with the outcomes `slots`.
pub(crate) fn merge_outcomes(names: &Vec<String>, slots: &Vec<Option<LinterOutcome>>) -> (out: Vec<
    ReportEntry,
>)
    requires
        names.len() == slots.len(),
    ensures
        out.deep_view() == merged(names.deep_view(), slots.deep_view()),
{
    let mut out: Vec<ReportEntry> = Vec::new();
    let mut k: usize = 0;
    assert(out.deep_view() =~= Seq::<EntryModel>::empty());
    while k < slots.len()
        invariant
            k <= slots.len(),
            names.len() == slots.len(),
            out.deep_view() == merged(
                names.deep_view().take(k as int),
                slots.deep_view().take(k as int),
            ),
        decreases slots.len() - k,
    {
        proof {
            assert(names.deep_view().take(k + 1).drop_last() =~= names.deep_view().take(k as int));
            assert(slots.deep_view().take(k + 1).drop_last() =~= slots.deep_view().take(k as int));
        }
        match &slots[k] {
            Some(outcome) => {
                push_entries(&mut out, &names[k], outcome);
            },
            None => {
                assert(out.deep_view() + Seq::<EntryModel>::empty() =~= out.deep_view());
            },
        }
        k += 1;
    }
    assert(names.deep_view().take(k as int) =~= names.deep_view());
    assert(slots.deep_view().take(k as int) =~= slots.deep_view());
    out
}

/// The exit code of the run: 0 if and only if no finding has severity error
/// and no process failed; else 1.
pub fn exit_code(entries: &Vec<ReportEntry>) -> (code: i32)
    ensures
        code == exit_code_of(entries.deep_view()),
        code == 0 || code == 1,
        code == 0 <==> forall|i: int|
            0 <= i < entries.len() ==> !is_failing(#[trigger] entries.deep_view()[i]),
{
    let mut i: usize = 0;
    while i < entries.len()
        invariant
            i <= entries.len(),
            forall|j: int| 0 <= j < i ==> !is_failing(#[trigger] entries.deep_view()[j]),
        decreases entries.len() - i,
    {
        let failing = match &entries[i] {
            ReportEntry::Finding(issue) => match issue.severity {
                Severity::Error => true,
                _ => false,
            },
            ReportEntry::Failure { .. } => true,
        };
        if failing {
            assert(is_failing(entries.deep_view()[i as int]));
            return 1;
        }
        i += 1;
    }
    0
}

} // verus!
