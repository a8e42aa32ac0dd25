//! The decisions of the execution orchestrator on one linter: how its
//! output is framed into records, and how the run of its process is
//! classified. Starting the process and decoding a record are the caller's
//! part.

use vstd::prelude::*;
use crate::issue::{IssueModel, LintIssue, LinterOutcome, OutcomeModel, Severity};
use crate::report::{entries_of, is_failing, EntryModel};
use crate::text::{clone_opt_string, nonempty_pieces, split_bytes, split_on};

verus! {

/// One record of a linter's output that could be decoded: a finding, not yet
/// attributed to a linter.
#[derive(Debug, PartialEq, Eq)]
pub struct ParsedRecord {
    pub severity: Severity,
    pub path: String,
    pub line: Option<u64>,
    pub column: Option<u64>,
    pub message: String,
    pub code: Option<String>,
    pub replacement: Option<String>,
}

/// One record of a linter's output: decoded, or malformed, with the text of
/// the record and the reason why it could not be decoded.
#[derive(Debug, PartialEq, Eq)]
pub enum Record {
    Parsed(ParsedRecord),
    Malformed { raw: String, reason: String },
}

/// What became of one linter's process: it could not be started, or it ran
/// and ended with an exit code, its output framed into records.
#[derive(Debug, PartialEq, Eq)]
pub enum ProcessRun {
    NotSpawned { error: String },
    Exited { code: i32, records: Vec<Record>, stderr: String },
}

/// The mathematical value of a [`ParsedRecord`].
pub ghost struct ParsedModel {
    pub severity: Severity,
    pub path: Seq<char>,
    pub line: Option<u64>,
    pub column: Option<u64>,
    pub message: Seq<char>,
    pub code: Option<Seq<char>>,
    pub replacement: Option<Seq<char>>,
}

/// The mathematical value of a [`Record`].
pub ghost enum RecordModel {
    Parsed(ParsedModel),
    Malformed { raw: Seq<char>, reason: Seq<char> },
}

/// The mathematical value of a [`ProcessRun`].
pub ghost enum RunModel {
    NotSpawned { error: Seq<char> },
    Exited { code: i32, records: Seq<RecordModel>, stderr: Seq<char> },
}

impl View for ParsedRecord {
    type V = ParsedModel;

    open spec fn view(&self) -> ParsedModel {
        ParsedModel {
            severity: self.severity,
            path: self.path@,
            line: self.line,
            column: self.column,
            message: self.message@,
            code: self.code.deep_view(),
            replacement: self.replacement.deep_view(),
        }
    }
}

impl View for Record {
    type V = RecordModel;

    open spec fn view(&self) -> RecordModel {
        match self {
            Record::Parsed(parsed) => RecordModel::Parsed(parsed@),
            Record::Malformed { raw, reason } => RecordModel::Malformed {
                raw: raw@,
                reason: reason@,
            },
        }
    }
}

impl DeepView for Record {
    type V = RecordModel;

    open spec fn deep_view(&self) -> RecordModel {
        self@
    }
}

impl View for ProcessRun {
    type V = RunModel;

    open spec fn view(&self) -> RunModel {
        match self {
            ProcessRun::NotSpawned { error } => RunModel::NotSpawned { error: error@ },
            ProcessRun::Exited { code, records, stderr } => RunModel::Exited {
                code: *code,
                records: records.deep_view(),
                stderr: stderr@,
            },
        }
    }
}

/// The records that a linter's output frames: the pieces between its line
/// feeds, the empty ones left out.
pub open spec fn framed_records(output: Seq<u8>) -> Seq<Seq<u8>> {
    nonempty_pieces(split_on(output, 10u8))
}

/// Frames a linter's output into records, one per non-empty line. Bytes that
/// are no text stay as they are: a record is decoded later, one by one.
pub fn frame_records(output: &Vec<u8>) -> (records: Vec<Vec<u8>>)
    ensures
        records.deep_view() == framed_records(output@),
{
    let pieces = split_bytes(output, 10u8);
    let mut records: Vec<Vec<u8>> = Vec::new();
    let mut i: usize = 0;
    let ghost keep = |p: Seq<u8>| p.len() > 0;
    proof {
        reveal(Seq::filter);
        assert(pieces.deep_view().take(0).filter(keep) =~= Seq::<Seq<u8>>::empty());
    }
    while i < pieces.len()
        invariant
            i <= pieces.len(),
            keep == |p: Seq<u8>| p.len() > 0,
            records.deep_view() == pieces.deep_view().take(i as int).filter(keep),
        decreases pieces.len() - i,
    {
        proof {
            let done = pieces.deep_view().take(i as int);
            assert(pieces.deep_view().take(i + 1) =~= done.push(pieces.deep_view()[i as int]));
            Seq::lemma_filter_push(done, pieces.deep_view()[i as int], keep);
            assert(pieces[i as int].deep_view() =~= pieces[i as int]@);
        }
        if pieces[i].len() > 0 {
            let ghost before = records.deep_view();
            records.push(pieces[i].clone());
            assert(records.deep_view() =~= before.push(pieces.deep_view()[i as int]));
        }
        i += 1;
    }
    assert(pieces.deep_view().take(i as int) =~= pieces.deep_view());
    records
}

/// The code that marks the issue made of a malformed record.
pub open spec fn parse_error_code() -> Seq<char> {
    "PARSE-ERROR"@
}

/// The message of the issue made of a malformed record: the reason, a colon
/// and a space, and the text of the record.
pub open spec fn parse_error_message(raw: Seq<char>, reason: Seq<char>) -> Seq<char> {
    reason + ": "@ + raw
}

/// The issue that a record of the linter `linter` stands for. A decoded
/// record is attributed to the linter; a malformed one becomes an issue of
/// severity error that names no file.
pub open spec fn issue_of(linter: Seq<char>, record: RecordModel) -> IssueModel {
    match record {
        RecordModel::Parsed(parsed) => IssueModel {
            linter,
            severity: parsed.severity,
            path: parsed.path,
            line: parsed.line,
            column: parsed.column,
            message: parsed.message,
            code: parsed.code,
            replacement: parsed.replacement,
        },
        RecordModel::Malformed { raw, reason } => IssueModel {
            linter,
            severity: Severity::Error,
            path: Seq::empty(),
            line: None,
            column: None,
            message: parse_error_message(raw, reason),
            code: Some(parse_error_code()),
            replacement: None,
        },
    }
}

/// The issues of all records, in the order of the records.
pub open spec fn issues_of(linter: Seq<char>, records: Seq<RecordModel>) -> Seq<IssueModel> {
    records.map_values(|r: RecordModel| issue_of(linter, r))
}

/// Whether at least one record could be decoded.
pub open spec fn has_parsed(records: Seq<RecordModel>) -> bool {
    exists|i: int| 0 <= i < records.len() && #[trigger] records[i] is Parsed
}

/// How the run of the linter `linter` is classified. A process that did not
/// start is a failure without exit code. One that ended with a code other
/// than 0 and gave no record that could be decoded is a failure, and what it
/// printed is dropped. Every other run is classified by its records.
pub open spec fn outcome_of(linter: Seq<char>, run: RunModel) -> OutcomeModel {
    match run {
        RunModel::NotSpawned { error } => OutcomeModel::ProcessFailure {
            exit_code: None,
            stderr: error,
        },
        RunModel::Exited { code, records, stderr } => if code != 0 && !has_parsed(records) {
            OutcomeModel::ProcessFailure { exit_code: Some(code), stderr }
        } else {
            OutcomeModel::Issues(issues_of(linter, records))
        },
    }
}

/// A linter that ends with code 0 has not failed, whatever it printed: its
/// outcome is its issues, and with no record at all, no issue.
pub proof fn lemma_clean_exit_is_no_failure(
    linter: Seq<char>,
    records: Seq<RecordModel>,
    stderr: Seq<char>,
)
    ensures
        outcome_of(linter, RunModel::Exited { code: 0, records, stderr }) is Issues,
        records.len() == 0 ==> outcome_of(linter, RunModel::Exited { code: 0, records, stderr })
            == OutcomeModel::Issues(Seq::empty()),
{
    if records.len() == 0 {
        assert(issues_of(linter, records) =~= Seq::<IssueModel>::empty());
    }
}

/// A linter that could not be started has failed, and its failure is one
/// entry of the aggregated stream, which makes the run fail.
pub proof fn lemma_spawn_failure_is_one_entry(linter: Seq<char>, error: Seq<char>)
    ensures
        outcome_of(linter, RunModel::NotSpawned { error }) == (OutcomeModel::ProcessFailure {
            exit_code: None,
            stderr: error,
        }),
        entries_of(linter, outcome_of(linter, RunModel::NotSpawned { error })) == seq![
            EntryModel::Failure { linter, exit_code: None, stderr: error },
        ],
        is_failing(entries_of(linter, outcome_of(linter, RunModel::NotSpawned { error }))[0]),
{
}

/// Every entry is attributed: whatever the linter `linter` adds to the
/// aggregated stream carries its name.
pub proof fn lemma_entries_are_attributed(linter: Seq<char>, run: RunModel, k: int)
    requires
        0 <= k < entries_of(linter, outcome_of(linter, run)).len(),
    ensures
        match entries_of(linter, outcome_of(linter, run))[k] {
            EntryModel::Finding(issue) => issue.linter == linter,
            EntryModel::Failure { linter: name, .. } => name == linter,
        },
{
}

/// The issue that `record` stands for, attributed to `linter`.
pub fn record_issue(linter: &String, record: &Record) -> (issue: LintIssue)
    ensures
        issue@ == issue_of(linter@, record@),
{
    match record {
        Record::Parsed(parsed) => LintIssue {
            linter: linter.clone(),
            severity: parsed.severity,
            path: parsed.path.clone(),
            line: parsed.line,
            column: parsed.column,
            message: parsed.message.clone(),
            code: clone_opt_string(&parsed.code),
            replacement: clone_opt_string(&parsed.replacement),
        },
        Record::Malformed { raw, reason } => {
            let mut message = reason.clone();
            message.append(": ");
            message.append(raw.as_str());
            LintIssue {
                linter: linter.clone(),
                severity: Severity::Error,
                path: String::new(),
                line: None,
                column: None,
                message,
                code: Some(String::from_str("PARSE-ERROR")),
                replacement: None,
            }
        },
    }
}

/// Whether at least one of `records` could be decoded.
pub fn any_parsed(records: &Vec<Record>) -> (found: bool)
    ensures
        found == has_parsed(records.deep_view()),
{
    let mut i: usize = 0;
    while i < records.len()
        invariant
            i <= records.len(),
            forall|j: int| 0 <= j < i ==> !(#[trigger] records.deep_view()[j] is Parsed),
        decreases records.len() - i,
    {
        match &records[i] {
            Record::Parsed(_) => {
                assert(records.deep_view()[i as int] is Parsed);
                return true;
            },
            Record::Malformed { .. } => {},
        }
        i += 1;
    }
    false
}

/// Classifies the run of the linter `linter`: see [`outcome_of`].
pub fn classify(linter: &String, run: &ProcessRun) -> (outcome: LinterOutcome)
    ensures
        outcome@ == outcome_of(linter@, run@),
{
    match run {
        ProcessRun::NotSpawned { error } => LinterOutcome::ProcessFailure {
            exit_code: None,
            stderr: error.clone(),
        },
        ProcessRun::Exited { code, records, stderr } => {
            if *code != 0 && !any_parsed(records) {
                LinterOutcome::ProcessFailure { exit_code: Some(*code), stderr: stderr.clone() }
            } else {
                let mut issues: Vec<LintIssue> = Vec::new();
                let mut i: usize = 0;
                while i < records.len()
                    invariant
                        i <= records.len(),
                        issues.deep_view() == issues_of(
                            linter@,
                            records.deep_view().take(i as int),
                        ),
                    decreases records.len() - i,
                {
                    let ghost before = issues.deep_view();
                    issues.push(record_issue(linter, &records[i]));
                    assert(issues.deep_view() =~= before.push(
                        issue_of(linter@, records.deep_view()[i as int]),
                    ));
                    assert(issues_of(linter@, records.deep_view().take(i + 1)) =~= before.push(
                        issue_of(linter@, records.deep_view()[i as int]),
                    ));
                    i += 1;
                }
                assert(records.deep_view().take(i as int) =~= records.deep_view());
                LinterOutcome::Issues(issues)
            }
        },
    }
}

} // verus!
