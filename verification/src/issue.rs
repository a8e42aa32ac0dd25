//! The uniform issue model: what one linter found, and how one run of one
//! linter ended.

use vstd::prelude::*;
use crate::text::clone_opt_string;

verus! {

/// How serious a finding is.
#[derive(Clone, Copy, Debug, PartialEq, Eq, Structural)]
pub enum Severity {
    Advice,
    Warning,
    Error,
}

/// One finding of one linter.
#[derive(Debug, PartialEq, Eq)]
pub struct LintIssue {
    pub linter: String,
    pub severity: Severity,
    pub path: String,
    pub line: Option<u64>,
    pub column: Option<u64>,
    pub message: String,
    pub code: Option<String>,
    pub replacement: Option<String>,
}

/// The mathematical value of a [`LintIssue`].
pub ghost struct IssueModel {
    pub linter: Seq<char>,
    pub severity: Severity,
    pub path: Seq<char>,
    pub line: Option<u64>,
    pub column: Option<u64>,
    pub message: Seq<char>,
    pub code: Option<Seq<char>>,
    pub replacement: Option<Seq<char>>,
}

impl View for LintIssue {
    type V = IssueModel;

    open spec fn view(&self) -> IssueModel {
        IssueModel {
            linter: self.linter@,
            severity: self.severity,
            path: self.path@,
            line: self.line,
            column: self.column,
            message: self.message@,
            code: self.code.deep_view(),
            replacement: self.replacement.deep_view(),
        }
    }
}

impl DeepView for LintIssue {
    type V = IssueModel;

    open spec fn deep_view(&self) -> IssueModel {
        self@
    }
}

impl Clone for LintIssue {
    fn clone(&self) -> (out: Self)
        ensures
            out == *self,
    {
        LintIssue {
            linter: self.linter.clone(),
            severity: self.severity,
            path: self.path.clone(),
            line: self.line,
            column: self.column,
            message: self.message.clone(),
            code: clone_opt_string(&self.code),
            replacement: clone_opt_string(&self.replacement),
        }
    }
}

/// How one run of one linter ended: with its findings, or with the failure
/// of the process itself. Never both.
#[derive(Debug, PartialEq, Eq)]
pub enum LinterOutcome {
    Issues(Vec<LintIssue>),
    ProcessFailure { exit_code: Option<i32>, stderr: String },
}

/// The mathematical value of a [`LinterOutcome`].
pub ghost enum OutcomeModel {
    Issues(Seq<IssueModel>),
    ProcessFailure { exit_code: Option<i32>, stderr: Seq<char> },
}

impl View for LinterOutcome {
    type V = OutcomeModel;

    open spec fn view(&self) -> OutcomeModel {
        match self {
            LinterOutcome::Issues(issues) => OutcomeModel::Issues(issues.deep_view()),
            LinterOutcome::ProcessFailure { exit_code, stderr } => OutcomeModel::ProcessFailure {
                exit_code: *exit_code,
                stderr: stderr@,
            },
        }
    }
}

impl DeepView for LinterOutcome {
    type V = OutcomeModel;

    open spec fn deep_view(&self) -> OutcomeModel {
        self@
    }
}

/// A copy of a list of issues.
pub fn clone_issues(issues: &Vec<LintIssue>) -> (out: Vec<LintIssue>)
    ensures
        out@ == issues@,
        out.deep_view() == issues.deep_view(),
{
    let mut out: Vec<LintIssue> = Vec::new();
    let mut i: usize = 0;
    while i < issues.len()
        invariant
            i <= issues.len(),
            out@ == issues@.take(i as int),
        decreases issues.len() - i,
    {
        out.push(issues[i].clone());
        i += 1;
    }
    assert(out.deep_view() =~= issues.deep_view());
    out
}

impl Clone for LinterOutcome {
    fn clone(&self) -> (out: Self)
        ensures
            out@ == self@,
    {
        match self {
            LinterOutcome::Issues(issues) => LinterOutcome::Issues(clone_issues(issues)),
            LinterOutcome::ProcessFailure { exit_code, stderr } => LinterOutcome::ProcessFailure {
                exit_code: *exit_code,
                stderr: stderr.clone(),
            },
        }
    }
}

} // verus!
