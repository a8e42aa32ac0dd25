//! What one invocation asks for: from the options as the command line gave
//! them to the parameters that the run works with, and from the stream of
//! a finished run to what is shown, written and returned.

use vstd::prelude::*;
use crate::ledger::{Ledger, LedgerEntry, LedgerError};
use crate::patch::{plan_patches, planned_conflicts, planned_writes, PatchPlan};
use crate::paths::{PathSelector, RevisionSelector, SelectorModel, RevisionModel};
use crate::registry::parse_names;
use crate::render::{json_all, render_run, rendered, RenderFormat, Rendering};
use crate::report::{exit_code, exit_code_of, ReportEntry};
use crate::text::split_on;

verus! {

/// What the invocation is to do.
#[derive(Clone, Copy, Debug, PartialEq, Eq, Structural)]
pub enum Command {
    /// Set the linters up; with `dry_run`, only say how.
    Init { dry_run: bool },
    /// Run the formatters and apply what they suggest.
    Format,
    /// Run the linters.
    Lint,
    /// Report on an earlier invocation.
    Rage { invocation: Option<usize> },
}

/// How much is logged.
#[derive(Clone, Copy, Debug, PartialEq, Eq, Structural)]
pub enum LogLevel {
    Error,
    Info,
    Debug,
    Trace,
}

/// The command of an invocation that names none: to lint.
pub fn command_or_default(command: Option<Command>) -> (out: Command)
    ensures
        out == match command {
            Some(c) => c,
            None => Command::Lint,
        },
{
    match command {
        Some(c) => c,
        None => Command::Lint,
    }
}

/// How much is logged at the verbosity `verbose` when the output has the
/// format `format`: without `-v`, information for a reader and errors alone
/// for a machine; with one `-v`, debugging; with more, everything.
pub open spec fn log_level_of(verbose: u8, format: RenderFormat) -> LogLevel {
    if verbose == 0 {
        if format == RenderFormat::Default {
            LogLevel::Info
        } else {
            LogLevel::Error
        }
    } else if verbose == 1 {
        LogLevel::Debug
    } else {
        LogLevel::Trace
    }
}

/// How much is logged: see [`log_level_of`].
pub fn log_level(verbose: u8, format: RenderFormat) -> (level: LogLevel)
    ensures
        level == log_level_of(verbose, format),
{
    if verbose == 0 {
        match format {
            RenderFormat::Default => LogLevel::Info,
            _ => LogLevel::Error,
        }
    } else if verbose == 1 {
        LogLevel::Debug
    } else {
        LogLevel::Trace
    }
}

/// Whether progress is shown while the linters run: only to a reader, and
/// only without `-v`.
pub fn spinners_enabled(verbose: u8, format: RenderFormat) -> (enabled: bool)
    ensures
        enabled == (verbose == 0 && format == RenderFormat::Default),
{
    match format {
        RenderFormat::Default => verbose == 0,
        _ => false,
    }
}

/// The revision to compare with: the one named by `--revision`; else the
/// one named by `--merge-base-with`, through the merge base; else the one
/// that the configuration names for the merge base, unless it is empty;
/// else the last commit.
pub open spec fn revision_of(
    revision: Option<Seq<char>>,
    merge_base_with: Option<Seq<char>>,
    configured: Seq<char>,
) -> RevisionModel {
    match revision {
        Some(rev) => RevisionModel::AgainstRevision(rev),
        None => match merge_base_with {
            Some(rev) => RevisionModel::AgainstMergeBaseWith(rev),
            None => if configured.len() > 0 {
                RevisionModel::AgainstMergeBaseWith(configured)
            } else {
                RevisionModel::AtHead
            },
        },
    }
}

/// The revision to compare with: see [`revision_of`].
pub fn revision_selector(
    revision: Option<String>,
    merge_base_with: Option<String>,
    configured: String,
) -> (out: RevisionSelector)
    ensures
        out@ == revision_of(revision.deep_view(), merge_base_with.deep_view(), configured@),
{
    match revision {
        Some(rev) => RevisionSelector::AgainstRevision(rev),
        None => match merge_base_with {
            Some(rev) => RevisionSelector::AgainstMergeBaseWith(rev),
            None => {
                if configured.as_str().unicode_len() > 0 {
                    RevisionSelector::AgainstMergeBaseWith(configured)
                } else {
                    RevisionSelector::AtHead
                }
            },
        },
    }
}

/// How the files are selected: from the file that `--paths-from` names;
/// else by the command of `--paths-cmd`; else the paths that were given, if
/// any; else all files, with `--all-files`; else by comparing revisions.
pub open spec fn selector_of(
    paths_from: Option<Seq<char>>,
    paths_cmd: Option<Seq<char>>,
    paths: Seq<Seq<char>>,
    all_files: bool,
) -> SelectorModel {
    match paths_from {
        Some(file) => SelectorModel::FromFile(file),
        None => match paths_cmd {
            Some(command) => SelectorModel::FromShellCommand(command),
            None => if paths.len() > 0 {
                SelectorModel::ExplicitList(paths)
            } else if all_files {
                SelectorModel::AllFiles
            } else {
                SelectorModel::AutomaticDefault
            },
        },
    }
}

/// How the files are selected: see [`selector_of`].
pub fn path_selector(
    paths_from: Option<String>,
    paths_cmd: Option<String>,
    paths: Vec<String>,
    all_files: bool,
) -> (out: PathSelector)
    ensures
        out@ == selector_of(
            paths_from.deep_view(),
            paths_cmd.deep_view(),
            paths.deep_view(),
            all_files,
        ),
{
    match paths_from {
        Some(file) => PathSelector::FromFile(file),
        None => match paths_cmd {
            Some(command) => PathSelector::FromShellCommand(command),
            None => {
                if paths.len() > 0 {
                    PathSelector::ExplicitList(paths)
                } else if all_files {
                    PathSelector::AllFiles
                } else {
                    PathSelector::AutomaticDefault
                }
            },
        },
    }
}

/// The names that an option lists, with commas between them; none where the
/// option was not given. Of these names only membership is ever read, so
/// their order and a name that occurs twice change nothing.
pub fn name_filter(list: &Option<String>) -> (names: Option<Vec<String>>)
    ensures
        names.deep_view() == names_of(list.deep_view()),
{
    match list {
        Some(text) => Some(parse_names(text.as_str())),
        None => None,
    }
}

/// Whether the command runs the formatters alone.
pub fn is_format_only(command: Command) -> (yes: bool)
    ensures
        yes == (command is Format),
{
    match command {
        Command::Format => true,
        _ => false,
    }
}

/// Whether suggested patches are applied: always when formatting; when
/// linting, if `--apply-patches` was given.
pub fn applies_patches(command: Command, apply_flag: bool) -> (yes: bool)
    ensures
        yes == match command {
            Command::Format => true,
            Command::Lint => apply_flag,
            _ => false,
        },
{
    match command {
        Command::Format => true,
        Command::Lint => apply_flag,
        _ => false,
    }
}

/// The options of one invocation, as the command line gave them.
#[derive(Debug, PartialEq, Eq)]
pub struct Options {
    pub verbose: u8,
    pub apply_patches: bool,
    pub paths_cmd: Option<String>,
    pub paths_from: Option<String>,
    pub revision: Option<String>,
    pub merge_base_with: Option<String>,
    pub skip: Option<String>,
    pub take: Option<String>,
    pub output: RenderFormat,
    pub command: Option<Command>,
    pub paths: Vec<String>,
    pub tee_json: Option<String>,
    pub all_files: bool,
}

/// The parameters that one invocation works with.
#[derive(Debug, PartialEq, Eq)]
pub struct Invocation {
    pub command: Command,
    pub log_level: LogLevel,
    pub spinners: bool,
    pub format: RenderFormat,
    pub format_only: bool,
    pub apply_patches: bool,
    pub skip: Option<Vec<String>>,
    pub take: Option<Vec<String>>,
    pub revision: RevisionSelector,
    pub paths: PathSelector,
    pub tee_json: Option<String>,
}

/// The names that an optional list holds.
pub open spec fn names_of(list: Option<Seq<char>>) -> Option<Seq<Seq<char>>> {
    match list {
        Some(text) => Some(split_on(text, ',')),
        None => None,
    }
}

/// Works out the parameters of an invocation from its options and from the
/// revision that the configuration names for the merge base (empty where it
/// names none): the command, which is to lint where none is given; how much
/// is logged and whether progress is shown; which linters are skipped and
/// taken; whether patches are applied; and how the files are selected.
pub fn plan_invocation(options: Options, configured: String) -> (out: Invocation)
    ensures
        out.command == match options.command {
            Some(c) => c,
            None => Command::Lint,
        },
        out.log_level == log_level_of(options.verbose, options.output),
        out.spinners == (options.verbose == 0 && options.output == RenderFormat::Default),
        out.format == options.output,
        out.format_only == (out.command is Format),
        out.apply_patches == match out.command {
            Command::Format => true,
            Command::Lint => options.apply_patches,
            _ => false,
        },
        out.skip.deep_view() == names_of(options.skip.deep_view()),
        out.take.deep_view() == names_of(options.take.deep_view()),
        out.revision@ == revision_of(
            options.revision.deep_view(),
            options.merge_base_with.deep_view(),
            configured@,
        ),
        out.paths@ == selector_of(
            options.paths_from.deep_view(),
            options.paths_cmd.deep_view(),
            options.paths.deep_view(),
            options.all_files,
        ),
        out.tee_json == options.tee_json,
{
    let command = command_or_default(options.command);
    let skip = name_filter(&options.skip);
    let take = name_filter(&options.take);
    Invocation {
        command,
        log_level: log_level(options.verbose, options.output),
        spinners: spinners_enabled(options.verbose, options.output),
        format: options.output,
        format_only: is_format_only(command),
        apply_patches: applies_patches(command, options.apply_patches),
        skip,
        take,
        revision: revision_selector(options.revision, options.merge_base_with, configured),
        paths: path_selector(
            options.paths_from,
            options.paths_cmd,
            options.paths,
            options.all_files,
        ),
        tee_json: options.tee_json,
    }
}

/// The entry of the ledger that a report is made on: the one chosen, by
/// recency, or the latest where none was chosen. Fails with
/// `NoSuchInvocation` if and only if the ledger holds no entry that far
/// back.
pub fn report_entry(ledger: &Ledger, invocation: Option<usize>) -> (out: Result<
    &LedgerEntry,
    LedgerError,
>)
    ensures
        match out {
            Ok(entry) => {
                let index = match invocation {
                    Some(i) => i,
                    None => 0,
                };
                index < ledger@.history.len() && entry@ == ledger@.recent(index as int)
            },
            Err(e) => {
                let index = match invocation {
                    Some(i) => i,
                    None => 0,
                };
                index >= ledger@.history.len() && e == LedgerError::NoSuchInvocation
            },
        },
{
    let index: usize = match invocation {
        Some(i) => i,
        None => 0,
    };
    ledger.get(index)
}

/// What a finished run comes to: what is shown, what is written, and the
/// exit code.
#[derive(Debug, PartialEq, Eq)]
pub struct Conclusion {
    pub rendering: Rendering,
    pub patches: PatchPlan,
    pub exit_code: i32,
}

/// Concludes a run from its aggregated stream: renders the stream for the
/// terminal in the format `format`, and as JSON for the side file where
/// `tee` names one; plans the patches, where `apply` is set; and gives the
/// exit code, which is 0 if and only if no finding has severity error and no
/// process failed.
pub fn conclude(
    entries: &Vec<ReportEntry>,
    format: RenderFormat,
    color: bool,
    tee: Option<String>,
    apply: bool,
) -> (out: Conclusion)
    ensures
        out.rendering.terminal@ == rendered(entries.deep_view(), format, color),
        match out.rendering.side_file {
            Some(side) => tee is Some && side.path@ == tee->0@ && side.content@ == json_all(
                entries.deep_view(),
            ),
            None => tee is None,
        },
        apply ==> out.patches.writes.deep_view() == planned_writes(entries.deep_view()),
        apply ==> out.patches.conflicts.deep_view() == planned_conflicts(entries.deep_view()),
        !apply ==> out.patches.writes.len() == 0 && out.patches.conflicts.len() == 0,
        out.exit_code == exit_code_of(entries.deep_view()),
{
    let rendering = render_run(entries, format, color, tee);
    let patches = plan_patches(entries, apply);
    let code = exit_code(entries);
    Conclusion { rendering, patches, exit_code: code }
}

} // verus!
