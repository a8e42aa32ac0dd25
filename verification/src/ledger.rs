//! The run ledger: the history of invocations, newest last, bounded by a
//! retention count. An entry is appended when an invocation starts and
//! completed when it ends; entries are read by recency, 0 for the latest.
//!
//! The ledger is a value that is handed to whoever needs it. Keeping it on
//! disk between invocations is the caller's part.

use vstd::prelude::*;
use crate::text::{clone_opt_string, clone_texts};

verus! {

/// How an invocation started: its arguments and the moment.
#[derive(Debug, PartialEq, Eq)]
pub struct RunInfo {
    pub args: Vec<String>,
    pub timestamp: String,
}

/// How an invocation ended: its exit code and, where it failed, the error.
#[derive(Debug, PartialEq, Eq)]
pub struct ExitInfo {
    pub code: i32,
    pub err: Option<String>,
}

/// One invocation in the ledger. It has no exit while the invocation runs,
/// and keeps none if the invocation was ended from outside.
#[derive(Debug, PartialEq, Eq)]
pub struct LedgerEntry {
    pub run: RunInfo,
    pub exit: Option<ExitInfo>,
}

/// Why the ledger refused.
#[derive(Clone, Copy, Debug, PartialEq, Eq, Structural)]
pub enum LedgerError {
    /// The ledger keeps no invocation that far back.
    NoSuchInvocation,
    /// No invocation is open: the ledger is empty, or its latest entry has
    /// its exit already.
    NoOpenInvocation,
}

/// The mathematical value of a [`RunInfo`].
pub ghost struct RunInfoModel {
    pub args: Seq<Seq<char>>,
    pub timestamp: Seq<char>,
}

/// The mathematical value of an [`ExitInfo`].
pub ghost struct ExitInfoModel {
    pub code: i32,
    pub err: Option<Seq<char>>,
}

/// The mathematical value of a [`LedgerEntry`].
pub ghost struct LedgerEntryModel {
    pub run: RunInfoModel,
    pub exit: Option<ExitInfoModel>,
}

/// The mathematical value of a [`Ledger`].
pub ghost struct LedgerModel {
    /// The entries that are kept, oldest first.
    pub history: Seq<LedgerEntryModel>,
    /// How many entries are kept at most.
    pub retention: nat,
}

impl View for RunInfo {
    type V = RunInfoModel;

    open spec fn view(&self) -> RunInfoModel {
        RunInfoModel { args: self.args.deep_view(), timestamp: self.timestamp@ }
    }
}

impl View for ExitInfo {
    type V = ExitInfoModel;

    open spec fn view(&self) -> ExitInfoModel {
        ExitInfoModel { code: self.code, err: self.err.deep_view() }
    }
}

impl DeepView for ExitInfo {
    type V = ExitInfoModel;

    open spec fn deep_view(&self) -> ExitInfoModel {
        self@
    }
}

impl View for LedgerEntry {
    type V = LedgerEntryModel;

    open spec fn view(&self) -> LedgerEntryModel {
        LedgerEntryModel { run: self.run@, exit: self.exit.deep_view() }
    }
}

impl DeepView for LedgerEntry {
    type V = LedgerEntryModel;

    open spec fn deep_view(&self) -> LedgerEntryModel {
        self@
    }
}

impl Clone for RunInfo {
    fn clone(&self) -> (out: Self)
        ensures
            out@ == self@,
    {
        RunInfo { args: clone_texts(&self.args), timestamp: self.timestamp.clone() }
    }
}

impl Clone for ExitInfo {
    fn clone(&self) -> (out: Self)
        ensures
            out@ == self@,
    {
        ExitInfo { code: self.code, err: clone_opt_string(&self.err) }
    }
}

impl Clone for LedgerEntry {
    fn clone(&self) -> (out: Self)
        ensures
            out@ == self@,
    {
        let exit = match &self.exit {
            Some(e) => Some(e.clone()),
            None => None,
        };
        LedgerEntry { run: self.run.clone(), exit }
    }
}

impl RunInfo {
    /// The start of an invocation with these arguments at this moment. The
    /// moment is a text that the caller has read from the clock.
    pub fn new(args: Vec<String>, timestamp: String) -> (out: RunInfo)
        ensures
            out.args == args,
            out.timestamp == timestamp,
    {
        RunInfo { args, timestamp }
    }
}

/// The exit that goes into the ledger for the result of an invocation: its
/// exit code where it came to one, else code 1 and the error.
pub open spec fn exit_of(result: Result<i32, Seq<char>>) -> ExitInfoModel {
    match result {
        Ok(code) => ExitInfoModel { code, err: None },
        Err(error) => ExitInfoModel { code: 1, err: Some(error) },
    }
}

impl ExitInfo {
    /// The exit for the result of an invocation: see [`exit_of`].
    pub fn from_result(result: Result<i32, String>) -> (out: ExitInfo)
        ensures
            out@ == exit_of(
                match result {
                    Ok(code) => Ok(code),
                    Err(error) => Err(error@),
                },
            ),
    {
        match result {
            Ok(code) => ExitInfo { code, err: None },
            Err(error) => ExitInfo { code: 1, err: Some(error) },
        }
    }
}

impl LedgerModel {
    /// What holds of every ledger: its retention count is at least one, and
    /// it never holds more entries than that.
    pub open spec fn valid(self) -> bool {
        self.retention >= 1 && self.history.len() <= self.retention
    }

    /// The entry at the recency `index`: 0 is the latest.
    pub open spec fn recent(self, index: int) -> LedgerEntryModel
        recommends
            0 <= index < self.history.len(),
    {
        self.history[self.history.len() - 1 - index]
    }

    /// The history `entries` cut down to the latest `retention` entries.
    pub open spec fn bounded(entries: Seq<LedgerEntryModel>, retention: nat) -> Seq<
        LedgerEntryModel,
    > {
        if entries.len() > retention {
            entries.skip(entries.len() - retention)
        } else {
            entries
        }
    }

    /// The ledger after an invocation has started: its entry is appended,
    /// without exit, and the oldest entry leaves where the ledger is full.
    pub open spec fn began(self, run: RunInfoModel) -> LedgerModel {
        LedgerModel {
            history: Self::bounded(
                self.history.push(LedgerEntryModel { run, exit: None }),
                self.retention,
            ),
            retention: self.retention,
        }
    }

    /// Whether an invocation is open: the latest entry has no exit yet.
    pub open spec fn is_open(self) -> bool {
        self.history.len() > 0 && self.history.last().exit is None
    }

    /// The ledger after the open invocation has ended: its entry has the
    /// exit, and nothing else has changed. Without an open invocation the
    /// ledger stays as it is.
    pub open spec fn finalized(self, exit: ExitInfoModel) -> LedgerModel {
        if self.is_open() {
            LedgerModel {
                history: self.history.update(
                    self.history.len() - 1,
                    LedgerEntryModel { run: self.history.last().run, exit: Some(exit) },
                ),
                retention: self.retention,
            }
        } else {
            self
        }
    }
}

/// An invocation that was started and ended is read back unchanged: after
/// the start of `run` and the exit `exit`, the latest entry of the ledger
/// holds exactly these two. No older entry that is still kept has changed.
pub proof fn lemma_round_trip(ledger: LedgerModel, run: RunInfoModel, exit: ExitInfoModel)
    requires
        ledger.valid(),
    ensures
        ledger.began(run).valid(),
        ledger.began(run).is_open(),
        ledger.began(run).finalized(exit).valid(),
        ledger.began(run).finalized(exit).history.len() >= 1,
        ledger.began(run).finalized(exit).recent(0) == (LedgerEntryModel { run, exit: Some(exit) }),
        forall|i: int|
            1 <= i < ledger.began(run).finalized(exit).history.len() ==> ledger.began(
                run,
            ).finalized(exit).recent(i) == ledger.recent(i - 1),
{
}

/// The run ledger.
#[derive(Debug, PartialEq, Eq)]
pub struct Ledger {
    entries: Vec<LedgerEntry>,
    retention: usize,
}

impl View for Ledger {
    type V = LedgerModel;

    closed spec fn view(&self) -> LedgerModel {
        LedgerModel { history: self.entries.deep_view(), retention: self.retention as nat }
    }
}

impl Ledger {
    #[verifier::type_invariant]
    spec fn well_formed(&self) -> bool {
        self.retention >= 1 && self.entries.len() <= self.retention
    }

    /// An empty ledger that keeps the latest `retention` invocations; one
    /// where `retention` is 0.
    pub fn new(retention: usize) -> (ledger: Ledger)
        ensures
            ledger@.valid(),
            ledger@.history.len() == 0,
            ledger@.retention == if retention == 0 {
                1
            } else {
                retention as nat
            },
    {
        let kept: usize = if retention == 0 {
            1
        } else {
            retention
        };
        let ledger = Ledger { entries: Vec::new(), retention: kept };
        assert(ledger.entries.deep_view() =~= Seq::<LedgerEntryModel>::empty());
        ledger
    }

    /// The ledger that holds the latest `retention` entries of `history`,
    /// which is given oldest first; the latest one where `retention` is 0.
    pub fn restore(retention: usize, history: Vec<LedgerEntry>) -> (ledger: Ledger)
        ensures
            ledger@.valid(),
            ledger@.retention == if retention == 0 {
                1
            } else {
                retention as nat
            },
            ledger@.history == LedgerModel::bounded(history.deep_view(), ledger@.retention),
    {
        let kept: usize = if retention == 0 {
            1
        } else {
            retention
        };
        if history.len() <= kept {
            return Ledger { entries: history, retention: kept };
        }
        let first: usize = history.len() - kept;
        let mut entries: Vec<LedgerEntry> = Vec::new();
        let mut i: usize = first;
        assert(entries.deep_view() =~= history.deep_view().subrange(first as int, i as int));
        while i < history.len()
            invariant
                first <= i <= history.len(),
                first == history.len() - kept,
                entries.deep_view() == history.deep_view().subrange(first as int, i as int),
            decreases history.len() - i,
        {
            let ghost before = entries.deep_view();
            entries.push(history[i].clone());
            assert(entries.deep_view() =~= before.push(history.deep_view()[i as int]));
            i += 1;
            assert(entries.deep_view() =~= history.deep_view().subrange(first as int, i as int));
        }
        assert(entries.deep_view() =~= history.deep_view().skip(first as int));
        Ledger { entries, retention: kept }
    }

    /// How many invocations the ledger holds: never more than it keeps.
    pub fn len(&self) -> (n: usize)
        ensures
            self@.valid(),
            n == self@.history.len(),
    {
        proof {
            use_type_invariant(self);
        }
        self.entries.len()
    }

    /// How many invocations the ledger keeps at most.
    pub fn retention(&self) -> (n: usize)
        ensures
            n == self@.retention,
    {
        self.retention
    }

    /// The entries that are kept, oldest first.
    pub fn entries(&self) -> (entries: &Vec<LedgerEntry>)
        ensures
            entries.deep_view() == self@.history,
    {
        &self.entries
    }

    /// Records the start of an invocation: appends its entry, without exit,
    /// and drops the oldest entry where the ledger is full.
    pub fn begin(&mut self, run: RunInfo)
        ensures
            old(self)@.valid(),
            final(self)@.valid(),
            final(self)@ == old(self)@.began(run@),
            final(self)@.is_open(),
            final(self)@.recent(0) == (LedgerEntryModel { run: run@, exit: None }),
    {
        proof {
            use_type_invariant(&*self);
        }
        let mut entries: Vec<LedgerEntry> = Vec::new();
        core::mem::swap(&mut entries, &mut self.entries);
        let ghost before = entries.deep_view();
        let entry = LedgerEntry { run, exit: None };
        entries.push(entry);
        assert(entries.deep_view() =~= before.push(entry@));
        if entries.len() > self.retention {
            let ghost full = entries.deep_view();
            entries.remove(0);
            assert(entries.deep_view() =~= full.skip(1));
        }
        self.entries = entries;
    }

    /// Records the end of the open invocation: gives its entry the exit.
    /// Entries are completed, never rewritten: without an open invocation
    /// the ledger refuses and stays as it is.
    pub fn finalize(&mut self, exit: ExitInfo) -> (done: Result<(), LedgerError>)
        ensures
            old(self)@.valid(),
            final(self)@.valid(),
            final(self)@ == old(self)@.finalized(exit@),
            done is Ok <==> old(self)@.is_open(),
            done is Err ==> done == Err::<(), LedgerError>(LedgerError::NoOpenInvocation),
    {
        proof {
            use_type_invariant(&*self);
        }
        let n = self.entries.len();
        if n == 0 {
            return Err(LedgerError::NoOpenInvocation);
        }
        match &self.entries[n - 1].exit {
            Some(_) => {
                return Err(LedgerError::NoOpenInvocation);
            },
            None => {},
        }
        let mut entries: Vec<LedgerEntry> = Vec::new();
        core::mem::swap(&mut entries, &mut self.entries);
        let ghost before = entries.deep_view();
        let ghost exit_model = exit@;
        let last = entries.pop();
        match last {
            Some(entry) => {
                assert(entries.deep_view() =~= before.drop_last());
                let done = LedgerEntry { run: entry.run, exit: Some(exit) };
                entries.push(done);
                assert(entries.deep_view() =~= before.update(
                    n - 1,
                    LedgerEntryModel { run: before.last().run, exit: Some(exit_model) },
                ));
            },
            None => {},
        }
        self.entries = entries;
        Ok(())
    }

    /// The invocation at the recency `index`, 0 for the latest. Fails with
    /// `NoSuchInvocation` if and only if the ledger holds no entry that far
    /// back.
    pub fn get(&self, index: usize) -> (out: Result<&LedgerEntry, LedgerError>)
        ensures
            match out {
                Ok(entry) => index < self@.history.len() && entry@ == self@.recent(index as int),
                Err(e) => index >= self@.history.len() && e == LedgerError::NoSuchInvocation,
            },
    {
        if index >= self.entries.len() {
            return Err(LedgerError::NoSuchInvocation);
        }
        Ok(&self.entries[self.entries.len() - 1 - index])
    }
}

/// A hash of the effective linter configuration.
#[derive(Clone, Copy, Debug, PartialEq, Eq, Structural)]
pub struct ConfigFingerprint {
    pub digest: u64,
}

/// The advice to set the linters up again: the configuration is no longer
/// the one that they were last set up with.
#[derive(Clone, Copy, Debug, PartialEq, Eq, Structural)]
pub struct StalenessWarning {
    pub stored: ConfigFingerprint,
    pub current: ConfigFingerprint,
}

/// Compares the fingerprint of the configuration as it is now with the one
/// that was stored when the linters were last set up. A warning comes back
/// if and only if one was stored and it differs. The warning is advice:
/// whatever comes back, the run goes on.
pub fn check_staleness(stored: Option<ConfigFingerprint>, current: ConfigFingerprint) -> (out:
    Option<StalenessWarning>)
    ensures
        out is Some <==> stored is Some && stored->0 != current,
        out is Some ==> out->0 == (StalenessWarning { stored: stored->0, current }),
{
    match stored {
        Some(before) => {
            if before.digest != current.digest {
                Some(StalenessWarning { stored: before, current })
            } else {
                None
            }
        },
        None => None,
    }
}

} // verus!
