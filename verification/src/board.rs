//! The board of one run: which scheduled linters a bounded pool of workers
//! has started, and the one outcome that each of them has reported.
//!
//! The pool itself lives with the caller. The board decides: it says which
//! linter to start next, whether to wait, and when the run is over, and it
//! takes each outcome once. Outcomes may come in any order; the board keeps
//! them by the position of their linter, so the aggregated stream does not
//! depend on the order of completion.

use vstd::prelude::*;
use crate::issue::{LinterOutcome, OutcomeModel};
use crate::report::{merge_outcomes, merged, EntryModel, ReportEntry};

verus! {

/// What the pool does next.
#[derive(Clone, Copy, Debug, PartialEq, Eq, Structural)]
pub enum Step {
    /// Start the linter at this position.
    Start(usize),
    /// All workers are busy, or nothing is left to start: wait for an outcome.
    Wait,
    /// Every linter has reported its outcome.
    Done,
}

/// Why the board did not take an outcome.
#[derive(Clone, Copy, Debug, PartialEq, Eq, Structural)]
pub enum BoardError {
    /// No linter at this position has been started.
    UnknownRank,
    /// The linter at this position has reported already.
    AlreadyRecorded,
}

/// The board of one run.
pub struct RunBoard {
    state: BoardState,
}

/// What a board holds.
struct BoardState {
    names: Vec<String>,
    slots: Vec<Option<LinterOutcome>>,
    limit: usize,
    started: usize,
    finished: usize,
}

/// The mathematical value of a [`RunBoard`].
pub ghost struct BoardModel {
    /// The names of the scheduled linters, in the order of their registration.
    pub names: Seq<Seq<char>>,
    /// The outcome of each linter, at its linter's position.
    pub slots: Seq<Option<OutcomeModel>>,
    /// How many linters may run at once.
    pub limit: nat,
    /// How many linters have been started: those at the positions below.
    pub started: nat,
    /// How many linters have reported.
    pub finished: nat,
}

/// One outcome as it arrives: the position of the linter, and the outcome.
pub ghost struct Completion {
    pub rank: nat,
    pub outcome: OutcomeModel,
}

/// How many slots hold an outcome.
pub open spec fn filled(slots: Seq<Option<OutcomeModel>>) -> nat
    decreases slots.len(),
{
    if slots.len() == 0 {
        0
    } else {
        filled(slots.drop_last()) + if slots.last() is Some {
            1nat
        } else {
            0nat
        }
    }
}

/// No two completions are of the same linter.
pub open spec fn distinct_ranks(completions: Seq<Completion>) -> bool {
    forall|i: int, j: int|
        0 <= i < j < completions.len() ==> (#[trigger] completions[i]).rank != (
        #[trigger] completions[j]).rank
}

impl BoardModel {
    /// What holds of every board: one slot for each linter, none filled that
    /// was not started, and no more linters running than the limit allows.
    pub open spec fn valid(self) -> bool {
        &&& self.names.len() == self.slots.len()
        &&& self.limit >= 1
        &&& self.started <= self.slots.len()
        &&& self.finished == filled(self.slots)
        &&& forall|k: int| self.started <= k < self.slots.len() ==> self.slots[k] is None
        &&& self.finished <= self.started
        &&& self.started - self.finished <= self.limit
    }

    /// How many linters are running: started, and not yet reported.
    pub open spec fn running(self) -> int {
        self.started - self.finished
    }

    /// The board before anything has been started.
    pub open spec fn fresh(names: Seq<Seq<char>>, parallelism: nat) -> BoardModel {
        BoardModel {
            names,
            slots: Seq::new(names.len(), |k: int| None),
            limit: if parallelism == 0 {
                1
            } else {
                parallelism
            },
            started: 0,
            finished: 0,
        }
    }

    /// What the pool does next: start the next linter while one is left and a
    /// worker is free; else wait while a linter is running; else the run is
    /// over.
    pub open spec fn next_step(self) -> Step {
        if self.started < self.slots.len() && self.running() < self.limit {
            Step::Start(self.started as usize)
        } else if self.running() > 0 {
            Step::Wait
        } else {
            Step::Done
        }
    }

    /// The board after the step that `next_step` names has been taken.
    pub open spec fn after_step(self) -> BoardModel {
        match self.next_step() {
            Step::Start(_) => BoardModel { started: self.started + 1, ..self },
            _ => self,
        }
    }

    /// Whether the board takes an outcome of the linter at `rank`: it has
    /// been started and has not reported yet.
    pub open spec fn accepts(self, rank: nat) -> bool {
        rank < self.started && rank < self.slots.len() && self.slots[rank as int] is None
    }

    /// The board after the outcome of the linter at `rank` has arrived. An
    /// outcome that the board does not take leaves it unchanged.
    pub open spec fn recorded(self, rank: nat, outcome: OutcomeModel) -> BoardModel {
        if self.accepts(rank) {
            BoardModel {
                slots: self.slots.update(rank as int, Some(outcome)),
                finished: self.finished + 1,
                ..self
            }
        } else {
            self
        }
    }

    /// The board after all of `completions` have arrived, in their order.
    pub open spec fn recorded_all(self, completions: Seq<Completion>) -> BoardModel
        decreases completions.len(),
    {
        if completions.len() == 0 {
            self
        } else {
            self.recorded_all(completions.drop_last()).recorded(
                completions.last().rank,
                completions.last().outcome,
            )
        }
    }

    /// The aggregated stream of the outcomes on the board.
    pub open spec fn stream(self) -> Seq<EntryModel> {
        merged(self.names, self.slots)
    }
}

/// No more slots are filled than there are.
pub proof fn lemma_filled_bound(slots: Seq<Option<OutcomeModel>>)
    ensures
        filled(slots) <= slots.len(),
        filled(slots) == slots.len() ==> forall|k: int| 0 <= k < slots.len() ==> slots[k] is Some,
    decreases slots.len(),
{
    if slots.len() > 0 {
        lemma_filled_bound(slots.drop_last());
        if filled(slots) == slots.len() {
            assert forall|k: int| 0 <= k < slots.len() implies slots[k] is Some by {
                if k < slots.len() - 1 {
                    assert(slots.drop_last()[k] == slots[k]);
                }
            }
        }
    }
}

/// Filling an empty slot raises the count by one.
pub proof fn lemma_filled_update(slots: Seq<Option<OutcomeModel>>, k: int, outcome: OutcomeModel)
    requires
        0 <= k < slots.len(),
        slots[k] is None,
    ensures
        filled(slots.update(k, Some(outcome))) == filled(slots) + 1,
    decreases slots.len(),
{
    let after = slots.update(k, Some(outcome));
    if k == slots.len() - 1 {
        assert(after.drop_last() =~= slots.drop_last());
    } else {
        lemma_filled_update(slots.drop_last(), k, outcome);
        assert(after.drop_last() =~= slots.drop_last().update(k, Some(outcome)));
    }
}

/// A fresh board is valid, and nothing runs on it.
pub proof fn lemma_fresh_is_valid(names: Seq<Seq<char>>, parallelism: nat)
    ensures
        BoardModel::fresh(names, parallelism).valid(),
        BoardModel::fresh(names, parallelism).running() == 0,
{
    let slots = BoardModel::fresh(names, parallelism).slots;
    lemma_no_slot_filled(slots);
}

proof fn lemma_no_slot_filled(slots: Seq<Option<OutcomeModel>>)
    requires
        forall|k: int| 0 <= k < slots.len() ==> slots[k] is None,
    ensures
        filled(slots) == 0,
    decreases slots.len(),
{
    if slots.len() > 0 {
        assert forall|k: int| 0 <= k < slots.drop_last().len() implies slots.drop_last()[k] is None by {
            assert(slots.drop_last()[k] == slots[k]);
        }
        lemma_no_slot_filled(slots.drop_last());
    }
}

/// The bound on concurrency holds in every state: a step of the pool keeps
/// the board valid, so never more linters run than the limit allows, and the
/// run is over only when every linter has reported.
pub proof fn lemma_step_keeps_valid(board: BoardModel)
    requires
        board.valid(),
    ensures
        board.after_step().valid(),
        board.after_step().running() <= board.limit,
        board.next_step() is Done ==> forall|k: int|
            0 <= k < board.slots.len() ==> board.slots[k] is Some,
{
    lemma_filled_bound(board.slots);
}

/// An outcome that arrives keeps the board valid, whether taken or not, and
/// an outcome that is taken frees one worker.
pub proof fn lemma_record_keeps_valid(board: BoardModel, rank: nat, outcome: OutcomeModel)
    requires
        board.valid(),
    ensures
        board.recorded(rank, outcome).valid(),
        board.accepts(rank) ==> board.recorded(rank, outcome).running() == board.running() - 1,
{
    if board.accepts(rank) {
        lemma_filled_update(board.slots, rank as int, outcome);
        lemma_started_bound(board.slots.update(rank as int, Some(outcome)), board.started);
    }
}

proof fn lemma_started_bound(slots: Seq<Option<OutcomeModel>>, started: nat)
    requires
        started <= slots.len(),
        forall|k: int| started <= k < slots.len() ==> slots[k] is None,
    ensures
        filled(slots) <= started,
    decreases slots.len(),
{
    if slots.len() > started {
        assert forall|k: int| started <= k < slots.drop_last().len() implies slots.drop_last()[k] is None by {
            assert(slots.drop_last()[k] == slots[k]);
        }
        assert(slots.last() is None);
        lemma_started_bound(slots.drop_last(), started);
    } else {
        lemma_filled_bound(slots);
    }
}

/// What the board holds after completions of distinct linters have arrived:
/// at the position of each completion that it takes, that completion's
/// outcome; at every other position, what it held before.
pub proof fn lemma_recorded_all(board: BoardModel, completions: Seq<Completion>)
    requires
        board.valid(),
        distinct_ranks(completions),
    ensures
        board.recorded_all(completions).valid(),
        board.recorded_all(completions).names == board.names,
        board.recorded_all(completions).limit == board.limit,
        board.recorded_all(completions).started == board.started,
        board.recorded_all(completions).slots.len() == board.slots.len(),
        forall|i: int|
            0 <= i < completions.len() && board.accepts((#[trigger] completions[i]).rank)
                ==> board.recorded_all(completions).slots[completions[i].rank as int] == Some(
                completions[i].outcome,
            ),
        forall|k: int|
            0 <= k < board.slots.len() && (!board.accepts(k as nat) || forall|i: int|
                0 <= i < completions.len() ==> (#[trigger] completions[i]).rank != k)
                ==> #[trigger] board.recorded_all(completions).slots[k] == board.slots[k],
    decreases completions.len(),
{
    if completions.len() > 0 {
        let front = completions.drop_last();
        let last = completions.last();
        let n = completions.len() - 1;
        assert forall|i: int, j: int| 0 <= i < j < front.len() implies (#[trigger] front[i]).rank != (
        #[trigger] front[j]).rank by {
            assert(front[i] == completions[i] && front[j] == completions[j]);
        }
        lemma_recorded_all(board, front);
        let mid = board.recorded_all(front);
        lemma_record_keeps_valid(mid, last.rank, last.outcome);
        let end = board.recorded_all(completions);
        assert(end == mid.recorded(last.rank, last.outcome));
        assert forall|i: int| 0 <= i < front.len() implies (#[trigger] front[i]).rank
            != last.rank by {
            assert(front[i] == completions[i] && last == completions[n]);
        }
        if last.rank < board.slots.len() {
            assert(mid.slots[last.rank as int] == board.slots[last.rank as int]);
        }
        assert(mid.accepts(last.rank) == board.accepts(last.rank));
        assert forall|i: int|
            0 <= i < completions.len() && board.accepts(
                (#[trigger] completions[i]).rank,
            ) implies end.slots[completions[i].rank as int] == Some(completions[i].outcome) by {
            if i < n {
                assert(front[i] == completions[i]);
                assert(front[i].rank != last.rank);
            }
        }
        assert forall|k: int|
            0 <= k < board.slots.len() && (!board.accepts(k as nat) || forall|i: int|
                0 <= i < completions.len() ==> (#[trigger] completions[i]).rank
                    != k) implies #[trigger] end.slots[k] == board.slots[k] by {
            if board.accepts(k as nat) {
                assert(completions[n].rank != k);
                assert forall|i: int| 0 <= i < front.len() implies (#[trigger] front[i]).rank
                    != k by {
                    assert(front[i] == completions[i]);
                }
            }
            assert(mid.slots[k] == board.slots[k]);
        }
    }
}

/// The order of completion does not matter: the same outcomes, one for each
/// linter at most, leave the same board in whatever order they arrive, and
/// so the same aggregated stream.
pub proof fn lemma_completion_order(
    board: BoardModel,
    first: Seq<Completion>,
    second: Seq<Completion>,
)
    requires
        board.valid(),
        distinct_ranks(first),
        distinct_ranks(second),
        forall|c: Completion| first.contains(c) <==> second.contains(c),
    ensures
        board.recorded_all(first) == board.recorded_all(second),
        board.recorded_all(first).stream() == board.recorded_all(second).stream(),
{
    lemma_recorded_all(board, first);
    lemma_recorded_all(board, second);
    let a = board.recorded_all(first);
    let b = board.recorded_all(second);
    assert forall|k: int| 0 <= k < board.slots.len() implies a.slots[k] == b.slots[k] by {
        if board.accepts(k as nat) && exists|i: int|
            0 <= i < first.len() && (#[trigger] first[i]).rank == k {
            let i = choose|i: int| 0 <= i < first.len() && (#[trigger] first[i]).rank == k;
            assert(first.contains(first[i]));
            assert(second.contains(first[i]));
            let j = choose|j: int| 0 <= j < second.len() && second[j] == first[i];
            assert(second[j].rank == k);
            assert(a.slots[k] == Some(first[i].outcome));
            assert(b.slots[k] == Some(second[j].outcome));
        } else if board.accepts(k as nat) {
            assert forall|j: int| 0 <= j < second.len() implies (#[trigger] second[j]).rank
                != k by {
                if second[j].rank == k {
                    assert(second.contains(second[j]));
                    assert(first.contains(second[j]));
                    let i = choose|i: int| 0 <= i < first.len() && first[i] == second[j];
                    assert(first[i].rank == k);
                }
            }
        }
    }
    assert(a.slots =~= b.slots);
}

impl View for BoardState {
    type V = BoardModel;

    closed spec fn view(&self) -> BoardModel {
        BoardModel {
            names: self.names.deep_view(),
            slots: self.slots.deep_view(),
            limit: self.limit as nat,
            started: self.started as nat,
            finished: self.finished as nat,
        }
    }
}

impl BoardState {
    /// The state of a board without linters.
    fn idle() -> (state: BoardState)
        ensures
            state@.valid(),
            state@ == BoardModel::fresh(Seq::empty(), 1),
    {
        let state = BoardState {
            names: Vec::new(),
            slots: Vec::new(),
            limit: 1,
            started: 0,
            finished: 0,
        };
        proof {
            lemma_fresh_is_valid(Seq::empty(), 1);
            assert(state.names.deep_view() =~= Seq::<Seq<char>>::empty());
            assert(state.slots.deep_view() =~= BoardModel::fresh(Seq::empty(), 1).slots);
        }
        state
    }
}

impl View for RunBoard {
    type V = BoardModel;

    closed spec fn view(&self) -> BoardModel {
        self.state@
    }
}

impl RunBoard {
    #[verifier::type_invariant]
    spec fn well_formed(&self) -> bool {
        self.state@.valid()
    }

    /// The board for the scheduled linters `names`, in the order of their
    /// registration, and a pool of `parallelism` workers; of one worker where
    /// `parallelism` is 0.
    pub fn new(names: Vec<String>, parallelism: usize) -> (board: RunBoard)
        ensures
            board@.valid(),
            board@ == BoardModel::fresh(names.deep_view(), parallelism as nat),
    {
        let mut slots: Vec<Option<LinterOutcome>> = Vec::new();
        let mut k: usize = 0;
        while k < names.len()
            invariant
                k <= names.len(),
                slots.len() == k,
                forall|j: int| 0 <= j < k ==> slots@[j] is None,
            decreases names.len() - k,
        {
            slots.push(None);
            k += 1;
        }
        let limit: usize = if parallelism == 0 {
            1
        } else {
            parallelism
        };
        proof {
            lemma_fresh_is_valid(names.deep_view(), parallelism as nat);
            assert(slots.deep_view() =~= BoardModel::fresh(
                names.deep_view(),
                parallelism as nat,
            ).slots);
        }
        RunBoard { state: BoardState { names, slots, limit, started: 0, finished: 0 } }
    }

    /// How many linters are scheduled.
    pub fn len(&self) -> (n: usize)
        ensures
            self@.valid(),
            n == self@.slots.len(),
    {
        proof {
            use_type_invariant(self);
        }
        self.state.slots.len()
    }

    /// How many linters may run at once.
    pub fn limit(&self) -> (n: usize)
        ensures
            n == self@.limit,
    {
        self.state.limit
    }

    /// How many linters have been started.
    pub fn started(&self) -> (n: usize)
        ensures
            n == self@.started,
    {
        self.state.started
    }

    /// How many linters have reported.
    pub fn finished(&self) -> (n: usize)
        ensures
            n == self@.finished,
    {
        self.state.finished
    }

    /// How many linters are running: never more than the limit allows.
    pub fn running(&self) -> (n: usize)
        ensures
            self@.valid(),
            n == self@.running(),
            n <= self@.limit,
    {
        proof {
            use_type_invariant(self);
        }
        self.state.started - self.state.finished
    }

    /// Says what the pool does next, and counts the linter that it starts as
    /// started.
    pub fn next_step(&mut self) -> (step: Step)
        ensures
            old(self)@.valid(),
            final(self)@.valid(),
            step == old(self)@.next_step(),
            final(self)@ == old(self)@.after_step(),
            final(self)@.running() <= final(self)@.limit,
            step is Done ==> forall|k: int|
                0 <= k < final(self)@.slots.len() ==> final(self)@.slots[k] is Some,
    {
        proof {
            use_type_invariant(&*self);
            lemma_step_keeps_valid(self@);
        }
        let state = &self.state;
        if state.started < state.slots.len() && state.started - state.finished < state.limit {
            let rank = state.started;
            self.state.started = rank + 1;
            Step::Start(rank)
        } else if state.started - state.finished > 0 {
            Step::Wait
        } else {
            Step::Done
        }
    }

    /// Takes the outcome of the linter at `rank`. Each linter reports once:
    /// an outcome of a linter that was not started, or of one that has
    /// reported already, is refused and changes nothing.
    pub fn record(&mut self, rank: usize, outcome: LinterOutcome) -> (taken: Result<
        (),
        BoardError,
    >)
        ensures
            old(self)@.valid(),
            final(self)@.valid(),
            final(self)@ == old(self)@.recorded(rank as nat, outcome@),
            taken is Ok <==> old(self)@.accepts(rank as nat),
            taken == Err::<(), BoardError>(BoardError::UnknownRank) <==> rank >= old(
                self,
            )@.started,
    {
        proof {
            use_type_invariant(&*self);
        }
        if rank >= self.state.started {
            return Err(BoardError::UnknownRank);
        }
        match &self.state.slots[rank] {
            Some(_) => {
                return Err(BoardError::AlreadyRecorded);
            },
            None => {},
        }
        proof {
            lemma_record_keeps_valid(self@, rank as nat, outcome@);
        }
        let mut state = BoardState::idle();
        core::mem::swap(&mut state, &mut self.state);
        let ghost before = state.slots.deep_view();
        state.slots.set(rank, Some(outcome));
        assert(state.slots.deep_view() =~= before.update(rank as int, Some(outcome@)));
        state.finished = state.finished + 1;
        self.state = state;
        Ok(())
    }

    /// Whether every linter has reported.
    pub fn is_done(&self) -> (done: bool)
        ensures
            done == (self@.finished == self@.slots.len()),
            done ==> forall|k: int| 0 <= k < self@.slots.len() ==> self@.slots[k] is Some,
    {
        proof {
            use_type_invariant(self);
            lemma_filled_bound(self@.slots);
        }
        self.state.finished == self.state.slots.len()
    }

    /// The aggregated stream of the finished run: there is none before every
    /// linter has reported, so nothing is rendered or patched while a linter
    /// is still running.
    pub fn final_stream(&self) -> (out: Option<Vec<ReportEntry>>)
        ensures
            out is Some <==> self@.finished == self@.slots.len(),
            out is Some ==> out->0.deep_view() == self@.stream(),
            out is Some ==> forall|k: int| 0 <= k < self@.slots.len() ==> self@.slots[k] is Some,
    {
        if self.is_done() {
            Some(self.stream())
        } else {
            None
        }
    }

    /// The aggregated stream of the outcomes that have arrived: by the
    /// position of the linter, then in the linter's own order.
    pub fn stream(&self) -> (entries: Vec<ReportEntry>)
        ensures
            entries.deep_view() == self@.stream(),
    {
        proof {
            use_type_invariant(self);
        }
        merge_outcomes(&self.state.names, &self.state.slots)
    }
}

} // verus!
