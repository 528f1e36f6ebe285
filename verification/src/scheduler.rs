//! The decisions of the work distribution: which pair to hand to a worker
//! next, and when to hold back.
//!
//! The scheduler itself starts no thread and waits for nothing. Whoever runs
//! the workers asks it what to do, does it, and tells it which job is done.
//! At most twice as many jobs as there are workers are under way at any time,
//! queued or running, so that the pending work stays small however many
//! lines there are. Every pair is handed out once, and is taken as done once.

use vstd::multiset::Multiset;
use vstd::prelude::*;
use crate::pairs::{all_pairs, lemma_all_pairs_complete, lemma_all_pairs_len,
    lemma_all_pairs_row_major, pair_count, PairEnumerator, PairKey};

verus! {

broadcast use vstd::seq_lib::group_to_multiset_ensures;

/// On the command line, the number of threads that stands for "all but one
/// of those the machine offers".
pub const NUM_ALL_THREADS_AVAILABLE: usize = 0;

/// The thread count that a request for `requested` threads comes to on a
/// machine that offers `available` threads, if it can tell.
pub open spec fn resolved_thread_num(requested: usize, available: Option<usize>) -> usize {
    if requested != NUM_ALL_THREADS_AVAILABLE {
        requested
    } else {
        match available {
            Some(offered) => if offered >= 1 {
                (offered - 1) as usize
            } else {
                0
            },
            None => 1,
        }
    }
}

/// Settles the number of worker threads: the requested number if it is not
/// zero, else one less than the machine offers, else one if the machine
/// cannot tell.
pub fn resolve_thread_num(requested: usize, available: Option<usize>) -> (thread_num: usize)
    ensures
        thread_num == resolved_thread_num(requested, available),
{
    if requested != NUM_ALL_THREADS_AVAILABLE {
        requested
    } else {
        match available {
            Some(offered) => if offered >= 1 {
                offered - 1
            } else {
                0
            },
            None => 1,
        }
    }
}

/// What to do next.
#[derive(Clone, Copy, Debug, PartialEq, Eq, Structural)]
pub enum Action {
    /// Hand this pair to the workers. It counts as under way from now on.
    Submit(PairKey),
    /// Hand out nothing before a job is done.
    Wait,
    /// Every pair was handed out and every job is done.
    Finished,
}

/// The pairs that were handed out when `submitted` of the pairs among
/// `lines` lines were: the first `submitted` in row-major order.
pub open spec fn handed_out(lines: nat, submitted: nat) -> Multiset<PairKey> {
    all_pairs(lines).take(submitted as int).to_multiset()
}

/// What the scheduler knows at one moment.
#[verifier::ext_equal]
pub struct SchedulerState {
    /// The number of lines that are compared.
    pub lines: nat,
    /// The number of workers.
    pub workers: nat,
    /// The number of pairs handed out so far.
    pub submitted: nat,
    /// The jobs under way: the pairs handed out and not yet done.
    pub in_flight: Multiset<PairKey>,
}

impl SchedulerState {
    /// The state before any pair is handed out.
    pub open spec fn initial(lines: nat, workers: nat) -> SchedulerState {
        SchedulerState { lines, workers, submitted: 0, in_flight: Multiset::empty() }
    }

    /// The most jobs that may be under way at once: twice the number of workers.
    pub open spec fn cap(self) -> nat {
        2 * self.workers
    }

    /// The pairs handed out so far.
    pub open spec fn handed_out(self) -> Multiset<PairKey> {
        handed_out(self.lines, self.submitted)
    }

    /// The jobs that are done: the pairs handed out and no longer under way.
    pub open spec fn completed(self) -> Multiset<PairKey> {
        self.handed_out().sub(self.in_flight)
    }

    /// What holds of every state that a scheduler can get into: there is a
    /// worker, no more jobs are under way than the cap allows, no more pairs
    /// were handed out than there are, and every job under way is for a pair
    /// that was handed out.
    pub open spec fn wf(self) -> bool {
        &&& self.lines <= u32::MAX
        &&& self.workers >= 1
        &&& self.in_flight.len() <= self.cap()
        &&& self.submitted <= pair_count(self.lines)
        &&& self.in_flight.subset_of(self.handed_out())
    }

    /// Whether another pair may be handed out: one is left, and the jobs
    /// under way are below the cap.
    pub open spec fn may_submit(self) -> bool {
        self.in_flight.len() < self.cap() && self.submitted < pair_count(self.lines)
    }

    /// The pair that is handed out next, if one is left.
    pub open spec fn next_pair(self) -> PairKey {
        all_pairs(self.lines)[self.submitted as int]
    }

    /// What to do in this state: hand out the next pair in row-major order
    /// where that is allowed, else wait while a job is under way, else finish.
    pub open spec fn decide(self) -> Action {
        if self.may_submit() {
            Action::Submit(self.next_pair())
        } else if self.in_flight.len() > 0 {
            Action::Wait
        } else {
            Action::Finished
        }
    }

    /// The state once the decision is taken: a pair that was handed out is under way.
    pub open spec fn after_decision(self) -> SchedulerState {
        if self.may_submit() {
            SchedulerState {
                submitted: self.submitted + 1,
                in_flight: self.in_flight.insert(self.next_pair()),
                ..self
            }
        } else {
            self
        }
    }

    /// The state once the job for `pair` is reported done: it is no longer
    /// under way. Nothing changes if no job for `pair` was under way.
    pub open spec fn after_completion(self, pair: PairKey) -> SchedulerState {
        if self.in_flight.contains(pair) {
            SchedulerState { in_flight: self.in_flight.remove(pair), ..self }
        } else {
            self
        }
    }
}

/// Handing out one more pair adds the next pair in row-major order to those handed out.
pub proof fn lemma_handed_out_grows(lines: nat, submitted: nat)
    requires
        submitted < pair_count(lines),
    ensures
        handed_out(lines, submitted + 1) =~= handed_out(lines, submitted).insert(
            all_pairs(lines)[submitted as int],
        ),
{
    lemma_all_pairs_len(lines);
    all_pairs(lines).lemma_take_succ_push(submitted as int);
}

/// No pair is handed out twice.
pub proof fn lemma_handed_out_once(lines: nat, submitted: nat, pair: PairKey)
    requires
        lines <= u32::MAX,
        submitted <= pair_count(lines),
    ensures
        handed_out(lines, submitted).count(pair) <= 1,
{
    lemma_all_pairs_len(lines);
    let pairs = all_pairs(lines).take(submitted as int);
    assert forall|i: int, j: int| 0 <= i < pairs.len() && 0 <= j < pairs.len() && i != j implies pairs[i]
        != pairs[j] by {
        if i < j {
            lemma_all_pairs_row_major(lines, i, j);
        } else {
            lemma_all_pairs_row_major(lines, j, i);
        }
    }
    pairs.lemma_multiset_has_no_duplicates();
}

/// At no moment are more jobs under way than twice the number of workers:
/// that holds at the start, and no decision and no completion ends it.
pub proof fn lemma_cap_is_never_exceeded(
    state: SchedulerState,
    lines: nat,
    workers: nat,
    pair: PairKey,
)
    requires
        state.wf(),
        lines <= u32::MAX,
        workers >= 1,
    ensures
        SchedulerState::initial(lines, workers).wf(),
        state.after_decision().wf(),
        state.after_completion(pair).wf(),
        state.in_flight.len() <= 2 * state.workers,
        state.after_decision().in_flight.len() <= 2 * state.workers,
        state.after_completion(pair).in_flight.len() <= 2 * state.workers,
{
    if state.may_submit() {
        lemma_handed_out_grows(state.lines, state.submitted);
    }
}

/// Which pair is handed out does not depend on the number of workers, nor
/// on which jobs are under way: whenever a pair is handed out, it is the
/// next one in row-major order. So the same jobs are done whatever the
/// number of workers.
pub proof fn lemma_jobs_do_not_depend_on_workers(first: SchedulerState, second: SchedulerState)
    requires
        first.wf(),
        second.wf(),
        first.lines == second.lines,
        first.submitted == second.submitted,
        first.may_submit(),
        second.may_submit(),
    ensures
        first.decide() == second.decide(),
        first.decide() == Action::Submit(all_pairs(first.lines)[first.submitted as int]),
        first.after_decision().handed_out() == second.after_decision().handed_out(),
{
}

/// A job that is reported done and was under way was not done before, and
/// is done from then on; the jobs done before stay done.
pub proof fn lemma_completion_is_taken_once(state: SchedulerState, pair: PairKey)
    requires
        state.wf(),
        state.in_flight.contains(pair),
    ensures
        state.completed().count(pair) == 0,
        state.after_completion(pair).completed() =~= state.completed().insert(pair),
        !state.after_completion(pair).in_flight.contains(pair),
{
    lemma_handed_out_once(state.lines, state.submitted, pair);
}

/// Until the scheduler finishes it has a pair to hand out or a job to wait
/// for. It finishes only when every pair was handed out and no job is under
/// way; then the jobs done are the pairs among the lines, each of them once.
pub proof fn lemma_finished_means_every_pair_done_once(state: SchedulerState, i: nat, j: nat)
    requires
        state.wf(),
        i < j < state.lines,
    ensures
        state.decide() == Action::Wait ==> state.in_flight.len() > 0,
        state.decide() == Action::Finished <==> state.completed().len() == pair_count(state.lines),
        state.decide() == Action::Finished ==> state.completed() =~= all_pairs(
            state.lines,
        ).to_multiset(),
        state.decide() == Action::Finished ==> state.completed().count(
            PairKey { line_a: i as u32, line_b: j as u32 },
        ) == 1,
{
    let pair = PairKey { line_a: i as u32, line_b: j as u32 };
    lemma_all_pairs_len(state.lines);
    lemma_all_pairs_complete(state.lines, i, j);
    lemma_handed_out_once(state.lines, state.submitted, pair);
    assert(state.completed().len() == state.submitted - state.in_flight.len());
    if state.decide() == Action::Finished {
        assert(state.in_flight =~= Multiset::empty());
        assert(all_pairs(state.lines).take(state.submitted as int) =~= all_pairs(state.lines));
        assert(all_pairs(state.lines).contains(pair));
    }
}

/// Hands the pairs among the lines to a fixed number of workers, never more
/// than twice that number at once.
#[derive(Debug)]
pub struct Scheduler {
    pairs: PairEnumerator,
    workers: usize,
    in_flight: Vec<PairKey>,
}

impl View for Scheduler {
    type V = SchedulerState;

    closed spec fn view(&self) -> SchedulerState {
        SchedulerState {
            lines: self.pairs.lines(),
            workers: self.workers as nat,
            submitted: self.pairs.emitted(),
            in_flight: self.in_flight@.to_multiset(),
        }
    }
}

/// Finds a job for `pair` among those under way.
fn position_of(in_flight: &Vec<PairKey>, pair: PairKey) -> (found: Option<usize>)
    ensures
        match found {
            Some(at) => at < in_flight@.len() && in_flight@[at as int] == pair,
            None => !in_flight@.contains(pair),
        },
{
    let mut at: usize = 0;
    while at < in_flight.len()
        invariant
            at <= in_flight@.len(),
            forall|k: int| 0 <= k < at ==> in_flight@[k] != pair,
        decreases in_flight@.len() - at,
    {
        if in_flight[at].line_a == pair.line_a && in_flight[at].line_b == pair.line_b {
            return Some(at);
        }
        at = at + 1;
    }
    None
}

impl Scheduler {
    #[verifier::type_invariant]
    spec fn well_formed(self) -> bool {
        self@.wf()
    }

    /// Starts with no pair handed out.
    pub fn new(lines_cnt: u32, workers: usize) -> (scheduler: Self)
        requires
            workers >= 1,
        ensures
            scheduler@ =~= SchedulerState::initial(lines_cnt as nat, workers as nat),
    {
        Scheduler { pairs: PairEnumerator::new(lines_cnt), workers, in_flight: Vec::new() }
    }

    /// The number of workers.
    pub fn worker_count(&self) -> (workers: usize)
        ensures
            workers == self@.workers,
    {
        self.workers
    }

    /// The number of jobs under way, which never exceeds twice the number of workers.
    pub fn jobs_in_flight(&self) -> (in_flight: usize)
        ensures
            self@.wf(),
            in_flight == self@.in_flight.len(),
            in_flight <= 2 * self@.workers,
    {
        proof {
            use_type_invariant(self);
        }
        self.in_flight.len()
    }

    /// Decides what to do next, and counts a pair that is handed out as under way.
    ///
    /// While fewer than twice as many jobs as workers are under way and
    /// pairs are left, the next pair in row-major order is handed out.
    /// Otherwise the answer is to wait as long as a job is under way, and
    /// that all is finished once none is.
    pub fn next_action(&mut self) -> (action: Action)
        ensures
            old(self)@.wf(),
            action == old(self)@.decide(),
            final(self)@ =~= old(self)@.after_decision(),
            final(self)@.in_flight.len() <= 2 * final(self)@.workers,
    {
        proof {
            use_type_invariant(&*self);
        }
        let workers = self.workers;
        let under_way = self.in_flight.len();
        if under_way / 2 < workers {
            let mut pairs = self.pairs;
            match pairs.next_pair() {
                Some(pair) => {
                    proof {
                        lemma_handed_out_grows(self.pairs.lines(), self.pairs.emitted());
                    }
                    let mut in_flight: Vec<PairKey> = Vec::new();
                    core::mem::swap(&mut in_flight, &mut self.in_flight);
                    in_flight.push(pair);
                    *self = Scheduler { pairs, workers, in_flight };
                    return Action::Submit(pair);
                },
                None => {},
            }
        }
        if under_way > 0 {
            Action::Wait
        } else {
            Action::Finished
        }
    }

    /// Takes note that the job for `pair` is done, so that another may be
    /// handed out.
    ///
    /// Returns whether a job for `pair` was under way. If none was, because
    /// the pair was never handed out or its job was reported done before,
    /// nothing changes.
    pub fn job_completed(&mut self, pair: PairKey) -> (known: bool)
        ensures
            old(self)@.wf(),
            known == old(self)@.in_flight.contains(pair),
            final(self)@ =~= old(self)@.after_completion(pair),
            final(self)@.in_flight.len() <= 2 * final(self)@.workers,
    {
        proof {
            use_type_invariant(&*self);
        }
        match position_of(&self.in_flight, pair) {
            Some(at) => {
                let mut in_flight: Vec<PairKey> = Vec::new();
                core::mem::swap(&mut in_flight, &mut self.in_flight);
                in_flight.remove(at);
                *self = Scheduler { pairs: self.pairs, workers: self.workers, in_flight };
                true
            },
            None => false,
        }
    }
}

} // verus!
