//! The rollback state machine: per tick, confirm what the opponent's real
//! input proved right, then replay or roll back what it proved wrong.
use vstd::prelude::*;
use std::collections::HashMap;
use crate::input::{held_input, input_result, same_input, EnemyInputHolder, RInput};
use crate::snapshot::{
    absorb, batches_of, discarded_entry, distinct_allocations, reconcile, released, Frame, RestorePlan,
};

verus! {

broadcast use vstd::std_specs::hash::group_hash_axioms;

/// A queued frame with the inputs it was captured with: the local player's
/// real input and the opponent input that was guessed.
pub struct RollFrame {
    pub prev_state: Frame,
    pub player_input: RInput,
    pub enemy_input: RInput,
}

impl RollFrame {
    /// Pairs a freshly captured frame with the inputs it is run with.
    pub fn dump_with_guess(prev_state: Frame, player_input: RInput, guess: RInput) -> (r: Self)
        ensures
            r == (RollFrame { prev_state, player_input, enemy_input: guess }),
    {
        Self { prev_state, player_input, enemy_input: guess }
    }
}

/// A frame that `start` confirmed, with the frees it deferred, now due.
pub struct Confirmed {
    pub entry: RollFrame,
    pub flushed: Vec<usize>,
}

/// What `start` found.
pub struct StartOutcome {
    /// Sub-steps this tick takes: the entries left in the queue, plus one.
    pub steps: usize,
    /// The confirmed entries, oldest first.
    pub confirmed: Vec<Confirmed>,
}

/// What sub-step `i` of a tick is, before it runs.
#[derive(Clone, Copy, Debug, PartialEq, Eq, Structural)]
pub enum StepKind {
    /// The newest position: capture a new frame.
    Forward,
    /// Replaying during a rollback: capture the entry again.
    Recapture,
    /// The entry's guess is stale: restore the host to it.
    Rollback,
    /// The entry's guess still holds: the tick is resolved.
    Resolved,
}

/// What the host must do after a sub-step.
pub enum StepAction {
    /// Run the tick with these inputs. `rolled_back` is set on the last
    /// sub-step of a tick that rolled back: side effects that the replay did
    /// not repeat are to be suppressed.
    Advance { player_input: RInput, opponent_input: RInput, last: bool, rolled_back: bool },
    /// Put the host back to queued entry `index`: release `plan.freed`, count
    /// `plan.leaked` as lost, write back that entry's regions, then run the
    /// tick with these inputs.
    Restore { index: usize, plan: RestorePlan, player_input: RInput, opponent_input: RInput },
    /// Nothing to do: the tick is resolved.
    Resolved,
}

/// Whether `e` may be confirmed: it is live and its guess equals the
/// authoritative input for its tick.
pub open spec fn confirms(e: RollFrame, s: Seq<Option<RInput>>) -> bool {
    &&& !e.prev_state.has_called_never_happened
    &&& input_result(s, e.prev_state.number as nat) == Ok::<RInput, RInput>(e.enemy_input)
}

/// How many leading entries `start` confirms.
pub open spec fn settled_count(entries: Seq<RollFrame>, s: Seq<Option<RInput>>) -> nat
    decreases entries.len(),
{
    if entries.len() == 0 {
        0
    } else if confirms(entries[0], s) {
        1 + settled_count(entries.skip(1), s)
    } else {
        0
    }
}

/// `m` with the weather check of each entry recorded under its tick.
pub open spec fn record_weathers(m: Map<usize, u8>, entries: Seq<RollFrame>) -> Map<usize, u8>
    decreases entries.len(),
{
    if entries.len() == 0 {
        m
    } else {
        record_weathers(m, entries.drop_last()).insert(
            entries.last().prev_state.number,
            entries.last().prev_state.weather_sync_check,
        )
    }
}

/// Whether `c` is `e` confirmed.
pub open spec fn confirmed_entry(e: RollFrame, c: Confirmed) -> bool {
    &&& c.flushed@ == e.prev_state.frees@
    &&& c.entry.player_input == e.player_input
    &&& c.entry.enemy_input == e.enemy_input
    &&& c.entry.prev_state.number == e.prev_state.number
    &&& c.entry.prev_state.extra_states@ == e.prev_state.extra_states@
    &&& c.entry.prev_state.weather_sync_check == e.prev_state.weather_sync_check
    &&& c.entry.prev_state.has_happened
    &&& c.entry.prev_state.allocs@.len() == 0
    &&& c.entry.prev_state.frees@.len() == 0
}

/// A frame straight from capture, laid out as its regions say.
pub open spec fn fresh(f: Frame) -> bool {
    f.wf() && !f.has_happened && !f.has_called_never_happened
}

/// Whether `plan` releases and abandons what discarding the entries `newer`,
/// then absorbing the pending allocations and frees, calls for.
pub open spec fn plan_matches(
    plan: RestorePlan,
    newer: Seq<RollFrame>,
    extra_allocs: Seq<usize>,
    extra_frees: Seq<usize>,
) -> bool {
    let r = reconcile(batches_of(newer));
    &&& plan.leaked@.to_set() == absorb(r.0, extra_allocs.to_set(), extra_frees.to_set())
    &&& plan.freed@.to_set() == r.1.union(released(r.0, extra_allocs.to_set(), extra_frees.to_set()))
    &&& plan.freed@.no_duplicates()
    &&& plan.leaked@.no_duplicates()
    &&& distinct_allocations(newer, extra_allocs) ==> plan.freed@.to_set().disjoint(plan.leaked@.to_set())
}

/// Draining a queue whose every guess was right: when each queued entry's
/// guess equals the input that then arrived for its tick, `start` confirms
/// them all and leaves the queue empty.
pub proof fn lemma_correct_delivery_drains(entries: Seq<RollFrame>, s: Seq<Option<RInput>>)
    requires
        forall|k: int| 0 <= k < entries.len() ==> confirms(#[trigger] entries[k], s),
    ensures
        settled_count(entries, s) == entries.len(),
        entries.skip(settled_count(entries, s) as int).len() == 0,
    decreases entries.len(),
{
    if entries.len() > 0 {
        assert(confirms(entries[0], s));
        assert forall|k: int| 0 <= k < entries.skip(1).len() implies confirms(#[trigger] entries.skip(1)[k], s) by {
            assert(entries.skip(1)[k] == entries[k + 1]);
        }
        lemma_correct_delivery_drains(entries.skip(1), s);
    }
}

/// Between ticks, once the opponent input for every queued tick has arrived
/// and equals the guess it was captured with, `start` confirms every entry and
/// returns one sub-step.
pub proof fn lemma_start_drains_when_inputs_arrived(r: Rollbacker)
    requires
        r.wf(),
        r.between_ticks(),
        forall|k: int| 0 <= k < r.guessed@.len() ==>
            input_result(r.enemy_inputs.view(), (#[trigger] r.guessed@[k]).prev_state.number as nat)
                == Ok::<RInput, RInput>(r.guessed@[k].enemy_input),
    ensures
        settled_count(r.guessed@, r.enemy_inputs.view()) == r.guessed@.len(),
        r.guessed@.skip(settled_count(r.guessed@, r.enemy_inputs.view()) as int).len() + 1 == 1,
{
    assert forall|k: int| 0 <= k < r.guessed@.len() implies confirms(#[trigger] r.guessed@[k], r.enemy_inputs.view()) by {
        assert(!r.guessed@[k].prev_state.has_called_never_happened);
    }
    lemma_correct_delivery_drains(r.guessed@, r.enemy_inputs.view());
}

proof fn lemma_settled_bound(entries: Seq<RollFrame>, s: Seq<Option<RInput>>)
    ensures
        settled_count(entries, s) <= entries.len(),
    decreases entries.len(),
{
    if entries.len() > 0 {
        lemma_settled_bound(entries.skip(1), s);
    }
}

proof fn lemma_settled_prefix(entries: Seq<RollFrame>, s: Seq<Option<RInput>>, k: int)
    requires
        0 <= k <= entries.len(),
        forall|j: int| 0 <= j < k ==> confirms(#[trigger] entries[j], s),
    ensures
        settled_count(entries, s) == k + settled_count(entries.skip(k), s),
    decreases k,
{
    if k > 0 {
        assert(confirms(entries[0], s));
        assert forall|j: int| 0 <= j < k - 1 implies confirms(#[trigger] entries.skip(1)[j], s) by {
            assert(entries.skip(1)[j] == entries[j + 1]);
        }
        lemma_settled_prefix(entries.skip(1), s, k - 1);
        assert(entries.skip(1).skip(k - 1) =~= entries.skip(k));
    } else {
        assert(entries.skip(0) =~= entries);
    }
}

/// The rollback engine's state: the queue of unconfirmed frames and the
/// inputs known so far.
pub struct Rollbacker {
    pub guessed: Vec<RollFrame>,
    pub current: usize,
    pub rolling_back: bool,
    pub enemy_inputs: EnemyInputHolder,
    pub self_inputs: Vec<RInput>,
    pub weathers: HashMap<usize, u8>,
}

impl Rollbacker {
    /// The queue holds live frames, laid out as captured, in ascending tick order.
    pub open spec fn wf(&self) -> bool {
        &&& self.guessed@.len() < usize::MAX
        &&& !self.rolling_back ==> self.between_ticks()
        &&& forall|k: int| 0 <= k < self.guessed@.len() ==> (#[trigger] self.guessed@[k]).prev_state.wf()
        &&& forall|k: int| 0 <= k < self.guessed@.len() ==> !(#[trigger] self.guessed@[k]).prev_state.has_happened
        &&& forall|j: int, k: int| 0 <= j < k < self.guessed@.len() ==>
            (#[trigger] self.guessed@[j]).prev_state.number < (#[trigger] self.guessed@[k]).prev_state.number
    }

    /// No queued entry is discarded: every sub-step of the last tick ran.
    pub open spec fn between_ticks(&self) -> bool {
        forall|k: int| 0 <= k < self.guessed@.len() ==> !(#[trigger] self.guessed@[k]).prev_state.has_called_never_happened
    }

    /// What sub-step `i` will do.
    pub open spec fn step_kind(&self, i: int) -> StepKind {
        if i == self.guessed@.len() {
            StepKind::Forward
        } else if self.rolling_back || self.guessed@[i].prev_state.has_called_never_happened {
            StepKind::Recapture
        } else if self.guessed@[i].enemy_input != held_input(
            self.enemy_inputs.view(),
            self.guessed@[i].prev_state.number as nat,
        ) {
            StepKind::Rollback
        } else {
            StepKind::Resolved
        }
    }

    /// An engine with nothing queued and no input known.
    pub fn new() -> (r: Self)
        ensures
            r.wf(),
            r.guessed@.len() == 0,
            r.current == 0,
            !r.rolling_back,
            r.enemy_inputs.view().len() == 0,
            r.self_inputs@.len() == 0,
            r.weathers@ == Map::<usize, u8>::empty(),
    {
        Self {
            guessed: Vec::new(),
            current: 0,
            rolling_back: false,
            enemy_inputs: EnemyInputHolder::new(),
            self_inputs: Vec::new(),
            weathers: HashMap::new(),
        }
    }

    /// Starts tick `current`, once the local input for it is known: confirms
    /// queued entries from the oldest on, as long as their guess matches the
    /// opponent input that arrived, recording each one's weather check.
    pub fn start(&mut self, current: usize) -> (r: StartOutcome)
        requires
            old(self).wf(),
            old(self).between_ticks(),
        ensures
            final(self).wf(),
            final(self).between_ticks(),
            r.confirmed@.len() == settled_count(old(self).guessed@, old(self).enemy_inputs.view()),
            final(self).guessed@ == old(self).guessed@.skip(r.confirmed@.len() as int),
            forall|k: int| 0 <= k < r.confirmed@.len() ==> confirms(old(self).guessed@[k], old(self).enemy_inputs.view()),
            forall|k: int| 0 <= k < r.confirmed@.len() ==> confirmed_entry(old(self).guessed@[k], #[trigger] r.confirmed@[k]),
            final(self).weathers@ == record_weathers(old(self).weathers@, old(self).guessed@.take(r.confirmed@.len() as int)),
            r.steps == final(self).guessed@.len() + 1,
            final(self).current == current,
            !final(self).rolling_back,
            final(self).enemy_inputs == old(self).enemy_inputs,
            final(self).self_inputs@ == old(self).self_inputs@,
    {
        self.current = current;
        let ghost g0 = self.guessed@;
        let ghost s = self.enemy_inputs.view();
        let mut confirmed: Vec<Confirmed> = Vec::new();
        proof {
            lemma_settled_bound(g0, s);
            assert(g0.skip(0) =~= g0);
            assert(g0.take(0) =~= Seq::<RollFrame>::empty());
        }
        loop
            invariant
                self.wf(),
                s == self.enemy_inputs.view(),
                self.enemy_inputs == old(self).enemy_inputs,
                self.self_inputs@ == old(self).self_inputs@,
                self.current == current,
                g0 == old(self).guessed@,
                confirmed@.len() <= g0.len(),
                self.guessed@ == g0.skip(confirmed@.len() as int),
                forall|k: int| 0 <= k < confirmed@.len() ==> confirms(g0[k], s),
                forall|k: int| 0 <= k < confirmed@.len() ==> confirmed_entry(g0[k], #[trigger] confirmed@[k]),
                self.weathers@ == record_weathers(old(self).weathers@, g0.take(confirmed@.len() as int)),
            ensures
                self.wf(),
                self.guessed@ == g0.skip(confirmed@.len() as int),
                confirmed@.len() <= g0.len(),
                forall|k: int| 0 <= k < confirmed@.len() ==> confirms(g0[k], s),
                forall|k: int| 0 <= k < confirmed@.len() ==> confirmed_entry(g0[k], #[trigger] confirmed@[k]),
                self.weathers@ == record_weathers(old(self).weathers@, g0.take(confirmed@.len() as int)),
                self.enemy_inputs == old(self).enemy_inputs,
                self.self_inputs@ == old(self).self_inputs@,
                self.current == current,
                confirmed@.len() == g0.len() || !confirms(g0[confirmed@.len() as int], s),
            decreases self.guessed@.len(),
        {
            if self.guessed.len() == 0 {
                break;
            }
            let matches = if self.guessed[0].prev_state.has_called_never_happened {
                false
            } else {
                match self.enemy_inputs.get_result(self.guessed[0].prev_state.number) {
                    Ok(x) => same_input(&x, &self.guessed[0].enemy_input),
                    Err(_) => false,
                }
            };
            if !matches {
                proof {
                    assert(self.guessed@[0] == g0[confirmed@.len() as int]);
                }
                break;
            }
            let ghost n = confirmed@.len() as int;
            let mut m = self.guessed.remove(0);
            proof {
                assert(m == g0[n]);
                assert(g0.skip(n + 1) =~= g0.skip(n).skip(1));
                assert(g0.take(n + 1).drop_last() =~= g0.take(n));
            }
            self.weathers.insert(m.prev_state.number, m.prev_state.weather_sync_check);
            let flushed = m.prev_state.did_happen();
            confirmed.push(Confirmed { entry: m, flushed });
        }
        proof {
            let n = confirmed@.len() as int;
            lemma_settled_prefix(g0, s, n);
            if n < g0.len() {
                assert(g0.skip(n)[0] == g0[n]);
            }
        }
        self.rolling_back = false;
        StartOutcome { steps: self.guessed.len() + 1, confirmed }
    }

    /// What sub-step `i` will do, so that the caller can capture a frame or
    /// collect the pending allocations first.
    pub fn plan_step(&self, i: usize) -> (r: StepKind)
        requires
            i <= self.guessed@.len(),
        ensures
            r == self.step_kind(i as int),
    {
        if i == self.guessed.len() {
            StepKind::Forward
        } else if self.rolling_back || self.guessed[i].prev_state.has_called_never_happened {
            StepKind::Recapture
        } else {
            let guess = self.enemy_inputs.get(self.guessed[i].prev_state.number);
            if !same_input(&self.guessed[i].enemy_input, &guess) {
                StepKind::Rollback
            } else {
                StepKind::Resolved
            }
        }
    }

    /// Sub-step `iteration_number` of the tick `current`. `capture` is the
    /// frame captured just before, when `plan_step` asked for one; the
    /// pending allocations and frees since the newest capture count only
    /// when the step rolls back.
    pub fn step(
        &mut self,
        iteration_number: usize,
        current: usize,
        capture: Option<Frame>,
        pending_allocs: &Vec<usize>,
        pending_frees: &Vec<usize>,
    ) -> (r: StepAction)
        requires
            old(self).wf(),
            iteration_number <= old(self).guessed@.len(),
            (capture is Some) == (old(self).step_kind(iteration_number as int) == StepKind::Forward
                || old(self).step_kind(iteration_number as int) == StepKind::Recapture),
            capture matches Some(f) ==> fresh(f),
            old(self).step_kind(iteration_number as int) == StepKind::Forward ==> {
                &&& current < old(self).self_inputs@.len()
                &&& capture->0.number == current
                &&& old(self).guessed@.len() + 1 < usize::MAX
                &&& old(self).guessed@.len() > 0 ==> old(self).guessed@.last().prev_state.number < current
            },
            old(self).step_kind(iteration_number as int) == StepKind::Recapture ==>
                capture->0.number == old(self).guessed@[iteration_number as int].prev_state.number,
            old(self).step_kind(iteration_number as int) == StepKind::Rollback ==>
                old(self).guessed@[iteration_number as int].prev_state.number != 0,
        ensures
            final(self).wf(),
            final(self).enemy_inputs == old(self).enemy_inputs,
            final(self).self_inputs@ == old(self).self_inputs@,
            final(self).weathers@ == old(self).weathers@,
            final(self).current == old(self).current,
            old(self).between_ticks() && old(self).step_kind(iteration_number as int) == StepKind::Forward
                ==> final(self).between_ticks(),
            ({
                let i = iteration_number as int;
                let g = old(self).guessed@;
                let s = old(self).enemy_inputs.view();
                match old(self).step_kind(i) {
                    StepKind::Forward => {
                        let e = RollFrame {
                            prev_state: capture->0,
                            player_input: old(self).self_inputs@[current as int],
                            enemy_input: held_input(s, current as nat),
                        };
                        &&& final(self).guessed@ == g.push(e)
                        &&& final(self).rolling_back == old(self).rolling_back
                        &&& r == (StepAction::Advance {
                            player_input: e.player_input,
                            opponent_input: e.enemy_input,
                            last: true,
                            rolled_back: old(self).rolling_back,
                        })
                    },
                    StepKind::Recapture => {
                        let e = RollFrame {
                            prev_state: capture->0,
                            player_input: g[i].player_input,
                            enemy_input: held_input(s, g[i].prev_state.number as nat),
                        };
                        &&& final(self).guessed@ == g.update(i, e)
                        &&& final(self).rolling_back == old(self).rolling_back
                        &&& r == (StepAction::Advance {
                            player_input: e.player_input,
                            opponent_input: e.enemy_input,
                            last: false,
                            rolled_back: false,
                        })
                    },
                    StepKind::Rollback => {
                        let ei = held_input(s, g[i].prev_state.number as nat);
                        &&& final(self).rolling_back
                        &&& final(self).guessed@.len() == g.len()
                        &&& forall|k: int| 0 <= k < i ==> #[trigger] final(self).guessed@[k] == g[k]
                        &&& final(self).guessed@[i] == (RollFrame { enemy_input: ei, ..g[i] })
                        &&& forall|k: int| i < k < g.len() ==> discarded_entry(g[k], #[trigger] final(self).guessed@[k])
                        &&& r matches StepAction::Restore { index, plan, player_input, opponent_input }
                        &&& index == iteration_number
                        &&& player_input == g[i].player_input
                        &&& opponent_input == ei
                        &&& plan_matches(plan, g.skip(i + 1), pending_allocs@, pending_frees@)
                    },
                    StepKind::Resolved => {
                        &&& final(self).guessed@ == g
                        &&& final(self).rolling_back == old(self).rolling_back
                        &&& r is Resolved
                    },
                }
            }),
    {
        let kind = self.plan_step(iteration_number);
        match kind {
            StepKind::Forward => {
                let f = match capture {
                    Some(f) => f,
                    None => {
                        return StepAction::Resolved;
                    },
                };
                let si = self.self_inputs[current];
                let ei = self.enemy_inputs.get(current);
                let rolled_back = self.rolling_back;
                let e = RollFrame::dump_with_guess(f, si, ei);
                self.guessed.push(e);
                StepAction::Advance { player_input: si, opponent_input: ei, last: true, rolled_back }
            },
            StepKind::Recapture => {
                let f = match capture {
                    Some(f) => f,
                    None => {
                        return StepAction::Resolved;
                    },
                };
                let ei = self.enemy_inputs.get(f.number);
                let e = &mut self.guessed[iteration_number];
                e.prev_state = f;
                e.enemy_input = ei;
                let si = e.player_input;
                StepAction::Advance { player_input: si, opponent_input: ei, last: false, rolled_back: false }
            },
            StepKind::Rollback => {
                let ghost g = self.guessed@;
                let mut newer = self.guessed.split_off(iteration_number + 1);
                proof {
                    assert(newer@ =~= g.skip(iteration_number + 1));
                }
                let plan = self.guessed[iteration_number].prev_state.restore(&mut newer, pending_allocs, pending_frees);
                self.guessed.append(&mut newer);
                let ei = self.enemy_inputs.get(self.guessed[iteration_number].prev_state.number);
                let e = &mut self.guessed[iteration_number];
                e.enemy_input = ei;
                let si = e.player_input;
                self.rolling_back = true;
                StepAction::Restore { index: iteration_number, plan, player_input: si, opponent_input: ei }
            },
            StepKind::Resolved => StepAction::Resolved,
        }
    }
}

/// The battle state that holds the host's tick loop still.
pub const PAUSED_STATE: u32 = 4;

/// The "nothing saved" marker for the state a pause interrupted.
pub const NO_SAVED_STATE: u8 = 0x6b;

/// Holds the host's tick loop still while sub-steps remain: saves the
/// current battle state in `last_state` and steps the state's sub-counter
/// back, unless already paused.
pub fn pause(last_state: &mut u8, battle_state: &mut u32, state_sub_count: &mut u32)
    ensures
        *old(battle_state) != PAUSED_STATE ==> {
            &&& *final(last_state) == *old(battle_state) as u8
            &&& *final(state_sub_count) == vstd::wrapping::u32_specs::wrapping_sub(*old(state_sub_count), 1)
            &&& *final(battle_state) == PAUSED_STATE
        },
        *old(battle_state) == PAUSED_STATE ==> {
            &&& *final(last_state) == *old(last_state)
            &&& *final(state_sub_count) == *old(state_sub_count)
            &&& *final(battle_state) == PAUSED_STATE
        },
{
    if *battle_state != PAUSED_STATE {
        *last_state = *battle_state as u8;
        *state_sub_count = state_sub_count.wrapping_sub(1);
        *battle_state = PAUSED_STATE;
    }
}

/// Lets the host's tick loop go on: puts back the state that `pause` saved,
/// if the host is still paused.
pub fn resume(last_state: &mut u8, battle_state: &mut u32)
    ensures
        (*old(last_state) != NO_SAVED_STATE && *old(battle_state) == PAUSED_STATE) ==> {
            &&& *final(battle_state) == *old(last_state) as u32
            &&& *final(last_state) == NO_SAVED_STATE
        },
        !(*old(last_state) != NO_SAVED_STATE && *old(battle_state) == PAUSED_STATE) ==> {
            &&& *final(battle_state) == *old(battle_state)
            &&& *final(last_state) == *old(last_state)
        },
{
    if *last_state != NO_SAVED_STATE && *battle_state == PAUSED_STATE {
        *battle_state = *last_state as u32;
        *last_state = NO_SAVED_STATE;
    }
}

/// The inputs in host order: the first player's, then the second's.
pub fn apply_input(is_p1: bool, input: RInput, opponent_input: RInput) -> (r: (RInput, RInput))
    ensures
        r == if is_p1 { (input, opponent_input) } else { (opponent_input, input) },
{
    if is_p1 {
        (input, opponent_input)
    } else {
        (opponent_input, input)
    }
}

} // verus!