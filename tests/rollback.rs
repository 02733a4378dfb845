use giuroll::rollback::{NO_SAVED_STATE, PAUSED_STATE};
use giuroll::{apply_input, pause, resume};
use giuroll::{Frame, ReadAddrMetadata, RInput, RollFrame, Rollbacker, StepAction, StepKind};

const X: RInput = [true, false, false, false, false, false, false, false, false, false, false, false];
const Y: RInput = [false, true, false, false, false, false, false, false, false, false, false, false];
const N: RInput = [false; 12];

fn frame(number: usize) -> Frame {
    Frame::capture(
        number,
        vec![ReadAddrMetadata { size: 4, pos: 0x800 }],
        &vec![vec![number as u8, 0, 0, 0]],
        [0u8; 108],
        vec![],
        vec![],
        vec![],
        number as u32,
    )
}

fn frame_allocs(number: usize, allocs: Vec<usize>, frees: Vec<usize>) -> Frame {
    Frame::capture(
        number,
        vec![ReadAddrMetadata { size: 4, pos: 0x800 }],
        &vec![vec![0, 0, 0, 0]],
        [0u8; 108],
        allocs,
        frees,
        vec![],
        0,
    )
}

/// Runs every sub-step of tick `t`, as the host's loop would.
fn run_tick(rb: &mut Rollbacker, t: usize) -> (usize, Vec<StepKind>) {
    let out = rb.start(t);
    let mut kinds = vec![];
    let mut i = 0;
    while i < out.steps {
        let kind = rb.plan_step(i);
        kinds.push(kind);
        let cap = match kind {
            StepKind::Forward => Some(frame(t)),
            StepKind::Recapture => Some(frame(rb.guessed[i].prev_state.number)),
            _ => None,
        };
        if let StepAction::Resolved = rb.step(i, t, cap, &vec![], &vec![]) {
            break;
        }
        i += 1;
    }
    (out.steps, kinds)
}

#[test]
fn start_confirms_matching_prefix() {
    let mut rb = Rollbacker::new();
    rb.guessed.push(RollFrame::dump_with_guess(frame(10), N, X));
    rb.guessed.push(RollFrame::dump_with_guess(frame(11), N, X));
    rb.guessed.push(RollFrame::dump_with_guess(frame(12), N, X));
    rb.enemy_inputs.insert(X, 10);
    rb.enemy_inputs.insert(X, 11);
    rb.enemy_inputs.insert(Y, 12);
    let out = rb.start(13);
    assert_eq!(out.steps, 2);
    assert_eq!(out.confirmed.len(), 2);
    assert_eq!(out.confirmed[0].entry.prev_state.number, 10);
    assert_eq!(out.confirmed[1].entry.prev_state.number, 11);
    assert!(out.confirmed[1].entry.prev_state.has_happened);
    assert_eq!(rb.guessed.len(), 1);
    assert_eq!(rb.guessed[0].prev_state.number, 12);
    assert_eq!(rb.weathers.get(&10), Some(&170));
    assert_eq!(rb.weathers.get(&11), Some(&187));
    assert_eq!(rb.weathers.get(&12), None);
    assert_eq!(rb.current, 13);
}

#[test]
fn start_stops_at_unresolved_input() {
    let mut rb = Rollbacker::new();
    rb.guessed.push(RollFrame::dump_with_guess(frame(10), N, X));
    rb.guessed.push(RollFrame::dump_with_guess(frame(11), N, X));
    rb.enemy_inputs.insert(X, 10);
    let out = rb.start(12);
    assert_eq!(out.steps, 2);
    assert_eq!(rb.guessed[0].prev_state.number, 11);
}

#[test]
fn stale_oldest_guess_rolls_back_and_replays() {
    let mut rb = Rollbacker::new();
    rb.self_inputs = vec![N; 20];
    rb.guessed.push(RollFrame::dump_with_guess(frame(10), N, N));
    rb.guessed.push(RollFrame::dump_with_guess(frame_allocs(11, vec![100], vec![]), X, N));
    rb.guessed.push(RollFrame::dump_with_guess(frame_allocs(12, vec![200], vec![100]), N, N));
    rb.enemy_inputs.insert(Y, 10);
    let out = rb.start(13);
    assert_eq!(out.steps, 4);
    assert!(out.confirmed.is_empty());
    assert_eq!(rb.plan_step(0), StepKind::Rollback);
    match rb.step(0, 13, None, &vec![300], &vec![]) {
        StepAction::Restore { index, plan, player_input, opponent_input } => {
            assert_eq!(index, 0);
            assert_eq!(player_input, N);
            assert_eq!(opponent_input, Y);
            assert_eq!(plan.freed, vec![100]);
            let mut leaked = plan.leaked.clone();
            leaked.sort();
            assert_eq!(leaked, vec![200, 300]);
        }
        _ => panic!("expected a rollback"),
    }
    assert!(rb.rolling_back);
    assert_eq!(rb.guessed[0].enemy_input, Y);
    assert!(rb.guessed[1].prev_state.has_called_never_happened);
    assert!(rb.guessed[2].prev_state.has_called_never_happened);
    assert!(!rb.guessed[0].prev_state.has_called_never_happened);
    assert_eq!(rb.plan_step(1), StepKind::Recapture);
    match rb.step(1, 13, Some(frame(11)), &vec![], &vec![]) {
        StepAction::Advance { player_input, opponent_input, last, rolled_back } => {
            assert_eq!(player_input, X);
            assert_eq!(opponent_input, Y);
            assert!(!last);
            assert!(!rolled_back);
        }
        _ => panic!("expected a replay"),
    }
    assert!(!rb.guessed[1].prev_state.has_called_never_happened);
    assert_eq!(rb.guessed[1].enemy_input, Y);
    assert_eq!(rb.plan_step(2), StepKind::Recapture);
    rb.step(2, 13, Some(frame(12)), &vec![], &vec![]);
    assert_eq!(rb.plan_step(3), StepKind::Forward);
    match rb.step(3, 13, Some(frame(13)), &vec![], &vec![]) {
        StepAction::Advance { last, rolled_back, opponent_input, .. } => {
            assert!(last);
            assert!(rolled_back);
            assert_eq!(opponent_input, Y);
        }
        _ => panic!("expected the new tick"),
    }
    assert_eq!(rb.guessed.len(), 4);
    assert_eq!(rb.guessed[3].prev_state.number, 13);
}

#[test]
fn matching_guess_resolves_the_tick() {
    let mut rb = Rollbacker::new();
    rb.self_inputs = vec![N; 20];
    rb.guessed.push(RollFrame::dump_with_guess(frame(10), N, X));
    rb.enemy_inputs.insert(X, 9);
    let out = rb.start(11);
    assert_eq!(out.steps, 2);
    assert_eq!(rb.plan_step(0), StepKind::Resolved);
    assert!(matches!(rb.step(0, 11, None, &vec![], &vec![]), StepAction::Resolved));
    assert_eq!(rb.guessed.len(), 1);
}

#[test]
fn correct_delivery_empties_the_queue() {
    let mut rb = Rollbacker::new();
    rb.self_inputs = vec![N; 40];
    for t in 1..=10 {
        if t > 1 {
            rb.enemy_inputs.insert(X, t - 1);
        }
        let (_, kinds) = run_tick(&mut rb, t);
        assert_eq!(*kinds.last().unwrap(), StepKind::Forward);
    }
    rb.enemy_inputs.insert(X, 10);
    let out = rb.start(11);
    assert_eq!(rb.guessed.len(), 0);
    assert_eq!(out.steps, 1);
}

#[test]
fn delayed_delivery_queues_then_drains() {
    let mut rb = Rollbacker::new();
    rb.self_inputs = vec![N; 40];
    for t in 1..=6 {
        if t > 3 {
            rb.enemy_inputs.insert(X, t - 3);
        }
        run_tick(&mut rb, t);
    }
    assert!(rb.guessed.len() > 0);
    for t in 4..=6 {
        rb.enemy_inputs.insert(X, t);
    }
    rb.start(7);
    assert_eq!(rb.guessed.len(), 0);
}

#[test]
fn pause_and_resume_round_trip() {
    let mut last = NO_SAVED_STATE;
    let mut state = 1u32;
    let mut sub = 10u32;
    pause(&mut last, &mut state, &mut sub);
    assert_eq!((last, state, sub), (1, PAUSED_STATE, 9));
    pause(&mut last, &mut state, &mut sub);
    assert_eq!((last, state, sub), (1, PAUSED_STATE, 9));
    resume(&mut last, &mut state);
    assert_eq!((last, state), (NO_SAVED_STATE, 1));
    resume(&mut last, &mut state);
    assert_eq!((last, state), (NO_SAVED_STATE, 1));
    let mut sub0 = 0u32;
    let mut state2 = 3u32;
    pause(&mut last, &mut state2, &mut sub0);
    assert_eq!(sub0, u32::MAX);
}

#[test]
fn inputs_go_in_player_order() {
    assert_eq!(apply_input(true, X, Y), (X, Y));
    assert_eq!(apply_input(false, X, Y), (Y, X));
}
