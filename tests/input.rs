use giuroll::input::EnemyInputHolder;
use giuroll::{input_to_accum, RInput};

fn press(keys: &[usize]) -> RInput {
    let mut r = [false; 12];
    for k in keys {
        r[*k] = true;
    }
    r
}

#[test]
fn neutral_before_anything_arrived() {
    let h = EnemyInputHolder::new();
    assert_eq!(h.get(0), [false; 12]);
    assert_eq!(h.get(7), [false; 12]);
    assert_eq!(h.get_result(0), Err([false; 12]));
}

#[test]
fn received_input_is_authoritative() {
    let mut h = EnemyInputHolder::new();
    let x = press(&[0, 4]);
    h.insert(x, 3);
    assert_eq!(h.i.len(), 4);
    assert_eq!(h.i[0], None);
    assert_eq!(h.get_result(3), Ok(x));
    assert_eq!(h.get(3), x);
}

#[test]
fn prediction_holds_last_known_input() {
    let mut h = EnemyInputHolder::new();
    let x = press(&[1]);
    let y = press(&[2, 5]);
    h.insert(x, 2);
    h.insert(y, 5);
    assert_eq!(h.get(4), x);
    assert_eq!(h.get_result(4), Err(x));
    assert_eq!(h.get(9), y);
    assert_eq!(h.get(1), [false; 12]);
    assert_eq!(h.get_result(0), Err([false; 12]));
}

#[test]
fn inserting_same_input_twice_changes_nothing() {
    let mut h = EnemyInputHolder::new();
    let x = press(&[3]);
    h.insert(x, 6);
    let before = h.i.clone();
    assert!(h.accepts(&x, 6));
    h.insert(x, 6);
    assert_eq!(h.i, before);
}

#[test]
fn conflicting_input_is_refused() {
    let mut h = EnemyInputHolder::new();
    let x = press(&[3]);
    let y = press(&[4]);
    h.insert(x, 6);
    assert!(!h.accepts(&y, 6));
    assert!(h.accepts(&y, 7));
    assert!(h.accepts(&y, 2));
}

#[test]
fn input_bits_pack_by_button() {
    assert_eq!(input_to_accum(&[false; 12]), 0);
    assert_eq!(input_to_accum(&press(&[0])), 1);
    assert_eq!(input_to_accum(&press(&[0, 3, 11])), 1 + 8 + 2048);
    assert_eq!(input_to_accum(&[true; 12]), 4095);
}
