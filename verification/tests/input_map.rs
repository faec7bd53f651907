use longfred_proto::input_map::{map_fn_key, ChordState};

#[test]
fn map_fn_key_no_shift() {
    for k in 0..=8 {
        assert_eq!(map_fn_key(k, false, false), k);
    }
}

#[test]
fn map_fn_key_shift1() {
    for k in 0..=8 {
        assert_eq!(map_fn_key(k, true, false), k + 9);
    }
}

#[test]
fn map_fn_key_shift2() {
    for k in 0..=8 {
        assert_eq!(map_fn_key(k, false, true), k + 18);
        assert_eq!(map_fn_key(k, true, true), k + 18);
    }
}

#[test]
fn chord_fires_once_after_hold() {
    let mut c = ChordState::new();
    assert!(!c.update(true, true, 0, 1000));
    assert!(!c.update(true, true, 500, 1000));
    assert!(c.update(true, true, 1000, 1000));
    assert!(!c.update(true, true, 1500, 1000));
    assert!(!c.update(true, true, 2000, 1000));
}

#[test]
fn chord_resets_on_release() {
    let mut c = ChordState::new();
    assert!(!c.update(true, true, 0, 1000));
    assert!(c.update(true, true, 1000, 1000));
    assert!(!c.update(true, false, 1100, 1000));
    assert_eq!(c.both_since_ms, None);
    assert!(!c.fired);
    assert!(!c.update(true, true, 1200, 1000));
    assert!(c.update(true, true, 2200, 1000));
}

#[test]
fn chord_requires_both() {
    let mut c = ChordState::new();
    assert!(!c.update(true, false, 0, 100));
    assert!(!c.update(false, true, 50, 100));
    assert!(!c.update(false, false, 100, 100));
    assert!(!c.update(true, true, 200, 100));
    assert!(c.update(true, true, 300, 100));
}

#[test]
fn chord_zero_hold_fires_immediately() {
    let mut c = ChordState::new();
    assert!(c.update(true, true, 42, 0));
    assert!(!c.update(true, true, 42, 0));
}

#[test]
fn chord_partial_release_aborts() {
    let mut c = ChordState::new();
    assert!(!c.update(true, true, 0, 500));
    assert!(!c.update(true, true, 200, 500));
    assert!(!c.update(false, true, 300, 500));
    assert!(!c.update(true, true, 400, 500));
    assert!(!c.update(true, true, 800, 500));
    assert!(c.update(true, true, 900, 500));
}

#[test]
fn chord_new_is_idle() {
    let c = ChordState::new();
    assert_eq!(c.both_since_ms, None);
    assert!(!c.fired);
}
