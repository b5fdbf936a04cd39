use tsmux::continuity::ContinuityState;

#[test]
fn fresh_counters_are_zero() {
    let state = ContinuityState::new();
    assert_eq!(state.peek(0), 0);
    assert_eq!(state.peek(32), 0);
    assert_eq!(state.peek(0x1FFF), 0);
}

#[test]
fn counter_wraps_after_fifteen() {
    let mut state = ContinuityState::new();
    for k in 0..40u8 {
        assert_eq!(state.take(32), k % 16);
    }
    assert_eq!(state.peek(32), 8);
}

#[test]
fn counters_of_different_identifiers_are_independent() {
    let mut state = ContinuityState::new();
    assert_eq!(state.take(32), 0);
    assert_eq!(state.take(32), 1);
    assert_eq!(state.take(33), 0);
    assert_eq!(state.take(32), 2);
    assert_eq!(state.peek(33), 1);
    assert_eq!(state.peek(34), 0);
}

#[test]
fn set_keeps_the_low_four_bits() {
    let mut state = ContinuityState::new();
    state.set(32, 15);
    assert_eq!(state.take(32), 15);
    assert_eq!(state.take(32), 0);
    state.set(32, 0x1A);
    assert_eq!(state.peek(32), 10);
}
