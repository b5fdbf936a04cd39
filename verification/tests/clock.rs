use tsmux::clock::{presentation_time, FrameRate, MAX_TIMESTAMP, TICKS_PER_SECOND};
use tsmux::error::MuxError;

fn rate(numerator: u32, denominator: u32) -> FrameRate {
    FrameRate { numerator, denominator }
}

#[test]
fn thirty_frames_per_second_is_3000_ticks_a_frame() {
    for n in 0..1000u64 {
        assert_eq!(presentation_time(0, n, rate(30, 1)), Ok(3000 * n));
    }
    assert_eq!(TICKS_PER_SECOND, 90_000);
}

#[test]
fn base_time_is_added() {
    assert_eq!(presentation_time(90_000, 0, rate(30, 1)), Ok(90_000));
    assert_eq!(presentation_time(90_000, 7, rate(30, 1)), Ok(111_000));
}

#[test]
fn ntsc_rate_is_3003_ticks_a_frame() {
    assert_eq!(presentation_time(0, 1, rate(30_000, 1001)), Ok(3003));
    assert_eq!(presentation_time(0, 1000, rate(30_000, 1001)), Ok(3_003_000));
}

#[test]
fn ticks_are_rounded_to_nearest() {
    assert_eq!(presentation_time(0, 1, rate(7, 1)), Ok(12_857));
    assert_eq!(presentation_time(0, 2, rate(7, 1)), Ok(25_714));
    assert_eq!(presentation_time(0, 3, rate(7, 1)), Ok(38_571));
    assert_eq!(presentation_time(0, 4, rate(7, 1)), Ok(51_429));
}

#[test]
fn halves_are_rounded_up() {
    assert_eq!(presentation_time(0, 1, rate(60_000, 1)), Ok(2));
    assert_eq!(presentation_time(0, 2, rate(60_000, 1)), Ok(3));
    assert_eq!(presentation_time(0, 3, rate(60_000, 1)), Ok(5));
}

#[test]
fn timestamps_stop_at_33_bits() {
    assert_eq!(MAX_TIMESTAMP, (1u64 << 33) - 1);
    assert_eq!(presentation_time(MAX_TIMESTAMP, 0, rate(30, 1)), Ok(MAX_TIMESTAMP));
    assert_eq!(presentation_time(MAX_TIMESTAMP, 1, rate(30, 1)), Err(MuxError::ClockOverflow));
    assert_eq!(presentation_time(0, 2_863_311, rate(30, 1)), Ok(8_589_933_000));
    assert_eq!(presentation_time(0, 2_863_312, rate(30, 1)), Err(MuxError::ClockOverflow));
    assert_eq!(presentation_time(0, u64::MAX, rate(1, u32::MAX)), Err(MuxError::ClockOverflow));
    assert_eq!(presentation_time(u64::MAX, u64::MAX, rate(u32::MAX, 1)), Err(MuxError::ClockOverflow));
}

#[test]
fn zero_frame_rate_is_a_configuration_error() {
    assert_eq!(presentation_time(0, 1, rate(0, 1)), Err(MuxError::Configuration));
    assert_eq!(presentation_time(0, 1, rate(30, 0)), Err(MuxError::Configuration));
    assert!(!rate(0, 0).check());
    assert!(rate(25, 1).check());
}

#[test]
fn timestamps_never_decrease_with_the_frame_number() {
    let rates = [rate(30, 1), rate(7, 3), rate(30_000, 1001), rate(1, 1)];
    for r in rates {
        let mut last = 0;
        for n in 0..500u64 {
            let pts = presentation_time(0, n, r).unwrap();
            assert!(pts >= last);
            last = pts;
        }
    }
}
