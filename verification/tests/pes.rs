use tsmux::clock::FrameRate;
use tsmux::error::MuxError;
use tsmux::pes::{AccessUnit, PesFramer, StreamId};

fn framer() -> PesFramer {
    PesFramer::new(StreamId::Video(0), FrameRate { numerator: 30, denominator: 1 }, 0).unwrap()
}

fn unit(sequence_number: u64, key: bool) -> AccessUnit {
    AccessUnit {
        sequence_number,
        capture_time: 1_700_000_000_000_000 + sequence_number * 33_333,
        payload: vec![sequence_number as u8; 5],
        is_random_access: key,
    }
}

#[test]
fn framing_stamps_and_forwards() {
    let mut framer = framer();
    let pes = framer.frame(unit(4, true)).unwrap();
    assert_eq!(pes.stream_id, StreamId::Video(0));
    assert_eq!(pes.pts, 12_000);
    assert_eq!(pes.dts, None);
    assert_eq!(pes.payload, vec![4u8; 5]);
    assert!(pes.data_alignment);
    assert!(pes.random_access);
    assert_eq!(framer.last_sequence, Some(4));
    let pes = framer.frame(unit(5, false)).unwrap();
    assert_eq!(pes.pts, 15_000);
    assert!(!pes.random_access);
}

#[test]
fn framing_is_deterministic() {
    let a = framer().frame(unit(9, true)).unwrap();
    let b = framer().frame(unit(9, true)).unwrap();
    assert_eq!(a.pts, b.pts);
    assert_eq!(a.payload, b.payload);
    assert_eq!(a.random_access, b.random_access);
}

#[test]
fn frame_number_going_back_is_refused() {
    let mut framer = framer();
    framer.frame(unit(10, true)).unwrap();
    assert_eq!(framer.frame(unit(9, true)).unwrap_err(), MuxError::Configuration);
    assert_eq!(framer.last_sequence, Some(10));
    assert!(framer.frame(unit(10, false)).is_ok());
    assert!(framer.frame(unit(11, false)).is_ok());
}

#[test]
fn timestamp_beyond_33_bits_is_refused() {
    let mut framer =
        PesFramer::new(StreamId::Video(0), FrameRate { numerator: 30, denominator: 1 }, (1 << 33) - 3000)
            .unwrap();
    assert_eq!(framer.frame(unit(0, true)).unwrap().pts, (1 << 33) - 3000);
    assert_eq!(framer.frame(unit(1, true)).unwrap_err(), MuxError::ClockOverflow);
    assert_eq!(framer.last_sequence, Some(0));
}

#[test]
fn framer_settings_are_checked() {
    let zero = FrameRate { numerator: 0, denominator: 1 };
    let good = FrameRate { numerator: 25, denominator: 1 };
    assert_eq!(PesFramer::new(StreamId::Video(0), zero, 0).unwrap_err(), MuxError::Configuration);
    assert_eq!(PesFramer::new(StreamId::Video(16), good, 0).unwrap_err(), MuxError::Configuration);
    let mut broken = framer();
    broken.rate = zero;
    assert_eq!(broken.frame(unit(0, true)).unwrap_err(), MuxError::Configuration);
}

#[test]
fn video_stream_identifiers() {
    assert_eq!(StreamId::new_video(0), Ok(StreamId::Video(0)));
    assert_eq!(StreamId::new_video(15), Ok(StreamId::Video(15)));
    assert_eq!(StreamId::new_video(16), Err(MuxError::Configuration));
    assert_eq!(StreamId::Video(0).as_u8(), 0xE0);
    assert_eq!(StreamId::Video(15).as_u8(), 0xEF);
    assert!(StreamId::Video(3).check());
    assert!(!StreamId::Video(200).check());
}
