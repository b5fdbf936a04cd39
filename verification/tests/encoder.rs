use tsmux::encoder::encode;
use tsmux::error::MuxError;
use tsmux::wire::{PacketPlan, Payload, PesHeader};

#[test]
fn encoder_writes_the_image_of_a_first_packet() {
    let header = PesHeader {
        stream_id: 0xE0,
        data_alignment: true,
        pts: 3000,
        dts: None,
        packet_length: 0,
    };
    let plan = PacketPlan {
        pid: 32,
        counter: 3,
        random_access: true,
        payload: Payload::PesStart { header, data: vec![1, 2, 3] },
    };
    let packet = encode(&plan).unwrap();
    let bytes = packet.as_bytes();
    assert_eq!(bytes.len(), 188);
    assert_eq!(&bytes[..4], &[0x47, 0x40, 0x20, 0x33]);
    assert_eq!(bytes[4], 166);
    assert_eq!(bytes[5], 0x40);
    assert!(bytes[6..171].iter().all(|b| *b == 0xFF));
    assert_eq!(
        &bytes[171..],
        &[0, 0, 1, 0xE0, 0, 0, 0x85, 0x80, 5, 0x21, 0x00, 0x01, 0x17, 0x71, 1, 2, 3]
    );
}

fn next(seed: &mut u64) -> u64 {
    *seed ^= *seed << 13;
    *seed ^= *seed >> 7;
    *seed ^= *seed << 17;
    *seed
}

fn bytes(seed: &mut u64, len: usize) -> Vec<u8> {
    (0..len).map(|_| next(seed) as u8).collect()
}

#[test]
fn every_continuation_that_fits_is_serialised() {
    let mut seed = 0x9E37_79B9_7F4A_7C15u64;
    for len in 1..=184usize {
        for random_access in [false, true] {
            let plan = PacketPlan {
                pid: (next(&mut seed) % 0x2000) as u16,
                counter: (next(&mut seed) % 16) as u8,
                random_access,
                payload: Payload::PesContinuation { data: bytes(&mut seed, len) },
            };
            let result = encode(&plan);
            assert_eq!(result.is_ok(), !random_access || len <= 182, "{} bytes", len);
        }
    }
}

#[test]
fn every_unit_start_that_fits_is_serialised() {
    let mut seed = 0xD1B5_4A32_D192_ED03u64;
    let stamps = [0u64, 1, 127, 128, 0x7FFF, 0x8000, 0x3F_FFFF, 0x40_0000, 0x3FFF_FFFF,
        0x4000_0000, 0x1_0000_0000, 0x1_FFFF_FFFF];
    for pts in stamps {
        for dts in [None, Some(0u64), Some(pts), Some(0x1_FFFF_FFFF)] {
            for len in [0usize, 1, 100, 163, 164, 165, 166, 167, 168, 169, 170] {
                for random_access in [false, true] {
                    let header = PesHeader {
                        stream_id: 0xC0 + (next(&mut seed) % 0x30) as u8,
                        data_alignment: next(&mut seed) % 2 == 0,
                        pts,
                        dts,
                        packet_length: next(&mut seed) as u16,
                    };
                    let plan = PacketPlan {
                        pid: (next(&mut seed) % 0x2000) as u16,
                        counter: (next(&mut seed) % 16) as u8,
                        random_access,
                        payload: Payload::PesStart { header, data: bytes(&mut seed, len) },
                    };
                    let overhead = if dts.is_some() { 19 } else { 14 };
                    let flags = if random_access { 2 } else { 0 };
                    let fits = len + overhead + flags <= 184;
                    assert_eq!(encode(&plan).is_ok(), fits, "{:?}", plan);
                }
            }
        }
    }
}

#[test]
fn every_section_that_fits_is_serialised() {
    let mut seed = 0x2545_F491_4F6C_DD1Du64;
    for len in 0..=183usize {
        let plan = PacketPlan {
            pid: (next(&mut seed) % 0x2000) as u16,
            counter: (next(&mut seed) % 16) as u8,
            random_access: false,
            payload: Payload::Section { data: bytes(&mut seed, len) },
        };
        let packet = encode(&plan).unwrap();
        assert!(packet.payload_unit_start());
        assert_eq!(packet.payload()[0], 0);
        assert_eq!(packet.payload().len(), len + 1);
    }
}

#[test]
fn plans_out_of_range_are_framing_errors() {
    let good = PesHeader { stream_id: 0xE0, data_alignment: true, pts: 0, dts: None, packet_length: 0 };
    let start = |header: PesHeader| PacketPlan {
        pid: 32,
        counter: 0,
        random_access: false,
        payload: Payload::PesStart { header, data: vec![1] },
    };
    assert!(encode(&start(good)).is_ok());
    assert_eq!(encode(&start(PesHeader { pts: 1 << 33, ..good })).unwrap_err(), MuxError::Framing);
    assert_eq!(encode(&start(PesHeader { dts: Some(1 << 33), ..good })).unwrap_err(), MuxError::Framing);
    assert_eq!(encode(&start(PesHeader { stream_id: 0xBF, ..good })).unwrap_err(), MuxError::Framing);
    assert_eq!(encode(&start(PesHeader { stream_id: 0xF0, ..good })).unwrap_err(), MuxError::Framing);
    let mut plan = start(good);
    plan.pid = 0x2000;
    assert_eq!(encode(&plan).unwrap_err(), MuxError::Framing);
    let mut plan = start(good);
    plan.counter = 16;
    assert_eq!(encode(&plan).unwrap_err(), MuxError::Framing);
}
