use tsmux::error::MuxError;
use tsmux::conformance::{is_image_of, payload_len, plan_fits};
use tsmux::packet::TransportPacket;
use tsmux::wire::{PacketPlan, Payload, PesHeader};

fn continuation(pid: u16, counter: u8, data: Vec<u8>) -> PacketPlan {
    PacketPlan { pid, counter, random_access: false, payload: Payload::PesContinuation { data } }
}

fn image(plan: &PacketPlan) -> Vec<u8> {
    tsmux::encoder::encode(plan).unwrap().as_bytes().clone()
}

#[test]
fn full_continuation_packet_has_no_adaptation_field() {
    let data: Vec<u8> = (0..184u32).map(|i| i as u8).collect();
    let plan = continuation(0x1234, 9, data.clone());
    let bytes = image(&plan);
    assert_eq!(&bytes[..4], &[0x47, 0x12, 0x34, 0x19]);
    assert_eq!(&bytes[4..], &data[..]);
    let packet = TransportPacket::parse(bytes).unwrap();
    assert_eq!(packet.pid(), 0x1234);
    assert_eq!(packet.continuity_counter(), 9);
    assert!(!packet.payload_unit_start());
    assert!(!packet.has_adaptation_field());
    assert!(packet.has_payload());
    assert!(!packet.random_access());
    assert_eq!(packet.payload(), data);
}

#[test]
fn one_byte_short_gets_a_single_length_byte() {
    let data = vec![7u8; 183];
    let bytes = image(&continuation(32, 0, data.clone()));
    assert_eq!(&bytes[..5], &[0x47, 0x00, 0x20, 0x30, 0]);
    assert_eq!(&bytes[5..], &data[..]);
    let packet = TransportPacket::parse(bytes).unwrap();
    assert!(packet.has_adaptation_field());
    assert_eq!(packet.payload(), data);
}

#[test]
fn two_bytes_short_gets_length_and_flags() {
    let data = vec![7u8; 182];
    let bytes = image(&continuation(32, 0, data.clone()));
    assert_eq!(&bytes[..6], &[0x47, 0x00, 0x20, 0x30, 1, 0]);
    assert_eq!(&bytes[6..], &data[..]);
}

#[test]
fn decode_timestamp_makes_the_header_longer() {
    let header = PesHeader {
        stream_id: 0xE0,
        data_alignment: false,
        pts: 0x1_FFFF_FFFF,
        dts: Some(0),
        packet_length: 0x1234,
    };
    let plan = PacketPlan {
        pid: 256,
        counter: 15,
        random_access: false,
        payload: Payload::PesStart { header, data: vec![9; 165] },
    };
    let bytes = image(&plan);
    assert_eq!(&bytes[..4], &[0x47, 0x41, 0x00, 0x1F]);
    assert_eq!(
        &bytes[4..23],
        &[
            0, 0, 1, 0xE0, 0x12, 0x34, 0x81, 0xC0, 10, 0x3F, 0xFF, 0xFF, 0xFF, 0xFF, 0x11, 0x00,
            0x01, 0x00, 0x01
        ]
    );
    assert_eq!(&bytes[23..], &[9u8; 165][..]);
}

#[test]
fn plans_that_do_not_fit_are_refused() {
    assert!(plan_fits(&continuation(32, 0, vec![0; 184])));
    assert!(!plan_fits(&continuation(32, 0, vec![0; 185])));
    assert!(!plan_fits(&continuation(0x2000, 0, vec![0; 10])));
    assert!(!plan_fits(&continuation(32, 16, vec![0; 10])));
    let mut flagged = continuation(32, 0, vec![0; 183]);
    flagged.random_access = true;
    assert!(!plan_fits(&flagged));
    assert_eq!(tsmux::encoder::encode(&flagged).unwrap_err(), MuxError::Framing);
    assert_eq!(
        tsmux::encoder::encode(&continuation(32, 0, vec![0; 185])).unwrap_err(),
        MuxError::Framing
    );
    assert!(!plan_fits(&continuation(32, 0, vec![])));
    assert_eq!(tsmux::encoder::encode(&continuation(32, 0, vec![])).unwrap_err(), MuxError::Framing);
    assert_eq!(payload_len(&Payload::Section { data: vec![0; 183] }), Some(184));
    assert_eq!(payload_len(&Payload::Section { data: vec![0; 184] }), None);
}

#[test]
fn conforming_refuses_every_changed_byte() {
    let header = PesHeader {
        stream_id: 0xE1,
        data_alignment: true,
        pts: 123_456_789,
        dts: Some(123_450_000),
        packet_length: 0,
    };
    let plan = PacketPlan {
        pid: 33,
        counter: 5,
        random_access: true,
        payload: Payload::PesStart { header, data: vec![1, 2, 3, 4, 5, 6, 7] },
    };
    let good = image(&plan);
    assert!(is_image_of(&good, &plan));
    for i in 0..188 {
        let mut bad = good.clone();
        bad[i] ^= 0x01;
        assert!(!is_image_of(&bad, &plan), "byte {}", i);
        assert_eq!(TransportPacket::conforming(bad, &plan).unwrap_err(), MuxError::Framing);
    }
    let mut short = good.clone();
    short.pop();
    assert!(!is_image_of(&short, &plan));
    let mut long = good.clone();
    long.push(0);
    assert!(!is_image_of(&long, &plan));
    assert!(TransportPacket::conforming(good, &plan).is_ok());
}

#[test]
fn conforming_refuses_the_plan_handed_back() {
    let data = vec![0x47u8; 184];
    let plan = continuation(32, 0, data.clone());
    assert_eq!(TransportPacket::conforming(data, &plan).unwrap_err(), MuxError::Framing);
}

#[test]
fn parse_checks_the_shape() {
    assert!(TransportPacket::parse(vec![0x47; 187]).is_none());
    assert!(TransportPacket::parse(vec![0; 188]).is_none());
    let mut bytes = vec![0xFFu8; 188];
    bytes[0] = 0x47;
    bytes[3] = 0x00;
    assert!(TransportPacket::parse(bytes.clone()).is_none());
    bytes[3] = 0x10;
    assert!(TransportPacket::parse(bytes.clone()).is_some());
    bytes[3] = 0x30;
    bytes[4] = 183;
    assert!(TransportPacket::parse(bytes.clone()).is_none());
    bytes[4] = 182;
    let packet = TransportPacket::parse(bytes.clone()).unwrap();
    assert_eq!(packet.payload(), vec![0xFF]);
    bytes[3] = 0x20;
    bytes[4] = 182;
    assert!(TransportPacket::parse(bytes.clone()).is_none());
    bytes[4] = 183;
    let packet = TransportPacket::parse(bytes).unwrap();
    assert!(!packet.has_payload());
    assert_eq!(packet.payload(), Vec::<u8>::new());
    assert_eq!(packet.pid(), 0x1FFF);
}
