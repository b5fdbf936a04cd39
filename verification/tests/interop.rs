use mpeg2ts::es::StreamType;
use mpeg2ts::pes::{PesPacketReader, ReadPesPacket};
use mpeg2ts::ts::{ReadTsPacket, TsPacketReader, TsPayload};
use tsmux::pes::AccessUnit;
use tsmux::streamer::TsStreamer;

fn stream(units: &[(u64, Vec<u8>, bool)]) -> Vec<u8> {
    let mut streamer = TsStreamer::new_stream().unwrap();
    let mut out = Vec::new();
    for (sequence_number, payload, key) in units {
        let unit = AccessUnit {
            sequence_number: *sequence_number,
            capture_time: 0,
            payload: payload.clone(),
            is_random_access: *key,
        };
        out.extend(streamer.write_access_unit(unit).unwrap());
    }
    out
}

fn sample() -> Vec<(u64, Vec<u8>, bool)> {
    vec![
        (0, (0..1000u32).map(|i| i as u8).collect(), true),
        (1, vec![], false),
        (2, (0..170u32).map(|i| (i * 3) as u8).collect(), false),
        (3, (0..40_000u32).map(|i| (i * 5) as u8).collect(), true),
    ]
}

#[test]
fn a_demuxer_finds_the_program_and_the_video_stream() {
    let bytes = stream(&sample());
    let mut reader = TsPacketReader::new(&bytes[..]);
    let first = reader.read_ts_packet().unwrap().unwrap();
    assert_eq!(first.header.pid.as_u16(), 0);
    let pmt_pid = match first.payload {
        Some(TsPayload::Pat(pat)) => {
            assert_eq!(pat.table.len(), 1);
            assert_eq!(pat.table[0].program_num, 1);
            pat.table[0].program_map_pid.as_u16()
        }
        other => panic!("{:?}", other),
    };
    assert_eq!(pmt_pid, 4096);
    let second = reader.read_ts_packet().unwrap().unwrap();
    assert_eq!(second.header.pid.as_u16(), pmt_pid);
    match second.payload {
        Some(TsPayload::Pmt(pmt)) => {
            assert_eq!(pmt.program_num, 1);
            assert_eq!(pmt.pcr_pid, None);
            assert_eq!(pmt.es_info.len(), 1);
            assert_eq!(pmt.es_info[0].stream_type, StreamType::H264);
            assert_eq!(pmt.es_info[0].elementary_pid.as_u16(), 32);
        }
        other => panic!("{:?}", other),
    }
}

#[test]
fn a_demuxer_reads_back_every_access_unit() {
    let units = sample();
    let bytes = stream(&units);
    let mut reader = PesPacketReader::new(TsPacketReader::new(&bytes[..]));
    for (sequence_number, payload, _) in &units {
        let packet = reader.read_pes_packet().unwrap().unwrap();
        assert!(packet.header.stream_id.is_video());
        assert_eq!(packet.header.stream_id.as_u8(), 0xE0);
        assert_eq!(packet.header.pts.unwrap().as_u64(), 3000 * sequence_number);
        assert_eq!(packet.header.dts, None);
        assert!(packet.header.data_alignment_indicator);
        assert_eq!(&packet.data, payload);
    }
    assert!(reader.read_pes_packet().unwrap().is_none());
}

#[test]
fn a_demuxer_sees_consecutive_counters_and_the_random_access_flag() {
    let bytes = stream(&sample());
    let mut reader = TsPacketReader::new(&bytes[..]);
    let mut expected = 0u8;
    let mut starts = Vec::new();
    while let Some(packet) = reader.read_ts_packet().unwrap() {
        if packet.header.pid.as_u16() != 32 {
            continue;
        }
        assert_eq!(packet.header.continuity_counter.as_u8(), expected);
        expected = (expected + 1) % 16;
        assert!(!packet.header.transport_error_indicator);
        assert!(!packet.header.transport_priority);
        if let Some(TsPayload::PesStart(_)) = packet.payload {
            let flagged = packet.adaptation_field.map(|f| f.random_access_indicator).unwrap_or(false);
            starts.push(flagged);
        }
    }
    assert_eq!(starts, vec![true, false, false, true]);
}
