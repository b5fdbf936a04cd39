use tsmux::clock::FrameRate;
use tsmux::error::{MuxError, Stage, StreamError};
use tsmux::packet::TransportPacket;
use tsmux::pes::{AccessUnit, StreamId};
use tsmux::streamer::{send_to_stdout, send_to_udp, StreamConfig, TsStreamer};

fn packets_of(bytes: &[u8]) -> Vec<TransportPacket> {
    assert_eq!(bytes.len() % 188, 0);
    bytes.chunks(188).map(|chunk| TransportPacket::parse(chunk.to_vec()).unwrap()).collect()
}

fn unit(sequence_number: u64, len: usize, key: bool) -> AccessUnit {
    AccessUnit {
        sequence_number,
        capture_time: 0,
        payload: (0..len).map(|i| (i * 7 + sequence_number as usize) as u8).collect(),
        is_random_access: key,
    }
}

#[test]
fn new_stream_has_the_standard_settings() {
    let streamer = TsStreamer::new_stream().unwrap();
    let config = StreamConfig::standard();
    assert_eq!(streamer.emitter.tables, config.tables);
    assert_eq!(config.tables.video_pid, 32);
    assert_eq!(config.tables.pmt_pid, 4096);
    assert_eq!(config.rate, FrameRate { numerator: 30, denominator: 1 });
    assert_eq!(config.stream_id, StreamId::Video(0));
    assert_eq!(streamer.framer.base_pts, 0);
    assert_eq!(streamer.framer.last_sequence, None);
    assert_eq!(streamer.input_frame_number, 0);
    assert_eq!(streamer.input_frame_unix_micros, 0);
    assert_eq!(streamer.output_frame_number, 0);
    assert_eq!(streamer.packets_sent, 0);
    assert_eq!(streamer.aborted, None);
    assert_eq!(streamer.packetizer.counters.peek(32), 0);
}

#[test]
fn first_write_starts_with_the_tables() {
    let mut streamer = TsStreamer::new_stream().unwrap();
    streamer.set_next_frame_meta(0, 1_700_000_000_000_000);
    assert_eq!(streamer.input_frame_number, 0);
    assert_eq!(streamer.input_frame_unix_micros, 1_700_000_000_000_000);
    let bytes = streamer.write(&[0, 0, 0, 1, 0x65]).unwrap();
    let packets = packets_of(&bytes);
    assert_eq!(packets.len(), 3);
    assert_eq!(packets[0].pid(), 0);
    assert_eq!(packets[1].pid(), 4096);
    assert_eq!(packets[2].pid(), 32);
    assert!(packets[0].payload_unit_start());
    assert!(packets[1].payload_unit_start());
    assert!(packets[2].payload_unit_start());
    assert!(packets[2].random_access());
    assert_eq!(
        packets[2].payload(),
        vec![0, 0, 1, 0xE0, 0, 13, 0x85, 0x80, 5, 0x21, 0, 1, 0, 1, 0, 0, 0, 1, 0x65]
    );
    assert_eq!(streamer.output_frame_number, 1);
    assert_eq!(streamer.packets_sent, 1);
    assert_eq!(streamer.framer.last_sequence, Some(0));
}

#[test]
fn write_stamps_the_announced_frame() {
    let mut streamer = TsStreamer::new_stream().unwrap();
    streamer.set_next_frame_meta(30, 0);
    let bytes = streamer.write(&[1]).unwrap();
    let packets = packets_of(&bytes);
    let payload = packets[2].payload();
    // 90000 ticks: 0x15F90
    assert_eq!(&payload[9..14], &[0x21, 0x00, 0x05, 0xBF, 0x21]);
}

fn table_positions(packets: &[TransportPacket], video_before: &mut u64, positions: &mut Vec<u64>) {
    let mut index = 0;
    while index < packets.len() {
        if packets[index].pid() == 0 {
            assert_eq!(packets[index + 1].pid(), 4096);
            assert_eq!(packets[index + 2].pid(), 32);
            positions.push(*video_before);
            index += 2;
        } else {
            assert_eq!(packets[index].pid(), 32);
            *video_before += 1;
            index += 1;
        }
    }
}

#[test]
fn tables_return_at_the_configured_cadence() {
    let mut config = StreamConfig::standard();
    config.table_interval = 10;
    let mut streamer = TsStreamer::with_config(config).unwrap();
    let mut positions = Vec::new();
    let mut video_seen = 0u64;
    for n in 0..12u64 {
        let bytes = streamer.write_access_unit(unit(n, 500, n == 0)).unwrap();
        table_positions(&packets_of(&bytes), &mut video_seen, &mut positions);
    }
    assert_eq!(video_seen, 36);
    assert_eq!(positions, vec![0, 10, 20, 30]);
    assert_eq!(streamer.packets_sent, 36);
    assert_eq!(streamer.emitter.pat_counter, 4);
    assert_eq!(streamer.emitter.pmt_counter, 4);
    assert_eq!(streamer.emitter.last_emitted_at, Some(30));
}

#[test]
fn tables_stand_inside_a_long_access_unit() {
    let mut config = StreamConfig::standard();
    config.table_interval = 10;
    let mut streamer = TsStreamer::with_config(config).unwrap();
    let bytes = streamer.write_access_unit(unit(0, 5000, true)).unwrap();
    let packets = packets_of(&bytes);
    let mut positions = Vec::new();
    let mut video_seen = 0u64;
    table_positions(&packets, &mut video_seen, &mut positions);
    assert_eq!(video_seen, 28);
    assert_eq!(positions, vec![0, 10, 20]);
    assert_eq!(packets.len(), 28 + 6);
    let pat_counters: Vec<u8> =
        packets.iter().filter(|p| p.pid() == 0).map(|p| p.continuity_counter()).collect();
    assert_eq!(pat_counters, vec![0, 1, 2]);
    let video: Vec<u8> =
        packets.iter().filter(|p| p.pid() == 32).map(|p| p.continuity_counter()).collect();
    for (k, counter) in video.iter().enumerate() {
        assert_eq!(*counter as usize, k % 16);
    }
}

#[test]
fn tables_do_not_disturb_the_video_counters() {
    let mut with_tables = StreamConfig::standard();
    with_tables.table_interval = 0;
    let mut rare_tables = StreamConfig::standard();
    rare_tables.table_interval = u64::MAX;
    let mut a = TsStreamer::with_config(with_tables).unwrap();
    let mut b = TsStreamer::with_config(rare_tables).unwrap();
    let mut video_a = Vec::new();
    let mut video_b = Vec::new();
    let mut tables_a = 0;
    let mut tables_b = 0;
    for n in 0..20u64 {
        for packet in packets_of(&a.write_access_unit(unit(n, 300 + n as usize, true)).unwrap()) {
            if packet.pid() == 32 {
                video_a.push(packet.as_bytes().clone());
            } else {
                tables_a += 1;
            }
        }
        for packet in packets_of(&b.write_access_unit(unit(n, 300 + n as usize, true)).unwrap()) {
            if packet.pid() == 32 {
                video_b.push(packet.as_bytes().clone());
            } else {
                tables_b += 1;
            }
        }
    }
    assert_eq!(video_a.len(), 40);
    assert_eq!(tables_a, 80);
    assert_eq!(tables_b, 2);
    assert_eq!(video_a, video_b);
    for (k, bytes) in video_a.iter().enumerate() {
        assert_eq!((bytes[3] & 0x0F) as usize, k % 16);
    }
}

fn video_of(bytes: &[u8]) -> Vec<TransportPacket> {
    packets_of(bytes).into_iter().filter(|p| p.pid() == 32).collect()
}

#[test]
fn a_whole_run_keeps_counters_payloads_and_timestamps() {
    let mut config = StreamConfig::standard();
    config.table_interval = 7;
    let mut streamer = TsStreamer::with_config(config).unwrap();
    let lengths = [0usize, 500, 180, 3000, 1, 169, 170];
    let mut all = Vec::new();
    let mut expected = Vec::new();
    for (n, len) in lengths.iter().enumerate() {
        let source = unit(n as u64, *len, n % 3 == 0);
        let pts = 3000 * n as u64;
        let following = (8 + len) as u16;
        expected.extend_from_slice(&[0, 0, 1, 0xE0, (following >> 8) as u8, following as u8]);
        expected.extend_from_slice(&[0x85, 0x80, 5]);
        expected.extend_from_slice(&[
            0x21 | ((pts >> 29) & 0x0E) as u8,
            (pts >> 22) as u8,
            ((pts >> 14) & 0xFE) as u8 | 1,
            (pts >> 7) as u8,
            ((pts << 1) & 0xFE) as u8 | 1,
        ]);
        expected.extend_from_slice(&source.payload);
        all.extend(streamer.write_access_unit(source).unwrap());
    }
    assert_eq!(all.len() % 188, 0);
    let packets = packets_of(&all);
    let mut positions = Vec::new();
    let mut video_seen = 0u64;
    table_positions(&packets, &mut video_seen, &mut positions);
    assert_eq!(video_seen, 1 + 3 + 2 + 17 + 1 + 1 + 2);
    assert_eq!(positions, vec![0, 7, 14, 21]);
    let video: Vec<TransportPacket> = packets.into_iter().filter(|p| p.pid() == 32).collect();
    for (k, packet) in video.iter().enumerate() {
        assert_eq!(packet.continuity_counter() as usize, k % 16);
    }
    assert_eq!(tsmux::packetizer::reassemble(&video), expected);
}

#[test]
fn frame_0_and_frame_7_carry_their_timestamps() {
    let mut streamer = TsStreamer::new_stream().unwrap();
    streamer.set_next_frame_meta(0, 0);
    let first = video_of(&streamer.write(&[1, 2, 3]).unwrap());
    streamer.set_next_frame_meta(7, 0);
    let second = video_of(&streamer.write(&[1, 2, 3]).unwrap());
    // 0 ticks, then 21000 = 0x5208 ticks
    assert_eq!(&first[0].payload()[9..14], &[0x21, 0x00, 0x01, 0x00, 0x01]);
    assert_eq!(&second[0].payload()[9..14], &[0x21, 0x00, 0x01, 0xA4, 0x11]);
}

#[test]
fn an_empty_write_is_one_stuffed_video_packet() {
    let mut streamer = TsStreamer::new_stream().unwrap();
    let video = video_of(&streamer.write(&[]).unwrap());
    assert_eq!(video.len(), 1);
    let bytes = video[0].as_bytes();
    assert_eq!(bytes.len(), 188);
    assert_eq!(&bytes[..6], &[0x47, 0x40, 0x20, 0x30, 169, 0x40]);
    assert!(bytes[6..174].iter().all(|b| *b == 0xFF));
    assert_eq!(&bytes[174..], &[0, 0, 1, 0xE0, 0, 8, 0x85, 0x80, 5, 0x21, 0, 1, 0, 1]);
    assert!(video[0].payload_unit_start());
    assert_eq!(video[0].continuity_counter(), 0);
}

#[test]
fn a_write_of_500_bytes_is_three_video_packets() {
    let mut streamer = TsStreamer::new_stream().unwrap();
    let video = video_of(&streamer.write(&[0xAB; 500]).unwrap());
    assert_eq!(video.len(), 3);
    let starts: Vec<bool> = video.iter().map(|p| p.payload_unit_start()).collect();
    let counters: Vec<u8> = video.iter().map(|p| p.continuity_counter()).collect();
    assert_eq!(starts, vec![true, false, false]);
    assert_eq!(counters, vec![0, 1, 2]);
    assert_eq!(video[2].payload(), vec![0xAB; 148]);
    assert_eq!(video[2].as_bytes()[4], 35);
    assert!(video[2].as_bytes()[6..40].iter().all(|b| *b == 0xFF));
}

#[test]
fn a_write_of_180_bytes_is_two_video_packets() {
    let mut streamer = TsStreamer::new_stream().unwrap();
    let video = video_of(&streamer.write(&[0x11; 180]).unwrap());
    assert_eq!(video.len(), 2);
    assert!(video[0].payload_unit_start());
    assert!(!video[1].payload_unit_start());
    assert_eq!(video[0].continuity_counter(), 0);
    assert_eq!(video[1].continuity_counter(), 1);
    assert!(video[1].has_adaptation_field());
    let mut joined = video[0].payload();
    joined.extend(video[1].payload());
    assert_eq!(&joined[..9], &[0, 0, 1, 0xE0, 0, 188, 0x85, 0x80, 5]);
    assert_eq!(&joined[14..], &[0x11; 180][..]);
}

#[test]
fn every_record_is_188_bytes_and_starts_with_the_sync_byte() {
    let mut streamer = TsStreamer::new_stream().unwrap();
    let mut all = Vec::new();
    for n in 0..50u64 {
        all.extend(streamer.write_access_unit(unit(n, (n * 97) as usize, n % 10 == 0)).unwrap());
    }
    assert_eq!(all.len() % 188, 0);
    for record in all.chunks(188) {
        assert_eq!(record[0], 0x47);
    }
}

#[test]
fn frame_number_going_back_fails_before_any_packet() {
    let mut streamer = TsStreamer::new_stream().unwrap();
    streamer.write_access_unit(unit(5, 10, true)).unwrap();
    let sent = streamer.packets_sent;
    let counter = streamer.packetizer.counters.peek(32);
    let emitter = streamer.emitter;
    let error = streamer.write_access_unit(unit(4, 10, true)).unwrap_err();
    assert_eq!(
        error,
        StreamError { error: MuxError::Configuration, stage: Stage::Frame, sequence_number: 4 }
    );
    assert_eq!(streamer.packets_sent, sent);
    assert_eq!(streamer.packetizer.counters.peek(32), counter);
    assert_eq!(streamer.emitter, emitter);
    assert_eq!(streamer.framer.last_sequence, Some(5));
    assert_eq!(streamer.output_frame_number, 1);
    assert_eq!(streamer.aborted, Some(error));
}

#[test]
fn write_refuses_an_announced_frame_that_goes_back() {
    let mut streamer = TsStreamer::new_stream().unwrap();
    streamer.set_next_frame_meta(5, 0);
    assert!(streamer.write(&[1, 2, 3]).is_ok());
    assert!(streamer.write(&[4, 5, 6]).is_ok());
    streamer.set_next_frame_meta(3, 0);
    assert_eq!(
        streamer.write(&[1, 2, 3]).unwrap_err(),
        StreamError { error: MuxError::Configuration, stage: Stage::Frame, sequence_number: 3 }
    );
    assert_eq!(streamer.packets_sent, 2);
}

#[test]
fn the_first_failure_ends_the_stream() {
    let mut streamer = TsStreamer::new_stream().unwrap();
    streamer.write_access_unit(unit(5, 10, true)).unwrap();
    let first = streamer.write_access_unit(unit(4, 10, true)).unwrap_err();
    assert_eq!(streamer.write_access_unit(unit(6, 10, true)).unwrap_err(), first);
    streamer.set_next_frame_meta(7, 0);
    assert_eq!(streamer.write(&[1]).unwrap_err(), first);
    assert_eq!(streamer.flush(), Err(first));
    assert_eq!(streamer.sink_failed(), first);
    assert_eq!(streamer.packets_sent, 1);
    assert_eq!(streamer.output_frame_number, 1);
    assert_eq!(streamer.framer.last_sequence, Some(5));
}

#[test]
fn clock_overflow_names_frame_and_stage() {
    let mut config = StreamConfig::standard();
    config.base_pts = (1 << 33) - 1;
    let mut streamer = TsStreamer::with_config(config).unwrap();
    assert!(streamer.write_access_unit(unit(0, 10, true)).is_ok());
    assert_eq!(
        streamer.write_access_unit(unit(1, 10, true)).unwrap_err(),
        StreamError { error: MuxError::ClockOverflow, stage: Stage::Frame, sequence_number: 1 }
    );
    assert_eq!(streamer.output_frame_number, 1);
}

#[test]
fn unusable_settings_are_refused_at_the_start() {
    let refused = StreamError {
        error: MuxError::Configuration,
        stage: Stage::Configure,
        sequence_number: 0,
    };
    let mut config = StreamConfig::standard();
    config.rate = FrameRate { numerator: 0, denominator: 1 };
    assert_eq!(TsStreamer::with_config(config).err(), Some(refused));
    let mut config = StreamConfig::standard();
    config.tables.video_pid = 0;
    assert_eq!(TsStreamer::with_config(config).err(), Some(refused));
    let mut config = StreamConfig::standard();
    config.tables.pmt_pid = config.tables.video_pid;
    assert_eq!(TsStreamer::with_config(config).err(), Some(refused));
    let mut config = StreamConfig::standard();
    config.tables.version = 32;
    assert_eq!(TsStreamer::with_config(config).err(), Some(refused));
    let mut config = StreamConfig::standard();
    config.stream_id = StreamId::Video(16);
    assert_eq!(TsStreamer::with_config(config).err(), Some(refused));
}

#[test]
fn settings_broken_later_are_caught_before_any_packet() {
    let mut streamer = TsStreamer::new_stream().unwrap();
    streamer.emitter.tables.video_pid = 0x1FFF;
    assert_eq!(
        streamer.write_access_unit(unit(0, 10, true)).unwrap_err(),
        StreamError { error: MuxError::Configuration, stage: Stage::Tables, sequence_number: 0 }
    );
    let mut streamer = TsStreamer::new_stream().unwrap();
    streamer.write_access_unit(unit(0, 10, true)).unwrap();
    streamer.emitter.tables.video_pid = 0x1FFF;
    assert_eq!(
        streamer.write_access_unit(unit(1, 10, true)).unwrap_err(),
        StreamError { error: MuxError::Configuration, stage: Stage::Tables, sequence_number: 1 }
    );
}

#[test]
fn flush_changes_nothing() {
    let mut streamer = TsStreamer::new_stream().unwrap();
    streamer.write_access_unit(unit(0, 10, true)).unwrap();
    assert_eq!(streamer.flush(), Ok(()));
    assert_eq!(streamer.packets_sent, 1);
    assert_eq!(streamer.output_frame_number, 1);
    assert_eq!(streamer.packetizer.counters.peek(32), 1);
}

#[test]
fn sink_failure_names_the_current_frame_and_ends_the_stream() {
    let mut streamer = TsStreamer::new_stream().unwrap();
    streamer.set_next_frame_meta(17, 0);
    let bytes = streamer.write(&[1, 2, 3]).unwrap();
    assert_eq!(bytes.len(), 3 * 188);
    let failure = StreamError { error: MuxError::Sink, stage: Stage::Deliver, sequence_number: 17 };
    assert_eq!(streamer.sink_failed(), failure);
    assert_eq!(streamer.aborted, Some(failure));
    streamer.set_next_frame_meta(18, 0);
    assert_eq!(streamer.write(&[1, 2, 3]), Err(failure));
    assert_eq!(streamer.flush(), Err(failure));
    assert_eq!(streamer.packets_sent, 1);
}

#[test]
fn udp_refuses_what_is_no_port() {
    let refused = StreamError {
        error: MuxError::Configuration,
        stage: Stage::Configure,
        sequence_number: 0,
    };
    assert_eq!(send_to_udp(10, "127.0.0.1", 5000), Ok(()));
    assert_eq!(send_to_udp(0, "", 0), Ok(()));
    assert_eq!(send_to_udp(1, "127.0.0.1", 65535), Ok(()));
    assert_eq!(send_to_udp(1, "127.0.0.1", -1), Err(refused));
    assert_eq!(send_to_udp(1, "127.0.0.1", 65536), Err(refused));
    assert_eq!(send_to_udp(1, "127.0.0.1", i32::MIN), Err(refused));
}

#[test]
fn stdout_accepts_every_call() {
    assert_eq!(send_to_stdout(10), Ok(()));
    assert_eq!(send_to_stdout(0), Ok(()));
}

#[test]
fn failures_have_fixed_descriptions() {
    assert_eq!(MuxError::ClockOverflow.describe(), "timestamp exceeds the 33-bit clock range");
    assert_eq!(MuxError::Framing.describe(), "transport packet framing violated");
    assert_eq!(MuxError::Sink.describe(), "destination write failed");
    assert_eq!(MuxError::Configuration.describe(), "invalid stream configuration");
    assert_eq!(Stage::Configure.name(), "configure");
    assert_eq!(Stage::Frame.name(), "frame");
    assert_eq!(Stage::Packetize.name(), "packetize");
    assert_eq!(Stage::Tables.name(), "tables");
    assert_eq!(Stage::Deliver.name(), "deliver");
    assert_eq!(
        StreamError::new(MuxError::Sink, Stage::Deliver, 3),
        StreamError { error: MuxError::Sink, stage: Stage::Deliver, sequence_number: 3 }
    );
}
