//! From points to turns, from bytes to scans, and the life of a connection.

use ldlidar::reader::assembler::{Assembler, MAX_SCAN_POINTS};
use ldlidar::reader::collector::{Collector, ScanMaker};
use ldlidar::reader::data_collector::{ConnectionStatus, Scan, ScanFeed};
use ldlidar::reader::demo::next_demo_angle;
use ldlidar::reader::ldrobot::stl27l::decoder::FrameDecoder;
use ldlidar::reader::ldrobot::stl27l::frame::crc8;
use ldlidar::reader::link::{FrameLink, ReadEvent, read_failed};
use ldlidar::reader::model::{Decoder, Model};
use ldlidar::reader::session::{
    Action, Manner, Session, serial_failure, serial_manner, udp_failure, udp_manner,
};
use ldlidar::reader::stats::{DecodeStats, hex_dump};
use ldlidar::reader::transport::{ReadErrorKind, serial_read, udp_read};
use ldlidar::reader::types::LidarPoint;

const SECOND: u64 = 1_000_000_000;

fn pt(angle: f32, distance_mm: u16, intensity: u8) -> LidarPoint {
    LidarPoint { angle_ticks: (angle * 11_000.0) as u64, distance_mm, intensity }
}

/// A frame from this angle, in hundredths of a degree, over the next 11 degrees.
fn frame_at(start: u16) -> Vec<u8> {
    let mut frame = vec![0x54, 0x2c, 0x10, 0x0e];
    frame.extend_from_slice(&start.to_le_bytes());
    for i in 0..12u8 {
        frame.extend_from_slice(&1_000u16.to_le_bytes());
        frame.push(i);
    }
    frame.extend_from_slice(&((start + 1_100) % 36_000).to_le_bytes());
    frame.extend_from_slice(&[0, 0]);
    let crc = crc8(&frame);
    frame.push(crc);
    frame
}

/// `turns` turns of 30 frames each.
fn stream_of(turns: usize) -> Vec<u8> {
    let mut stream = Vec::new();
    for _ in 0..turns {
        for k in 0..30u16 {
            stream.extend_from_slice(&frame_at(k * 1_200));
        }
    }
    stream
}

#[test]
fn no_scan_before_first_full_rotation() {
    let mut assembler = Assembler::new();
    for a in [0.0, 90.0, 180.0, 270.0] {
        assert!(assembler.ingest(pt(a, 1000, 10)).is_none());
    }
}

#[test]
fn wrap_finalizes_previous_rotation() {
    let mut assembler = Assembler::new();
    for a in [0.0, 100.0, 200.0, 300.0] {
        assembler.ingest(pt(a, 1000, 10));
    }
    let done = assembler.ingest(pt(10.0, 1000, 10));
    assert_eq!(done.expect("rotation completed").len(), 4);
}

#[test]
fn data_collector_zero_distance_is_discarded() {
    let mut assembler = Assembler::new();
    assembler.ingest(pt(45.0, 0, 100));
    for a in [100.0, 200.0, 300.0] {
        assembler.ingest(pt(a, 1000, 10));
    }
    let done = assembler.ingest(pt(10.0, 1000, 10)).expect("wrap");
    assert_eq!(done.len(), 3);
}

#[test]
fn half_a_turn_back_is_no_wrap_and_a_little_more_is() {
    let mut assembler = Assembler::new();
    assert!(assembler.ingest(pt(200.0, 1, 0)).is_none());
    assert!(assembler.ingest(pt(20.0, 2, 0)).is_none());
    assert!(assembler.ingest(pt(19.0, 3, 0)).is_none());
    assert!(assembler.ingest(pt(200.0, 4, 0)).is_none());
    let done = assembler.ingest(pt(19.5, 5, 0)).unwrap();
    let distances: Vec<u16> = done.iter().map(|p| p.distance_mm).collect();
    assert_eq!(distances, vec![1, 2, 3, 4]);
}

#[test]
fn angles_are_brought_into_one_turn() {
    let mut assembler = Assembler::new();
    assembler.ingest(pt(725.0, 1000, 10));
    assembler.ingest(pt(300.0, 1000, 10));
    let done = assembler.ingest(pt(360.0, 1000, 10)).unwrap();
    assert_eq!(done[0].angle_ticks, 5 * 11_000);
    assert_eq!(done.len(), 2);
}

#[test]
fn a_stream_without_wrap_is_cut_at_the_limit() {
    let mut assembler = Assembler::new();
    for _ in 0..MAX_SCAN_POINTS {
        assert!(assembler.ingest(pt(90.0, 1000, 10)).is_none());
    }
    let done = assembler.ingest(pt(90.0, 1000, 10)).unwrap();
    assert_eq!(done.len(), MAX_SCAN_POINTS);
    assert!(assembler.ingest(pt(90.0, 1000, 10)).is_none());
}

#[test]
fn no_measurement_is_lost_between_turns() {
    let mut assembler = Assembler::new();
    let mut seen = Vec::new();
    let mut sent = Vec::new();
    for i in 0..1_000u64 {
        let point = LidarPoint {
            angle_ticks: i * 1_234_567 % 5_000_000,
            distance_mm: (i % 7) as u16,
            intensity: i as u8,
        };
        if point.distance_mm != 0 {
            sent.push(point.intensity);
        }
        if let Some(turn) = assembler.ingest(point) {
            seen.extend(turn.iter().map(|p| p.intensity));
        }
    }
    assert_eq!(seen, sent[..seen.len()]);
    assert!(sent.len() - seen.len() <= MAX_SCAN_POINTS);
}

#[test]
fn scans_are_numbered_from_zero() {
    let mut maker = ScanMaker::new();
    let mut rotations = Vec::new();
    for _ in 0..4 {
        for a in [10.0, 130.0, 250.0] {
            if let Some(scan) = maker.ingest(pt(a, 500, 1)) {
                assert_eq!(scan.points.len(), 3);
                rotations.push(scan.rotation);
            }
        }
    }
    assert_eq!(rotations, vec![0, 1, 2]);
    assert_eq!(maker.count(), 3);
}

#[test]
fn demo_beam_comes_round_after_720_points() {
    let mut angle = 0;
    for _ in 0..719 {
        angle = next_demo_angle(angle);
        assert_ne!(angle, 0);
    }
    assert_eq!(angle, 359 * 11_000 + 5_500);
    assert_eq!(next_demo_angle(angle), 0);
}

#[test]
fn collector_makes_scans_of_bytes() {
    let mut collector = Collector::new(Model::Stl27L.new_decoder(), false, 0);
    let stream = stream_of(3);
    let mut scans: Vec<Scan> = Vec::new();
    for (i, chunk) in stream.chunks(100).enumerate() {
        assert!(collector.has_room(chunk.len()));
        let collected = collector.on_bytes(chunk, i as u64);
        assert_eq!(collected.received.became_connected, i == 0);
        scans.extend(collected.scans);
    }
    assert_eq!(scans.len(), 2);
    assert_eq!(scans[0].rotation, 0);
    assert_eq!(scans[1].rotation, 1);
    assert_eq!(scans[0].points.len(), 360);
    assert_eq!(scans[0].points[1].angle_ticks, 11_000);

    let mut at_once = Collector::new(Model::Stl27L.new_decoder(), false, 0);
    assert_eq!(at_once.on_bytes(&stream, 0).scans, scans);
}

#[test]
fn room_is_refused_only_near_the_limit() {
    let collector = Collector::new(Model::Lds50CE.new_decoder(), true, 0);
    assert!(collector.has_room(2048));
    assert!(!collector.has_room(usize::MAX));
    assert!(!collector.has_room(usize::MAX - 7_529));
    assert!(collector.has_room(usize::MAX - 7_530));
}

#[test]
fn link_tells_the_first_bytes_and_frame_once() {
    let mut link = FrameLink::new(FrameDecoder::new(), true, 0);
    let noise = link.on_bytes(&[1, 2, 3], 1);
    assert!(noise.first_bytes && !noise.first_frame && !noise.became_connected);
    assert_eq!(noise.report, None);
    let frame = link.on_bytes(&frame_at(0), 2);
    assert!(!frame.first_bytes && frame.first_frame && frame.became_connected);
    let again = link.on_bytes(&frame_at(0), 3);
    assert!(!again.first_bytes && !again.first_frame && !again.became_connected);
    assert_eq!(again.frames.len(), 1);
}

#[test]
fn link_reports_each_second() {
    let mut link = FrameLink::new(FrameDecoder::new(), true, 0);
    let mut damaged = frame_at(0);
    damaged[20] ^= 1;
    assert_eq!(link.on_bytes(&frame_at(0), SECOND - 1).report, None);
    let report = link.on_bytes(&damaged, SECOND).report.unwrap();
    assert_eq!(report.bytes, 94);
    assert_eq!(report.ok, 1);
    assert_eq!(report.skipped, 47);
    assert_eq!(report.crc_failures, 1);
    assert_eq!(link.on_bytes(&frame_at(0), 2 * SECOND - 1).report, None);
    let next = link.on_bytes(&[0], 2 * SECOND).report.unwrap();
    assert_eq!((next.bytes, next.ok, next.skipped, next.crc_failures), (48, 1, 1, 0));
}

#[test]
fn link_does_not_count_without_debugging() {
    let mut link = FrameLink::new(FrameDecoder::new(), false, 0);
    let received = link.on_bytes(&frame_at(0), 5 * SECOND);
    assert!(!received.first_bytes && !received.first_frame && received.became_connected);
    assert_eq!(received.report, None);
}

#[test]
fn watchdog_gives_up_a_silent_link() {
    let mut link = FrameLink::new(FrameDecoder::new(), false, 0);
    assert_eq!(link.watchdog(SECOND * 3 / 2), None);
    assert_eq!(
        link.watchdog(SECOND * 3 / 2 + 1),
        Some(ConnectionStatus::Error("유효 데이터 없음".to_string()))
    );
    link.on_bytes(&frame_at(0), SECOND);
    assert_eq!(link.watchdog(SECOND * 5 / 2), None);
    link.on_bytes(&[0, 0, 0], SECOND * 2);
    assert!(link.watchdog(SECOND * 5 / 2 + 1).is_some());
    assert_eq!(link.watchdog(0), None);
}

#[test]
fn failed_read_is_an_error_with_its_reason() {
    assert_eq!(read_failed("x"), ConnectionStatus::Error("읽기 오류: x".to_string()));
}

#[test]
fn latest_scan_wins() {
    let mut feed = ScanFeed::new();
    assert_eq!(feed.take_latest(), None);
    for rotation in 0..3 {
        feed.publish(Scan { points: vec![pt(1.0, 1, 1)], rotation });
    }
    assert_eq!(feed.take_latest().map(|scan| scan.rotation), Some(2));
    assert_eq!(feed.take_latest(), None);
}

#[test]
fn feed_shows_its_status_until_stopped() {
    let mut feed = ScanFeed::new();
    assert_eq!(feed.status(), ConnectionStatus::Connecting);
    feed.set_status(ConnectionStatus::Error("e".to_string()));
    assert_eq!(feed.status(), ConnectionStatus::Error("e".to_string()));
    feed.set_status(ConnectionStatus::Demo);
    assert_eq!(feed.status(), ConnectionStatus::Demo);
    feed.set_status(ConnectionStatus::Connected);
    assert_eq!(feed.status(), ConnectionStatus::Connected);
    assert!(feed.is_running());
    feed.stop();
    assert!(!feed.is_running());
}

#[test]
fn a_scan_is_empty_at_first() {
    assert_eq!(Scan::default(), Scan { points: vec![], rotation: 0 });
}

#[test]
fn parses_model_names_loosely() {
    assert_eq!(Model::from_name("STL-27L"), Some(Model::Stl27L));
    assert_eq!(Model::from_name("stl27l"), Some(Model::Stl27L));
    assert_eq!(Model::from_name("LDS-50C-E"), Some(Model::Lds50CE));
    assert_eq!(Model::from_name("lds_50c_e"), Some(Model::Lds50CE));
    assert_eq!(Model::from_name("unknown"), None);
}

#[test]
fn models_have_labels_and_decoders() {
    assert_eq!(Model::ALL.map(|model| model.label()), ["LDROBOT STL-27L", "Pacecat LDS-50C-E"]);
    assert_eq!(Model::from_name("lds50c"), Some(Model::Lds50CE));
    assert_eq!(Model::from_name(" S t l·27 L "), Some(Model::Stl27L));
    let mut stl = Model::Stl27L.new_decoder();
    assert_eq!(stl.push_bytes(&frame_at(0)).len(), 1);
    assert_eq!(stl.last_skipped(), 0);
    let mut lds = Model::Lds50CE.new_decoder();
    assert_eq!(lds.push_bytes(&frame_at(0)).len(), 0);
    assert_eq!(lds.last_skipped(), 47);
    assert_eq!(lds.last_crc_failures(), 0);
}

#[test]
fn serial_session_settles_and_retries() {
    let (mut session, step) = Session::begin(serial_manner(), true);
    assert_eq!(step.action, Action::Open);
    assert_eq!(step.status, Some(ConnectionStatus::Connecting));
    let step = session.opened();
    assert_eq!(step.action, Action::Settle { millis: 120 });
    assert_eq!(step.status, None);
    let step = session.settled();
    assert_eq!(step.action, Action::Read);
    assert_eq!(step.status, Some(ConnectionStatus::Connecting));
    let mut step = session.read_ended(true);
    let mut naps = 0;
    while step.action == (Action::Nap { millis: 50 }) {
        assert_eq!(step.status, None);
        naps += 1;
        step = session.slept(true);
    }
    assert_eq!(naps, 20);
    assert_eq!(step.action, Action::Open);
    assert_eq!(step.status, Some(ConnectionStatus::Connecting));
}

#[test]
fn failure_to_open_is_shown_and_retried() {
    let (mut session, _) = Session::begin(udp_manner(), true);
    let step = session.open_failed("no route".to_string(), true);
    assert_eq!(step.status, Some(ConnectionStatus::Error("no route".to_string())));
    assert_eq!(step.action, Action::Nap { millis: 50 });
    let (mut other, _) = Session::begin(udp_manner(), true);
    assert_eq!(other.opened().action, Action::Read);
}

#[test]
fn stopped_session_ends() {
    let (_, step) = Session::begin(serial_manner(), false);
    assert_eq!(step.action, Action::End);
    assert_eq!(step.status, None);
    let (mut session, _) = Session::begin(udp_manner(), true);
    session.opened();
    let step = session.read_ended(true);
    assert_eq!(step.action, Action::Nap { millis: 50 });
    assert_eq!(session.slept(false).action, Action::End);
    let (mut failed, _) = Session::begin(udp_manner(), true);
    let step = failed.open_failed("x".to_string(), false);
    assert_eq!(step.action, Action::End);
    assert_eq!(step.status, Some(ConnectionStatus::Error("x".to_string())));
}

#[test]
fn naps_are_rounded_up_to_whole_ones() {
    let (mut session, _) = Session::begin(Manner { settle: None, nap: 300 }, true);
    session.opened();
    let mut step = session.read_ended(true);
    let mut naps = 0;
    while step.action == (Action::Nap { millis: 300 }) {
        naps += 1;
        step = session.slept(true);
    }
    assert_eq!(naps, 4);
}

#[test]
fn failures_say_what_failed() {
    assert_eq!(serial_failure("/dev/ttyUSB0", "gone"), "/dev/ttyUSB0: gone");
    assert_eq!(udp_failure("0.0.0.0", 6789, "in use"), "UDP 0.0.0.0:6789: in use");
}

#[test]
fn reads_that_ran_out_of_time_are_no_failures() {
    assert_eq!(serial_read(Ok(5)), Ok(5));
    assert_eq!(serial_read(Err(ReadErrorKind::TimedOut)), Ok(0));
    assert_eq!(serial_read(Err(ReadErrorKind::WouldBlock)), Err(ReadErrorKind::WouldBlock));
    assert_eq!(udp_read(Ok(5)), Ok(5));
    assert_eq!(udp_read(Err(ReadErrorKind::TimedOut)), Ok(0));
    assert_eq!(udp_read(Err(ReadErrorKind::WouldBlock)), Ok(0));
    assert_eq!(udp_read(Err(ReadErrorKind::Other)), Err(ReadErrorKind::Other));
}

#[test]
fn dump_has_sixteen_bytes_to_a_line() {
    let bytes: Vec<u8> = (0..18).map(|i| i * 14).collect();
    assert_eq!(
        hex_dump(&bytes),
        vec![
            "[debug]   0000: 00 0e 1c 2a 38 46 54 62 70 7e 8c 9a a8 b6 c4 d2",
            "[debug]   0010: e0 ee",
        ]
    );
    assert!(hex_dump(&[]).is_empty());
}

#[test]
fn report_and_reset_of_an_interval() {
    let mut stats = DecodeStats {
        bytes: 94,
        ok: 1,
        skipped: 47,
        crc_failures: 2,
        logged_first_bytes: true,
        logged_first_frame: true,
    };
    assert_eq!(
        stats.report(),
        "[debug] 1초: 94B 수신 · 프레임 ok=1 · 동기화 버림=47B · CRC불일치=2"
    );
    stats.reset_interval();
    assert_eq!(
        stats,
        DecodeStats { logged_first_bytes: true, logged_first_frame: true, ..DecodeStats::default() }
    );
}

#[test]
fn reads_show_the_state_of_the_connection() {
    let mut collector = Collector::new(Model::Stl27L.new_decoder(), false, 0);
    let quiet = collector.on_read(ReadEvent::Bytes(&[]), 1);
    assert!(quiet.collected.is_none() && quiet.status.is_none() && quiet.go_on);
    let noise = collector.on_read(ReadEvent::Bytes(&[1, 2]), 2);
    assert!(noise.collected.is_some() && noise.status.is_none() && noise.go_on);
    let first = collector.on_read(ReadEvent::Bytes(&frame_at(0)), SECOND);
    assert_eq!(first.status, Some(ConnectionStatus::Connected));
    assert_eq!(first.collected.unwrap().received.frames.len(), 1);
    let second = collector.on_read(ReadEvent::Bytes(&frame_at(1_200)), SECOND + 1);
    assert!(second.status.is_none() && second.go_on);
    let silent = collector.on_read(ReadEvent::Bytes(&[]), SECOND * 5 / 2 + 2);
    assert_eq!(silent.status, Some(ConnectionStatus::Error("유효 데이터 없음".to_string())));
    assert!(!silent.go_on);
}

#[test]
fn failed_read_gives_the_connection_up() {
    let mut collector = Collector::new(Model::Lds50CE.new_decoder(), false, 0);
    let failed = collector.on_read(ReadEvent::Failed("gone"), 0);
    assert!(failed.collected.is_none() && !failed.go_on);
    assert_eq!(failed.status, Some(ConnectionStatus::Error("읽기 오류: gone".to_string())));

    let mut link = FrameLink::new(FrameDecoder::new(), false, 0);
    let failed = link.on_read(ReadEvent::Failed("gone"), 0);
    assert!(failed.received.is_none() && !failed.go_on);
    assert_eq!(failed.status, Some(ConnectionStatus::Error("읽기 오류: gone".to_string())));
    let first = link.on_read(ReadEvent::Bytes(&frame_at(0)), 5 * SECOND);
    assert_eq!(first.status, Some(ConnectionStatus::Connected));
    assert_eq!(first.received.unwrap().frames.len(), 1);
    assert!(first.go_on);
    let quiet = link.on_read(ReadEvent::Bytes(&[]), 7 * SECOND);
    assert!(quiet.received.is_none() && !quiet.go_on);
}

#[test]
fn demo_scans_have_720_points() {
    let mut maker = ScanMaker::new();
    let mut angle = 0;
    let mut scans = Vec::new();
    for k in 0..2_161u32 {
        let point = LidarPoint { angle_ticks: angle, distance_mm: 1 + k as u16, intensity: 0 };
        if let Some(scan) = maker.ingest(point) {
            assert_eq!(k % 720, 0);
            scans.push(scan);
        }
        angle = next_demo_angle(angle);
    }
    assert_eq!(scans.len(), 3);
    for (i, scan) in scans.iter().enumerate() {
        assert_eq!(scan.rotation, i as u64);
        assert_eq!(scan.points.len(), 720);
        for (k, point) in scan.points.iter().enumerate() {
            assert_eq!(point.angle_ticks, k as u64 * 5_500);
            assert_eq!(point.distance_mm as usize, 1 + 720 * i + k);
        }
    }
}
