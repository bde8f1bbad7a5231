//! Packets and commands of the LDS-50C-E.

use ldlidar::reader::model::Decoder;
use ldlidar::reader::pacecat::lds50ce::command::{
    CMD_QUERY, CMD_SIGN, StartProgress, StartRun, StartStep, build_command, start_sequence,
    stm32_crc,
};
use ldlidar::reader::pacecat::lds50ce::decoder::PacketDecoder;
use ldlidar::reader::pacecat::lds50ce::frame::{
    CHECKSUM_LEN, HEADER, HEADER_LEN, checksum, packet_len, parse, peek_header,
};
use ldlidar::reader::types::{LidarBody, ParseError, TICKS_PER_DEGREE};

fn degrees(ticks: u64) -> f32 {
    ticks as f32 / TICKS_PER_DEGREE as f32
}

/// The points of a packet (distance, angle offset, strength), each array in its place.
fn put_points(buf: &mut [u8], pts: &[(u16, u16, u8)]) {
    let npts = pts.len();
    let dist_off = HEADER_LEN;
    let angle_off = dist_off + npts * 2;
    let strength_off = angle_off + npts * 2;
    for (k, &(d, a, s)) in pts.iter().enumerate() {
        buf[dist_off + k * 2..dist_off + k * 2 + 2].copy_from_slice(&d.to_le_bytes());
        buf[angle_off + k * 2..angle_off + k * 2 + 2].copy_from_slice(&a.to_le_bytes());
        buf[strength_off + k] = s;
    }
}

/// Ends a packet with the right checksum.
fn put_checksum(buf: &mut [u8]) {
    let header = peek_header(buf).unwrap();
    let chk = checksum(buf, &header);
    let chk_off = packet_len(header.subcontract_points) - CHECKSUM_LEN;
    buf[chk_off..chk_off + 2].copy_from_slice(&chk.to_le_bytes());
}

/// A packet with a start and an end angle.
fn build_packet(start_mdeg: u32, pts: &[(u16, u16, u8)]) -> Vec<u8> {
    let npts = pts.len();
    let mut buf = vec![0u8; packet_len(npts)];
    buf[0..2].copy_from_slice(&HEADER.to_le_bytes());
    buf[2..4].copy_from_slice(&(npts as u16).to_le_bytes());
    buf[4..6].copy_from_slice(&(npts as u16).to_le_bytes());
    buf[8..12].copy_from_slice(&start_mdeg.to_le_bytes());
    let end = start_mdeg + pts.last().map(|p| p.1 as u32).unwrap_or(0);
    buf[12..16].copy_from_slice(&end.to_le_bytes());
    put_points(&mut buf, pts);
    put_checksum(&mut buf);
    buf
}

/// A packet for the decoder: no end angle, and the checksum summed up here.
fn build_stream_packet(start_mdeg: u32, pts: &[(u16, u16, u8)]) -> Vec<u8> {
    let npts = pts.len();
    let mut buf = vec![0u8; packet_len(npts)];
    buf[0..2].copy_from_slice(&HEADER.to_le_bytes());
    buf[2..4].copy_from_slice(&(npts as u16).to_le_bytes());
    buf[4..6].copy_from_slice(&(npts as u16).to_le_bytes());
    buf[8..12].copy_from_slice(&start_mdeg.to_le_bytes());
    put_points(&mut buf, pts);

    let word = |i: usize| u16::from_le_bytes([buf[i], buf[i + 1]]) as u32;
    let angle_off = HEADER_LEN + npts * 2;
    let strength_off = angle_off + npts * 2;
    let mut sum: u32 = 0;
    let mut i = 2;
    while i + 1 < HEADER_LEN {
        sum = sum.wrapping_add(word(i));
        i += 2;
    }
    for k in 0..npts {
        sum = sum.wrapping_add(word(HEADER_LEN + k * 2));
        sum = sum.wrapping_add(word(angle_off + k * 2));
        sum = sum.wrapping_add(buf[strength_off + k] as u32);
    }
    let chk_off = packet_len(npts) - CHECKSUM_LEN;
    buf[chk_off..chk_off + 2].copy_from_slice(&(sum as u16).to_le_bytes());
    buf
}

/// A packet with every field set, whose end angle may wrap.
fn full_packet(start_mdeg: u32, pts: &[(u16, u16, u8)]) -> Vec<u8> {
    let mut buf = build_packet(0, pts);
    let end = start_mdeg.wrapping_add(pts.last().map(|p| p.1 as u32).unwrap_or(0));
    buf[8..12].copy_from_slice(&start_mdeg.to_le_bytes());
    buf[12..16].copy_from_slice(&end.to_le_bytes());
    buf[20..24].copy_from_slice(&0x0102_0304u32.to_le_bytes());
    put_checksum(&mut buf);
    buf
}

#[test]
fn parses_packet_with_absolute_angles() {
    let pkt = build_packet(45_000, &[(1000, 0, 200), (2000, 1000, 180)]);
    let body = parse(&pkt).expect("valid packet should parse");

    assert_eq!(body.points.len(), 2);
    assert_eq!(body.points[0].distance_mm, 1000);
    assert_eq!(body.points[0].intensity, 200);
    assert!((degrees(body.points[0].angle_ticks) - 45.0).abs() < 1e-3);
    assert!((degrees(body.points[1].angle_ticks) - 46.0).abs() < 1e-3);
    assert!((degrees(body.start_angle_ticks) - 45.0).abs() < 1e-3);
}

#[test]
fn rejects_corrupted_checksum() {
    let mut pkt = build_packet(0, &[(1000, 0, 10), (1000, 500, 10)]);
    let len = pkt.len();
    pkt[len - 1] ^= 0xFF;
    assert!(matches!(parse(&pkt), Err(ParseError::CrcMismatch { .. })));
}

#[test]
fn rejects_wrong_header() {
    let mut pkt = build_packet(0, &[(1000, 0, 10)]);
    pkt[0] = 0x00;
    assert!(matches!(parse(&pkt), Err(ParseError::InvalidHeader(_))));
}

#[test]
fn extracts_single_packet() {
    let mut decoder = PacketDecoder::new();
    let pkt = build_stream_packet(0, &[(1000, 0, 10), (1200, 500, 20)]);
    let frames = decoder.push_bytes(&pkt);
    assert_eq!(frames.len(), 1);
    assert_eq!(frames[0].points.len(), 2);
}

#[test]
fn skips_leading_noise_and_heartbeat_bytes() {
    let mut decoder = PacketDecoder::new();
    let mut bytes = vec![0x4C, 0x69, 0x44, 0x41, 0x00, 0x11];
    bytes.extend_from_slice(&build_stream_packet(1000, &[(900, 0, 5)]));
    let frames = decoder.push_bytes(&bytes);
    assert_eq!(frames.len(), 1);
    assert!(decoder.last_skipped() >= 6);
}

#[test]
fn waits_for_full_packet_then_completes() {
    let mut decoder = PacketDecoder::new();
    let pkt = build_stream_packet(0, &[(1000, 0, 10), (1200, 500, 20), (1300, 1000, 30)]);
    let split = HEADER_LEN + 3;
    assert!(decoder.push_bytes(&pkt[..split]).is_empty());
    let frames = decoder.push_bytes(&pkt[split..]);
    assert_eq!(frames.len(), 1);
}

#[test]
fn two_packets_in_one_buffer() {
    let mut decoder = PacketDecoder::new();
    let mut bytes = build_stream_packet(0, &[(1000, 0, 10)]);
    bytes.extend_from_slice(&build_stream_packet(2000, &[(1100, 0, 11), (1100, 500, 12)]));
    let frames = decoder.push_bytes(&bytes);
    assert_eq!(frames.len(), 2);
}

#[test]
fn packet_fields_come_from_their_places() {
    let pkt = full_packet(45_000, &[(1000, 0, 200), (2000, 1500, 180)]);
    let header = peek_header(&pkt).unwrap();
    assert_eq!(header.subcontract_points, 2);
    assert_eq!(header.total_points, 2);
    assert_eq!(header.start_angle_mdeg, 45_000);
    assert_eq!(header.end_angle_mdeg, 46_500);
    assert_eq!(header.timestamp, 0x0102_0304);
    let body = parse(&pkt).unwrap();
    assert_eq!(body.speed_degrees_per_second, 0);
    assert_eq!(body.timestamp_ms, 0x0102_0304);
    assert_eq!(body.end_angle_ticks, 46_500 * 11);
    assert_eq!(body.points[1].angle_ticks, 46_500 * 11);
    assert_eq!(body.points[1].distance_mm, 2000);
    assert_eq!(body.points[1].intensity, 180);
}

#[test]
fn absolute_angle_wraps_like_a_register() {
    let body = parse(&full_packet(u32::MAX, &[(1, 0, 0), (2, 1, 0), (3, 5, 0)])).unwrap();
    assert_eq!(body.points[0].angle_ticks, u32::MAX as u64 * 11);
    assert_eq!(body.points[1].angle_ticks, 0);
    assert_eq!(body.points[2].angle_ticks, 44);
}

#[test]
fn packet_length_follows_the_points() {
    assert_eq!(packet_len(0), 30);
    assert_eq!(packet_len(1), 35);
    assert_eq!(packet_len(1500), 7530);
}

#[test]
fn checksum_is_the_low_half_of_the_sum() {
    let pkt = full_packet(0, &[(0xFFFF, 0xFFFF, 0xFF)]);
    let header = peek_header(&pkt).unwrap();
    let header_words: u32 = (1..14)
        .map(|w| u16::from_le_bytes([pkt[2 * w], pkt[2 * w + 1]]) as u32)
        .sum();
    let sum = header_words + 0xFFFF + 0xFFFF + 0xFF;
    assert_eq!(checksum(&pkt, &header), sum as u16);
}

#[test]
fn implausible_headers_are_no_headers() {
    let pkt = full_packet(0, &[(1000, 0, 10)]);
    assert!(peek_header(&pkt[..27]).is_none());
    assert!(peek_header(&pkt[..28]).is_some());
    let mut none = pkt.clone();
    none[2] = 0;
    assert!(peek_header(&none).is_none());
    let mut many = pkt.clone();
    many[2..4].copy_from_slice(&1501u16.to_le_bytes());
    assert!(peek_header(&many).is_none());
    many[2..4].copy_from_slice(&1500u16.to_le_bytes());
    assert!(peek_header(&many).is_some());
}

#[test]
fn reports_each_fault_of_a_packet() {
    let pkt = full_packet(0, &[(1000, 0, 10)]);
    assert_eq!(parse(&[]), Err(ParseError::InvalidHeader(0)));
    assert_eq!(parse(&[0xC7]), Err(ParseError::InvalidHeader(0)));
    assert_eq!(parse(&pkt[..20]), Err(ParseError::InvalidHeader(0xFAC7)));
    assert_eq!(
        parse(&pkt[..34]),
        Err(ParseError::InvalidLength { expected: 35, actual: 34 })
    );
    let mut damaged = pkt.clone();
    damaged[28] ^= 1;
    let carried = u16::from_le_bytes([pkt[33], pkt[34]]) as u32;
    assert_eq!(
        parse(&damaged),
        Err(ParseError::CrcMismatch { expected: carried + 1, actual: carried })
    );
}

#[test]
fn bytes_behind_a_packet_do_not_matter() {
    let mut pkt = full_packet(7, &[(1000, 0, 10)]);
    let body = parse(&pkt).unwrap();
    pkt.extend_from_slice(&[1, 2, 3]);
    assert_eq!(parse(&pkt), Ok(body));
}

#[test]
fn every_damaged_byte_but_the_count_is_noticed() {
    let pkt = full_packet(45_000, &[(1000, 0, 200), (2000, 1000, 180)]);
    for at in 0..pkt.len() {
        if at == 2 || at == 3 {
            continue;
        }
        for flip in [0x01u8, 0x80, 0xff] {
            let mut damaged = pkt.clone();
            damaged[at] ^= flip;
            assert!(parse(&damaged).is_err(), "byte {at} ^ {flip:02x}");
        }
    }
}

#[test]
fn packets_do_not_depend_on_how_the_stream_is_split() {
    let mut stream = vec![0xC7, 0xC7, 0xFA, 0x00];
    stream.extend_from_slice(&full_packet(0, &[(1000, 0, 10)]));
    let mut damaged = full_packet(5, &[(1, 2, 3), (4, 5, 6)]);
    damaged[30] ^= 0x10;
    stream.extend_from_slice(&damaged);
    stream.extend_from_slice(&full_packet(9, &[(7, 8, 9)]));
    stream.push(0xC7);

    let mut whole = PacketDecoder::new();
    let expected: Vec<LidarBody> = whole.push_bytes(&stream);
    assert_eq!(expected.len(), 2);
    assert_eq!(whole.last_crc_failures(), 1);
    let dropped = whole.last_skipped();
    assert_eq!(dropped, 4 + 40);
    for size in [1, 3, 29, 34, 64] {
        let mut decoder = PacketDecoder::default();
        let mut frames = Vec::new();
        let mut skipped = 0;
        let mut failures = 0;
        for chunk in stream.chunks(size) {
            frames.extend(decoder.push_bytes(chunk));
            skipped += decoder.last_skipped();
            failures += decoder.last_crc_failures();
        }
        assert_eq!(frames, expected);
        assert_eq!(skipped, dropped);
        assert_eq!(failures, 1);
    }
}

#[test]
fn false_start_overlapping_a_packet_costs_its_own_bytes() {
    let mut real = vec![0xC7, 0xFA, 1, 0, 1, 0];
    real.extend([0; 22]);
    real.extend([0xE8, 3, 0, 0, 0x0A, 0xF4, 3]);
    let mut bytes = vec![0xC7, 0xFA, 1, 0];
    bytes.extend_from_slice(&real);
    let mut decoder = PacketDecoder::new();
    let frames = decoder.push_bytes(&bytes);
    assert_eq!(frames, vec![parse(&real).unwrap()]);
    assert_eq!(frames[0].points[0].distance_mm, 1000);
    assert_eq!(frames[0].points[0].intensity, 10);
    assert_eq!(decoder.last_skipped(), 4);
    assert_eq!(decoder.last_crc_failures(), 1);
    assert_eq!(decoder.push_bytes(&real).len(), 1);
    assert_eq!(decoder.last_skipped(), 0);
}

#[test]
fn command_layout_is_header_payload_crc() {
    let cmd = build_command("LSTARH", 0x0002);
    assert_eq!(cmd.len(), 8 + 8 + 4);
    assert_eq!(u16::from_le_bytes([cmd[0], cmd[1]]), CMD_SIGN);
    assert_eq!(u16::from_le_bytes([cmd[2], cmd[3]]), CMD_QUERY);
    assert_eq!(u16::from_le_bytes([cmd[4], cmd[5]]), 0x0002);
    assert_eq!(u16::from_le_bytes([cmd[6], cmd[7]]), 8);
    assert_eq!(&cmd[8..14], b"LSTARH");
    assert_eq!(cmd[14], 0);
    assert_eq!(cmd[15], 0);
}

#[test]
fn crc_is_deterministic_and_nonzero() {
    let a = build_command("LSTARH", 1);
    let b = build_command("LSTARH", 1);
    assert_eq!(a, b);
    let crc = &a[a.len() - 4..];
    assert_ne!(crc, &[0, 0, 0, 0]);
}

#[test]
fn different_payload_changes_crc() {
    let a = build_command("LSTARH", 1);
    let b = build_command("LVERSH", 1);
    assert_ne!(a[a.len() - 4..], b[b.len() - 4..]);
}

#[test]
fn crc_of_known_words() {
    assert_eq!(stm32_crc(&[]), 0xFFFF_FFFF);
    assert_eq!(stm32_crc(&[0]), 0xC704_DD7B);
    assert_eq!(stm32_crc(&[0xFFFF_FFFF]), 0);
    assert_eq!(stm32_crc(&[0x1234_5678]), 0xDF8A_8A2B);
}

#[test]
fn a_whole_command_has_the_crc_zero() {
    for text in ["LSTARH", "LVERSH", "", "abcd", "12345"] {
        let command = build_command(text, 0x1234);
        assert_eq!(command.len() % 4, 0);
        let words: Vec<u32> = command
            .chunks_exact(4)
            .map(|c| u32::from_le_bytes([c[0], c[1], c[2], c[3]]))
            .collect();
        assert_eq!(stm32_crc(&words), 0);
    }
}

#[test]
fn one_damaged_word_changes_the_crc() {
    let words = [1, 2, 3, 4];
    for at in 0..4 {
        for bit in 0..32 {
            let mut damaged = words;
            damaged[at] ^= 1 << bit;
            assert_ne!(stm32_crc(&damaged), stm32_crc(&words));
        }
    }
}

#[test]
fn start_sequence_asks_twice_then_starts() {
    let steps = start_sequence(6543);
    let vers = build_command("LVERSH", 1);
    let start = build_command("LSTARH", 2);
    assert_eq!(
        steps,
        vec![
            StartStep::Send { port: 6543, bytes: vers.clone(), must_succeed: false },
            StartStep::Send { port: 6544, bytes: vers, must_succeed: false },
            StartStep::Wait { millis: 500 },
            StartStep::Send { port: 6543, bytes: start.clone(), must_succeed: true },
            StartStep::Send { port: 6544, bytes: start, must_succeed: true },
        ]
    );
}

/// Starts a sensor whose sends end like this; the ports that were sent to, and the end.
fn start_with(sends: [bool; 4]) -> (Vec<u16>, StartProgress) {
    let mut run = StartRun::new(6543);
    let mut ports = Vec::new();
    let mut progress = StartProgress::At { position: 0 };
    while let Some(step) = run.current() {
        let ok = match step {
            StartStep::Send { port, .. } => {
                ports.push(*port);
                sends[ports.len() - 1]
            }
            StartStep::Wait { millis } => {
                assert_eq!(*millis, 500);
                assert_eq!(ports.len(), 2);
                true
            }
        };
        progress = run.finish_step(ok);
    }
    assert_eq!(run.finish_step(true), progress);
    assert_eq!(run.finish_step(false), progress);
    (ports, progress)
}

#[test]
fn failed_version_queries_are_ignored() {
    for (a, b) in [(true, true), (true, false), (false, true), (false, false)] {
        assert_eq!(
            start_with([a, b, true, true]),
            (vec![6543, 6544, 6543, 6544], StartProgress::Succeeded)
        );
    }
}

#[test]
fn first_failed_start_command_is_the_result() {
    assert_eq!(
        start_with([true, true, false, true]),
        (vec![6543, 6544, 6543], StartProgress::Failed { position: 3 })
    );
    assert_eq!(
        start_with([false, false, false, false]),
        (vec![6543, 6544, 6543], StartProgress::Failed { position: 3 })
    );
    assert_eq!(
        start_with([true, true, true, false]),
        (vec![6543, 6544, 6543, 6544], StartProgress::Failed { position: 4 })
    );
}
