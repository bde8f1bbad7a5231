//! Frames of the STL-27L: checksum, parsing and the two decoders.

use ldlidar::reader::decoder::FrameDecoder as RawDecoder;
use ldlidar::reader::ldrobot::stl27l::decoder::FrameDecoder;
use ldlidar::reader::ldrobot::stl27l::frame::{
    CRC_OFFSET, PACKET_LEN, POINTS_PER_PACKET, crc8, parse,
};
use ldlidar::reader::types::{LidarBody, ParseError, TICKS_PER_DEGREE};

const PDF_EXAMPLE_FRAME: [u8; 47] = [
    0x54, 0x2c, 0x68, 0x08, 0xab, 0x7e, 0xe0, 0x00, 0xe4, 0xdc, 0x00, 0xe2, 0xd9, 0x00, 0xe5, 0xd5,
    0x00, 0xe3, 0xd3, 0x00, 0xe4, 0xd0, 0x00, 0xe9, 0xcd, 0x00, 0xe4, 0xca, 0x00, 0xe2, 0xc7, 0x00,
    0xe9, 0xc5, 0x00, 0xe5, 0xc2, 0x00, 0xe5, 0xc0, 0x00, 0xe5, 0xbe, 0x82, 0x3a, 0x1a, 0x50,
];

fn degrees(ticks: u64) -> f32 {
    ticks as f32 / TICKS_PER_DEGREE as f32
}

/// A frame with these angles, in hundredths of a degree, and distances 100, 101, ...
fn frame_with(start: u16, end: u16) -> Vec<u8> {
    let mut frame = vec![0x54, 0x2c, 0x10, 0x0e];
    frame.extend_from_slice(&start.to_le_bytes());
    for i in 0..12u16 {
        frame.extend_from_slice(&(100 + i).to_le_bytes());
        frame.push(i as u8);
    }
    frame.extend_from_slice(&end.to_le_bytes());
    frame.extend_from_slice(&[0x01, 0x00]);
    let crc = crc8(&frame);
    frame.push(crc);
    frame
}

#[test]
fn crc_matches_pdf_example() {
    assert_eq!(crc8(&PDF_EXAMPLE_FRAME[..CRC_OFFSET]), 0x50);
}

#[test]
fn parses_pdf_example() {
    let frame = parse(&PDF_EXAMPLE_FRAME).expect("PDF example should parse");

    assert_eq!(frame.speed_degrees_per_second, 2_152);
    assert_eq!(degrees(frame.start_angle_ticks), 324.27);
    assert_eq!(degrees(frame.end_angle_ticks), 334.70);
    assert_eq!(frame.timestamp_ms, 0x1a3a);
    assert_eq!(frame.points.len(), POINTS_PER_PACKET);
    assert_eq!(frame.points[0].distance_mm, 224);
    assert_eq!(frame.points[0].intensity, 228);
    assert_eq!(frame.points[1].distance_mm, 220);
    assert_eq!(frame.points[1].intensity, 226);
    assert_eq!(frame.points[11].distance_mm, 192);
    assert_eq!(frame.points[11].intensity, 229);
}

#[test]
fn decoder_skips_noise_and_extracts_frame() {
    let mut decoder = FrameDecoder::new();
    let mut bytes = vec![0x00, 0x11, 0x54, 0x00, 0x54];
    bytes.extend_from_slice(&PDF_EXAMPLE_FRAME[1..]);

    let frames = decoder.push_bytes(&bytes);

    assert_eq!(frames.len(), 1);
    assert_eq!(frames[0].points.len(), 12);
}

#[test]
fn false_header_with_bad_crc_advances_one_byte_only() {
    let mut decoder = FrameDecoder::new();
    let mut bytes = vec![0x54, 0x2c];
    bytes.extend(std::iter::repeat_n(0xAA, PACKET_LEN));
    bytes.extend_from_slice(&PDF_EXAMPLE_FRAME);

    let frames = decoder.push_bytes(&bytes);

    assert_eq!(frames.len(), 1);
    assert!(decoder.last_crc_failures() >= 1);
}

#[test]
fn waits_for_full_frame_before_emitting() {
    let mut decoder = FrameDecoder::new();
    let half = decoder.push_bytes(&PDF_EXAMPLE_FRAME[..20]);
    assert!(half.is_empty());
    let rest = decoder.push_bytes(&PDF_EXAMPLE_FRAME[20..]);
    assert_eq!(rest.len(), 1);
}

#[test]
fn decoder_decoder_skips_noise_and_extracts_frame() {
    let mut decoder = RawDecoder::new();
    let mut bytes = vec![0x00, 0x11, 0x54, 0x00, 0x54];
    bytes.extend_from_slice(&PDF_EXAMPLE_FRAME[1..]);

    let frames = decoder.push_bytes(&bytes);

    assert_eq!(frames.len(), 1);
    assert!(frames[0].is_ok());
}

#[test]
fn interpolates_the_angles_of_a_frame() {
    let frame = parse(&frame_with(1_000, 2_100)).unwrap();
    let angles: Vec<u64> = frame.points.iter().map(|p| p.angle_ticks).collect();
    let expected: Vec<u64> = (0..12).map(|i| (10 + i) * TICKS_PER_DEGREE).collect();
    assert_eq!(angles, expected);
    assert_eq!(frame.speed_degrees_per_second, 3_600);
    assert_eq!(frame.points[3].distance_mm, 103);
    assert_eq!(frame.points[3].intensity, 3);
}

#[test]
fn interpolates_across_zero() {
    let frame = parse(&frame_with(35_500, 600)).unwrap();
    let angles: Vec<u64> = frame.points.iter().map(|p| p.angle_ticks).collect();
    let expected: Vec<u64> = (0..12).map(|i| (355 + i) % 360 * TICKS_PER_DEGREE).collect();
    assert_eq!(angles, expected);
}

#[test]
fn interpolates_in_elevenths() {
    let frame = parse(&frame_with(0, 1)).unwrap();
    assert_eq!(frame.points[1].angle_ticks, 10);
    assert_eq!(frame.points[10].angle_ticks, 100);
    assert_eq!(frame.points[11].angle_ticks, 110);
}

#[test]
fn reports_each_fault_of_a_frame() {
    assert_eq!(
        parse(&PDF_EXAMPLE_FRAME[..46]),
        Err(ParseError::InvalidLength { expected: 47, actual: 46 })
    );
    let mut header = PDF_EXAMPLE_FRAME;
    header[0] = 0x55;
    assert_eq!(parse(&header), Err(ParseError::InvalidHeader(0x55)));
    let mut version = PDF_EXAMPLE_FRAME;
    version[1] = 0x2d;
    assert_eq!(parse(&version), Err(ParseError::InvalidVerLen(0x2d)));
    let mut crc = PDF_EXAMPLE_FRAME;
    crc[46] = 0x51;
    assert_eq!(
        parse(&crc),
        Err(ParseError::CrcMismatch { expected: 0x50, actual: 0x51 })
    );
}

#[test]
fn every_damaged_byte_is_noticed() {
    for at in 0..PACKET_LEN {
        for flip in [0x01u8, 0x80, 0xff] {
            let mut damaged = PDF_EXAMPLE_FRAME;
            damaged[at] ^= flip;
            assert!(parse(&damaged).is_err(), "byte {at} ^ {flip:02x}");
        }
    }
}

#[test]
fn crc8_of_nothing_and_of_a_message_with_its_crc() {
    assert_eq!(crc8(&[]), 0);
    assert_eq!(crc8(&[1]), 0x4d);
    assert_eq!(crc8(&PDF_EXAMPLE_FRAME), 0);
}

#[test]
fn frames_do_not_depend_on_how_the_stream_is_split() {
    let mut stream = vec![0x11, 0x54];
    stream.extend_from_slice(&PDF_EXAMPLE_FRAME);
    stream.extend_from_slice(&[0x54, 0x2c, 0x00]);
    stream.extend_from_slice(&frame_with(100, 200));
    stream.extend_from_slice(&PDF_EXAMPLE_FRAME[..30]);

    let mut whole = FrameDecoder::new();
    let expected: Vec<LidarBody> = whole.push_bytes(&stream);
    assert_eq!(expected.len(), 2);
    assert_eq!(whole.last_skipped(), 5);
    assert_eq!(whole.last_crc_failures(), 1);
    for size in [1, 2, 7, 46, 48] {
        let mut decoder = FrameDecoder::default();
        let mut frames = Vec::new();
        let mut skipped = 0;
        let mut failures = 0;
        for chunk in stream.chunks(size) {
            frames.extend(decoder.push_bytes(chunk));
            skipped += decoder.last_skipped();
            failures += decoder.last_crc_failures();
        }
        assert_eq!(frames, expected);
        assert_eq!(skipped, 5);
        assert_eq!(failures, 1);
    }
}

#[test]
fn raw_decoder_hands_out_wrong_crcs() {
    let mut damaged = PDF_EXAMPLE_FRAME;
    damaged[10] ^= 1;
    let mut decoder = RawDecoder::default();
    let mut stream = damaged.to_vec();
    stream.extend_from_slice(&PDF_EXAMPLE_FRAME);
    let frames = decoder.push_bytes(&stream);
    assert_eq!(frames.len(), 2);
    assert!(matches!(frames[0], Err(ParseError::CrcMismatch { actual: 0x50, .. })));
    assert!(frames[1].is_ok());
}

#[test]
fn raw_decoder_keeps_an_incomplete_frame() {
    let mut decoder = RawDecoder::new();
    assert!(decoder.push_bytes(&PDF_EXAMPLE_FRAME[..46]).is_empty());
    assert_eq!(decoder.push_bytes(&PDF_EXAMPLE_FRAME[46..]).len(), 1);
    assert!(decoder.push_bytes(&[0x54, 0x00]).is_empty());
}
