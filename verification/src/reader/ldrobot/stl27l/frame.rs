//! Layout and parsing of the 47-byte frame of the STL-27L.
//!
//! A frame is `header, version, speed, start angle, 12 x (distance, strength), end angle,
//! timestamp, CRC8`, all numbers little-endian. It is looked at in place, checked, and copied
//! out into an owned [`LidarBody`].

use crate::reader::types::{LidarBody, LidarPoint, ParseError};
use vstd::prelude::*;
use vstd::slice::slice_subrange;

verus! {

use crate::reader::types::{BodyView, FULL_TURN_TICKS, le16_at, parsed_view};

pub const HEADER: u8 = 0x54;

pub const VER_LEN: u8 = 0x2c;

pub const POINTS_PER_PACKET: usize = 12;

pub const POINT_SIZE: usize = 3;

pub const PACKET_LEN: usize = 47;

pub const CRC_OFFSET: usize = 46;

/// Offset of the first point.
const POINTS_OFFSET: usize = 6;

/// Ticks in a hundredth of a degree, the unit of the angles in a frame.
const TICKS_PER_HUNDREDTH: i64 = 110;

/// Ticks in an eleventh of a hundredth of a degree, the unit of the interpolated angles.
const TICKS_PER_STEP_UNIT: i64 = 10;

/// Hundredths of a degree in a full turn.
const HUNDREDTHS_PER_TURN: i64 = 36_000;

const CRC_TABLE: [u8; 256] = [
    0x00, 0x4d, 0x9a, 0xd7, 0x79, 0x34, 0xe3, 0xae, 0xf2, 0xbf, 0x68, 0x25, 0x8b, 0xc6, 0x11, 0x5c,
    0xa9, 0xe4, 0x33, 0x7e, 0xd0, 0x9d, 0x4a, 0x07, 0x5b, 0x16, 0xc1, 0x8c, 0x22, 0x6f, 0xb8, 0xf5,
    0x1f, 0x52, 0x85, 0xc8, 0x66, 0x2b, 0xfc, 0xb1, 0xed, 0xa0, 0x77, 0x3a, 0x94, 0xd9, 0x0e, 0x43,
    0xb6, 0xfb, 0x2c, 0x61, 0xcf, 0x82, 0x55, 0x18, 0x44, 0x09, 0xde, 0x93, 0x3d, 0x70, 0xa7, 0xea,
    0x3e, 0x73, 0xa4, 0xe9, 0x47, 0x0a, 0xdd, 0x90, 0xcc, 0x81, 0x56, 0x1b, 0xb5, 0xf8, 0x2f, 0x62,
    0x97, 0xda, 0x0d, 0x40, 0xee, 0xa3, 0x74, 0x39, 0x65, 0x28, 0xff, 0xb2, 0x1c, 0x51, 0x86, 0xcb,
    0x21, 0x6c, 0xbb, 0xf6, 0x58, 0x15, 0xc2, 0x8f, 0xd3, 0x9e, 0x49, 0x04, 0xaa, 0xe7, 0x30, 0x7d,
    0x88, 0xc5, 0x12, 0x5f, 0xf1, 0xbc, 0x6b, 0x26, 0x7a, 0x37, 0xe0, 0xad, 0x03, 0x4e, 0x99, 0xd4,
    0x7c, 0x31, 0xe6, 0xab, 0x05, 0x48, 0x9f, 0xd2, 0x8e, 0xc3, 0x14, 0x59, 0xf7, 0xba, 0x6d, 0x20,
    0xd5, 0x98, 0x4f, 0x02, 0xac, 0xe1, 0x36, 0x7b, 0x27, 0x6a, 0xbd, 0xf0, 0x5e, 0x13, 0xc4, 0x89,
    0x63, 0x2e, 0xf9, 0xb4, 0x1a, 0x57, 0x80, 0xcd, 0x91, 0xdc, 0x0b, 0x46, 0xe8, 0xa5, 0x72, 0x3f,
    0xca, 0x87, 0x50, 0x1d, 0xb3, 0xfe, 0x29, 0x64, 0x38, 0x75, 0xa2, 0xef, 0x41, 0x0c, 0xdb, 0x96,
    0x42, 0x0f, 0xd8, 0x95, 0x3b, 0x76, 0xa1, 0xec, 0xb0, 0xfd, 0x2a, 0x67, 0xc9, 0x84, 0x53, 0x1e,
    0xeb, 0xa6, 0x71, 0x3c, 0x92, 0xdf, 0x08, 0x45, 0x19, 0x54, 0x83, 0xce, 0x60, 0x2d, 0xfa, 0xb7,
    0x5d, 0x10, 0xc7, 0x8a, 0x24, 0x69, 0xbe, 0xf3, 0xaf, 0xe2, 0x35, 0x78, 0xd6, 0x9b, 0x4c, 0x01,
    0xf4, 0xb9, 0x6e, 0x23, 0x8d, 0xc0, 0x17, 0x5a, 0x06, 0x4b, 0x9c, 0xd1, 0x7f, 0x32, 0xe5, 0xa8,
];

/// One bit of the CRC: shift the register, and subtract the polynomial 0x4d (x^8 implied)
/// where a bit falls out.
pub open spec fn crc8_bit(crc: u8) -> u8 {
    if crc & 0x80 != 0 {
        (crc << 1) ^ 0x4d
    } else {
        crc << 1
    }
}

/// The eight bits of one byte.
#[verifier::opaque]
pub open spec fn crc8_byte(crc: u8) -> u8 {
    crc8_bit(crc8_bit(crc8_bit(crc8_bit(crc8_bit(crc8_bit(crc8_bit(crc8_bit(crc))))))))
}

/// The CRC8 of `bytes`: polynomial 0x4d, most significant bit first, register starting at 0.
pub open spec fn crc8_of(bytes: Seq<u8>) -> u8
    decreases bytes.len(),
{
    if bytes.len() == 0 {
        0
    } else {
        crc8_byte(crc8_of(bytes.drop_last()) ^ bytes.last())
    }
}

/// The table holds the outcome of eight CRC bits for every register.
proof fn lemma_crc_table(crc: u8)
    ensures
        CRC_TABLE@[crc as int] == crc8_byte(crc),
{
    assert(
        crc8_byte(0) == 0x00 && crc8_byte(1) == 0x4d && crc8_byte(2) == 0x9a
        && crc8_byte(3) == 0xd7 && crc8_byte(4) == 0x79 && crc8_byte(5) == 0x34
        && crc8_byte(6) == 0xe3 && crc8_byte(7) == 0xae && crc8_byte(8) == 0xf2
        && crc8_byte(9) == 0xbf && crc8_byte(10) == 0x68 && crc8_byte(11) == 0x25
        && crc8_byte(12) == 0x8b && crc8_byte(13) == 0xc6 && crc8_byte(14) == 0x11
        && crc8_byte(15) == 0x5c && crc8_byte(16) == 0xa9 && crc8_byte(17) == 0xe4
        && crc8_byte(18) == 0x33 && crc8_byte(19) == 0x7e && crc8_byte(20) == 0xd0
        && crc8_byte(21) == 0x9d && crc8_byte(22) == 0x4a && crc8_byte(23) == 0x07
        && crc8_byte(24) == 0x5b && crc8_byte(25) == 0x16 && crc8_byte(26) == 0xc1
        && crc8_byte(27) == 0x8c && crc8_byte(28) == 0x22 && crc8_byte(29) == 0x6f
        && crc8_byte(30) == 0xb8 && crc8_byte(31) == 0xf5 && crc8_byte(32) == 0x1f
        && crc8_byte(33) == 0x52 && crc8_byte(34) == 0x85 && crc8_byte(35) == 0xc8
        && crc8_byte(36) == 0x66 && crc8_byte(37) == 0x2b && crc8_byte(38) == 0xfc
        && crc8_byte(39) == 0xb1 && crc8_byte(40) == 0xed && crc8_byte(41) == 0xa0
        && crc8_byte(42) == 0x77 && crc8_byte(43) == 0x3a && crc8_byte(44) == 0x94
        && crc8_byte(45) == 0xd9 && crc8_byte(46) == 0x0e && crc8_byte(47) == 0x43
        && crc8_byte(48) == 0xb6 && crc8_byte(49) == 0xfb && crc8_byte(50) == 0x2c
        && crc8_byte(51) == 0x61 && crc8_byte(52) == 0xcf && crc8_byte(53) == 0x82
        && crc8_byte(54) == 0x55 && crc8_byte(55) == 0x18 && crc8_byte(56) == 0x44
        && crc8_byte(57) == 0x09 && crc8_byte(58) == 0xde && crc8_byte(59) == 0x93
        && crc8_byte(60) == 0x3d && crc8_byte(61) == 0x70 && crc8_byte(62) == 0xa7
        && crc8_byte(63) == 0xea && crc8_byte(64) == 0x3e && crc8_byte(65) == 0x73
        && crc8_byte(66) == 0xa4 && crc8_byte(67) == 0xe9 && crc8_byte(68) == 0x47
        && crc8_byte(69) == 0x0a && crc8_byte(70) == 0xdd && crc8_byte(71) == 0x90
        && crc8_byte(72) == 0xcc && crc8_byte(73) == 0x81 && crc8_byte(74) == 0x56
        && crc8_byte(75) == 0x1b && crc8_byte(76) == 0xb5 && crc8_byte(77) == 0xf8
        && crc8_byte(78) == 0x2f && crc8_byte(79) == 0x62 && crc8_byte(80) == 0x97
        && crc8_byte(81) == 0xda && crc8_byte(82) == 0x0d && crc8_byte(83) == 0x40
        && crc8_byte(84) == 0xee && crc8_byte(85) == 0xa3 && crc8_byte(86) == 0x74
        && crc8_byte(87) == 0x39 && crc8_byte(88) == 0x65 && crc8_byte(89) == 0x28
        && crc8_byte(90) == 0xff && crc8_byte(91) == 0xb2 && crc8_byte(92) == 0x1c
        && crc8_byte(93) == 0x51 && crc8_byte(94) == 0x86 && crc8_byte(95) == 0xcb
        && crc8_byte(96) == 0x21 && crc8_byte(97) == 0x6c && crc8_byte(98) == 0xbb
        && crc8_byte(99) == 0xf6 && crc8_byte(100) == 0x58 && crc8_byte(101) == 0x15
        && crc8_byte(102) == 0xc2 && crc8_byte(103) == 0x8f && crc8_byte(104) == 0xd3
        && crc8_byte(105) == 0x9e && crc8_byte(106) == 0x49 && crc8_byte(107) == 0x04
        && crc8_byte(108) == 0xaa && crc8_byte(109) == 0xe7 && crc8_byte(110) == 0x30
        && crc8_byte(111) == 0x7d && crc8_byte(112) == 0x88 && crc8_byte(113) == 0xc5
        && crc8_byte(114) == 0x12 && crc8_byte(115) == 0x5f && crc8_byte(116) == 0xf1
        && crc8_byte(117) == 0xbc && crc8_byte(118) == 0x6b && crc8_byte(119) == 0x26
        && crc8_byte(120) == 0x7a && crc8_byte(121) == 0x37 && crc8_byte(122) == 0xe0
        && crc8_byte(123) == 0xad && crc8_byte(124) == 0x03 && crc8_byte(125) == 0x4e
        && crc8_byte(126) == 0x99 && crc8_byte(127) == 0xd4 && crc8_byte(128) == 0x7c
        && crc8_byte(129) == 0x31 && crc8_byte(130) == 0xe6 && crc8_byte(131) == 0xab
        && crc8_byte(132) == 0x05 && crc8_byte(133) == 0x48 && crc8_byte(134) == 0x9f
        && crc8_byte(135) == 0xd2 && crc8_byte(136) == 0x8e && crc8_byte(137) == 0xc3
        && crc8_byte(138) == 0x14 && crc8_byte(139) == 0x59 && crc8_byte(140) == 0xf7
        && crc8_byte(141) == 0xba && crc8_byte(142) == 0x6d && crc8_byte(143) == 0x20
        && crc8_byte(144) == 0xd5 && crc8_byte(145) == 0x98 && crc8_byte(146) == 0x4f
        && crc8_byte(147) == 0x02 && crc8_byte(148) == 0xac && crc8_byte(149) == 0xe1
        && crc8_byte(150) == 0x36 && crc8_byte(151) == 0x7b && crc8_byte(152) == 0x27
        && crc8_byte(153) == 0x6a && crc8_byte(154) == 0xbd && crc8_byte(155) == 0xf0
        && crc8_byte(156) == 0x5e && crc8_byte(157) == 0x13 && crc8_byte(158) == 0xc4
        && crc8_byte(159) == 0x89 && crc8_byte(160) == 0x63 && crc8_byte(161) == 0x2e
        && crc8_byte(162) == 0xf9 && crc8_byte(163) == 0xb4 && crc8_byte(164) == 0x1a
        && crc8_byte(165) == 0x57 && crc8_byte(166) == 0x80 && crc8_byte(167) == 0xcd
        && crc8_byte(168) == 0x91 && crc8_byte(169) == 0xdc && crc8_byte(170) == 0x0b
        && crc8_byte(171) == 0x46 && crc8_byte(172) == 0xe8 && crc8_byte(173) == 0xa5
        && crc8_byte(174) == 0x72 && crc8_byte(175) == 0x3f && crc8_byte(176) == 0xca
        && crc8_byte(177) == 0x87 && crc8_byte(178) == 0x50 && crc8_byte(179) == 0x1d
        && crc8_byte(180) == 0xb3 && crc8_byte(181) == 0xfe && crc8_byte(182) == 0x29
        && crc8_byte(183) == 0x64 && crc8_byte(184) == 0x38 && crc8_byte(185) == 0x75
        && crc8_byte(186) == 0xa2 && crc8_byte(187) == 0xef && crc8_byte(188) == 0x41
        && crc8_byte(189) == 0x0c && crc8_byte(190) == 0xdb && crc8_byte(191) == 0x96
        && crc8_byte(192) == 0x42 && crc8_byte(193) == 0x0f && crc8_byte(194) == 0xd8
        && crc8_byte(195) == 0x95 && crc8_byte(196) == 0x3b && crc8_byte(197) == 0x76
        && crc8_byte(198) == 0xa1 && crc8_byte(199) == 0xec && crc8_byte(200) == 0xb0
        && crc8_byte(201) == 0xfd && crc8_byte(202) == 0x2a && crc8_byte(203) == 0x67
        && crc8_byte(204) == 0xc9 && crc8_byte(205) == 0x84 && crc8_byte(206) == 0x53
        && crc8_byte(207) == 0x1e && crc8_byte(208) == 0xeb && crc8_byte(209) == 0xa6
        && crc8_byte(210) == 0x71 && crc8_byte(211) == 0x3c && crc8_byte(212) == 0x92
        && crc8_byte(213) == 0xdf && crc8_byte(214) == 0x08 && crc8_byte(215) == 0x45
        && crc8_byte(216) == 0x19 && crc8_byte(217) == 0x54 && crc8_byte(218) == 0x83
        && crc8_byte(219) == 0xce && crc8_byte(220) == 0x60 && crc8_byte(221) == 0x2d
        && crc8_byte(222) == 0xfa && crc8_byte(223) == 0xb7 && crc8_byte(224) == 0x5d
        && crc8_byte(225) == 0x10 && crc8_byte(226) == 0xc7 && crc8_byte(227) == 0x8a
        && crc8_byte(228) == 0x24 && crc8_byte(229) == 0x69 && crc8_byte(230) == 0xbe
        && crc8_byte(231) == 0xf3 && crc8_byte(232) == 0xaf && crc8_byte(233) == 0xe2
        && crc8_byte(234) == 0x35 && crc8_byte(235) == 0x78 && crc8_byte(236) == 0xd6
        && crc8_byte(237) == 0x9b && crc8_byte(238) == 0x4c && crc8_byte(239) == 0x01
        && crc8_byte(240) == 0xf4 && crc8_byte(241) == 0xb9 && crc8_byte(242) == 0x6e
        && crc8_byte(243) == 0x23 && crc8_byte(244) == 0x8d && crc8_byte(245) == 0xc0
        && crc8_byte(246) == 0x17 && crc8_byte(247) == 0x5a && crc8_byte(248) == 0x06
        && crc8_byte(249) == 0x4b && crc8_byte(250) == 0x9c && crc8_byte(251) == 0xd1
        && crc8_byte(252) == 0x7f && crc8_byte(253) == 0x32 && crc8_byte(254) == 0xe5
        && crc8_byte(255) == 0xa8
    ) by (bit_vector);
}

/// The CRC8 of `bytes`.
pub fn crc8(bytes: &[u8]) -> (crc: u8)
    ensures
        crc == crc8_of(bytes@),
{
    let mut crc: u8 = 0;
    let mut i: usize = 0;
    while i < bytes.len()
        invariant
            i <= bytes.len(),
            crc == crc8_of(bytes@.take(i as int)),
        decreases bytes.len() - i,
    {
        let index: u8 = crc ^ bytes[i];
        proof {
            lemma_crc_table(index);
            assert(bytes@.take(i + 1).drop_last() =~= bytes@.take(i as int));
        }
        crc = CRC_TABLE[index as usize];
        i = i + 1;
    }
    assert(bytes@.take(i as int) =~= bytes@);
    crc
}

/// Looks at `data` as the bytes of one frame, in place: `zerocopy`'s `FromBytes::ref_from_bytes`
/// for an array of [`PACKET_LEN`] bytes. Trusted: it gives the very bytes of `data` where there
/// are exactly that many, and nothing otherwise (alignment cannot fail for bytes).
#[verifier::external_body]
fn frame_bytes(data: &[u8]) -> (frame: Option<&[u8; PACKET_LEN]>)
    ensures
        frame is Some <==> data@.len() == PACKET_LEN,
        frame matches Some(bytes) ==> bytes@ == data@,
{
    <[u8; PACKET_LEN] as zerocopy::FromBytes>::ref_from_bytes(data).ok()
}

/// The number in a little-endian field of a frame: `zerocopy`'s
/// `byteorder::little_endian::U16`, made from its bytes and read with `get`. Trusted: the first
/// byte is the low one, on every host.
#[verifier::external_body]
fn field_value(bytes: [u8; 2]) -> (value: u16)
    ensures
        value == bytes@[0] + 256 * bytes@[1],
{
    zerocopy::byteorder::little_endian::U16::from_bytes(bytes).get()
}

/// The little-endian field at `offset` of a frame.
fn field_at(frame: &[u8; PACKET_LEN], offset: usize) -> (value: u16)
    requires
        offset + 1 < PACKET_LEN,
    ensures
        value == le16_at(frame@, offset as int),
{
    field_value([frame[offset], frame[offset + 1]])
}

/// Where the sweep of a frame ends, in hundredths of a degree counted from its start's turn: an
/// end below the start lies in the next turn.
pub open spec fn sweep_end(start: u16, end: u16) -> int {
    if end < start {
        end + 36_000
    } else {
        end as int
    }
}

/// The angle of point `i`, in ticks: the sweep from `start` to `end` (hundredths of a degree) in
/// eleven equal steps, within one turn.
pub open spec fn point_angle(start: u16, end: u16, i: int) -> u64 {
    ((110 * start + 10 * ((sweep_end(start, end) - start) * i)) % (FULL_TURN_TICKS as int)) as u64
}

/// Point `i` of a frame.
pub open spec fn point_of(frame: Seq<u8>, i: int) -> LidarPoint {
    LidarPoint {
        angle_ticks: point_angle(le16_at(frame, 4), le16_at(frame, 42), i),
        distance_mm: le16_at(frame, 6 + 3 * i),
        intensity: frame[6 + 3 * i + 2],
    }
}

/// The measurements in a frame.
pub open spec fn body_of(frame: Seq<u8>) -> BodyView {
    BodyView {
        speed_degrees_per_second: le16_at(frame, 2),
        start_angle_ticks: (110 * le16_at(frame, 4)) as u64,
        end_angle_ticks: (110 * le16_at(frame, 42)) as u64,
        timestamp_ms: le16_at(frame, 44) as u32,
        points: Seq::new(POINTS_PER_PACKET as nat, |i: int| point_of(frame, i)),
    }
}

/// Whether `data` is a frame: its length, header, version and CRC are right.
pub open spec fn is_frame(data: Seq<u8>) -> bool {
    &&& data.len() == PACKET_LEN
    &&& data[0] == HEADER
    &&& data[1] == VER_LEN
    &&& crc8_of(data.take(CRC_OFFSET as int)) == data[CRC_OFFSET as int]
}

/// What parsing `data` gives: the first of the checks that fails, or the measurements.
pub open spec fn parse_of(data: Seq<u8>) -> Result<BodyView, ParseError> {
    if data.len() != PACKET_LEN {
        Err(ParseError::InvalidLength { expected: PACKET_LEN, actual: data.len() as usize })
    } else if data[0] != HEADER {
        Err(ParseError::InvalidHeader(data[0] as u16))
    } else if data[1] != VER_LEN {
        Err(ParseError::InvalidVerLen(data[1]))
    } else if crc8_of(data.take(CRC_OFFSET as int)) != data[CRC_OFFSET as int] {
        Err(
            ParseError::CrcMismatch {
                expected: crc8_of(data.take(CRC_OFFSET as int)) as u32,
                actual: data[CRC_OFFSET as int] as u32,
            },
        )
    } else {
        Ok(body_of(data))
    }
}

/// Parses a slice of exactly [`PACKET_LEN`] bytes as a frame.
pub fn parse(data: &[u8]) -> (parsed: Result<LidarBody, ParseError>)
    ensures
        parsed_view(parsed) == parse_of(data@),
        parsed is Ok <==> is_frame(data@),
        parsed matches Ok(body) ==> body.points@.len() == 12 && forall|i: int|
            0 <= i < 12 ==> (#[trigger] body.points@[i]).distance_mm == data@[6 + 3 * i] + 256
                * data@[7 + 3 * i] && body.points@[i].intensity == data@[8 + 3 * i],
{
    let frame = match frame_bytes(data) {
        Some(frame) => frame,
        None => {
            return Err(ParseError::InvalidLength { expected: PACKET_LEN, actual: data.len() });
        },
    };

    if frame[0] != HEADER {
        return Err(ParseError::InvalidHeader(frame[0] as u16));
    }
    if frame[1] != VER_LEN {
        return Err(ParseError::InvalidVerLen(frame[1]));
    }
    let expected_crc: u8 = crc8(slice_subrange(data, 0, CRC_OFFSET));
    assert(data@.subrange(0, CRC_OFFSET as int) =~= data@.take(CRC_OFFSET as int));
    if expected_crc != frame[CRC_OFFSET] {
        return Err(
            ParseError::CrcMismatch {
                expected: expected_crc as u32,
                actual: frame[CRC_OFFSET] as u32,
            },
        );
    }
    let start: u16 = field_at(frame, 4);
    let end: u16 = field_at(frame, 42);
    let body = LidarBody {
        speed_degrees_per_second: field_at(frame, 2),
        start_angle_ticks: (start as i64 * TICKS_PER_HUNDREDTH) as u64,
        end_angle_ticks: (end as i64 * TICKS_PER_HUNDREDTH) as u64,
        timestamp_ms: field_at(frame, 44) as u32,
        points: build_points(frame, start, end),
    };
    assert(body@ =~= body_of(data@));
    Ok(body)
}

/// The points of a frame, their angles spread evenly from `start` to `end` (hundredths of a
/// degree). A sweep through 0 degrees is taken through the next turn.
fn build_points(frame: &[u8; PACKET_LEN], start: u16, end: u16) -> (points: Vec<LidarPoint>)
    ensures
        points@.len() == POINTS_PER_PACKET,
        forall|i: int|
            0 <= i < POINTS_PER_PACKET ==> #[trigger] points@[i] == (LidarPoint {
                angle_ticks: point_angle(start, end, i),
                distance_mm: le16_at(frame@, 6 + 3 * i),
                intensity: frame@[6 + 3 * i + 2],
            }),
{
    let sweep: i64 = if end < start {
        end as i64 + HUNDREDTHS_PER_TURN - start as i64
    } else {
        end as i64 - start as i64
    };
    let mut points: Vec<LidarPoint> = Vec::new();
    let mut i: usize = 0;
    while i < POINTS_PER_PACKET
        invariant
            i <= POINTS_PER_PACKET,
            sweep == sweep_end(start, end) - start,
            points@.len() == i,
            forall|k: int|
                0 <= k < i ==> #[trigger] points@[k] == (LidarPoint {
                    angle_ticks: point_angle(start, end, k),
                    distance_mm: le16_at(frame@, 6 + 3 * k),
                    intensity: frame@[6 + 3 * k + 2],
                }),
        decreases POINTS_PER_PACKET - i,
    {
        assert(-11 * start <= sweep * i <= 65_535 * 12) by (nonlinear_arith)
            requires
                -start <= sweep <= 65_535,
                0 <= i <= 11,
        ;
        let swept: i64 = sweep * i as i64;
        let angle: i64 = start as i64 * TICKS_PER_HUNDREDTH + swept * TICKS_PER_STEP_UNIT;
        let offset: usize = POINTS_OFFSET + i * POINT_SIZE;
        points.push(
            LidarPoint {
                angle_ticks: angle as u64 % FULL_TURN_TICKS,
                distance_mm: field_at(frame, offset),
                intensity: frame[offset + 2],
            },
        );
        i = i + 1;
    }
    points
}

/// A message followed by its own CRC8 has the CRC8 0.
pub proof fn law_crc8_of_message_and_crc_is_zero(bytes: Seq<u8>)
    ensures
        crc8_of(bytes.push(crc8_of(bytes))) == 0,
{
    let crc = crc8_of(bytes);
    assert(bytes.push(crc).drop_last() =~= bytes);
    assert(crc ^ crc == 0) by (bit_vector);
    assert(crc8_byte(0) == 0) by (bit_vector);
}

/// Different registers stay different through a byte.
proof fn lemma_crc8_byte_injective(a: u8, b: u8)
    requires
        a != b,
    ensures
        crc8_byte(a) != crc8_byte(b),
{
    assert(a != b ==> crc8_byte(a) != crc8_byte(b)) by (bit_vector);
}

/// Two messages of one length that differ in exactly one byte have different CRC8s.
pub proof fn law_crc8_detects_one_damaged_byte(a: Seq<u8>, b: Seq<u8>, at: int)
    requires
        a.len() == b.len(),
        0 <= at < a.len(),
        a[at] != b[at],
        forall|i: int| 0 <= i < a.len() && i != at ==> a[i] == b[i],
    ensures
        crc8_of(a) != crc8_of(b),
    decreases a.len(),
{
    let (x, y) = (a.last(), b.last());
    let (p, q) = (crc8_of(a.drop_last()), crc8_of(b.drop_last()));
    if at == a.len() - 1 {
        assert(a.drop_last() =~= b.drop_last());
        assert(x != y ==> p ^ x != p ^ y) by (bit_vector);
        lemma_crc8_byte_injective(p ^ x, p ^ y);
    } else {
        law_crc8_detects_one_damaged_byte(a.drop_last(), b.drop_last(), at);
        assert(p != q ==> p ^ x != q ^ x) by (bit_vector);
        lemma_crc8_byte_injective(p ^ x, q ^ x);
    }
}

/// A frame with any one byte changed is rejected.
pub proof fn law_damaged_frame_is_rejected(frame: Seq<u8>, at: int, value: u8)
    requires
        is_frame(frame),
        0 <= at < frame.len(),
        value != frame[at],
    ensures
        !is_frame(frame.update(at, value)),
        parse_of(frame.update(at, value)) is Err,
{
    let damaged = frame.update(at, value);
    let n = CRC_OFFSET as int;
    if at < n {
        law_crc8_detects_one_damaged_byte(frame.take(n), damaged.take(n), at);
    } else {
        assert(frame.take(n) =~= damaged.take(n));
    }
}

/// The first point lies at the start angle and the last one at the end angle of the frame, each
/// within one turn.
pub proof fn law_sweep_meets_both_ends(start: u16, end: u16)
    ensures
        point_angle(start, end, 0) == 110 * start % (FULL_TURN_TICKS as int),
        point_angle(start, end, POINTS_PER_PACKET - 1) == 110 * end % (FULL_TURN_TICKS as int),
{
    let swept = (sweep_end(start, end) - start) * 11;
    assert(110 * start + 10 * swept == 110 * sweep_end(start, end));
    assert((110 * end + 3_960_000) % 3_960_000 == (110 * end) % 3_960_000int);
}

/// The points are evenly spaced: each step, within one turn, is the same.
pub proof fn law_sweep_is_even(start: u16, end: u16, i: int)
    ensures
        (point_angle(start, end, i) + 10 * (sweep_end(start, end) - start)) % (
        FULL_TURN_TICKS as int) == point_angle(start, end, i + 1),
        point_angle(start, end, i) < FULL_TURN_TICKS,
{
    let sweep = sweep_end(start, end) - start;
    let full = FULL_TURN_TICKS as int;
    assert(sweep * (i + 1) == sweep * i + sweep) by (nonlinear_arith);
    let here = 110 * start + 10 * (sweep * i);
    vstd::arithmetic::div_mod::lemma_add_mod_noop(here, 10 * sweep, full);
    vstd::arithmetic::div_mod::lemma_add_mod_noop(here % full, 10 * sweep, full);
    vstd::arithmetic::div_mod::lemma_mod_twice(here, full);
}

/// A frame is 47 bytes that begin with `54 2c` and end with the CRC of the rest, and nothing else
/// is asked of it.
pub proof fn law_what_a_frame_is(data: Seq<u8>)
    ensures
        is_frame(data) <==> data.len() == 47 && data[0] == 0x54 && data[1] == 0x2c && crc8_of(
            data.take(46),
        ) == data[46],
        parse_of(data) is Ok <==> is_frame(data),
{
}

/// Each fault is named, the first one that there is: a wrong length, header, version or CRC, with
/// what was found.
pub proof fn law_first_fault_is_named(data: Seq<u8>)
    requires
        data.len() <= usize::MAX,
    ensures
        ({
            let parsed = parse_of(data);
            let crc = crc8_of(data.take(46));
            &&& data.len() != 47 <==> parsed == Err::<BodyView, ParseError>(
                ParseError::InvalidLength { expected: 47, actual: data.len() as usize },
            )
            &&& data.len() == 47 && data[0] != 0x54 <==> parsed == Err::<BodyView, ParseError>(
                ParseError::InvalidHeader(data[0] as u16),
            )
            &&& data.len() == 47 && data[0] == 0x54 && data[1] != 0x2c <==> parsed == Err::<
                BodyView,
                ParseError,
            >(ParseError::InvalidVerLen(data[1]))
            &&& data.len() == 47 && data[0] == 0x54 && data[1] == 0x2c && crc != data[46] <==> parsed
                == Err::<BodyView, ParseError>(
                ParseError::CrcMismatch { expected: crc as u32, actual: data[46] as u32 },
            )
        }),
{
}

/// What a frame holds comes out: speed, both angles and the time, and for each of its 12 points
/// the whole 16-bit distance and the strength, each byte of the frame in its place.
pub proof fn law_parsing_gives_back_what_the_frame_holds(data: Seq<u8>)
    requires
        data.len() == 47,
        data[0] == 0x54,
        data[1] == 0x2c,
        crc8_of(data.take(46)) == data[46],
    ensures
        parse_of(data) is Ok,
        ({
            let body = parse_of(data)->Ok_0;
            &&& body.speed_degrees_per_second == data[2] + 256 * data[3]
            &&& body.start_angle_ticks == 110 * (data[4] + 256 * data[5])
            &&& body.end_angle_ticks == 110 * (data[42] + 256 * data[43])
            &&& body.timestamp_ms == data[44] + 256 * data[45]
            &&& body.points.len() == 12
            &&& forall|i: int|
                0 <= i < 12 ==> (#[trigger] body.points[i]).distance_mm == data[6 + 3 * i] + 256
                    * data[7 + 3 * i] && body.points[i].intensity == data[8 + 3 * i]
        }),
{
}

/// The angles of a frame's points go from its start angle to its end angle in eleven equal steps,
/// counted round the circle: an end below the start lies in the next turn.
pub proof fn law_parsed_angles_are_spread_evenly(data: Seq<u8>, i: int)
    requires
        parse_of(data) is Ok,
        0 <= i < 12,
    ensures
        ({
            let body = parse_of(data)->Ok_0;
            let start = data[4] + 256 * data[5];
            let end = data[42] + 256 * data[43];
            let sweep = if end < start {
                end + 36_000 - start
            } else {
                end - start
            };
            &&& body.points[i].angle_ticks < 3_960_000
            &&& (110 * start + 10 * (sweep * i) - body.points[i].angle_ticks) % 3_960_000 == 0
        }),
{
    let start = le16_at(data, 4);
    let end = le16_at(data, 42);
    let angle = 110 * start + 10 * ((sweep_end(start, end) - start) * i);
    assert(parse_of(data)->Ok_0.points[i] == point_of(data, i));
    assert((angle - angle % 3_960_000) % 3_960_000 == 0);
}

/// The CRC of one byte, bit by bit: each bit that is set adds the remainder of its power by the
/// generator.
pub proof fn law_crc8_of_one_byte(b: u8)
    ensures
        crc8_of(seq![b]) == (if b & 0x01 != 0 {
            0x4du8
        } else {
            0
        }) ^ (if b & 0x02 != 0 {
            0x9au8
        } else {
            0
        }) ^ (if b & 0x04 != 0 {
            0x79u8
        } else {
            0
        }) ^ (if b & 0x08 != 0 {
            0xf2u8
        } else {
            0
        }) ^ (if b & 0x10 != 0 {
            0xa9u8
        } else {
            0
        }) ^ (if b & 0x20 != 0 {
            0x1fu8
        } else {
            0
        }) ^ (if b & 0x40 != 0 {
            0x3eu8
        } else {
            0
        }) ^ (if b & 0x80 != 0 {
            0x7cu8
        } else {
            0
        }),
{
    assert(seq![b].drop_last() =~= Seq::<u8>::empty());
    assert(crc8_of(Seq::<u8>::empty()) == 0);
    assert(crc8_of(seq![b]) == crc8_byte(0 ^ b));
    assert(0 ^ b == b) by (bit_vector);
    assert(crc8_byte(b) == (if b & 0x01 != 0 {
        0x4du8
    } else {
        0
    }) ^ (if b & 0x02 != 0 {
        0x9au8
    } else {
        0
    }) ^ (if b & 0x04 != 0 {
        0x79u8
    } else {
        0
    }) ^ (if b & 0x08 != 0 {
        0xf2u8
    } else {
        0
    }) ^ (if b & 0x10 != 0 {
        0xa9u8
    } else {
        0
    }) ^ (if b & 0x20 != 0 {
        0x1fu8
    } else {
        0
    }) ^ (if b & 0x40 != 0 {
        0x3eu8
    } else {
        0
    }) ^ (if b & 0x80 != 0 {
        0x7cu8
    } else {
        0
    })) by (bit_vector);
}

/// The CRC of a longer message: that of the message before its last byte, joined with that byte.
/// The CRC of nothing is 0.
pub proof fn law_crc8_goes_byte_by_byte(bytes: Seq<u8>, b: u8)
    ensures
        crc8_of(Seq::empty()) == 0,
        crc8_of(bytes.push(b)) == crc8_of(seq![crc8_of(bytes) ^ b]),
{
    let x = crc8_of(bytes) ^ b;
    assert(bytes.push(b).drop_last() =~= bytes);
    assert(seq![x].drop_last() =~= Seq::<u8>::empty());
    assert(0 ^ x == x) by (bit_vector);
}

} // verus!
