//! Layout and parsing of the `0xFAC7` data packet of the LDS-50C-E.
//!
//! Two things differ from a fixed-size frame. The number of points is in the header, so the
//! length varies: 28 bytes of header, 5 bytes for each point, 2 bytes of checksum. And the points
//! are three arrays in a row: all distances, all angles, all strengths.

use crate::reader::types::{LidarBody, LidarPoint, ParseError};
use vstd::prelude::*;

verus! {

use crate::reader::types::{BodyView, le16_at, le32_at, parsed_view};

/// Sync header of a data packet (`c7 fa` in memory).
pub const HEADER: u16 = 0xFAC7;

/// Length of the fixed header.
pub const HEADER_LEN: usize = 28;

/// Bytes of one point: distance 2, angle 2, strength 1.
pub const POINT_STRIDE: usize = 5;

/// Length of the checksum.
pub const CHECKSUM_LEN: usize = 2;

/// The most points that a packet can have; more is a false sync.
pub const MAX_POINTS_PER_PACKET: usize = 1500;

/// Ticks in a thousandth of a degree, the unit of the angles in a packet.
const TICKS_PER_MDEG: u64 = 11;

/// The little-endian 16-bit number at `offset`.
pub fn read_u16_le(data: &[u8], offset: usize) -> (value: u16)
    requires
        offset + 1 < data@.len(),
    ensures
        value == le16_at(data@, offset as int),
{
    data[offset] as u16 + 256 * data[offset + 1] as u16
}

/// The little-endian 32-bit number at `offset`.
pub fn read_u32_le(data: &[u8], offset: usize) -> (value: u32)
    requires
        offset + 3 < data@.len(),
    ensures
        value == le32_at(data@, offset as int),
{
    data[offset] as u32 + 0x100 * data[offset + 1] as u32 + 0x1_0000 * data[offset + 2] as u32
        + 0x100_0000 * data[offset + 3] as u32
}

/// What the header says that is needed to read the packet.
#[derive(Debug, Clone, Copy, PartialEq, Eq, Structural)]
pub struct Header {
    pub subcontract_points: usize,
    pub total_points: u16,
    pub start_angle_mdeg: u32,
    pub end_angle_mdeg: u32,
    pub timestamp: u32,
}

/// The header at the front of `data`, where there is a plausible one: 28 bytes, the sync, and
/// from 1 to [`MAX_POINTS_PER_PACKET`] points.
pub open spec fn header_of(data: Seq<u8>) -> Option<Header> {
    if data.len() >= HEADER_LEN && le16_at(data, 0) == HEADER && 1 <= le16_at(data, 2)
        <= MAX_POINTS_PER_PACKET {
        Some(
            Header {
                subcontract_points: le16_at(data, 2) as usize,
                total_points: le16_at(data, 4),
                start_angle_mdeg: le32_at(data, 8),
                end_angle_mdeg: le32_at(data, 12),
                timestamp: le32_at(data, 20),
            },
        )
    } else {
        None
    }
}

/// Reads the first 28 bytes as a header; `None` where the sync or the number of points is wrong.
pub fn peek_header(data: &[u8]) -> (header: Option<Header>)
    ensures
        header == header_of(data@),
{
    if data.len() < HEADER_LEN {
        return None;
    }
    if read_u16_le(data, 0) != HEADER {
        return None;
    }
    let subcontract_points: usize = read_u16_le(data, 2) as usize;
    if subcontract_points == 0 || subcontract_points > MAX_POINTS_PER_PACKET {
        return None;
    }
    Some(
        Header {
            subcontract_points,
            total_points: read_u16_le(data, 4),
            start_angle_mdeg: read_u32_le(data, 8),
            end_angle_mdeg: read_u32_le(data, 12),
            timestamp: read_u32_le(data, 20),
        },
    )
}

/// The length of a packet with `points` points.
pub open spec fn packet_len_of(points: int) -> int {
    28 + 5 * points + 2
}

/// The length of a packet with that many points.
pub fn packet_len(subcontract_points: usize) -> (len: usize)
    requires
        packet_len_of(subcontract_points as int) <= usize::MAX,
    ensures
        len == packet_len_of(subcontract_points as int),
        len == 30 + 5 * subcontract_points,
{
    HEADER_LEN + subcontract_points * POINT_STRIDE + CHECKSUM_LEN
}

/// The distance of point `k` in a packet of `n` points.
pub open spec fn distance_at(data: Seq<u8>, n: int, k: int) -> u16 {
    le16_at(data, 28 + 2 * k)
}

/// The angle of point `k`, counted from the packet's start angle.
pub open spec fn angle_at(data: Seq<u8>, n: int, k: int) -> u16 {
    le16_at(data, 28 + 2 * n + 2 * k)
}

/// The strength of point `k`.
pub open spec fn strength_at(data: Seq<u8>, n: int, k: int) -> u8 {
    data[28 + 4 * n + k]
}

/// The sum of the first `words` 16-bit words behind the sync.
pub open spec fn header_sum(data: Seq<u8>, words: nat) -> nat
    decreases words,
{
    if words == 0 {
        0
    } else {
        header_sum(data, (words - 1) as nat) + le16_at(data, 2 * words as int) as nat
    }
}

/// The sum of distance, angle and strength over the first `k` of `n` points.
pub open spec fn points_sum(data: Seq<u8>, n: int, k: nat) -> nat
    decreases k,
{
    if k == 0 {
        0
    } else {
        points_sum(data, n, (k - 1) as nat) + distance_at(data, n, k - 1) as nat + angle_at(
            data,
            n,
            k - 1,
        ) as nat + strength_at(data, n, k - 1) as nat
    }
}

/// The checksum of a packet of `n` points: the low 16 bits of the sum of the header words behind
/// the sync and of all distances, angles and strengths.
pub open spec fn checksum_of(data: Seq<u8>, n: nat) -> u16 {
    ((header_sum(data, 13) + points_sum(data, n as int, n)) % 0x1_0000) as u16
}

/// The low 16 bits of a 32-bit sum.
fn low_half(sum: u32) -> (low: u16)
    ensures
        low == sum % 0x1_0000,
{
    assert(sum as u16 == sum % 0x1_0000) by (bit_vector);
    sum as u16
}

/// Adding in 32 bits, where `sum` stands for the low 32 bits of `total`.
proof fn lemma_sum_in_32_bits(total: nat, sum: u32, more: u32)
    requires
        sum == total % 0x1_0000_0000,
    ensures
        (sum + more) % 0x1_0000_0000 == (total + more) % 0x1_0000_0000,
        sum % 0x1_0000 == total % 0x1_0000,
{
}

/// Adds a number to a 32-bit sum.
fn added(sum: u32, more: u32) -> (new: u32)
    ensures
        new == (sum + more) % 0x1_0000_0000,
{
    sum.wrapping_add(more)
}

/// The sum of distance, angle and strength of point `k`, added to a 32-bit sum.
fn point_added(sum: u32, data: &[u8], n: usize, k: usize) -> (new: u32)
    requires
        k < n,
        28 + 5 * n <= data@.len(),
    ensures
        new == (sum + distance_at(data@, n as int, k as int) + angle_at(data@, n as int, k as int)
            + strength_at(data@, n as int, k as int)) % 0x1_0000_0000,
{
    let count: usize = data.len();
    assert(28 + 5 * n <= count);
    let distance: u16 = read_u16_le(data, HEADER_LEN + 2 * k);
    let angle: u16 = read_u16_le(data, HEADER_LEN + 2 * n + 2 * k);
    let strength: u8 = data[HEADER_LEN + 4 * n + k];
    added(sum, distance as u32 + angle as u32 + strength as u32)
}

/// The checksum of a packet.
pub fn checksum(data: &[u8], header: &Header) -> (sum: u16)
    requires
        packet_len_of(header.subcontract_points as int) - CHECKSUM_LEN <= data@.len(),
    ensures
        sum == checksum_of(data@, header.subcontract_points as nat),
{
    let n: usize = header.subcontract_points;
    let ghost mut total: nat = 0;
    let mut sum: u32 = 0;

    let mut word: usize = 0;
    while word < 13
        invariant
            word <= 13,
            data@.len() >= HEADER_LEN,
            total == header_sum(data@, word as nat),
            sum == total % 0x1_0000_0000,
        decreases 13 - word,
    {
        word = word + 1;
        let more: u16 = read_u16_le(data, 2 * word);
        proof {
            lemma_sum_in_32_bits(total, sum, more as u32);
            total = total + more as nat;
        }
        sum = added(sum, more as u32);
    }

    let mut k: usize = 0;
    while k < n
        invariant
            k <= n,
            28 + 5 * n <= data@.len(),
            total == header_sum(data@, 13) + points_sum(data@, n as int, k as nat),
            sum == total % 0x1_0000_0000,
        decreases n - k,
    {
        proof {
            let more = (distance_at(data@, n as int, k as int) + angle_at(
                data@,
                n as int,
                k as int,
            ) + strength_at(data@, n as int, k as int)) as u32;
            lemma_sum_in_32_bits(total, sum, more);
            total = total + more as nat;
        }
        sum = point_added(sum, data, n, k);
        k = k + 1;
    }
    proof {
        lemma_sum_in_32_bits(total, sum, 0);
    }
    low_half(sum)
}

/// The angle of a point, in ticks: its offset from the start angle, added as 32-bit numbers are.
pub open spec fn absolute_ticks(start_mdeg: u32, offset_mdeg: u16) -> u64 {
    (11 * ((offset_mdeg + start_mdeg) % 0x1_0000_0000)) as u64
}

/// Point `k` of a packet with the given header.
pub open spec fn point_of(data: Seq<u8>, header: Header, k: int) -> LidarPoint {
    let n = header.subcontract_points as int;
    LidarPoint {
        angle_ticks: absolute_ticks(header.start_angle_mdeg, angle_at(data, n, k)),
        distance_mm: distance_at(data, n, k),
        intensity: strength_at(data, n, k),
    }
}

/// The measurements in a packet with the given header. A data packet has no speed.
pub open spec fn body_with(data: Seq<u8>, header: Header) -> BodyView {
    BodyView {
        speed_degrees_per_second: 0,
        start_angle_ticks: (11 * header.start_angle_mdeg) as u64,
        end_angle_ticks: (11 * header.end_angle_mdeg) as u64,
        timestamp_ms: header.timestamp,
        points: Seq::new(header.subcontract_points as nat, |k: int| point_of(data, header, k)),
    }
}

/// The checksum that a packet of `n` points carries.
pub open spec fn carried_checksum(data: Seq<u8>, n: nat) -> u16 {
    le16_at(data, packet_len_of(n as int) - 2)
}

/// What parsing `data` gives: the first of the checks that fails, or the measurements. Bytes
/// behind the packet do not matter.
pub open spec fn parse_of(data: Seq<u8>) -> Result<BodyView, ParseError> {
    match header_of(data) {
        None => Err(
            ParseError::InvalidHeader(
                if data.len() >= 2 {
                    le16_at(data, 0)
                } else {
                    0
                },
            ),
        ),
        Some(header) => {
            let n = header.subcontract_points as nat;
            if data.len() < packet_len_of(n as int) {
                Err(
                    ParseError::InvalidLength {
                        expected: packet_len_of(n as int) as usize,
                        actual: data.len() as usize,
                    },
                )
            } else if checksum_of(data, n) != carried_checksum(data, n) {
                Err(
                    ParseError::CrcMismatch {
                        expected: checksum_of(data, n) as u32,
                        actual: carried_checksum(data, n) as u32,
                    },
                )
            } else {
                Ok(body_with(data, header))
            }
        },
    }
}

/// Whether `data` is exactly one packet: a plausible header, the length it announces, and the
/// right checksum.
pub open spec fn is_packet(data: Seq<u8>) -> bool {
    match header_of(data) {
        None => false,
        Some(header) => {
            let n = header.subcontract_points as nat;
            data.len() == packet_len_of(n as int) && checksum_of(data, n) == carried_checksum(
                data,
                n,
            )
        },
    }
}

/// The measurements in a packet.
pub open spec fn body_of(packet: Seq<u8>) -> BodyView {
    body_with(packet, header_of(packet)->0)
}

/// Parses a packet at the front of `data`.
pub fn parse(data: &[u8]) -> (parsed: Result<LidarBody, ParseError>)
    ensures
        parsed_view(parsed) == parse_of(data@),
        parsed matches Ok(body) ==> {
            let n = data@[2] + 256 * data@[3];
            let start = data@[8] + 256 * data@[9] + 65_536 * data@[10] + 16_777_216 * data@[11];
            &&& body.start_angle_ticks == 11 * start
            &&& body.points@.len() == n
            &&& forall|k: int|
                0 <= k < n ==> {
                    let point = #[trigger] body.points@[k];
                    let offset = data@[28 + 2 * n + 2 * k] + 256 * data@[29 + 2 * n + 2 * k];
                    &&& point.distance_mm == data@[28 + 2 * k] + 256 * data@[29 + 2 * k]
                    &&& point.intensity == data@[28 + 4 * n + k]
                    &&& start + offset < 0x1_0000_0000 ==> point.angle_ticks == 11 * (start
                        + offset)
                }
        },
{
    let header: Header = match peek_header(data) {
        Some(header) => header,
        None => {
            let first: u16 = if data.len() >= 2 {
                read_u16_le(data, 0)
            } else {
                0
            };
            return Err(ParseError::InvalidHeader(first));
        },
    };

    let expected_len: usize = packet_len(header.subcontract_points);
    if data.len() < expected_len {
        return Err(ParseError::InvalidLength { expected: expected_len, actual: data.len() });
    }
    let expected: u16 = checksum(data, &header);
    let actual: u16 = read_u16_le(data, expected_len - CHECKSUM_LEN);
    if expected != actual {
        return Err(ParseError::CrcMismatch { expected: expected as u32, actual: actual as u32 });
    }
    let n: usize = header.subcontract_points;
    let angles: usize = HEADER_LEN + 2 * n;
    let strengths: usize = angles + 2 * n;
    let mut points: Vec<LidarPoint> = Vec::new();
    let mut k: usize = 0;
    while k < n
        invariant
            k <= n <= MAX_POINTS_PER_PACKET,
            n == header.subcontract_points,
            packet_len_of(n as int) <= data@.len(),
            angles == 28 + 2 * n,
            strengths == 28 + 4 * n,
            points@.len() == k,
            forall|j: int| 0 <= j < k ==> #[trigger] points@[j] == point_of(data@, header, j),
        decreases n - k,
    {
        let offset_mdeg: u32 = read_u16_le(data, angles + 2 * k) as u32;
        let absolute_mdeg: u32 = offset_mdeg.wrapping_add(header.start_angle_mdeg);
        points.push(
            LidarPoint {
                angle_ticks: absolute_mdeg as u64 * TICKS_PER_MDEG,
                distance_mm: read_u16_le(data, HEADER_LEN + 2 * k),
                intensity: data[strengths + k],
            },
        );
        k = k + 1;
    }
    let body = LidarBody {
        speed_degrees_per_second: 0,
        start_angle_ticks: header.start_angle_mdeg as u64 * TICKS_PER_MDEG,
        end_angle_ticks: header.end_angle_mdeg as u64 * TICKS_PER_MDEG,
        timestamp_ms: header.timestamp,
        points,
    };
    assert(body@ =~= body_with(data@, header));
    proof {
        law_parsing_gives_back_what_the_packet_holds(data@, n as int);
        assert(body.points@ == parse_of(data@)->Ok_0.points);
    }
    Ok(body)
}

/// The header is in the first 28 bytes.
pub proof fn lemma_header_is_in_front(data: Seq<u8>)
    requires
        data.len() >= HEADER_LEN,
    ensures
        header_of(data.take(HEADER_LEN as int)) == header_of(data),
{
}

/// A packet is exactly what parses and is no longer than its header says.
pub proof fn law_packets_are_what_parses(data: Seq<u8>)
    ensures
        is_packet(data) <==> parse_of(data) is Ok && data.len() == packet_len_of(
            header_of(data)->0.subcontract_points as int,
        ),
        is_packet(data) ==> parse_of(data) == Ok::<BodyView, ParseError>(body_of(data)),
{
}

/// How much a byte adds to the sum: the second byte of a word counts 256 times.
spec fn weight(n: int, i: int) -> int {
    if i < 28 + 4 * n && i % 2 == 1 {
        256
    } else {
        1
    }
}

/// The point that byte `i` belongs to.
spec fn point_with(n: int, i: int) -> int {
    if i < 28 + 2 * n {
        (i - 28) / 2
    } else if i < 28 + 4 * n {
        (i - 28 - 2 * n) / 2
    } else {
        i - 28 - 4 * n
    }
}

proof fn lemma_header_sum_of_changed_byte(data: Seq<u8>, n: int, i: int, b: u8, words: nat)
    requires
        n >= 0,
        2 <= i < 28 + 5 * n,
        28 + 5 * n <= data.len(),
        words <= 13,
    ensures
        header_sum(data.update(i, b), words) == header_sum(data, words) + (if i < 2 * words + 2 {
            weight(n, i) * (b - data[i])
        } else {
            0
        }),
    decreases words,
{
    if words > 0 {
        lemma_header_sum_of_changed_byte(data, n, i, b, (words - 1) as nat);
    }
}

proof fn lemma_points_sum_of_changed_byte(data: Seq<u8>, n: int, i: int, b: u8, k: nat)
    requires
        k <= n,
        2 <= i < 28 + 5 * n,
        28 + 5 * n <= data.len(),
    ensures
        points_sum(data.update(i, b), n, k) == points_sum(data, n, k) + (if i >= 28 && point_with(
            n,
            i,
        ) < k {
            weight(n, i) * (b - data[i])
        } else {
            0
        }),
    decreases k,
{
    if k > 0 {
        lemma_points_sum_of_changed_byte(data, n, i, b, (k - 1) as nat);
    }
}

/// A change of less than 65536 shows in the low 16 bits.
proof fn lemma_small_change_shows(sum: nat, change: int)
    requires
        change != 0,
        -65_536 < change < 65_536,
    ensures
        (sum + change) % 0x1_0000 != sum % 0x1_0000,
{
}

/// A changed byte behind the number of points changes the checksum.
proof fn lemma_changed_byte_shows(data: Seq<u8>, n: nat, i: int, b: u8)
    requires
        4 <= i < 28 + 5 * n,
        28 + 5 * n <= data.len(),
        b != data[i],
    ensures
        checksum_of(data.update(i, b), n) != checksum_of(data, n),
{
    let change = weight(n as int, i) * (b - data[i]);
    assert(change != 0 && -65_536 < change < 65_536) by {
        assert(256 * (b - data[i]) != 0);
    }
    lemma_header_sum_of_changed_byte(data, n as int, i, b, 13);
    lemma_points_sum_of_changed_byte(data, n as int, i, b, n);
    lemma_small_change_shows(header_sum(data, 13) + points_sum(data, n as int, n), change);
}

/// The checksum does not cover the bytes behind the points.
proof fn lemma_unchanged_checksum(data: Seq<u8>, n: nat, i: int, b: u8)
    requires
        28 + 5 * n <= i < data.len(),
    ensures
        checksum_of(data.update(i, b), n) == checksum_of(data, n),
{
    lemma_unchanged_header_sum(data, i, b, 13);
    lemma_unchanged_points_sum(data, n as int, i, b, n);
}

proof fn lemma_unchanged_header_sum(data: Seq<u8>, i: int, b: u8, words: nat)
    requires
        28 <= i < data.len(),
        words <= 13,
    ensures
        header_sum(data.update(i, b), words) == header_sum(data, words),
    decreases words,
{
    if words > 0 {
        lemma_unchanged_header_sum(data, i, b, (words - 1) as nat);
    }
}

proof fn lemma_unchanged_points_sum(data: Seq<u8>, n: int, i: int, b: u8, k: nat)
    requires
        k <= n,
        28 + 5 * n <= i < data.len(),
    ensures
        points_sum(data.update(i, b), n, k) == points_sum(data, n, k),
    decreases k,
{
    if k > 0 {
        lemma_unchanged_points_sum(data, n, i, b, (k - 1) as nat);
    }
}

/// One damaged byte is always noticed: the damaged bytes are no packet. Unless it changes the
/// number of points, they do not even begin like one.
pub proof fn law_damaged_packet_is_rejected(packet: Seq<u8>, i: int, b: u8)
    requires
        is_packet(packet),
        0 <= i < packet.len(),
        b != packet[i],
    ensures
        !is_packet(packet.update(i, b)),
        !(2 <= i < 4) ==> parse_of(packet.update(i, b)) is Err,
{
    let damaged = packet.update(i, b);
    let n = header_of(packet)->0.subcontract_points as nat;
    let end = packet_len_of(n as int) - 2;
    if i < 2 {
        assert(le16_at(damaged, 0) != HEADER);
    } else if i < 4 {
        assert(le16_at(damaged, 2) != le16_at(packet, 2));
    } else if i < end {
        assert(le16_at(damaged, 2) == le16_at(packet, 2));
        lemma_changed_byte_shows(packet, n, i, b);
        assert(carried_checksum(damaged, n) == carried_checksum(packet, n));
    } else {
        assert(le16_at(damaged, 2) == le16_at(packet, 2));
        lemma_unchanged_checksum(packet, n, i, b);
        assert(carried_checksum(damaged, n) != carried_checksum(packet, n));
    }
}

/// What a header is and what it says: 28 bytes, `c7 fa` in front, from 1 to 1500 points, and each
/// number whole and in its place.
pub proof fn law_header_says_what_its_bytes_say(data: Seq<u8>)
    ensures
        header_of(data) is Some <==> data.len() >= 28 && data[0] == 0xC7 && data[1] == 0xFA && 1
            <= data[2] + 256 * data[3] <= 1500,
        header_of(data) matches Some(header) ==> {
            &&& header.subcontract_points == data[2] + 256 * data[3]
            &&& header.total_points == data[4] + 256 * data[5]
            &&& header.start_angle_mdeg == data[8] + 256 * data[9] + 65_536 * data[10] + 16_777_216
                * data[11]
            &&& header.end_angle_mdeg == data[12] + 256 * data[13] + 65_536 * data[14] + 16_777_216
                * data[15]
            &&& header.timestamp == data[20] + 256 * data[21] + 65_536 * data[22] + 16_777_216
                * data[23]
        },
{
}

/// What a packet holds comes out: where header, length and checksum are right, parsing gives both
/// angles and the time, and for each point its whole distance, its strength and its angle.
pub proof fn law_parsing_gives_back_what_the_packet_holds(data: Seq<u8>, n: int)
    requires
        data.len() >= 28,
        data[0] == 0xC7,
        data[1] == 0xFA,
        n == data[2] + 256 * data[3],
        1 <= n <= 1500,
        data.len() >= 30 + 5 * n,
        checksum_of(data, n as nat) == data[28 + 5 * n] + 256 * data[29 + 5 * n],
    ensures
        parse_of(data) is Ok,
        ({
            let body = parse_of(data)->Ok_0;
            let start = data[8] + 256 * data[9] + 65_536 * data[10] + 16_777_216 * data[11];
            let end = data[12] + 256 * data[13] + 65_536 * data[14] + 16_777_216 * data[15];
            &&& body.speed_degrees_per_second == 0
            &&& body.start_angle_ticks == 11 * start
            &&& body.end_angle_ticks == 11 * end
            &&& body.timestamp_ms == data[20] + 256 * data[21] + 65_536 * data[22] + 16_777_216
                * data[23]
            &&& body.points.len() == n
            &&& forall|k: int|
                0 <= k < n ==> {
                    let point = #[trigger] body.points[k];
                    let offset = data[28 + 2 * n + 2 * k] + 256 * data[29 + 2 * n + 2 * k];
                    &&& point.distance_mm == data[28 + 2 * k] + 256 * data[29 + 2 * k]
                    &&& point.intensity == data[28 + 4 * n + k]
                    &&& start + offset < 0x1_0000_0000 ==> point.angle_ticks
                        == body.start_angle_ticks + 11 * offset
                    &&& start + offset >= 0x1_0000_0000 ==> point.angle_ticks == 11 * (start
                        + offset - 0x1_0000_0000)
                }
        }),
{
    let header = header_of(data)->0;
    assert(header.subcontract_points == n);
    assert(parse_of(data) == Ok::<BodyView, ParseError>(body_with(data, header)));
    assert forall|k: int| 0 <= k < n implies {
        let point = #[trigger] parse_of(data)->Ok_0.points[k];
        let offset = data[28 + 2 * n + 2 * k] + 256 * data[29 + 2 * n + 2 * k];
        let start = data[8] + 256 * data[9] + 65_536 * data[10] + 16_777_216 * data[11];
        &&& point.distance_mm == data[28 + 2 * k] + 256 * data[29 + 2 * k]
        &&& point.intensity == data[28 + 4 * n + k]
        &&& start + offset < 0x1_0000_0000 ==> point.angle_ticks == 11 * start + 11 * offset
        &&& start + offset >= 0x1_0000_0000 ==> point.angle_ticks == 11 * (start + offset
            - 0x1_0000_0000)
    } by {
        assert(parse_of(data)->Ok_0.points[k] == point_of(data, header, k));
        law_angle_of_an_offset(header.start_angle_mdeg, angle_at(data, n, k));
    }
}

/// The angle of a point is its offset from the start angle: 11 ticks for each thousandth of a
/// degree of their sum, less 2^32 of them where the sum does not fit in 32 bits.
pub proof fn law_angle_of_an_offset(start: u32, offset: u16)
    ensures
        start + offset < 0x1_0000_0000 ==> absolute_ticks(start, offset) == 11 * (start + offset),
        start + offset >= 0x1_0000_0000 ==> absolute_ticks(start, offset) == 11 * (start + offset
            - 0x1_0000_0000),
{
}

/// Two points of a packet lie as far apart as their offsets, where the sum with the start angle
/// fits in 32 bits.
pub proof fn law_points_lie_as_far_apart_as_their_offsets(data: Seq<u8>, j: int, k: int)
    requires
        parse_of(data) is Ok,
        ({
            let n = data[2] + 256 * data[3];
            let start = data[8] + 256 * data[9] + 65_536 * data[10] + 16_777_216 * data[11];
            &&& 0 <= j < n
            &&& 0 <= k < n
            &&& start + 65_535 < 0x1_0000_0000
        }),
    ensures
        ({
            let n = data[2] + 256 * data[3];
            let points = parse_of(data)->Ok_0.points;
            points[k].angle_ticks - points[j].angle_ticks == 11 * (data[28 + 2 * n + 2 * k] + 256
                * data[29 + 2 * n + 2 * k]) - 11 * (data[28 + 2 * n + 2 * j] + 256 * data[29 + 2
                * n + 2 * j])
        }),
{
    let n = data[2] + 256 * data[3];
    law_only_packets_parse(data);
    law_parsing_gives_back_what_the_packet_holds(data, n);
    let points = parse_of(data)->Ok_0.points;
    assert(points[j].distance_mm == data[28 + 2 * j] + 256 * data[29 + 2 * j]);
    assert(points[k].distance_mm == data[28 + 2 * k] + 256 * data[29 + 2 * k]);
}

/// Nothing else parses, and each fault is named: no plausible header, fewer bytes than it
/// announces, or a wrong checksum.
pub proof fn law_only_packets_parse(data: Seq<u8>)
    requires
        data.len() <= usize::MAX || parse_of(data) is Ok,
    ensures
        ({
            let parsed = parse_of(data);
            let n = data[2] + 256 * data[3];
            let plausible = data.len() >= 28 && data[0] == 0xC7 && data[1] == 0xFA && 1 <= n
                <= 1500;
            let carried = data[28 + 5 * n] + 256 * data[29 + 5 * n];
            let sum = checksum_of(data, n as nat);
            &&& !plausible <==> parsed == Err::<BodyView, ParseError>(
                ParseError::InvalidHeader(
                    if data.len() >= 2 {
                        (data[0] + 256 * data[1]) as u16
                    } else {
                        0
                    },
                ),
            )
            &&& plausible && data.len() < 30 + 5 * n <==> parsed == Err::<BodyView, ParseError>(
                ParseError::InvalidLength {
                    expected: (30 + 5 * n) as usize,
                    actual: data.len() as usize,
                },
            )
            &&& plausible && data.len() >= 30 + 5 * n && sum != carried <==> parsed == Err::<
                BodyView,
                ParseError,
            >(ParseError::CrcMismatch { expected: sum as u32, actual: carried as u32 })
            &&& parsed is Ok <==> plausible && data.len() >= 30 + 5 * n && sum == carried
        }),
{
}

/// What each byte adds to the checksum: nothing in the sync and behind the points, 256 times its
/// value in the upper half of a word, and its value elsewhere. With the checksum of zeros, which is
/// 0, that is the whole checksum.
pub proof fn law_checksum_counts_each_byte(data: Seq<u8>, n: nat, i: int, b: u8)
    requires
        28 + 5 * n <= data.len(),
        0 <= i < data.len(),
    ensures
        (checksum_of(data.update(i, b), n) - checksum_of(data, n) - (if i < 2 || i >= 28 + 5 * n {
            0
        } else if i < 28 + 4 * n && i % 2 == 1 {
            256 * (b - data[i])
        } else {
            b - data[i]
        })) % 65_536 == 0,
{
    let changed = data.update(i, b);
    if i < 2 {
        lemma_sync_is_not_summed(data, i, b, 13);
        lemma_sync_is_not_in_points(data, n as int, i, b, n);
    } else if i < 28 + 5 * n {
        lemma_header_sum_of_changed_byte(data, n as int, i, b, 13);
        lemma_points_sum_of_changed_byte(data, n as int, i, b, n);
        lemma_residues_follow(
            header_sum(data, 13) + points_sum(data, n as int, n),
            weight(n as int, i) * (b - data[i]),
        );
        assert(header_sum(changed, 13) + points_sum(changed, n as int, n) == header_sum(data, 13)
            + points_sum(data, n as int, n) + weight(n as int, i) * (b - data[i]));
    } else {
        lemma_unchanged_checksum(data, n, i, b);
    }
}

proof fn lemma_residues_follow(sum: nat, change: int)
    requires
        sum + change >= 0,
    ensures
        ((sum + change) % 65_536 - sum % 65_536 - change) % 65_536 == 0,
{
}

proof fn lemma_sync_is_not_summed(data: Seq<u8>, i: int, b: u8, words: nat)
    requires
        0 <= i < 2,
        words <= 13,
        28 <= data.len(),
    ensures
        header_sum(data.update(i, b), words) == header_sum(data, words),
    decreases words,
{
    if words > 0 {
        lemma_sync_is_not_summed(data, i, b, (words - 1) as nat);
    }
}

proof fn lemma_sync_is_not_in_points(data: Seq<u8>, n: int, i: int, b: u8, k: nat)
    requires
        0 <= i < 2,
        k <= n,
        28 + 5 * n <= data.len(),
    ensures
        points_sum(data.update(i, b), n, k) == points_sum(data, n, k),
    decreases k,
{
    if k > 0 {
        lemma_sync_is_not_in_points(data, n, i, b, (k - 1) as nat);
    }
}

/// The checksum of zeros is 0.
pub proof fn law_checksum_of_zeros(data: Seq<u8>, n: nat)
    requires
        28 + 5 * n <= data.len(),
        forall|i: int| 0 <= i < data.len() ==> data[i] == 0,
    ensures
        checksum_of(data, n) == 0,
{
    lemma_zeros_add_nothing(data, n as int, n, 13);
}

proof fn lemma_zeros_add_nothing(data: Seq<u8>, n: int, k: nat, words: nat)
    requires
        k <= n,
        words <= 13,
        28 + 5 * n <= data.len(),
        forall|i: int| 0 <= i < data.len() ==> data[i] == 0,
    ensures
        points_sum(data, n, k) == 0,
        header_sum(data, words) == 0,
    decreases k + words,
{
    if k > 0 {
        lemma_zeros_add_nothing(data, n, (k - 1) as nat, words);
        assert(distance_at(data, n, k - 1) == 0);
        assert(angle_at(data, n, k - 1) == 0);
        assert(strength_at(data, n, k - 1) == 0);
    } else if words > 0 {
        lemma_zeros_add_nothing(data, n, k, (words - 1) as nat);
        assert(le16_at(data, 2 * words as int) == 0);
    }
}

/// A packet is 30 bytes and 5 for each of its points, from 1 to 1500 of them, that begin with
/// `c7 fa`, tell the number of points in bytes 2 and 3, and end with the checksum; and nothing else
/// is asked of it.
pub proof fn law_what_a_packet_is(data: Seq<u8>)
    ensures
        ({
            let n = data[2] + 256 * data[3];
            is_packet(data) <==> data.len() >= 28 && data[0] == 0xC7 && data[1] == 0xFA && 1 <= n
                <= 1500 && data.len() == 30 + 5 * n && checksum_of(data, n as nat) == data[28 + 5
                * n] + 256 * data[29 + 5 * n]
        }),
{
}

} // verus!
