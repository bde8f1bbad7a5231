//! The measurement types that all models share.
//!
//! Models differ in their byte layout; what comes out of parsing is always these types, so the
//! collector and the viewer need not know the model.
//!
//! Angles are exact integers. The unit, a tick, is 1/11000 of a degree: the hundredths of a
//! degree of one model, divided into eleven equal steps, and the thousandths of a degree of the
//! other are both whole numbers of ticks.

use vstd::prelude::*;

verus! {

/// Ticks in one degree.
pub const TICKS_PER_DEGREE: u64 = 11_000;

/// Ticks in a full turn.
pub const FULL_TURN_TICKS: u64 = 3_960_000;

/// Ticks in half a turn.
pub const HALF_TURN_TICKS: u64 = 1_980_000;

/// One measured point: angle (ticks), distance (mm) and signal strength.
#[derive(Debug, Clone, Copy, PartialEq, Eq, Structural)]
pub struct LidarPoint {
    pub angle_ticks: u64,
    pub distance_mm: u16,
    pub intensity: u8,
}

/// The measurements of one frame. What a model does not report is 0.
#[derive(Debug, Clone, PartialEq, Eq)]
pub struct LidarBody {
    pub speed_degrees_per_second: u16,
    pub start_angle_ticks: u64,
    pub end_angle_ticks: u64,
    pub timestamp_ms: u32,
    pub points: Vec<LidarPoint>,
}

/// The contents of a [`LidarBody`].
#[verifier::ext_equal]
pub struct BodyView {
    pub speed_degrees_per_second: u16,
    pub start_angle_ticks: u64,
    pub end_angle_ticks: u64,
    pub timestamp_ms: u32,
    pub points: Seq<LidarPoint>,
}

impl View for LidarBody {
    type V = BodyView;

    open spec fn view(&self) -> BodyView {
        BodyView {
            speed_degrees_per_second: self.speed_degrees_per_second,
            start_angle_ticks: self.start_angle_ticks,
            end_angle_ticks: self.end_angle_ticks,
            timestamp_ms: self.timestamp_ms,
            points: self.points@,
        }
    }
}

/// The contents of several frames, in order.
pub open spec fn bodies_view(bodies: Seq<LidarBody>) -> Seq<BodyView> {
    Seq::new(bodies.len(), |i: int| bodies[i]@)
}

/// Why bytes are not a frame. Headers and checksums have the width of the widest model.
#[derive(Debug, Clone, Copy, PartialEq, Eq, Structural)]
pub enum ParseError {
    InvalidLength { expected: usize, actual: usize },
    InvalidHeader(u16),
    InvalidVerLen(u8),
    CrcMismatch { expected: u32, actual: u32 },
}

/// A parse result by its contents.
pub open spec fn parsed_view(parsed: Result<LidarBody, ParseError>) -> Result<
    BodyView,
    ParseError,
> {
    match parsed {
        Ok(body) => Ok(body@),
        Err(error) => Err(error),
    }
}

/// Several parse results by their contents, in order.
pub open spec fn all_parsed_view(parsed: Seq<Result<LidarBody, ParseError>>) -> Seq<
    Result<BodyView, ParseError>,
> {
    Seq::new(parsed.len(), |i: int| parsed_view(parsed[i]))
}

/// The little-endian 16-bit number at `offset`.
pub open spec fn le16_at(data: Seq<u8>, offset: int) -> u16 {
    (data[offset] + 256 * data[offset + 1]) as u16
}

/// The little-endian 32-bit number at `offset`.
pub open spec fn le32_at(data: Seq<u8>, offset: int) -> u32 {
    (data[offset] + 0x100 * data[offset + 1] + 0x1_0000 * data[offset + 2] + 0x100_0000
        * data[offset + 3]) as u32
}

/// The contents of a frame are its fields and its points, all of them, as they are.
pub proof fn law_body_shows_its_fields(body: LidarBody)
    ensures
        body@.speed_degrees_per_second == body.speed_degrees_per_second,
        body@.start_angle_ticks == body.start_angle_ticks,
        body@.end_angle_ticks == body.end_angle_ticks,
        body@.timestamp_ms == body.timestamp_ms,
        body@.points.len() == body.points@.len(),
        forall|i: int| 0 <= i < body.points@.len() ==> #[trigger] body@.points[i] == body.points@[i],
{
}

/// The contents of several frames are those of each, in order; and so for parse results.
pub proof fn law_frames_show_each_frame(
    bodies: Seq<LidarBody>,
    parsed: Seq<Result<LidarBody, ParseError>>,
    i: int,
)
    ensures
        bodies_view(bodies).len() == bodies.len(),
        0 <= i < bodies.len() ==> bodies_view(bodies)[i] == bodies[i]@,
        all_parsed_view(parsed).len() == parsed.len(),
        0 <= i < parsed.len() && parsed[i] is Ok ==> all_parsed_view(parsed)[i] is Ok
            && all_parsed_view(parsed)[i]->Ok_0 == parsed[i]->Ok_0@,
        0 <= i < parsed.len() && parsed[i] is Err ==> all_parsed_view(parsed)[i] is Err
            && all_parsed_view(parsed)[i]->Err_0 == parsed[i]->Err_0,
{
}

/// A little-endian number has the first byte as its lowest digit to the base of 256.
pub proof fn law_first_byte_counts_least(data: Seq<u8>, offset: int)
    requires
        0 <= offset,
        offset + 4 <= data.len(),
    ensures
        le16_at(data, offset) % 256 == data[offset],
        le16_at(data, offset) / 256 == data[offset + 1],
        le32_at(data, offset) % 0x1_0000 == le16_at(data, offset),
        le32_at(data, offset) / 0x1_0000 == le16_at(data, offset + 2),
{
}

/// A degree is 11,000 ticks, and a full turn is 360 degrees, twice as much as half a turn.
pub proof fn law_ticks_in_a_turn()
    ensures
        TICKS_PER_DEGREE == 11_000,
        FULL_TURN_TICKS == 360 * 11_000,
        2 * HALF_TURN_TICKS == FULL_TURN_TICKS,
{
}

} // verus!
