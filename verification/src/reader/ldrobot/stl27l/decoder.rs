//! A streaming decoder that finds frames in a byte stream.
//!
//! A position is a frame only where header, version *and* CRC8 are right; only then are its
//! bytes used. Anything else moves the search on by one byte, so a chance header never costs the
//! real frame behind it. Where the bytes end within a possible frame, the decoder waits.

use crate::reader::buffer::{drop_front, extend, front, skip_one};
use crate::reader::ldrobot::stl27l::frame::{
    CRC_OFFSET, HEADER, PACKET_LEN, VER_LEN, crc8, parse,
};
use crate::reader::model::Decoder;
use crate::reader::types::{LidarBody, ParseError};
use std::collections::VecDeque;
use vstd::prelude::*;

verus! {

use crate::reader::framing::{
    Cut, cut_stream, dropped_at, failures_among, failures_before, false_starts, held_at,
    law_counts_are_positions, law_cut_in_two, law_every_byte_accounted_for,
    joined, law_false_starts_cost_one_byte, law_frames_in_a_row_come_out, law_rest_waits,
    law_taken_or_held, law_windows_are_good, lemma_first_frame, lemma_no_frame, lemma_total_of_equal_windows, steady, taken_at,
};
use crate::reader::ldrobot::stl27l::frame::{body_of, crc8_of, is_frame, parse_of};
use crate::reader::types::{BodyView, bodies_view};

/// The decision on the bytes at hand.
pub open spec fn frame_cut(buf: Seq<u8>) -> Cut {
    if buf.len() == 0 {
        Cut::Hold
    } else if buf[0] != HEADER {
        Cut::Skip { checksum_failed: false }
    } else if buf.len() < PACKET_LEN {
        Cut::Hold
    } else if buf[1] != VER_LEN {
        Cut::Skip { checksum_failed: false }
    } else if !is_frame(buf.take(PACKET_LEN as int)) {
        Cut::Skip { checksum_failed: true }
    } else {
        Cut::Take { len: PACKET_LEN as nat }
    }
}

/// The rule of the STL-27L.
pub open spec fn frame_rule() -> spec_fn(Seq<u8>) -> Cut {
    |buf: Seq<u8>| frame_cut(buf)
}

/// The measurements in a frame, as a function.
pub open spec fn frame_body() -> spec_fn(Seq<u8>) -> BodyView {
    |window: Seq<u8>| body_of(window)
}

/// Turns a byte stream into frames.
pub struct FrameDecoder {
    buffer: VecDeque<u8>,
    /// Bytes that the last push dropped.
    last_skipped: usize,
    /// Bytes that the last push dropped because of a wrong CRC.
    last_crc_failures: usize,
}

impl FrameDecoder {
    /// The bytes kept for later.
    pub closed spec fn pending_bytes(&self) -> Seq<u8> {
        self.buffer@
    }

    /// The bytes that the last push dropped.
    pub closed spec fn skipped_bytes(&self) -> nat {
        self.last_skipped as nat
    }

    /// The bytes that the last push dropped because of a wrong CRC.
    pub closed spec fn crc_failed_bytes(&self) -> nat {
        self.last_crc_failures as nat
    }

    /// Between pushes the decoder waits: it keeps nothing, or the beginning of a frame.
    pub open spec fn waits(&self) -> bool {
        frame_cut(self.pending_bytes()) is Hold
    }

    pub fn new() -> (decoder: Self)
        ensures
            decoder.waits(),
            decoder.pending_bytes() == Seq::<u8>::empty(),
            decoder.skipped_bytes() == 0,
            decoder.crc_failed_bytes() == 0,
    {
        FrameDecoder { buffer: VecDeque::new(), last_skipped: 0, last_crc_failures: 0 }
    }

    /// Takes new bytes and returns the frames that are complete with them, all checked.
    pub fn push_bytes(&mut self, bytes: &[u8]) -> (frames: Vec<LidarBody>)
        requires
            old(self).waits(),
            bytes@.len() + PACKET_LEN <= usize::MAX,
        ensures
            final(self).waits(),
            ({
                let cuts = cut_stream(frame_rule(), old(self).pending_bytes() + bytes@);
                &&& bodies_view(frames@) == cuts.windows.map_values(frame_body())
                &&& final(self).pending_bytes() == cuts.rest
                &&& final(self).skipped_bytes() == cuts.skipped
                &&& final(self).crc_failed_bytes() == cuts.failures
            }),
    {
        let ghost stream = self.buffer@ + bytes@;
        extend(&mut self.buffer, bytes);
        self.last_skipped = 0;
        self.last_crc_failures = 0;

        let ghost whole = cut_stream(frame_rule(), stream);
        let mut frames: Vec<LidarBody> = Vec::new();
        assert(old(self).buffer@.len() < PACKET_LEN);
        loop
            invariant
                stream == old(self).buffer@ + bytes@,
                whole == cut_stream(frame_rule(), stream),
                frames@.len() <= whole.windows.len(),
                bodies_view(frames@) == whole.windows.take(frames@.len() as int).map_values(
                    frame_body(),
                ),
                self.last_skipped + self.buffer@.len() <= usize::MAX,
                self.last_crc_failures <= self.last_skipped,
                ({
                    let tail = cut_stream(frame_rule(), self.buffer@);
                    &&& tail.windows == whole.windows.skip(frames@.len() as int)
                    &&& tail.rest == whole.rest
                    &&& self.last_skipped + tail.skipped == whole.skipped
                    &&& self.last_crc_failures + tail.failures == whole.failures
                }),
            decreases self.buffer@.len(),
        {
            let ghost before = frames@;
            let ghost start = *self;
            match self.next_frame() {
                Some(frame) => {
                    frames.push(frame);
                    proof {
                        let k = choose|k: int| Self::took(start, *self, frame@, k);
                        let len = PACKET_LEN as nat;
                        let after = cut_stream(frame_rule(), self.buffer@).windows;
                        let window = start.buffer@.subrange(k, k + len);
                        lemma_first_frame(frame_rule(), start.buffer@, k, len);
                        assert((seq![window] + after).drop_first() =~= after);
                        let n = before.len() as int;
                        assert(whole.windows.skip(n).drop_first() =~= whole.windows.skip(n + 1));
                        assert(whole.windows.skip(n)[0] == whole.windows[n]);
                        assert(bodies_view(frames@) =~= whole.windows.take(n + 1).map_values(
                            frame_body(),
                        )) by {
                            assert forall|k: int| 0 <= k < n implies #[trigger] frames@[k]@
                                == body_of(whole.windows[k]) by {
                                assert(bodies_view(before)[k] == before[k]@);
                            }
                        }
                    }
                },
                None => {
                    proof {
                        let k = choose|k: int| Self::kept(start, *self, k);
                        lemma_no_frame(frame_rule(), start.buffer@, k);
                        assert(whole.windows.skip(frames@.len() as int).len() == 0);
                        lemma_frame_rule_is_steady();
                        law_rest_waits(frame_rule(), stream);
                        assert(whole.windows.take(frames@.len() as int) =~= whole.windows);
                    }
                    return frames;
                },
            }
        }
    }

    /// How many bytes the last push dropped because no frame began there.
    pub fn last_skipped(&self) -> (count: usize)
        ensures
            count == self.skipped_bytes(),
    {
        self.last_skipped
    }

    /// How often the last push found a header and version, but a wrong CRC.
    pub fn last_crc_failures(&self) -> (count: usize)
        ensures
            count == self.crc_failed_bytes(),
    {
        self.last_crc_failures
    }

    /// From `before` to `after`, the first frame was taken out, and the `k` bytes in front of it
    /// were dropped.
    spec fn took(before: Self, after: Self, frame: BodyView, k: int) -> bool {
        let buf = before.buffer@;
        &&& taken_at(frame_rule(), buf, k, PACKET_LEN as nat)
        &&& frame == body_of(buf.subrange(k, k + PACKET_LEN))
        &&& after.buffer@ == buf.skip(k + PACKET_LEN)
        &&& after.last_skipped == before.last_skipped + k
        &&& after.last_crc_failures == before.last_crc_failures + failures_before(
            frame_rule(),
            buf,
            k as nat,
        )
    }

    /// From `before` to `after`, `k` bytes were dropped, and the rest is kept: no frame is there.
    spec fn kept(before: Self, after: Self, k: int) -> bool {
        let buf = before.buffer@;
        &&& held_at(frame_rule(), buf, k)
        &&& after.buffer@ == buf.skip(k)
        &&& after.last_skipped == before.last_skipped + k
        &&& after.last_crc_failures == before.last_crc_failures + failures_before(
            frame_rule(),
            buf,
            k as nat,
        )
    }

    /// Finds the first checked frame in the buffer and takes it out, with what was before it.
    fn next_frame(&mut self) -> (found: Option<LidarBody>)
        requires
            old(self).last_skipped + old(self).buffer@.len() <= usize::MAX,
            old(self).last_crc_failures <= old(self).last_skipped,
        ensures
            final(self).last_skipped + final(self).buffer@.len() <= usize::MAX,
            final(self).last_crc_failures <= final(self).last_skipped,
            found is Some ==> exists|k: int|
                #[trigger] Self::took(*old(self), *final(self), found->0@, k),
            found is None ==> exists|k: int|
                #[trigger] Self::kept(*old(self), *final(self), k),
    {
        let ghost buf = self.buffer@;
        let ghost mut k: int = 0;
        assert(buf.skip(0) =~= buf);
        loop
            invariant
                buf == old(self).buffer@,
                false_starts(frame_rule(), buf, k),
                self.buffer@ == buf.skip(k),
                self.last_skipped == old(self).last_skipped + k,
                self.last_crc_failures == old(self).last_crc_failures + failures_before(
                    frame_rule(),
                    buf,
                    k as nat,
                ),
                self.last_skipped + self.buffer@.len() <= usize::MAX,
                self.last_crc_failures <= self.last_skipped,
            decreases self.buffer@.len(),
        {
            let ghost here = self.buffer@;
            if self.buffer.len() == 0 {
                assert(Self::kept(*old(self), *self, k));
                return None;
            }
            assert(here.skip(1) =~= buf.skip(k + 1));
            if self.buffer[0] != HEADER {
                skip_one(&mut self.buffer, &mut self.last_skipped);
                proof {
                    k = k + 1;
                }
                continue ;
            }
            if self.buffer.len() < PACKET_LEN {
                assert(Self::kept(*old(self), *self, k));
                return None;
            }
            if self.buffer[1] != VER_LEN {
                skip_one(&mut self.buffer, &mut self.last_skipped);
                proof {
                    k = k + 1;
                }
                continue ;
            }
            let window: Vec<u8> = front(&self.buffer, PACKET_LEN);
            let checked: &[u8] = vstd::slice::slice_subrange(window.as_slice(), 0, CRC_OFFSET);
            assert(checked@ =~= window@.take(CRC_OFFSET as int));
            if crc8(checked) != window[CRC_OFFSET] {
                self.last_crc_failures = self.last_crc_failures + 1;
                skip_one(&mut self.buffer, &mut self.last_skipped);
                proof {
                    k = k + 1;
                }
                continue ;
            }
            drop_front(&mut self.buffer, PACKET_LEN);
            proof {
                assert(here.take(PACKET_LEN as int) =~= buf.subrange(k, k + PACKET_LEN));
                assert(self.buffer@ =~= buf.skip(k + PACKET_LEN));
            }
            let found: Option<LidarBody> = parse(window.as_slice()).ok();
            assert(found is Some && Self::took(*old(self), *self, found->0@, k));
            return found;
        }
    }
}

impl Default for FrameDecoder {
    fn default() -> (decoder: Self)
        ensures
            decoder.waits(),
            decoder.pending_bytes() == Seq::<u8>::empty(),
            decoder.skipped_bytes() == 0,
            decoder.crc_failed_bytes() == 0,
    {
        FrameDecoder::new()
    }
}

/// The collector's view of the decoder.
impl Decoder for FrameDecoder {
    open spec fn rule(&self) -> spec_fn(Seq<u8>) -> Cut {
        frame_rule()
    }

    open spec fn body_in(&self) -> spec_fn(Seq<u8>) -> BodyView {
        frame_body()
    }

    open spec fn pending(&self) -> Seq<u8> {
        self.pending_bytes()
    }

    open spec fn skipped(&self) -> nat {
        self.skipped_bytes()
    }

    open spec fn crc_failures(&self) -> nat {
        self.crc_failed_bytes()
    }

    open spec fn ready(&self) -> bool {
        self.waits()
    }

    proof fn lemma_ready(&self) {
        lemma_frame_rule_is_steady();
    }

    proof fn lemma_points_fit(&self, buf: Seq<u8>) {
        law_only_checked_frames(buf);
    }

    fn push_bytes(&mut self, bytes: &[u8]) -> (frames: Vec<LidarBody>) {
        FrameDecoder::push_bytes(self, bytes)
    }

    fn last_skipped(&self) -> (count: usize) {
        FrameDecoder::last_skipped(self)
    }

    fn last_crc_failures(&self) -> (count: usize) {
        FrameDecoder::last_crc_failures(self)
    }
}

/// The laws of [`crate::reader::framing`] hold for the STL-27L.
pub proof fn lemma_frame_rule_is_steady()
    ensures
        steady(frame_rule()),
{
    let rule = frame_rule();
    assert forall|buf: Seq<u8>, more: Seq<u8>| !(rule(buf) is Hold) implies #[trigger] rule(
        buf + more,
    ) == rule(buf) by {
        if buf.len() >= PACKET_LEN {
            assert((buf + more).take(PACKET_LEN as int) =~= buf.take(PACKET_LEN as int));
        }
    }
}

/// The measurements that come out of a stream.
pub open spec fn frames_in(stream: Seq<u8>) -> Seq<BodyView> {
    cut_stream(frame_rule(), stream).windows.map_values(frame_body())
}

/// The serial line may split the stream anywhere: with the same bytes kept before, pushing `a` and
/// then `b` gives the frames and the kept bytes of pushing both at once, and its counts add up to
/// those.
pub proof fn law_split_stream(kept: Seq<u8>, a: Seq<u8>, b: Seq<u8>)
    ensures
        ({
            let first = cut_stream(frame_rule(), kept + a);
            let second = cut_stream(frame_rule(), first.rest + b);
            let whole = cut_stream(frame_rule(), kept + (a + b));
            &&& frames_in(kept + (a + b)) == frames_in(kept + a) + frames_in(first.rest + b)
            &&& whole.rest == second.rest
            &&& whole.skipped == first.skipped + second.skipped
            &&& whole.failures == first.failures + second.failures
        }),
{
    lemma_frame_rule_is_steady();
    law_cut_in_two(frame_rule(), kept + a, b);
    assert((kept + a) + b =~= kept + (a + b));
    let rest = cut_stream(frame_rule(), kept + a).rest;
    assert(frames_in(kept + (a + b)) =~= frames_in(kept + a) + frames_in(rest + b));
}

/// What comes out has passed every check: each window is a frame, and its measurements are what
/// parsing it gives.
pub proof fn law_only_checked_frames(stream: Seq<u8>)
    ensures
        forall|i: int|
            #![trigger cut_stream(frame_rule(), stream).windows[i]]
            0 <= i < cut_stream(frame_rule(), stream).windows.len() ==> {
                let window = cut_stream(frame_rule(), stream).windows[i];
                &&& is_frame(window)
                &&& parse_of(window) == Ok::<BodyView, ParseError>(frames_in(stream)[i])
            },
{
    law_windows_are_good(frame_rule(), |window: Seq<u8>| is_frame(window), stream);
    let good = |window: Seq<u8>| is_frame(window);
    let windows = cut_stream(frame_rule(), stream).windows;
    assert forall|i: int| #![trigger windows[i]] 0 <= i < windows.len() implies is_frame(
        windows[i],
    ) && parse_of(windows[i]) == Ok::<BodyView, ParseError>(frames_in(stream)[i]) by {
        assert(good(windows[i]));
    }
}

/// Every byte of a push is accounted for: those kept before and the new ones are in a frame,
/// dropped, or kept. Less than a frame is kept, and what is kept begins with a header.
pub proof fn law_stream_is_accounted_for(kept: Seq<u8>, bytes: Seq<u8>)
    ensures
        ({
            let cuts = cut_stream(frame_rule(), kept + bytes);
            &&& kept.len() + bytes.len() == PACKET_LEN * frames_in(kept + bytes).len()
                + cuts.skipped + cuts.rest.len()
            &&& cuts.rest.len() < PACKET_LEN
            &&& cuts.rest.len() > 0 ==> cuts.rest[0] == HEADER
            &&& cuts.failures <= cuts.skipped
        }),
{
    let stream = kept + bytes;
    let cuts = cut_stream(frame_rule(), stream);
    lemma_frame_rule_is_steady();
    law_every_byte_accounted_for(frame_rule(), stream);
    law_rest_waits(frame_rule(), stream);
    law_windows_are_good(
        frame_rule(),
        |window: Seq<u8>| window.len() == PACKET_LEN,
        stream,
    );
    let good = |window: Seq<u8>| window.len() == PACKET_LEN;
    assert forall|i: int| 0 <= i < cuts.windows.len() implies (#[trigger] cuts.windows[i]).len()
        == PACKET_LEN by {
        assert(good(cuts.windows[i]));
    }
    lemma_total_of_equal_windows(cuts.windows, PACKET_LEN as nat);
}

/// Noise without a header byte is dropped, and the frame behind it is found.
pub proof fn law_frame_behind_noise(noise: Seq<u8>, frame: Seq<u8>, rest: Seq<u8>)
    requires
        forall|i: int| 0 <= i < noise.len() ==> noise[i] != HEADER,
        is_frame(frame),
    ensures
        ({
            let whole = cut_stream(frame_rule(), noise + frame + rest);
            let after = cut_stream(frame_rule(), rest);
            &&& whole.windows == seq![frame] + after.windows
            &&& whole.rest == after.rest
            &&& whole.skipped == noise.len() + after.skipped
            &&& whole.failures == after.failures
        }),
{
    let stream = noise + frame + rest;
    assert forall|q: int| 0 <= q < noise.len() implies (frame_rule())(#[trigger] stream.skip(q))
        == (Cut::Skip { checksum_failed: false }) by {
        assert(stream.skip(q)[0] == noise[q]);
    }
    law_false_starts_cost_one_byte(frame_rule(), stream, noise.len());
    let at = stream.skip(noise.len() as int);
    assert(at =~= frame + rest);
    assert(at.take(PACKET_LEN as int) =~= frame);
    assert(at.skip(PACKET_LEN as int) =~= rest);
}

/// A false start with a wrong CRC costs one byte: the outcome is that of the stream behind its
/// first byte, with one byte and one checksum failure more.
pub proof fn law_wrong_crc_costs_one_byte(stream: Seq<u8>)
    requires
        stream.len() >= PACKET_LEN,
        stream[0] == HEADER,
        stream[1] == VER_LEN,
        !is_frame(stream.take(PACKET_LEN as int)),
    ensures
        ({
            let whole = cut_stream(frame_rule(), stream);
            let after = cut_stream(frame_rule(), stream.skip(1));
            &&& whole.windows == after.windows
            &&& whole.rest == after.rest
            &&& whole.skipped == after.skipped + 1
            &&& whole.failures == after.failures + 1
        }),
{
}

/// Whether a window of a frame's length at `i` begins like a frame, but has a wrong CRC.
pub open spec fn crc_fails_at(stream: Seq<u8>, i: int) -> bool {
    &&& 0 <= i
    &&& i + PACKET_LEN <= stream.len()
    &&& stream[i] == HEADER
    &&& stream[i + 1] == VER_LEN
    &&& !is_frame(stream.subrange(i, i + PACKET_LEN))
}

/// How many of these positions begin like a frame, but have a wrong CRC.
pub open spec fn crc_failures_among(stream: Seq<u8>, positions: Seq<int>) -> nat
    decreases positions.len(),
{
    if positions.len() == 0 {
        0
    } else {
        crc_failures_among(stream, positions.drop_first()) + if crc_fails_at(stream, positions[0]) {
            1nat
        } else {
            0nat
        }
    }
}

/// What the counts count: the positions that were dropped, each once, and those of them at which a
/// window begins like a frame but has a wrong CRC. Where header and version are nowhere side by
/// side, there is no such failure.
pub proof fn law_crc_failures_are_counted(stream: Seq<u8>)
    ensures
        ({
            let cuts = cut_stream(frame_rule(), stream);
            let dropped = dropped_at(frame_rule(), stream, 0);
            &&& dropped.len() == cuts.skipped
            &&& crc_failures_among(stream, dropped) == cuts.failures
            &&& forall|i: int| 0 <= i < dropped.len() ==> 0 <= #[trigger] dropped[i] < stream.len()
            &&& forall|i: int, j: int| 0 <= i < j < dropped.len() ==> dropped[i] < dropped[j]
            &&& (forall|i: int|
                0 <= i < stream.len() - 1 ==> !(#[trigger] stream[i] == HEADER && stream[i + 1]
                    == VER_LEN)) ==> cuts.failures == 0
        }),
{
    let dropped = dropped_at(frame_rule(), stream, 0);
    assert(stream.skip(0) =~= stream);
    law_counts_are_positions(frame_rule(), stream, 0);
    lemma_crc_failures_among(stream, dropped);
    if forall|i: int|
        0 <= i < stream.len() - 1 ==> !(#[trigger] stream[i] == HEADER && stream[i + 1]
            == VER_LEN) {
        lemma_no_crc_failure(stream, dropped);
    }
}

/// A checksum is the reason for dropping a byte exactly where a frame seems to begin, but has a
/// wrong CRC.
proof fn lemma_crc_failures_among(stream: Seq<u8>, positions: Seq<int>)
    requires
        forall|i: int| 0 <= i < positions.len() ==> 0 <= #[trigger] positions[i] < stream.len(),
    ensures
        failures_among(frame_rule(), stream, positions) == crc_failures_among(stream, positions),
    decreases positions.len(),
{
    if positions.len() > 0 {
        let i = positions[0];
        let at = stream.skip(i);
        assert forall|j: int| 0 <= j < positions.drop_first().len() implies 0
            <= #[trigger] positions.drop_first()[j] < stream.len() by {
            assert(positions.drop_first()[j] == positions[j + 1]);
        }
        lemma_crc_failures_among(stream, positions.drop_first());
        if at.len() >= PACKET_LEN {
            assert(at.take(PACKET_LEN as int) =~= stream.subrange(i, i + PACKET_LEN));
        }
        assert((frame_rule()(at) == (Cut::Skip { checksum_failed: true })) == crc_fails_at(
            stream,
            i,
        ));
    }
}

proof fn lemma_no_crc_failure(stream: Seq<u8>, positions: Seq<int>)
    requires
        forall|i: int|
            0 <= i < stream.len() - 1 ==> !(#[trigger] stream[i] == HEADER && stream[i + 1]
                == VER_LEN),
    ensures
        crc_failures_among(stream, positions) == 0,
    decreases positions.len(),
{
    if positions.len() > 0 {
        lemma_no_crc_failure(stream, positions.drop_first());
        assert(!crc_fails_at(stream, positions[0]));
    }
}

/// The frame that is taken is the first one: it is a frame, and no frame begins earlier.
pub proof fn law_first_frame_is_taken(stream: Seq<u8>, k: int)
    requires
        taken_at(frame_rule(), stream, k, PACKET_LEN as nat),
    ensures
        is_frame(stream.subrange(k, k + PACKET_LEN)),
        forall|j: int| 0 <= j < k ==> !is_frame(#[trigger] stream.subrange(j, j + PACKET_LEN)),
{
    assert(stream.skip(k).take(PACKET_LEN as int) =~= stream.subrange(k, k + PACKET_LEN));
    assert forall|j: int| 0 <= j < k implies !is_frame(
        #[trigger] stream.subrange(j, j + PACKET_LEN),
    ) by {
        assert(frame_rule()(stream.skip(j)) is Skip);
        assert(stream.skip(j).take(PACKET_LEN as int) =~= stream.subrange(j, j + PACKET_LEN));
    }
}

/// Where nothing is taken, there is no frame at all.
pub proof fn law_no_frame_is_missed(stream: Seq<u8>, k: int, j: int)
    requires
        held_at(frame_rule(), stream, k),
        0 <= j,
        j + PACKET_LEN <= stream.len(),
    ensures
        !is_frame(stream.subrange(j, j + PACKET_LEN)),
{
    assert(stream.skip(j).take(PACKET_LEN as int) =~= stream.subrange(j, j + PACKET_LEN));
    if j < k {
        assert(frame_rule()(stream.skip(j)) is Skip);
    }
}

/// A frame is taken exactly where there is one.
pub proof fn law_frame_is_found(stream: Seq<u8>)
    ensures
        (exists|k: int| #[trigger] taken_at(frame_rule(), stream, k, PACKET_LEN as nat)) <==> (
        exists|j: int|
            0 <= j && j + PACKET_LEN <= stream.len() && is_frame(
                #[trigger] stream.subrange(j, j + PACKET_LEN),
            )),
{
    lemma_frame_rule_is_steady();
    law_taken_or_held(frame_rule(), stream);
    if exists|k: int| #[trigger] taken_at(frame_rule(), stream, k, PACKET_LEN as nat) {
        let k = choose|k: int| #[trigger] taken_at(frame_rule(), stream, k, PACKET_LEN as nat);
        law_first_frame_is_taken(stream, k);
        assert(is_frame(stream.subrange(k, k + PACKET_LEN)));
    } else {
        assert forall|n: int, len: nat| !#[trigger] taken_at(frame_rule(), stream, n, len) by {
            assert(!taken_at(frame_rule(), stream, n, PACKET_LEN as nat));
        }
        let k = choose|k: int| #[trigger] held_at(frame_rule(), stream, k);
        assert forall|j: int| 0 <= j && j + PACKET_LEN <= stream.len() implies !is_frame(
            #[trigger] stream.subrange(j, j + PACKET_LEN),
        ) by {
            law_no_frame_is_missed(stream, k, j);
        }
    }
}

/// What is kept where nothing is taken: the stream from the first header among its last bytes on,
/// of which there are fewer than a frame has; nothing where there is no header among them.
pub proof fn law_kept_from_the_first_header(stream: Seq<u8>, k: int)
    requires
        held_at(frame_rule(), stream, k),
    ensures
        stream.len() - k < PACKET_LEN,
        k < stream.len() ==> stream[k] == HEADER,
        forall|j: int|
            stream.len() - PACKET_LEN < j < k && 0 <= j ==> #[trigger] stream[j] != HEADER,
{
    assert(k < stream.len() ==> stream.skip(k)[0] == stream[k]);
    assert forall|j: int| stream.len() - PACKET_LEN < j < k && 0 <= j implies #[trigger] stream[j]
        != HEADER by {
        assert(frame_rule()(stream.skip(j)) is Skip);
        assert(stream.skip(j)[0] == stream[j]);
    }
}

/// Frames that follow each other come out one by one, parsed, with nothing dropped and nothing
/// kept.
pub proof fn law_frames_in_a_row(frames: Seq<Seq<u8>>)
    requires
        forall|i: int| 0 <= i < frames.len() ==> is_frame(#[trigger] frames[i]),
    ensures
        ({
            let cuts = cut_stream(frame_rule(), joined(frames));
            &&& cuts.windows == frames
            &&& cuts.rest.len() == 0
            &&& cuts.skipped == 0
            &&& cuts.failures == 0
            &&& frames_in(joined(frames)).len() == frames.len()
            &&& forall|i: int|
                0 <= i < frames.len() ==> parse_of(#[trigger] frames[i]) == Ok::<
                    BodyView,
                    ParseError,
                >(frames_in(joined(frames))[i])
        }),
{
    lemma_frame_rule_is_steady();
    assert forall|i: int| 0 <= i < frames.len() implies frame_rule()(#[trigger] frames[i]) == (
    Cut::Take { len: frames[i].len() }) by {
        assert(frames[i].take(PACKET_LEN as int) =~= frames[i]);
    }
    law_frames_in_a_row_come_out(frame_rule(), frames, Seq::empty());
    assert(joined(frames) + Seq::<u8>::empty() =~= joined(frames));
    assert(cut_stream(frame_rule(), joined(frames)).windows =~= frames);
    law_only_checked_frames(joined(frames));
}

/// What is dropped, and why, in terms of bytes: a byte other than 0x54, and a 0x54 that begins 47
/// bytes of which the second is not 0x2C, or the CRC of the first 46 is not the last, which is the
/// one case that counts as a checksum failure. A 0x54 with fewer than 47 bytes from it on is kept.
pub proof fn law_what_the_decoder_does_with_bytes(buf: Seq<u8>)
    ensures
        ({
            let cut = frame_rule()(buf);
            &&& buf.len() == 0 ==> cut is Hold
            &&& buf.len() > 0 && buf[0] != 0x54 ==> cut == (Cut::Skip { checksum_failed: false })
            &&& 0 < buf.len() < 47 && buf[0] == 0x54 ==> cut is Hold
            &&& buf.len() >= 47 && buf[0] == 0x54 && buf[1] != 0x2C ==> cut == (Cut::Skip {
                checksum_failed: false,
            })
            &&& buf.len() >= 47 && buf[0] == 0x54 && buf[1] == 0x2C && crc8_of(buf.take(46))
                != buf[46] ==> cut == (Cut::Skip { checksum_failed: true })
            &&& buf.len() >= 47 && buf[0] == 0x54 && buf[1] == 0x2C && crc8_of(buf.take(46))
                == buf[46] ==> cut == (Cut::Take { len: 47 })
        }),
{
    if buf.len() >= 47 {
        assert(buf.take(47).take(46) =~= buf.take(46));
    }
}

} // verus!
