//! A decoder that finds STL-27L frames by header and version alone.
//!
//! It hands out every window of 47 bytes that begins like a frame, parsed: a wrong CRC comes out
//! as an error. The console program uses it to show what was dropped.

use crate::reader::buffer::{drop_byte, drop_front, extend, front};
use crate::reader::ldrobot::stl27l::frame::{HEADER, PACKET_LEN, VER_LEN, parse};
use crate::reader::types::{LidarBody, ParseError};
use std::collections::VecDeque;
use vstd::prelude::*;

verus! {

use crate::reader::framing::{
    Cut, cut_stream, false_starts, held_at, joined, law_cut_in_two, law_every_byte_accounted_for,
    law_frames_in_a_row_come_out, law_rest_waits, law_windows_are_good, lemma_first_frame, lemma_no_frame,
    lemma_total_of_equal_windows, steady, taken_at,
};
use crate::reader::ldrobot::stl27l::frame::{is_frame, parse_of};
use crate::reader::types::{BodyView, all_parsed_view, parsed_view};

/// The decision on the bytes at hand.
pub open spec fn raw_cut(buf: Seq<u8>) -> Cut {
    if buf.len() == 0 {
        Cut::Hold
    } else if buf[0] != HEADER {
        Cut::Skip { checksum_failed: false }
    } else if buf.len() < PACKET_LEN {
        Cut::Hold
    } else if buf[1] != VER_LEN {
        Cut::Skip { checksum_failed: false }
    } else {
        Cut::Take { len: PACKET_LEN as nat }
    }
}

/// The rule by header and version.
pub open spec fn raw_rule() -> spec_fn(Seq<u8>) -> Cut {
    |buf: Seq<u8>| raw_cut(buf)
}

/// What comes out of a stream: each window parsed.
pub open spec fn parsed_in(stream: Seq<u8>) -> Seq<Result<BodyView, ParseError>> {
    cut_stream(raw_rule(), stream).windows.map_values(|window: Seq<u8>| parse_of(window))
}

/// Turns a byte stream into parse results.
pub struct FrameDecoder {
    buffer: VecDeque<u8>,
}

impl FrameDecoder {
    /// The bytes kept for later.
    pub closed spec fn pending_bytes(&self) -> Seq<u8> {
        self.buffer@
    }

    /// Between pushes the decoder waits: it keeps nothing, or the beginning of a frame.
    pub open spec fn waits(&self) -> bool {
        raw_cut(self.pending_bytes()) is Hold
    }

    pub fn new() -> (decoder: Self)
        ensures
            decoder.waits(),
            decoder.pending_bytes() == Seq::<u8>::empty(),
    {
        FrameDecoder { buffer: VecDeque::new() }
    }

    /// Takes new bytes and returns the frames that are complete with them, parsed.
    pub fn push_bytes(&mut self, bytes: &[u8]) -> (frames: Vec<Result<LidarBody, ParseError>>)
        requires
            old(self).waits(),
        ensures
            final(self).waits(),
            all_parsed_view(frames@) == parsed_in(old(self).pending_bytes() + bytes@),
            final(self).pending_bytes() == cut_stream(
                raw_rule(),
                old(self).pending_bytes() + bytes@,
            ).rest,
    {
        let ghost stream = self.buffer@ + bytes@;
        extend(&mut self.buffer, bytes);

        let ghost whole = cut_stream(raw_rule(), stream);
        let mut frames: Vec<Result<LidarBody, ParseError>> = Vec::new();
        loop
            invariant
                stream == old(self).buffer@ + bytes@,
                whole == cut_stream(raw_rule(), stream),
                frames@.len() <= whole.windows.len(),
                forall|k: int|
                    0 <= k < frames@.len() ==> parsed_view(#[trigger] frames@[k]) == parse_of(
                        whole.windows[k],
                    ),
                ({
                    let tail = cut_stream(raw_rule(), self.buffer@);
                    &&& tail.windows == whole.windows.skip(frames@.len() as int)
                    &&& tail.rest == whole.rest
                }),
            decreases self.buffer@.len(),
        {
            let ghost start = *self;
            match self.next_raw_frame() {
                Some(raw_frame) => {
                    let ghost n = frames@.len() as int;
                    proof {
                        let len = PACKET_LEN as nat;
                        let k = choose|k: int| Self::took(start, *self, raw_frame@, k);
                        let after = cut_stream(raw_rule(), self.buffer@).windows;
                        lemma_first_frame(raw_rule(), start.buffer@, k, len);
                        assert((seq![raw_frame@] + after).drop_first() =~= after);
                        assert(whole.windows.skip(n).drop_first() =~= whole.windows.skip(n + 1));
                        assert(whole.windows.skip(n)[0] == whole.windows[n]);
                    }
                    frames.push(parse(raw_frame.as_slice()));
                },
                None => {
                    proof {
                        let k = choose|k: int| Self::kept(start, *self, k);
                        lemma_no_frame(raw_rule(), start.buffer@, k);
                        assert(whole.windows.skip(frames@.len() as int).len() == 0);
                        lemma_raw_rule_is_steady();
                        law_rest_waits(raw_rule(), stream);
                        assert(all_parsed_view(frames@) =~= parsed_in(stream));
                    }
                    return frames;
                },
            }
        }
    }

    /// From `before` to `after`, the first window that begins like a frame was taken out, and the
    /// `k` bytes in front of it were dropped.
    spec fn took(before: Self, after: Self, raw_frame: Seq<u8>, k: int) -> bool {
        let buf = before.buffer@;
        &&& taken_at(raw_rule(), buf, k, PACKET_LEN as nat)
        &&& raw_frame == buf.subrange(k, k + PACKET_LEN)
        &&& after.buffer@ == buf.skip(k + PACKET_LEN)
    }

    /// From `before` to `after`, `k` bytes were dropped, and the rest is kept: no window is there.
    spec fn kept(before: Self, after: Self, k: int) -> bool {
        &&& held_at(raw_rule(), before.buffer@, k)
        &&& after.buffer@ == before.buffer@.skip(k)
    }

    /// Finds the first window that begins like a frame and takes it out, with what was before it.
    fn next_raw_frame(&mut self) -> (found: Option<Vec<u8>>)
        ensures
            found is Some ==> exists|k: int|
                #[trigger] Self::took(*old(self), *final(self), found->0@, k),
            found is None ==> exists|k: int|
                #[trigger] Self::kept(*old(self), *final(self), k),
    {
        let ghost buf = self.buffer@;
        let ghost mut k: int = 0;
        assert(buf.skip(0) =~= buf);
        loop
            invariant
                buf == old(self).buffer@,
                false_starts(raw_rule(), buf, k),
                self.buffer@ == buf.skip(k),
            decreases self.buffer@.len(),
        {
            let ghost from = k;
            self.discard_until_header();
            proof {
                let n = choose|n: int|
                    0 <= n <= buf.skip(from).len() && self.buffer@ == #[trigger] buf.skip(
                        from,
                    ).skip(n) && forall|j: int| 0 <= j < n ==> buf.skip(from)[j] != HEADER;
                k = from + n;
                assert(self.buffer@ =~= buf.skip(k));
                assert forall|j: int| 0 <= j < k implies (raw_rule())(
                    #[trigger] buf.skip(j),
                ) is Skip by {
                    if j >= from {
                        assert(buf.skip(from)[j - from] == buf.skip(j)[0]);
                    }
                }
            }
            if self.buffer.len() < PACKET_LEN {
                assert(Self::kept(*old(self), *self, k));
                return None;
            }
            let ghost here = self.buffer@;
            if self.buffer[1] != VER_LEN {
                drop_byte(&mut self.buffer);
                proof {
                    assert(here.skip(1) =~= buf.skip(k + 1));
                    k = k + 1;
                }
                continue ;
            }
            let raw_frame: Vec<u8> = front(&self.buffer, PACKET_LEN);
            drop_front(&mut self.buffer, PACKET_LEN);
            proof {
                assert(raw_frame@ =~= buf.subrange(k, k + PACKET_LEN));
                assert(self.buffer@ =~= buf.skip(k + PACKET_LEN));
            }
            let found: Option<Vec<u8>> = Some(raw_frame);
            assert(Self::took(*old(self), *self, found->0@, k));
            return found;
        }
    }

    /// Drops bytes up to the next header byte.
    fn discard_until_header(&mut self)
        ensures
            final(self).buffer@.len() == 0 || final(self).buffer@[0] == HEADER,
            exists|n: int|
                0 <= n <= old(self).buffer@.len() && final(self).buffer@ == #[trigger] old(
                    self,
                ).buffer@.skip(n) && forall|j: int|
                    0 <= j < n ==> old(self).buffer@[j] != HEADER,
    {
        let ghost buf = self.buffer@;
        let ghost mut n: int = 0;
        assert(buf.skip(0) =~= buf);
        while self.buffer.len() > 0 && self.buffer[0] != HEADER
            invariant
                buf == old(self).buffer@,
                0 <= n <= buf.len(),
                self.buffer@ == buf.skip(n),
                forall|j: int| 0 <= j < n ==> buf[j] != HEADER,
            decreases self.buffer@.len(),
        {
            drop_byte(&mut self.buffer);
            proof {
                assert(buf.skip(n).skip(1) =~= buf.skip(n + 1));
                n = n + 1;
            }
        }
    }
}

impl Default for FrameDecoder {
    fn default() -> (decoder: Self)
        ensures
            decoder.waits(),
            decoder.pending_bytes() == Seq::<u8>::empty(),
    {
        FrameDecoder::new()
    }
}

/// The laws of [`crate::reader::framing`] hold for this decoder.
pub proof fn lemma_raw_rule_is_steady()
    ensures
        steady(raw_rule()),
{
}

/// The serial line may split the stream anywhere: with the same bytes kept before, pushing `a` and
/// then `b` gives the results and the kept bytes of pushing both at once.
pub proof fn law_split_raw_stream(kept: Seq<u8>, a: Seq<u8>, b: Seq<u8>)
    ensures
        ({
            let rest = cut_stream(raw_rule(), kept + a).rest;
            let whole = kept + (a + b);
            &&& parsed_in(whole) == parsed_in(kept + a) + parsed_in(rest + b)
            &&& cut_stream(raw_rule(), whole).rest == cut_stream(raw_rule(), rest + b).rest
        }),
{
    lemma_raw_rule_is_steady();
    law_cut_in_two(raw_rule(), kept + a, b);
    assert((kept + a) + b =~= kept + (a + b));
    let rest = cut_stream(raw_rule(), kept + a).rest;
    assert(parsed_in(kept + (a + b)) =~= parsed_in(kept + a) + parsed_in(rest + b));
}

/// The only thing that can be wrong with what comes out is the CRC.
pub proof fn law_only_the_crc_can_be_wrong(stream: Seq<u8>, i: int)
    requires
        0 <= i < parsed_in(stream).len(),
    ensures
        parsed_in(stream)[i] is Ok || parsed_in(stream)[i]->Err_0 is CrcMismatch,
        parsed_in(stream)[i] is Ok <==> is_frame(cut_stream(raw_rule(), stream).windows[i]),
{
    let good = |window: Seq<u8>|
        window.len() == PACKET_LEN && window[0] == HEADER && window[1] == VER_LEN;
    law_windows_are_good(raw_rule(), good, stream);
    assert(good(cut_stream(raw_rule(), stream).windows[i]));
}

/// Every byte of the stream is in a window, dropped, or kept; less than a frame is kept, and what
/// is kept begins with a header.
pub proof fn law_raw_stream_is_accounted_for(stream: Seq<u8>)
    ensures
        ({
            let cuts = cut_stream(raw_rule(), stream);
            &&& stream.len() == PACKET_LEN * parsed_in(stream).len() + cuts.skipped
                + cuts.rest.len()
            &&& cuts.rest.len() < PACKET_LEN
            &&& cuts.rest.len() > 0 ==> cuts.rest[0] == HEADER
        }),
{
    let cuts = cut_stream(raw_rule(), stream);
    let good = |window: Seq<u8>| window.len() == PACKET_LEN;
    lemma_raw_rule_is_steady();
    law_every_byte_accounted_for(raw_rule(), stream);
    law_rest_waits(raw_rule(), stream);
    law_windows_are_good(raw_rule(), good, stream);
    assert forall|i: int| 0 <= i < cuts.windows.len() implies (#[trigger] cuts.windows[i]).len()
        == PACKET_LEN by {
        assert(good(cuts.windows[i]));
    }
    lemma_total_of_equal_windows(cuts.windows, PACKET_LEN as nat);
}

/// Windows that begin like frames and follow each other come out one by one, each parsed, whether
/// its CRC is right or not, with nothing dropped and nothing kept.
pub proof fn law_raw_frames_in_a_row(windows: Seq<Seq<u8>>)
    requires
        forall|i: int|
            0 <= i < windows.len() ==> (#[trigger] windows[i]).len() == 47 && windows[i][0] == 0x54
                && windows[i][1] == 0x2C,
    ensures
        ({
            let cuts = cut_stream(raw_rule(), joined(windows));
            &&& cuts.windows == windows
            &&& cuts.rest.len() == 0
            &&& cuts.skipped == 0
            &&& parsed_in(joined(windows)).len() == windows.len()
            &&& forall|i: int|
                0 <= i < windows.len() ==> parsed_in(joined(windows))[i] == parse_of(
                    #[trigger] windows[i],
                )
        }),
{
    lemma_raw_rule_is_steady();
    law_frames_in_a_row_come_out(raw_rule(), windows, Seq::empty());
    assert(joined(windows) + Seq::<u8>::empty() =~= joined(windows));
    assert(cut_stream(raw_rule(), joined(windows)).windows =~= windows);
}

/// What is dropped, in terms of bytes: a byte other than 0x54, and a 0x54 that begins 47 bytes of
/// which the second is not 0x2C. A 0x54 with fewer than 47 bytes from it on is kept.
pub proof fn law_what_the_raw_decoder_does_with_bytes(buf: Seq<u8>)
    ensures
        ({
            let cut = raw_rule()(buf);
            &&& buf.len() == 0 ==> cut is Hold
            &&& buf.len() > 0 && buf[0] != 0x54 ==> cut is Skip
            &&& 0 < buf.len() < 47 && buf[0] == 0x54 ==> cut is Hold
            &&& buf.len() >= 47 && buf[0] == 0x54 && buf[1] != 0x2C ==> cut is Skip
            &&& buf.len() >= 47 && buf[0] == 0x54 && buf[1] == 0x2C ==> cut == (Cut::Take {
                len: 47,
            })
        }),
{
}

} // verus!
