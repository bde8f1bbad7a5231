//! A streaming decoder that finds `0xFAC7` packets in a byte stream.
//!
//! A datagram is mostly one packet, but heartbeats and truncated datagrams come in between. So
//! the decoder synchronises as for a serial line: a position is a packet only where the sync, the
//! number of points *and* the checksum are right. The header says how long the packet is; until
//! that many bytes are there, the decoder waits.

use crate::reader::buffer::{drop_front, extend, front, skip_one};
use crate::reader::model::{Decoder, MAX_PENDING};
use crate::reader::pacecat::lds50ce::frame::{HEADER_LEN, Header, packet_len, parse, peek_header};
use crate::reader::types::{LidarBody, ParseError};
use std::collections::VecDeque;
use vstd::prelude::*;

verus! {

use crate::reader::framing::{
    Cut, cut_stream, dropped_at, failures_among, failures_before, false_starts, held_at, joined,
    law_counts_are_positions, law_cut_in_two, law_every_byte_accounted_for,
    law_frames_in_a_row_come_out, law_plain_skips_are_no_failures, law_rest_waits, law_windows_are_good, lemma_first_frame,
    lemma_no_frame, steady, taken_at, total_len,
};
use crate::reader::pacecat::lds50ce::frame::{
    body_of, header_of, is_packet, lemma_header_is_in_front, packet_len_of, parse_of,
};
use crate::reader::types::{BodyView, bodies_view, parsed_view};

/// First byte of the sync.
pub const SYNC0: u8 = 0xC7;

/// Second byte of the sync.
pub const SYNC1: u8 = 0xFA;

/// The decision on the bytes at hand.
pub open spec fn packet_cut(buf: Seq<u8>) -> Cut {
    if buf.len() == 0 {
        Cut::Hold
    } else if buf[0] != SYNC0 {
        Cut::Skip { checksum_failed: false }
    } else if buf.len() == 1 {
        Cut::Hold
    } else if buf[1] != SYNC1 {
        Cut::Skip { checksum_failed: false }
    } else if buf.len() < HEADER_LEN {
        Cut::Hold
    } else {
        match header_of(buf.take(HEADER_LEN as int)) {
            None => Cut::Skip { checksum_failed: false },
            Some(header) => {
                let len = packet_len_of(header.subcontract_points as int);
                if buf.len() < len {
                    Cut::Hold
                } else if !is_packet(buf.take(len)) {
                    Cut::Skip { checksum_failed: true }
                } else {
                    Cut::Take { len: len as nat }
                }
            },
        }
    }
}

/// The rule of the LDS-50C-E.
pub open spec fn packet_rule() -> spec_fn(Seq<u8>) -> Cut {
    |buf: Seq<u8>| packet_cut(buf)
}

/// The measurements in a packet, as a function.
pub open spec fn packet_body() -> spec_fn(Seq<u8>) -> BodyView {
    |window: Seq<u8>| body_of(window)
}

/// Turns a byte stream into packets.
pub struct PacketDecoder {
    buffer: VecDeque<u8>,
    /// Bytes that the last push dropped.
    last_skipped: usize,
    /// Bytes that the last push dropped because of a wrong checksum.
    last_crc_failures: usize,
}

impl PacketDecoder {
    /// The bytes kept for later.
    pub closed spec fn pending_bytes(&self) -> Seq<u8> {
        self.buffer@
    }

    /// The bytes that the last push dropped.
    pub closed spec fn skipped_bytes(&self) -> nat {
        self.last_skipped as nat
    }

    /// The bytes that the last push dropped because of a wrong checksum.
    pub closed spec fn crc_failed_bytes(&self) -> nat {
        self.last_crc_failures as nat
    }

    /// Between pushes the decoder waits: it keeps nothing, or the beginning of a packet.
    pub open spec fn waits(&self) -> bool {
        packet_cut(self.pending_bytes()) is Hold
    }

    pub fn new() -> (decoder: Self)
        ensures
            decoder.waits(),
            decoder.pending_bytes() == Seq::<u8>::empty(),
            decoder.skipped_bytes() == 0,
            decoder.crc_failed_bytes() == 0,
    {
        PacketDecoder { buffer: VecDeque::new(), last_skipped: 0, last_crc_failures: 0 }
    }

    /// A copy of the first `n` bytes.
    fn copy_front(&self, n: usize) -> (copy: Vec<u8>)
        requires
            n <= self.buffer@.len(),
        ensures
            copy@ == self.buffer@.take(n as int),
    {
        front(&self.buffer, n)
    }

    /// From `before` to `after`, the first packet, of `len` bytes, was taken out, and the `k` bytes
    /// in front of it were dropped.
    spec fn took(before: Self, after: Self, frame: BodyView, k: int, len: nat) -> bool {
        let buf = before.buffer@;
        &&& taken_at(packet_rule(), buf, k, len)
        &&& frame == body_of(buf.subrange(k, k + len))
        &&& after.buffer@ == buf.skip(k + len)
        &&& after.last_skipped == before.last_skipped + k
        &&& after.last_crc_failures == before.last_crc_failures + failures_before(
            packet_rule(),
            buf,
            k as nat,
        )
    }

    /// From `before` to `after`, `k` bytes were dropped, and the rest is kept: no packet is there.
    spec fn kept(before: Self, after: Self, k: int) -> bool {
        let buf = before.buffer@;
        &&& held_at(packet_rule(), buf, k)
        &&& after.buffer@ == buf.skip(k)
        &&& after.last_skipped == before.last_skipped + k
        &&& after.last_crc_failures == before.last_crc_failures + failures_before(
            packet_rule(),
            buf,
            k as nat,
        )
    }

    /// Finds the first checked packet in the buffer and takes it out, with what was before it.
    fn next_frame(&mut self) -> (found: Option<LidarBody>)
        requires
            old(self).last_skipped + old(self).buffer@.len() <= usize::MAX,
            old(self).last_crc_failures <= old(self).last_skipped,
        ensures
            final(self).last_skipped + final(self).buffer@.len() <= usize::MAX,
            final(self).last_crc_failures <= final(self).last_skipped,
            found is Some ==> exists|k: int, len: nat|
                #[trigger] Self::took(*old(self), *final(self), found->0@, k, len),
            found is None ==> exists|k: int|
                #[trigger] Self::kept(*old(self), *final(self), k),
    {
        let ghost buf = self.buffer@;
        let ghost mut k: int = 0;
        assert(buf.skip(0) =~= buf);
        loop
            invariant
                buf == old(self).buffer@,
                false_starts(packet_rule(), buf, k),
                self.buffer@ == buf.skip(k),
                self.last_skipped == old(self).last_skipped + k,
                self.last_crc_failures == old(self).last_crc_failures + failures_before(
                    packet_rule(),
                    buf,
                    k as nat,
                ),
                self.last_skipped + self.buffer@.len() <= usize::MAX,
                self.last_crc_failures <= self.last_skipped,
            decreases self.buffer@.len(),
        {
            let ghost here = self.buffer@;
            if self.buffer.len() == 0 {
                assert(Self::kept(*old(self), *self, k));
                return None;
            }
            assert(here.skip(1) =~= buf.skip(k + 1));
            if self.buffer[0] != SYNC0 {
                skip_one(&mut self.buffer, &mut self.last_skipped);
                proof {
                    k = k + 1;
                }
                continue ;
            }
            if self.buffer.len() == 1 {
                assert(Self::kept(*old(self), *self, k));
                return None;
            }
            if self.buffer[1] != SYNC1 {
                skip_one(&mut self.buffer, &mut self.last_skipped);
                proof {
                    k = k + 1;
                }
                continue ;
            }
            if self.buffer.len() < HEADER_LEN {
                assert(Self::kept(*old(self), *self, k));
                return None;
            }
            let head: Vec<u8> = self.copy_front(HEADER_LEN);
            let header: Header = match peek_header(head.as_slice()) {
                Some(header) => header,
                None => {
                    skip_one(&mut self.buffer, &mut self.last_skipped);
                    proof {
                        k = k + 1;
                    }
                    continue ;
                },
            };
            let len: usize = packet_len(header.subcontract_points);
            if self.buffer.len() < len {
                assert(Self::kept(*old(self), *self, k));
                return None;
            }
            let packet: Vec<u8> = self.copy_front(len);
            proof {
                assert(packet@.take(HEADER_LEN as int) =~= head@);
                lemma_header_is_in_front(packet@);
            }
            let parsed: Result<LidarBody, ParseError> = parse(packet.as_slice());
            assert(parsed is Ok <==> is_packet(here.take(len as int)));
            match parsed {
                Ok(body) => {
                    drop_front(&mut self.buffer, len);
                    proof {
                        assert(here.take(len as int) =~= buf.subrange(k, k + len));
                        assert(self.buffer@ =~= buf.skip(k + len));
                        assert(parsed_view(parsed) == parse_of(packet@));
                    }
                    let found: Option<LidarBody> = Some(body);
                    assert(Self::took(*old(self), *self, found->0@, k, len as nat));
                    return found;
                },
                Err(_) => {
                    self.last_crc_failures = self.last_crc_failures + 1;
                    skip_one(&mut self.buffer, &mut self.last_skipped);
                    proof {
                        k = k + 1;
                    }
                },
            }
        }
    }
}

impl Default for PacketDecoder {
    fn default() -> (decoder: Self)
        ensures
            decoder.waits(),
            decoder.pending_bytes() == Seq::<u8>::empty(),
            decoder.skipped_bytes() == 0,
            decoder.crc_failed_bytes() == 0,
    {
        PacketDecoder::new()
    }
}

impl Decoder for PacketDecoder {
    open spec fn rule(&self) -> spec_fn(Seq<u8>) -> Cut {
        packet_rule()
    }

    open spec fn body_in(&self) -> spec_fn(Seq<u8>) -> BodyView {
        packet_body()
    }

    open spec fn pending(&self) -> Seq<u8> {
        self.pending_bytes()
    }

    open spec fn skipped(&self) -> nat {
        self.skipped_bytes()
    }

    open spec fn crc_failures(&self) -> nat {
        self.crc_failed_bytes()
    }

    open spec fn ready(&self) -> bool {
        self.waits()
    }

    proof fn lemma_ready(&self) {
        lemma_packet_rule_is_steady();
    }

    proof fn lemma_points_fit(&self, buf: Seq<u8>) {
        law_only_checked_packets(buf);
    }

    fn push_bytes(&mut self, bytes: &[u8]) -> (frames: Vec<LidarBody>) {
        let ghost stream = self.buffer@ + bytes@;
        extend(&mut self.buffer, bytes);
        self.last_skipped = 0;
        self.last_crc_failures = 0;

        let ghost whole = cut_stream(packet_rule(), stream);
        let mut frames: Vec<LidarBody> = Vec::new();
        assert(old(self).buffer@.len() < MAX_PENDING);
        loop
            invariant
                stream == old(self).buffer@ + bytes@,
                whole == cut_stream(packet_rule(), stream),
                frames@.len() <= whole.windows.len(),
                bodies_view(frames@) == whole.windows.take(frames@.len() as int).map_values(
                    packet_body(),
                ),
                self.last_skipped + self.buffer@.len() <= usize::MAX,
                self.last_crc_failures <= self.last_skipped,
                ({
                    let tail = cut_stream(packet_rule(), self.buffer@);
                    &&& tail.windows == whole.windows.skip(frames@.len() as int)
                    &&& tail.rest == whole.rest
                    &&& self.last_skipped + tail.skipped == whole.skipped
                    &&& self.last_crc_failures + tail.failures == whole.failures
                }),
            decreases self.buffer@.len(),
        {
            let ghost before = frames@;
            let ghost start = *self;
            match self.next_frame() {
                Some(frame) => {
                    frames.push(frame);
                    proof {
                        let (k, len) = choose|k: int, len: nat|
                            Self::took(start, *self, frame@, k, len);
                        let after = cut_stream(packet_rule(), self.buffer@).windows;
                        let window = start.buffer@.subrange(k, k + len);
                        lemma_first_frame(packet_rule(), start.buffer@, k, len);
                        assert((seq![window] + after).drop_first() =~= after);
                        let n = before.len() as int;
                        assert(whole.windows.skip(n).drop_first() =~= whole.windows.skip(n + 1));
                        assert(whole.windows.skip(n)[0] == whole.windows[n]);
                        assert(bodies_view(frames@) =~= whole.windows.take(n + 1).map_values(
                            packet_body(),
                        )) by {
                            assert forall|k: int| 0 <= k < n implies #[trigger] frames@[k]@
                                == body_of(whole.windows[k]) by {
                                assert(bodies_view(before)[k] == before[k]@);
                            }
                        }
                    }
                },
                None => {
                    proof {
                        let k = choose|k: int| Self::kept(start, *self, k);
                        lemma_no_frame(packet_rule(), start.buffer@, k);
                        assert(whole.windows.skip(frames@.len() as int).len() == 0);
                        lemma_packet_rule_is_steady();
                        law_rest_waits(packet_rule(), stream);
                        assert(whole.windows.take(frames@.len() as int) =~= whole.windows);
                    }
                    return frames;
                },
            }
        }
    }

    fn last_skipped(&self) -> (count: usize) {
        self.last_skipped
    }

    fn last_crc_failures(&self) -> (count: usize) {
        self.last_crc_failures
    }
}

/// The laws of [`crate::reader::framing`] hold for the LDS-50C-E.
pub proof fn lemma_packet_rule_is_steady()
    ensures
        steady(packet_rule()),
{
    let rule = packet_rule();
    assert forall|buf: Seq<u8>, more: Seq<u8>| !(rule(buf) is Hold) implies #[trigger] rule(
        buf + more,
    ) == rule(buf) by {
        if buf.len() >= HEADER_LEN {
            assert((buf + more).take(HEADER_LEN as int) =~= buf.take(HEADER_LEN as int));
            if let Some(header) = header_of(buf.take(HEADER_LEN as int)) {
                let len = packet_len_of(header.subcontract_points as int);
                if buf.len() >= len {
                    assert((buf + more).take(len) =~= buf.take(len));
                }
            }
        }
    }
}

/// The measurements that come out of a stream.
pub open spec fn packets_in(stream: Seq<u8>) -> Seq<BodyView> {
    cut_stream(packet_rule(), stream).windows.map_values(packet_body())
}

/// The stream may be split anywhere: with the same bytes kept before, pushing `a` and then `b`
/// gives the packets and the kept bytes of pushing both at once, and its counts add up to those.
/// Less than the longest packet is kept.
pub proof fn law_split_packets(kept: Seq<u8>, a: Seq<u8>, b: Seq<u8>)
    ensures
        ({
            let first = cut_stream(packet_rule(), kept + a);
            let second = cut_stream(packet_rule(), first.rest + b);
            let whole = cut_stream(packet_rule(), kept + (a + b));
            &&& packets_in(kept + (a + b)) == packets_in(kept + a) + packets_in(first.rest + b)
            &&& whole.rest == second.rest
            &&& whole.rest.len() < MAX_PENDING
            &&& whole.skipped == first.skipped + second.skipped
            &&& whole.failures == first.failures + second.failures
        }),
{
    lemma_packet_rule_is_steady();
    law_cut_in_two(packet_rule(), kept + a, b);
    assert((kept + a) + b =~= kept + (a + b));
    law_rest_waits(packet_rule(), kept + (a + b));
    let rest = cut_stream(packet_rule(), kept + a).rest;
    assert(packets_in(kept + (a + b)) =~= packets_in(kept + a) + packets_in(rest + b));
}

/// What comes out has passed every check: each window is a packet, and its measurements are what
/// parsing it gives.
pub proof fn law_only_checked_packets(stream: Seq<u8>)
    ensures
        forall|i: int|
            #![trigger cut_stream(packet_rule(), stream).windows[i]]
            0 <= i < cut_stream(packet_rule(), stream).windows.len() ==> {
                let window = cut_stream(packet_rule(), stream).windows[i];
                &&& is_packet(window)
                &&& parse_of(window) == Ok::<BodyView, ParseError>(packets_in(stream)[i])
            },
{
    let good = |window: Seq<u8>| is_packet(window);
    let windows = cut_stream(packet_rule(), stream).windows;
    law_windows_are_good(packet_rule(), good, stream);
    assert forall|i: int| #![trigger windows[i]] 0 <= i < windows.len() implies is_packet(
        windows[i],
    ) && parse_of(windows[i]) == Ok::<BodyView, ParseError>(packets_in(stream)[i]) by {
        assert(good(windows[i]));
    }
}

/// Every byte of a push is accounted for: those kept before and the new ones are in a packet,
/// dropped, or kept. Less than the longest packet is kept, and what is kept begins with the sync.
pub proof fn law_packet_stream_is_accounted_for(kept: Seq<u8>, bytes: Seq<u8>)
    ensures
        ({
            let cuts = cut_stream(packet_rule(), kept + bytes);
            &&& kept.len() + bytes.len() == total_len(cuts.windows) + cuts.skipped
                + cuts.rest.len()
            &&& cuts.rest.len() < MAX_PENDING
            &&& cuts.rest.len() > 0 ==> cuts.rest[0] == SYNC0
            &&& cuts.rest.len() > 1 ==> cuts.rest[1] == SYNC1
            &&& cuts.failures <= cuts.skipped
        }),
{
    lemma_packet_rule_is_steady();
    law_every_byte_accounted_for(packet_rule(), kept + bytes);
    law_rest_waits(packet_rule(), kept + bytes);
}

/// A packet at the front is taken.
proof fn lemma_packet_is_taken(packet: Seq<u8>, rest: Seq<u8>)
    requires
        is_packet(packet),
    ensures
        packet_cut(packet + rest) == (Cut::Take { len: packet.len() }),
{
    let stream = packet + rest;
    assert(stream.take(packet.len() as int) =~= packet);
    assert(stream.take(HEADER_LEN as int) =~= packet.take(HEADER_LEN as int));
    lemma_header_is_in_front(packet);
    assert(stream[0] == SYNC0 && stream[1] == SYNC1) by {
        assert(stream[0] == packet[0] && stream[1] == packet[1]);
    }
}

/// Noise without the first sync byte, such as a heartbeat, is dropped, and the packet behind it
/// is found.
#[verifier::spinoff_prover]
pub proof fn law_packet_behind_noise(noise: Seq<u8>, packet: Seq<u8>, rest: Seq<u8>)
    requires
        forall|i: int| 0 <= i < noise.len() ==> noise[i] != SYNC0,
        is_packet(packet),
    ensures
        ({
            let whole = cut_stream(packet_rule(), noise + packet + rest);
            let after = cut_stream(packet_rule(), rest);
            &&& whole.windows == seq![packet] + after.windows
            &&& whole.rest == after.rest
            &&& whole.skipped == noise.len() + after.skipped
            &&& whole.failures == after.failures
        }),
{
    let stream = noise + packet + rest;
    let k = noise.len() as int;
    lemma_noise_is_skipped(noise, packet + rest);
    assert(noise + (packet + rest) =~= stream);
    law_plain_skips_are_no_failures(packet_rule(), stream, k as nat);
    assert(stream.skip(k) =~= packet + rest);
    lemma_packet_is_taken(packet, rest);
    lemma_first_frame(packet_rule(), stream, k, packet.len());
    assert(stream.subrange(k, k + packet.len()) =~= packet);
    assert(stream.skip(k + packet.len()) =~= rest);
}

/// Each byte of noise is dropped, and no checksum is the reason.
proof fn lemma_noise_is_skipped(noise: Seq<u8>, tail: Seq<u8>)
    requires
        forall|i: int| 0 <= i < noise.len() ==> noise[i] != SYNC0,
    ensures
        forall|q: int|
            0 <= q < noise.len() ==> packet_rule()(#[trigger] (noise + tail).skip(q)) == (
            Cut::Skip { checksum_failed: false }),
{
    assert forall|q: int| 0 <= q < noise.len() implies packet_rule()(
        #[trigger] (noise + tail).skip(q),
    ) == (Cut::Skip { checksum_failed: false }) by {
        assert((noise + tail).skip(q)[0] == noise[q]);
    }
}

/// A false start costs one byte: where sync and header are plausible but the checksum is wrong,
/// the outcome is that of the stream behind the first byte, with one byte and one checksum
/// failure more.
pub proof fn law_wrong_checksum_costs_one_byte(stream: Seq<u8>, header: Header)
    requires
        stream.len() >= HEADER_LEN,
        header_of(stream.take(HEADER_LEN as int)) == Some(header),
        stream.len() >= packet_len_of(header.subcontract_points as int),
        !is_packet(stream.take(packet_len_of(header.subcontract_points as int))),
    ensures
        ({
            let whole = cut_stream(packet_rule(), stream);
            let after = cut_stream(packet_rule(), stream.skip(1));
            &&& whole.windows == after.windows
            &&& whole.rest == after.rest
            &&& whole.skipped == after.skipped + 1
            &&& whole.failures == after.failures + 1
        }),
{
    assert(stream[0] == SYNC0 && stream[1] == SYNC1);
}

/// Whether a plausible packet is complete at `i`, but has a wrong checksum.
pub open spec fn checksum_fails_at(stream: Seq<u8>, i: int) -> bool {
    let at = stream.skip(i);
    &&& 0 <= i <= stream.len()
    &&& header_of(at) matches Some(header) && {
        let len = packet_len_of(header.subcontract_points as int);
        at.len() >= len && !is_packet(at.take(len))
    }
}

/// How many of these positions begin like a packet, but have a wrong checksum.
pub open spec fn checksum_failures_among(stream: Seq<u8>, positions: Seq<int>) -> nat
    decreases positions.len(),
{
    if positions.len() == 0 {
        0
    } else {
        checksum_failures_among(stream, positions.drop_first()) + if checksum_fails_at(
            stream,
            positions[0],
        ) {
            1nat
        } else {
            0nat
        }
    }
}

/// What the counts count: the positions that were dropped, each once, and those of them at which a
/// plausible packet is complete but has a wrong checksum.
pub proof fn law_checksum_failures_are_counted(stream: Seq<u8>)
    ensures
        ({
            let cuts = cut_stream(packet_rule(), stream);
            let dropped = dropped_at(packet_rule(), stream, 0);
            &&& dropped.len() == cuts.skipped
            &&& checksum_failures_among(stream, dropped) == cuts.failures
            &&& forall|i: int| 0 <= i < dropped.len() ==> 0 <= #[trigger] dropped[i] < stream.len()
            &&& forall|i: int, j: int| 0 <= i < j < dropped.len() ==> dropped[i] < dropped[j]
        }),
{
    assert(stream.skip(0) =~= stream);
    law_counts_are_positions(packet_rule(), stream, 0);
    lemma_checksum_failures_among(stream, dropped_at(packet_rule(), stream, 0));
}

proof fn lemma_checksum_failures_among(stream: Seq<u8>, positions: Seq<int>)
    requires
        forall|i: int| 0 <= i < positions.len() ==> 0 <= #[trigger] positions[i] < stream.len(),
    ensures
        failures_among(packet_rule(), stream, positions) == checksum_failures_among(
            stream,
            positions,
        ),
    decreases positions.len(),
{
    if positions.len() > 0 {
        let i = positions[0];
        assert forall|j: int| 0 <= j < positions.drop_first().len() implies 0
            <= #[trigger] positions.drop_first()[j] < stream.len() by {
            assert(positions.drop_first()[j] == positions[j + 1]);
        }
        lemma_checksum_failures_among(stream, positions.drop_first());
        lemma_checksum_is_the_reason(stream, i);
    }
}

/// A checksum is the reason for dropping a byte exactly where a plausible packet is complete, but
/// has a wrong checksum.
proof fn lemma_checksum_is_the_reason(stream: Seq<u8>, i: int)
    requires
        0 <= i < stream.len(),
    ensures
        (packet_rule()(stream.skip(i)) == (Cut::Skip { checksum_failed: true }))
            == checksum_fails_at(stream, i),
{
    let at = stream.skip(i);
    if at.len() >= HEADER_LEN {
        lemma_header_is_in_front(at);
        if header_of(at) is Some {
            assert(at[0] == SYNC0 && at[1] == SYNC1);
        }
    }
}

/// The packet that is taken is the first one: it is a packet, as long as its header says, and no
/// packet of any length begins earlier.
pub proof fn law_first_packet_is_taken(stream: Seq<u8>, k: int, len: nat)
    requires
        taken_at(packet_rule(), stream, k, len),
    ensures
        is_packet(stream.subrange(k, k + len)),
        forall|j: int, other: nat|
            0 <= j < k && j + other <= stream.len() ==> !is_packet(
                #[trigger] stream.subrange(j, j + other),
            ),
{
    assert(stream.skip(k).take(len as int) =~= stream.subrange(k, k + len));
    assert forall|j: int, other: nat| 0 <= j < k && j + other <= stream.len() implies !is_packet(
        #[trigger] stream.subrange(j, j + other),
    ) by {
        assert(packet_rule()(stream.skip(j)) is Skip);
        lemma_packet_is_not_skipped(stream, j, other);
    }
}

/// Where nothing is taken, no packet is complete up to the bytes that are kept, nor at their
/// beginning.
pub proof fn law_no_packet_is_missed(stream: Seq<u8>, k: int, j: int, other: nat)
    requires
        held_at(packet_rule(), stream, k),
        0 <= j <= k,
        j + other <= stream.len(),
    ensures
        !is_packet(stream.subrange(j, j + other)),
{
    if j < k {
        assert(packet_rule()(stream.skip(j)) is Skip);
    }
    lemma_packet_is_not_skipped(stream, j, other);
}

/// Where a packet begins, the decision is to take it.
proof fn lemma_packet_is_not_skipped(stream: Seq<u8>, j: int, len: nat)
    requires
        0 <= j,
        j + len <= stream.len(),
    ensures
        is_packet(stream.subrange(j, j + len)) ==> packet_rule()(stream.skip(j)) == (Cut::Take {
            len,
        }),
{
    let packet = stream.subrange(j, j + len);
    if is_packet(packet) {
        lemma_packet_is_taken(packet, stream.skip(j + len));
        assert(packet + stream.skip(j + len) =~= stream.skip(j));
    }
}

/// What is kept where nothing is taken: nothing, the first sync byte alone, the sync with fewer
/// bytes than a header, or a plausible header with fewer bytes than it announces.
pub proof fn law_kept_is_the_beginning_of_a_packet(stream: Seq<u8>, k: int)
    requires
        held_at(packet_rule(), stream, k),
    ensures
        ({
            let rest = stream.skip(k);
            ||| rest.len() == 0
            ||| rest.len() == 1 && rest[0] == SYNC0
            ||| 2 <= rest.len() < HEADER_LEN && rest[0] == SYNC0 && rest[1] == SYNC1
            ||| header_of(rest) is Some && rest.len() < packet_len_of(
                header_of(rest)->0.subcontract_points as int,
            )
        }),
{
    let rest = stream.skip(k);
    if rest.len() >= HEADER_LEN {
        lemma_header_is_in_front(rest);
    }
}

/// Packets that follow each other come out one by one, parsed, with nothing dropped and nothing
/// kept.
pub proof fn law_packets_in_a_row(packets: Seq<Seq<u8>>)
    requires
        forall|i: int| 0 <= i < packets.len() ==> is_packet(#[trigger] packets[i]),
    ensures
        ({
            let cuts = cut_stream(packet_rule(), joined(packets));
            &&& cuts.windows == packets
            &&& cuts.rest.len() == 0
            &&& cuts.skipped == 0
            &&& cuts.failures == 0
            &&& packets_in(joined(packets)).len() == packets.len()
            &&& forall|i: int|
                0 <= i < packets.len() ==> parse_of(#[trigger] packets[i]) == Ok::<
                    BodyView,
                    ParseError,
                >(packets_in(joined(packets))[i])
        }),
{
    lemma_packet_rule_is_steady();
    assert forall|i: int| 0 <= i < packets.len() implies packet_rule()(#[trigger] packets[i]) == (
    Cut::Take { len: packets[i].len() }) by {
        let packet = packets[i];
        lemma_header_is_in_front(packet);
        assert(packet.take(packet.len() as int) =~= packet);
    }
    law_frames_in_a_row_come_out(packet_rule(), packets, Seq::empty());
    assert(joined(packets) + Seq::<u8>::empty() =~= joined(packets));
    assert(cut_stream(packet_rule(), joined(packets)).windows =~= packets);
    law_only_checked_packets(joined(packets));
}

/// What the decoder does with bytes, in terms of the number of points that bytes 2 and 3 tell: a
/// byte other than 0xC7, a 0xC7 before anything but 0xFA, and a sync with a number of points below
/// 1 or above 1,500 are dropped; then 30 bytes and 5 for each point are a packet, or one byte is
/// dropped because of the checksum; and where so many bytes are not there, it waits.
pub proof fn law_what_the_decoder_does_with_bytes(buf: Seq<u8>)
    ensures
        ({
            let cut = packet_rule()(buf);
            let n = buf[2] + 256 * buf[3];
            &&& buf.len() == 0 ==> cut is Hold
            &&& buf.len() > 0 && buf[0] != 0xC7 ==> cut == (Cut::Skip { checksum_failed: false })
            &&& buf.len() == 1 && buf[0] == 0xC7 ==> cut is Hold
            &&& buf.len() > 1 && buf[0] == 0xC7 && buf[1] != 0xFA ==> cut == (Cut::Skip {
                checksum_failed: false,
            })
            &&& buf.len() > 1 && buf[0] == 0xC7 && buf[1] == 0xFA ==> {
                &&& buf.len() < 28 ==> cut is Hold
                &&& buf.len() >= 28 && !(1 <= n <= 1_500) ==> cut == (Cut::Skip {
                    checksum_failed: false,
                })
                &&& 28 <= buf.len() < 30 + 5 * n && 1 <= n <= 1_500 ==> cut is Hold
                &&& buf.len() >= 30 + 5 * n && buf.len() >= 28 && 1 <= n <= 1_500 ==> cut == (
                if is_packet(buf.take(30 + 5 * n)) {
                    Cut::Take { len: (30 + 5 * n) as nat }
                } else {
                    Cut::Skip { checksum_failed: true }
                })
            }
        }),
{
}

} // verus!
