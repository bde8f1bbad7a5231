//! What it means to cut a byte stream into frames.
//!
//! Every decoder of this crate looks at the bytes it has not used yet and does one of three
//! things: it waits for more bytes, it drops the first byte, or it takes a frame off the front.
//! A [`Cut`] rule is that decision as a mathematical function of the unused bytes, and
//! [`cut_stream`] is what comes out when the decision is repeated until it says to wait.
//! The laws below hold for every decoder whose rule is [`steady`].

use vstd::prelude::*;

verus! {

/// The decision on the bytes that have not been used yet.
pub enum Cut {
    /// Wait for more bytes.
    Hold,
    /// Drop one byte; `checksum_failed` tells whether a checksum was the reason.
    Skip { checksum_failed: bool },
    /// The first `len` bytes are a frame.
    Take { len: nat },
}

/// A stream cut up: the frames in order, the bytes kept for later, and how many bytes were
/// dropped, in all and because of a checksum.
#[verifier::ext_equal]
pub struct Cuts {
    pub windows: Seq<Seq<u8>>,
    pub rest: Seq<u8>,
    pub skipped: nat,
    pub failures: nat,
}

/// The number of dropped bytes that one skip adds to the checksum count.
pub open spec fn failure_count(checksum_failed: bool) -> nat {
    if checksum_failed {
        1
    } else {
        0
    }
}

/// The stream `buf`, cut by `rule` until the rule holds.
pub open spec fn cut_stream(rule: spec_fn(Seq<u8>) -> Cut, buf: Seq<u8>) -> Cuts
    decreases buf.len(),
{
    match rule(buf) {
        Cut::Take { len } => if 0 < len <= buf.len() {
            let tail = cut_stream(rule, buf.skip(len as int));
            Cuts {
                windows: seq![buf.take(len as int)] + tail.windows,
                rest: tail.rest,
                skipped: tail.skipped,
                failures: tail.failures,
            }
        } else {
            held(buf)
        },
        Cut::Skip { checksum_failed } => if buf.len() > 0 {
            let tail = cut_stream(rule, buf.skip(1));
            Cuts {
                windows: tail.windows,
                rest: tail.rest,
                skipped: tail.skipped + 1,
                failures: tail.failures + failure_count(checksum_failed),
            }
        } else {
            held(buf)
        },
        Cut::Hold => held(buf),
    }
}

/// Nothing cut, everything kept.
pub open spec fn held(buf: Seq<u8>) -> Cuts {
    Cuts { windows: Seq::empty(), rest: buf, skipped: 0, failures: 0 }
}

/// The outcome of cutting in two goes: what the first go cut, then what the second did.
pub open spec fn then_cuts(first: Cuts, second: Cuts) -> Cuts {
    Cuts {
        windows: first.windows + second.windows,
        rest: second.rest,
        skipped: first.skipped + second.skipped,
        failures: first.failures + second.failures,
    }
}

/// The outcome of receiving `chunks` one after the other, with `pending` left from before.
pub open spec fn cut_chunks(
    rule: spec_fn(Seq<u8>) -> Cut,
    pending: Seq<u8>,
    chunks: Seq<Seq<u8>>,
) -> Cuts
    decreases chunks.len(),
{
    if chunks.len() == 0 {
        held(pending)
    } else {
        let first = cut_stream(rule, pending + chunks[0]);
        then_cuts(first, cut_chunks(rule, first.rest, chunks.drop_first()))
    }
}

/// All bytes of `chunks` in order.
pub open spec fn joined(chunks: Seq<Seq<u8>>) -> Seq<u8>
    decreases chunks.len(),
{
    if chunks.len() == 0 {
        Seq::empty()
    } else {
        chunks[0] + joined(chunks.drop_first())
    }
}

/// The number of bytes in all windows.
pub open spec fn total_len(windows: Seq<Seq<u8>>) -> nat
    decreases windows.len(),
{
    if windows.len() == 0 {
        0
    } else {
        windows[0].len() + total_len(windows.drop_first())
    }
}

/// A decision never uses more bytes than there are.
pub open spec fn affordable(rule: spec_fn(Seq<u8>) -> Cut) -> bool {
    forall|buf: Seq<u8>| match #[trigger] rule(buf) {
        Cut::Hold => true,
        Cut::Skip { .. } => buf.len() > 0,
        Cut::Take { len } => 0 < len <= buf.len(),
    }
}

/// Bytes that arrive later never change a decision that has been made.
pub open spec fn undisturbed(rule: spec_fn(Seq<u8>) -> Cut) -> bool {
    forall|buf: Seq<u8>, more: Seq<u8>|
        !(rule(buf) is Hold) ==> #[trigger] rule(buf + more) == rule(buf)
}

/// A rule under which the laws of this module hold.
pub open spec fn steady(rule: spec_fn(Seq<u8>) -> Cut) -> bool {
    affordable(rule) && undisturbed(rule)
}

/// What is kept for later is a stream on which the rule waits: nothing that could be cut is
/// left over.
pub proof fn law_rest_waits(rule: spec_fn(Seq<u8>) -> Cut, buf: Seq<u8>)
    requires
        affordable(rule),
    ensures
        rule(cut_stream(rule, buf).rest) is Hold,
        cut_stream(rule, cut_stream(rule, buf).rest) == held(cut_stream(rule, buf).rest),
    decreases buf.len(),
{
    match rule(buf) {
        Cut::Take { len } => {
            law_rest_waits(rule, buf.skip(len as int));
        },
        Cut::Skip { .. } => {
            law_rest_waits(rule, buf.skip(1));
        },
        Cut::Hold => {},
    }
}

/// Cutting does not depend on how the stream arrives: cutting `a`, and then what was left of it
/// followed by `b`, gives what cutting `a` followed by `b` gives.
pub proof fn law_cut_in_two(rule: spec_fn(Seq<u8>) -> Cut, a: Seq<u8>, b: Seq<u8>)
    requires
        steady(rule),
    ensures
        cut_stream(rule, a + b) == then_cuts(
            cut_stream(rule, a),
            cut_stream(rule, cut_stream(rule, a).rest + b),
        ),
    decreases a.len(),
{
    let whole = cut_stream(rule, a + b);
    match rule(a) {
        Cut::Take { len } => {
            let n = len as int;
            assert(rule(a + b) == rule(a));
            assert((a + b).skip(n) =~= a.skip(n) + b);
            assert((a + b).take(n) =~= a.take(n));
            law_cut_in_two(rule, a.skip(n), b);
            assert(whole =~= then_cuts(
                cut_stream(rule, a),
                cut_stream(rule, cut_stream(rule, a).rest + b),
            ));
        },
        Cut::Skip { .. } => {
            assert(rule(a + b) == rule(a));
            assert((a + b).skip(1) =~= a.skip(1) + b);
            law_cut_in_two(rule, a.skip(1), b);
        },
        Cut::Hold => {
            assert(whole =~= then_cuts(held(a), whole));
        },
    }
}

/// However a stream is split into chunks, the outcome is that of the whole stream at once.
pub proof fn law_chunks_do_not_matter(
    rule: spec_fn(Seq<u8>) -> Cut,
    pending: Seq<u8>,
    chunks: Seq<Seq<u8>>,
)
    requires
        steady(rule),
        rule(pending) is Hold,
    ensures
        cut_chunks(rule, pending, chunks) == cut_stream(rule, pending + joined(chunks)),
    decreases chunks.len(),
{
    if chunks.len() == 0 {
        assert(pending + joined(chunks) =~= pending);
    } else {
        let first = cut_stream(rule, pending + chunks[0]);
        let later = joined(chunks.drop_first());
        law_rest_waits(rule, pending + chunks[0]);
        law_chunks_do_not_matter(rule, first.rest, chunks.drop_first());
        law_cut_in_two(rule, pending + chunks[0], later);
        assert((pending + chunks[0]) + later =~= pending + joined(chunks));
    }
}

/// No byte is lost or counted twice: each one is in a frame, dropped, or kept for later; and
/// checksum failures are among the dropped bytes.
pub proof fn law_every_byte_accounted_for(rule: spec_fn(Seq<u8>) -> Cut, buf: Seq<u8>)
    ensures
        ({
            let cuts = cut_stream(rule, buf);
            &&& buf.len() == total_len(cuts.windows) + cuts.skipped + cuts.rest.len()
            &&& cuts.failures <= cuts.skipped
        }),
    decreases buf.len(),
{
    match rule(buf) {
        Cut::Take { len } => if 0 < len <= buf.len() {
            let n = len as int;
            let tail = cut_stream(rule, buf.skip(n));
            law_every_byte_accounted_for(rule, buf.skip(n));
            assert((seq![buf.take(n)] + tail.windows).drop_first() =~= tail.windows);
        },
        Cut::Skip { .. } => if buf.len() > 0 {
            law_every_byte_accounted_for(rule, buf.skip(1));
        },
        Cut::Hold => {},
    }
}

/// Every frame that is cut has what the rule demands of a frame.
pub proof fn law_windows_are_good(
    rule: spec_fn(Seq<u8>) -> Cut,
    good: spec_fn(Seq<u8>) -> bool,
    buf: Seq<u8>,
)
    requires
        forall|b: Seq<u8>|
            #[trigger] rule(b) matches Cut::Take { len } ==> good(b.take(len as int)),
    ensures
        forall|i: int|
            0 <= i < cut_stream(rule, buf).windows.len() ==> good(
                #[trigger] cut_stream(rule, buf).windows[i],
            ),
    decreases buf.len(),
{
    match rule(buf) {
        Cut::Take { len } => if 0 < len <= buf.len() {
            let tail = cut_stream(rule, buf.skip(len as int)).windows;
            law_windows_are_good(rule, good, buf.skip(len as int));
            assert forall|i: int| 0 <= i < cut_stream(rule, buf).windows.len() implies good(
                #[trigger] cut_stream(rule, buf).windows[i],
            ) by {
                if i > 0 {
                    assert(good(tail[i - 1]));
                }
            }
        },
        Cut::Skip { .. } => if buf.len() > 0 {
            let tail = cut_stream(rule, buf.skip(1)).windows;
            law_windows_are_good(rule, good, buf.skip(1));
            assert(cut_stream(rule, buf).windows == tail);
            assert(forall|i: int| 0 <= i < tail.len() ==> good(#[trigger] tail[i]));
        },
        Cut::Hold => {},
    }
}

/// Whether each of the first `k` positions is a false start: a byte is dropped there.
pub open spec fn false_starts(rule: spec_fn(Seq<u8>) -> Cut, buf: Seq<u8>, k: int) -> bool {
    &&& 0 <= k <= buf.len()
    &&& forall|j: int| 0 <= j < k ==> rule(#[trigger] buf.skip(j)) is Skip
}

/// How many of the first `k` positions are dropped because of a checksum.
pub open spec fn failures_before(rule: spec_fn(Seq<u8>) -> Cut, buf: Seq<u8>, k: nat) -> nat
    decreases k,
{
    if k == 0 {
        0
    } else {
        failures_before(rule, buf, (k - 1) as nat) + failure_count(
            rule(buf.skip(k - 1)) == (Cut::Skip { checksum_failed: true }),
        )
    }
}

/// The first frame in `buf`: it has `len` bytes, and `k` bytes are dropped in front of it.
pub open spec fn taken_at(
    rule: spec_fn(Seq<u8>) -> Cut,
    buf: Seq<u8>,
    k: int,
    len: nat,
) -> bool {
    &&& false_starts(rule, buf, k)
    &&& k + len <= buf.len()
    &&& rule(buf.skip(k)) == (Cut::Take { len })
}

/// There is no frame in `buf`: `k` bytes are dropped, and the rest is kept.
pub open spec fn held_at(rule: spec_fn(Seq<u8>) -> Cut, buf: Seq<u8>, k: int) -> bool {
    &&& false_starts(rule, buf, k)
    &&& rule(buf.skip(k)) is Hold
}

/// Resynchronisation: where each of the first `n` positions is a false start, the outcome is that
/// of the stream from position `n` on, with `n` more bytes dropped, and those of them because of a
/// checksum that a checksum was the reason for. So a false start costs one byte and never the
/// frame behind it.
pub proof fn law_false_starts_cost_one_byte(
    rule: spec_fn(Seq<u8>) -> Cut,
    buf: Seq<u8>,
    n: nat,
)
    requires
        false_starts(rule, buf, n as int),
    ensures
        ({
            let whole = cut_stream(rule, buf);
            let after = cut_stream(rule, buf.skip(n as int));
            &&& whole.windows == after.windows
            &&& whole.rest == after.rest
            &&& whole.skipped == n + after.skipped
            &&& whole.failures == failures_before(rule, buf, n) + after.failures
            &&& (forall|j: int|
                0 <= j < n ==> rule(#[trigger] buf.skip(j)) == (Cut::Skip {
                    checksum_failed: false,
                })) ==> whole.failures == after.failures
        }),
    decreases n,
{
    if forall|j: int|
        0 <= j < n ==> rule(#[trigger] buf.skip(j)) == (Cut::Skip { checksum_failed: false }) {
        law_plain_skips_are_no_failures(rule, buf, n);
    }
    if n == 0 {
        assert(buf.skip(0) =~= buf);
    } else {
        law_false_starts_cost_one_byte(rule, buf, (n - 1) as nat);
        assert(rule(buf.skip(n - 1)) is Skip);
        assert(buf.skip(n - 1).skip(1) =~= buf.skip(n as int));
    }
}

/// Where no checksum is the reason for dropping a byte, no checksum failure is counted.
pub proof fn law_plain_skips_are_no_failures(
    rule: spec_fn(Seq<u8>) -> Cut,
    buf: Seq<u8>,
    n: nat,
)
    requires
        forall|j: int|
            0 <= j < n ==> rule(#[trigger] buf.skip(j)) == (Cut::Skip { checksum_failed: false }),
    ensures
        failures_before(rule, buf, n) == 0,
    decreases n,
{
    if n > 0 {
        law_plain_skips_are_no_failures(rule, buf, (n - 1) as nat);
        assert(rule(buf.skip(n - 1)) == (Cut::Skip { checksum_failed: false }));
    }
}

/// The first frame and what lies behind it are the outcome of the whole stream.
pub proof fn lemma_first_frame(rule: spec_fn(Seq<u8>) -> Cut, buf: Seq<u8>, k: int, len: nat)
    requires
        taken_at(rule, buf, k, len),
        len > 0,
    ensures
        ({
            let whole = cut_stream(rule, buf);
            let after = cut_stream(rule, buf.skip(k + len));
            &&& whole.windows == seq![buf.subrange(k, k + len)] + after.windows
            &&& whole.rest == after.rest
            &&& whole.skipped == k + after.skipped
            &&& whole.failures == failures_before(rule, buf, k as nat) + after.failures
        }),
{
    law_false_starts_cost_one_byte(rule, buf, k as nat);
    let at = buf.skip(k);
    assert(at.take(len as int) =~= buf.subrange(k, k + len));
    assert(at.skip(len as int) =~= buf.skip(k + len));
}

/// Where there is no frame, the outcome is what is dropped and what is kept.
pub proof fn lemma_no_frame(rule: spec_fn(Seq<u8>) -> Cut, buf: Seq<u8>, k: int)
    requires
        held_at(rule, buf, k),
    ensures
        ({
            let whole = cut_stream(rule, buf);
            &&& whole.windows == Seq::<Seq<u8>>::empty()
            &&& whole.rest == buf.skip(k)
            &&& whole.skipped == k
            &&& whole.failures == failures_before(rule, buf, k as nat)
        }),
{
    law_false_starts_cost_one_byte(rule, buf, k as nat);
}

/// In every stream, some bytes are dropped first, perhaps none, and behind them a frame is taken or
/// the rest is kept.
pub proof fn law_taken_or_held(rule: spec_fn(Seq<u8>) -> Cut, buf: Seq<u8>)
    requires
        affordable(rule),
    ensures
        (exists|k: int, len: nat| #[trigger] taken_at(rule, buf, k, len)) || (exists|k: int|
            #[trigger] held_at(rule, buf, k)),
{
    lemma_taken_or_held_behind(rule, buf, 0);
}

proof fn lemma_taken_or_held_behind(rule: spec_fn(Seq<u8>) -> Cut, buf: Seq<u8>, k: int)
    requires
        affordable(rule),
        false_starts(rule, buf, k),
    ensures
        (exists|n: int, len: nat| #[trigger] taken_at(rule, buf, n, len)) || (exists|n: int|
            #[trigger] held_at(rule, buf, n)),
    decreases buf.len() - k,
{
    match rule(buf.skip(k)) {
        Cut::Take { len } => {
            assert(taken_at(rule, buf, k, len));
        },
        Cut::Skip { .. } => {
            lemma_taken_or_held_behind(rule, buf, k + 1);
        },
        Cut::Hold => {
            assert(held_at(rule, buf, k));
        },
    }
}

/// The positions at which bytes are dropped, in order, where `buf` begins at position `from`.
pub open spec fn dropped_at(rule: spec_fn(Seq<u8>) -> Cut, buf: Seq<u8>, from: int) -> Seq<int>
    decreases buf.len(),
{
    match rule(buf) {
        Cut::Take { len } => if 0 < len <= buf.len() {
            dropped_at(rule, buf.skip(len as int), from + len)
        } else {
            Seq::empty()
        },
        Cut::Skip { .. } => if buf.len() > 0 {
            seq![from] + dropped_at(rule, buf.skip(1), from + 1)
        } else {
            Seq::empty()
        },
        Cut::Hold => Seq::empty(),
    }
}

/// How many of these positions of `stream` are dropped because of a checksum.
pub open spec fn failures_among(
    rule: spec_fn(Seq<u8>) -> Cut,
    stream: Seq<u8>,
    positions: Seq<int>,
) -> nat
    decreases positions.len(),
{
    if positions.len() == 0 {
        0
    } else {
        failure_count(
            rule(stream.skip(positions[0])) == (Cut::Skip { checksum_failed: true }),
        ) + failures_among(rule, stream, positions.drop_first())
    }
}

/// The counts are counts of positions: as many bytes are dropped as there are positions at which
/// the rule drops one, each position is counted once, and the checksum failures are those of them
/// that a checksum was the reason for.
pub proof fn law_counts_are_positions(
    rule: spec_fn(Seq<u8>) -> Cut,
    stream: Seq<u8>,
    from: int,
)
    requires
        0 <= from <= stream.len(),
    ensures
        ({
            let positions = dropped_at(rule, stream.skip(from), from);
            let cuts = cut_stream(rule, stream.skip(from));
            &&& positions.len() == cuts.skipped
            &&& failures_among(rule, stream, positions) == cuts.failures
            &&& forall|i: int|
                0 <= i < positions.len() ==> from <= #[trigger] positions[i] < stream.len() && rule(
                    stream.skip(positions[i]),
                ) is Skip
            &&& forall|i: int, j: int|
                0 <= i < j < positions.len() ==> positions[i] < positions[j]
        }),
    decreases stream.len() - from,
{
    let buf = stream.skip(from);
    let positions = dropped_at(rule, buf, from);
    match rule(buf) {
        Cut::Take { len } => if 0 < len <= buf.len() {
            assert(buf.skip(len as int) =~= stream.skip(from + len));
            law_counts_are_positions(rule, stream, from + len);
            assert(positions == dropped_at(rule, stream.skip(from + len), from + len));
        },
        Cut::Skip { checksum_failed } => if buf.len() > 0 {
            assert(buf.skip(1) =~= stream.skip(from + 1));
            law_counts_are_positions(rule, stream, from + 1);
            let later = dropped_at(rule, stream.skip(from + 1), from + 1);
            assert(positions == seq![from] + later);
            assert(positions.drop_first() =~= later);
            assert forall|i: int| 0 <= i < positions.len() implies from <= #[trigger] positions[i]
                < stream.len() && rule(stream.skip(positions[i])) is Skip by {
                if i > 0 {
                    assert(positions[i] == later[i - 1]);
                }
            }
            assert forall|i: int, j: int| 0 <= i < j < positions.len() implies positions[i]
                < positions[j] by {
                assert(positions[j] == later[j - 1]);
                if i > 0 {
                    assert(positions[i] == later[i - 1]);
                }
            }
        },
        Cut::Hold => {},
    }
}

/// Where all windows have the same length, their number times that length is what they hold.
pub proof fn lemma_total_of_equal_windows(windows: Seq<Seq<u8>>, len: nat)
    requires
        forall|i: int| 0 <= i < windows.len() ==> (#[trigger] windows[i]).len() == len,
    ensures
        total_len(windows) == windows.len() * len,
    decreases windows.len(),
{
    if windows.len() > 0 {
        lemma_total_of_equal_windows(windows.drop_first(), len);
        let n = windows.len() as int;
        assert(n * len == (n - 1) * len + len) by (nonlinear_arith);
    }
}

/// Frames that follow each other come out one by one, as they are: nothing is dropped between
/// them, and what lies behind them is cut as if it stood alone.
pub proof fn law_frames_in_a_row_come_out(
    rule: spec_fn(Seq<u8>) -> Cut,
    frames: Seq<Seq<u8>>,
    rest: Seq<u8>,
)
    requires
        steady(rule),
        forall|i: int|
            0 <= i < frames.len() ==> rule(#[trigger] frames[i]) == (Cut::Take {
                len: frames[i].len(),
            }),
    ensures
        ({
            let whole = cut_stream(rule, joined(frames) + rest);
            let after = cut_stream(rule, rest);
            &&& whole.windows == frames + after.windows
            &&& whole.rest == after.rest
            &&& whole.skipped == after.skipped
            &&& whole.failures == after.failures
        }),
    decreases frames.len(),
{
    if frames.len() == 0 {
        assert(joined(frames) + rest =~= rest);
        assert(frames + cut_stream(rule, rest).windows =~= cut_stream(rule, rest).windows);
    } else {
        let first = frames[0];
        let others = frames.drop_first();
        let later = joined(others) + rest;
        let stream = joined(frames) + rest;
        assert forall|i: int| 0 <= i < others.len() implies rule(#[trigger] others[i]) == (
        Cut::Take { len: others[i].len() }) by {
            assert(others[i] == frames[i + 1]);
        }
        law_frames_in_a_row_come_out(rule, others, rest);
        assert(stream =~= first + later);
        assert(rule(first + later) == rule(first));
        assert(stream.take(first.len() as int) =~= first);
        assert(stream.skip(first.len() as int) =~= later);
        assert(cut_stream(rule, stream).windows =~= frames + cut_stream(rule, rest).windows);
    }
}

/// Bytes joined are the bytes of each piece, one piece behind the other.
pub proof fn law_joined_piece_by_piece(pieces: Seq<Seq<u8>>, piece: Seq<u8>)
    ensures
        joined(Seq::empty()) == Seq::<u8>::empty(),
        joined(seq![piece] + pieces) == piece + joined(pieces),
{
    assert((seq![piece] + pieces).drop_first() =~= pieces);
}

} // verus!
