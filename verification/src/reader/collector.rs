//! The collector: frames in, whole turns out.
//!
//! Bytes of any sensor become frames in a [`FrameLink`], their points become turns in an
//! [`Assembler`], and each complete turn comes out as a numbered [`Scan`].

use crate::reader::assembler::Assembler;
use crate::reader::data_collector::{ConnectionStatus, Scan};
use crate::reader::link::{FrameLink, ReadEvent, Received, read_failed, status_to_show};
use crate::reader::model::{Decoder, MAX_PENDING};
use crate::reader::types::{LidarBody, LidarPoint};
use vstd::prelude::*;

verus! {

use crate::reader::assembler::{
    completed_by, current_after, flat, law_points_in_two, law_turns_are_turns,
    law_turns_hold_every_measurement, lemma_turn_count, passes_zero, turns_of, within_one_turn,
};
use crate::reader::data_collector::{ScanView, StatusView, scans_view};
use crate::reader::framing::{
    Cut, cut_stream, law_cut_in_two, law_every_byte_accounted_for, steady, total_len,
};
use crate::reader::link::{fresh_link, link_received, shown_status, status_after, timed_out};
use crate::reader::types::{BodyView, bodies_view};

/// The points of several frames, in order.
pub open spec fn points_in(bodies: Seq<BodyView>) -> Seq<LidarPoint>
    decreases bodies.len(),
{
    if bodies.len() == 0 {
        Seq::empty()
    } else {
        points_in(bodies.drop_last()) + bodies.last().points
    }
}

/// The points that a stream of bytes holds.
pub open spec fn points_in_stream(
    rule: spec_fn(Seq<u8>) -> Cut,
    body_in: spec_fn(Seq<u8>) -> BodyView,
    stream: Seq<u8>,
) -> Seq<LidarPoint> {
    points_in(cut_stream(rule, stream).windows.map_values(body_in))
}

/// Turns as scans, numbered from `first`.
pub open spec fn numbered(turns: Seq<Seq<LidarPoint>>, first: nat) -> Seq<ScanView> {
    Seq::new(
        turns.len(),
        |i: int| ScanView { points: turns[i], rotation: (first + i) as u64 },
    )
}

/// Makes numbered scans of a stream of points.
pub struct ScanMaker {
    assembler: Assembler,
    rotation: u64,
}

impl ScanMaker {
    /// The points of the turn at hand.
    pub closed spec fn current(&self) -> Seq<LidarPoint> {
        self.assembler.points()
    }

    /// How many scans have come out.
    pub closed spec fn completed(&self) -> nat {
        self.rotation as nat
    }

    pub closed spec fn wf(&self) -> bool {
        self.assembler.wf()
    }

    /// The points at hand are the beginning of one turn.
    pub proof fn lemma_wf(&self)
        requires
            self.wf(),
        ensures
            within_one_turn(self.current()),
            self.completed() <= u64::MAX,
    {
        self.assembler.lemma_wf();
    }

    pub fn new() -> (maker: Self)
        ensures
            maker.wf(),
            maker.current() == Seq::<LidarPoint>::empty(),
            maker.completed() == 0,
    {
        ScanMaker { assembler: Assembler::new(), rotation: 0 }
    }

    /// How many scans have come out.
    pub fn count(&self) -> (count: u64)
        ensures
            count == self.completed(),
    {
        self.rotation
    }

    /// Takes one point. Where it completes a turn, that turn comes out as a scan.
    pub fn ingest(&mut self, point: LidarPoint) -> (scan: Option<Scan>)
        requires
            old(self).wf(),
            old(self).completed() < u64::MAX,
        ensures
            final(self).wf(),
            final(self).current() == current_after(old(self).current(), point),
            match scan {
                Some(scan) => {
                    &&& completed_by(old(self).current(), point) == Some(scan@.points)
                    &&& scan@.rotation == old(self).completed()
                    &&& final(self).completed() == old(self).completed() + 1
                },
                None => {
                    &&& completed_by(old(self).current(), point) is None
                    &&& final(self).completed() == old(self).completed()
                },
            },
    {
        match self.assembler.ingest(point) {
            Some(points) => {
                let scan = Scan { points, rotation: self.rotation };
                self.rotation = self.rotation + 1;
                Some(scan)
            },
            None => None,
        }
    }

    /// Takes the points of one frame and appends the scans that they complete.
    fn ingest_all(&mut self, points: &Vec<LidarPoint>, scans: &mut Vec<Scan>)
        requires
            old(self).wf(),
            old(self).completed() + points@.len() <= u64::MAX,
        ensures
            final(self).wf(),
            ({
                let turns = turns_of(old(self).current(), points@);
                &&& final(self).current() == turns.current
                &&& final(self).completed() == old(self).completed() + turns.complete.len()
                &&& scans_view(final(scans)@) == scans_view(old(scans)@) + numbered(
                    turns.complete,
                    old(self).completed(),
                )
            }),
    {
        let ghost start = self.current();
        let ghost first = self.completed();
        let ghost earlier = scans_view(scans@);
        let mut i: usize = 0;
        assert(points@.take(0) =~= Seq::<LidarPoint>::empty());
        assert(earlier + numbered(turns_of(start, points@.take(0)).complete, first) =~= earlier);
        while i < points.len()
            invariant
                i <= points@.len(),
                first + points@.len() <= u64::MAX,
                self.wf(),
                self.current() == turns_of(start, points@.take(i as int)).current,
                self.completed() == first + turns_of(start, points@.take(i as int)).complete.len(),
                scans_view(scans@) == earlier + numbered(
                    turns_of(start, points@.take(i as int)).complete,
                    first,
                ),
            decreases points@.len() - i,
        {
            let ghost so_far = points@.take(i as int);
            let ghost with_next = points@.take(i + 1);
            let ghost scans_before = scans@;
            proof {
                assert(with_next.drop_last() =~= so_far);
                assert(with_next.last() == points@[i as int]);
                lemma_turn_count(start, so_far);
            }
            match self.ingest(points[i]) {
                Some(scan) => {
                    scans.push(scan);
                    assert(scans_view(scans@) =~= scans_view(scans_before).push(scan@));
                },
                None => {},
            }
            i = i + 1;
            assert(scans_view(scans@) =~= earlier + numbered(
                turns_of(start, with_next).complete,
                first,
            ));
        }
        assert(points@.take(i as int) =~= points@);
    }

    /// Takes the points of several frames.
    fn ingest_frames(&mut self, frames: &Vec<LidarBody>) -> (scans: Vec<Scan>)
        requires
            old(self).wf(),
            old(self).completed() + points_in(bodies_view(frames@)).len() <= u64::MAX,
        ensures
            final(self).wf(),
            ({
                let turns = turns_of(old(self).current(), points_in(bodies_view(frames@)));
                &&& final(self).current() == turns.current
                &&& final(self).completed() == old(self).completed() + turns.complete.len()
                &&& scans_view(scans@) == numbered(turns.complete, old(self).completed())
            }),
    {
        let ghost start = self.current();
        let ghost first = self.completed();
        let ghost bodies = bodies_view(frames@);
        let mut scans: Vec<Scan> = Vec::new();
        let mut i: usize = 0;
        assert(bodies.take(0) =~= Seq::<BodyView>::empty());
        assert(scans_view(scans@) =~= numbered(
            turns_of(start, points_in(bodies.take(0))).complete,
            first,
        ));
        while i < frames.len()
            invariant
                i <= frames@.len(),
                bodies == bodies_view(frames@),
                first + points_in(bodies).len() <= u64::MAX,
                self.wf(),
                ({
                    let turns = turns_of(start, points_in(bodies.take(i as int)));
                    &&& self.current() == turns.current
                    &&& self.completed() == first + turns.complete.len()
                    &&& scans_view(scans@) == numbered(turns.complete, first)
                }),
            decreases frames@.len() - i,
        {
            let ghost so_far = points_in(bodies.take(i as int));
            let ghost body = bodies[i as int];
            proof {
                assert(bodies.take(i + 1).drop_last() =~= bodies.take(i as int));
                lemma_turn_count(start, so_far);
                lemma_beginning_is_shorter(bodies, i + 1);
                law_points_in_two(start, so_far, body.points);
                assert(body.points == frames@[i as int].points@);
            }
            let ghost earlier = turns_of(start, so_far);
            self.ingest_all(&frames[i].points, &mut scans);
            i = i + 1;
            assert(scans_view(scans@) =~= numbered(
                turns_of(start, points_in(bodies.take(i as int))).complete,
                first,
            ));
        }
        assert(bodies.take(i as int) =~= bodies);
        scans
    }
}

/// The first frames have no more points than all.
proof fn lemma_beginning_is_shorter(bodies: Seq<BodyView>, n: int)
    requires
        0 <= n <= bodies.len(),
    ensures
        points_in(bodies.take(n)).len() <= points_in(bodies).len(),
    decreases bodies.len() - n,
{
    if n == bodies.len() {
        assert(bodies.take(n) =~= bodies);
    } else {
        lemma_beginning_is_shorter(bodies, n + 1);
        assert(bodies.take(n + 1).drop_last() =~= bodies.take(n));
    }
}

/// What one read brought.
pub struct Collected {
    pub received: Received,
    /// The turns that are complete with it.
    pub scans: Vec<Scan>,
}

/// What follows a read.
pub struct CollectorRead {
    /// What it brought, if it brought bytes.
    pub collected: Option<Collected>,
    /// The status to show from now on, if it changes.
    pub status: Option<ConnectionStatus>,
    /// Whether to go on reading; if not, the connection is given up.
    pub go_on: bool,
}

/// What taking bytes does to a collector, and what comes out: the scans of the turns that the
/// bytes complete, numbered on.
pub open spec fn collector_received<D: Decoder>(
    before: Collector<D>,
    after: Collector<D>,
    bytes: Seq<u8>,
    now: u64,
    collected: Collected,
) -> bool {
    let codec = before.connection().codec();
    let turns = turns_of(
        before.current(),
        points_in_stream(codec.rule(), codec.body_in(), codec.pending() + bytes),
    );
    &&& link_received(before.connection(), after.connection(), bytes, now, collected.received)
    &&& scans_view(collected.scans@) == numbered(turns.complete, before.completed())
    &&& after.current() == turns.current
    &&& after.completed() == before.completed() + turns.complete.len()
}

/// Makes scans of the bytes of one sensor.
pub struct Collector<D: Decoder> {
    link: FrameLink<D>,
    maker: ScanMaker,
}

impl<D: Decoder> Collector<D> {
    /// The connection.
    pub closed spec fn connection(&self) -> FrameLink<D> {
        self.link
    }

    /// The points of the turn at hand.
    pub closed spec fn current(&self) -> Seq<LidarPoint> {
        self.maker.current()
    }

    /// How many turns have come out.
    pub closed spec fn completed(&self) -> nat {
        self.maker.completed()
    }

    pub closed spec fn wf(&self) -> bool {
        self.link.wf() && self.maker.wf()
    }

    /// Whether the counts have room for `read` more bytes.
    pub open spec fn room_for(&self, read: nat) -> bool {
        &&& self.connection().room_for(read)
        &&& self.completed() + read + MAX_PENDING <= u64::MAX
    }

    /// The connection is in order, and the points at hand are the beginning of one turn.
    pub proof fn lemma_wf(&self)
        requires
            self.wf(),
        ensures
            self.connection().wf(),
            within_one_turn(self.current()),
    {
        self.maker.lemma_wf();
    }

    /// A collector on a connection opened at the time `now`.
    pub fn new(decoder: D, debug: bool, now: u64) -> (collector: Self)
        requires
            decoder.ready(),
        ensures
            collector.wf(),
            collector.connection().codec() == decoder,
            collector.connection()@ == fresh_link(debug, now),
            collector.current() == Seq::<LidarPoint>::empty(),
            collector.completed() == 0,
    {
        Collector { link: FrameLink::new(decoder, debug, now), maker: ScanMaker::new() }
    }

    /// Whether the counts have room for `read` more bytes.
    pub fn has_room(&self, read: usize) -> (room: bool)
        ensures
            room == self.room_for(read as nat),
    {
        let count: u64 = self.maker.count();
        self.link.has_room(read) && count <= u64::MAX - MAX_PENDING as u64 && read as u64
            <= u64::MAX - MAX_PENDING as u64 - count
    }

    /// Takes the bytes of one read.
    pub fn on_bytes(&mut self, bytes: &[u8], now: u64) -> (collected: Collected)
        requires
            old(self).wf(),
            old(self).room_for(bytes@.len()),
        ensures
            final(self).wf(),
            collector_received(*old(self), *final(self), bytes@, now, collected),
    {
        let ghost codec = self.link.codec();
        let ghost stream = codec.pending() + bytes@;
        let ghost windows = cut_stream(codec.rule(), stream).windows;
        proof {
            codec.lemma_ready();
            codec.lemma_points_fit(stream);
            law_every_byte_accounted_for(codec.rule(), stream);
            lemma_points_fit_windows(windows, codec.body_in());
        }
        let received: Received = self.link.on_bytes(bytes, now);
        let scans: Vec<Scan> = self.maker.ingest_frames(&received.frames);
        Collected { received, scans }
    }

    /// Takes the outcome of one read, and lets the watchdog look.
    pub fn on_read(&mut self, event: ReadEvent, now: u64) -> (read: CollectorRead)
        requires
            old(self).wf(),
            event matches ReadEvent::Bytes(bytes) ==> old(self).room_for(bytes@.len()),
        ensures
            final(self).wf(),
            match event {
                ReadEvent::Failed(error) => {
                    &&& *final(self) == *old(self)
                    &&& read.collected is None
                    &&& shown_status(read.status) == Some(
                        StatusView::Error("읽기 오류: "@ + error@),
                    )
                    &&& !read.go_on
                },
                ReadEvent::Bytes(bytes) => {
                    let silent = timed_out(final(self).connection()@, now);
                    &&& bytes@.len() == 0 ==> *final(self) == *old(self) && read.collected is None
                    &&& bytes@.len() > 0 ==> read.collected is Some && collector_received(
                        *old(self),
                        *final(self),
                        bytes@,
                        now,
                        read.collected->0,
                    )
                    &&& read.go_on == !silent
                    &&& shown_status(read.status) == status_after(
                        read.collected is Some && read.collected->0.received.became_connected,
                        silent,
                    )
                },
            },
    {
        match event {
            ReadEvent::Failed(error) => CollectorRead {
                collected: None,
                status: Some(read_failed(error)),
                go_on: false,
            },
            ReadEvent::Bytes(bytes) => {
                let collected: Option<Collected> = if bytes.len() > 0 {
                    Some(self.on_bytes(bytes, now))
                } else {
                    None
                };
                let became_connected: bool = match &collected {
                    Some(collected) => collected.received.became_connected,
                    None => false,
                };
                let verdict: Option<ConnectionStatus> = self.watchdog(now);
                let go_on: bool = verdict.is_none();
                CollectorRead {
                    collected,
                    status: status_to_show(became_connected, verdict),
                    go_on,
                }
            },
        }
    }

    /// The watchdog of the connection: where no frame has come for too long, the status with
    /// which it is given up.
    pub fn watchdog(&self, now: u64) -> (verdict: Option<ConnectionStatus>)
        ensures
            match verdict {
                Some(status) => timed_out(self.connection()@, now) && status@ == StatusView::Error(
                    "유효 데이터 없음"@,
                ),
                None => !timed_out(self.connection()@, now),
            },
    {
        self.link.watchdog(now)
    }
}

/// Windows with no more points than bytes have, all together, no more points than bytes.
proof fn lemma_points_fit_windows(
    windows: Seq<Seq<u8>>,
    body_in: spec_fn(Seq<u8>) -> BodyView,
)
    requires
        forall|i: int|
            0 <= i < windows.len() ==> body_in(#[trigger] windows[i]).points.len()
                <= windows[i].len(),
    ensures
        points_in(windows.map_values(body_in)).len() <= total_len(windows),
    decreases windows.len(),
{
    if windows.len() > 0 {
        let most = windows.drop_last();
        assert(windows.map_values(body_in).drop_last() =~= most.map_values(body_in));
        lemma_points_fit_windows(most, body_in);
        assert(most.push(windows.last()) =~= windows);
        lemma_total_len_of_push(most, windows.last());
    }
}

proof fn lemma_total_len_of_push(windows: Seq<Seq<u8>>, window: Seq<u8>)
    ensures
        total_len(windows.push(window)) == total_len(windows) + window.len(),
    decreases windows.len(),
{
    if windows.len() == 0 {
        assert(windows.push(window).drop_first() =~= Seq::<Seq<u8>>::empty());
        assert(total_len(Seq::<Seq<u8>>::empty()) == 0);
    } else {
        assert(windows.push(window).drop_first() =~= windows.drop_first().push(window));
        lemma_total_len_of_push(windows.drop_first(), window);
    }
}

/// Points of several frames, in two parts.
proof fn lemma_points_of_two(a: Seq<BodyView>, b: Seq<BodyView>)
    ensures
        points_in(a + b) == points_in(a) + points_in(b),
    decreases b.len(),
{
    if b.len() == 0 {
        assert(a + b =~= a);
        assert(points_in(a) + points_in(b) =~= points_in(a));
    } else {
        assert((a + b).drop_last() =~= a + b.drop_last());
        lemma_points_of_two(a, b.drop_last());
        assert(points_in(a + b) =~= points_in(a) + points_in(b));
    }
}

/// From bytes to scans, the way the bytes arrive does not matter: the scans of `a`, and then of
/// `b`, are the scans of `a` followed by `b`, and so are the points and bytes at hand.
pub proof fn law_scans_do_not_depend_on_reads(
    rule: spec_fn(Seq<u8>) -> Cut,
    body_in: spec_fn(Seq<u8>) -> BodyView,
    current: Seq<LidarPoint>,
    a: Seq<u8>,
    b: Seq<u8>,
    first: nat,
)
    requires
        steady(rule),
    ensures
        ({
            let rest = cut_stream(rule, a).rest;
            let one = turns_of(current, points_in_stream(rule, body_in, a));
            let two = turns_of(one.current, points_in_stream(rule, body_in, rest + b));
            let whole = turns_of(current, points_in_stream(rule, body_in, a + b));
            &&& numbered(whole.complete, first) == numbered(one.complete, first) + numbered(
                two.complete,
                first + one.complete.len(),
            )
            &&& whole.current == two.current
            &&& cut_stream(rule, a + b).rest == cut_stream(rule, rest + b).rest
        }),
{
    let rest = cut_stream(rule, a).rest;
    let p = cut_stream(rule, a).windows;
    let q = cut_stream(rule, rest + b).windows;
    law_cut_in_two(rule, a, b);
    assert((p + q).map_values(body_in) =~= p.map_values(body_in) + q.map_values(body_in));
    lemma_points_of_two(p.map_values(body_in), q.map_values(body_in));
    let x = points_in_stream(rule, body_in, a);
    let y = points_in_stream(rule, body_in, rest + b);
    law_points_in_two(current, x, y);
    let one = turns_of(current, x);
    let two = turns_of(one.current, y);
    assert(numbered(one.complete + two.complete, first) =~= numbered(one.complete, first)
        + numbered(two.complete, first + one.complete.len()));
}

/// Scans are numbered one after the other, and each is one turn: it has measurements, none of
/// them passes 0°.
pub proof fn law_scans_are_turns(
    current: Seq<LidarPoint>,
    points: Seq<LidarPoint>,
    first: nat,
    i: int,
)
    requires
        within_one_turn(current),
        0 <= i < turns_of(current, points).complete.len(),
        first + i <= u64::MAX,
    ensures
        ({
            let scan = numbered(turns_of(current, points).complete, first)[i];
            &&& scan.rotation == first + i
            &&& scan.points.len() > 0
            &&& within_one_turn(scan.points)
        }),
{
    law_turns_are_turns(current, points);
    let turn = turns_of(current, points).complete[i];
    assert(turn.len() > 0 && within_one_turn(turn));
}

/// The points of frames are those of each frame, one frame behind the other.
pub proof fn law_points_frame_by_frame(bodies: Seq<BodyView>, body: BodyView)
    ensures
        points_in(Seq::empty()) == Seq::<LidarPoint>::empty(),
        points_in(bodies.push(body)) == points_in(bodies) + body.points,
{
    assert(bodies.push(body).drop_last() =~= bodies);
}

/// The scans of turns have the points of those turns, in order, and are numbered one after the
/// other.
pub proof fn law_scans_are_numbered(turns: Seq<Seq<LidarPoint>>, first: nat, i: int)
    requires
        0 <= i < turns.len(),
        first + turns.len() <= u64::MAX,
    ensures
        numbered(turns, first).len() == turns.len(),
        numbered(turns, first)[i].points == turns[i],
        numbered(turns, first)[i].rotation == first + i,
        i > 0 ==> numbered(turns, first)[i].rotation == numbered(turns, first)[i - 1].rotation + 1,
{
}

/// The points of scans, one scan behind the other.
pub open spec fn points_of_scans(scans: Seq<ScanView>) -> Seq<LidarPoint>
    decreases scans.len(),
{
    if scans.len() == 0 {
        Seq::empty()
    } else {
        points_of_scans(scans.drop_last()) + scans.last().points
    }
}

proof fn lemma_points_of_numbered(turns: Seq<Seq<LidarPoint>>, first: nat)
    ensures
        points_of_scans(numbered(turns, first)) == flat(turns),
    decreases turns.len(),
{
    if turns.len() > 0 {
        lemma_points_of_numbered(turns.drop_last(), first);
        assert(numbered(turns, first).drop_last() =~= numbered(turns.drop_last(), first));
    }
}

/// No measurement gets lost between the bytes and the scans: what was at hand, followed by every
/// point above distance 0 of the frames that came in, its angle within one turn, is the scans that
/// came out, followed by what is now at hand. The scans are numbered on from those before.
pub proof fn law_scans_hold_every_measurement<D: Decoder>(
    before: Collector<D>,
    after: Collector<D>,
    bytes: Seq<u8>,
    now: u64,
    collected: Collected,
)
    requires
        collector_received(before, after, bytes, now, collected),
    ensures
        points_of_scans(scans_view(collected.scans@)) + after.current() == before.current()
            + points_in(bodies_view(collected.received.frames@)).filter(
            |point: LidarPoint| point.distance_mm > 0,
        ).map_values(
            |point: LidarPoint|
                LidarPoint {
                    angle_ticks: (point.angle_ticks % 3_960_000) as u64,
                    distance_mm: point.distance_mm,
                    intensity: point.intensity,
                },
        ),
        after.completed() == before.completed() + collected.scans@.len(),
        after.completed() <= u64::MAX ==> forall|i: int|
            0 <= i < collected.scans@.len() ==> (#[trigger] collected.scans@[i]).rotation
                == before.completed() + i,
{
    let codec = before.connection().codec();
    let points = points_in_stream(codec.rule(), codec.body_in(), codec.pending() + bytes);
    let turns = turns_of(before.current(), points);
    law_turns_hold_every_measurement(before.current(), points);
    lemma_points_of_numbered(turns.complete, before.completed());
    assert(scans_view(collected.scans@).len() == collected.scans@.len());
    assert forall|i: int|
        after.completed() <= u64::MAX && 0 <= i < collected.scans@.len() implies (
    #[trigger] collected.scans@[i]).rotation == before.completed() + i by {
        assert(scans_view(collected.scans@)[i] == collected.scans@[i]@);
    }
}

/// No scan passes 0°: in the scans that come out of a collector that was in order, and in the
/// points then at hand, the angle never falls by more than half a turn, which is 1,980,000 ticks.
pub proof fn law_no_scan_passes_zero<D: Decoder>(
    before: Collector<D>,
    after: Collector<D>,
    bytes: Seq<u8>,
    now: u64,
    collected: Collected,
    i: int,
    k: int,
)
    requires
        before.wf(),
        collector_received(before, after, bytes, now, collected),
    ensures
        0 <= i < collected.scans@.len() ==> 0 < collected.scans@[i].points@.len() <= 20_000,
        0 <= i < collected.scans@.len() && 0 <= k && k + 1 < collected.scans@[i].points@.len() ==>
            collected.scans@[i].points@[k].angle_ticks - collected.scans@[i].points@[k
            + 1].angle_ticks <= 1_980_000,
        after.current().len() <= 20_000,
        0 <= k && k + 1 < after.current().len() ==> after.current()[k].angle_ticks
            - after.current()[k + 1].angle_ticks <= 1_980_000,
{
    let codec = before.connection().codec();
    let points = points_in_stream(codec.rule(), codec.body_in(), codec.pending() + bytes);
    let turns = turns_of(before.current(), points);
    before.lemma_wf();
    law_turns_are_turns(before.current(), points);
    assert(scans_view(collected.scans@).len() == collected.scans@.len());
    if 0 <= i < collected.scans@.len() {
        let turn = turns.complete[i];
        assert(turn.len() > 0 && within_one_turn(turn));
        assert(scans_view(collected.scans@)[i] == collected.scans@[i]@);
        assert(collected.scans@[i].points@ == turn);
        if 0 <= k && k + 1 < turn.len() {
            let next = turn[k + 1];
            assert(!passes_zero(turn[k].angle_ticks, next.angle_ticks));
        }
    }
    let current = after.current();
    if 0 <= k && k + 1 < current.len() {
        let next = current[k + 1];
        assert(!passes_zero(current[k].angle_ticks, next.angle_ticks));
    }
}

/// There is room for a read as long as the counts of the interval, and the number of scans, stay
/// within their types with the read and 7,530 bytes more.
pub proof fn law_room_for_a_read<D: Decoder>(collector: Collector<D>, read: nat)
    ensures
        collector.room_for(read) <==> collector.connection()@.stats.bytes + read + 7_530
            <= usize::MAX && collector.completed() + read + 7_530 <= u64::MAX,
{
}

/// A collector goes on where it stopped: two reads, one after the other, bring the scans of all
/// their bytes in one stream, numbered on, and leave the same points at hand.
pub proof fn law_collector_goes_on_where_it_stopped<D: Decoder>(
    before: Collector<D>,
    between: Collector<D>,
    after: Collector<D>,
    a: Seq<u8>,
    b: Seq<u8>,
    times: (u64, u64),
    first: Collected,
    second: Collected,
)
    requires
        steady(before.connection().codec().rule()),
        collector_received(before, between, a, times.0, first),
        collector_received(between, after, b, times.1, second),
    ensures
        ({
            let codec = before.connection().codec();
            let turns = turns_of(
                before.current(),
                points_in_stream(codec.rule(), codec.body_in(), codec.pending() + (a + b)),
            );
            &&& scans_view(first.scans@) + scans_view(second.scans@) == numbered(
                turns.complete,
                before.completed(),
            )
            &&& after.current() == turns.current
            &&& after.completed() == before.completed() + turns.complete.len()
        }),
{
    let codec = before.connection().codec();
    let stream = codec.pending() + a;
    assert(stream + b =~= codec.pending() + (a + b));
    law_scans_do_not_depend_on_reads(
        codec.rule(),
        codec.body_in(),
        before.current(),
        stream,
        b,
        before.completed(),
    );
    let turns = turns_of(
        before.current(),
        points_in_stream(codec.rule(), codec.body_in(), stream + b),
    );
    let one = turns_of(before.current(), points_in_stream(codec.rule(), codec.body_in(), stream));
    let rest = cut_stream(codec.rule(), stream).rest;
    let two = turns_of(one.current, points_in_stream(codec.rule(), codec.body_in(), rest + b));
    assert(numbered(turns.complete, before.completed()).len() == one.complete.len()
        + two.complete.len());
}

} // verus!
