//! A connection over which frames come in: what each read brings, and when it is given up.
//!
//! Nothing here reads or writes: the bytes that were received and the time are handed in, and
//! frames, a status and what is worth logging come out. Times are nanoseconds of a clock that does
//! not go back.

use crate::reader::data_collector::ConnectionStatus;
use crate::reader::model::{Decoder, MAX_PENDING};
use crate::reader::stats::DecodeStats;
use crate::reader::types::LidarBody;
use vstd::prelude::*;

verus! {

use crate::reader::data_collector::StatusView;
use crate::reader::framing::{
    Cut, Cuts, cut_stream, law_cut_in_two, law_every_byte_accounted_for, steady, total_len,
};
use crate::reader::types::bodies_view;

/// A connection over which no frame has come for longer than this is given up.
pub const DATA_TIMEOUT_NS: u64 = 1_500_000_000;

/// The length of a reporting interval.
pub const REPORT_INTERVAL_NS: u64 = 1_000_000_000;

/// What one read brought.
pub struct Received {
    /// The frames that are complete with it.
    pub frames: Vec<LidarBody>,
    /// Whether the first of all frames is among them.
    pub became_connected: bool,
    /// Whether its bytes should be dumped.
    pub first_bytes: bool,
    /// Whether its first frame should be logged.
    pub first_frame: bool,
    /// The counts to report, where a reporting interval is over.
    pub report: Option<DecodeStats>,
}

/// How a read ended: with bytes, with none where nothing came in time, or with an error.
pub enum ReadEvent<'a> {
    Bytes(&'a [u8]),
    Failed(&'a str),
}

/// What follows a read.
pub struct LinkRead {
    /// What it brought, if it brought bytes.
    pub received: Option<Received>,
    /// The status to show from now on, if it changes.
    pub status: Option<ConnectionStatus>,
    /// Whether to go on reading; if not, the connection is given up.
    pub go_on: bool,
}

/// The state of a connection beside its decoder.
pub struct LinkView {
    pub stats: DecodeStats,
    pub debug: bool,
    pub connected: bool,
    pub last_frame_at: u64,
    pub last_report: u64,
}

/// The time from `earlier` to `now`; 0 where the clock was read in the other order.
pub open spec fn elapsed_of(earlier: u64, now: u64) -> u64 {
    if now >= earlier {
        (now - earlier) as u64
    } else {
        0
    }
}

/// The time from `earlier` to `now`.
fn elapsed(earlier: u64, now: u64) -> (time: u64)
    ensures
        time == elapsed_of(earlier, now),
{
    if now >= earlier {
        now - earlier
    } else {
        0
    }
}

/// The counts with one more read, which cut the stream like this.
pub open spec fn counted(stats: DecodeStats, read: nat, cuts: Cuts) -> DecodeStats {
    DecodeStats {
        bytes: (stats.bytes + read) as usize,
        ok: (stats.ok + cuts.windows.len()) as usize,
        skipped: (stats.skipped + cuts.skipped) as usize,
        crc_failures: (stats.crc_failures + cuts.failures) as usize,
        logged_first_bytes: true,
        logged_first_frame: stats.logged_first_frame || cuts.windows.len() > 0,
    }
}

/// The counts at the beginning of an interval.
pub open spec fn restarted(stats: DecodeStats) -> DecodeStats {
    DecodeStats { bytes: 0, ok: 0, skipped: 0, crc_failures: 0, ..stats }
}

/// The connection after a read of `read` bytes at the time `now`, which cut the stream like this.
pub open spec fn link_after(link: LinkView, read: nat, cuts: Cuts, now: u64) -> LinkView {
    let stats = if link.debug {
        counted(link.stats, read, cuts)
    } else {
        link.stats
    };
    let due = report_due(link, now);
    LinkView {
        stats: if due {
            restarted(stats)
        } else {
            stats
        },
        debug: link.debug,
        connected: link.connected || cuts.windows.len() > 0,
        last_frame_at: if cuts.windows.len() > 0 {
            now
        } else {
            link.last_frame_at
        },
        last_report: if due {
            now
        } else {
            link.last_report
        },
    }
}

/// A connection just opened.
pub open spec fn fresh_link(debug: bool, now: u64) -> LinkView {
    LinkView {
        stats: DecodeStats {
            bytes: 0,
            ok: 0,
            skipped: 0,
            crc_failures: 0,
            logged_first_bytes: false,
            logged_first_frame: false,
        },
        debug,
        connected: false,
        last_frame_at: now,
        last_report: now,
    }
}

/// What is told of a read, beside its frames: the first frame of all makes the connection
/// connected; the first bytes, the first frame and the counts of an interval are told where
/// debugging is on.
pub open spec fn received_rightly(
    received: Received,
    link: LinkView,
    read: nat,
    cuts: Cuts,
    now: u64,
) -> bool {
    let found = cuts.windows.len() > 0;
    &&& received.became_connected == (found && !link.connected)
    &&& received.first_bytes == (link.debug && !link.stats.logged_first_bytes)
    &&& received.first_frame == (link.debug && found && !link.stats.logged_first_frame)
    &&& received.report == (if report_due(link, now) {
        Some(counted(link.stats, read, cuts))
    } else {
        None
    })
}

/// Whether a reporting interval is over.
pub open spec fn report_due(link: LinkView, now: u64) -> bool {
    link.debug && elapsed_of(link.last_report, now) >= REPORT_INTERVAL_NS
}

/// A connection over which the frames of one sensor come in.
pub struct FrameLink<D: Decoder> {
    decoder: D,
    stats: DecodeStats,
    debug: bool,
    connected: bool,
    last_frame_at: u64,
    last_report: u64,
}

impl<D: Decoder> View for FrameLink<D> {
    type V = LinkView;

    closed spec fn view(&self) -> LinkView {
        LinkView {
            stats: self.stats,
            debug: self.debug,
            connected: self.connected,
            last_frame_at: self.last_frame_at,
            last_report: self.last_report,
        }
    }
}

/// What taking bytes does to a connection, and what it tells of them: the frames that the bytes
/// complete behind those that were kept.
pub open spec fn link_received<D: Decoder>(
    before: FrameLink<D>,
    after: FrameLink<D>,
    bytes: Seq<u8>,
    now: u64,
    received: Received,
) -> bool {
    let codec = before.codec();
    let cuts = cut_stream(codec.rule(), codec.pending() + bytes);
    &&& bodies_view(received.frames@) == cuts.windows.map_values(codec.body_in())
    &&& received_rightly(received, before@, bytes.len(), cuts, now)
    &&& after@ == link_after(before@, bytes.len(), cuts, now)
    &&& after.codec().pending() == cuts.rest
    &&& after.codec().rule() == codec.rule()
    &&& after.codec().body_in() == codec.body_in()
}

/// The status to show after a read that did not fail, if it changes: the connection is given up
/// where no frame has come for too long, and is connected with its first frame.
pub open spec fn status_after(became_connected: bool, timed_out: bool) -> Option<StatusView> {
    if timed_out {
        Some(StatusView::Error("유효 데이터 없음"@))
    } else if became_connected {
        Some(StatusView::Connected)
    } else {
        None
    }
}

/// A status that may be missing, by its contents.
pub open spec fn shown_status(status: Option<ConnectionStatus>) -> Option<StatusView> {
    match status {
        Some(status) => Some(status@),
        None => None,
    }
}

/// The status to show after a read that did not fail, where the watchdog said this.
pub fn status_to_show(became_connected: bool, verdict: Option<ConnectionStatus>) -> (status: Option<
    ConnectionStatus,
>)
    ensures
        shown_status(status) == (if verdict is None && became_connected {
            Some(StatusView::Connected)
        } else {
            shown_status(verdict)
        }),
{
    match verdict {
        Some(status) => Some(status),
        None => if became_connected {
            Some(ConnectionStatus::Connected)
        } else {
            None
        },
    }
}

impl<D: Decoder> FrameLink<D> {
    /// The decoder.
    pub closed spec fn codec(&self) -> D {
        self.decoder
    }

    /// The decoder is ready, and the counts of an interval add up: what was found, dropped and
    /// kept came in during the interval or was kept at its beginning.
    pub open spec fn wf(&self) -> bool {
        &&& self.codec().ready()
        &&& self@.stats.ok + self@.stats.skipped + self.codec().pending().len()
            <= self@.stats.bytes + MAX_PENDING
        &&& self@.stats.crc_failures <= self@.stats.skipped
        &&& !self@.debug ==> self@.stats.bytes == 0 && self@.stats.ok == 0 && self@.stats.skipped
            == 0
    }

    /// Whether the counts have room for `read` more bytes.
    pub open spec fn room_for(&self, read: nat) -> bool {
        self@.stats.bytes + read + MAX_PENDING <= usize::MAX
    }

    /// A connection opened at the time `now`.
    pub fn new(decoder: D, debug: bool, now: u64) -> (link: Self)
        requires
            decoder.ready(),
        ensures
            link.wf(),
            link.codec() == decoder,
            link@ == fresh_link(debug, now),
    {
        proof {
            decoder.lemma_ready();
        }
        FrameLink {
            decoder,
            stats: DecodeStats::default(),
            debug,
            connected: false,
            last_frame_at: now,
            last_report: now,
        }
    }

    /// Whether the counts have room for `read` more bytes.
    pub fn has_room(&self, read: usize) -> (room: bool)
        ensures
            room == self.room_for(read as nat),
    {
        read <= usize::MAX - MAX_PENDING && self.stats.bytes <= usize::MAX - MAX_PENDING - read
    }

    /// Takes the bytes of one read.
    pub fn on_bytes(&mut self, bytes: &[u8], now: u64) -> (received: Received)
        requires
            old(self).wf(),
            old(self).room_for(bytes@.len()),
        ensures
            final(self).wf(),
            link_received(*old(self), *final(self), bytes@, now, received),
    {
        let ghost stream = self.decoder.pending() + bytes@;
        let ghost cuts = cut_stream(self.decoder.rule(), stream);
        proof {
            self.decoder.lemma_ready();
            law_every_byte_accounted_for(self.decoder.rule(), stream);
            lemma_window_count(self.decoder.rule(), stream);
        }
        let first_bytes: bool = self.debug && !self.stats.logged_first_bytes;
        if self.debug {
            self.stats.bytes = self.stats.bytes + bytes.len();
            self.stats.logged_first_bytes = true;
        }
        let frames: Vec<LidarBody> = self.decoder.push_bytes(bytes);
        assert(bodies_view(frames@).len() == cuts.windows.len());
        proof {
            self.decoder.lemma_ready();
        }
        if self.debug {
            self.stats.skipped = self.stats.skipped + self.decoder.last_skipped();
            self.stats.crc_failures = self.stats.crc_failures + self.decoder.last_crc_failures();
        }
        let mut became_connected: bool = false;
        if frames.len() > 0 {
            self.last_frame_at = now;
            if !self.connected {
                self.connected = true;
                became_connected = true;
            }
        }
        let mut first_frame: bool = false;
        if self.debug {
            self.stats.ok = self.stats.ok + frames.len();
            if frames.len() > 0 && !self.stats.logged_first_frame {
                first_frame = true;
                self.stats.logged_first_frame = true;
            }
        }
        let mut report: Option<DecodeStats> = None;
        if self.debug && elapsed(self.last_report, now) >= REPORT_INTERVAL_NS {
            report = Some(self.stats);
            self.stats.reset_interval();
            self.last_report = now;
        }
        Received { frames, became_connected, first_bytes, first_frame, report }
    }

    /// Takes the outcome of one read, and lets the watchdog look.
    pub fn on_read(&mut self, event: ReadEvent, now: u64) -> (read: LinkRead)
        requires
            old(self).wf(),
            event matches ReadEvent::Bytes(bytes) ==> old(self).room_for(bytes@.len()),
        ensures
            final(self).wf(),
            match event {
                ReadEvent::Failed(error) => {
                    &&& *final(self) == *old(self)
                    &&& read.received is None
                    &&& shown_status(read.status) == Some(
                        StatusView::Error("읽기 오류: "@ + error@),
                    )
                    &&& !read.go_on
                },
                ReadEvent::Bytes(bytes) => {
                    &&& bytes@.len() == 0 ==> *final(self) == *old(self) && read.received is None
                    &&& bytes@.len() > 0 ==> read.received is Some && link_received(
                        *old(self),
                        *final(self),
                        bytes@,
                        now,
                        read.received->0,
                    )
                    &&& read.go_on == !timed_out(final(self)@, now)
                    &&& shown_status(read.status) == status_after(
                        read.received is Some && read.received->0.became_connected,
                        timed_out(final(self)@, now),
                    )
                },
            },
    {
        match event {
            ReadEvent::Failed(error) => LinkRead {
                received: None,
                status: Some(read_failed(error)),
                go_on: false,
            },
            ReadEvent::Bytes(bytes) => {
                let received: Option<Received> = if bytes.len() > 0 {
                    Some(self.on_bytes(bytes, now))
                } else {
                    None
                };
                let became_connected: bool = match &received {
                    Some(received) => received.became_connected,
                    None => false,
                };
                let verdict: Option<ConnectionStatus> = self.watchdog(now);
                let go_on: bool = verdict.is_none();
                LinkRead { received, status: status_to_show(became_connected, verdict), go_on }
            },
        }
    }

    /// The watchdog: where no frame has come for too long, the status with which the connection
    /// is given up.
    pub fn watchdog(&self, now: u64) -> (verdict: Option<ConnectionStatus>)
        ensures
            match verdict {
                Some(status) => timed_out(self@, now) && status@ == StatusView::Error(
                    "유효 데이터 없음"@,
                ),
                None => !timed_out(self@, now),
            },
    {
        if elapsed(self.last_frame_at, now) > DATA_TIMEOUT_NS {
            Some(ConnectionStatus::Error(String::from_str("유효 데이터 없음")))
        } else {
            None
        }
    }
}

/// Whether no frame has come for too long.
pub open spec fn timed_out(link: LinkView, now: u64) -> bool {
    elapsed_of(link.last_frame_at, now) > DATA_TIMEOUT_NS
}

/// A live connection is never given up: within the time limit after a read that brought a frame,
/// the watchdog stays quiet.
pub proof fn law_live_link_is_kept(link: LinkView, read: nat, cuts: Cuts, now: u64, later: u64)
    requires
        cuts.windows.len() > 0,
        later <= now + DATA_TIMEOUT_NS,
    ensures
        !timed_out(link_after(link, read, cuts, now), later),
{
}

/// A silent connection is given up: reads without a frame do not put it off.
pub proof fn law_silent_link_is_given_up(
    link: LinkView,
    read: nat,
    cuts: Cuts,
    now: u64,
    later: u64,
)
    requires
        cuts.windows.len() == 0,
        later > link.last_frame_at + DATA_TIMEOUT_NS,
    ensures
        timed_out(link_after(link, read, cuts, now), later),
        link_after(link, read, cuts, now).connected == link.connected,
{
}

/// The status with which a connection is given up after a read failed.
pub fn read_failed(error: &str) -> (status: ConnectionStatus)
    ensures
        status@ == StatusView::Error("읽기 오류: "@ + error@),
{
    let mut reason: String = String::from_str("읽기 오류: ");
    reason.append(error);
    ConnectionStatus::Error(reason)
}

/// There are no more windows than bytes in them.
proof fn lemma_window_count(rule: spec_fn(Seq<u8>) -> Cut, buf: Seq<u8>)
    ensures
        cut_stream(rule, buf).windows.len() <= total_len(cut_stream(rule, buf).windows),
    decreases buf.len(),
{
    match rule(buf) {
        Cut::Take { len } => if 0 < len <= buf.len() {
            let tail = cut_stream(rule, buf.skip(len as int)).windows;
            lemma_window_count(rule, buf.skip(len as int));
            assert((seq![buf.take(len as int)] + tail).drop_first() =~= tail);
        },
        Cut::Skip { .. } => if buf.len() > 0 {
            lemma_window_count(rule, buf.skip(1));
        },
        Cut::Hold => {},
    }
}

/// The watchdog gives a connection up when more than 1.5 seconds have passed since its last frame,
/// and not before; counts are reported, where debugging is on, when a second has passed since the
/// last report, and not before.
pub proof fn law_times_of_a_link(link: LinkView, now: u64)
    ensures
        timed_out(link, now) <==> now - link.last_frame_at > 1_500_000_000,
        report_due(link, now) <==> link.debug && now - link.last_report >= 1_000_000_000,
{
}

/// A connection just opened counts as if a frame and a report had just come, has counted nothing,
/// and is not connected.
pub proof fn law_new_link_has_its_time(debug: bool, now: u64, later: u64)
    ensures
        ({
            let link = fresh_link(debug, now);
            &&& timed_out(link, later) <==> later - now > 1_500_000_000
            &&& report_due(link, later) <==> debug && later - now >= 1_000_000_000
            &&& !link.connected
            &&& link.debug == debug
            &&& link.stats.bytes == 0 && link.stats.ok == 0 && link.stats.skipped == 0
                && link.stats.crc_failures == 0
            &&& !link.stats.logged_first_bytes && !link.stats.logged_first_frame
        }),
{
}

/// What a read does to a connection: with a frame it is connected and its time begins anew, without
/// one neither changes; a report begins a new interval, and nothing else does.
pub proof fn law_read_moves_the_link(link: LinkView, read: nat, cuts: Cuts, now: u64)
    ensures
        ({
            let after = link_after(link, read, cuts, now);
            &&& after.debug == link.debug
            &&& cuts.windows.len() > 0 ==> after.connected && after.last_frame_at == now
            &&& cuts.windows.len() == 0 ==> after.connected == link.connected
                && after.last_frame_at == link.last_frame_at
            &&& link.debug && now - link.last_report >= 1_000_000_000 ==> after.last_report == now
            &&& !(link.debug && now - link.last_report >= 1_000_000_000) ==> after.last_report
                == link.last_report
            &&& !link.debug ==> after.stats == link.stats
            &&& link.debug ==> after.stats.logged_first_bytes
            &&& link.debug && cuts.windows.len() > 0 ==> after.stats.logged_first_frame
            &&& link.stats.logged_first_bytes ==> after.stats.logged_first_bytes
            &&& link.stats.logged_first_frame ==> after.stats.logged_first_frame
            &&& cuts.windows.len() == 0 ==> after.stats.logged_first_frame
                == link.stats.logged_first_frame
        }),
{
}

/// What is told of a read: that the connection is connected now, which was not so before and comes
/// with a frame; the first bytes and the first frame, once each; and the counts, when a second has
/// passed.
pub proof fn law_read_is_told_once(
    received: Received,
    link: LinkView,
    read: nat,
    cuts: Cuts,
    now: u64,
)
    requires
        received_rightly(received, link, read, cuts, now),
    ensures
        ({
            let after = link_after(link, read, cuts, now);
            &&& received.became_connected <==> !link.connected && after.connected
            &&& received.became_connected <==> !link.connected && cuts.windows.len() > 0
            &&& received.first_bytes <==> link.debug && !link.stats.logged_first_bytes
            &&& received.first_bytes ==> after.stats.logged_first_bytes
            &&& received.first_frame <==> link.debug && !link.stats.logged_first_frame
                && cuts.windows.len() > 0
            &&& received.first_frame ==> after.stats.logged_first_frame
            &&& received.report is Some <==> link.debug && now - link.last_report >= 1_000_000_000
        }),
{
}

/// Nothing is left out of the reports and nothing is told twice: what a read adds to the counts is
/// in the report that it makes due or else in the counts at hand, with what was counted before.
/// Every byte that was read, every frame, every dropped byte and every checksum failure counts
/// once.
pub proof fn law_reports_add_up(
    received: Received,
    link: LinkView,
    read: nat,
    cuts: Cuts,
    now: u64,
)
    requires
        received_rightly(received, link, read, cuts, now),
        link.debug,
        link.stats.bytes + read <= usize::MAX,
        link.stats.ok + cuts.windows.len() <= usize::MAX,
        link.stats.skipped + cuts.skipped <= usize::MAX,
        link.stats.crc_failures + cuts.failures <= usize::MAX,
    ensures
        ({
            let after = link_after(link, read, cuts, now).stats;
            let nothing = DecodeStats {
                bytes: 0,
                ok: 0,
                skipped: 0,
                crc_failures: 0,
                logged_first_bytes: false,
                logged_first_frame: false,
            };
            let told = received.report.unwrap_or(nothing);
            &&& told.bytes + after.bytes == link.stats.bytes + read
            &&& told.ok + after.ok == link.stats.ok + cuts.windows.len()
            &&& told.skipped + after.skipped == link.stats.skipped + cuts.skipped
            &&& told.crc_failures + after.crc_failures == link.stats.crc_failures + cuts.failures
            &&& received.report is Some ==> after.bytes == 0 && after.ok == 0 && after.skipped == 0
                && after.crc_failures == 0
            &&& received.report is Some ==> told.logged_first_bytes && told.logged_first_frame == (
            link.stats.logged_first_frame || cuts.windows.len() > 0)
        }),
{
}

/// The status that a read shows: silence for too long is an error, whatever else happened; else
/// the first frame shows the connection as connected, and nothing else changes what is shown.
pub proof fn law_status_of_a_read(became_connected: bool, silent: bool)
    ensures
        silent <==> status_after(became_connected, silent) is Some && status_after(
            became_connected,
            silent,
        )->0 is Error,
        silent ==> status_after(became_connected, silent) == Some(
            StatusView::Error("유효 데이터 없음"@),
        ),
        !silent && became_connected <==> status_after(became_connected, silent) == Some(
            StatusView::Connected,
        ),
        !silent && !became_connected <==> status_after(became_connected, silent) is None,
{
}

/// A status by its contents: none stays none, and each status shows what it is.
pub proof fn law_shown_status(status: ConnectionStatus)
    ensures
        shown_status(None) is None,
        shown_status(Some(status)) == Some(status@),
{
}

/// A connection goes on where it stopped: two reads, one after the other, bring the frames of all
/// their bytes in one stream, behind those that were kept before, and keep what that stream keeps.
pub proof fn law_link_goes_on_where_it_stopped<D: Decoder>(
    before: FrameLink<D>,
    between: FrameLink<D>,
    after: FrameLink<D>,
    a: Seq<u8>,
    b: Seq<u8>,
    times: (u64, u64),
    first: Received,
    second: Received,
)
    requires
        steady(before.codec().rule()),
        link_received(before, between, a, times.0, first),
        link_received(between, after, b, times.1, second),
    ensures
        ({
            let codec = before.codec();
            let whole = cut_stream(codec.rule(), codec.pending() + (a + b));
            &&& bodies_view(first.frames@) + bodies_view(second.frames@)
                == whole.windows.map_values(codec.body_in())
            &&& after.codec().pending() == whole.rest
            &&& !(first.became_connected && second.became_connected)
        }),
{
    let codec = before.codec();
    let stream = codec.pending() + a;
    law_cut_in_two(codec.rule(), stream, b);
    assert(stream + b =~= codec.pending() + (a + b));
    let p = cut_stream(codec.rule(), stream).windows;
    let q = cut_stream(codec.rule(), cut_stream(codec.rule(), stream).rest + b).windows;
    assert((p + q).map_values(codec.body_in()) =~= p.map_values(codec.body_in()) + q.map_values(
        codec.body_in(),
    ));
}

} // verus!
