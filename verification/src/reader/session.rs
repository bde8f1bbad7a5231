//! The life of a connection: open, read until it fails, wait, open again.
//!
//! A [`Session`] says what to do next; whoever runs it does it and tells the outcome. A failure
//! is shown as a failure, and the sensor is tried again as long as the session is wanted. It is
//! never replaced by made-up data.

use crate::reader::data_collector::ConnectionStatus;
use crate::text::push_decimal;
use vstd::prelude::*;

verus! {

use crate::reader::data_collector::StatusView;
use crate::text::decimal_of;

/// Milliseconds from a failure to the next try.
pub const RETRY_DELAY_MS: u64 = 1_000;

/// Milliseconds that a serial adapter is given after it was opened.
pub const OPEN_SETTLE_MS: u64 = 120;

/// Milliseconds of one nap while waiting, so that a request to stop is noticed soon.
pub const NAP_MS: u64 = 50;

/// Where a connection stands.
#[derive(Debug, Clone, Copy, PartialEq, Eq, Structural)]
pub enum Phase {
    /// Being opened.
    Opening,
    /// Open, and given time.
    Settling,
    /// Being read.
    Reading,
    /// Failed; so many milliseconds of the delay are over.
    Waiting { slept: u64 },
    /// Not wanted any more.
    Ended,
}

/// What to do next.
#[derive(Debug, Clone, Copy, PartialEq, Eq, Structural)]
pub enum Action {
    /// Open the connection, and tell whether that worked.
    Open,
    /// Wait, drop what has come in, and tell when done.
    Settle { millis: u64 },
    /// Read until it fails or the session is not wanted any more, and tell when done.
    Read,
    /// Sleep, and tell when done.
    Nap { millis: u64 },
    /// Nothing more.
    End,
}

/// What to do next, and the status to show from now on, if it changes.
pub struct Step {
    pub status: Option<ConnectionStatus>,
    pub action: Action,
}

/// The contents of a [`Step`].
pub struct StepView {
    pub status: Option<StatusView>,
    pub action: Action,
}

impl View for Step {
    type V = StepView;

    open spec fn view(&self) -> StepView {
        StepView {
            status: match self.status {
                Some(status) => Some(status@),
                None => None,
            },
            action: self.action,
        }
    }
}

/// The kind of a connection: whether it needs time after it was opened, and how long a nap is.
#[derive(Debug, Clone, Copy, PartialEq, Eq, Structural)]
pub struct Manner {
    pub settle: Option<u64>,
    pub nap: u64,
}

/// What follows where the session begins, or where its delay is over.
pub open spec fn begin_of(running: bool) -> (Phase, StepView) {
    if running {
        (
            Phase::Opening,
            StepView { status: Some(StatusView::Connecting), action: Action::Open },
        )
    } else {
        (Phase::Ended, StepView { status: None, action: Action::End })
    }
}

/// What follows where `slept` milliseconds of the delay are over.
pub open spec fn wait_of(manner: Manner, slept: u64, running: bool) -> (Phase, StepView) {
    if running && slept < RETRY_DELAY_MS {
        (
            Phase::Waiting { slept },
            StepView { status: None, action: Action::Nap { millis: manner.nap } },
        )
    } else {
        begin_of(running)
    }
}

/// What happened to a connection.
pub enum Outcome {
    Opened,
    OpenFailed { reason: Seq<char> },
    Settled,
    ReadEnded,
    Slept,
}

/// Whether this can happen in this phase.
pub open spec fn possible(phase: Phase, outcome: Outcome) -> bool {
    match outcome {
        Outcome::Opened => phase is Opening,
        Outcome::OpenFailed { .. } => phase is Opening,
        Outcome::Settled => phase is Settling,
        Outcome::ReadEnded => phase is Reading,
        Outcome::Slept => phase is Waiting,
    }
}

/// What follows in a phase when something happens, while the session is wanted or not. An open
/// connection is read in any case; reading then ends at once where it is not wanted.
pub open spec fn step_of(manner: Manner, phase: Phase, outcome: Outcome, running: bool) -> (
    Phase,
    StepView,
) {
    match outcome {
        Outcome::Opened => match manner.settle {
            Some(millis) => (
                Phase::Settling,
                StepView { status: None, action: Action::Settle { millis } },
            ),
            None => (
                Phase::Reading,
                StepView { status: Some(StatusView::Connecting), action: Action::Read },
            ),
        },
        Outcome::OpenFailed { reason } => {
            let next = wait_of(manner, 0, running);
            (
                next.0,
                StepView { status: Some(StatusView::Error(reason)), action: next.1.action },
            )
        },
        Outcome::Settled => (
            Phase::Reading,
            StepView { status: Some(StatusView::Connecting), action: Action::Read },
        ),
        Outcome::ReadEnded => wait_of(manner, 0, running),
        Outcome::Slept => wait_of(manner, (phase->slept + manner.nap) as u64, running),
    }
}

/// The life of one connection.
pub struct Session {
    manner: Manner,
    phase: Phase,
}

impl Session {
    /// The kind of connection.
    pub closed spec fn way(&self) -> Manner {
        self.manner
    }

    /// Where it stands.
    pub closed spec fn at(&self) -> Phase {
        self.phase
    }

    /// A nap takes time, and the delay is over after finitely many.
    pub closed spec fn wf(&self) -> bool {
        &&& 0 < self.manner.nap <= RETRY_DELAY_MS
        &&& self.phase matches Phase::Waiting { slept } ==> slept < RETRY_DELAY_MS
    }

    /// Begins a connection of this kind.
    pub fn begin(manner: Manner, running: bool) -> (begun: (Self, Step))
        requires
            0 < manner.nap <= RETRY_DELAY_MS,
        ensures
            begun.0.wf(),
            begun.0.way() == manner,
            (begun.0.at(), begun.1@) == begin_of(running),
    {
        if running {
            (
                Session { manner, phase: Phase::Opening },
                Step { status: Some(ConnectionStatus::Connecting), action: Action::Open },
            )
        } else {
            (
                Session { manner, phase: Phase::Ended },
                Step { status: None, action: Action::End },
            )
        }
    }

    /// Goes on waiting, or opens again.
    fn wait(&mut self, slept: u64, running: bool) -> (step: Step)
        requires
            old(self).wf(),
        ensures
            final(self).wf(),
            final(self).way() == old(self).way(),
            (final(self).at(), step@) == wait_of(old(self).way(), slept, running),
    {
        if running && slept < RETRY_DELAY_MS {
            self.phase = Phase::Waiting { slept };
            Step { status: None, action: Action::Nap { millis: self.manner.nap } }
        } else if running {
            self.phase = Phase::Opening;
            Step { status: Some(ConnectionStatus::Connecting), action: Action::Open }
        } else {
            self.phase = Phase::Ended;
            Step { status: None, action: Action::End }
        }
    }

    /// The connection is open.
    pub fn opened(&mut self) -> (step: Step)
        requires
            old(self).wf(),
            possible(old(self).at(), Outcome::Opened),
        ensures
            final(self).wf(),
            final(self).way() == old(self).way(),
            (final(self).at(), step@) == step_of(
                old(self).way(),
                old(self).at(),
                Outcome::Opened,
                true,
            ),
    {
        match self.manner.settle {
            Some(millis) => {
                self.phase = Phase::Settling;
                Step { status: None, action: Action::Settle { millis } }
            },
            None => {
                self.phase = Phase::Reading;
                Step { status: Some(ConnectionStatus::Connecting), action: Action::Read }
            },
        }
    }

    /// The connection could not be opened.
    pub fn open_failed(&mut self, reason: String, running: bool) -> (step: Step)
        requires
            old(self).wf(),
            possible(old(self).at(), Outcome::OpenFailed { reason: reason@ }),
        ensures
            final(self).wf(),
            final(self).way() == old(self).way(),
            (final(self).at(), step@) == step_of(
                old(self).way(),
                old(self).at(),
                Outcome::OpenFailed { reason: reason@ },
                running,
            ),
            step@.status == Some(StatusView::Error(reason@)),
            running ==> final(self).at() == (Phase::Waiting { slept: 0 }) && step.action == (
            Action::Nap { millis: old(self).way().nap }),
            !running ==> final(self).at() is Ended && step.action is End,
    {
        let next: Step = self.wait(0, running);
        Step { status: Some(ConnectionStatus::Error(reason)), action: next.action }
    }

    /// The adapter has had its time.
    pub fn settled(&mut self) -> (step: Step)
        requires
            old(self).wf(),
            possible(old(self).at(), Outcome::Settled),
        ensures
            final(self).wf(),
            final(self).way() == old(self).way(),
            (final(self).at(), step@) == step_of(
                old(self).way(),
                old(self).at(),
                Outcome::Settled,
                true,
            ),
    {
        self.phase = Phase::Reading;
        Step { status: Some(ConnectionStatus::Connecting), action: Action::Read }
    }

    /// Reading came to an end.
    pub fn read_ended(&mut self, running: bool) -> (step: Step)
        requires
            old(self).wf(),
            possible(old(self).at(), Outcome::ReadEnded),
        ensures
            final(self).wf(),
            final(self).way() == old(self).way(),
            (final(self).at(), step@) == step_of(
                old(self).way(),
                old(self).at(),
                Outcome::ReadEnded,
                running,
            ),
            step.status is None,
            running ==> final(self).at() == (Phase::Waiting { slept: 0 }) && step.action == (
            Action::Nap { millis: old(self).way().nap }),
            !running ==> final(self).at() is Ended && step.action is End,
    {
        self.wait(0, running)
    }

    /// A nap is over.
    pub fn slept(&mut self, running: bool) -> (step: Step)
        requires
            old(self).wf(),
            possible(old(self).at(), Outcome::Slept),
        ensures
            final(self).wf(),
            final(self).way() == old(self).way(),
            (final(self).at(), step@) == step_of(
                old(self).way(),
                old(self).at(),
                Outcome::Slept,
                running,
            ),
            running ==> !(final(self).at() is Ended) && !(step.action is End),
            !running ==> final(self).at() is Ended && step.action is End,
    {
        let before: u64 = match self.phase {
            Phase::Waiting { slept } => slept,
            _ => 0,
        };
        self.wait(before + self.manner.nap, running)
    }
}

/// A serial connection: the adapter is given time, and the delay is slept in short naps.
pub fn serial_manner() -> (manner: Manner)
    ensures
        manner == (Manner { settle: Some(OPEN_SETTLE_MS), nap: NAP_MS }),
{
    Manner { settle: Some(OPEN_SETTLE_MS), nap: NAP_MS }
}

/// A network connection: it can be read at once.
pub fn udp_manner() -> (manner: Manner)
    ensures
        manner == (Manner { settle: None, nap: NAP_MS }),
{
    Manner { settle: None, nap: NAP_MS }
}

/// Why a serial port could not be opened.
pub fn serial_failure(port: &str, error: &str) -> (reason: String)
    ensures
        reason@ == port@ + ": "@ + error@,
{
    let mut reason: String = String::from_str(port);
    reason.append(": ");
    reason.append(error);
    reason
}

/// Why a network connection could not be opened.
pub fn udp_failure(host_ip: &str, host_port: u16, error: &str) -> (reason: String)
    ensures
        reason@ == "UDP "@ + host_ip@ + ":"@ + decimal_of(host_port as nat) + ": "@ + error@,
{
    let mut reason: String = String::from_str("UDP ");
    reason.append(host_ip);
    reason.append(":");
    push_decimal(&mut reason, host_port as u64);
    reason.append(": ");
    reason.append(error);
    reason
}

/// Whatever happens to a connection, made-up data is never shown in its place.
pub proof fn law_failure_never_becomes_demo(
    manner: Manner,
    phase: Phase,
    outcome: Outcome,
    running: bool,
)
    requires
        possible(phase, outcome),
    ensures
        !(step_of(manner, phase, outcome, running).1.status matches Some(StatusView::Demo)),
        !(begin_of(running).1.status matches Some(StatusView::Demo)),
{
}

/// A failure to open is shown, with its reason.
pub proof fn law_open_failure_is_shown(
    manner: Manner,
    phase: Phase,
    reason: Seq<char>,
    running: bool,
)
    requires
        possible(phase, Outcome::OpenFailed { reason }),
    ensures
        step_of(manner, phase, Outcome::OpenFailed { reason }, running).1.status == Some(
            StatusView::Error(reason),
        ),
{
}

/// Once it is not wanted any more, a connection ends at the next failure, end of reading or nap.
pub proof fn law_stopped_session_ends(manner: Manner, phase: Phase, outcome: Outcome)
    requires
        possible(phase, outcome),
        !(outcome is Opened || outcome is Settled),
    ensures
        step_of(manner, phase, outcome, false).0 is Ended,
        step_of(manner, phase, outcome, false).1.action is End,
{
}

/// How many naps it takes from a phase to the next try, while the session is wanted.
pub open spec fn naps_until_open(manner: Manner, slept: int) -> nat
    decreases
            if slept < RETRY_DELAY_MS {
                RETRY_DELAY_MS - slept
            } else {
                0
            },
{
    if manner.nap <= 0 || slept >= RETRY_DELAY_MS {
        0
    } else {
        1 + naps_until_open(manner, slept + manner.nap)
    }
}

/// As long as it is wanted, a connection that failed is opened again: each nap leads to a further
/// nap or to the next try, and the naps together are the delay, rounded up to whole naps.
pub proof fn law_failure_is_retried(manner: Manner, slept: u64)
    requires
        0 < manner.nap <= RETRY_DELAY_MS,
        slept < RETRY_DELAY_MS,
    ensures
        ({
            let after = (slept + manner.nap) as u64;
            let next = step_of(manner, Phase::Waiting { slept }, Outcome::Slept, true);
            &&& after >= RETRY_DELAY_MS ==> next.0 is Opening && next.1.action is Open
            &&& after < RETRY_DELAY_MS ==> next.0 == (Phase::Waiting { slept: after })
                && next.1.action == (Action::Nap { millis: manner.nap })
        }),
        RETRY_DELAY_MS - slept <= naps_until_open(manner, slept as int) * manner.nap
            < RETRY_DELAY_MS - slept + manner.nap,
    decreases RETRY_DELAY_MS - slept,
{
    let nap = manner.nap as int;
    let after = slept + nap;
    let rest = naps_until_open(manner, after) as int;
    assert(naps_until_open(manner, slept as int) == 1 + rest);
    assert((1 + rest) * nap == nap + rest * nap) by (nonlinear_arith);
    if after < RETRY_DELAY_MS {
        law_failure_is_retried(manner, after as u64);
    } else {
        assert(rest * nap == 0) by (nonlinear_arith)
            requires
                rest == 0,
        ;
    }
}

/// A failure leads to waiting from the beginning of the delay, with a nap, while the session is
/// wanted, whatever the kind of connection: a failure to open, which is shown, and an end of
/// reading.
pub proof fn law_failure_leads_to_waiting(manner: Manner, reason: Seq<char>)
    ensures
        step_of(manner, Phase::Opening, Outcome::OpenFailed { reason }, true) == (
            Phase::Waiting { slept: 0 },
            StepView {
                status: Some(StatusView::Error(reason)),
                action: Action::Nap { millis: manner.nap },
            },
        ),
        step_of(manner, Phase::Reading, Outcome::ReadEnded, true) == (
            Phase::Waiting { slept: 0 },
            StepView { status: None, action: Action::Nap { millis: manner.nap } },
        ),
{
}

/// Where a connection stands after `naps` naps since its failure, while the session is wanted.
pub open spec fn after_naps(manner: Manner, naps: nat) -> (Phase, StepView)
    decreases naps,
{
    if naps == 0 {
        step_of(manner, Phase::Reading, Outcome::ReadEnded, true)
    } else {
        step_of(manner, after_naps(manner, (naps - 1) as nat).0, Outcome::Slept, true)
    }
}

/// From a failure, nap by nap, to the next try: as long as the naps together are below 1,000
/// milliseconds a further one follows, and with the nap that reaches them the connection is opened
/// again, and shown as being connected.
pub proof fn law_naps_lead_to_the_next_try(manner: Manner, naps: nat)
    requires
        0 < manner.nap <= 1_000,
        naps == 0 || (naps - 1) * manner.nap < 1_000,
    ensures
        naps * manner.nap < 1_000 ==> after_naps(manner, naps) == (
            Phase::Waiting { slept: (naps * manner.nap) as u64 },
            StepView { status: None, action: Action::Nap { millis: manner.nap } },
        ),
        naps * manner.nap >= 1_000 ==> after_naps(manner, naps) == (
            Phase::Opening,
            StepView { status: Some(StatusView::Connecting), action: Action::Open },
        ),
    decreases naps,
{
    let nap = manner.nap as int;
    if naps == 0 {
        assert(0 * nap == 0);
    } else {
        let before = naps - 1;
        assert(naps * nap == before * nap + nap) by (nonlinear_arith)
            requires
                before == naps - 1,
        ;
        if before > 0 {
            assert((before - 1) * nap < before * nap) by (nonlinear_arith)
                requires
                    nap > 0,
            ;
        }
        assert(before * nap >= 0) by (nonlinear_arith)
            requires
                before >= 0,
                nap > 0,
        ;
        law_naps_lead_to_the_next_try(manner, before as nat);
    }
}

/// While it is wanted, a session never ends: whatever happens in whatever phase, the step that
/// follows is another one.
pub proof fn law_wanted_session_never_ends(manner: Manner, slept: u64, reason: Seq<char>)
    requires
        0 < manner.nap <= 1_000,
        slept < 1_000,
    ensures
        ({
            let after_begin = begin_of(true);
            let after_failure = step_of(
                manner,
                Phase::Opening,
                Outcome::OpenFailed { reason },
                true,
            );
            let after_opening = step_of(manner, Phase::Opening, Outcome::Opened, true);
            let after_settling = step_of(manner, Phase::Settling, Outcome::Settled, true);
            let after_reading = step_of(manner, Phase::Reading, Outcome::ReadEnded, true);
            let after_nap = step_of(manner, Phase::Waiting { slept }, Outcome::Slept, true);
            &&& !(after_begin.0 is Ended) && !(after_begin.1.action is End)
            &&& !(after_failure.0 is Ended) && !(after_failure.1.action is End)
            &&& !(after_opening.0 is Ended) && !(after_opening.1.action is End)
            &&& !(after_settling.0 is Ended) && !(after_settling.1.action is End)
            &&& !(after_reading.0 is Ended) && !(after_reading.1.action is End)
            &&& !(after_nap.0 is Ended) && !(after_nap.1.action is End)
        }),
{
}

/// A session that is not wanted ends, whatever the kind of connection: at its beginning, and at a
/// failure, an end of reading or a nap.
pub proof fn law_unwanted_session_ends(manner: Manner, slept: u64, reason: Seq<char>)
    ensures
        begin_of(false) == (Phase::Ended, StepView { status: None, action: Action::End }),
        step_of(manner, Phase::Opening, Outcome::OpenFailed { reason }, false) == (
            Phase::Ended,
            StepView { status: Some(StatusView::Error(reason)), action: Action::End },
        ),
        step_of(manner, Phase::Reading, Outcome::ReadEnded, false) == (
            Phase::Ended,
            StepView { status: None, action: Action::End },
        ),
        step_of(manner, Phase::Waiting { slept }, Outcome::Slept, false) == (
            Phase::Ended,
            StepView { status: None, action: Action::End },
        ),
{
}

/// The way to reading: a session begins by opening, an open connection is read, at once or when it
/// has had its time, and is shown as being connected until data comes.
pub proof fn law_open_connection_is_read(manner: Manner, running: bool)
    ensures
        begin_of(true) == (
            Phase::Opening,
            StepView { status: Some(StatusView::Connecting), action: Action::Open },
        ),
        manner.settle matches Some(millis) ==> step_of(
            manner,
            Phase::Opening,
            Outcome::Opened,
            running,
        ) == (Phase::Settling, StepView { status: None, action: Action::Settle { millis } }),
        manner.settle is None ==> step_of(manner, Phase::Opening, Outcome::Opened, running) == (
            Phase::Reading,
            StepView { status: Some(StatusView::Connecting), action: Action::Read },
        ),
        step_of(manner, Phase::Settling, Outcome::Settled, running) == (
            Phase::Reading,
            StepView { status: Some(StatusView::Connecting), action: Action::Read },
        ),
{
}

/// What can happen in which phase.
pub proof fn law_what_can_happen(phase: Phase, reason: Seq<char>)
    ensures
        possible(phase, Outcome::Opened) <==> phase is Opening,
        possible(phase, Outcome::OpenFailed { reason }) <==> phase is Opening,
        possible(phase, Outcome::Settled) <==> phase is Settling,
        possible(phase, Outcome::ReadEnded) <==> phase is Reading,
        possible(phase, Outcome::Slept) <==> phase is Waiting,
{
}

/// The time between two tries is 1,000 milliseconds, a nap is 50, and an adapter is given 120.
pub proof fn law_times_of_a_session()
    ensures
        RETRY_DELAY_MS == 1_000,
        OPEN_SETTLE_MS == 120,
        NAP_MS == 50,
{
}

/// What follows a nap, wherever in the delay it ends: a further nap while less than 1,000
/// milliseconds are over, and else the next try, shown as being connected.
pub proof fn law_what_follows_a_nap(manner: Manner, slept: u64)
    requires
        0 < manner.nap <= 1_000,
        slept < 1_000,
    ensures
        ({
            let next = step_of(manner, Phase::Waiting { slept }, Outcome::Slept, true);
            let over = slept + manner.nap;
            &&& over < 1_000 ==> next == (
                Phase::Waiting { slept: over as u64 },
                StepView { status: None, action: Action::Nap { millis: manner.nap } },
            )
            &&& over >= 1_000 ==> next == (
                Phase::Opening,
                StepView { status: Some(StatusView::Connecting), action: Action::Open },
            )
        }),
{
}

/// A step shows its status, if it has one, and its action.
pub proof fn law_step_shows_its_fields(step: Step)
    ensures
        step@.action == step.action,
        step.status is None <==> step@.status is None,
        step.status matches Some(status) ==> step@.status == Some(status@),
{
}

} // verus!
