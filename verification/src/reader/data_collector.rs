//! What passes between a collector and whoever draws its scans.
//!
//! A collector publishes whole turns into a slot that holds one: a new turn takes the place of an
//! old one that nobody fetched. So a slow reader never falls behind.

use crate::reader::model::Model;
use crate::reader::types::LidarPoint;
use vstd::prelude::*;

verus! {

/// Where the data comes from.
#[derive(Debug, Clone, PartialEq, Eq)]
pub enum Source {
    /// A LiDAR on a serial line. Where it fails, it is connected again.
    Serial { model: Model, port: String, baud: u32 },
    /// A LiDAR on the network, which is told to start.
    Udp {
        model: Model,
        sensor_ip: String,
        command_port: u16,
        host_ip: String,
        host_port: u16,
    },
    /// Made-up data: a rectangular room.
    Demo,
}

/// The contents of a [`Source`].
pub enum SourceView {
    Serial { model: Model, port: Seq<char>, baud: u32 },
    Udp {
        model: Model,
        sensor_ip: Seq<char>,
        command_port: u16,
        host_ip: Seq<char>,
        host_port: u16,
    },
    Demo,
}

impl View for Source {
    type V = SourceView;

    open spec fn view(&self) -> SourceView {
        match *self {
            Source::Serial { model, port, baud } => SourceView::Serial { model, port: port@, baud },
            Source::Udp { model, sensor_ip, command_port, host_ip, host_port } => SourceView::Udp {
                model,
                sensor_ip: sensor_ip@,
                command_port,
                host_ip: host_ip@,
                host_port,
            },
            Source::Demo => SourceView::Demo,
        }
    }
}

/// The state of a connection, for display.
#[derive(Debug, Clone, PartialEq, Eq)]
pub enum ConnectionStatus {
    /// Being opened, or waiting for data.
    Connecting,
    /// Data comes in.
    Connected,
    /// It failed, for this reason, and will be tried again.
    Error(String),
    /// Made-up data.
    Demo,
}

/// The contents of a [`ConnectionStatus`].
pub enum StatusView {
    Connecting,
    Connected,
    Error(Seq<char>),
    Demo,
}

impl View for ConnectionStatus {
    type V = StatusView;

    open spec fn view(&self) -> StatusView {
        match *self {
            ConnectionStatus::Connecting => StatusView::Connecting,
            ConnectionStatus::Connected => StatusView::Connected,
            ConnectionStatus::Error(reason) => StatusView::Error(reason@),
            ConnectionStatus::Demo => StatusView::Demo,
        }
    }
}

impl ConnectionStatus {
    /// The same status once more.
    pub fn duplicate(&self) -> (copy: Self)
        ensures
            copy@ == self@,
    {
        match self {
            ConnectionStatus::Connecting => ConnectionStatus::Connecting,
            ConnectionStatus::Connected => ConnectionStatus::Connected,
            ConnectionStatus::Error(reason) => ConnectionStatus::Error(reason.clone()),
            ConnectionStatus::Demo => ConnectionStatus::Demo,
        }
    }
}

/// One whole turn.
#[derive(Debug, Clone, PartialEq, Eq)]
pub struct Scan {
    /// The measurements of the turn.
    pub points: Vec<LidarPoint>,
    /// The number of the turn, from 0.
    pub rotation: u64,
}

/// The contents of a [`Scan`].
#[verifier::ext_equal]
pub struct ScanView {
    pub points: Seq<LidarPoint>,
    pub rotation: u64,
}

impl View for Scan {
    type V = ScanView;

    open spec fn view(&self) -> ScanView {
        ScanView { points: self.points@, rotation: self.rotation }
    }
}

/// The contents of several scans, in order.
pub open spec fn scans_view(scans: Seq<Scan>) -> Seq<ScanView> {
    Seq::new(scans.len(), |i: int| scans[i]@)
}

impl Default for Scan {
    fn default() -> (scan: Self)
        ensures
            scan@ == (ScanView { points: Seq::empty(), rotation: 0 }),
    {
        let scan = Scan { points: Vec::new(), rotation: 0 };
        assert(scan@ =~= (ScanView { points: Seq::empty(), rotation: 0 }));
        scan
    }
}

/// What a collector and its reader share.
pub struct FeedView {
    pub latest: Option<ScanView>,
    pub status: StatusView,
    pub running: bool,
}

/// The shared part of a collector: the latest scan, the state of the connection, and whether to
/// go on.
pub struct ScanFeed {
    latest: Option<Scan>,
    status: ConnectionStatus,
    running: bool,
}

impl View for ScanFeed {
    type V = FeedView;

    closed spec fn view(&self) -> FeedView {
        FeedView {
            latest: match self.latest {
                Some(scan) => Some(scan@),
                None => None,
            },
            status: self.status@,
            running: self.running,
        }
    }
}

impl ScanFeed {
    /// The shared part of a collector that is just starting.
    pub fn new() -> (feed: Self)
        ensures
            feed@ == (FeedView { latest: None, status: StatusView::Connecting, running: true }),
    {
        ScanFeed { latest: None, status: ConnectionStatus::Connecting, running: true }
    }

    /// Puts a scan into the slot; one that was still there is dropped.
    pub fn publish(&mut self, scan: Scan)
        ensures
            final(self)@ == (FeedView { latest: Some(scan@), ..old(self)@ }),
    {
        self.latest = Some(scan);
    }

    /// Takes the scan out of the slot, if there is one.
    pub fn take_latest(&mut self) -> (scan: Option<Scan>)
        ensures
            match scan {
                Some(scan) => old(self)@.latest == Some(scan@),
                None => old(self)@.latest is None,
            },
            final(self)@ == (FeedView { latest: None, ..old(self)@ }),
    {
        self.latest.take()
    }

    /// The state of the connection.
    pub fn status(&self) -> (status: ConnectionStatus)
        ensures
            status@ == self@.status,
    {
        self.status.duplicate()
    }

    /// Sets the state of the connection.
    pub fn set_status(&mut self, value: ConnectionStatus)
        ensures
            final(self)@ == (FeedView { status: value@, ..old(self)@ }),
    {
        self.status = value;
    }

    /// Asks the collector to stop.
    pub fn stop(&mut self)
        ensures
            final(self)@ == (FeedView { running: false, ..old(self)@ }),
    {
        self.running = false;
    }

    /// Whether the collector should go on.
    pub fn is_running(&self) -> (running: bool)
        ensures
            running == self@.running,
    {
        self.running
    }
}

/// The slot after scans were published into it, one after the other.
pub open spec fn published(feed: FeedView, scans: Seq<ScanView>) -> FeedView
    decreases scans.len(),
{
    if scans.len() == 0 {
        feed
    } else {
        FeedView { latest: Some(scans.last()), ..published(feed, scans.drop_last()) }
    }
}

/// The latest wins: however many scans were published, the reader gets the last one, and nothing
/// but the slot changes.
pub proof fn law_latest_wins(feed: FeedView, scans: Seq<ScanView>)
    ensures
        published(feed, scans) == (FeedView {
            latest: if scans.len() == 0 {
                feed.latest
            } else {
                Some(scans.last())
            },
            ..feed
        }),
    decreases scans.len(),
{
    if scans.len() > 0 {
        law_latest_wins(feed, scans.drop_last());
    }
}

/// A source shows its fields, each as it is.
pub proof fn law_source_shows_its_fields(source: Source)
    ensures
        source is Demo <==> source@ is Demo,
        source is Serial <==> source@ is Serial,
        source is Udp <==> source@ is Udp,
        source is Serial ==> source@->Serial_model == source->Serial_model && source@->port
            == source->port@ && source@->baud == source->baud,
        source is Udp ==> source@->Udp_model == source->Udp_model && source@->sensor_ip
            == source->sensor_ip@ && source@->command_port == source->command_port
            && source@->host_ip == source->host_ip@ && source@->host_port == source->host_port,
{
}

/// A status shows which one it is, and an error its reason.
pub proof fn law_status_shows_itself(status: ConnectionStatus)
    ensures
        status is Connecting <==> status@ is Connecting,
        status is Connected <==> status@ is Connected,
        status is Error <==> status@ is Error,
        status is Demo <==> status@ is Demo,
        status matches ConnectionStatus::Error(reason) ==> status@ == StatusView::Error(reason@),
{
}

/// A scan shows its points and its number, and several scans each of them, in order.
pub proof fn law_scans_show_each_scan(scans: Seq<Scan>, i: int)
    requires
        0 <= i < scans.len(),
    ensures
        scans_view(scans).len() == scans.len(),
        scans_view(scans)[i].points == scans[i].points@,
        scans_view(scans)[i].rotation == scans[i].rotation,
{
}

} // verus!
