//! The state of the viewer: rows, scans, and what the buttons do.
//!
//! Nothing is connected until the user presses Start. While it runs, each connection keeps its
//! last scan until the next one comes.

use crate::reader::data_collector::{ConnectionStatus, Scan, Source};
use crate::text::push_decimal;
use crate::viewer::config::{Rgba, ViewerConfig, opaque};
use crate::viewer::entry::LidarEntry;
use vstd::prelude::*;

verus! {

use crate::reader::data_collector::{ScanView, StatusView, scans_view};
use crate::text::{decimal_of, law_decimal_reads_back, number_in};
use crate::viewer::config::{LidarConfigView, opaque_of, point_color_of};
use crate::viewer::entry::{
    EntryView, default_entry, endpoint_of, entry_of, kind_label, source_of,
};

/// The most LiDARs at a time.
pub const MAX_LIDARS: usize = 4;

/// The contents of several rows, in order.
pub open spec fn entries_view(entries: Seq<LidarEntry>) -> Seq<EntryView> {
    Seq::new(entries.len(), |i: int| entries[i]@)
}

/// The rows for the LiDARs of the settings: at least one and at most [`MAX_LIDARS`].
pub open spec fn rows_for(lidars: Seq<LidarConfigView>) -> Seq<EntryView> {
    if lidars.len() == 0 {
        seq![default_entry(0)]
    } else {
        Seq::new(
            if lidars.len() < MAX_LIDARS {
                lidars.len()
            } else {
                MAX_LIDARS as nat
            },
            |i: int| entry_of(lidars[i]),
        )
    }
}

/// The number of rows for a wanted number.
pub open spec fn row_count(wanted: nat) -> nat {
    if wanted < 1 {
        1
    } else if wanted > MAX_LIDARS {
        MAX_LIDARS as nat
    } else {
        wanted
    }
}

/// Rows brought to another number: rows at the end go, or rows of default values are added.
pub open spec fn resized(rows: Seq<EntryView>, count: nat) -> Seq<EntryView> {
    Seq::new(
        count,
        |i: int|
            if i < rows.len() {
                rows[i]
            } else {
                default_entry(i as nat)
            },
    )
}

/// A scan without points, as long as none has come.
pub open spec fn no_scan() -> ScanView {
    ScanView { points: Seq::empty(), rotation: 0 }
}

/// The colours that tell several LiDARs apart.
pub open spec fn device_hue(index: nat) -> Rgba {
    let i = index % 4;
    if i == 0 {
        opaque_of(0x34, 0xd3, 0x99)
    } else if i == 1 {
        opaque_of(0x60, 0xa5, 0xfa)
    } else if i == 2 {
        opaque_of(0xfb, 0xbf, 0x24)
    } else {
        opaque_of(0xf4, 0x72, 0xb6)
    }
}

/// The colour that tells LiDAR `index` from the others.
pub fn device_palette(index: usize) -> (color: Rgba)
    ensures
        color == device_hue(index as nat),
{
    let i: usize = index % 4;
    if i == 0 {
        opaque(0x34, 0xd3, 0x99)
    } else if i == 1 {
        opaque(0x60, 0xa5, 0xfa)
    } else if i == 2 {
        opaque(0xfb, 0xbf, 0x24)
    } else {
        opaque(0xf4, 0x72, 0xb6)
    }
}

/// The colour of a status.
pub open spec fn status_color(status: StatusView) -> Rgba {
    match status {
        StatusView::Connected => opaque_of(0x34, 0xd3, 0x99),
        StatusView::Connecting => opaque_of(0xfb, 0xbf, 0x24),
        StatusView::Error(_) => opaque_of(0xf8, 0x71, 0x71),
        StatusView::Demo => opaque_of(0x60, 0xa5, 0xfa),
    }
}

/// The text of a status.
pub open spec fn status_text(status: StatusView, endpoint: Seq<char>) -> Seq<char> {
    match status {
        StatusView::Connected => "연결됨 · "@ + endpoint,
        StatusView::Connecting => "연결 중… · "@ + endpoint,
        StatusView::Error(reason) => "오류: "@ + reason,
        StatusView::Demo => "데모 데이터"@,
    }
}

/// A status as a colour and a text.
pub fn status_indicator(status: &ConnectionStatus, endpoint: &str) -> (shown: (Rgba, String))
    ensures
        shown.0 == status_color(status@),
        shown.1@ == status_text(status@, endpoint@),
{
    match status {
        ConnectionStatus::Connected => {
            let mut text: String = String::from_str("연결됨 · ");
            text.append(endpoint);
            (opaque(0x34, 0xd3, 0x99), text)
        },
        ConnectionStatus::Connecting => {
            let mut text: String = String::from_str("연결 중… · ");
            text.append(endpoint);
            (opaque(0xfb, 0xbf, 0x24), text)
        },
        ConnectionStatus::Error(reason) => {
            let mut text: String = String::from_str("오류: ");
            text.append(reason.as_str());
            (opaque(0xf8, 0x71, 0x71), text)
        },
        ConnectionStatus::Demo => (opaque(0x60, 0xa5, 0xfa), String::from_str("데모 데이터")),
    }
}

/// The state of the viewer.
pub struct ViewerState {
    pub config: ViewerConfig,
    /// The rows that the user edits.
    pub entries: Vec<LidarEntry>,
    /// The last scan of each connection.
    pub scans: Vec<Scan>,
    /// Whether it is connected.
    pub running: bool,
    /// Whether the settings are open.
    pub settings_open: bool,
}

impl ViewerState {
    /// There are from 1 to [`MAX_LIDARS`] rows, and no more connections; none while it does not
    /// run.
    pub open spec fn wf(&self) -> bool {
        &&& 1 <= self.entries@.len() <= MAX_LIDARS
        &&& self.scans@.len() <= MAX_LIDARS
        &&& !self.running ==> self.scans@.len() == 0
    }

    /// The viewer at its start: the rows of the settings, nothing connected, the settings open.
    pub fn new(config: ViewerConfig) -> (state: Self)
        ensures
            state.wf(),
            entries_view(state.entries@) == rows_for(
                Seq::new(config.lidars@.len(), |i: int| config.lidars@[i]@),
            ),
            state.config == config,
            state.scans@.len() == 0,
            !state.running,
            state.settings_open,
    {
        let mut entries: Vec<LidarEntry> = Vec::new();
        let mut i: usize = 0;
        while i < config.lidars.len() && i < MAX_LIDARS
            invariant
                i <= config.lidars@.len(),
                i <= MAX_LIDARS,
                entries@.len() == i,
                forall|j: int|
                    0 <= j < i ==> (#[trigger] entries@[j])@ == entry_of(config.lidars@[j]@),
            decreases MAX_LIDARS - i,
        {
            entries.push(LidarEntry::from_config(&config.lidars[i]));
            i = i + 1;
        }
        if entries.len() == 0 {
            entries.push(LidarEntry::new_default(0));
        }
        assert(entries_view(entries@) =~= rows_for(
            Seq::new(config.lidars@.len(), |i: int| config.lidars@[i]@),
        ));
        ViewerState { config, entries, scans: Vec::new(), running: false, settings_open: true }
    }

    /// Takes over changed settings; rows and connections stay as they are.
    pub fn set_config(&mut self, config: ViewerConfig)
        ensures
            *final(self) == (ViewerState { config, ..*old(self) }),
    {
        self.config = config;
    }

    /// Connects what the rows ask for, which comes out, and closes the settings. Each connection
    /// begins without a scan.
    pub fn start(&mut self) -> (sources: Vec<Source>)
        requires
            old(self).wf(),
        ensures
            final(self).wf(),
            sources@.len() == old(self).entries@.len(),
            forall|i: int|
                0 <= i < sources@.len() ==> (#[trigger] sources@[i])@ == source_of(
                    old(self).entries@[i]@,
                ),
            scans_view(final(self).scans@) == Seq::new(
                old(self).entries@.len(),
                |i: int| no_scan(),
            ),
            final(self).running,
            !final(self).settings_open,
            final(self).entries == old(self).entries,
            final(self).config == old(self).config,
    {
        let mut sources: Vec<Source> = Vec::new();
        let mut scans: Vec<Scan> = Vec::new();
        let mut i: usize = 0;
        while i < self.entries.len()
            invariant
                i <= self.entries@.len(),
                self == old(self),
                sources@.len() == i,
                forall|j: int|
                    0 <= j < i ==> (#[trigger] sources@[j])@ == source_of(self.entries@[j]@),
                scans@.len() == i,
                forall|j: int| 0 <= j < i ==> (#[trigger] scans@[j])@ == no_scan(),
            decreases self.entries@.len() - i,
        {
            sources.push(self.entries[i].to_source());
            scans.push(Scan::default());
            i = i + 1;
        }
        assert(scans_view(scans@) =~= Seq::new(self.entries@.len(), |i: int| no_scan()));
        self.scans = scans;
        self.running = true;
        self.settings_open = false;
        sources
    }

    /// Nothing is connected any more.
    pub fn stop_all(&mut self)
        requires
            old(self).wf(),
        ensures
            final(self).wf(),
            final(self).scans@.len() == 0,
            !final(self).running,
            final(self).entries == old(self).entries,
            final(self).config == old(self).config,
            final(self).settings_open == old(self).settings_open,
    {
        self.scans = Vec::new();
        self.running = false;
    }

    /// What the Stop button does: nothing is connected any more, and the settings are open.
    pub fn press_stop(&mut self)
        requires
            old(self).wf(),
        ensures
            final(self).wf(),
            final(self).scans@.len() == 0,
            !final(self).running,
            final(self).settings_open,
            final(self).entries == old(self).entries,
            final(self).config == old(self).config,
    {
        self.stop_all();
        self.settings_open = true;
    }

    /// Opens or closes the settings.
    pub fn toggle_settings(&mut self)
        ensures
            *final(self) == (ViewerState { settings_open: !old(self).settings_open, ..*old(self) }),
    {
        self.settings_open = !self.settings_open;
    }

    /// The text of the button that opens or closes the settings.
    pub fn toggle_label(&self) -> (label: &'static str)
        ensures
            label@ == (if self.settings_open {
                "⚙ 설정 닫기"@
            } else {
                "⚙ 설정 열기"@
            }),
    {
        if self.settings_open {
            "⚙ 설정 닫기"
        } else {
            "⚙ 설정 열기"
        }
    }

    /// A connection brought a scan.
    pub fn update_scan(&mut self, index: usize, scan: Scan)
        requires
            old(self).wf(),
            index < old(self).scans@.len(),
        ensures
            final(self).wf(),
            final(self).scans@ == old(self).scans@.update(index as int, scan),
            final(self).running == old(self).running,
            final(self).entries == old(self).entries,
            final(self).config == old(self).config,
            final(self).settings_open == old(self).settings_open,
    {
        self.scans.set(index, scan);
    }

    /// Brings the rows to the wanted number, within the limits.
    pub fn resize_entries(&mut self, count: usize)
        requires
            old(self).wf(),
        ensures
            final(self).wf(),
            entries_view(final(self).entries@) == resized(
                entries_view(old(self).entries@),
                row_count(count as nat),
            ),
            final(self).scans == old(self).scans,
            final(self).running == old(self).running,
            final(self).config == old(self).config,
            final(self).settings_open == old(self).settings_open,
    {
        let count: usize = if count < 1 {
            1
        } else if count > MAX_LIDARS {
            MAX_LIDARS
        } else {
            count
        };
        let ghost before = self.entries@;
        while self.entries.len() < count
            invariant
                before.len() <= self.entries@.len(),
                before.len() <= MAX_LIDARS,
                self.entries@.len() <= MAX_LIDARS,
                count <= MAX_LIDARS,
                forall|i: int| 0 <= i < before.len() ==> #[trigger] self.entries@[i] == before[i],
                forall|i: int|
                    before.len() <= i < self.entries@.len() ==> (#[trigger] self.entries@[i])@
                        == default_entry(i as nat),
                self.scans == old(self).scans,
                self.running == old(self).running,
                self.config == old(self).config,
                self.settings_open == old(self).settings_open,
            decreases count - self.entries@.len(),
        {
            let index: usize = self.entries.len();
            self.entries.push(LidarEntry::new_default(index));
        }
        self.entries.truncate(count);
        assert(entries_view(self.entries@) =~= resized(entries_view(before), count as nat));
    }

    /// The colour of a connection's points: that of the settings where there is only one
    /// connection, else one that tells them apart.
    pub fn device_color(&self, index: usize) -> (color: Rgba)
        ensures
            color == (if self.scans@.len() <= 1 {
                point_color_of(self.config.points.color@)
            } else {
                device_hue(index as nat)
            }),
    {
        if self.scans.len() <= 1 {
            self.config.point_color()
        } else {
            device_palette(index)
        }
    }

    /// The line that shows a connection: its number, kind, endpoint and number of points.
    pub open spec fn line_of(&self, index: int) -> Seq<char> {
        let row = 0 <= index < self.entries@.len();
        "#"@ + decimal_of((index + 1) as nat) + " "@ + (if row {
            kind_label(self.entries@[index]@.kind)
        } else {
            Seq::empty()
        }) + " · "@ + (if row {
            endpoint_of(self.entries@[index]@)
        } else {
            Seq::empty()
        }) + " · "@ + decimal_of(
            if 0 <= index < self.scans@.len() {
                self.scans@[index]@.points.len()
            } else {
                0
            },
        ) + "pts"@
    }

    /// The line that shows a connection.
    pub fn status_line(&self, index: usize) -> (text: String)
        requires
            index < usize::MAX,
        ensures
            text@ == self.line_of(index as int),
    {
        let mut text: String = String::from_str("#");
        push_decimal(&mut text, index as u64 + 1);
        text.append(" ");
        if index < self.entries.len() {
            text.append(self.entries[index].kind.label());
            text.append(" · ");
            let endpoint: String = self.entries[index].endpoint();
            text.append(endpoint.as_str());
        } else {
            text.append(" · ");
        }
        text.append(" · ");
        let points: usize = if index < self.scans.len() {
            self.scans[index].points.len()
        } else {
            0
        };
        push_decimal(&mut text, points as u64);
        text.append("pts");
        assert(text@ =~= self.line_of(index as int));
        text
    }
}

/// Another number of rows changes no row that stays.
pub proof fn law_resizing_keeps_rows(rows: Seq<EntryView>, count: nat, i: int)
    requires
        0 <= i < rows.len(),
        i < row_count(count),
    ensures
        resized(rows, row_count(count))[i] == rows[i],
        1 <= resized(rows, row_count(count)).len() <= MAX_LIDARS,
{
}

/// Up to [`MAX_LIDARS`] LiDARs have different colours.
pub proof fn law_device_colors_differ(i: nat, j: nat)
    requires
        i < j < MAX_LIDARS,
    ensures
        device_hue(i) != device_hue(j),
{
}

/// The number of rows: as many as wanted, but at least 1 and at most 4.
pub proof fn law_number_of_rows(wanted: nat)
    ensures
        1 <= wanted <= 4 ==> row_count(wanted) == wanted,
        wanted < 1 ==> row_count(wanted) == 1,
        wanted > 4 ==> row_count(wanted) == 4,
{
}

/// Each LiDAR of the settings has its row, in order, up to four of them; where there is none,
/// there is one row of default values.
pub proof fn law_rows_of_the_settings(lidars: Seq<LidarConfigView>, i: int)
    ensures
        1 <= lidars.len() <= 4 ==> rows_for(lidars).len() == lidars.len(),
        lidars.len() > 4 ==> rows_for(lidars).len() == 4,
        lidars.len() == 0 ==> rows_for(lidars).len() == 1 && rows_for(lidars)[0] == default_entry(
            0,
        ),
        0 <= i < lidars.len() && i < 4 ==> rows_for(lidars)[i] == entry_of(lidars[i]),
{
}

/// With another number of rows, the first ones stay as they are, and those that are added have the
/// default values of their positions.
pub proof fn law_resizing_adds_default_rows(rows: Seq<EntryView>, count: nat, i: int)
    requires
        0 <= i < count,
    ensures
        resized(rows, count).len() == count,
        i < rows.len() ==> resized(rows, count)[i] == rows[i],
        i >= rows.len() ==> resized(rows, count)[i] == default_entry(i as nat),
{
}

/// The colours of the LiDARs repeat after four, and are opaque green, blue, yellow and pink.
pub proof fn law_device_colors_repeat(index: nat)
    ensures
        device_hue(index + 4) == device_hue(index),
        device_hue(index).a == 255,
        device_hue(0) == (Rgba { r: 0x34, g: 0xd3, b: 0x99, a: 255 }),
        device_hue(1) == (Rgba { r: 0x60, g: 0xa5, b: 0xfa, a: 255 }),
        device_hue(2) == (Rgba { r: 0xfb, g: 0xbf, b: 0x24, a: 255 }),
        device_hue(3) == (Rgba { r: 0xf4, g: 0x72, b: 0xb6, a: 255 }),
{
}

/// Each status has a colour of its own: a connection is green, one being made yellow, an error red
/// and made-up data blue, whatever the reason or the endpoint.
pub proof fn law_status_colors(reason: Seq<char>)
    ensures
        status_color(StatusView::Connected) == (Rgba { r: 0x34, g: 0xd3, b: 0x99, a: 255 }),
        status_color(StatusView::Connecting) == (Rgba { r: 0xfb, g: 0xbf, b: 0x24, a: 255 }),
        status_color(StatusView::Error(reason)) == (Rgba { r: 0xf8, g: 0x71, b: 0x71, a: 255 }),
        status_color(StatusView::Demo) == (Rgba { r: 0x60, g: 0xa5, b: 0xfa, a: 255 }),
{
}

/// The text of a status ends with what it is about: a connection with its endpoint, an error with
/// its reason; and the beginnings tell the statuses apart.
pub proof fn law_status_texts(endpoint: Seq<char>, reason: Seq<char>)
    ensures
        ({
            let connected = status_text(StatusView::Connected, endpoint);
            let connecting = status_text(StatusView::Connecting, endpoint);
            let error = status_text(StatusView::Error(reason), endpoint);
            &&& connected.skip(6) == endpoint
            &&& connected.take(6) == "연결됨 · "@
            &&& connecting.skip(8) == endpoint
            &&& connecting.take(8) == "연결 중… · "@
            &&& error.skip(4) == reason
            &&& error.take(4) == "오류: "@
            &&& status_text(StatusView::Demo, endpoint) == "데모 데이터"@
        }),
{
    reveal_strlit("연결됨 · ");
    reveal_strlit("연결 중… · ");
    reveal_strlit("오류: ");
    let connected = status_text(StatusView::Connected, endpoint);
    let connecting = status_text(StatusView::Connecting, endpoint);
    let error = status_text(StatusView::Error(reason), endpoint);
    assert(connected.skip(6) =~= endpoint && connected.take(6) =~= "연결됨 · "@);
    assert(connecting.skip(8) =~= endpoint && connecting.take(8) =~= "연결 중… · "@);
    assert(error.skip(4) =~= reason && error.take(4) =~= "오류: "@);
}

/// The line of a connection tells its number, counted from 1, its kind and endpoint where it has a
/// row, and how many points its scan has, 0 where it has none.
pub proof fn law_line_tells_the_connection(state: ViewerState, index: int)
    requires
        0 <= index < usize::MAX,
        index < state.scans@.len() ==> state.scans@[index].points@.len() <= usize::MAX,
    ensures
        exists|number: Seq<char>, label: Seq<char>, endpoint: Seq<char>, points: Seq<char>|
            #![trigger number_in(number, u64::MAX as nat), number_in(points, u64::MAX as nat), label.len(), endpoint.len()]
            {
                &&& state.line_of(index) == "#"@ + number + " "@ + label + " · "@ + endpoint
                    + " · "@ + points + "pts"@
                &&& number_in(number, u64::MAX as nat) == Some((index + 1) as nat)
                &&& index < state.entries@.len() ==> label == kind_label(state.entries@[index].kind)
                    && endpoint == endpoint_of(state.entries@[index]@)
                &&& index >= state.entries@.len() ==> label.len() == 0 && endpoint.len() == 0
                &&& index < state.scans@.len() ==> number_in(points, u64::MAX as nat) == Some(
                    state.scans@[index].points@.len(),
                )
                &&& index >= state.scans@.len() ==> number_in(points, u64::MAX as nat) == Some(0nat)
            },
{
    let most = u64::MAX as nat;
    let row = index < state.entries@.len();
    let count = if index < state.scans@.len() {
        state.scans@[index]@.points.len()
    } else {
        0
    };
    let number = decimal_of((index + 1) as nat);
    let label = if row {
        kind_label(state.entries@[index]@.kind)
    } else {
        Seq::empty()
    };
    let endpoint = if row {
        endpoint_of(state.entries@[index]@)
    } else {
        Seq::empty()
    };
    let points = decimal_of(count);
    law_decimal_reads_back((index + 1) as nat, most);
    law_decimal_reads_back(count, most);
    assert(number_in(number, most) == Some((index + 1) as nat));
    assert(number_in(points, most) == Some(count));
    assert(label.len() >= 0 && endpoint.len() >= 0);
}

/// A viewer in order has from one to four rows, no more than four scans, and no scan while it does
/// not run.
pub proof fn law_viewer_in_order(state: ViewerState)
    ensures
        state.wf() <==> 1 <= state.entries@.len() <= 4 && state.scans@.len() <= 4 && (state.running
            || state.scans@.len() == 0),
{
}

/// The contents of the rows are those of each, in order.
pub proof fn law_rows_show_each_row(entries: Seq<LidarEntry>, i: int)
    requires
        0 <= i < entries.len(),
    ensures
        entries_view(entries).len() == entries.len(),
        entries_view(entries)[i].kind == entries[i].kind,
        entries_view(entries)[i].port == entries[i].port@,
        entries_view(entries)[i].baud == entries[i].baud@,
        entries_view(entries)[i].sensor_ip == entries[i].sensor_ip@,
        entries_view(entries)[i].command_port == entries[i].command_port@,
        entries_view(entries)[i].host_ip == entries[i].host_ip@,
        entries_view(entries)[i].host_port == entries[i].host_port@,
{
}

/// Without a scan there are no points.
pub proof fn law_no_scan_is_empty()
    ensures
        no_scan().points.len() == 0,
        no_scan().rotation == 0,
{
}

} // verus!
