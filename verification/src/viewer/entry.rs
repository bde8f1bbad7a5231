//! One row of the settings panel: what the user edits for one LiDAR.
//!
//! Numbers are kept as text while they are edited and read when the connection is started.

use crate::reader::data_collector::Source;
use crate::reader::model::Model;
use crate::text::{decimal, name_key, parse_number, push_decimal, same_chars, trim};
use crate::viewer::config::LidarConfig;
use vstd::prelude::*;

verus! {

use crate::reader::data_collector::SourceView;
use crate::reader::model::{law_names_of_models, model_named};
use crate::text::{
    decimal_of, key_of, law_decimal_goes_by_digits, law_decimal_reads_back,
    law_key_goes_by_characters, lemma_decimal_is_trimmed, number_in, trimmed,
};
use crate::viewer::config::{LidarConfigView, default_lidar};

/// What the user chooses from: the models, and made-up data.
#[derive(Debug, Clone, Copy, PartialEq, Eq, Structural)]
pub enum LidarKind {
    Stl27L,
    Lds50CE,
    Demo,
}

/// The text of a choice.
pub open spec fn kind_label(kind: LidarKind) -> Seq<char> {
    match kind {
        LidarKind::Stl27L => "STL-27L (시리얼)"@,
        LidarKind::Lds50CE => "LDS-50C-E (UDP)"@,
        LidarKind::Demo => "데모 (합성)"@,
    }
}

impl LidarKind {
    /// All choices.
    pub const ALL: [LidarKind; 3] = [LidarKind::Stl27L, LidarKind::Lds50CE, LidarKind::Demo];

    /// The text of the choice.
    pub fn label(&self) -> (label: &'static str)
        ensures
            label@ == kind_label(*self),
    {
        match self {
            LidarKind::Stl27L => "STL-27L (시리얼)",
            LidarKind::Lds50CE => "LDS-50C-E (UDP)",
            LidarKind::Demo => "데모 (합성)",
        }
    }
}

/// The choice that a model name in the settings stands for. A name that is not known stands for
/// the STL-27L.
pub open spec fn kind_named(name: Seq<char>) -> LidarKind {
    if key_of(name) == "demo"@ {
        LidarKind::Demo
    } else if model_named(name) == Some(Model::Lds50CE) {
        LidarKind::Lds50CE
    } else {
        LidarKind::Stl27L
    }
}

/// The choice that a model name in the settings stands for; capitals and separators do not
/// matter.
pub fn kind_from_name(name: &str) -> (kind: LidarKind)
    ensures
        kind == kind_named(name@),
{
    let key: Vec<char> = name_key(name);
    if same_chars(&key, "demo") {
        return LidarKind::Demo;
    }
    match Model::from_name(name) {
        Some(Model::Lds50CE) => LidarKind::Lds50CE,
        _ => LidarKind::Stl27L,
    }
}

/// One row.
#[derive(Debug, Clone, PartialEq, Eq)]
pub struct LidarEntry {
    pub kind: LidarKind,
    pub port: String,
    pub baud: String,
    pub sensor_ip: String,
    pub command_port: String,
    pub host_ip: String,
    pub host_port: String,
}

/// The contents of a [`LidarEntry`].
pub struct EntryView {
    pub kind: LidarKind,
    pub port: Seq<char>,
    pub baud: Seq<char>,
    pub sensor_ip: Seq<char>,
    pub command_port: Seq<char>,
    pub host_ip: Seq<char>,
    pub host_port: Seq<char>,
}

impl View for LidarEntry {
    type V = EntryView;

    open spec fn view(&self) -> EntryView {
        EntryView {
            kind: self.kind,
            port: self.port@,
            baud: self.baud@,
            sensor_ip: self.sensor_ip@,
            command_port: self.command_port@,
            host_ip: self.host_ip@,
            host_port: self.host_port@,
        }
    }
}

/// The row for a LiDAR of the settings.
pub open spec fn entry_of(config: LidarConfigView) -> EntryView {
    EntryView {
        kind: kind_named(config.model),
        port: config.port,
        baud: decimal_of(config.baud as nat),
        sensor_ip: config.sensor_ip,
        command_port: decimal_of(config.command_port as nat),
        host_ip: config.host_ip,
        host_port: decimal_of(config.host_port as nat),
    }
}

/// The row that is added at position `index`: its own serial port, and its own port for data.
pub open spec fn default_entry(index: nat) -> EntryView {
    EntryView {
        kind: LidarKind::Stl27L,
        port: "/dev/ttyUSB"@ + decimal_of(index),
        baud: "921600"@,
        sensor_ip: "192.168.0.10"@,
        command_port: "6543"@,
        host_ip: "0.0.0.0"@,
        host_port: decimal_of(6789 + index % 0x1_0000),
    }
}

/// The number in a text field, with space around it; `default` where there is none.
pub open spec fn field_or(field: Seq<char>, max: nat, default: nat) -> nat {
    match number_in(trimmed(field), max) {
        Some(number) => number,
        None => default,
    }
}

/// What a row asks for.
pub open spec fn source_of(entry: EntryView) -> SourceView {
    match entry.kind {
        LidarKind::Demo => SourceView::Demo,
        LidarKind::Stl27L => SourceView::Serial {
            model: Model::Stl27L,
            port: entry.port,
            baud: field_or(entry.baud, u32::MAX as nat, 921_600) as u32,
        },
        LidarKind::Lds50CE => SourceView::Udp {
            model: Model::Lds50CE,
            sensor_ip: trimmed(entry.sensor_ip),
            command_port: field_or(entry.command_port, u16::MAX as nat, 6543) as u16,
            host_ip: trimmed(entry.host_ip),
            host_port: field_or(entry.host_port, u16::MAX as nat, 6789) as u16,
        },
    }
}

/// The short text by which a row's connection is shown.
pub open spec fn endpoint_of(entry: EntryView) -> Seq<char> {
    match entry.kind {
        LidarKind::Demo => "합성 데이터"@,
        LidarKind::Stl27L => entry.port,
        LidarKind::Lds50CE => entry.sensor_ip + ":"@ + entry.command_port,
    }
}

/// Reads a port number.
fn port_or(field: &str, default: u16) -> (port: u16)
    ensures
        port == field_or(field@, u16::MAX as nat, default as nat),
{
    match parse_number(trim(field), 0xFFFF) {
        Some(number) => number as u16,
        None => default,
    }
}

impl LidarEntry {
    /// The row for a LiDAR of the settings.
    pub fn from_config(c: &LidarConfig) -> (entry: Self)
        ensures
            entry@ == entry_of(c@),
    {
        LidarEntry {
            kind: kind_from_name(c.model.as_str()),
            port: c.port.clone(),
            baud: decimal(c.baud as u64),
            sensor_ip: c.sensor_ip.clone(),
            command_port: decimal(c.command_port as u64),
            host_ip: c.host_ip.clone(),
            host_port: decimal(c.host_port as u64),
        }
    }

    /// The row that is added at position `index`.
    pub fn new_default(index: usize) -> (entry: Self)
        requires
            index % 0x1_0000 + 6789 <= u16::MAX,
        ensures
            entry@ == default_entry(index as nat),
    {
        let mut port: String = String::from_str("/dev/ttyUSB");
        push_decimal(&mut port, index as u64);
        LidarEntry {
            kind: LidarKind::Stl27L,
            port,
            baud: String::from_str("921600"),
            sensor_ip: String::from_str("192.168.0.10"),
            command_port: String::from_str("6543"),
            host_ip: String::from_str("0.0.0.0"),
            host_port: decimal(6789 + (index % 0x1_0000) as u64),
        }
    }

    /// What the row asks for. Where a number cannot be read, the usual one is taken.
    pub fn to_source(&self) -> (source: Source)
        ensures
            source@ == source_of(self@),
    {
        match self.kind {
            LidarKind::Demo => Source::Demo,
            LidarKind::Stl27L => Source::Serial {
                model: Model::Stl27L,
                port: self.port.clone(),
                baud: match parse_number(trim(self.baud.as_str()), 0xFFFF_FFFF) {
                    Some(number) => number,
                    None => 921_600,
                },
            },
            LidarKind::Lds50CE => Source::Udp {
                model: Model::Lds50CE,
                sensor_ip: String::from_str(trim(self.sensor_ip.as_str())),
                command_port: port_or(self.command_port.as_str(), 6543),
                host_ip: String::from_str(trim(self.host_ip.as_str())),
                host_port: port_or(self.host_port.as_str(), 6789),
            },
        }
    }

    /// The short text by which the row's connection is shown.
    pub fn endpoint(&self) -> (text: String)
        ensures
            text@ == endpoint_of(self@),
    {
        match self.kind {
            LidarKind::Demo => String::from_str("합성 데이터"),
            LidarKind::Stl27L => self.port.clone(),
            LidarKind::Lds50CE => {
                let mut text: String = self.sensor_ip.clone();
                text.append(":");
                text.append(self.command_port.as_str());
                text
            },
        }
    }
}

/// What the settings say is what is connected: the row of a LiDAR, started as it is, asks for
/// the settings' own values, addresses without the space around them.
pub proof fn law_settings_are_what_starts(config: LidarConfigView)
    ensures
        source_of(entry_of(config)) == (match kind_named(config.model) {
            LidarKind::Demo => SourceView::Demo,
            LidarKind::Stl27L => SourceView::Serial {
                model: Model::Stl27L,
                port: config.port,
                baud: config.baud,
            },
            LidarKind::Lds50CE => SourceView::Udp {
                model: Model::Lds50CE,
                sensor_ip: trimmed(config.sensor_ip),
                command_port: config.command_port,
                host_ip: trimmed(config.host_ip),
                host_port: config.host_port,
            },
        }),
{
    lemma_number_field(config.baud as nat, u32::MAX as nat, 921_600);
    lemma_number_field(config.command_port as nat, u16::MAX as nat, 6543);
    lemma_number_field(config.host_port as nat, u16::MAX as nat, 6789);
}

/// A number put into a text field comes out again.
proof fn lemma_number_field(n: nat, max: nat, default: nat)
    requires
        n <= max,
    ensures
        field_or(decimal_of(n), max, default) == n,
{
    lemma_decimal_is_trimmed(n);
    law_decimal_reads_back(n, max);
}

/// A name that a model answers to makes a row of that model.
pub proof fn law_kind_follows_model(name: Seq<char>)
    ensures
        kind_named(name) is Lds50CE ==> model_named(name) == Some(Model::Lds50CE),
        model_named(name) == Some(Model::Lds50CE) ==> kind_named(name) is Lds50CE,
        model_named(name) == Some(Model::Stl27L) ==> kind_named(name) is Stl27L,
{
    reveal_strlit("demo");
    reveal_strlit("stl27l");
    reveal_strlit("lds50ce");
    reveal_strlit("lds50c");
    assert("demo"@.len() == 4);
    assert("stl27l"@.len() == 6);
    assert("lds50ce"@.len() == 7);
    assert("lds50c"@.len() == 6);
}

/// Rows that are added do not get in each other's way: they differ in the serial port and in the
/// port on which data is received.
pub proof fn law_added_rows_do_not_collide(i: nat, j: nat)
    requires
        i < 0x1_0000,
        j < 0x1_0000,
        i != j,
    ensures
        default_entry(i).port != default_entry(j).port,
        default_entry(i).host_port != default_entry(j).host_port,
{
    let max = i + j + 6789;
    law_decimal_reads_back(i, max);
    law_decimal_reads_back(j, max);
    law_decimal_reads_back(6789 + i, max);
    law_decimal_reads_back(6789 + j, max);
    let prefix = "/dev/ttyUSB"@;
    let n = prefix.len() as int;
    assert(default_entry(i).port.skip(n) =~= decimal_of(i));
    assert(default_entry(j).port.skip(n) =~= decimal_of(j));
    assert(decimal_of(i) != decimal_of(j));
    assert(decimal_of(6789 + i) != decimal_of(6789 + j));
    assert(default_entry(i).host_port == decimal_of(6789 + i));
    assert(default_entry(j).host_port == decimal_of(6789 + j));
}

/// Made-up data is chosen by the name `demo`, capitals and what is no letter or digit aside, and by
/// no other.
pub proof fn law_demo_is_chosen_by_name(name: Seq<char>)
    ensures
        kind_named(name) is Demo <==> key_of(name) == seq!['d', 'e', 'm', 'o'],
        kind_named(name) is Lds50CE <==> model_named(name) == Some(Model::Lds50CE),
{
    reveal_strlit("demo");
    assert("demo"@ =~= seq!['d', 'e', 'm', 'o']);
    law_kind_follows_model(name);
}

/// A row shows the settings: the texts as they are, and numbers that read back as they were.
pub proof fn law_row_shows_the_settings(config: LidarConfigView)
    ensures
        ({
            let row = entry_of(config);
            &&& row.port == config.port
            &&& row.sensor_ip == config.sensor_ip
            &&& row.host_ip == config.host_ip
            &&& number_in(row.baud, 0xFFFF_FFFF) == Some(config.baud as nat)
            &&& number_in(row.command_port, 0xFFFF) == Some(config.command_port as nat)
            &&& number_in(row.host_port, 0xFFFF) == Some(config.host_port as nat)
            &&& row.kind == kind_named(config.model)
        }),
{
    law_decimal_reads_back(config.baud as nat, 0xFFFF_FFFF);
    law_decimal_reads_back(config.command_port as nat, 0xFFFF);
    law_decimal_reads_back(config.host_port as nat, 0xFFFF);
}

/// What a serial row asks for: an STL-27L on the row's port as it is written, at the number that
/// its field holds, with space around it or not, and at 921,600 where it holds none.
pub proof fn law_serial_row(entry: EntryView)
    requires
        entry.kind is Stl27L,
    ensures
        ({
            let source = source_of(entry);
            let baud = number_in(trimmed(entry.baud), 0xFFFF_FFFF);
            &&& source is Serial
            &&& source->Serial_model == Model::Stl27L
            &&& source->port == entry.port
            &&& baud matches Some(number) ==> source->baud == number
            &&& baud is None ==> source->baud == 921_600
        }),
{
}

/// What a network row asks for: an LDS-50C-E at the row's addresses, without the space around
/// them, and at the ports that its fields hold, with space around them or not; at 6543 and 6789
/// where they hold none.
pub proof fn law_network_row(entry: EntryView)
    requires
        entry.kind is Lds50CE,
    ensures
        ({
            let source = source_of(entry);
            let command_port = number_in(trimmed(entry.command_port), 0xFFFF);
            let host_port = number_in(trimmed(entry.host_port), 0xFFFF);
            &&& source is Udp
            &&& source->Udp_model == Model::Lds50CE
            &&& source->sensor_ip == trimmed(entry.sensor_ip)
            &&& source->host_ip == trimmed(entry.host_ip)
            &&& command_port matches Some(number) ==> source->command_port == number
            &&& command_port is None ==> source->command_port == 6543
            &&& host_port matches Some(number) ==> source->host_port == number
            &&& host_port is None ==> source->host_port == 6789
        }),
{
}

/// A row of made-up data asks for made-up data, and no other row does.
pub proof fn law_demo_row(entry: EntryView)
    ensures
        source_of(entry) is Demo <==> entry.kind is Demo,
        source_of(entry) is Serial <==> entry.kind is Stl27L,
        source_of(entry) is Udp <==> entry.kind is Lds50CE,
{
}

/// The row that is added at a position: an STL-27L on the serial port of that number, and numbers
/// that read back as 921,600, 6543, and 6789 with the low 16 bits of the position.
pub proof fn law_added_row(index: nat)
    requires
        index <= u64::MAX,
        index % 0x1_0000 + 6789 <= 0xFFFF,
    ensures
        ({
            let row = default_entry(index);
            &&& row.kind is Stl27L
            &&& row.port.take(11) == "/dev/ttyUSB"@
            &&& number_in(row.port.skip(11), u64::MAX as nat) == Some(index)
            &&& number_in(row.baud, 0xFFFF_FFFF) == Some(921_600nat)
            &&& number_in(row.command_port, 0xFFFF) == Some(6543nat)
            &&& number_in(row.host_port, 0xFFFF) == Some((6789 + index % 0x1_0000) as nat)
            &&& row.sensor_ip == "192.168.0.10"@
            &&& row.host_ip == "0.0.0.0"@
        }),
{
    let row = default_entry(index);
    reveal_strlit("/dev/ttyUSB");
    assert(row.port.take(11) =~= "/dev/ttyUSB"@);
    assert(row.port.skip(11) =~= decimal_of(index));
    law_decimal_reads_back(index, u64::MAX as nat);
    law_decimal_reads_back(6789 + index % 0x1_0000, 0xFFFF);
    lemma_usual_numbers();
    law_decimal_reads_back(921_600, 0xFFFF_FFFF);
    law_decimal_reads_back(6543, 0xFFFF);
}

/// The usual numbers in decimal digits.
proof fn lemma_usual_numbers()
    ensures
        decimal_of(921_600) == "921600"@,
        decimal_of(6543) == "6543"@,
        decimal_of(0) == seq!['0'],
{
    reveal_strlit("921600");
    reveal_strlit("6543");
    law_decimal_goes_by_digits(0, 0);
    law_decimal_goes_by_digits(0, 9);
    law_decimal_goes_by_digits(9, 2);
    law_decimal_goes_by_digits(92, 1);
    law_decimal_goes_by_digits(921, 6);
    law_decimal_goes_by_digits(9_216, 0);
    law_decimal_goes_by_digits(92_160, 0);
    law_decimal_goes_by_digits(0, 6);
    law_decimal_goes_by_digits(6, 5);
    law_decimal_goes_by_digits(65, 4);
    law_decimal_goes_by_digits(654, 3);
    assert(decimal_of(921_600) =~= "921600"@);
    assert(decimal_of(6543) =~= "6543"@);
}

/// The first row that is added is the row of the LiDAR that is assumed where nothing is said.
pub proof fn law_first_row_is_the_default_lidar()
    ensures
        ({
            let added = default_entry(0);
            let assumed = entry_of(default_lidar());
            &&& added.port == assumed.port
            &&& added.baud == assumed.baud
            &&& added.sensor_ip == assumed.sensor_ip
            &&& added.command_port == assumed.command_port
            &&& added.host_ip == assumed.host_ip
            &&& added.host_port == assumed.host_port
            &&& added.kind == assumed.kind
        }),
{
    reveal_strlit("/dev/ttyUSB");
    reveal_strlit("/dev/ttyUSB0");
    reveal_strlit("STL-27L");
    reveal_strlit("demo");
    lemma_usual_numbers();
    assert("/dev/ttyUSB"@ + decimal_of(0) =~= "/dev/ttyUSB0"@);
    let name = "STL-27L"@;
    let n0 = Seq::<char>::empty();
    let n1 = n0.push('S');
    let n2 = n1.push('T');
    let n3 = n2.push('L');
    let n4 = n3.push('-');
    let n5 = n4.push('2');
    let n6 = n5.push('7');
    let n7 = n6.push('L');
    law_key_goes_by_characters(n0, 'S');
    law_key_goes_by_characters(n1, 'T');
    law_key_goes_by_characters(n2, 'L');
    law_key_goes_by_characters(n3, '-');
    law_key_goes_by_characters(n4, '2');
    law_key_goes_by_characters(n5, '7');
    law_key_goes_by_characters(n6, 'L');
    assert(name =~= n7);
    assert(key_of(name) =~= seq!['s', 't', 'l', '2', '7', 'l']);
    law_names_of_models(name);
    law_kind_follows_model(name);
}

/// How a connection is shown: a serial one by its port, a network one by its address, a colon and
/// its command port, as they are written.
pub proof fn law_endpoint_shows_the_fields(entry: EntryView)
    ensures
        entry.kind is Stl27L ==> endpoint_of(entry) == entry.port,
        entry.kind is Lds50CE ==> {
            let text = endpoint_of(entry);
            let colon = entry.sensor_ip.len() as int;
            &&& text.len() == colon + 1 + entry.command_port.len()
            &&& text.take(colon) == entry.sensor_ip
            &&& text[colon] == ':'
            &&& text.skip(colon + 1) == entry.command_port
        },
        entry.kind is Demo ==> endpoint_of(entry) == "합성 데이터"@,
{
    reveal_strlit(":");
    let text = endpoint_of(entry);
    let colon = entry.sensor_ip.len() as int;
    if entry.kind is Lds50CE {
        assert(text.take(colon) =~= entry.sensor_ip);
        assert(text.skip(colon + 1) =~= entry.command_port);
    }
}

/// The texts of the choices: the names of the models in front, and what stands for made-up data.
pub proof fn law_labels_of_choices()
    ensures
        kind_label(LidarKind::Stl27L).take(8) == "STL-27L "@,
        kind_label(LidarKind::Lds50CE).take(10) == "LDS-50C-E "@,
        kind_label(LidarKind::Stl27L).skip(8) == "(시리얼)"@,
        kind_label(LidarKind::Lds50CE).skip(10) == "(UDP)"@,
        kind_label(LidarKind::Demo) == "데모 (합성)"@,
{
    reveal_strlit("STL-27L (시리얼)");
    reveal_strlit("LDS-50C-E (UDP)");
    reveal_strlit("STL-27L ");
    reveal_strlit("LDS-50C-E ");
    reveal_strlit("(시리얼)");
    reveal_strlit("(UDP)");
    assert(kind_label(LidarKind::Stl27L).take(8) =~= "STL-27L "@);
    assert(kind_label(LidarKind::Lds50CE).take(10) =~= "LDS-50C-E "@);
    assert(kind_label(LidarKind::Stl27L).skip(8) =~= "(시리얼)"@);
    assert(kind_label(LidarKind::Lds50CE).skip(10) =~= "(UDP)"@);
}

} // verus!
