//! The settings of the viewer.
//!
//! Settings come from a file that is read again whenever it changes. Numbers that only the
//! drawing uses, such as the size of a point, are not kept here.

use crate::text::trim;
use vstd::prelude::*;

verus! {

use crate::text::{
    hex_of, law_hex_goes_by_digits, law_hex_of_byte, law_trimmed_has_no_space_around,
    law_trimming_takes_space_off, trimmed,
};

/// A colour with premultiplied alpha.
#[derive(Debug, Clone, Copy, PartialEq, Eq, Structural)]
pub struct Rgba {
    pub r: u8,
    pub g: u8,
    pub b: u8,
    pub a: u8,
}

/// An opaque colour.
pub open spec fn opaque_of(r: u8, g: u8, b: u8) -> Rgba {
    Rgba { r, g, b, a: 255 }
}

/// A channel times alpha, on a scale on which 255 is all of it: the nearest whole number.
pub open spec fn premultiplied(channel: u8, alpha: u8) -> u8 {
    ((2 * channel * alpha + 255) / 510) as u8
}

/// A colour given by separate alpha.
pub open spec fn translucent_of(r: u8, g: u8, b: u8, a: u8) -> Rgba {
    Rgba { r: premultiplied(r, a), g: premultiplied(g, a), b: premultiplied(b, a), a }
}

/// The premultiplied bytes of `egui::Color32::from_rgb`: the three channels as they are, and an
/// alpha of 255.
#[verifier::external_body]
fn opaque_bytes(r: u8, g: u8, b: u8) -> (bytes: [u8; 4])
    ensures
        bytes@ == seq![r, g, b, 255u8],
{
    egui::Color32::from_rgb(r, g, b).to_array()
}

/// The premultiplied bytes of `egui::Color32::from_rgba_unmultiplied`: each channel times alpha
/// over 255, to the nearest whole number, and alpha as it is.
#[verifier::external_body]
fn translucent_bytes(r: u8, g: u8, b: u8, a: u8) -> (bytes: [u8; 4])
    ensures
        bytes@ == seq![premultiplied(r, a), premultiplied(g, a), premultiplied(b, a), a],
{
    egui::Color32::from_rgba_unmultiplied(r, g, b, a).to_array()
}

/// An opaque colour.
pub fn opaque(r: u8, g: u8, b: u8) -> (color: Rgba)
    ensures
        color == opaque_of(r, g, b),
{
    let bytes: [u8; 4] = opaque_bytes(r, g, b);
    Rgba { r: bytes[0], g: bytes[1], b: bytes[2], a: bytes[3] }
}

/// A colour given by separate alpha.
pub fn translucent(r: u8, g: u8, b: u8, a: u8) -> (color: Rgba)
    ensures
        color == translucent_of(r, g, b, a),
{
    let bytes: [u8; 4] = translucent_bytes(r, g, b, a);
    Rgba { r: bytes[0], g: bytes[1], b: bytes[2], a: bytes[3] }
}

/// The value of a hexadecimal digit.
pub open spec fn nibble_of(c: char) -> Option<u8> {
    if '0' <= c <= '9' {
        Some((c as u32 - '0' as u32) as u8)
    } else if 'a' <= c <= 'f' {
        Some((c as u32 - 'a' as u32 + 10) as u8)
    } else if 'A' <= c <= 'F' {
        Some((c as u32 - 'A' as u32 + 10) as u8)
    } else {
        None
    }
}

/// The value of two hexadecimal digits.
pub open spec fn byte_of(first: char, second: char) -> Option<u8> {
    match (nibble_of(first), nibble_of(second)) {
        (Some(high), Some(low)) => Some((16 * high + low) as u8),
        _ => None,
    }
}

/// The byte written at position `i`.
pub open spec fn byte_at(hex: Seq<char>, i: int) -> Option<u8> {
    byte_of(hex[i], hex[i + 1])
}

/// The colour that a text stands for: `#RGB`, `#RRGGBB` or `#RRGGBBAA` in hexadecimal digits, with
/// space around it.
pub open spec fn color_of(text: Seq<char>) -> Option<Rgba> {
    let trimmed = trimmed(text);
    if trimmed.len() == 0 || trimmed[0] != '#' {
        None
    } else {
        let hex = trimmed.skip(1);
        if hex.len() == 6 {
            match (byte_at(hex, 0), byte_at(hex, 2), byte_at(hex, 4)) {
                (Some(r), Some(g), Some(b)) => Some(opaque_of(r, g, b)),
                _ => None,
            }
        } else if hex.len() == 8 {
            match (byte_at(hex, 0), byte_at(hex, 2), byte_at(hex, 4), byte_at(hex, 6)) {
                (Some(r), Some(g), Some(b), Some(a)) => Some(translucent_of(r, g, b, a)),
                _ => None,
            }
        } else if hex.len() == 3 {
            match (nibble_of(hex[0]), nibble_of(hex[1]), nibble_of(hex[2])) {
                (Some(r), Some(g), Some(b)) => Some(
                    opaque_of((17 * r) as u8, (17 * g) as u8, (17 * b) as u8),
                ),
                _ => None,
            }
        } else {
            None
        }
    }
}

/// The value of a hexadecimal digit.
fn nibble(c: char) -> (value: Option<u8>)
    ensures
        value == nibble_of(c),
        value matches Some(v) ==> v < 16,
{
    if '0' <= c && c <= '9' {
        Some((c as u32 - '0' as u32) as u8)
    } else if 'a' <= c && c <= 'f' {
        Some((c as u32 - 'a' as u32 + 10) as u8)
    } else if 'A' <= c && c <= 'F' {
        Some((c as u32 - 'A' as u32 + 10) as u8)
    } else {
        None
    }
}

/// The byte written at position `i`.
fn byte(hex: &str, i: usize) -> (value: Option<u8>)
    requires
        i <= 6,
        i + 1 < hex@.len(),
    ensures
        value == byte_at(hex@, i as int),
{
    match (nibble(hex.get_char(i)), nibble(hex.get_char(i + 1))) {
        (Some(high), Some(low)) => Some(16 * high + low),
        _ => None,
    }
}

/// Reads a colour.
pub fn parse_hex_color(input: &str) -> (color: Option<Rgba>)
    ensures
        color == color_of(input@),
{
    let text: &str = trim(input);
    let count: usize = text.unicode_len();
    if count == 0 || text.get_char(0) != '#' {
        return None;
    }
    let hex: &str = text.substring_char(1, count);
    assert(hex@ =~= text@.skip(1));
    if count == 7 {
        match (byte(hex, 0), byte(hex, 2), byte(hex, 4)) {
            (Some(r), Some(g), Some(b)) => Some(opaque(r, g, b)),
            _ => None,
        }
    } else if count == 9 {
        match (byte(hex, 0), byte(hex, 2), byte(hex, 4), byte(hex, 6)) {
            (Some(r), Some(g), Some(b), Some(a)) => Some(translucent(r, g, b, a)),
            _ => None,
        }
    } else if count == 4 {
        match (nibble(hex.get_char(0)), nibble(hex.get_char(1)), nibble(hex.get_char(2))) {
            (Some(r), Some(g), Some(b)) => Some(opaque(17 * r, 17 * g, 17 * b)),
            _ => None,
        }
    } else {
        None
    }
}

/// How points are drawn.
#[derive(Debug, Clone, PartialEq, Eq)]
pub struct PointsConfig {
    /// The colour, `#RRGGBB` or `#RRGGBBAA`.
    pub color: String,
    /// Whether the signal strength shows in the brightness.
    pub color_by_intensity: bool,
}

/// What is drawn.
#[derive(Debug, Clone, Copy, PartialEq, Eq, Structural)]
pub struct ScanConfig {
    /// The farthest distance that is drawn; `None` where nothing is.
    pub max_range_mm: Option<u16>,
    /// Whether circles of equal distance are drawn.
    pub show_range_rings: bool,
}

/// One LiDAR. A model uses what it needs of it.
#[derive(Debug, Clone, PartialEq, Eq)]
pub struct LidarConfig {
    /// The model: `STL-27L`, `LDS-50C-E` or `Demo`.
    pub model: String,
    /// The serial port.
    pub port: String,
    /// The speed of the serial line.
    pub baud: u32,
    /// The address to which commands go.
    pub sensor_ip: String,
    /// The port to which commands go.
    pub command_port: u16,
    /// The address on which data is received.
    pub host_ip: String,
    /// The port on which data is received. Each LiDAR needs its own.
    pub host_port: u16,
}

/// The contents of a [`LidarConfig`].
pub struct LidarConfigView {
    pub model: Seq<char>,
    pub port: Seq<char>,
    pub baud: u32,
    pub sensor_ip: Seq<char>,
    pub command_port: u16,
    pub host_ip: Seq<char>,
    pub host_port: u16,
}

impl View for LidarConfig {
    type V = LidarConfigView;

    open spec fn view(&self) -> LidarConfigView {
        LidarConfigView {
            model: self.model@,
            port: self.port@,
            baud: self.baud,
            sensor_ip: self.sensor_ip@,
            command_port: self.command_port,
            host_ip: self.host_ip@,
            host_port: self.host_port,
        }
    }
}

/// The settings.
#[derive(Debug, Clone, PartialEq, Eq)]
pub struct ViewerConfig {
    pub points: PointsConfig,
    pub scan: ScanConfig,
    /// The LiDARs, each with its own model and parameters.
    pub lidars: Vec<LidarConfig>,
}

impl Default for PointsConfig {
    fn default() -> (config: Self)
        ensures
            config.color@ == "#34d399"@,
            config.color_by_intensity,
    {
        PointsConfig { color: String::from_str("#34d399"), color_by_intensity: true }
    }
}

impl Default for ScanConfig {
    fn default() -> (config: Self)
        ensures
            config.max_range_mm == Some(12_000u16),
            config.show_range_rings,
    {
        ScanConfig { max_range_mm: Some(12_000), show_range_rings: true }
    }
}

/// The LiDAR that is assumed where nothing is said.
pub open spec fn default_lidar() -> LidarConfigView {
    LidarConfigView {
        model: "STL-27L"@,
        port: "/dev/ttyUSB0"@,
        baud: 921_600,
        sensor_ip: "192.168.0.10"@,
        command_port: 6543,
        host_ip: "0.0.0.0"@,
        host_port: 6789,
    }
}

impl Default for LidarConfig {
    fn default() -> (config: Self)
        ensures
            config@ == default_lidar(),
    {
        LidarConfig {
            model: String::from_str("STL-27L"),
            port: String::from_str("/dev/ttyUSB0"),
            baud: 921_600,
            sensor_ip: String::from_str("192.168.0.10"),
            command_port: 6543,
            host_ip: String::from_str("0.0.0.0"),
            host_port: 6789,
        }
    }
}

impl Default for ViewerConfig {
    fn default() -> (config: Self)
        ensures
            config.points.color@ == "#34d399"@,
            config.points.color_by_intensity,
            config.scan.max_range_mm == Some(12_000u16),
            config.scan.show_range_rings,
            config.lidars@.len() == 1,
            config.lidars@[0]@ == default_lidar(),
    {
        let mut lidars: Vec<LidarConfig> = Vec::new();
        lidars.push(LidarConfig::default());
        ViewerConfig { points: PointsConfig::default(), scan: ScanConfig::default(), lidars }
    }
}

/// The LiDARs of the settings: where none is listed, there is one with default values.
pub fn filled(lidars: Vec<LidarConfig>) -> (out: Vec<LidarConfig>)
    ensures
        lidars@.len() > 0 ==> out == lidars,
        lidars@.len() == 0 ==> out@.len() == 1 && out@[0]@ == default_lidar(),
{
    if lidars.len() > 0 {
        return lidars;
    }
    let mut out: Vec<LidarConfig> = Vec::new();
    out.push(LidarConfig::default());
    out
}

/// The colour of points for a text in the settings: green where the text is no colour.
pub open spec fn point_color_of(text: Seq<char>) -> Rgba {
    match color_of(text) {
        Some(color) => color,
        None => opaque_of(0x34, 0xd3, 0x99),
    }
}

impl ViewerConfig {
    /// The colour of points.
    pub fn point_color(&self) -> (color: Rgba)
        ensures
            color == point_color_of(self.points.color@),
    {
        match parse_hex_color(self.points.color.as_str()) {
            Some(color) => color,
            None => opaque(0x34, 0xd3, 0x99),
        }
    }
}

/// Whether two paths mean the same file. The directory in front may be written in different
/// ways, so the file names decide; where a path has none, the paths themselves do.
pub fn same_file(a: Option<&[u8]>, b: Option<&[u8]>, same_path: bool) -> (same: bool)
    ensures
        same == (match (a, b) {
            (Some(x), Some(y)) => x@ == y@,
            _ => same_path,
        }),
{
    match (a, b) {
        (Some(x), Some(y)) => same_bytes(x, y),
        _ => same_path,
    }
}

/// Whether two byte sequences are equal.
fn same_bytes(x: &[u8], y: &[u8]) -> (same: bool)
    ensures
        same == (x@ == y@),
{
    if x.len() != y.len() {
        return false;
    }
    let mut i: usize = 0;
    while i < x.len()
        invariant
            i <= x@.len(),
            x@.len() == y@.len(),
            forall|j: int| 0 <= j < i ==> x@[j] == y@[j],
        decreases x@.len() - i,
    {
        if x[i] != y[i] {
            return false;
        }
        i = i + 1;
    }
    assert(x@ =~= y@);
    true
}

/// A colour with full alpha is the opaque colour, and no alpha leaves nothing.
pub proof fn law_alpha_ends(r: u8, g: u8, b: u8)
    ensures
        translucent_of(r, g, b, 255) == opaque_of(r, g, b),
        translucent_of(r, g, b, 0) == (Rgba { r: 0, g: 0, b: 0, a: 0 }),
{
}

/// A colour has nothing but hexadecimal digits behind its first character.
pub proof fn law_colors_have_only_digits(text: Seq<char>, i: int)
    requires
        color_of(text) is Some,
        0 < i < trimmed(text).len(),
    ensures
        nibble_of(trimmed(text)[i]) is Some,
{
    let hex = trimmed(text).skip(1);
    assert(hex[i - 1] == trimmed(text)[i]);
    assert(hex.len() == 8 ==> byte_at(hex, 0) is Some && byte_at(hex, 2) is Some && byte_at(hex, 4)
        is Some && byte_at(hex, 6) is Some);
}

/// A short colour is the long one with each digit twice.
pub proof fn law_short_color_doubles_digits(r: char, g: char, b: char)
    requires
        nibble_of(r) is Some,
        nibble_of(g) is Some,
        nibble_of(b) is Some,
    ensures
        color_of(seq!['#', r, g, b]) == color_of(seq!['#', r, r, g, g, b, b]),
        color_of(seq!['#', r, g, b]) is Some,
{
    let short = seq!['#', r, g, b];
    let long = seq!['#', r, r, g, g, b, b];
    lemma_nothing_to_trim(short);
    lemma_nothing_to_trim(long);
    assert(short.skip(1) =~= seq![r, g, b]);
    assert(long.skip(1) =~= seq![r, r, g, g, b, b]);
}

/// Nothing is trimmed off a text that begins and ends with no space.
proof fn lemma_nothing_to_trim(text: Seq<char>)
    requires
        text.len() > 0,
        !crate::text::is_space(text[0]),
        !crate::text::is_space(text.last()),
    ensures
        trimmed(text) == text,
{
}

/// The value of a hexadecimal digit: each digit, as it is written, and each letter in either case;
/// nothing else is one.
pub proof fn law_values_of_digits(value: u8, c: char)
    requires
        value < 16,
    ensures
        nibble_of(hex_of(value as nat, 1)[0]) == Some(value),
        'A' <= c <= 'F' ==> nibble_of(c) == nibble_of((c as u32 + 32) as char),
        nibble_of(c) is Some <==> '0' <= c <= '9' || 'a' <= c <= 'f' || 'A' <= c <= 'F',
        nibble_of(c) matches Some(v) ==> v < 16,
{
    law_hex_goes_by_digits(0, 0, value as nat);
}

/// A channel with alpha is the nearest whole number to channel times alpha over 255.
pub proof fn law_premultiplied_is_nearest(channel: u8, alpha: u8)
    ensures
        -255 <= 510 * premultiplied(channel, alpha) - 2 * (channel * alpha) <= 255,
{
    let product = channel as int * alpha as int;
    assert(0 <= product <= 255 * 255) by (nonlinear_arith)
        requires
            0 <= channel <= 255,
            0 <= alpha <= 255,
            product == channel as int * alpha as int,
    ;
    assert(2 * channel * alpha == 2 * product) by (nonlinear_arith)
        requires
            product == channel as int * alpha as int,
    ;
}

/// A colour written in hexadecimal digits reads back as that colour, opaque.
pub proof fn law_color_reads_back(r: u8, g: u8, b: u8)
    ensures
        color_of(
            seq!['#'] + hex_of(r as nat, 2) + hex_of(g as nat, 2) + hex_of(b as nat, 2),
        ) == Some(Rgba { r, g, b, a: 255 }),
{
    let text = seq!['#'] + hex_of(r as nat, 2) + hex_of(g as nat, 2) + hex_of(b as nat, 2);
    lemma_byte_reads_back(r);
    lemma_byte_reads_back(g);
    lemma_byte_reads_back(b);
    lemma_digit_is_no_space(text.last());
    lemma_nothing_to_trim(text);
    let hex = text.skip(1);
    assert(hex =~= hex_of(r as nat, 2) + hex_of(g as nat, 2) + hex_of(b as nat, 2));
}

/// A colour with alpha reads back as well: alpha as it is, and each channel times alpha over 255,
/// to the nearest whole number.
pub proof fn law_translucent_color_reads_back(r: u8, g: u8, b: u8, a: u8)
    ensures
        ({
            let color = color_of(
                seq!['#'] + hex_of(r as nat, 2) + hex_of(g as nat, 2) + hex_of(b as nat, 2)
                    + hex_of(a as nat, 2),
            );
            &&& color is Some
            &&& color->0.a == a
            &&& -255 <= 510 * color->0.r - 2 * (r * a) <= 255
            &&& -255 <= 510 * color->0.g - 2 * (g * a) <= 255
            &&& -255 <= 510 * color->0.b - 2 * (b * a) <= 255
        }),
{
    let text = seq!['#'] + hex_of(r as nat, 2) + hex_of(g as nat, 2) + hex_of(b as nat, 2) + hex_of(
        a as nat,
        2,
    );
    lemma_byte_reads_back(r);
    lemma_byte_reads_back(g);
    lemma_byte_reads_back(b);
    lemma_byte_reads_back(a);
    lemma_digit_is_no_space(text.last());
    lemma_nothing_to_trim(text);
    let hex = text.skip(1);
    assert(hex =~= hex_of(r as nat, 2) + hex_of(g as nat, 2) + hex_of(b as nat, 2) + hex_of(
        a as nat,
        2,
    ));
    law_premultiplied_is_nearest(r, a);
    law_premultiplied_is_nearest(g, a);
    law_premultiplied_is_nearest(b, a);
}

/// A byte written in two hexadecimal digits reads back as that byte.
proof fn lemma_byte_reads_back(byte: u8)
    ensures
        ({
            let digits = hex_of(byte as nat, 2);
            &&& digits.len() == 2
            &&& byte_of(digits[0], digits[1]) == Some(byte)
        }),
{
    law_hex_of_byte(byte);
    law_hex_goes_by_digits(0, 0, (byte / 16) as nat);
    law_hex_goes_by_digits(0, 0, (byte % 16) as nat);
    law_values_of_digits(byte / 16, '0');
    law_values_of_digits(byte % 16, '0');
}

proof fn lemma_digit_is_no_space(c: char)
    requires
        nibble_of(c) is Some,
    ensures
        !crate::text::is_space(c),
{
}

/// What is a colour: without the space around it, `#` and then 3, 6 or 8 hexadecimal digits.
pub proof fn law_what_a_color_is(text: Seq<char>)
    ensures
        color_of(text) is Some <==> {
            let inner = trimmed(text);
            &&& inner.len() == 4 || inner.len() == 7 || inner.len() == 9
            &&& inner[0] == '#'
            &&& forall|i: int|
                0 < i < inner.len() ==> '0' <= #[trigger] inner[i] <= '9' || 'a' <= inner[i] <= 'f'
                    || 'A' <= inner[i] <= 'F'
        },
{
    let inner = trimmed(text);
    let hex = inner.skip(1);
    if color_of(text) is Some {
        assert forall|i: int| 0 < i < inner.len() implies '0' <= #[trigger] inner[i] <= '9' || 'a'
            <= inner[i] <= 'f' || 'A' <= inner[i] <= 'F' by {
            law_colors_have_only_digits(text, i);
        }
    } else if (inner.len() == 4 || inner.len() == 7 || inner.len() == 9) && inner[0] == '#' {
        if forall|i: int|
            0 < i < inner.len() ==> '0' <= #[trigger] inner[i] <= '9' || 'a' <= inner[i] <= 'f'
                || 'A' <= inner[i] <= 'F' {
            assert forall|i: int| 0 <= i < hex.len() implies nibble_of(#[trigger] hex[i]) is Some by {
                assert(hex[i] == inner[i + 1]);
            }
        }
    }
}

/// Space around a colour does not matter.
pub proof fn law_space_around_a_color(before: Seq<char>, text: Seq<char>, after: Seq<char>)
    requires
        forall|i: int| 0 <= i < before.len() ==> crate::text::is_space(#[trigger] before[i]),
        forall|i: int| 0 <= i < after.len() ==> crate::text::is_space(#[trigger] after[i]),
        color_of(text) is Some,
        trimmed(text) == text,
    ensures
        color_of(before + text + after) == color_of(text),
{
    law_trimmed_has_no_space_around(text);
    law_trimming_takes_space_off(before, text, after);
}

/// A text that is no colour stands for the green `#34d399`, and every other text for its colour.
pub proof fn law_points_are_green_otherwise(text: Seq<char>)
    ensures
        color_of(text) matches Some(color) ==> point_color_of(text) == color,
        color_of(text) is None ==> point_color_of(text) == (Rgba {
            r: 0x34,
            g: 0xd3,
            b: 0x99,
            a: 0xff,
        }),
        color_of("#34d399"@) == Some(Rgba { r: 0x34, g: 0xd3, b: 0x99, a: 0xff }),
{
    reveal_strlit("#34d399");
    lemma_nothing_to_trim("#34d399"@);
}

/// The LiDAR that is assumed, in numbers: 921,600 baud, commands to port 6543, data on port 6789.
pub proof fn law_default_numbers()
    ensures
        default_lidar().baud == 921_600,
        default_lidar().command_port == 6543,
        default_lidar().host_port == 6789,
{
}

/// The settings of a LiDAR show their fields, each as it is.
pub proof fn law_settings_show_their_fields(config: LidarConfig)
    ensures
        config@.model == config.model@,
        config@.port == config.port@,
        config@.baud == config.baud,
        config@.sensor_ip == config.sensor_ip@,
        config@.command_port == config.command_port,
        config@.host_ip == config.host_ip@,
        config@.host_port == config.host_port,
{
}

} // verus!
