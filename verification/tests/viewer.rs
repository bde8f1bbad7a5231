//! What the viewer decides: colours, rows, buttons, and which points are drawn.

use egui::Color32;
use ldlidar::reader::data_collector::{ConnectionStatus, Scan, Source};
use ldlidar::reader::model::Model;
use ldlidar::reader::types::{LidarBody, LidarPoint};
use ldlidar::text::{decimal, name_key, parse_number, push_hex, same_chars, trim};
use ldlidar::viewer::config::{
    LidarConfig, Rgba, ScanConfig, ViewerConfig, filled, parse_hex_color, same_file,
};
use ldlidar::viewer::entry::{LidarEntry, LidarKind, kind_from_name};
use ldlidar::viewer::projection::{by_tier, in_range, intensity_tier};
use ldlidar::viewer::scan::{ScanBuffer, VisibleSample, is_expired};
use ldlidar::viewer::source::{feed_manner, points_of};
use ldlidar::viewer::state::{ViewerState, device_palette, status_indicator};

const MILLI: u64 = 1_000_000;

fn color32(color: Rgba) -> Color32 {
    Color32::from_rgba_premultiplied(color.r, color.g, color.b, color.a)
}

fn pt(angle: f32, distance_mm: u16, intensity: u8) -> LidarPoint {
    LidarPoint { angle_ticks: (angle * 11_000.0) as u64, distance_mm, intensity }
}

/// Where a point is drawn, in metres.
fn position(point: &LidarPoint) -> (f32, f32) {
    let distance_m = point.distance_mm as f32 / 1000.0;
    let rad = (point.angle_ticks as f32 / 11_000.0).to_radians();
    (distance_m * rad.cos(), distance_m * rad.sin())
}

/// Where a sample is drawn, in metres.
fn sample_position(sample: &VisibleSample, bins: usize) -> (f32, f32) {
    let distance_m = sample.distance_mm as f32 / 1000.0;
    let rad = sample.sector as f32 / bins as f32 * std::f32::consts::TAU;
    (distance_m * rad.cos(), distance_m * rad.sin())
}

#[test]
fn parses_six_digit_hex() {
    assert_eq!(
        parse_hex_color("#ff8800").map(color32),
        Some(Color32::from_rgb(255, 136, 0))
    );
}

#[test]
fn parses_short_hex() {
    assert_eq!(
        parse_hex_color("#f80").map(color32),
        Some(Color32::from_rgb(255, 136, 0))
    );
}

#[test]
fn rejects_garbage_hex() {
    assert_eq!(parse_hex_color("not-a-color"), None);
}

#[test]
fn parses_hex_with_alpha() {
    assert_eq!(
        parse_hex_color(" #FF880080\n").map(color32),
        Some(Color32::from_rgba_unmultiplied(255, 136, 0, 0x80))
    );
    assert_eq!(
        parse_hex_color("#ff880080"),
        Some(Rgba { r: 128, g: 68, b: 0, a: 128 })
    );
    assert_eq!(parse_hex_color("#ff880000"), Some(Rgba { r: 0, g: 0, b: 0, a: 0 }));
    assert_eq!(parse_hex_color("#ff8800ff"), Some(Rgba { r: 255, g: 136, b: 0, a: 255 }));
}

#[test]
fn alpha_is_multiplied_in_to_the_nearest() {
    for a in [0u8, 1, 2, 127, 128, 200, 254, 255] {
        for v in [0u8, 1, 100, 127, 128, 254, 255] {
            let text = format!("#{v:02x}00ff{a:02x}");
            let color = parse_hex_color(&text).unwrap();
            assert_eq!(color.r as u32, (2 * v as u32 * a as u32 + 255) / 510);
            assert_eq!(color.b, a);
            assert_eq!(color.a, a);
            assert_eq!(color32(color), Color32::from_rgba_unmultiplied(v, 0, 255, a));
        }
    }
}

#[test]
fn odd_hex_colors() {
    let rejected = [
        "", "#", "ff8800", "#ff880", "#ff88001", "#ff88g0", "#f+0000", "#한", "#1é234", "#+f+e+d",
        "#+f+f+f", "#+ff", "#+f+f+f+f",
    ];
    for text in rejected {
        assert_eq!(parse_hex_color(text), None, "{text}");
    }
}

#[test]
fn point_color_falls_back_to_green() {
    let mut config = ViewerConfig::default();
    assert_eq!(config.point_color(), Rgba { r: 0x34, g: 0xd3, b: 0x99, a: 255 });
    config.points.color = "#123".to_string();
    assert_eq!(config.point_color(), Rgba { r: 0x11, g: 0x22, b: 0x33, a: 255 });
    config.points.color = "none".to_string();
    assert_eq!(config.point_color(), Rgba { r: 0x34, g: 0xd3, b: 0x99, a: 255 });
}

#[test]
fn settings_have_defaults() {
    let config = ViewerConfig::default();
    assert_eq!(config.points.color, "#34d399");
    assert!(config.points.color_by_intensity);
    assert_eq!(
        config.scan,
        ScanConfig { max_range_mm: Some(12_000), show_range_rings: true }
    );
    assert_eq!(
        config.lidars,
        vec![LidarConfig {
            model: "STL-27L".to_string(),
            port: "/dev/ttyUSB0".to_string(),
            baud: 921_600,
            sensor_ip: "192.168.0.10".to_string(),
            command_port: 6543,
            host_ip: "0.0.0.0".to_string(),
            host_port: 6789,
        }]
    );
}

#[test]
fn an_empty_list_is_filled_with_one_default() {
    assert_eq!(filled(vec![]), vec![LidarConfig::default()]);
    let listed = vec![
        LidarConfig { baud: 1, ..LidarConfig::default() },
        LidarConfig { baud: 2, ..LidarConfig::default() },
    ];
    assert_eq!(filled(listed.clone()), listed);
}

#[test]
fn files_are_told_by_their_names() {
    assert!(same_file(Some(b"config.toml"), Some(b"config.toml"), false));
    assert!(!same_file(Some(b"config.toml"), Some(b"config.tom_"), true));
    assert!(!same_file(Some(b"config.toml"), Some(b"config"), true));
    assert!(same_file(None, Some(b"x"), true));
    assert!(!same_file(None, None, false));
}

#[test]
fn zero_degrees_lands_on_positive_x() {
    let out = in_range(&vec![pt(0.0, 1000, 200)], Some(12_000));
    let (x, y) = position(&out[0]);
    assert!((x - 1.0).abs() < 1e-3);
    assert!(y.abs() < 1e-3);
}

#[test]
fn projection_ninety_degrees_lands_on_positive_y() {
    let out = in_range(&vec![pt(90.0, 2000, 200)], Some(12_000));
    let (x, y) = position(&out[0]);
    assert!(x.abs() < 1e-3);
    assert!((y - 2.0).abs() < 1e-3);
}

#[test]
fn projection_out_of_range_points_are_filtered() {
    let out = in_range(&vec![pt(0.0, 20_000, 100), pt(0.0, 1000, 100)], Some(12_000));
    assert_eq!(out.len(), 1);
}

#[test]
fn range_limit_is_still_in_range() {
    let points = vec![pt(0.0, 12_000, 1), pt(0.0, 12_001, 2), pt(0.0, 0, 3)];
    assert_eq!(in_range(&points, Some(12_000)), vec![points[0], points[2]]);
    assert!(in_range(&points, None).is_empty());
    assert_eq!(in_range(&points, Some(u16::MAX)), points);
}

#[test]
fn strengths_fall_into_five_steps() {
    assert_eq!(intensity_tier(0), 0);
    assert_eq!(intensity_tier(51), 0);
    assert_eq!(intensity_tier(52), 1);
    assert_eq!(intensity_tier(102), 1);
    assert_eq!(intensity_tier(103), 2);
    assert_eq!(intensity_tier(204), 3);
    assert_eq!(intensity_tier(205), 4);
    assert_eq!(intensity_tier(255), 4);
    let points: Vec<LidarPoint> = [0u8, 255, 60, 1, 205, 128].map(|i| pt(1.0, 1, i)).to_vec();
    let tiers: Vec<Vec<u8>> = by_tier(&points)
        .iter()
        .map(|tier| tier.iter().map(|p| p.intensity).collect())
        .collect();
    assert_eq!(tiers, vec![vec![0, 1], vec![60], vec![128], vec![], vec![255, 205]]);
}

#[test]
fn ingest_then_convert_zero_degrees_lands_on_positive_x() {
    let mut scan = ScanBuffer::new(360);
    scan.ingest(&pt(0.0, 1000, 200), 0);
    let pts = scan.visible_samples(Some(12_000), None, 0);
    assert_eq!(pts.len(), 1);
    let (x, y) = sample_position(&pts[0], scan.bins());
    assert!((x - 1.0).abs() < 1e-3);
    assert!(y.abs() < 1e-3);
}

#[test]
fn scan_ninety_degrees_lands_on_positive_y() {
    let mut scan = ScanBuffer::new(360);
    scan.ingest(&pt(90.0, 2000, 200), 0);
    let pts = scan.visible_samples(Some(12_000), None, 0);
    let (x, y) = sample_position(&pts[0], scan.bins());
    assert!(x.abs() < 1e-3);
    assert!((y - 2.0).abs() < 1e-3);
}

#[test]
fn scan_zero_distance_is_discarded() {
    let mut scan = ScanBuffer::new(360);
    scan.ingest(&pt(45.0, 0, 100), 0);
    assert!(scan.visible_samples(Some(12_000), None, 0).is_empty());
}

#[test]
fn scan_out_of_range_points_are_filtered() {
    let mut scan = ScanBuffer::new(360);
    scan.ingest(&pt(0.0, 20_000, 100), 0);
    assert!(scan.visible_samples(Some(12_000), None, 0).is_empty());
}

#[test]
fn latest_sample_per_bucket_wins() {
    let mut scan = ScanBuffer::new(360);
    scan.ingest(&pt(0.0, 1000, 100), 0);
    scan.ingest(&pt(0.0, 3000, 100), 0);
    let pts = scan.visible_samples(Some(12_000), None, 0);
    assert_eq!(pts.len(), 1);
    assert!((sample_position(&pts[0], scan.bins()).0 - 3.0).abs() < 1e-3);
}

#[test]
fn point_survives_within_decay_window() {
    let mut scan = ScanBuffer::new(360);
    let t0 = 7 * MILLI;
    scan.ingest(&pt(0.0, 1000, 100), t0);
    let pts = scan.visible_samples(Some(12_000), Some(500 * MILLI), t0 + 300 * MILLI);
    assert_eq!(pts.len(), 1);
}

#[test]
fn point_expires_after_decay_window() {
    let mut scan = ScanBuffer::new(360);
    let t0 = 7 * MILLI;
    scan.ingest(&pt(0.0, 1000, 100), t0);
    let pts = scan.visible_samples(Some(12_000), Some(500 * MILLI), t0 + 600 * MILLI);
    assert!(pts.is_empty());
}

#[test]
fn none_decay_never_expires() {
    assert!(!is_expired(3600 * 1_000 * MILLI, None));
}

#[test]
fn decay_limit_is_not_expired() {
    assert!(!is_expired(5, Some(5)));
    assert!(is_expired(6, Some(5)));
}

#[test]
fn sectors_divide_the_turn() {
    let mut scan = ScanBuffer::new(4);
    for (angle, distance) in [(359.9, 1), (270.0, 2), (89.9, 3), (450.0, 4)] {
        scan.ingest(&pt(angle, distance, 0), 0);
    }
    let shown: Vec<(usize, u16)> = scan
        .visible_samples(Some(100), None, 0)
        .iter()
        .map(|s| (s.sector, s.distance_mm))
        .collect();
    assert_eq!(shown, vec![(0, 3), (1, 4), (3, 2)]);
}

#[test]
fn resizing_drops_what_was_held() {
    let mut scan = ScanBuffer::new(0);
    assert_eq!(scan.bins(), 1);
    scan.ingest(&pt(10.0, 5, 6), 3);
    scan.resize(0);
    assert_eq!(
        scan.visible_samples(Some(5), None, 3),
        vec![VisibleSample { sector: 0, distance_mm: 5, intensity: 6 }]
    );
    scan.resize(10);
    assert_eq!(scan.bins(), 10);
    assert!(scan.visible_samples(Some(5), None, 3).is_empty());
}

#[test]
fn kinds_follow_loose_names() {
    assert_eq!(kind_from_name("Demo"), LidarKind::Demo);
    assert_eq!(kind_from_name("d-e-m-o"), LidarKind::Demo);
    assert_eq!(kind_from_name("LDS-50C-E"), LidarKind::Lds50CE);
    assert_eq!(kind_from_name("stl_27l"), LidarKind::Stl27L);
    assert_eq!(kind_from_name("anything"), LidarKind::Stl27L);
    assert_eq!(
        LidarKind::ALL.map(|kind| kind.label()),
        ["STL-27L (시리얼)", "LDS-50C-E (UDP)", "데모 (합성)"]
    );
}

#[test]
fn settings_become_sources() {
    let mut config = LidarConfig {
        model: "LDS-50C-E".to_string(),
        port: "/dev/ttyACM3".to_string(),
        baud: 230_400,
        sensor_ip: " 10.0.0.7 ".to_string(),
        command_port: 1234,
        host_ip: "10.0.0.1".to_string(),
        host_port: 65_535,
    };
    let row = LidarEntry::from_config(&config);
    assert_eq!(row.baud, "230400");
    assert_eq!(row.endpoint(), " 10.0.0.7 :1234");
    assert_eq!(
        row.to_source(),
        Source::Udp {
            model: Model::Lds50CE,
            sensor_ip: "10.0.0.7".to_string(),
            command_port: 1234,
            host_ip: "10.0.0.1".to_string(),
            host_port: 65_535,
        }
    );
    config.model = "STL-27L".to_string();
    let row = LidarEntry::from_config(&config);
    assert_eq!(row.endpoint(), "/dev/ttyACM3");
    assert_eq!(
        row.to_source(),
        Source::Serial {
            model: Model::Stl27L,
            port: "/dev/ttyACM3".to_string(),
            baud: 230_400,
        }
    );
    config.model = "demo".to_string();
    let row = LidarEntry::from_config(&config);
    assert_eq!(row.to_source(), Source::Demo);
    assert_eq!(row.endpoint(), "합성 데이터");
}

#[test]
fn unreadable_numbers_become_the_usual_ones() {
    let mut row = LidarEntry::new_default(2);
    assert_eq!(row.port, "/dev/ttyUSB2");
    assert_eq!(row.host_port, "6791");
    row.baud = " +115200\t".to_string();
    assert!(matches!(row.to_source(), Source::Serial { baud: 115_200, .. }));
    row.baud = "fast".to_string();
    assert!(matches!(row.to_source(), Source::Serial { baud: 921_600, .. }));
    row.kind = LidarKind::Lds50CE;
    row.command_port = "65536".to_string();
    row.host_port = "-1".to_string();
    assert!(matches!(
        row.to_source(),
        Source::Udp { command_port: 6543, host_port: 6789, .. }
    ));
}

#[test]
fn rows_come_from_the_settings() {
    let mut config = ViewerConfig::default();
    config.lidars.clear();
    let state = ViewerState::new(config.clone());
    assert_eq!(state.entries, vec![LidarEntry::new_default(0)]);
    assert!(!state.running && state.settings_open && state.scans.is_empty());
    for i in 0..6 {
        config.lidars.push(LidarConfig { baud: i, ..LidarConfig::default() });
    }
    let state = ViewerState::new(config);
    let bauds: Vec<&str> = state.entries.iter().map(|e| e.baud.as_str()).collect();
    assert_eq!(bauds, ["0", "1", "2", "3"]);
}

#[test]
fn rows_are_added_and_cut() {
    let mut state = ViewerState::new(ViewerConfig::default());
    state.entries[0].port = "mine".to_string();
    state.resize_entries(9);
    assert_eq!(state.entries.len(), 4);
    assert_eq!(state.entries[0].port, "mine");
    assert_eq!(state.entries[3], LidarEntry::new_default(3));
    state.resize_entries(2);
    assert_eq!(state.entries.len(), 2);
    state.resize_entries(0);
    assert_eq!(state.entries.len(), 1);
    assert_eq!(state.entries[0].port, "mine");
}

#[test]
fn start_and_stop() {
    let mut state = ViewerState::new(ViewerConfig::default());
    state.resize_entries(2);
    let sources = state.start();
    assert_eq!(sources.len(), 2);
    assert!(matches!(&sources[1], Source::Serial { port, .. } if port == "/dev/ttyUSB1"));
    assert!(state.running && !state.settings_open);
    assert_eq!(state.scans, vec![Scan::default(), Scan::default()]);
    assert_eq!(state.toggle_label(), "⚙ 설정 열기");
    let scan = Scan { points: vec![pt(1.0, 2, 3)], rotation: 7 };
    state.update_scan(1, scan.clone());
    assert_eq!(state.scans, vec![Scan::default(), scan]);
    assert_eq!(state.status_line(1), "#2 STL-27L (시리얼) · /dev/ttyUSB1 · 1pts");
    assert_eq!(state.status_line(5), "#6  ·  · 0pts");
    state.press_stop();
    assert!(!state.running && state.settings_open && state.scans.is_empty());
    assert_eq!(state.toggle_label(), "⚙ 설정 닫기");
    state.toggle_settings();
    assert!(!state.settings_open);
    state.start();
    state.stop_all();
    assert!(!state.running && !state.settings_open && state.scans.is_empty());
}

#[test]
fn several_devices_have_their_own_colors() {
    let mut state = ViewerState::new(ViewerConfig::default());
    let mut config = ViewerConfig::default();
    config.points.color = "#000".to_string();
    state.set_config(config);
    state.start();
    assert_eq!(color32(state.device_color(0)), Color32::from_rgb(0, 0, 0));
    state.stop_all();
    state.resize_entries(4);
    state.start();
    assert_eq!(color32(state.device_color(0)), Color32::from_rgb(0x34, 0xd3, 0x99));
    assert_eq!(color32(state.device_color(1)), Color32::from_rgb(0x60, 0xa5, 0xfa));
    assert_eq!(color32(state.device_color(2)), Color32::from_rgb(0xfb, 0xbf, 0x24));
    assert_eq!(color32(state.device_color(3)), Color32::from_rgb(0xf4, 0x72, 0xb6));
    assert_eq!(device_palette(4), device_palette(0));
}

#[test]
fn statuses_have_a_color_and_a_text() {
    let shown = |status: ConnectionStatus| {
        let (color, text) = status_indicator(&status, "here");
        (color32(color), text)
    };
    assert_eq!(
        shown(ConnectionStatus::Connected),
        (Color32::from_rgb(0x34, 0xd3, 0x99), "연결됨 · here".to_string())
    );
    assert_eq!(
        shown(ConnectionStatus::Connecting),
        (Color32::from_rgb(0xfb, 0xbf, 0x24), "연결 중… · here".to_string())
    );
    assert_eq!(
        shown(ConnectionStatus::Error("gone".to_string())),
        (Color32::from_rgb(0xf8, 0x71, 0x71), "오류: gone".to_string())
    );
    assert_eq!(
        shown(ConnectionStatus::Demo),
        (Color32::from_rgb(0x60, 0xa5, 0xfa), "데모 데이터".to_string())
    );
}

#[test]
fn points_of_frames_in_order() {
    let body = |distances: &[u16]| LidarBody {
        speed_degrees_per_second: 0,
        start_angle_ticks: 0,
        end_angle_ticks: 0,
        timestamp_ms: 0,
        points: distances.iter().map(|&d| pt(0.0, d, 0)).collect(),
    };
    let points = points_of(&vec![body(&[1, 2]), body(&[]), body(&[3])]);
    let distances: Vec<u16> = points.iter().map(|p| p.distance_mm).collect();
    assert_eq!(distances, vec![1, 2, 3]);
    assert_eq!(feed_manner().settle, Some(120));
    assert_eq!(feed_manner().nap, 1_000);
}

#[test]
fn numbers_are_read_as_the_fields_show_them() {
    assert_eq!(parse_number("0", 10), Some(0));
    assert_eq!(parse_number("+7", 10), Some(7));
    assert_eq!(parse_number("00010", 10), Some(10));
    assert_eq!(parse_number("4294967295", u32::MAX), Some(u32::MAX));
    for text in ["", "+", "-1", "++1", "1 ", "1a", "11", "4294967296", "99999999999999999999999"] {
        assert_eq!(parse_number(text, 10), None, "{text}");
    }
    for n in [0u32, 9, 10, 921_600, u32::MAX] {
        assert_eq!(parse_number(&decimal(n as u64), u32::MAX), Some(n));
        assert_eq!(decimal(n as u64), n.to_string());
    }
    assert_eq!(decimal(u64::MAX), u64::MAX.to_string());
}

#[test]
fn texts_are_trimmed_like_str_trim() {
    for text in ["", " ", "a", "\t a b\r\n", "\u{3000}x\u{a0}", "\u{2028}\u{85}", "\u{200b}y"] {
        assert_eq!(trim(text), text.trim());
    }
    for code in 0..0x1_0000u32 {
        if let Some(c) = char::from_u32(code) {
            let text = format!("{c}x{c}");
            assert_eq!(trim(&text), text.trim());
        }
    }
}

#[test]
fn keys_keep_letters_and_digits() {
    let key: String = name_key("Lds-50C é_E").iter().collect();
    assert_eq!(key, "lds50ce");
    assert!(same_chars(&name_key("A b"), "ab"));
    assert!(!same_chars(&name_key("A b"), "abc"));
    assert!(!same_chars(&name_key("A b"), "ac"));
}

#[test]
fn hexadecimal_numbers_are_padded() {
    let hex = |n: usize, width: u8| {
        let mut text = String::new();
        push_hex(&mut text, n, width);
        text
    };
    assert_eq!(hex(0, 2), "00");
    assert_eq!(hex(0xab, 2), "ab");
    assert_eq!(hex(0x1_2345, 4), "12345");
    assert_eq!(hex(7, 0), "7");
}
