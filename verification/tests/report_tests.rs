use displayz::clock::{filetime_parts, format_filetime, format_time, CalendarTime};
use displayz::config::PathInfo;
use displayz::connectivity::{ConnectivityEntry, OrphanedConfigEntry};
use displayz::display::DisplaySet;
use displayz::display_sets::current_prefixes;
use displayz::properties::{DisplayProperties, DisplaySettings};
use displayz::query::{query_displays, QueriedConfig};
use displayz::report::{
    database_report, display_list, display_report, entry_report, not_found, orphan_report,
    query_flags, shown_displays, stored_report, topology_report, EntryTimes,
};
use displayz::text::{
    begins_with, decimal_text, join_text, read_signed, read_unsigned, same_text,
    signed_decimal_text, split_text, text_before, text_before_other, zero_padded_text,
};
use displayz::topology::Topology;
use displayz::types::{
    BitDepth, ConnectorType, Frequency, Orientation, Position, Resolution, Scaling,
    ScanlineOrdering,
};
use displayz::watch::{current_display_set, current_report, Observation};

fn three_displays() -> DisplaySet {
    let settings = DisplaySettings {
        position: Position::new(0, -5),
        resolution: Resolution { width: 3840, height: 2160 },
        frequency: Frequency(120),
        orientation: Orientation::PortraitFlipped,
        scaling: Scaling(1),
        bit_depth: BitDepth(32),
        scanline_ordering: ScanlineOrdering(1),
    };
    let display = |name: &str,
                   key: &str,
                   settings: Option<DisplaySettings>,
                   connector: Option<i32>,
                   available: bool| DisplayProperties {
        name: name.to_string(),
        string: "Screen".to_string(),
        key: key.to_string(),
        settings,
        connector_type: connector.map(ConnectorType),
        target_available: available,
        active: settings.is_some(),
        primary: settings.is_some(),
    };
    let path = PathInfo {
        source_mode_idx: 0,
        target_mode_idx: 0,
        adapter_low: 0,
        adapter_high: 0,
        target_id: 0,
        rotation: 1,
        scaling: 1,
        flags: 0,
    };
    query_displays(1, false)
        .sized(Ok((3, 0)))
        .unwrap()
        .queried(Ok(QueriedConfig {
            num_paths: 3,
            num_modes: 0,
            paths: vec![path, path, path],
            modes: vec![],
        }))
        .unwrap()
        .described(vec![
            Ok(display("D1", "x#DEL430F#1", None, None, false)),
            Ok(display("D2", "x#SNY07CB#2", Some(settings), Some(5), true)),
            Ok(display("D3", "plain", None, Some(0), true)),
        ])
        .unwrap()
}

#[test]
fn flags_of_a_query() {
    assert_eq!(query_flags(false, false), (2, false));
    assert_eq!(query_flags(false, true), (1, true));
    assert_eq!(query_flags(true, false), (1, false));
    assert_eq!(query_flags(true, true), (1, false));
}

#[test]
fn shown_displays_are_available() {
    let set = three_displays();
    let indices = |all: bool| shown_displays(&set, all).iter().map(|d| d.index()).collect::<Vec<usize>>();
    assert_eq!(indices(false), vec![1, 2]);
    assert_eq!(indices(true), vec![0, 1, 2]);
}

#[test]
fn prefixes_of_connected_monitors() {
    assert_eq!(current_prefixes(&three_displays()), vec!["SNY07CB".to_string()]);
}

#[test]
fn report_of_one_display() {
    let set = three_displays();
    let lines = display_report(&set, &set.get(1).unwrap());
    assert_eq!(
        lines,
        vec![
            "Display ID: 1",
            "Windows Display Number: 2",
            "Name:       D2",
            "String:     Screen",
            "Key:        x#SNY07CB#2",
            "Primary:    true",
            "Connector:  HDMI",
            "Available:  true",
            "",
            "Settings:",
            "  Position:          0,-5",
            "  Resolution:        3840x2160",
            "  Frequency:         120 Hz",
            "  Orientation:       portrait_flipped",
            "  Scaling:           Identity",
            "  Bit Depth:         32",
            "  Scanline Ordering: Progressive",
        ]
    );
}

#[test]
fn report_of_all_displays() {
    let set = three_displays();
    let shown = vec![set.get(0).unwrap(), set.get(2).unwrap()];
    let lines = display_list(&set, &shown);
    assert_eq!(
        lines,
        vec![
            "All Displays:",
            "",
            "Display ID: 0",
            "Windows Display Number: 1",
            "Name:       D1",
            "String:     Screen",
            "Key:        x#DEL430F#1",
            "Primary:    false",
            "Available:  false",
            "Settings:   None (Inactive)",
            "",
            "Display ID: 2",
            "Windows Display Number: 3",
            "Name:       D3",
            "String:     Screen",
            "Key:        plain",
            "Primary:    false",
            "Connector:  VGA",
            "Available:  true",
            "Settings:   None (Inactive)",
            "",
        ]
    );
    assert_eq!(not_found(12), "Display with id 12 not found");
}

#[test]
fn reports_of_topologies() {
    assert_eq!(topology_report(&Topology::Clone), "Topology: Clone");
    assert_eq!(
        stored_report(&vec![(Topology::Internal, false), (Topology::External, true)]),
        vec![
            "Stored topologies for current display set:",
            "    Internal",
            "  * External (current)",
        ]
    );
    assert_eq!(
        stored_report(&vec![]),
        vec!["No stored topologies found for the current display set."]
    );
}

fn entry() -> ConnectivityEntry {
    ConnectivityEntry {
        key_name: "S^H".to_string(),
        set_id: "S".to_string(),
        recent: None,
        internal: Some("a".to_string()),
        external: None,
        extend: Some("b".to_string()),
        clone: None,
        internal_timestamp: Some(7),
        external_timestamp: None,
        extend_timestamp: None,
        clone_timestamp: Some(9),
    }
}

const TIME: CalendarTime =
    CalendarTime { year: 2024, month: 2, day: 3, hour: 4, minute: 5, second: 6 };

#[test]
fn report_of_a_display_set() {
    let times = EntryTimes { internal: Some(TIME), external: None, extend: None, clone: Some(TIME) };
    assert_eq!(
        entry_report(&entry(), true, true, &times),
        vec![
            "Display set: [current set]",
            "  Monitors:   S",
            "  Full key:   S^H",
            "  Remembered: Unknown",
            "  Available:  Internal [2024-02-03 04:05:06], Extend",
            "",
        ]
    );
}

#[test]
fn report_of_an_empty_orphaned_display_set() {
    let mut e = entry();
    e.internal = None;
    e.extend = None;
    e.internal_timestamp = None;
    e.clone_timestamp = None;
    let times = EntryTimes { internal: None, external: None, extend: None, clone: None };
    assert_eq!(
        entry_report(&e, false, true, &times),
        vec![
            "Display set:",
            "  Monitors:   S",
            "  Full key:   S^H",
            "  Remembered: Unknown",
            "  Available:  (none)",
            "  Has configuration key: false",
            "",
        ]
    );
    assert_eq!(entry_report(&e, false, false, &times).len(), 6);
}

#[test]
fn report_of_an_orphan() {
    let orphan = OrphanedConfigEntry {
        key_name: "c^H".to_string(),
        config_id: "c".to_string(),
        timestamp: 133,
    };
    assert_eq!(
        orphan_report(&orphan, None),
        vec![
            "Configuration entry:",
            "  Config ID:  c",
            "  Full key:   c^H",
            "  Timestamp:  ts:133",
            "  Has connectivity key: false",
            "",
        ]
    );
}

#[test]
fn report_of_the_database() {
    let none = EntryTimes { internal: None, external: None, extend: None, clone: None };
    let some = EntryTimes { internal: Some(TIME), ..none };
    let mut old = entry();
    old.set_id = "SNY07CB16843009_01_07E7_C7".to_string();
    old.internal_timestamp = Some(3);
    old.clone_timestamp = None;
    let mut current = entry();
    current.set_id = "DEL430F6C19C34_34_07E8_46".to_string();
    current.recent = Some("b".to_string());
    current.internal_timestamp = None;
    current.extend_timestamp = Some(1);
    current.clone_timestamp = None;
    let entries = vec![old, current];
    let orphans = vec![OrphanedConfigEntry {
        key_name: "c^H".to_string(),
        config_id: "c".to_string(),
        timestamp: 133,
    }];
    let codes = vec!["DEL430F".to_string()];
    let lines = |orphaned: bool| {
        database_report(
            &entries,
            &orphans,
            &codes,
            orphaned,
            false,
            &vec![some, none],
            &vec![Some(TIME)],
        )
    };
    let sets = vec![
        "Display set: [current set]",
        "  Monitors:   DEL430F6C19C34_34_07E8_46",
        "  Full key:   S^H",
        "  Remembered: Extend",
        "  Available:  Internal, Extend [ts:1]",
        "",
        "Display set:",
        "  Monitors:   SNY07CB16843009_01_07E7_C7",
        "  Full key:   S^H",
        "  Remembered: Unknown",
        "  Available:  Internal [2024-02-03 04:05:06], Extend",
        "",
    ];
    assert_eq!(lines(false), sets);
    let orphan = vec![
        "Configuration entry:",
        "  Config ID:  c",
        "  Full key:   c^H",
        "  Timestamp:  2024-02-03 04:05:06",
        "  Has connectivity key: false",
        "",
    ];
    assert_eq!(lines(true), [sets, orphan].concat());
    assert_eq!(
        database_report(&vec![], &vec![], &codes, false, true, &vec![], &vec![]),
        vec!["No connectivity entries found (try running as administrator)."]
    );
}

#[test]
fn times() {
    assert_eq!(format_filetime(133, None), "ts:133");
    assert_eq!(format_filetime(133, Some(TIME)), "2024-02-03 04:05:06");
    let late = CalendarTime { year: 30827, month: 12, day: 31, hour: 23, minute: 59, second: 59 };
    assert_eq!(format_filetime(0, Some(late)), "30827-12-31 23:59:59");
    assert_eq!(filetime_parts(0x0123_4567_89AB_CDEF), (0x89AB_CDEF, 0x0123_4567));
    assert_eq!(filetime_parts(u64::MAX), (u32::MAX, u32::MAX));
    assert_eq!(format_time(None), "00:00:00");
    assert_eq!(format_time(Some(0)), "00:00:00");
    assert_eq!(format_time(Some(86399)), "23:59:59");
    assert_eq!(format_time(Some(1_700_000_000)), "22:13:20");
    assert_eq!(format_time(Some(1_700_000_000 + 86400)), "22:13:20");
}

#[test]
fn watching() {
    let mut last = Observation::new(&Topology::Internal, None);
    assert_eq!(last.report("01:02:03"), "[01:02:03] Topology: Internal | (none)");
    assert_eq!(last.observe(Observation::new(&Topology::Internal, None), "t"), None);
    let line = last.observe(Observation::new(&Topology::Extend, None), "01:02:04");
    assert_eq!(line, Some("[01:02:04] Topology: Extend | (none)".to_string()));
    let line = last.observe(Observation::new(&Topology::Extend, Some("K^H")), "01:02:05");
    assert_eq!(line, Some("[01:02:05] Topology: Extend | K^H".to_string()));
    assert_eq!(last.observe(Observation::new(&Topology::Extend, Some("K^H")), "t"), None);
}

#[test]
fn key_of_the_current_display_set() {
    let mut dell = entry();
    dell.set_id = "DEL430F6C19C34_34_07E8_46".to_string();
    dell.key_name = "DELL".to_string();
    let entries = vec![entry(), dell];
    let codes = vec!["DEL430F".to_string()];
    assert_eq!(current_display_set(&entries, &codes), Some("DELL"));
    assert_eq!(current_report(current_display_set(&entries, &codes)), "DELL");
    assert_eq!(current_display_set(&entries, &vec![]), None);
    assert_eq!(current_report(None), "No matching display set found.");
}

#[test]
fn numbers_as_text() {
    assert_eq!(decimal_text(0), "0");
    assert_eq!(decimal_text(1234567890), "1234567890");
    assert_eq!(decimal_text(u64::MAX), "18446744073709551615");
    assert_eq!(signed_decimal_text(i32::MIN), "-2147483648");
    assert_eq!(signed_decimal_text(42), "42");
    assert_eq!(zero_padded_text(7, 4), "0007");
    assert_eq!(zero_padded_text(12345, 4), "12345");
}

#[test]
fn numbers_are_read() {
    assert_eq!(read_unsigned("4294967295"), Some(u32::MAX));
    assert_eq!(read_unsigned("4294967296"), None);
    assert_eq!(read_unsigned("+12"), Some(12));
    assert_eq!(read_unsigned("-0"), None);
    assert_eq!(read_unsigned(""), None);
    assert_eq!(read_unsigned("1 "), None);
    assert_eq!(read_signed("-2147483648"), Some(i32::MIN));
    assert_eq!(read_signed("-2147483649"), None);
    assert_eq!(read_signed("2147483648"), None);
    assert_eq!(read_signed("+2147483647"), Some(i32::MAX));
    assert_eq!(read_signed("-"), None);
    assert_eq!(read_signed("+-1"), None);
}

#[test]
fn texts_are_cut_and_compared() {
    assert_eq!(split_text("a^b^^", '^'), vec!["a", "b", "", ""]);
    assert_eq!(split_text("", '^'), vec![""]);
    let parts: Vec<String> = split_text("a^b^^", '^').iter().map(|s| s.to_string()).collect();
    assert_eq!(join_text(&parts, "^"), "a^b^^");
    assert_eq!(join_text(&vec![], ", "), "");
    assert_eq!(text_before("ab_c_d", '_'), "ab");
    assert_eq!(text_before("abc", '_'), "abc");
    assert!(begins_with("abc", "ab") && !begins_with("ab", "abc") && begins_with("x", ""));
    assert!(same_text("ab", "ab") && !same_text("ab", "aB"));
    let words = ["", "A", "AB", "B", "a", "\u{e4}", "\u{ffff}", "\u{10000}"];
    for (i, a) in words.iter().enumerate() {
        for (j, b) in words.iter().enumerate() {
            assert_eq!(text_before_other(a, b), i < j);
            assert_eq!(text_before_other(a, b), a < b);
        }
    }
}

#[test]
fn names_of_numbers() {
    assert_eq!(ConnectorType(-1).text(), "Other");
    assert_eq!(ConnectorType(11).text(), "Embedded DisplayPort");
    assert_eq!(ConnectorType(i32::MIN).text(), "Internal");
    assert_eq!(ConnectorType(7).text(), "Unknown(7)");
    assert_eq!(Scaling(128).text(), "Preferred");
    assert_eq!(Scaling(-3).text(), "Unknown(-3)");
    assert_eq!(ScanlineOrdering(2).text(), "Interlaced");
    assert_eq!(ScanlineOrdering(4).text(), "Unknown(4)");
    assert_eq!(BitDepth(24).text(), "24");
}

#[test]
fn values_are_read_as_written() {
    let position = Position::new(-3840, 17);
    assert_eq!(position.text(), "-3840,17");
    assert_eq!(Position::parse("-3840,17"), Some(position));
    assert_eq!(Position::parse("1,2,3"), None);
    assert_eq!(Position::parse("1"), None);
    assert_eq!(Position::parse("1,x"), None);
    let resolution = Resolution { width: 1920, height: 1080 };
    assert_eq!(resolution.text(), "1920x1080");
    assert_eq!(Resolution::parse("1920x1080"), Some(resolution));
    assert_eq!(Resolution::parse("1920"), None);
    assert_eq!(Resolution::parse("-1x5"), None);
    assert_eq!(Frequency::parse("144"), Some(Frequency(144)));
    assert_eq!(Frequency(144).text(), "144");
    assert_eq!(Frequency::parse(&Frequency(u32::MAX).text()), Some(Frequency(u32::MAX)));
    assert_eq!(Frequency::parse("fast"), None);
    for orientation in [
        Orientation::Landscape,
        Orientation::Portrait,
        Orientation::LandscapeFlipped,
        Orientation::PortraitFlipped,
    ] {
        assert_eq!(Orientation::parse(orientation.text()), Some(orientation));
    }
    assert_eq!(Orientation::parse("upright"), None);
    assert_eq!(Orientation::LandscapeFlipped.to_rotation(), 3);
    assert_eq!(Scaling(4).to_value(), 4);
}
