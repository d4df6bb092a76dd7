use displayz::config::{
    commit_display_config, update_source_mode, update_target_mode, ModeInfo, PathInfo,
    QDC_DATABASE_CURRENT, QDC_ONLY_ACTIVE_PATHS,
};
use displayz::display::{Display, DisplaySet};
use displayz::error::{DisplayError, DisplayPropertiesError};
use displayz::properties::{
    set_properties, Description, DisplayProperties, DisplaySettings, PropertiesOpt,
};
use displayz::query::{query_displays, refresh, QueriedConfig};
use displayz::types::{
    BitDepth, ConnectorType, Frequency, Orientation, Position, Resolution, Scaling,
    ScanlineOrdering,
};

fn settings(x: i32, y: i32) -> DisplaySettings {
    DisplaySettings {
        position: Position::new(x, y),
        resolution: Resolution { width: 1920, height: 1080 },
        frequency: Frequency(60),
        orientation: Orientation::Landscape,
        scaling: Scaling(1),
        bit_depth: BitDepth(32),
        scanline_ordering: ScanlineOrdering(1),
    }
}

fn display(name: &str, settings: Option<DisplaySettings>, active: bool, primary: bool) -> DisplayProperties {
    DisplayProperties {
        name: name.to_string(),
        string: format!("Monitor {}", name),
        key: format!("\\\\?\\DISPLAY#{}#1", name),
        settings,
        connector_type: Some(ConnectorType(5)),
        target_available: active,
        active,
        primary,
    }
}

fn path(source: u32, target: u32, id: u32, flags: u32) -> PathInfo {
    PathInfo {
        source_mode_idx: source,
        target_mode_idx: target,
        adapter_low: 7,
        adapter_high: -1,
        target_id: id,
        rotation: 1,
        scaling: 1,
        flags,
    }
}

fn mode(first: u32) -> ModeInfo {
    let mut words = [0u32; 12];
    for (i, word) in words.iter_mut().enumerate() {
        *word = first + i as u32;
    }
    ModeInfo { words }
}

fn assemble(displays: Vec<DisplayProperties>, paths: Vec<PathInfo>, modes: Vec<ModeInfo>) -> DisplaySet {
    let query = query_displays(QDC_ONLY_ACTIVE_PATHS, false);
    let sized = query.sized(Ok((paths.len() as u32, modes.len() as u32))).unwrap();
    let selected = sized
        .queried(Ok(QueriedConfig {
            num_paths: paths.len() as u32,
            num_modes: modes.len() as u32,
            paths,
            modes,
        }))
        .unwrap();
    selected.described(displays.into_iter().map(Ok).collect()).unwrap()
}

fn three() -> DisplaySet {
    assemble(
        vec![
            display("A", Some(settings(0, 0)), true, true),
            display("B", Some(settings(1920, -200)), true, false),
            display("C", Some(settings(-1280, 50)), true, false),
        ],
        vec![path(0, 1, 1, 1), path(2, 3, 2, 1), path(4, 5, 3, 1)],
        vec![mode(100), mode(200), mode(300), mode(400), mode(500), mode(600)],
    )
}

fn position_of(set: &DisplaySet, index: usize) -> Position {
    set.get(index).unwrap().settings(set).unwrap().position
}

#[test]
fn getters_give_the_properties() {
    let set = three();
    let shown: Vec<usize> = set.displays().iter().map(|d: &Display| d.index()).collect();
    assert_eq!(shown, vec![0, 1, 2]);
    let b = set.get(1).unwrap();
    assert_eq!(b.index(), 1);
    assert_eq!(b.windows_number(&set), 2);
    assert_eq!(b.name(&set), "B");
    assert_eq!(b.string(&set), "Monitor B");
    assert_eq!(b.key(&set), "\\\\?\\DISPLAY#B#1");
    assert_eq!(*b.connector_type(&set), Some(ConnectorType(5)));
    assert!(b.target_available(&set));
    assert!(!b.is_primary(&set));
    assert_eq!(*b.settings(&set), Some(settings(1920, -200)));
    assert_eq!(b.properties(&set).name, "B");
    assert!(set.get(3).is_none());
    assert_eq!(set.primary().index(), 0);
}

#[test]
fn set_primary_moves_the_desktop() {
    let mut set = three();
    let b = set.get(1).unwrap();
    assert!(set.can_set_primary(&b));
    assert!(b.set_primary(&mut set).is_ok());
    assert_eq!(position_of(&set, 0), Position::new(-1920, 200));
    assert_eq!(position_of(&set, 1), Position::new(0, 0));
    assert_eq!(position_of(&set, 2), Position::new(-3200, 250));
    assert_eq!(set.primary().index(), 1);
    assert!(b.is_primary(&set));
    let marks: Vec<bool> = set.displays().iter().map(|d| d.properties(&set).primary).collect();
    assert_eq!(marks, vec![false, true, false]);
}

#[test]
fn set_primary_keeps_distances() {
    let mut set = three();
    let before = (position_of(&set, 0), position_of(&set, 2));
    let b = set.get(1).unwrap();
    assert!(set.set_primary(&b).is_ok());
    let after = (position_of(&set, 0), position_of(&set, 2));
    assert_eq!(after.0.x - after.1.x, before.0.x - before.1.x);
    assert_eq!(after.0.y - after.1.y, before.0.y - before.1.y);
}

#[test]
fn set_primary_last_request_wins() {
    let mut both = three();
    let mut direct = three();
    let b = both.get(1).unwrap();
    let c = both.get(2).unwrap();
    assert!(b.set_primary(&mut both).is_ok());
    assert!(c.set_primary(&mut both).is_ok());
    assert!(c.set_primary(&mut direct).is_ok());
    for i in 0..3 {
        assert_eq!(position_of(&both, i), position_of(&direct, i));
    }
    assert!(c.set_primary(&mut both).is_ok());
    for i in 0..3 {
        assert_eq!(position_of(&both, i), position_of(&direct, i));
    }
}

#[test]
fn inactive_display_cannot_be_primary() {
    let mut set = assemble(
        vec![
            display("A", Some(settings(5, 6)), true, true),
            display("B", Some(settings(7, 8)), false, false),
        ],
        vec![path(0, 1, 1, 1), path(2, 3, 2, 0)],
        vec![],
    );
    let b = set.get(1).unwrap();
    let error = b.set_primary(&mut set).unwrap_err();
    assert!(matches!(error, DisplayError::PrimaryDisplay));
    assert_eq!(error.message(), "Only active displays can used as a primary display");
    assert_eq!(position_of(&set, 0), Position::new(5, 6));
    assert_eq!(set.primary().index(), 0);
}

#[test]
fn display_without_settings_cannot_be_primary() {
    let mut set = assemble(
        vec![
            display("A", Some(settings(5, 6)), true, true),
            display("B", None, true, false),
        ],
        vec![path(0, 1, 1, 1), path(2, 3, 2, 1)],
        vec![],
    );
    let b = set.get(1).unwrap();
    let error = b.set_primary(&mut set).unwrap_err();
    assert_eq!(error.message(), "Display B has no settings");
    assert!(matches!(error, DisplayError::NoSettings(name) if name == "B"));
    assert_eq!(position_of(&set, 0), Position::new(5, 6));
}

#[test]
fn moving_stops_at_an_active_display_without_settings() {
    let mut set = assemble(
        vec![
            display("A", Some(settings(0, 0)), true, true),
            display("B", None, true, false),
            display("C", Some(settings(100, 0)), true, false),
            display("D", Some(settings(300, 0)), true, false),
        ],
        vec![path(0, 1, 1, 1), path(2, 3, 2, 1), path(4, 5, 3, 1), path(6, 7, 4, 1)],
        vec![],
    );
    let c = set.get(2).unwrap();
    let error = c.set_primary(&mut set).unwrap_err();
    assert!(matches!(error, DisplayError::NoSettings(name) if name == "B"));
    assert_eq!(position_of(&set, 0), Position::new(-100, 0));
    assert!(!set.get(0).unwrap().properties(&set).primary);
    assert_eq!(position_of(&set, 2), Position::new(100, 0));
    assert_eq!(position_of(&set, 3), Position::new(300, 0));
    assert_eq!(set.primary().index(), 0);
}

#[test]
fn inactive_displays_stay_where_they_are() {
    let mut set = assemble(
        vec![
            display("A", Some(settings(0, 0)), true, true),
            display("B", Some(settings(9, 9)), false, false),
            display("C", Some(settings(100, 20)), true, false),
        ],
        vec![path(0, 1, 1, 1), path(2, 3, 2, 0), path(4, 5, 3, 1)],
        vec![],
    );
    let c = set.get(2).unwrap();
    assert!(c.set_primary(&mut set).is_ok());
    assert_eq!(position_of(&set, 1), Position::new(9, 9));
    assert_eq!(position_of(&set, 0), Position::new(-100, -20));
}

#[test]
fn positions_that_do_not_fit_are_noticed() {
    let set = assemble(
        vec![
            display("A", Some(settings(i32::MAX, 0)), true, true),
            display("B", Some(settings(-2, 0)), true, false),
            display("C", Some(settings(i32::MIN, 0)), true, false),
        ],
        vec![path(0, 1, 1, 1), path(2, 3, 2, 1), path(4, 5, 3, 1)],
        vec![],
    );
    assert!(!set.can_set_primary(&set.get(1).unwrap()));
    assert!(!set.can_set_primary(&set.get(2).unwrap()));
    assert!(three().can_set_primary(&three().get(2).unwrap()));
}

#[test]
fn change_settings_changes_what_is_asked_for() {
    let mut set = three();
    let b = set.get(1).unwrap();
    let request = PropertiesOpt {
        position: None,
        resolution: Some(Resolution { width: 800, height: 600 }),
        frequency: Some(Frequency(144)),
        orientation: None,
    };
    assert!(set.change_settings(&b, &request));
    let expected = DisplaySettings {
        resolution: Resolution { width: 800, height: 600 },
        frequency: Frequency(144),
        ..settings(1920, -200)
    };
    assert_eq!(*b.settings(&set), Some(expected));
    assert_eq!(position_of(&set, 0), Position::new(0, 0));
    let mut none = assemble(vec![display("A", None, true, false)], vec![path(0, 1, 1, 1)], vec![]);
    let a = none.get(0).unwrap();
    assert!(!none.change_settings(&a, &request));
}

#[test]
fn set_properties_twice_is_once() {
    let request = PropertiesOpt {
        position: Some(Position::new(3, 4)),
        resolution: None,
        frequency: None,
        orientation: Some(Orientation::PortraitFlipped),
    };
    let mut once = settings(1, 2);
    set_properties(&request, &mut once);
    assert_eq!(once.position, Position::new(3, 4));
    assert_eq!(once.orientation, Orientation::PortraitFlipped);
    assert_eq!(once.resolution, Resolution { width: 1920, height: 1080 });
    assert_eq!(once.bit_depth, BitDepth(32));
    let mut twice = once;
    set_properties(&request, &mut twice);
    assert_eq!(once, twice);
}

#[test]
fn apply_writes_paths_and_modes() {
    let mut set = three();
    let b = set.get(1).unwrap();
    let request = PropertiesOpt {
        position: Some(Position::new(-3840, 7)),
        resolution: Some(Resolution { width: 2560, height: 1440 }),
        frequency: Some(Frequency(120)),
        orientation: Some(Orientation::Portrait),
    };
    assert!(set.change_settings(&b, &request));
    let names = vec![Some("C".to_string()), None, Some("B".to_string())];
    let flags = set.apply(&names);
    assert_eq!(flags, 0x6A0);
    // B is found at the third path, whose modes are the fifth and the sixth.
    let path = set.paths()[2];
    assert_eq!(path.rotation, 2);
    assert_eq!(path.scaling, 1);
    let source = set.modes()[4].words;
    assert_eq!(source[0], 2560);
    assert_eq!(source[1], 1440);
    assert_eq!(source[2], 502);
    assert_eq!(source[3], 0xffff_f100);
    assert_eq!(source[4], 7);
    assert_eq!(source[5], 505);
    let target = set.modes()[5].words;
    assert_eq!(target[0], 600);
    assert_eq!(target[3], 603);
    assert_eq!(target[4], 120);
    assert_eq!(target[5], 1);
    assert_eq!(target[11], 611);
    // The second path has no name, and A has no path.
    assert_eq!(set.modes()[2].words, mode(300).words);
}

#[test]
fn apply_twice_is_once() {
    let names = vec![Some("A".to_string()), Some("B".to_string()), Some("C".to_string())];
    let mut once = three();
    once.apply(&names);
    let mut twice = three();
    twice.apply(&names);
    twice.apply(&names);
    assert_eq!(once.paths(), twice.paths());
    for (a, b) in once.modes().iter().zip(twice.modes().iter()) {
        assert_eq!(a.words, b.words);
    }
}

#[test]
fn apply_is_read_back() {
    let names = vec![Some("A".to_string()), Some("B".to_string()), Some("C".to_string())];
    let mut set = three();
    set.apply(&names);
    let description = Description {
        name: "B".to_string(),
        string: "Monitor".to_string(),
        key: "key".to_string(),
        connector_type: None,
        target_available: true,
    };
    let read = DisplayProperties::from_display_config(&set.paths()[1], set.modes(), description);
    let expected = DisplaySettings {
        bit_depth: BitDepth(0),
        scanline_ordering: ScanlineOrdering(411),
        ..settings(1920, -200)
    };
    assert_eq!(read.settings, Some(expected));
    assert!(read.active);
    assert!(!read.primary);
}

#[test]
fn apply_passes_over_modes_that_are_not_there() {
    let mut set = assemble(
        vec![display("A", Some(settings(3, 4)), true, true)],
        vec![path(u32::MAX, u32::MAX, 1, 1)],
        vec![mode(10)],
    );
    set.apply(&vec![Some("A".to_string())]);
    assert_eq!(set.modes()[0].words, mode(10).words);
    assert_eq!(set.paths()[0].rotation, 1);
}

#[test]
fn apply_passes_over_inactive_displays() {
    let mut set = assemble(
        vec![display("A", Some(settings(3, 4)), false, true)],
        vec![path(0, 1, 1, 0)],
        vec![mode(10), mode(20)],
    );
    set.apply(&vec![Some("A".to_string())]);
    assert_eq!(set.modes()[0].words, mode(10).words);
    assert_eq!(set.modes()[1].words, mode(20).words);
}

#[test]
fn a_mode_that_is_source_and_target_ends_as_target() {
    let mut set = assemble(
        vec![display("A", Some(settings(3, 4)), true, true)],
        vec![path(0, 0, 1, 1)],
        vec![mode(10)],
    );
    set.apply(&vec![Some("A".to_string())]);
    assert_eq!(set.modes()[0].words[..6], [1920, 1080, 12, 3, 60, 1]);
}

#[test]
fn first_path_with_the_name_is_taken() {
    let names = vec![None, Some("A".to_string()), Some("B".to_string()), Some("B".to_string())];
    assert_eq!(DisplaySet::find_path_for_display(&names, "B"), Some(2));
    assert_eq!(DisplaySet::find_path_for_display(&names, "C"), None);
}

#[test]
fn mode_updates_alone() {
    let mut modes = vec![mode(10), mode(20)];
    update_source_mode(&mut modes, 1, &settings(-1, -2));
    assert_eq!(modes[1].words[..5], [1920, 1080, 22, 0xffff_ffff, 0xffff_fffe]);
    update_target_mode(&mut modes, 0, &settings(0, 0));
    assert_eq!(modes[0].words[3..6], [13, 60, 1]);
    update_source_mode(&mut modes, 2, &settings(0, 0));
    update_target_mode(&mut modes, 2, &settings(0, 0));
    assert_eq!(modes.len(), 2);
}

#[test]
fn settings_are_read_from_a_configuration() {
    let mut source = mode(0);
    source.words[..5].copy_from_slice(&[3840, 2160, 4, 0, 0]);
    let mut target = mode(0);
    target.words[4] = 119880;
    target.words[5] = 1000;
    target.words[11] = 2;
    let mut info = path(0, 1, 1, 1);
    info.rotation = 3;
    info.scaling = 5;
    let describe = || Description {
        name: "N".to_string(),
        string: "S".to_string(),
        key: "K".to_string(),
        connector_type: Some(ConnectorType(10)),
        target_available: true,
    };
    let modes = vec![source, target];
    let read = DisplayProperties::from_display_config(&info, &modes, describe());
    assert_eq!(
        read.settings,
        Some(DisplaySettings {
            position: Position::new(0, 0),
            resolution: Resolution { width: 3840, height: 2160 },
            frequency: Frequency(119),
            orientation: Orientation::LandscapeFlipped,
            scaling: Scaling(5),
            bit_depth: BitDepth(32),
            scanline_ordering: ScanlineOrdering(2),
        })
    );
    assert!(read.primary);
    assert_eq!((read.name, read.string, read.key), ("N".to_string(), "S".to_string(), "K".to_string()));
    let mut off = info;
    off.flags = 0;
    let read = DisplayProperties::from_display_config(&off, &modes, describe());
    assert!(read.settings.is_none());
    assert!(!read.active && !read.primary);
    let mut lost = info;
    lost.source_mode_idx = 9;
    let read = DisplayProperties::from_display_config(&lost, &modes, describe());
    assert!(read.settings.is_none());
    assert!(read.active);
}

#[test]
fn commit_codes() {
    assert!(commit_display_config(0).is_ok());
    let error = commit_display_config(-31).unwrap_err();
    assert_eq!(error.message(), "Failed to commit the changes; Returned code: -31");
    assert!(matches!(error, DisplayError::FailedToCommit(-31)));
}

#[test]
fn last_marked_display_is_primary() {
    let set = assemble(
        vec![
            display("A", None, true, true),
            display("B", None, true, true),
            display("C", None, true, false),
        ],
        vec![path(0, 1, 1, 1), path(0, 1, 2, 1), path(0, 1, 3, 1)],
        vec![],
    );
    assert_eq!(set.primary().index(), 1);
    let none = assemble(vec![display("A", None, true, false)], vec![path(0, 1, 1, 1)], vec![]);
    assert_eq!(none.primary().index(), 0);
    let empty = assemble(vec![], vec![], vec![]);
    assert_eq!(empty.primary().index(), 0);
    assert!(empty.get(0).is_none());
}

#[test]
fn first_unreadable_display_ends_the_query() {
    let sized = query_displays(QDC_ONLY_ACTIVE_PATHS, false).sized(Ok((2, 0))).unwrap();
    let selected = sized
        .queried(Ok(QueriedConfig {
            num_paths: 2,
            num_modes: 0,
            paths: vec![path(0, 1, 1, 1), path(0, 1, 2, 1)],
            modes: vec![],
        }))
        .unwrap();
    let error = selected
        .described(vec![
            Ok(display("A", None, true, false)),
            Err(DisplayPropertiesError { message: "gone".to_string() }),
        ])
        .err()
        .unwrap();
    assert_eq!(error.message(), "Error in DisplayProperties");
    assert!(matches!(error, DisplayError::Properties(inner) if inner.message == "gone"));
}

fn description(name: &str) -> Description {
    Description {
        name: name.to_string(),
        string: format!("Monitor {}", name),
        key: format!("Key {}", name),
        connector_type: None,
        target_available: true,
    }
}

#[test]
fn each_display_has_its_settings_from_its_own_path() {
    let mut at_origin = mode(500);
    at_origin.words[3] = 0;
    at_origin.words[4] = 0;
    let paths = vec![path(0, 1, 1, 1), path(2, 3, 2, 1), path(0, 1, 3, 0)];
    let modes = vec![mode(100), mode(200), at_origin, mode(700)];
    let selected = || {
        query_displays(QDC_ONLY_ACTIVE_PATHS, false)
            .sized(Ok((3, 4)))
            .unwrap()
            .queried(Ok(QueriedConfig {
                num_paths: 3,
                num_modes: 4,
                paths: paths.clone(),
                modes: modes.clone(),
            }))
            .unwrap()
    };
    let set = selected()
        .described_by(vec![Ok(description("A")), Ok(description("B")), Ok(description("C"))])
        .ok()
        .unwrap();
    for (i, name) in ["A", "B", "C"].iter().enumerate() {
        let expected =
            DisplayProperties::from_display_config(&paths[i], &modes, description(name));
        let found = set.get(i).unwrap();
        assert_eq!(found.name(&set), *name);
        assert_eq!(found.string(&set), expected.string);
        assert_eq!(found.key(&set), expected.key);
        assert_eq!(*found.settings(&set), expected.settings);
        assert_eq!(found.properties(&set).active, expected.active);
    }
    assert_eq!(set.get(0).unwrap().settings(&set).unwrap().resolution.width, 100);
    assert_eq!(set.get(1).unwrap().settings(&set).unwrap().resolution.width, 500);
    assert!(set.get(2).unwrap().settings(&set).is_none());
    assert_eq!(set.primary().index(), 1);
    let error = selected()
        .described_by(vec![
            Ok(description("A")),
            Err(DisplayPropertiesError { message: "gone".to_string() }),
        ])
        .err()
        .unwrap();
    assert!(matches!(error, DisplayError::Properties(inner) if inner.message == "gone"));
}

#[test]
fn any_setting_can_be_replaced() {
    let mut set = three();
    let b = set.get(1).unwrap();
    let wanted = DisplaySettings { scaling: Scaling(4), ..settings(5, 6) };
    assert!(set.replace_settings(&b, wanted));
    assert_eq!(*b.settings(&set), Some(wanted));
    assert_eq!(*set.get(0).unwrap().settings(&set), Some(settings(0, 0)));
    assert_eq!(b.name(&set), "B");
    set.apply(&vec![Some("A".to_string()), Some("B".to_string()), None]);
    assert_eq!(set.paths()[1].scaling, 4);
    assert_eq!(set.paths()[2].scaling, 1);
    let mut off = assemble(vec![display("A", None, false, false)], vec![path(0, 1, 1, 0)], vec![]);
    let a = off.get(0).unwrap();
    assert!(!off.replace_settings(&a, wanted));
    assert!(a.settings(&off).is_none());
}

#[test]
fn first_path_with_the_name_is_found() {
    let names =
        vec![None, Some("B".to_string()), Some("A".to_string()), Some("A".to_string())];
    assert_eq!(DisplaySet::find_path_for_display(&names, "A"), Some(2));
    assert_eq!(DisplaySet::find_path_for_display(&names, "B"), Some(1));
    assert_eq!(DisplaySet::find_path_for_display(&names, "C"), None);
}

#[test]
fn texts_of_a_set() {
    let set = three();
    let texts = vec!["a".to_string(), "b".to_string(), "c".to_string()];
    assert_eq!(set.text(&texts), "DisplaySet { displays: [\n    a, \n    b, \n    c\n] }");
    assert_eq!(
        set.debug_text("[..]"),
        "DisplaySet { displays: [..], primary_display: Cell { value: 0 }, paths: \"<3 paths>\", modes: \"<6 modes>\" }"
    );
    assert_eq!(
        set.get(2).unwrap().debug_text(&set, "[]"),
        format!("Display {{ index: 2, display_set: {} }}", set.debug_text("[]"))
    );
    let empty = assemble(vec![], vec![], vec![]);
    assert_eq!(empty.text(&vec![]), "DisplaySet { displays: [\n\n] }");
}

#[test]
fn query_steps() {
    let query = query_displays(QDC_DATABASE_CURRENT, true);
    let sized = query.sized(Ok((4, 9))).unwrap();
    assert_eq!((sized.flags, sized.num_paths, sized.num_modes), (4, 4, 9));
    assert!(sized.with_topology_id && sized.deduplicate);
    assert!(!query_displays(QDC_ONLY_ACTIVE_PATHS, true).sized(Ok((4, 9))).unwrap().with_topology_id);
    let error = query.sized(Err("E1".to_string())).unwrap_err();
    assert_eq!(
        error.message(),
        "Error when calling the Windows API: GetDisplayConfigBufferSizes failed: E1"
    );
    let error = sized.queried(Err("E2".to_string())).unwrap_err();
    assert!(matches!(error, DisplayError::WinAPI(text) if text == "QueryDisplayConfig failed: E2"));
}

#[test]
fn unused_room_is_cut_off() {
    let sized = query_displays(QDC_ONLY_ACTIVE_PATHS, false).sized(Ok((3, 3))).unwrap();
    let selected = sized
        .queried(Ok(QueriedConfig {
            num_paths: 2,
            num_modes: 1,
            paths: vec![path(1, 1, 1, 1), path(2, 2, 1, 0), path(3, 3, 3, 1)],
            modes: vec![mode(1), mode(2), mode(3)],
        }))
        .unwrap();
    assert_eq!(selected.kept, vec![0, 1]);
    assert_eq!(selected.paths, vec![path(1, 1, 1, 1), path(2, 2, 1, 0)]);
    assert_eq!(selected.modes.len(), 1);
}

#[test]
fn refresh_steps() {
    let start = refresh();
    assert_eq!(start.flags, 2);
    let sized = start.sized(Ok((5, 6))).unwrap();
    assert_eq!((sized.flags, sized.num_paths, sized.num_modes), (2, 5, 6));
    let commit = sized.queried(Ok((4, 6))).unwrap();
    assert_eq!((commit.num_paths, commit.num_modes, commit.flags), (4, 6, 0x4A0));
    assert!(commit.committed(0).is_ok());
    assert!(matches!(commit.committed(87), Err(DisplayError::FailedToCommit(87))));
    assert!(matches!(start.sized(Err("x".to_string())), Err(DisplayError::WinAPI(text))
        if text == "GetDisplayConfigBufferSizes failed: x"));
    assert!(matches!(sized.queried(Err("y".to_string())), Err(DisplayError::WinAPI(text))
        if text == "QueryDisplayConfig failed: y"));
}
