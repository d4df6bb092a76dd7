use displayz::connectivity::{
    connectivity_values, read_config_entries, read_connectivity_database, ConfigReading,
    ConnectivityEntry, ConnectivityReading, OrphanedConfigEntry,
};
use displayz::display_sets::{
    find_current, is_current, is_listed, listing, max_timestamp, model_code_of,
};
use displayz::error::DisplayError;
use displayz::recent::set_connectivity_recent;
use displayz::topology::Topology;

const DELL: &str = "DEL430F6C19C34_34_07E8_46";
const SONY: &str = "SNY07CB16843009_01_07E7_C7";

fn some(text: &str) -> Option<String> {
    Some(text.to_string())
}

fn entry(set_id: &str) -> ConnectivityEntry {
    ConnectivityEntry {
        key_name: format!("{}^HASH", set_id),
        set_id: set_id.to_string(),
        recent: None,
        internal: None,
        external: None,
        extend: None,
        clone: None,
        internal_timestamp: None,
        external_timestamp: None,
        extend_timestamp: None,
        clone_timestamp: None,
    }
}

fn dell_and_sony() -> ConnectivityEntry {
    let mut both = entry(&format!("{}^{}", DELL, SONY));
    both.recent = some(SONY);
    both.internal = some(DELL);
    both.external = some(SONY);
    both.extend = Some(format!("{}+{}", DELL, SONY));
    both.clone = Some(format!("{}*{}", DELL, SONY));
    both
}

fn reading(name: &str, internal: Option<&str>, clone: Option<&str>) -> ConnectivityReading {
    ConnectivityReading {
        key_name: name.to_string(),
        set_id: None,
        recent: None,
        internal: internal.map(|s| s.to_string()),
        external: None,
        extend: None,
        clone: clone.map(|s| s.to_string()),
    }
}

fn config(name: &str, timestamp: u64) -> ConfigReading {
    ConfigReading { name: some(name), timestamp: Some(timestamp) }
}

#[test]
fn remembered_topology_of_the_example() {
    let mut both = dell_and_sony();
    assert_eq!(both.recent_topology(), Some("External"));
    both.recent = some(DELL);
    assert_eq!(both.recent_topology(), Some("Internal"));
    both.recent = both.extend.clone();
    assert_eq!(both.recent_topology(), Some("Extend"));
    both.recent = both.clone.clone();
    assert_eq!(both.recent_topology(), Some("Clone"));
    both.recent = some("other");
    assert_eq!(both.recent_topology(), None);
    both.recent = None;
    assert_eq!(both.recent_topology(), None);
}

#[test]
fn first_topology_with_the_configuration_is_remembered() {
    let mut single = entry(DELL);
    single.recent = some(DELL);
    single.internal = some(DELL);
    single.clone = some(DELL);
    assert_eq!(single.recent_topology(), Some("Internal"));
    single.internal = None;
    assert_eq!(single.recent_topology(), Some("Clone"));
}

#[test]
fn missing_recent_matches_no_missing_topology() {
    assert_eq!(entry(DELL).recent_topology(), None);
    let mut lost = entry(DELL);
    lost.recent = some(DELL);
    assert_eq!(lost.recent_topology(), None);
}

#[test]
fn available_topologies_in_order() {
    assert_eq!(dell_and_sony().available_topologies(), vec!["Internal", "External", "Extend", "Clone"]);
    let mut some_of_them = entry(DELL);
    some_of_them.clone = some("x");
    some_of_them.external = some("y");
    assert_eq!(some_of_them.available_topologies(), vec!["External", "Clone"]);
    assert_eq!(entry(DELL).available_topologies(), Vec::<&str>::new());
}

#[test]
fn remembered_topology_is_available() {
    let both = dell_and_sony();
    let name = both.recent_topology().unwrap();
    assert!(both.available_topologies().contains(&name));
}

#[test]
fn monitor_prefixes_of_the_example() {
    assert_eq!(dell_and_sony().monitor_prefixes(), vec!["DEL430F", "SNY07CB"]);
    assert_eq!(entry(DELL).monitor_prefixes(), vec!["DEL430F"]);
}

#[test]
fn monitor_prefixes_of_odd_ids() {
    assert_eq!(entry("").monitor_prefixes(), Vec::<&str>::new());
    assert_eq!(entry("_34^ABC^^DEF_1^_").monitor_prefixes(), vec!["ABC", "DEF"]);
    assert_eq!(entry("ABCDEFG").monitor_prefixes(), vec!["ABCDEFG"]);
    assert_eq!(entry("ABCDEFGH").monitor_prefixes(), vec!["ABCDEFG"]);
    assert_eq!(entry("\u{e4}\u{f6}\u{fc}_1").monitor_prefixes(), vec!["\u{e4}\u{f6}\u{fc}"]);
}

#[test]
fn any_configuration_key() {
    let mut e = entry(DELL);
    assert!(!e.has_any_configuration_key());
    e.extend_timestamp = Some(0);
    assert!(e.has_any_configuration_key());
}

#[test]
fn config_entries_by_id() {
    let entries = read_config_entries(Some(vec![
        config("A^1", 10),
        ConfigReading { name: None, timestamp: Some(1) },
        ConfigReading { name: some("B^2"), timestamp: None },
        config("C", 30),
        config("A^9", 11),
        config("D^x^y", 40),
    ]));
    assert_eq!(entries.timestamp("A"), Some(11));
    assert_eq!(entries.timestamp("B"), None);
    assert_eq!(entries.timestamp("C"), Some(30));
    assert_eq!(entries.timestamp("D"), Some(40));
    assert_eq!(entries.timestamp("A^9"), None);
    assert_eq!(read_config_entries(None).timestamp("A"), None);
}

#[test]
fn database_is_cross_referenced() {
    let (entries, orphans) = read_connectivity_database(
        Some(vec![
            config("z^1", 1),
            config("b^1", 2),
            config("m^1", 3),
            config("a^2", 4),
            config("b^0", 5),
        ]),
        Ok(vec![
            Ok(reading("K1", Some("m"), None)),
            Ok(reading("K2", Some("nowhere"), Some("m"))),
        ]),
    )
    .unwrap();
    assert_eq!(entries.len(), 2);
    assert_eq!(entries[0].key_name, "K1");
    assert_eq!(entries[0].set_id, "");
    assert_eq!(entries[0].internal_timestamp, Some(3));
    assert_eq!(entries[0].clone_timestamp, None);
    assert_eq!(entries[1].internal_timestamp, None);
    assert_eq!(entries[1].clone_timestamp, Some(3));
    let found: Vec<(&str, &str, u64)> = orphans
        .iter()
        .map(|o: &OrphanedConfigEntry| (o.key_name.as_str(), o.config_id.as_str(), o.timestamp))
        .collect();
    assert_eq!(found, vec![("a^2", "a", 4), ("b^0", "b", 5), ("z^1", "z", 1)]);
}

#[test]
fn each_topology_gets_its_timestamp() {
    let values = vec![some("S"), some("r"), some("a"), some("b"), some("c"), some("d")];
    assert_eq!(
        connectivity_values(),
        vec!["SetId", "Recent", "Internal", "External", "eXtend", "Clone"]
    );
    let read = ConnectivityReading::from_values("K".to_string(), values);
    let (entries, orphans) = read_connectivity_database(
        Some(vec![config("a^", 1), config("b^", 2), config("c^", 3), config("d^", 4)]),
        Ok(vec![Ok(read)]),
    )
    .unwrap();
    let e = &entries[0];
    assert_eq!((e.key_name.as_str(), e.set_id.as_str()), ("K", "S"));
    assert_eq!(e.recent, some("r"));
    assert_eq!(e.internal, some("a"));
    assert_eq!(e.external, some("b"));
    assert_eq!(e.extend, some("c"));
    assert_eq!(e.clone, some("d"));
    assert_eq!(e.internal_timestamp, Some(1));
    assert_eq!(e.external_timestamp, Some(2));
    assert_eq!(e.extend_timestamp, Some(3));
    assert_eq!(e.clone_timestamp, Some(4));
    assert!(orphans.is_empty());
    assert_eq!(max_timestamp(e), 4);
}

#[test]
fn database_errors() {
    let error = read_connectivity_database(None, Err("denied".to_string())).unwrap_err();
    assert!(matches!(error, DisplayError::WinAPI(text)
        if text == "Cannot open Connectivity key (run as administrator): denied"));
    let error = read_connectivity_database(
        None,
        Ok(vec![Ok(reading("K1", None, None)), Err("first".to_string()), Err("second".to_string())]),
    )
    .unwrap_err();
    assert!(matches!(error, DisplayError::WinAPI(text) if text == "first"));
}

#[test]
fn recent_can_be_changed() {
    let step = set_connectivity_recent("KEY", &Topology::Extend).unwrap();
    assert_eq!((step.key_name.as_str(), step.value_name), ("KEY", "eXtend"));
    let step = step.database_opened(Ok(())).unwrap();
    assert_eq!(step.key_name, "KEY");
    let step = step.entry_opened(Ok(())).unwrap();
    assert_eq!(step.value_name, "eXtend");
    let both = dell_and_sony();
    let step = step.value_read(Ok(both.extend.clone().unwrap())).unwrap();
    assert_eq!(step.value_name, "Recent");
    assert_eq!(connectivity_values()[1], step.value_name);
    let mut after = dell_and_sony();
    after.recent = Some(step.config_id.clone());
    assert!(step.written(Ok(())).is_ok());
    assert_eq!(after.recent_topology(), Some("Extend"));
}

#[test]
fn recent_change_errors() {
    let text = |error: DisplayError| match error {
        DisplayError::WinAPI(text) => text,
        _ => panic!("another error"),
    };
    let start = || set_connectivity_recent("KEY", &Topology::Clone).unwrap();
    assert_eq!(
        text(set_connectivity_recent("KEY", &Topology::Unknown(3)).unwrap_err()),
        "Cannot set Recent to Unknown topology"
    );
    assert_eq!(
        text(start().database_opened(Err("e".to_string())).unwrap_err()),
        "Cannot open Connectivity key (run as administrator): e"
    );
    assert_eq!(
        text(start().database_opened(Ok(())).unwrap().entry_opened(Err("e".to_string())).unwrap_err()),
        "Key 'KEY' not found: e"
    );
    let value = || start().database_opened(Ok(())).unwrap().entry_opened(Ok(())).unwrap();
    assert_eq!(
        text(value().value_read(Err("e".to_string())).unwrap_err()),
        "Topology 'Clone' has no stored value in this entry: e"
    );
    assert_eq!(
        text(value().value_read(Ok("id".to_string())).unwrap().written(Err("e".to_string())).unwrap_err()),
        "Failed to write Recent: e"
    );
}

#[test]
fn model_codes() {
    assert_eq!(
        model_code_of("\\\\?\\DISPLAY#DEL430F#5&155a3a47&0&UID4353#{e6f07b5f}"),
        Some("DEL430F")
    );
    assert_eq!(model_code_of("no separator"), None);
    assert_eq!(model_code_of("a#"), Some(""));
}

#[test]
fn current_display_set_is_recognised() {
    let codes = |list: &[&str]| list.iter().map(|s| s.to_string()).collect::<Vec<String>>();
    let both = dell_and_sony();
    assert!(is_current(&both, &codes(&["SNY07CB", "DEL430F"])));
    assert!(!is_current(&both, &codes(&["DEL430F"])));
    assert!(!is_current(&both, &codes(&["DEL430F", "SNY07C9"])));
    assert!(is_current(&both, &codes(&["DEL430", "SNY07CB"])));
    assert!(is_current(&both, &codes(&["DEL430F99", "SNY07CB"])));
    assert!(is_current(&entry(""), &codes(&[])));
    let entries = vec![entry(DELL), dell_and_sony(), dell_and_sony()];
    assert_eq!(find_current(&entries, &codes(&["DEL430F", "SNY07CB"])), Some(1));
    assert_eq!(find_current(&entries, &codes(&["GSM1234"])), None);
}

#[test]
fn latest_timestamp() {
    let mut e = entry(DELL);
    assert_eq!(max_timestamp(&e), 0);
    e.external_timestamp = Some(7);
    e.clone_timestamp = Some(5);
    assert_eq!(max_timestamp(&e), 7);
    e.internal_timestamp = Some(8);
    assert_eq!(max_timestamp(&e), 8);
    e.extend_timestamp = Some(9);
    assert_eq!(max_timestamp(&e), 9);
}

#[test]
fn listing_puts_current_and_recent_sets_first() {
    let with_time = |id: &str, time: u64| {
        let mut e = entry(id);
        e.internal = some(id);
        e.internal_timestamp = Some(time);
        e
    };
    let entries = vec![
        with_time("AAA0001_1", 5),
        with_time("BBB0002_1", 9),
        with_time(DELL, 1),
        with_time("CCC0003_1", 5),
        with_time(DELL, 3),
    ];
    let codes = vec!["DEL430F".to_string()];
    assert_eq!(listing(&entries, &codes, false, false), vec![4, 2, 1, 0, 3]);
}

#[test]
fn listing_leaves_out_what_is_not_asked_for() {
    let mut known = entry("AAA0001_1");
    known.internal = some("a");
    known.internal_timestamp = Some(2);
    let mut orphaned = entry("BBB0002_1");
    orphaned.internal = some("b");
    let empty = entry("CCC0003_1");
    assert!(is_listed(&known, false, false));
    assert!(!is_listed(&orphaned, false, true));
    assert!(is_listed(&orphaned, true, false));
    assert!(!is_listed(&empty, true, false));
    assert!(is_listed(&empty, false, true));
    let entries = vec![empty, orphaned, known];
    let codes = Vec::<String>::new();
    assert_eq!(listing(&entries, &codes, false, false), vec![2]);
    assert_eq!(listing(&entries, &codes, true, false), vec![2, 1]);
    assert_eq!(listing(&entries, &codes, false, true), vec![2, 0]);
    assert_eq!(listing(&entries, &codes, true, true), vec![2, 0, 1]);
}
