use displayz::config::PathInfo;
use displayz::error::DisplayError;
use displayz::query::{deduplicated, query_displays, QueriedConfig};
use displayz::topology::{
    query_stored_topologies, query_topology, topology_probes, Topology,
};

fn path(adapter_low: u32, adapter_high: i32, target_id: u32, active: bool) -> PathInfo {
    PathInfo {
        source_mode_idx: 0,
        target_mode_idx: 0,
        adapter_low,
        adapter_high,
        target_id,
        rotation: 1,
        scaling: 1,
        flags: if active { 0x9 } else { 0x8 },
    }
}

#[test]
fn one_path_for_each_monitor() {
    let paths = vec![
        path(1, 0, 1, false),
        path(1, 0, 2, true),
        path(1, 0, 1, false),
        path(1, 0, 1, true),
        path(1, 0, 2, true),
        path(1, 0, 1, true),
        path(1, 0, 3, false),
        path(1, 0, 3, false),
    ];
    assert_eq!(deduplicated(&paths), vec![1, 3, 6]);
}

#[test]
fn monitors_differ_in_each_part() {
    let paths = vec![
        path(1, 0, 1, false),
        path(2, 0, 1, false),
        path(1, -1, 1, false),
        path(1, 1, 1, false),
        path(1, 0, 2, false),
        path(1, -1, 1, true),
    ];
    assert_eq!(deduplicated(&paths), vec![0, 1, 3, 4, 5]);
    assert_eq!(deduplicated(&vec![]), Vec::<usize>::new());
}

#[test]
fn deduplicating_twice_is_once() {
    let paths = vec![path(1, 0, 1, false), path(1, 0, 1, true), path(1, 0, 2, false)];
    let kept: Vec<PathInfo> = deduplicated(&paths).into_iter().map(|i| paths[i]).collect();
    assert_eq!(kept, vec![path(1, 0, 1, true), path(1, 0, 2, false)]);
    assert_eq!(deduplicated(&kept), vec![0, 1]);
}

#[test]
fn query_deduplicates_where_asked() {
    let sized = query_displays(1, true).sized(Ok((4, 0))).unwrap();
    let selected = sized
        .queried(Ok(QueriedConfig {
            num_paths: 3,
            num_modes: 0,
            paths: vec![
                path(1, 0, 1, false),
                path(1, 0, 2, false),
                path(1, 0, 1, true),
                path(1, 0, 2, true),
            ],
            modes: vec![],
        }))
        .unwrap();
    assert_eq!(selected.kept, vec![1, 2]);
    assert_eq!(selected.paths, vec![path(1, 0, 2, false), path(1, 0, 1, true)]);
}

#[test]
fn topology_numbers() {
    let query = query_topology();
    assert_eq!(query.flags, 4);
    let sized = query.sized(Ok((3, 2))).unwrap();
    assert_eq!((sized.flags, sized.num_paths, sized.num_modes), (4, 3, 2));
    let expected = [
        (1, Topology::Internal),
        (2, Topology::Clone),
        (4, Topology::Extend),
        (8, Topology::External),
        (0, Topology::Unknown(0)),
        (-5, Topology::Unknown(-5)),
    ];
    for (id, topology) in expected {
        assert_eq!(sized.queried(Ok(id)).unwrap(), topology);
    }
    assert!(matches!(sized.queried(Err("no".to_string())), Err(DisplayError::WinAPI(text))
        if text == "QueryDisplayConfig failed: no"));
    assert!(matches!(query.sized(Err("no".to_string())), Err(DisplayError::WinAPI(text))
        if text == "GetDisplayConfigBufferSizes failed: no"));
}

#[test]
fn topology_names() {
    let names: Vec<String> = [
        Topology::Internal,
        Topology::Clone,
        Topology::Extend,
        Topology::External,
        Topology::Unknown(-7),
    ]
    .iter()
    .map(|t| t.text())
    .collect();
    assert_eq!(names, vec!["Internal", "Clone", "Extend", "External", "Unknown(-7)"]);
    assert_eq!(Topology::Extend.as_registry_value(), Some("eXtend"));
    assert_eq!(Topology::Internal.as_registry_value(), Some("Internal"));
    assert_eq!(Topology::External.as_registry_value(), Some("External"));
    assert_eq!(Topology::Clone.as_registry_value(), Some("Clone"));
    assert_eq!(Topology::Unknown(1).as_registry_value(), None);
    for topology in [Topology::Internal, Topology::Clone, Topology::Extend, Topology::External] {
        assert_eq!(Topology::parse(&topology.text()), Some(topology));
    }
    assert_eq!(Topology::parse("eXtend"), None);
    assert_eq!(Topology::parse("Unknown(1)"), None);
}

#[test]
fn stored_topologies() {
    assert_eq!(topology_probes(), vec![0x41, 0x42, 0x44, 0x48]);
    assert_eq!(
        query_stored_topologies(Topology::Extend, &vec![0, 5, 0, 0]),
        vec![(Topology::Internal, false), (Topology::Extend, true), (Topology::External, false)]
    );
    assert_eq!(query_stored_topologies(Topology::Extend, &vec![1, 1, 1, 1]), vec![]);
    assert_eq!(
        query_stored_topologies(Topology::Unknown(3), &vec![1, 0, 1, 1]),
        vec![(Topology::Clone, false)]
    );
}
