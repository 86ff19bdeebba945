use salvage::containers::{
    find_containers_with_mounts, get_archive_volumes, path_covers_exec, select_salvage_container,
    ContainerMount, ContainerRecord,
};
use salvage::error::Error;

fn mount(source: Option<&str>, destination: Option<&str>) -> ContainerMount {
    ContainerMount {
        source: source.map(|s| s.to_string()),
        destination: destination.map(|s| s.to_string()),
    }
}

fn record(id: Option<&str>, created: Option<i64>, mounts: Vec<ContainerMount>) -> ContainerRecord {
    ContainerRecord { id: id.map(|s| s.to_string()), created, mounts }
}

#[test]
fn path_cover_is_path_aware() {
    assert!(path_covers_exec("/data", "/data"));
    assert!(path_covers_exec("/", "/data"));
    assert!(path_covers_exec("/data", "/data/sub"));
    assert!(!path_covers_exec("/da", "/data"));
    assert!(!path_covers_exec("/data/sub", "/data"));
    assert!(!path_covers_exec("/backup", "/data"));
}

#[test]
fn archive_volumes_keep_only_covering_mounts_with_sources() {
    let c = record(
        Some("self"),
        Some(1),
        vec![
            mount(Some("volA"), Some("/data")),
            mount(Some("volB"), Some("/backup")),
            mount(None, Some("/data")),
            mount(Some("volC"), None),
            mount(Some("volD"), Some("/")),
        ],
    );
    let sources = get_archive_volumes(&c, "/data");
    assert_eq!(sources, vec!["volA".to_string(), "volD".to_string()]);
}

#[test]
fn archive_volumes_may_be_empty() {
    let c = record(Some("self"), None, vec![mount(Some("volB"), Some("/elsewhere"))]);
    let sources = get_archive_volumes(&c, "/data");
    assert!(sources.is_empty());
}

#[test]
fn stop_set_holds_the_sharing_container_and_never_self() {
    // the self container mounts volA at /data; one other container
    // mounts volA, another mounts volB
    let selfc = record(Some("self"), Some(9), vec![mount(Some("volA"), Some("/data"))]);
    let shares = record(Some("c-a"), Some(1), vec![mount(Some("volA"), Some("/srv"))]);
    let unrelated = record(Some("c-b"), Some(2), vec![mount(Some("volB"), Some("/srv"))]);
    let sources = get_archive_volumes(&selfc, "/data");
    assert_eq!(sources, vec!["volA".to_string()]);
    let all = vec![selfc, shares, unrelated];
    let stops = find_containers_with_mounts(&all, &sources, "self");
    assert_eq!(stops, vec!["c-a".to_string()]);
}

#[test]
fn stop_set_skips_records_without_ids_and_keeps_order() {
    let sources = vec!["volA".to_string()];
    let all = vec![
        record(Some("one"), None, vec![mount(Some("volA"), None)]),
        record(None, None, vec![mount(Some("volA"), None)]),
        record(Some("two"), None, vec![mount(Some("volB"), None), mount(Some("volA"), None)]),
    ];
    let stops = find_containers_with_mounts(&all, &sources, "self");
    assert_eq!(stops, vec!["one".to_string(), "two".to_string()]);
}

#[test]
fn no_salvage_container_is_an_error() {
    let r = select_salvage_container(&Vec::new());
    assert_eq!(r, Err(Error::NoSalvageContainer));
}

#[test]
fn single_salvage_container_is_canonical_with_no_removals() {
    let list = vec![record(Some("only"), Some(5), Vec::new())];
    let (idx, removals) = select_salvage_container(&list).unwrap();
    assert_eq!(idx, 0);
    assert!(removals.is_empty());
}

#[test]
fn latest_salvage_container_wins_and_the_rest_are_removed() {
    let list = vec![
        record(Some("old"), Some(10), Vec::new()),
        record(Some("newest"), Some(30), Vec::new()),
        record(Some("stale"), Some(20), Vec::new()),
        record(None, Some(1), Vec::new()),
    ];
    let (idx, removals) = select_salvage_container(&list).unwrap();
    assert_eq!(idx, 1);
    assert_eq!(removals, vec!["old".to_string(), "stale".to_string()]);
}

#[test]
fn creation_ties_pick_the_last_listed() {
    let list = vec![
        record(Some("a"), Some(7), Vec::new()),
        record(Some("b"), Some(7), Vec::new()),
        record(Some("c"), None, Vec::new()),
    ];
    let (idx, removals) = select_salvage_container(&list).unwrap();
    assert_eq!(idx, 1);
    assert_eq!(removals, vec!["a".to_string(), "c".to_string()]);
}
