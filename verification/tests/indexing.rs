use dumpy::spool::{select_files, DirEntry, SpoolGroup};

fn entry(name: &str, modified: u64) -> DirEntry {
    DirEntry {
        name: name.to_string(),
        path: format!("/spool/{}", name),
        size: 1000,
        modified,
    }
}

fn group_files(groups: &[SpoolGroup], producer: u64) -> Vec<(u64, u64)> {
    groups
        .iter()
        .find(|g| g.producer == producer)
        .unwrap()
        .files
        .iter()
        .map(|f| (f.producer, f.timestamp))
        .collect()
}

#[test]
fn selection_groups_and_sorts() {
    let entries = vec![
        entry("log.pcap.1.30", 31),
        entry("log.pcap.2.25", 26),
        entry("log.pcap.1.10", 11),
        entry("log.pcap.1.20", 21),
    ];
    let groups = select_files(&entries, None, None, None).unwrap();
    assert_eq!(groups.len(), 2);
    assert_eq!(group_files(&groups, 1), vec![(1, 10), (1, 20), (1, 30)]);
    assert_eq!(group_files(&groups, 2), vec![(2, 25)]);
}

#[test]
fn selection_prunes_window() {
    let entries = vec![
        entry("log.pcap.1.10", 11),
        entry("log.pcap.1.20", 21),
        entry("log.pcap.1.30", 31),
    ];
    // window [15, 25]: the file starting at 10 covers [10, 20) and stays,
    // the one at 20 covers [20, 30) and stays, the one at 30 starts too late
    let groups = select_files(&entries, None, Some(15), Some(10)).unwrap();
    assert_eq!(group_files(&groups, 1), vec![(1, 10), (1, 20)]);
}

#[test]
fn selection_prunes_files_before_window() {
    let entries = vec![
        entry("log.pcap.1.10", 11),
        entry("log.pcap.1.20", 21),
        entry("log.pcap.1.30", 31),
    ];
    // window [25, 35]: the file at 10 ends (at 20) before the window starts
    let groups = select_files(&entries, None, Some(25), Some(10)).unwrap();
    assert_eq!(group_files(&groups, 1), vec![(1, 20), (1, 30)]);
    // the last file always survives a window it does not exceed
    let groups = select_files(&entries, None, Some(100), Some(10)).unwrap();
    assert_eq!(group_files(&groups, 1), vec![(1, 30)]);
}

#[test]
fn selection_fails_on_unparsable_name() {
    let entries = vec![entry("log.pcap.1.10", 11), entry("README", 5)];
    assert!(select_files(&entries, None, None, None).is_none());
}

#[test]
fn selection_honours_prefix() {
    let entries = vec![entry("log.pcap.1.10", 11), entry("README", 5)];
    let prefix = "log".to_string();
    // the unparsable name is filtered out before parsing
    let groups = select_files(&entries, Some(&prefix), None, None).unwrap();
    assert_eq!(group_files(&groups, 1), vec![(1, 10)]);
}
