use dumpy::retain::{
    calculate_files_to_delete_by_count, calculate_files_to_delete_by_size, is_pcap_candidate,
    select_policy, sort_files_newest_first, FileInfo, PolicyError, RetentionPolicy,
};

fn file(path: &str, size: u64, modified: u64) -> FileInfo {
    FileInfo { path: path.to_string(), size, modified }
}

#[test]
fn size_budget_scenario() {
    // newest first: c (100 B, t=30), b (100 B, t=20), a (100 B, t=10);
    // a 150-byte budget keeps c alone and deletes b and a
    let files = vec![file("c", 100, 30), file("b", 100, 20), file("a", 100, 10)];
    let doomed = calculate_files_to_delete_by_size(&files, 150);
    let names: Vec<&str> = doomed.iter().map(|f| f.path.as_str()).collect();
    assert_eq!(names, vec!["b", "a"]);
}

#[test]
fn keep_count_scenario() {
    // keep-files=2 over 5 files: exactly the 3 oldest by modification time go
    let mut files = vec![
        file("e", 1, 10),
        file("c", 1, 30),
        file("a", 1, 50),
        file("d", 1, 20),
        file("b", 1, 40),
    ];
    sort_files_newest_first(&mut files);
    let order: Vec<&str> = files.iter().map(|f| f.path.as_str()).collect();
    assert_eq!(order, vec!["a", "b", "c", "d", "e"]);
    let doomed = calculate_files_to_delete_by_count(&files, 2);
    let names: Vec<&str> = doomed.iter().map(|f| f.path.as_str()).collect();
    assert_eq!(names, vec!["c", "d", "e"]);
}

#[test]
fn keep_count_no_deletions() {
    let files = vec![file("a", 1, 2), file("b", 1, 1)];
    assert!(calculate_files_to_delete_by_count(&files, 2).is_empty());
    assert!(calculate_files_to_delete_by_count(&files, 5).is_empty());
}

#[test]
fn size_budget_edges() {
    let files = vec![file("c", 100, 30), file("b", 100, 20), file("a", 100, 10)];
    // the whole set fits
    assert!(calculate_files_to_delete_by_size(&files, 300).is_empty());
    // nothing fits
    let doomed = calculate_files_to_delete_by_size(&files, 99);
    assert_eq!(doomed.len(), 3);
    // an exact fit of the first two
    let doomed = calculate_files_to_delete_by_size(&files, 200);
    let names: Vec<&str> = doomed.iter().map(|f| f.path.as_str()).collect();
    assert_eq!(names, vec!["a"]);
}

#[test]
fn policy_selection() {
    match select_policy(Some(3), None) {
        Ok(RetentionPolicy::KeepCount(3)) => {}
        _ => panic!("expected a keep-count policy"),
    }
    let budget = "1.5G".to_string();
    match select_policy(None, Some(&budget)) {
        Ok(RetentionPolicy::MaxSize(1610612736)) => {}
        _ => panic!("expected a size policy"),
    }
    let bad = "huge".to_string();
    match select_policy(None, Some(&bad)) {
        Err(PolicyError::InvalidSize) => {}
        _ => panic!("expected an invalid-size error"),
    }
    match select_policy(None, None) {
        Err(PolicyError::MissingPolicy) => {}
        _ => panic!("expected a missing-policy error"),
    }
}

#[test]
fn candidate_filter() {
    assert!(is_pcap_candidate("log.pcap", None));
    assert!(is_pcap_candidate("log.pcapng", None));
    assert!(is_pcap_candidate("log.cap", None));
    assert!(!is_pcap_candidate("log.txt", None));
    assert!(!is_pcap_candidate("pcap", None));
    let prefix = "log".to_string();
    assert!(is_pcap_candidate("log.1.pcap", Some(&prefix)));
    assert!(!is_pcap_candidate("other.pcap", Some(&prefix)));
}
