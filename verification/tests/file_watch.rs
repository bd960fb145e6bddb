use soma::file_watch::{
    classify_watch_path, files_to_ignore_v1, files_to_watch_v1, filter_relevant_changes,
    is_soma_config_change, relative_path, ChangeDebouncer, ChangeKind, FileChange, FileChangeEvt,
    WatchStep,
};

fn change(kind: ChangeKind, paths: &[&str]) -> FileChange {
    FileChange { kind, paths: paths.iter().map(|p| p.to_string()).collect() }
}

#[test]
fn test_is_soma_config_change_with_soma_yaml() {
    let event = FileChangeEvt { changes: vec![change(ChangeKind::Modify, &["/some/path/soma.yaml"])] };

    assert!(is_soma_config_change(&event));
}

#[test]
fn test_is_soma_config_change_without_soma_yaml() {
    let event = FileChangeEvt { changes: vec![change(ChangeKind::Modify, &["/some/path/index.ts"])] };

    assert!(!is_soma_config_change(&event));
}

#[test]
fn test_is_soma_config_change_with_multiple_files() {
    let event = FileChangeEvt {
        changes: vec![
            change(ChangeKind::Modify, &["/src/index.ts"]),
            change(ChangeKind::Modify, &["/soma.yaml"]),
        ],
    };

    assert!(is_soma_config_change(&event));
}

#[test]
fn test_is_soma_config_change_empty_event() {
    let event = FileChangeEvt { changes: vec![] };

    assert!(!is_soma_config_change(&event));
}

#[test]
fn soma_yaml_is_matched_by_whole_component() {
    let yes = ["soma.yaml", "a/soma.yaml/", "a//soma.yaml", "a/soma.yaml/.", "/x/./soma.yaml"];
    for p in yes {
        let e = FileChangeEvt { changes: vec![change(ChangeKind::Create, &[p])] };
        assert!(is_soma_config_change(&e), "{p}");
    }
    let no = ["my-soma.yaml", "/soma.yaml.bak", "/soma.yaml/x", "", "/"];
    for p in no {
        let e = FileChangeEvt { changes: vec![change(ChangeKind::Create, &[p])] };
        assert!(!is_soma_config_change(&e), "{p}");
    }
}

#[test]
fn watch_and_ignore_patterns() {
    assert_eq!(files_to_watch_v1(), vec!["soma.yaml".to_string()]);
    assert!(files_to_ignore_v1().is_empty());
}

#[test]
fn relevant_changes_keep_writes_creations_and_removals() {
    let changes = vec![
        change(ChangeKind::Access, &["/a"]),
        change(ChangeKind::Create, &["/b"]),
        change(ChangeKind::Modify, &["/c"]),
        change(ChangeKind::Remove, &["/d"]),
        change(ChangeKind::Other, &["/e"]),
        change(ChangeKind::Any, &["/f"]),
    ];
    let kept = match filter_relevant_changes(changes, &files_to_ignore_v1()) {
        Ok(k) => k,
        Err(_) => panic!("no pattern is invalid"),
    };
    let kinds: Vec<ChangeKind> = kept.iter().map(|c| c.kind).collect();
    assert_eq!(kinds, vec![ChangeKind::Create, ChangeKind::Modify, ChangeKind::Remove]);
    assert_eq!(kept[0].paths, vec!["/b".to_string()]);
}

#[test]
fn ignored_paths_drop_their_change() {
    let ignore = vec!["**/node_modules/**".to_string()];
    let changes = vec![
        change(ChangeKind::Modify, &["/p/src/a.ts"]),
        change(ChangeKind::Modify, &["/p/src/b.ts", "/p/node_modules/x/y.js"]),
    ];
    let kept = match filter_relevant_changes(changes, &ignore) {
        Ok(k) => k,
        Err(_) => panic!("the pattern is valid"),
    };
    assert_eq!(kept.len(), 1);
    assert_eq!(kept[0].paths, vec!["/p/src/a.ts".to_string()]);
}

#[test]
fn invalid_ignore_pattern_is_an_error() {
    let ignore = vec!["a[".to_string()];
    let changes = vec![change(ChangeKind::Modify, &["/x"])];
    assert!(filter_relevant_changes(changes, &ignore).is_err());
    // With no path to test, no pattern is built.
    assert!(filter_relevant_changes(vec![change(ChangeKind::Modify, &[])], &ignore).is_ok());
}

#[test]
fn classify_paths_while_walking() {
    let watch = files_to_watch_v1();
    let ignore = vec!["target".to_string()];
    let step = |p: &str, dir: bool| match classify_watch_path(p, dir, &watch, &ignore) {
        Ok(s) => s,
        Err(_) => panic!("patterns are valid"),
    };
    assert_eq!(step("soma.yaml", false), WatchStep::Watch);
    assert_eq!(step("index.ts", false), WatchStep::Skip);
    assert_eq!(step("src", true), WatchStep::Descend);
    assert_eq!(step("target", true), WatchStep::Skip);
    assert!(classify_watch_path("x", false, &vec!["[".to_string()], &ignore).is_err());
}

#[test]
fn relative_paths() {
    assert_eq!(relative_path("/p/src/a.ts", "/p"), "src/a.ts");
    assert_eq!(relative_path("/p/src/a.ts", "/p/"), "src/a.ts");
    assert_eq!(relative_path("/p", "/p"), "");
    assert_eq!(relative_path("/q/a", "/p"), "/q/a");
    assert_eq!(relative_path("/pa/b", "/p"), "/pa/b");
}

#[test]
fn debouncer_reports_first_then_waits_a_second() {
    let mut d = ChangeDebouncer::new();
    let first = d.on_changes(10_000, vec![change(ChangeKind::Modify, &["/a"])]);
    assert_eq!(first.map(|b| b.len()), Some(1));
    assert!(d.on_changes(10_500, vec![change(ChangeKind::Modify, &["/b"])]).is_none());
    assert!(d.on_changes(10_999, vec![change(ChangeKind::Modify, &["/c"])]).is_none());
    let batch = d.on_changes(11_000, vec![change(ChangeKind::Modify, &["/d"])]);
    let paths: Vec<String> = batch.unwrap().into_iter().flat_map(|c| c.paths).collect();
    assert_eq!(paths, vec!["/b".to_string(), "/c".to_string(), "/d".to_string()]);
    // A clock that went back counts as no time passed.
    assert!(d.on_changes(5_000, vec![change(ChangeKind::Modify, &["/e"])]).is_none());
}

#[test]
fn debouncer_loses_no_change() {
    let mut d = ChangeDebouncer::new();
    let mut seen = 0usize;
    let times = [0u64, 100, 200, 1_500, 1_600, 4_000, 4_100];
    for (i, t) in times.iter().enumerate() {
        let out = d.on_changes(*t, vec![change(ChangeKind::Modify, &[&format!("/f{i}")])]);
        if let Some(b) = out {
            seen += b.len();
        }
    }
    let flushed = d.on_changes(100_000, vec![]).map(|b| b.len()).unwrap_or(0);
    assert_eq!(seen + flushed, times.len());
}

#[test]
fn relative_path_undoes_join() {
    for (root, part) in [("/p", "src/a.ts"), ("/p/", "b"), ("", "c/d"), ("/p", "")] {
        let joined = soma::paths::join_path(root, part);
        assert_eq!(relative_path(&joined, root), part);
    }
}
