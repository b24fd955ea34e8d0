use ra_vfs::{
    bulk_load_root, AcceptAll, LineEndings, RootEntry, RustFiles, TaskResult, Vfs, VfsChange,
    VfsRoot, VfsTask,
};

fn entry(s: &str) -> RootEntry<AcceptAll> {
    RootEntry::new(s.to_string(), AcceptAll)
}

fn rust_roots(paths: &[&str]) -> (Vfs<RustFiles>, Vec<VfsRoot>) {
    let entries: Vec<RootEntry<RustFiles>> =
        paths.iter().map(|p| RootEntry::new(p.to_string(), RustFiles)).collect();
    Vfs::new(entries)
}

fn listing(files: &[(&str, &str)]) -> Vec<(String, String)> {
    files.iter().map(|(p, t)| (p.to_string(), t.to_string())).collect()
}

fn scenario_disk() -> Vec<(String, String)> {
    listing(&[
        ("/a/foo.rs", "hello"),
        ("/a/bar.rs", "world"),
        ("/a/b/baz.rs", "nested hello"),
        ("/a/LICENSE", "extensionless file"),
        ("/a/.hidden.txt", "hidden file"),
    ])
}

/// Builds the two-root setup of the scenarios and drains the two bulk
/// scans, returning the controller and the handles of `/a` and `/a/b`.
fn scanned_setup() -> (Vfs<RustFiles>, VfsRoot, VfsRoot) {
    let (mut vfs, roots) = rust_roots(&["/a", "/a/b"]);
    assert_eq!(roots.len(), 2);
    let (root_a, root_b) = if vfs.root2path(roots[0]) == "/a" {
        (roots[0], roots[1])
    } else {
        (roots[1], roots[0])
    };
    assert_eq!(vfs.root2path(root_a), "/a");
    assert_eq!(vfs.root2path(root_b), "/a/b");
    for &root in roots.iter() {
        let task = bulk_load_root(&vfs.roots, root, scenario_disk());
        vfs.handle_task(VfsTask(task));
    }
    (vfs, root_a, root_b)
}

fn add_root_contents(change: &VfsChange) -> (VfsRoot, Vec<(String, String)>) {
    match change {
        VfsChange::AddRoot { root, files } => (
            *root,
            files.iter().map(|(_, p, t)| (p.clone(), t.clone())).collect(),
        ),
        _ => panic!("expected an AddRoot change"),
    }
}

#[test]
fn vfs_deduplicates() {
    let entries: Vec<RootEntry<AcceptAll>> =
        vec!["/foo", "/bar", "/foo"].into_iter().map(entry).collect();
    let (_, roots) = Vfs::new(entries);
    assert_eq!(roots.len(), 2);
}

#[test]
fn initial_scan_with_filter() {
    let (mut vfs, root_a, root_b) = scanned_setup();
    let changes = vfs.commit_changes();
    assert_eq!(changes.len(), 2);
    for change in changes.iter() {
        let (root, mut files) = add_root_contents(change);
        files.sort();
        if root == root_a {
            assert_eq!(
                files,
                vec![
                    ("bar.rs".to_string(), "world".to_string()),
                    ("foo.rs".to_string(), "hello".to_string()),
                ]
            );
        } else {
            assert_eq!(root, root_b);
            assert_eq!(files, vec![("baz.rs".to_string(), "nested hello".to_string())]);
        }
    }
}

#[test]
fn disk_write_emits_one_change() {
    let (mut vfs, _root_a, root_b) = scanned_setup();
    vfs.commit_changes();
    vfs.handle_task(VfsTask(TaskResult::SingleFile {
        root: root_b,
        path: "baz.rs".to_string(),
        text: Some("quux".to_string()),
        line_endings: LineEndings::Unix,
    }));
    let changes = vfs.commit_changes();
    assert_eq!(changes.len(), 1);
    match &changes[0] {
        VfsChange::ChangeFile { text, .. } => assert_eq!(text, "quux"),
        _ => panic!("expected a ChangeFile change"),
    }
}

#[test]
fn overlay_wins_over_disk() {
    let (mut vfs, _root_a, root_b) = scanned_setup();
    vfs.handle_task(VfsTask(TaskResult::SingleFile {
        root: root_b,
        path: "baz.rs".to_string(),
        text: Some("quux".to_string()),
        line_endings: LineEndings::Unix,
    }));
    vfs.commit_changes();

    vfs.add_file_overlay("/a/b/baz.rs", "m".to_string());
    let changes = vfs.commit_changes();
    assert_eq!(changes.len(), 1);
    match &changes[0] {
        VfsChange::ChangeFile { text, .. } => assert_eq!(text, "m"),
        _ => panic!("expected a ChangeFile change"),
    }

    // the disk moves on, but the overlay shields the file
    vfs.handle_task(VfsTask(TaskResult::SingleFile {
        root: root_b,
        path: "baz.rs".to_string(),
        text: Some("corge".to_string()),
        line_endings: LineEndings::Unix,
    }));
    assert!(vfs.commit_changes().is_empty());

    // removing the overlay restores what the disk holds now
    vfs.remove_file_overlay("/a/b/baz.rs", Some("corge".to_string()));
    let changes = vfs.commit_changes();
    assert_eq!(changes.len(), 1);
    match &changes[0] {
        VfsChange::ChangeFile { text, .. } => assert_eq!(text, "corge"),
        _ => panic!("expected a ChangeFile change"),
    }
}

#[test]
fn overlay_only_add_and_remove() {
    let (mut vfs, _root_a, root_b) = scanned_setup();
    vfs.commit_changes();

    let file = vfs.add_file_overlay("/a/b/spam.rs", "spam".to_string());
    assert!(file.is_some());
    let changes = vfs.commit_changes();
    assert_eq!(changes.len(), 1);
    match &changes[0] {
        VfsChange::AddFile { root, path, text, .. } => {
            assert_eq!(*root, root_b);
            assert_eq!(path, "spam.rs");
            assert_eq!(text, "spam");
        },
        _ => panic!("expected an AddFile change"),
    }

    let removed = vfs.remove_file_overlay("/a/b/spam.rs", None);
    assert_eq!(removed, file);
    let changes = vfs.commit_changes();
    assert_eq!(changes.len(), 1);
    match &changes[0] {
        VfsChange::RemoveFile { path, .. } => assert_eq!(path, "spam.rs"),
        _ => panic!("expected a RemoveFile change"),
    }
}

#[test]
fn create_rename_and_delete_on_disk() {
    let (mut vfs, root_a, _root_b) = scanned_setup();
    vfs.commit_changes();

    vfs.handle_task(VfsTask(TaskResult::SingleFile {
        root: root_a,
        path: "sub1/sub2/new.rs".to_string(),
        text: Some("new hello".to_string()),
        line_endings: LineEndings::Unix,
    }));
    let changes = vfs.commit_changes();
    assert_eq!(changes.len(), 1);
    match &changes[0] {
        VfsChange::AddFile { path, text, .. } => {
            assert_eq!(path, "sub1/sub2/new.rs");
            assert_eq!(text, "new hello");
        },
        _ => panic!("expected an AddFile change"),
    }

    // a rename is reported as the source gone and the destination present
    vfs.handle_task(VfsTask(TaskResult::SingleFile {
        root: root_a,
        path: "sub1/sub2/new.rs".to_string(),
        text: None,
        line_endings: LineEndings::Unix,
    }));
    vfs.handle_task(VfsTask(TaskResult::SingleFile {
        root: root_a,
        path: "sub1/sub2/new1.rs".to_string(),
        text: Some("new hello".to_string()),
        line_endings: LineEndings::Unix,
    }));
    let changes = vfs.commit_changes();
    assert_eq!(changes.len(), 2);
    match &changes[0] {
        VfsChange::RemoveFile { path, .. } => assert_eq!(path, "sub1/sub2/new.rs"),
        _ => panic!("expected a RemoveFile change"),
    }
    match &changes[1] {
        VfsChange::AddFile { path, text, .. } => {
            assert_eq!(path, "sub1/sub2/new1.rs");
            assert_eq!(text, "new hello");
        },
        _ => panic!("expected an AddFile change"),
    }

    vfs.handle_task(VfsTask(TaskResult::SingleFile {
        root: root_a,
        path: "sub1/sub2/new1.rs".to_string(),
        text: None,
        line_endings: LineEndings::Unix,
    }));
    let changes = vfs.commit_changes();
    assert_eq!(changes.len(), 1);
    match &changes[0] {
        VfsChange::RemoveFile { path, .. } => assert_eq!(path, "sub1/sub2/new1.rs"),
        _ => panic!("expected a RemoveFile change"),
    }
}

#[test]
fn spurious_report_with_same_text_is_silent() {
    let (mut vfs, _root_a, root_b) = scanned_setup();
    vfs.commit_changes();
    vfs.handle_task(VfsTask(TaskResult::SingleFile {
        root: root_b,
        path: "baz.rs".to_string(),
        text: Some("nested hello".to_string()),
        line_endings: LineEndings::Unix,
    }));
    assert!(vfs.commit_changes().is_empty());
}

#[test]
fn load_is_idempotent() {
    let (mut vfs, _root_a, _root_b) = scanned_setup();
    vfs.commit_changes();
    let first = vfs.load("/a/extra.rs", Some("fresh".to_string()));
    assert!(first.is_some());
    let changes = vfs.commit_changes();
    assert_eq!(changes.len(), 1);
    match &changes[0] {
        VfsChange::AddFile { path, text, .. } => {
            assert_eq!(path, "extra.rs");
            assert_eq!(text, "fresh");
        },
        _ => panic!("expected an AddFile change"),
    }
    let second = vfs.load("/a/extra.rs", Some("stale".to_string()));
    assert_eq!(second, first);
    assert!(vfs.commit_changes().is_empty());
}

#[test]
fn load_outside_any_root_is_refused() {
    let (mut vfs, _root_a, _root_b) = scanned_setup();
    vfs.commit_changes();
    assert_eq!(vfs.load("/elsewhere/x.rs", Some("text".to_string())), None);
    assert_eq!(vfs.load("/a/LICENSE", Some("text".to_string())), None);
    assert!(vfs.commit_changes().is_empty());
}

#[test]
fn overlay_then_change_produces_one_change_file() {
    let (mut vfs, _root_a, _root_b) = scanned_setup();
    vfs.commit_changes();
    vfs.add_file_overlay("/a/fresh.rs", "draft".to_string());
    vfs.change_file_overlay("/a/fresh.rs", "draft".to_string());
    let changes = vfs.commit_changes();
    assert_eq!(changes.len(), 2);
    assert!(matches!(&changes[0], VfsChange::AddFile { .. }));
    match &changes[1] {
        VfsChange::ChangeFile { text, .. } => assert_eq!(text, "draft"),
        _ => panic!("expected a ChangeFile change"),
    }
}

#[test]
fn lookups_follow_the_table() {
    let (mut vfs, root_a, _root_b) = scanned_setup();
    vfs.commit_changes();
    assert_eq!(vfs.n_roots(), 2);
    let file = vfs.path2file("/a/foo.rs").expect("foo.rs was scanned");
    assert_eq!(vfs.file2path(file), "/a/foo.rs");
    assert_eq!(vfs.file_line_endings(file), LineEndings::Unix);
    assert_eq!(vfs.path2file("/a/none.rs"), None);
    assert_eq!(vfs.root2path(root_a), "/a");
}

#[test]
fn removed_file_handle_is_not_reused() {
    let (mut vfs, root_a, _root_b) = scanned_setup();
    vfs.commit_changes();
    let first = vfs.load("/a/cycle.rs", Some("one".to_string())).unwrap();
    vfs.handle_task(VfsTask(TaskResult::SingleFile {
        root: root_a,
        path: "cycle.rs".to_string(),
        text: None,
        line_endings: LineEndings::Unix,
    }));
    let second = vfs.load("/a/cycle.rs", Some("two".to_string())).unwrap();
    assert_ne!(first, second);
    assert_eq!(vfs.path2file("/a/cycle.rs"), Some(second));
}

#[test]
fn bulk_load_preserves_earlier_overlay() {
    // an overlay opened before the scan finishes keeps its slot and text
    let (mut vfs, roots) = rust_roots(&["/a"]);
    let root = roots[0];
    let overlay = vfs.add_file_overlay("/a/open.rs", "edited".to_string()).unwrap();
    let task = bulk_load_root(
        &vfs.roots,
        root,
        listing(&[("/a/open.rs", "on disk"), ("/a/other.rs", "other")]),
    );
    vfs.handle_task(VfsTask(task));
    let changes = vfs.commit_changes();
    // the AddFile of the overlay, then the one AddRoot of the scan
    assert_eq!(changes.len(), 2);
    let (_, files) = add_root_contents(&changes[1]);
    assert!(files.contains(&("open.rs".to_string(), "edited".to_string())));
    assert!(files.contains(&("other.rs".to_string(), "other".to_string())));
    assert_eq!(vfs.path2file("/a/open.rs"), Some(overlay));
}
