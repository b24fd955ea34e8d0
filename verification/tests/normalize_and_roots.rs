use ra_vfs::{
    classify_change, normalize_newlines, AcceptAll, ChangeKind, FileType, Filter, LineEndings,
    RawEvent, RootEntry, Roots, RustFiles, Vfs, VfsTask, TaskResult,
};

fn normalize(s: &str) -> (String, LineEndings) {
    let mut text = s.to_string();
    let flavor = normalize_newlines(&mut text);
    (text, flavor)
}

#[test]
fn normalize_crlf_round_trip() {
    assert_eq!(normalize("a\r\nb"), ("a\nb".to_string(), LineEndings::Dos));
    assert_eq!(normalize("a\nb"), ("a\nb".to_string(), LineEndings::Unix));
    assert_eq!(normalize(""), ("".to_string(), LineEndings::Unix));
    assert_eq!(normalize("one\r\ntwo\r\n"), ("one\ntwo\n".to_string(), LineEndings::Dos));
}

#[test]
fn normalize_preserves_isolated_cr() {
    // an isolated carriage return stays in the text; any carriage
    // return at all records the Dos flavor
    assert_eq!(normalize("a\rb"), ("a\rb".to_string(), LineEndings::Dos));
    assert_eq!(normalize("a\r\rb"), ("a\r\rb".to_string(), LineEndings::Dos));
}

#[test]
fn normalize_output_has_no_crlf() {
    let inputs = ["a\r\nb\r\nc", "\r\n", "x\ry\r\nz", "mixed\n\r\n\rtail"];
    for input in inputs.iter() {
        let (out, _) = normalize(input);
        assert!(!out.contains("\r\n"));
        assert!(out.is_ascii());
    }
}

#[test]
fn rust_filter_accepts_sources_only() {
    let filter = RustFiles;
    assert!(filter.include_file("foo.rs"));
    assert!(filter.include_file("a/b/baz.rs"));
    assert!(!filter.include_file("LICENSE"));
    assert!(!filter.include_file("module.js"));
    assert!(filter.include_dir(""));
    assert!(filter.include_dir("src/deep"));
    assert!(!filter.include_dir("node_modules"));
    assert!(!filter.include_dir("target"));
    assert!(!filter.include_dir(".git"));
    assert!(!filter.include_dir(".hidden_folder"));
    assert!(!filter.include_dir("a/node_modules/nested"));
}

#[test]
fn find_picks_the_most_specific_root() {
    let roots: Roots<RustFiles> = Roots::new(vec![
        RootEntry::new("/a".to_string(), RustFiles),
        RootEntry::new("/a/b".to_string(), RustFiles),
    ]);
    let (root_b, rel) = roots.find("/a/b/baz.rs", FileType::File).expect("owned by /a/b");
    assert_eq!(*roots.path(root_b), "/a/b");
    assert_eq!(rel, "baz.rs");
    let (root_a, rel) = roots.find("/a/foo.rs", FileType::File).expect("owned by /a");
    assert_eq!(*roots.path(root_a), "/a");
    assert_eq!(rel, "foo.rs");
    // the nested tree belongs to /a/b alone
    assert_eq!(roots.contains(root_a, "/a/b/baz.rs", FileType::File), None);
}

#[test]
fn find_respects_filter_and_scope() {
    let roots: Roots<RustFiles> = Roots::new(vec![RootEntry::new("/a".to_string(), RustFiles)]);
    assert_eq!(roots.find("/a/LICENSE", FileType::File), None);
    assert_eq!(roots.find("/a/.hidden_folder/file.rs", FileType::File), None);
    assert_eq!(roots.find("/a/node_modules/module2.rs", FileType::File), None);
    assert_eq!(roots.find("/elsewhere/foo.rs", FileType::File), None);
    assert!(roots.find("/a/sub/dir", FileType::Dir).is_some());
    assert!(roots.find("/a/target", FileType::Dir).is_none());
}

#[test]
fn canonical_path_also_resolves() {
    let roots: Roots<RustFiles> = Roots::new(vec![RootEntry::with_canonical(
        "/symlinked".to_string(),
        "/real/dir".to_string(),
        RustFiles,
    )]);
    let (root, rel) = roots.find("/real/dir/x.rs", FileType::File).expect("canonical match");
    assert_eq!(rel, "x.rs");
    assert_eq!(*roots.path(root), "/symlinked");
    assert!(roots.find("/symlinked/x.rs", FileType::File).is_some());
}

#[test]
fn classify_change_reclassifies_raw_events() {
    assert!(classify_change(RawEvent::NoticeWrite("/a/x.rs".to_string())).is_empty());
    assert!(classify_change(RawEvent::NoticeRemove("/a/x.rs".to_string())).is_empty());
    assert!(classify_change(RawEvent::Chmod("/a/x.rs".to_string())).is_empty());
    assert!(classify_change(RawEvent::Rescan).is_empty());
    assert!(classify_change(RawEvent::Error("boom".to_string())).is_empty());
    assert_eq!(
        classify_change(RawEvent::Create("/a/x.rs".to_string())),
        vec![("/a/x.rs".to_string(), ChangeKind::Create)]
    );
    assert_eq!(
        classify_change(RawEvent::Write("/a/x.rs".to_string())),
        vec![("/a/x.rs".to_string(), ChangeKind::Write)]
    );
    assert_eq!(
        classify_change(RawEvent::Remove("/a/x.rs".to_string())),
        vec![("/a/x.rs".to_string(), ChangeKind::Remove)]
    );
    assert_eq!(
        classify_change(RawEvent::Rename("/a/x.rs".to_string(), "/a/y.rs".to_string())),
        vec![
            ("/a/x.rs".to_string(), ChangeKind::Remove),
            ("/a/y.rs".to_string(), ChangeKind::Create),
        ]
    );
}

#[test]
fn file_type_distinguishes_directories() {
    assert!(FileType::Dir.is_dir());
    assert!(!FileType::File.is_dir());
}

#[test]
fn bulk_load_records_line_endings() {
    let (mut vfs, roots) = Vfs::new(vec![RootEntry::new("/a".to_string(), RustFiles)]);
    let task = ra_vfs::bulk_load_root(
        &vfs.roots,
        roots[0],
        vec![
            ("/a/dos.rs".to_string(), "one\r\ntwo".to_string()),
            ("/a/unix.rs".to_string(), "one\ntwo".to_string()),
        ],
    );
    vfs.handle_task(VfsTask(task));
    vfs.commit_changes();
    let dos = vfs.path2file("/a/dos.rs").unwrap();
    let unix = vfs.path2file("/a/unix.rs").unwrap();
    assert_eq!(vfs.file_line_endings(dos), LineEndings::Dos);
    assert_eq!(vfs.file_line_endings(unix), LineEndings::Unix);
}

#[test]
fn synthesized_write_yields_exactly_one_change() {
    // with watching disabled the host synthesizes a write notification;
    // the worker answers with one report and the log gains one change
    let (mut vfs, roots) = Vfs::new(vec![RootEntry::new("/a".to_string(), AcceptAll)]);
    let root = roots[0];
    let task = ra_vfs::bulk_load_root(
        &vfs.roots,
        root,
        vec![("/a/foo.rs".to_string(), "hello".to_string())],
    );
    vfs.handle_task(VfsTask(task));
    vfs.commit_changes();

    let events = classify_change(RawEvent::Write("/a/foo.rs".to_string()));
    assert_eq!(events.len(), 1);
    let (path, kind) = &events[0];
    assert_eq!(*kind, ChangeKind::Write);
    let (root, rel) = vfs.roots.find(path, FileType::File).unwrap();
    vfs.handle_task(VfsTask(TaskResult::SingleFile {
        root,
        path: rel,
        text: Some("goodbye".to_string()),
        line_endings: LineEndings::Unix,
    }));
    assert_eq!(vfs.commit_changes().len(), 1);
}
