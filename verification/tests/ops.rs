use boxy::events::{broadcast_update, Action, ChangeBus};
use boxy::names::{NameAllocator, UniqueNameSession};
use boxy::ops::{
    create_folder_plan, delete_plan, effective_settings, lookup_mtime, move_plan, move_target,
    mtime_parts, rename_plan, rename_target, upload_finish, upload_prepare, Removal,
};
use boxy::paths::resolve_path;
use boxy::OpError;

fn segs(parts: &[&str]) -> Vec<String> {
    parts.iter().map(|s| s.to_string()).collect()
}

fn strings(v: &Vec<String>) -> Vec<&str> {
    v.iter().map(|s| s.as_str()).collect()
}

#[test]
fn create_folder_sanitizes_name_and_reports_rel_path() {
    let base = segs(&["srv", "uploads", "a"]);
    let rel = "a".to_string();
    let name = "new/folder".to_string();
    let p = create_folder_plan(&name, Some(&rel), Some(&base)).unwrap();
    assert_eq!(strings(&p.dir), vec!["srv", "uploads", "a", "new_folder"]);
    assert_eq!(p.event.action, Action::Folder);
    assert_eq!(p.event.path, "a/new_folder");
}

#[test]
fn create_folder_refuses_unconfined_base() {
    let r = create_folder_plan(&"x".to_string(), None, None);
    assert_eq!(r.err().unwrap(), OpError::Confinement);
}

#[test]
fn rename_missing_source_is_not_found() {
    let src = segs(&["srv", "uploads", "gone.txt"]);
    let r = rename_plan(Some(&src), false, false, &"gone.txt".to_string(), &"x.txt".to_string());
    assert_eq!(r.err().unwrap(), OpError::NotFound);
}

#[test]
fn rename_into_occupied_sibling_is_conflict_and_changes_nothing() {
    let src = segs(&["srv", "uploads", "a.txt"]);
    let target = rename_target(&src, &"b.txt".to_string()).unwrap();
    assert_eq!(strings(&target), vec!["srv", "uploads", "b.txt"]);
    // The target exists: the decision is Conflict, and it carries no
    // rename and no event, so both names stay as they are on disk.
    let r = rename_plan(Some(&src), true, true, &"a.txt".to_string(), &"b.txt".to_string());
    assert_eq!(r.err().unwrap(), OpError::Conflict);
}

#[test]
fn rename_success_moves_to_sanitized_sibling() {
    let src = segs(&["srv", "uploads", "docs", "a.txt"]);
    let p = rename_plan(Some(&src), true, false, &"docs/a.txt".to_string(), &"b/c.txt".to_string())
        .unwrap();
    assert_eq!(strings(&p.from), vec!["srv", "uploads", "docs", "a.txt"]);
    assert_eq!(strings(&p.to), vec!["srv", "uploads", "docs", "b_c.txt"]);
    assert_eq!(p.new_name, "b_c.txt");
    assert_eq!(p.event.action, Action::Rename);
    assert_eq!(p.event.path, "docs/a.txt");
}

#[test]
fn move_creates_missing_destination_and_reports_source_path() {
    // MOVE docs/readme.txt into archive, which does not exist yet.
    let root = segs(&["srv", "uploads"]);
    let src = resolve_path(&root, Some(&"docs/readme.txt".to_string()));
    let dest = resolve_path(&root, Some(&"archive".to_string()));
    let target = move_target(&src, &dest).unwrap();
    assert_eq!(strings(&target), vec!["srv", "uploads", "archive", "readme.txt"]);

    let p = move_plan(Some(&src), Some(&dest), true, false, &"docs/readme.txt".to_string())
        .unwrap();
    assert_eq!(strings(&p.create_dir), vec!["srv", "uploads", "archive"]);
    assert_eq!(strings(&p.from), vec!["srv", "uploads", "docs", "readme.txt"]);
    assert_eq!(strings(&p.to), vec!["srv", "uploads", "archive", "readme.txt"]);
    assert_eq!(p.event.action, Action::Move);
    assert_eq!(p.event.path, "docs/readme.txt");

    let mut bus = ChangeBus::new(16);
    let id = bus.subscribe();
    broadcast_update(&mut bus, p.event.action, &p.event.path);
    assert_eq!(
        bus.next_message(id).unwrap(),
        "{\"action\":\"move\",\"path\":\"docs/readme.txt\"}"
    );
    assert!(bus.next_message(id).is_none());
}

#[test]
fn move_into_occupied_destination_is_conflict() {
    let src = segs(&["srv", "uploads", "a"]);
    let dest = segs(&["srv", "uploads", "b"]);
    let r = move_plan(Some(&src), Some(&dest), true, true, &"a".to_string());
    assert_eq!(r.err().unwrap(), OpError::Conflict);
}

#[test]
fn delete_of_missing_target_succeeds_without_event() {
    let t = segs(&["srv", "uploads", "gone.txt"]);
    let p = delete_plan(Some(&t), false, false, &"gone.txt".to_string()).unwrap();
    assert!(p.removal.is_none());
    assert!(p.event.is_none());

    // Nothing is published for it: a subscriber sees no message.
    let mut bus = ChangeBus::new(8);
    let id = bus.subscribe();
    if let Some(e) = p.event {
        broadcast_update(&mut bus, e.action, &e.path);
    }
    assert!(bus.next_message(id).is_none());
}

#[test]
fn delete_of_file_and_directory() {
    let t = segs(&["srv", "uploads", "docs"]);
    let p = delete_plan(Some(&t), true, true, &"docs".to_string()).unwrap();
    match p.removal.unwrap() {
        Removal::Tree(d) => assert_eq!(strings(&d), vec!["srv", "uploads", "docs"]),
        Removal::File(_) => panic!("directories are removed recursively"),
    }
    let e = p.event.unwrap();
    assert_eq!(e.action, Action::Delete);
    assert_eq!(e.path, "docs");

    let t = segs(&["srv", "uploads", "a.txt"]);
    let p = delete_plan(Some(&t), true, false, &"a.txt".to_string()).unwrap();
    assert!(matches!(p.removal.unwrap(), Removal::File(_)));
}

#[test]
fn upload_over_existing_name_reports_allocated_name() {
    // UPLOAD readme.txt to the root while /readme.txt already exists:
    // the file lands as readme_1.txt, the original is untouched (nothing
    // in the plan writes it), and one upload event carries readme_1.txt.
    let root = segs(&["srv", "uploads"]);
    let alloc = NameAllocator::new();
    let prep = upload_prepare(Some(&root), &"readme.txt".to_string()).unwrap();
    assert_eq!(strings(&prep.parent), vec!["srv", "uploads"]);
    assert_eq!(prep.desired, "readme.txt");

    let mut s = UniqueNameSession::begin(&alloc, &prep.parent, &prep.desired);
    let granted = loop {
        if let Some(name) = s.granted() {
            break name;
        }
        let probe = s.pending_path();
        // Only the original name is on disk.
        s.answer_taken(probe.last().unwrap() == "readme.txt");
    };
    assert_eq!(granted, "readme_1.txt");

    let plan = upload_finish(&prep, &granted, None, &vec![]);
    assert_eq!(strings(&plan.target), vec!["srv", "uploads", "readme_1.txt"]);
    assert_eq!(plan.rel_name, "readme_1.txt");
    assert_eq!(plan.event.action, Action::Upload);
    assert_eq!(plan.event.path, "readme_1.txt");
    assert!(plan.mtime.is_none());

    let mut bus = ChangeBus::new(8);
    let id = bus.subscribe();
    broadcast_update(&mut bus, plan.event.action, &plan.event.path);
    assert_eq!(
        bus.next_message(id).unwrap(),
        "{\"action\":\"upload\",\"path\":\"readme_1.txt\"}"
    );
    assert!(bus.next_message(id).is_none());
}

#[test]
fn upload_nested_name_keeps_directories_and_prefixes_dir_param() {
    let base = segs(&["srv", "uploads", "in"]);
    let prep = upload_prepare(Some(&base), &"photos/2024/cat.jpg".to_string()).unwrap();
    assert_eq!(strings(&prep.parent), vec!["srv", "uploads", "in", "photos", "2024"]);
    assert_eq!(prep.desired, "cat.jpg");
    assert_eq!(strings(&prep.rel_dirs), vec!["photos", "2024"]);

    let mtimes = vec![("photos/2024/cat.jpg".to_string(), 1700000001500u64)];
    let dir = "in".to_string();
    let plan = upload_finish(&prep, &"cat.jpg".to_string(), Some(&dir), &mtimes);
    assert_eq!(plan.rel_name, "photos/2024/cat.jpg");
    assert_eq!(plan.event.path, "in/photos/2024/cat.jpg");
    assert_eq!(plan.mtime, Some((1700000001, 500000000)));
}

#[test]
fn upload_cleans_escaping_names() {
    let base = segs(&["srv", "uploads"]);
    let prep = upload_prepare(Some(&base), &"../../etc/passwd".to_string()).unwrap();
    assert_eq!(strings(&prep.parent), vec!["srv", "uploads", "etc"]);
    assert_eq!(prep.desired, "passwd");
}

#[test]
fn mtime_arithmetic_and_lookup() {
    assert_eq!(mtime_parts(1999), (1, 999000000));
    assert_eq!(mtime_parts(0), (0, 0));
    let m = vec![("a".to_string(), 5u64), ("b".to_string(), 7u64)];
    assert_eq!(lookup_mtime(&m, &"b".to_string()), Some(7));
    assert_eq!(lookup_mtime(&m, &"c".to_string()), None);
}

#[test]
fn settings_fall_back_to_defaults() {
    let s = effective_settings(None, None, None);
    assert_eq!(s.upload_dir, "./uploads");
    assert_eq!(s.port, 8086);
    assert_eq!(s.max_upload_bytes, 200 * 1024 * 1024);
    let s = effective_settings(Some("/data".to_string()), Some(9000), Some(1024));
    assert_eq!(s.upload_dir, "/data");
    assert_eq!(s.port, 9000);
    assert_eq!(s.max_upload_bytes, 1024);
}
