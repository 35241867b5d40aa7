use boxy::names::{NameAllocator, UniqueNameSession};

fn segs(parts: &[&str]) -> Vec<String> {
    parts.iter().map(|s| s.to_string()).collect()
}

fn allocate(
    alloc: &NameAllocator,
    parent: &Vec<String>,
    desired: &str,
    fs_taken: &dyn Fn(&Vec<String>) -> bool,
) -> String {
    let desired = desired.to_string();
    let mut s = UniqueNameSession::begin(alloc, parent, &desired);
    loop {
        if let Some(name) = s.granted() {
            return name;
        }
        let probe = s.pending_path();
        s.answer_taken(fs_taken(&probe));
    }
}

#[test]
fn free_name_is_kept() {
    let alloc = NameAllocator::new();
    let parent = segs(&["srv", "uploads"]);
    let name = allocate(&alloc, &parent, "readme.txt", &|_| false);
    assert_eq!(name, "readme.txt");
}

#[test]
fn taken_name_gets_suffix_before_extension() {
    let alloc = NameAllocator::new();
    let parent = segs(&["srv", "uploads"]);
    let name = allocate(&alloc, &parent, "readme.txt", &|p| {
        p.last().unwrap() == "readme.txt" || p.last().unwrap() == "readme_1.txt"
    });
    assert_eq!(name, "readme_2.txt");
}

#[test]
fn taken_name_without_extension() {
    let alloc = NameAllocator::new();
    let parent = segs(&["srv", "uploads"]);
    let name = allocate(&alloc, &parent, "notes", &|p| p.last().unwrap() == "notes");
    assert_eq!(name, "notes_1");
}

#[test]
fn dotfile_counts_as_extensionless() {
    let alloc = NameAllocator::new();
    let parent = segs(&["srv", "uploads"]);
    let name = allocate(&alloc, &parent, ".bashrc", &|p| p.last().unwrap() == ".bashrc");
    assert_eq!(name, ".bashrc_1");
}

#[test]
fn batch_with_identical_base_gets_distinct_names() {
    // Three requests for the same name within one batch, while the
    // filesystem claims everything is free: the batch alone forces the
    // names apart.
    let mut alloc = NameAllocator::new();
    let parent = segs(&["srv", "uploads"]);
    let mut granted: Vec<String> = Vec::new();
    for _ in 0..3 {
        let name = allocate(&alloc, &parent, "readme.txt", &|_| false);
        let mut key = parent.clone();
        key.push(name.clone());
        assert!(alloc.commit(key.join("/")));
        granted.push(name);
    }
    assert_eq!(granted, vec!["readme.txt", "readme_1.txt", "readme_2.txt"]);
    for i in 0..granted.len() {
        for j in 0..i {
            assert_ne!(granted[i], granted[j]);
        }
    }
}

#[test]
fn commit_refuses_repeated_key() {
    let mut alloc = NameAllocator::new();
    assert!(alloc.commit("srv/uploads/a.txt".to_string()));
    assert!(!alloc.commit("srv/uploads/a.txt".to_string()));
    assert!(alloc.commit("srv/uploads/b.txt".to_string()));
}
