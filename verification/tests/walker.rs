use boxy::walker::{
    list_entries, sort_entries, DirEntry, FolderWalk, SearchWalk, MAX_SEARCH_RESULTS,
};

fn segs(parts: &[&str]) -> Vec<String> {
    parts.iter().map(|s| s.to_string()).collect()
}

fn entry(name: &str, is_dir: bool, size: u64) -> DirEntry {
    DirEntry { name: name.to_string(), is_dir, size, modified: 0 }
}

#[test]
fn listing_sorts_directories_first_then_name_case_insensitive() {
    let v = vec![
        entry("zeta.txt", false, 1),
        entry("Alpha", true, 0),
        entry("beta.txt", false, 2),
        entry("gamma", true, 0),
        entry("ALPHA.txt", false, 3),
    ];
    let r = sort_entries(v);
    let names: Vec<&str> = r.iter().map(|e| e.name.as_str()).collect();
    assert_eq!(names, vec!["Alpha", "gamma", "ALPHA.txt", "beta.txt", "zeta.txt"]);
}

#[test]
fn listing_of_missing_directory_is_empty() {
    let r = list_entries(false, vec![entry("ignored", false, 1)]);
    assert!(r.is_empty());
}

#[test]
fn listing_scenario_docs_readme() {
    // Root holds one directory `docs` with one file `readme.txt` ("hi").
    let root_entries = vec![entry("docs", true, 0)];
    let r = list_entries(true, root_entries);
    assert_eq!(r.len(), 1);
    assert_eq!(r[0].name, "docs");
    assert!(r[0].is_dir);

    let docs_entries = vec![entry("readme.txt", false, 2)];
    let r = list_entries(true, docs_entries);
    assert_eq!(r.len(), 1);
    assert_eq!(r[0].name, "readme.txt");
    assert!(!r[0].is_dir);
    assert_eq!(r[0].size, 2);
}

#[test]
fn folder_walk_lists_root_first_and_descends() {
    // Tree: root { a { x }, b }
    let root = segs(&["srv", "uploads"]);
    let mut w = FolderWalk::begin(&root);
    let mut reads: Vec<Vec<String>> = Vec::new();
    let folders = loop {
        match w.next() {
            None => break w.finish(),
            Some(dir) => {
                reads.push(dir.clone());
                let subdirs: Vec<String> = if dir == segs(&["srv", "uploads"]) {
                    vec!["a".to_string(), "b".to_string()]
                } else if dir == segs(&["srv", "uploads", "a"]) {
                    vec!["x".to_string()]
                } else {
                    vec![]
                };
                for name in &subdirs {
                    w.offer_subdir(name);
                }
                w.end_dir();
            }
        }
    };
    // The worklist is a stack: the last subdirectory offered is visited
    // first, each with its whole subtree before any earlier sibling.
    assert_eq!(folders, vec!["/", "b", "a", "a/x"]);
    assert_eq!(reads.len(), 4);
}

#[test]
fn folder_walk_abandons_unreadable_subtree_only() {
    let root = segs(&["data"]);
    let mut w = FolderWalk::begin(&root);
    let folders = loop {
        match w.next() {
            None => break w.finish(),
            Some(dir) => {
                if dir == segs(&["data"]) {
                    w.offer_subdir(&"broken".to_string());
                    w.offer_subdir(&"fine".to_string());
                }
                // `broken` cannot be read: end it with nothing offered.
                w.end_dir();
            }
        }
    };
    assert_eq!(folders, vec!["/", "fine", "broken"]);
}

#[test]
fn search_empty_term_finishes_without_reading() {
    let root = segs(&["data"]);
    let mut w = SearchWalk::begin(&root, &"".to_string());
    assert!(w.next().is_none());
    let hits = w.finish();
    assert!(hits.is_empty());
}

#[test]
fn search_matches_substring_case_insensitively() {
    let root = segs(&["data"]);
    let mut w = SearchWalk::begin(&root, &"ReadMe".to_string());
    let hits = loop {
        match w.next() {
            None => break w.finish(),
            Some(dir) => {
                if dir == segs(&["data"]) {
                    w.offer_entry(&entry("docs", true, 0));
                    w.offer_entry(&entry("UNREADME.TXT", false, 7));
                    w.offer_entry(&entry("other.txt", false, 1));
                } else {
                    w.offer_entry(&entry("readme.md", false, 3));
                }
                w.end_dir();
            }
        }
    };
    let found: Vec<(&str, &str)> =
        hits.iter().map(|h| (h.entry.name.as_str(), h.path.as_str())).collect();
    assert_eq!(found, vec![("readme.md", "docs/readme.md"), ("UNREADME.TXT", "UNREADME.TXT")]);
}

#[test]
fn search_recurses_into_matching_directory_too() {
    // Matching and descending are independent: a directory whose name
    // matches is still entered.
    let root = segs(&["data"]);
    let term = "log".to_string();
    let mut w = SearchWalk::begin(&root, &term);
    let hits = loop {
        match w.next() {
            None => break w.finish(),
            Some(dir) => {
                if dir == segs(&["data"]) {
                    w.offer_entry(&entry("logs", true, 0));
                } else {
                    w.offer_entry(&entry("app.log", false, 10));
                }
                w.end_dir();
            }
        }
    };
    assert_eq!(hits.len(), 2);
    assert!(hits[0].entry.is_dir);
    assert_eq!(hits[0].path, "logs");
    assert_eq!(hits[1].path, "logs/app.log");
}

#[test]
fn search_never_exceeds_the_cap() {
    let root = segs(&["data"]);
    let mut w = SearchWalk::begin(&root, &"file".to_string());
    let mut dirs_read = 0;
    let hits = loop {
        match w.next() {
            None => break w.finish(),
            Some(_) => {
                dirs_read += 1;
                // Far more matches than the cap, plus subdirectories that
                // must not be descended into once the cap is hit.
                for i in 0..250 {
                    w.offer_entry(&entry(&format!("file_{i}.txt"), false, 1));
                }
                w.offer_entry(&entry("more", true, 0));
                w.end_dir();
            }
        }
    };
    assert_eq!(dirs_read, 1);
    assert_eq!(hits.len(), MAX_SEARCH_RESULTS);
}
