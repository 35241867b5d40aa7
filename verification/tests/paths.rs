use boxy::paths::{
    clean_relative_path, resolve_path, resolve_path_safe, ResolveQuery, ResolveSession,
};

fn segs(parts: &[&str]) -> Vec<String> {
    parts.iter().map(|s| s.to_string()).collect()
}

fn strings(v: &Vec<String>) -> Vec<&str> {
    v.iter().map(|s| s.as_str()).collect()
}

#[test]
fn clean_drops_dotdot_and_empty() {
    let r = clean_relative_path("../../etc/passwd");
    assert_eq!(strings(&r), vec!["etc", "passwd"]);
    let r = clean_relative_path("a/./b//c/..");
    assert_eq!(strings(&r), vec!["a", "b", "c"]);
    let r = clean_relative_path("/leading/and/trailing/");
    assert_eq!(strings(&r), vec!["leading", "and", "trailing"]);
    let r = clean_relative_path("..");
    assert!(r.is_empty());
    let r = clean_relative_path("");
    assert!(r.is_empty());
}

#[test]
fn resolve_none_is_root() {
    let root = segs(&["srv", "uploads"]);
    let r = resolve_path(&root, None);
    assert_eq!(strings(&r), vec!["srv", "uploads"]);
}

#[test]
fn resolve_never_leaves_root_by_name() {
    let root = segs(&["srv", "uploads"]);
    for evil in ["../../../etc/passwd", "..", "a/../../..", "....//..//x"] {
        let p = evil.to_string();
        let r = resolve_path(&root, Some(&p));
        assert!(r.len() >= root.len());
        assert_eq!(&strings(&r)[..2], &["srv", "uploads"]);
        for seg in &r[2..] {
            assert!(seg != ".." && seg != "." && !seg.is_empty());
        }
    }
}

#[test]
fn safe_accepts_canonical_inside_root() {
    let candidate = segs(&["srv", "uploads", "docs", "new.txt"]);
    let anchor = segs(&["srv", "uploads", "docs"]);
    let root = segs(&["srv", "uploads"]);
    let r = resolve_path_safe(&candidate, Some(&anchor), Some(&root));
    assert_eq!(strings(&r.expect("inside root")), vec!["srv", "uploads", "docs", "new.txt"]);
}

#[test]
fn safe_rejects_symlink_outside_root() {
    // The candidate's existing ancestor canonicalizes outside the root,
    // as a planted symlink would make it do.
    let candidate = segs(&["srv", "uploads", "link", "secret"]);
    let anchor_canon = segs(&["etc"]);
    let root_canon = segs(&["srv", "uploads"]);
    assert!(resolve_path_safe(&candidate, Some(&anchor_canon), Some(&root_canon)).is_none());
}

#[test]
fn safe_rejects_uncanonicalizable() {
    let candidate = segs(&["srv", "uploads", "x"]);
    let root_canon = segs(&["srv", "uploads"]);
    assert!(resolve_path_safe(&candidate, None, Some(&root_canon)).is_none());
    assert!(resolve_path_safe(&candidate, Some(&root_canon), None).is_none());
}

#[test]
fn session_walks_to_nearest_existing_ancestor() {
    // Filesystem: /srv/uploads exists, docs/new.txt does not.
    let root = segs(&["srv", "uploads"]);
    let rel = "docs/new.txt".to_string();
    let mut s = ResolveSession::begin(&root, Some(&rel));
    let mut probes: Vec<Vec<String>> = Vec::new();
    let verdict = loop {
        match s.pending() {
            ResolveQuery::Exists(p) => {
                probes.push(p.clone());
                let exists = p.len() <= 2;
                s.answer_exists(exists);
            }
            ResolveQuery::Canonicalize { anchor, base } => {
                // No symlinks: canonical forms are the paths themselves.
                s.answer_canonical(Some(&anchor), Some(&base));
            }
            ResolveQuery::Verdict(v) => break v,
        }
    };
    let accepted = verdict.expect("confined");
    assert_eq!(strings(&accepted), vec!["srv", "uploads", "docs", "new.txt"]);
    // It probed the candidate, then each ancestor down to the root.
    assert_eq!(probes.len(), 3);
    assert_eq!(strings(&probes[0]), vec!["srv", "uploads", "docs", "new.txt"]);
    assert_eq!(strings(&probes[1]), vec!["srv", "uploads", "docs"]);
    assert_eq!(strings(&probes[2]), vec!["srv", "uploads"]);
}

#[test]
fn session_rejects_when_root_is_gone() {
    let root = segs(&["srv", "uploads"]);
    let rel = "a/b".to_string();
    let mut s = ResolveSession::begin(&root, Some(&rel));
    let verdict = loop {
        match s.pending() {
            ResolveQuery::Exists(_) => s.answer_exists(false),
            ResolveQuery::Canonicalize { .. } => unreachable!("nothing exists"),
            ResolveQuery::Verdict(v) => break v,
        }
    };
    assert!(verdict.is_none());
}

#[test]
fn session_rejects_escaping_canonical_ancestor() {
    let root = segs(&["srv", "uploads"]);
    let rel = "link/file".to_string();
    let mut s = ResolveSession::begin(&root, Some(&rel));
    let verdict = loop {
        match s.pending() {
            ResolveQuery::Exists(_) => s.answer_exists(true),
            ResolveQuery::Canonicalize { anchor: _, base } => {
                // The existing ancestor canonicalizes to /etc: a symlink escape.
                let outside = segs(&["etc"]);
                s.answer_canonical(Some(&outside), Some(&base));
            }
            ResolveQuery::Verdict(v) => break v,
        }
    };
    assert!(verdict.is_none());
}
