use boxy::content::{
    content_type_for, disposition_header, download_plan, get_content_check, is_editable_extension,
    new_file_plan, new_file_target, save_content_plan,
};
use boxy::events::Action;
use boxy::OpError;

fn segs(parts: &[&str]) -> Vec<String> {
    parts.iter().map(|s| s.to_string()).collect()
}

fn strings(v: &Vec<String>) -> Vec<&str> {
    v.iter().map(|s| s.as_str()).collect()
}

#[test]
fn editable_extensions_are_the_fixed_list() {
    for ok in ["a.txt", "b.csv", "c.py", "d.json", "e.md", "f.rs", "g.js", "h.html", "i.css",
        "j.toml", "k.yaml", "l.yml", "UPPER.TXT", "mixed.Md"] {
        assert!(is_editable_extension(ok), "{ok} should be editable");
    }
    for bad in ["a.exe", "b.png", "noext", ".bashrc", "a.txt.gz", "x."] {
        assert!(!is_editable_extension(bad), "{bad} should not be editable");
    }
}

#[test]
fn get_content_requires_path_confinement_presence_and_editability() {
    let t = segs(&["srv", "uploads", "a.txt"]);
    assert_eq!(get_content_check(None, None, false, false).err().unwrap(), OpError::InvalidInput);
    let p = "a.txt".to_string();
    assert_eq!(
        get_content_check(Some(&p), None, true, false).err().unwrap(),
        OpError::Confinement
    );
    assert_eq!(
        get_content_check(Some(&p), Some(&t), false, false).err().unwrap(),
        OpError::NotFound
    );
    assert_eq!(
        get_content_check(Some(&p), Some(&t), true, true).err().unwrap(),
        OpError::NotFound
    );
    let bin = segs(&["srv", "uploads", "a.exe"]);
    assert_eq!(
        get_content_check(Some(&p), Some(&bin), true, false).err().unwrap(),
        OpError::NotEditable
    );
    let r = get_content_check(Some(&p), Some(&t), true, false).unwrap();
    assert_eq!(strings(&r), vec!["srv", "uploads", "a.txt"]);
}

#[test]
fn save_content_publishes_edit_with_caller_path() {
    let t = segs(&["srv", "uploads", "docs", "a.md"]);
    let p = save_content_plan(&"docs/a.md".to_string(), Some(&t), true, false).unwrap();
    assert_eq!(strings(&p.target), vec!["srv", "uploads", "docs", "a.md"]);
    assert_eq!(p.event.action, Action::Edit);
    assert_eq!(p.event.path, "docs/a.md");
}

#[test]
fn new_file_rejects_bad_extension_before_anything_else() {
    let r = new_file_target(&"run.exe".to_string(), None);
    assert_eq!(r.err().unwrap(), OpError::InvalidInput);
    let r = new_file_plan(&"run.exe".to_string(), None, None, false);
    assert_eq!(r.err().unwrap(), OpError::InvalidInput);
}

#[test]
fn new_file_conflict_when_target_exists() {
    let base = segs(&["srv", "uploads"]);
    let r = new_file_plan(&"note.txt".to_string(), None, Some(&base), true);
    assert_eq!(r.err().unwrap(), OpError::Conflict);
}

#[test]
fn new_file_success_creates_empty_editable_file() {
    let base = segs(&["srv", "uploads", "docs"]);
    let rel = "docs".to_string();
    let target = new_file_target(&"note.txt".to_string(), Some(&base)).unwrap();
    assert_eq!(strings(&target), vec!["srv", "uploads", "docs", "note.txt"]);
    let p = new_file_plan(&"note.txt".to_string(), Some(&rel), Some(&base), false).unwrap();
    assert_eq!(strings(&p.create_dir), vec!["srv", "uploads", "docs"]);
    assert_eq!(strings(&p.target), vec!["srv", "uploads", "docs", "note.txt"]);
    assert_eq!(p.rel_path, "docs/note.txt");
    assert_eq!(p.event.action, Action::Upload);
    assert_eq!(p.event.path, "docs/note.txt");
}

#[test]
fn content_types_follow_the_preview_table() {
    assert_eq!(content_type_for("a.pdf"), "application/pdf");
    assert_eq!(content_type_for("a.MP4"), "video/mp4");
    assert_eq!(content_type_for("a.htm"), "text/html; charset=utf-8");
    assert_eq!(content_type_for("a.txt"), "text/plain; charset=utf-8");
    assert_eq!(content_type_for("a.json"), "application/json; charset=utf-8");
    assert_eq!(content_type_for("a.jpeg"), "image/jpeg");
    assert_eq!(content_type_for("a.ico"), "image/x-icon");
    // Outside the table the guess falls back to the mime database.
    assert_eq!(content_type_for("a.bin"), "application/octet-stream");
    assert_eq!(content_type_for("archive.tar.gz"), "application/gzip");
}

#[test]
fn disposition_quotes_the_file_name() {
    assert_eq!(
        disposition_header(true, &"report.pdf".to_string()),
        "attachment; filename=\"report.pdf\""
    );
    assert_eq!(
        disposition_header(false, &"weird\"name.txt".to_string()),
        "inline; filename=\"weird\\\"name.txt\""
    );
}

#[test]
fn download_plan_checks_and_headers() {
    assert_eq!(
        download_plan(None, None, true, false, true).err().unwrap(),
        OpError::InvalidInput
    );
    let p = "a.pdf".to_string();
    assert_eq!(
        download_plan(Some(&p), None, true, false, true).err().unwrap(),
        OpError::Confinement
    );
    let t = segs(&["srv", "uploads", "a.pdf"]);
    assert_eq!(
        download_plan(Some(&p), Some(&t), false, false, true).err().unwrap(),
        OpError::NotFound
    );
    let plan = download_plan(Some(&p), Some(&t), true, false, false).unwrap();
    assert_eq!(strings(&plan.target), vec!["srv", "uploads", "a.pdf"]);
    assert_eq!(plan.content_type, "application/pdf");
    assert_eq!(plan.disposition, "inline; filename=\"a.pdf\"");
}
