//! Text-edit gating and download headers: the extension allow-list, the
//! checks before a file's content may be read or written, the creation of
//! new editable files, and the content type and disposition a download
//! carries.

use vstd::prelude::*;
use vstd::string::*;
use crate::OpError;
use crate::text::{views_of, ext_of, sanitize_spec, slash_join};
use crate::trusted::{lower_of, mime_of};
use crate::events::{Action, ChangeEvent};

verus! {

/// The fixed allow-list of editable extensions, compared lowercased.
pub open spec fn editable_ext(e: Seq<char>) -> bool {
    ||| e == "txt"@
    ||| e == "csv"@
    ||| e == "py"@
    ||| e == "json"@
    ||| e == "md"@
    ||| e == "rs"@
    ||| e == "js"@
    ||| e == "html"@
    ||| e == "css"@
    ||| e == "toml"@
    ||| e == "yaml"@
    ||| e == "yml"@
}

/// A file name is editable when it has an extension on the allow-list.
pub open spec fn is_editable_spec(name: Seq<char>) -> bool {
    match ext_of(name) {
        Some(e) => editable_ext(lower_of(e)),
        None => false,
    }
}

/// `a` holds exactly the characters of the literal `lit`.
fn string_is(a: &String, lit: &str) -> (r: bool)
    ensures
        r == (a@ == lit@),
{
    a.eq(&String::from_str(lit))
}

/// Whether a file name's extension, lowercased, is on the editable
/// allow-list; a name without an extension is not editable.
pub fn is_editable_extension(name: &str) -> (r: bool)
    ensures
        r == is_editable_spec(name@),
{
    let (_stem, ext) = crate::text::split_stem_ext(name);
    match ext {
        None => false,
        Some(e) => {
            let le = crate::trusted::lowercase(e.as_str());
            string_is(&le, "txt") || string_is(&le, "csv") || string_is(&le, "py") || string_is(
                &le,
                "json",
            ) || string_is(&le, "md") || string_is(&le, "rs") || string_is(&le, "js") || string_is(
                &le,
                "html",
            ) || string_is(&le, "css") || string_is(&le, "toml") || string_is(&le, "yaml")
                || string_is(&le, "yml")
        },
    }
}

/// The checks before a file's text is read: the path must be present,
/// confined, an existing file, and editable. What may then be read is the
/// resolved target.
pub fn get_content_check(
    path: Option<&String>,
    resolved: Option<&Vec<String>>,
    on_disk: bool,
    is_dir: bool,
) -> (r: Result<Vec<String>, OpError>)
    ensures
        path is None ==> r == Err::<Vec<String>, OpError>(OpError::InvalidInput),
        path is Some && resolved is None ==> r == Err::<Vec<String>, OpError>(OpError::Confinement),
        path is Some ==> (resolved matches Some(t) ==> {
            if !on_disk || is_dir || t@.len() == 0 {
                r == Err::<Vec<String>, OpError>(OpError::NotFound)
            } else if !is_editable_spec(t@.last()@) {
                r == Err::<Vec<String>, OpError>(OpError::NotEditable)
            } else {
                r matches Ok(p) && views_of(p@) == views_of(t@)
            }
        }),
{
    if path.is_none() {
        return Err(OpError::InvalidInput);
    }
    match resolved {
        None => Err(OpError::Confinement),
        Some(t) => {
            if !on_disk || is_dir || t.len() == 0 {
                Err(OpError::NotFound)
            } else if !is_editable_extension(t[t.len() - 1].as_str()) {
                Err(OpError::NotEditable)
            } else {
                Ok(crate::paths::clone_segments(t))
            }
        },
    }
}

/// What saving a file's text will do: write the target and publish one
/// edit event carrying the caller's path.
pub struct SavePlan {
    pub target: Vec<String>,
    pub event: ChangeEvent,
}

/// The checks before a file's text is overwritten: confined, an existing
/// file, editable. The same gate as reading, plus the event to publish.
pub fn save_content_plan(
    path: &String,
    resolved: Option<&Vec<String>>,
    on_disk: bool,
    is_dir: bool,
) -> (r: Result<SavePlan, OpError>)
    ensures
        resolved is None ==> r == Err::<SavePlan, OpError>(OpError::Confinement),
        resolved matches Some(t) ==> {
            if !on_disk || is_dir || t@.len() == 0 {
                r == Err::<SavePlan, OpError>(OpError::NotFound)
            } else if !is_editable_spec(t@.last()@) {
                r == Err::<SavePlan, OpError>(OpError::NotEditable)
            } else {
                r matches Ok(p) && views_of(p.target@) == views_of(t@) && p.event.action
                    == Action::Edit && p.event.path@ == path@
            }
        },
{
    match resolved {
        None => Err(OpError::Confinement),
        Some(t) => {
            if !on_disk || is_dir || t.len() == 0 {
                Err(OpError::NotFound)
            } else if !is_editable_extension(t[t.len() - 1].as_str()) {
                Err(OpError::NotEditable)
            } else {
                Ok(
                    SavePlan {
                        target: crate::paths::clone_segments(t),
                        event: ChangeEvent { action: Action::Edit, path: path.clone() },
                    },
                )
            }
        },
    }
}

/// Where a new file would land: the resolved base plus the sanitized file
/// name. The extension gate comes before confinement, as callers see it.
pub fn new_file_target(filename: &String, resolved_base: Option<&Vec<String>>) -> (r: Result<
    Vec<String>,
    OpError,
>)
    ensures
        !is_editable_spec(sanitize_spec(filename@)) ==> r == Err::<Vec<String>, OpError>(
            OpError::InvalidInput,
        ),
        is_editable_spec(sanitize_spec(filename@)) && resolved_base is None ==> r == Err::<
            Vec<String>,
            OpError,
        >(OpError::Confinement),
        is_editable_spec(sanitize_spec(filename@)) ==> (resolved_base matches Some(b) ==> r matches
            Ok(t) && views_of(t@) =~= views_of(b@).push(sanitize_spec(filename@))),
{
    let safe = crate::text::sanitize_name(filename.as_str());
    if !is_editable_extension(safe.as_str()) {
        return Err(OpError::InvalidInput);
    }
    match resolved_base {
        None => Err(OpError::Confinement),
        Some(b) => {
            let mut t = crate::paths::clone_segments(b);
            let ghost entry = t@;
            t.push(safe);
            proof {
                crate::text::lemma_views_push(entry, t@.last());
            }
            Ok(t)
        },
    }
}

/// Creating a new editable file: the directories to ensure, the empty
/// file to write, the path reported back, and the event to publish.
pub struct NewFilePlan {
    /// The directory tree to create first.
    pub create_dir: Vec<String>,
    /// The zero-length file to write.
    pub target: Vec<String>,
    /// The path reported to the caller.
    pub rel_path: String,
    /// Published once the file exists.
    pub event: ChangeEvent,
}

/// The decision for a new editable file, once its target was probed:
/// bad extensions and escapes are refused as before, an occupied target
/// is a conflict, and success publishes one upload event.
pub fn new_file_plan(
    filename: &String,
    rel_dir: Option<&String>,
    resolved_base: Option<&Vec<String>>,
    target_exists: bool,
) -> (r: Result<NewFilePlan, OpError>)
    ensures
        !is_editable_spec(sanitize_spec(filename@)) ==> r == Err::<NewFilePlan, OpError>(
            OpError::InvalidInput,
        ),
        is_editable_spec(sanitize_spec(filename@)) && resolved_base is None ==> r == Err::<
            NewFilePlan,
            OpError,
        >(OpError::Confinement),
        is_editable_spec(sanitize_spec(filename@)) && resolved_base is Some && target_exists ==> r
            == Err::<NewFilePlan, OpError>(OpError::Conflict),
        is_editable_spec(sanitize_spec(filename@)) && !target_exists ==> (resolved_base matches Some(b)
            ==> r matches Ok(p) && {
            let safe = sanitize_spec(filename@);
            let rel = match rel_dir {
                Some(d) => slash_join(d@, safe),
                None => safe,
            };
            &&& views_of(p.create_dir@) == views_of(b@)
            &&& views_of(p.target@) =~= views_of(b@).push(safe)
            &&& p.rel_path@ == rel
            &&& p.event.action == Action::Upload
            &&& p.event.path@ == rel
        }),
{
    let safe = crate::text::sanitize_name(filename.as_str());
    if !is_editable_extension(safe.as_str()) {
        return Err(OpError::InvalidInput);
    }
    match resolved_base {
        None => Err(OpError::Confinement),
        Some(b) => {
            if target_exists {
                return Err(OpError::Conflict);
            }
            let mut t = crate::paths::clone_segments(b);
            let ghost entry = t@;
            t.push(safe.clone());
            proof {
                crate::text::lemma_views_push(entry, t@.last());
            }
            let rel = crate::text::prefix_join(rel_dir, safe.as_str());
            Ok(
                NewFilePlan {
                    create_dir: crate::paths::clone_segments(b),
                    target: t,
                    rel_path: rel.clone(),
                    event: ChangeEvent { action: Action::Upload, path: rel },
                },
            )
        },
    }
}

/// The lowercased extension a download is typed by; empty without one.
pub open spec fn ext_lower(name: Seq<char>) -> Seq<char> {
    match ext_of(name) {
        Some(e) => lower_of(e),
        None => Seq::empty(),
    }
}

/// The content type a download of `name` is served with: a fixed table
/// for common previewable types, the guessed type otherwise.
pub open spec fn content_type_spec(name: Seq<char>) -> Seq<char> {
    let e = ext_lower(name);
    if e == "pdf"@ {
        "application/pdf"@
    } else if e == "mp4"@ {
        "video/mp4"@
    } else if e == "webm"@ {
        "video/webm"@
    } else if e == "mp3"@ {
        "audio/mpeg"@
    } else if e == "wav"@ {
        "audio/wav"@
    } else if e == "ogg"@ {
        "audio/ogg"@
    } else if e == "txt"@ {
        "text/plain; charset=utf-8"@
    } else if e == "html"@ || e == "htm"@ {
        "text/html; charset=utf-8"@
    } else if e == "css"@ {
        "text/css; charset=utf-8"@
    } else if e == "js"@ {
        "text/javascript; charset=utf-8"@
    } else if e == "json"@ {
        "application/json; charset=utf-8"@
    } else if e == "xml"@ {
        "application/xml; charset=utf-8"@
    } else if e == "svg"@ {
        "image/svg+xml"@
    } else if e == "png"@ {
        "image/png"@
    } else if e == "jpg"@ || e == "jpeg"@ {
        "image/jpeg"@
    } else if e == "gif"@ {
        "image/gif"@
    } else if e == "webp"@ {
        "image/webp"@
    } else if e == "ico"@ {
        "image/x-icon"@
    } else {
        mime_of(name)
    }
}

/// The content type for a file name.
pub fn content_type_for(name: &str) -> (r: String)
    ensures
        r@ == content_type_spec(name@),
{
    let (_stem, ext) = crate::text::split_stem_ext(name);
    let e: String = match ext {
        Some(x) => crate::trusted::lowercase(x.as_str()),
        None => String::new(),
    };
    if string_is(&e, "pdf") {
        String::from_str("application/pdf")
    } else if string_is(&e, "mp4") {
        String::from_str("video/mp4")
    } else if string_is(&e, "webm") {
        String::from_str("video/webm")
    } else if string_is(&e, "mp3") {
        String::from_str("audio/mpeg")
    } else if string_is(&e, "wav") {
        String::from_str("audio/wav")
    } else if string_is(&e, "ogg") {
        String::from_str("audio/ogg")
    } else if string_is(&e, "txt") {
        String::from_str("text/plain; charset=utf-8")
    } else if string_is(&e, "html") || string_is(&e, "htm") {
        String::from_str("text/html; charset=utf-8")
    } else if string_is(&e, "css") {
        String::from_str("text/css; charset=utf-8")
    } else if string_is(&e, "js") {
        String::from_str("text/javascript; charset=utf-8")
    } else if string_is(&e, "json") {
        String::from_str("application/json; charset=utf-8")
    } else if string_is(&e, "xml") {
        String::from_str("application/xml; charset=utf-8")
    } else if string_is(&e, "svg") {
        String::from_str("image/svg+xml")
    } else if string_is(&e, "png") {
        String::from_str("image/png")
    } else if string_is(&e, "jpg") || string_is(&e, "jpeg") {
        String::from_str("image/jpeg")
    } else if string_is(&e, "gif") {
        String::from_str("image/gif")
    } else if string_is(&e, "webp") {
        String::from_str("image/webp")
    } else if string_is(&e, "ico") {
        String::from_str("image/x-icon")
    } else {
        crate::trusted::guess_mime(name)
    }
}

/// A file name written inside a quoted header value: quotes are escaped,
/// everything else passes through.
pub open spec fn quote_escape(s: Seq<char>) -> Seq<char>
    decreases s.len(),
{
    if s.len() == 0 {
        Seq::empty()
    } else {
        (if s[0] == '"' {
            seq!['\\', '"']
        } else {
            seq![s[0]]
        }) + quote_escape(s.subrange(1, s.len() as int))
    }
}

/// Escaping one further character appends its form.
proof fn lemma_quote_escape_snoc(s: Seq<char>, i: int)
    requires
        0 <= i < s.len(),
    ensures
        quote_escape(s.take(i + 1)) == quote_escape(s.take(i)) + (if s[i] == '"' {
            seq!['\\', '"']
        } else {
            seq![s[i]]
        }),
    decreases i,
{
    reveal_with_fuel(quote_escape, 3);
    if i == 0 {
        assert(s.take(1) =~= seq![s[0]]);
        assert(seq![s[0]].subrange(1, 1) =~= Seq::<char>::empty());
        assert(s.take(0) =~= Seq::<char>::empty());
    } else {
        assert(s.take(i + 1)[0] == s[0]);
        assert(s.take(i + 1).subrange(1, i + 1) =~= s.subrange(1, s.len() as int).take(i));
        assert(s.take(i).subrange(1, i) =~= s.subrange(1, s.len() as int).take(i - 1));
        lemma_quote_escape_snoc(s.subrange(1, s.len() as int), i - 1);
        assert(s.subrange(1, s.len() as int)[i - 1] == s[i]);
        assert(quote_escape(s.take(i + 1)) =~= quote_escape(s.take(i)) + (if s[i] == '"' {
            seq!['\\', '"']
        } else {
            seq![s[i]]
        }));
    }
}

/// The disposition header a download carries: `attachment` when it is to
/// be saved, `inline` for preview, with the file name quoted.
pub open spec fn disposition_spec(attachment: bool, name: Seq<char>) -> Seq<char> {
    (if attachment {
        "attachment; filename=\""@
    } else {
        "inline; filename=\""@
    }) + quote_escape(name) + "\""@
}

/// Builds the disposition header value.
pub fn disposition_header(attachment: bool, name: &String) -> (r: String)
    ensures
        r@ == disposition_spec(attachment, name@),
{
    let mut out = String::new();
    if attachment {
        out.append("attachment; filename=\"");
    } else {
        out.append("inline; filename=\"");
    }
    let ghost head = out@;
    let s = name.as_str();
    let len = s.unicode_len();
    let mut i: usize = 0;
    proof {
        assert(s@.take(0) =~= Seq::<char>::empty());
        assert(head + quote_escape(s@.take(0)) =~= head);
    }
    while i < len
        invariant
            i <= len,
            len == s@.len(),
            out@ == head + quote_escape(s@.take(i as int)),
        decreases len - i,
    {
        let c = s.get_char(i);
        if c == '"' {
            proof {
                reveal_strlit("\\\"");
            }
            out.append("\\\"");
            assert(out@ =~= head + quote_escape(s@.take(i as int)) + seq!['\\', '"']);
        } else {
            let piece = s.substring_char(i, i + 1);
            out.append(piece);
            assert(out@ =~= head + quote_escape(s@.take(i as int)) + seq![s@[i as int]]);
        }
        proof {
            lemma_quote_escape_snoc(s@, i as int);
        }
        i = i + 1;
    }
    proof {
        assert(s@.take(len as int) =~= s@);
    }
    out.append("\"");
    proof {
        assert(out@ =~= disposition_spec(attachment, name@));
    }
    out
}

/// Serving a download: the file to read, the content type, and the
/// disposition header.
pub struct DownloadPlan {
    pub target: Vec<String>,
    pub content_type: String,
    pub disposition: String,
}

/// The decision for a download request: the path must be present,
/// confined and an existing file; the headers follow from its name.
pub fn download_plan(
    path: Option<&String>,
    resolved: Option<&Vec<String>>,
    on_disk: bool,
    is_dir: bool,
    attachment: bool,
) -> (r: Result<DownloadPlan, OpError>)
    ensures
        path is None ==> r == Err::<DownloadPlan, OpError>(OpError::InvalidInput),
        path is Some && resolved is None ==> r == Err::<DownloadPlan, OpError>(
            OpError::Confinement,
        ),
        path is Some ==> (resolved matches Some(t) ==> {
            if !on_disk || is_dir {
                r == Err::<DownloadPlan, OpError>(OpError::NotFound)
            } else {
                r matches Ok(p) && {
                    let fname = if t@.len() > 0 {
                        t@.last()@
                    } else {
                        "download"@
                    };
                    &&& views_of(p.target@) == views_of(t@)
                    &&& p.content_type@ == content_type_spec(fname)
                    &&& p.disposition@ == disposition_spec(attachment, fname)
                }
            }
        }),
{
    if path.is_none() {
        return Err(OpError::InvalidInput);
    }
    match resolved {
        None => Err(OpError::Confinement),
        Some(t) => {
            if !on_disk || is_dir {
                Err(OpError::NotFound)
            } else {
                let fname: String = if t.len() > 0 {
                    t[t.len() - 1].clone()
                } else {
                    String::from_str("download")
                };
                Ok(
                    DownloadPlan {
                        target: crate::paths::clone_segments(t),
                        content_type: content_type_for(fname.as_str()),
                        disposition: disposition_header(attachment, &fname),
                    },
                )
            }
        },
    }
}

} // verus!
