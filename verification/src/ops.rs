//! The mutation planners: each takes the request's fields together with
//! what the caller probed on disk, and decides what to create, rename or
//! remove, what to report back, and which single change event to publish,
//! with a fixed precedence among the errors. An error carries no action
//! and no event, so a refused operation changes nothing.

use vstd::prelude::*;
use vstd::string::*;
use crate::OpError;
use crate::text::{views_of, sanitize_spec, slash_join, join_spec};
use crate::paths::clean_rel_spec;
use crate::events::{Action, ChangeEvent};

verus! {

/// Creating a folder: the directory tree to create and the event.
pub struct CreateFolderPlan {
    /// The full directory path to create, existing directories included
    /// (creating them again is not an error).
    pub dir: Vec<String>,
    pub event: ChangeEvent,
}

/// The decision for folder creation: the base must be confined; the new
/// name is sanitized, never rejected.
pub fn create_folder_plan(
    name: &String,
    rel_dir: Option<&String>,
    resolved_base: Option<&Vec<String>>,
) -> (r: Result<CreateFolderPlan, OpError>)
    ensures
        resolved_base is None ==> r == Err::<CreateFolderPlan, OpError>(OpError::Confinement),
        resolved_base matches Some(b) ==> r matches Ok(p) && {
            let safe = sanitize_spec(name@);
            let rel = match rel_dir {
                Some(d) => slash_join(d@, safe),
                None => safe,
            };
            &&& views_of(p.dir@) =~= views_of(b@).push(safe)
            &&& p.event.action == Action::Folder
            &&& p.event.path@ == rel
        },
{
    match resolved_base {
        None => Err(OpError::Confinement),
        Some(b) => {
            let safe = crate::text::sanitize_name(name.as_str());
            let mut dir = crate::paths::clone_segments(b);
            let ghost entry = dir@;
            dir.push(safe.clone());
            proof {
                crate::text::lemma_views_push(entry, dir@.last());
            }
            let rel = crate::text::prefix_join(rel_dir, safe.as_str());
            Ok(CreateFolderPlan { dir, event: ChangeEvent { action: Action::Folder, path: rel } })
        },
    }
}

/// The sibling path a rename would move to: the source's parent plus the
/// sanitized new name. `None` when the source has no parent.
pub fn rename_target(resolved: &Vec<String>, new_name: &String) -> (r: Option<Vec<String>>)
    ensures
        resolved@.len() == 0 ==> r is None,
        resolved@.len() > 0 ==> (r matches Some(t) && views_of(t@) =~= views_of(
            resolved@,
        ).drop_last().push(sanitize_spec(new_name@))),
{
    if resolved.len() == 0 {
        return None;
    }
    let safe = crate::text::sanitize_name(new_name.as_str());
    let mut t = crate::paths::clone_prefix(resolved, resolved.len() - 1);
    let ghost entry = t@;
    t.push(safe);
    proof {
        crate::text::lemma_views_push(entry, t@.last());
        assert(views_of(resolved@).subrange(0, resolved@.len() - 1) =~= views_of(
            resolved@,
        ).drop_last());
    }
    Some(t)
}

/// A rename: the atomic directory-entry move and the event.
pub struct RenamePlan {
    pub from: Vec<String>,
    pub to: Vec<String>,
    /// The name actually used, reported back to the caller.
    pub new_name: String,
    pub event: ChangeEvent,
}

/// The decision for a rename, once source and target were probed: a
/// missing source is reported before an occupied target, and a conflict
/// leaves both untouched — an error carries no action.
pub fn rename_plan(
    resolved: Option<&Vec<String>>,
    src_on_disk: bool,
    target_on_disk: bool,
    path: &String,
    new_name: &String,
) -> (r: Result<RenamePlan, OpError>)
    ensures
        resolved is None ==> r == Err::<RenamePlan, OpError>(OpError::Confinement),
        resolved matches Some(s) ==> {
            if !src_on_disk {
                r == Err::<RenamePlan, OpError>(OpError::NotFound)
            } else if s@.len() == 0 {
                r == Err::<RenamePlan, OpError>(OpError::InvalidInput)
            } else if target_on_disk {
                r == Err::<RenamePlan, OpError>(OpError::Conflict)
            } else {
                r matches Ok(p) && {
                    let safe = sanitize_spec(new_name@);
                    &&& views_of(p.from@) == views_of(s@)
                    &&& views_of(p.to@) =~= views_of(s@).drop_last().push(safe)
                    &&& p.new_name@ == safe
                    &&& p.event.action == Action::Rename
                    &&& p.event.path@ == path@
                }
            }
        },
{
    match resolved {
        None => Err(OpError::Confinement),
        Some(s) => {
            if !src_on_disk {
                Err(OpError::NotFound)
            } else if s.len() == 0 {
                Err(OpError::InvalidInput)
            } else if target_on_disk {
                Err(OpError::Conflict)
            } else {
                let safe = crate::text::sanitize_name(new_name.as_str());
                let mut to = crate::paths::clone_prefix(s, s.len() - 1);
                let ghost entry = to@;
                to.push(safe.clone());
                proof {
                    crate::text::lemma_views_push(entry, to@.last());
                    assert(views_of(s@).subrange(0, s@.len() - 1) =~= views_of(s@).drop_last());
                }
                Ok(
                    RenamePlan {
                        from: crate::paths::clone_segments(s),
                        to,
                        new_name: safe,
                        event: ChangeEvent { action: Action::Rename, path: path.clone() },
                    },
                )
            }
        },
    }
}

/// Where a move would land: the destination directory plus the source's
/// base name. `None` when the source has no base name.
pub fn move_target(src_resolved: &Vec<String>, dest_resolved: &Vec<String>) -> (r: Option<
    Vec<String>,
>)
    ensures
        src_resolved@.len() == 0 ==> r is None,
        src_resolved@.len() > 0 ==> (r matches Some(t) && views_of(t@) =~= views_of(
            dest_resolved@,
        ).push(src_resolved@.last()@)),
{
    if src_resolved.len() == 0 {
        return None;
    }
    let mut t = crate::paths::clone_segments(dest_resolved);
    let ghost entry = t@;
    t.push(src_resolved[src_resolved.len() - 1].clone());
    proof {
        crate::text::lemma_views_push(entry, t@.last());
    }
    Some(t)
}

/// A move: the destination tree to create, the atomic move, the event.
pub struct MovePlan {
    /// Created first; the destination directory may not exist yet.
    pub create_dir: Vec<String>,
    pub from: Vec<String>,
    pub to: Vec<String>,
    pub event: ChangeEvent,
}

/// The decision for a move, once the source and the landing spot were
/// probed. Source and destination are each confined on their own; the
/// event carries the caller's source path, not the destination.
pub fn move_plan(
    src_resolved: Option<&Vec<String>>,
    dest_resolved: Option<&Vec<String>>,
    src_on_disk: bool,
    target_on_disk: bool,
    path: &String,
) -> (r: Result<MovePlan, OpError>)
    ensures
        src_resolved is None || dest_resolved is None ==> r == Err::<MovePlan, OpError>(
            OpError::Confinement,
        ),
        src_resolved matches Some(s) ==> (dest_resolved matches Some(d) ==> {
            if !src_on_disk {
                r == Err::<MovePlan, OpError>(OpError::NotFound)
            } else if s@.len() == 0 {
                r == Err::<MovePlan, OpError>(OpError::InvalidInput)
            } else if target_on_disk {
                r == Err::<MovePlan, OpError>(OpError::Conflict)
            } else {
                r matches Ok(p) && {
                    &&& views_of(p.create_dir@) == views_of(d@)
                    &&& views_of(p.from@) == views_of(s@)
                    &&& views_of(p.to@) =~= views_of(d@).push(s@.last()@)
                    &&& p.event.action == Action::Move
                    &&& p.event.path@ == path@
                }
            }
        }),
{
    match (src_resolved, dest_resolved) {
        (Some(s), Some(d)) => {
            if !src_on_disk {
                Err(OpError::NotFound)
            } else if s.len() == 0 {
                Err(OpError::InvalidInput)
            } else if target_on_disk {
                Err(OpError::Conflict)
            } else {
                let mut to = crate::paths::clone_segments(d);
                let ghost entry = to@;
                to.push(s[s.len() - 1].clone());
                proof {
                    crate::text::lemma_views_push(entry, to@.last());
                }
                Ok(
                    MovePlan {
                        create_dir: crate::paths::clone_segments(d),
                        from: crate::paths::clone_segments(s),
                        to,
                        event: ChangeEvent { action: Action::Move, path: path.clone() },
                    },
                )
            }
        },
        _ => Err(OpError::Confinement),
    }
}

/// What to remove for a delete.
pub enum Removal {
    /// The target is a directory: remove it with everything below.
    Tree(Vec<String>),
    /// The target is a single file.
    File(Vec<String>),
}

/// A delete: possibly nothing at all — deleting what is absent succeeds
/// and publishes nothing.
pub struct DeletePlan {
    pub removal: Option<Removal>,
    pub event: Option<ChangeEvent>,
}

/// The decision for a delete: only confinement can refuse it. An absent
/// target is a silent no-op with no event; an existing one is removed and
/// exactly one delete event is published.
pub fn delete_plan(
    resolved: Option<&Vec<String>>,
    on_disk: bool,
    is_dir: bool,
    path: &String,
) -> (r: Result<DeletePlan, OpError>)
    ensures
        resolved is None ==> r == Err::<DeletePlan, OpError>(OpError::Confinement),
        resolved matches Some(t) ==> r matches Ok(p) && {
            if on_disk {
                &&& is_dir ==> (p.removal matches Some(r2) && r2 matches Removal::Tree(d)
                    && views_of(d@) == views_of(t@))
                &&& !is_dir ==> (p.removal matches Some(r2) && r2 matches Removal::File(f)
                    && views_of(f@) == views_of(t@))
                &&& p.event matches Some(e) && e.action == Action::Delete && e.path@ == path@
            } else {
                p.removal is None && p.event is None
            }
        },
{
    match resolved {
        None => Err(OpError::Confinement),
        Some(t) => {
            if on_disk {
                let removal = if is_dir {
                    Removal::Tree(crate::paths::clone_segments(t))
                } else {
                    Removal::File(crate::paths::clone_segments(t))
                };
                Ok(
                    DeletePlan {
                        removal: Some(removal),
                        event: Some(ChangeEvent { action: Action::Delete, path: path.clone() }),
                    },
                )
            } else {
                Ok(DeletePlan { removal: None, event: None })
            }
        },
    }
}

/// One file of an upload batch, after its name was settled: where it goes.
pub struct UploadPrep {
    /// The directory the allocated file lands in.
    pub parent: Vec<String>,
    /// The file name the client asked for, last segment only.
    pub desired: String,
    /// The cleaned directory segments inside the upload, for the reported
    /// relative name.
    pub rel_dirs: Vec<String>,
    /// The client's name before cleaning, the key into the mtime map.
    pub original_name: String,
}

/// The name an upload falls back to without a client-supplied one.
pub fn fallback_upload_name() -> (r: String)
    ensures
        r@.len() == 41,
        r@.subrange(0, 5) == "file_"@,
        forall|i: int| 0 <= i < r@.len() ==> r@[i] != '/',
{
    proof {
        reveal_strlit("file_");
    }
    let token = crate::trusted::fresh_token();
    let mut out = String::from_str("file_");
    out.append(token.as_str());
    proof {
        assert(out@.subrange(0, 5) =~= "file_"@);
        assert forall|i: int| 0 <= i < out@.len() implies out@[i] != '/' by {
            reveal_strlit("file_");
            if i >= 5 {
                assert(out@[i] == token@[i - 5]);
            }
        }
    }
    out
}

/// Settles where one uploaded file goes: the base must be confined, the
/// supplied name is normalized segment by segment (so folder uploads may
/// carry nested paths, but never climb), and the last segment is what the
/// unique-name allocation starts from.
pub fn upload_prepare(resolved_base: Option<&Vec<String>>, filename: &String) -> (r: Result<
    UploadPrep,
    OpError,
>)
    ensures
        resolved_base is None ==> r == Err::<UploadPrep, OpError>(OpError::Confinement),
        resolved_base matches Some(b) ==> ({
            let cleaned = clean_rel_spec(filename@);
            if cleaned.len() > 0 {
                r matches Ok(p) && {
                    &&& views_of(p.parent@) =~= views_of(b@) + cleaned.drop_last()
                    &&& p.desired@ == cleaned.last()
                    &&& views_of(p.rel_dirs@) =~= cleaned.drop_last()
                    &&& p.original_name@ == filename@
                }
            } else if b@.len() > 0 {
                r matches Ok(p) && {
                    &&& views_of(p.parent@) =~= views_of(b@).drop_last()
                    &&& p.desired@ == b@.last()@
                    &&& p.rel_dirs@.len() == 0
                    &&& p.original_name@ == filename@
                }
            } else {
                r == Err::<UploadPrep, OpError>(OpError::InvalidInput)
            }
        }),
{
    match resolved_base {
        None => Err(OpError::Confinement),
        Some(b) => {
            let mut cleaned = crate::paths::clean_relative_path(filename.as_str());
            if cleaned.len() > 0 {
                let desired = match cleaned.pop() {
                    Some(d) => d,
                    None => {
                        proof {
                            assert(false);
                        }
                        String::new()
                    },
                };
                let ghost cl = clean_rel_spec(filename@);
                let mut parent = crate::paths::clone_segments(b);
                let ghost head = parent@;
                let mut k: usize = 0;
                while k < cleaned.len()
                    invariant
                        k <= cleaned@.len(),
                        views_of(parent@) =~= views_of(head) + views_of(cleaned@).subrange(
                            0,
                            k as int,
                        ),
                    decreases cleaned@.len() - k,
                {
                    let ghost entry = parent@;
                    let seg = cleaned[k].clone();
                    parent.push(seg);
                    proof {
                        crate::text::lemma_views_push(entry, parent@.last());
                        assert(views_of(cleaned@).subrange(0, k + 1) =~= views_of(
                            cleaned@,
                        ).subrange(0, k as int).push(views_of(cleaned@)[k as int]));
                    }
                    k = k + 1;
                }
                proof {
                    assert(views_of(cleaned@).subrange(0, cleaned@.len() as int) =~= views_of(
                        cleaned@,
                    ));
                    assert(views_of(cleaned@) =~= cl.drop_last());
                    assert(desired@ == cl.last());
                }
                Ok(
                    UploadPrep {
                        parent,
                        desired,
                        rel_dirs: cleaned,
                        original_name: filename.clone(),
                    },
                )
            } else if b.len() > 0 {
                let parent = crate::paths::clone_prefix(b, b.len() - 1);
                proof {
                    assert(views_of(b@).subrange(0, b@.len() - 1) =~= views_of(b@).drop_last());
                }
                Ok(
                    UploadPrep {
                        parent,
                        desired: b[b.len() - 1].clone(),
                        rel_dirs: Vec::new(),
                        original_name: filename.clone(),
                    },
                )
            } else {
                Err(OpError::InvalidInput)
            }
        },
    }
}

/// A modification time carried beside an upload, as the filesystem takes
/// it: whole seconds and the remainder in nanoseconds.
pub fn mtime_parts(ms: u64) -> (r: (i64, u32))
    ensures
        r.0 == ms as int / 1000,
        r.1 == (ms as int % 1000) * 1000000,
{
    let secs = (ms / 1000) as i64;
    let nanos = ((ms % 1000) * 1000000) as u32;
    (secs, nanos)
}

/// The first value stored under `name`, if any.
pub open spec fn mtime_lookup(m: Seq<(String, u64)>, name: Seq<char>) -> Option<u64>
    decreases m.len(),
{
    if m.len() == 0 {
        None
    } else if m[0].0@ == name {
        Some(m[0].1)
    } else {
        mtime_lookup(m.drop_first(), name)
    }
}

/// A match at `i`, with none before it, is what the lookup returns.
proof fn lemma_mtime_lookup_at(m: Seq<(String, u64)>, name: Seq<char>, i: int)
    requires
        0 <= i < m.len(),
        m[i].0@ == name,
        forall|k: int| 0 <= k < i ==> (#[trigger] m[k].0)@ != name,
    ensures
        mtime_lookup(m, name) == Some(m[i].1),
    decreases m.len(),
{
    if i > 0 {
        assert forall|k: int| 0 <= k < i - 1 implies (#[trigger] m.drop_first()[k].0)@ != name by {
            assert(m.drop_first()[k] == m[k + 1]);
        }
        assert(m.drop_first()[i - 1] == m[i]);
        lemma_mtime_lookup_at(m.drop_first(), name, i - 1);
    }
}

/// With no match anywhere, the lookup returns nothing.
proof fn lemma_mtime_lookup_none(m: Seq<(String, u64)>, name: Seq<char>)
    requires
        forall|k: int| 0 <= k < m.len() ==> (#[trigger] m[k].0)@ != name,
    ensures
        mtime_lookup(m, name) is None,
    decreases m.len(),
{
    if m.len() > 0 {
        assert forall|k: int| 0 <= k < m.drop_first().len() implies (#[trigger] m.drop_first()[k].0)@
            != name by {
            assert(m.drop_first()[k] == m[k + 1]);
        }
        lemma_mtime_lookup_none(m.drop_first(), name);
    }
}

/// Looks a name up in the upload's mtime metadata.
pub fn lookup_mtime(m: &Vec<(String, u64)>, name: &String) -> (r: Option<u64>)
    ensures
        r == mtime_lookup(m@, name@),
{
    let mut i: usize = 0;
    while i < m.len()
        invariant
            i <= m@.len(),
            forall|k: int| 0 <= k < i ==> (#[trigger] m@[k].0)@ != name@,
        decreases m@.len() - i,
    {
        if m[i].0.eq(name) {
            proof {
                lemma_mtime_lookup_at(m@, name@, i as int);
            }
            return Some(m[i].1);
        }
        i = i + 1;
    }
    proof {
        lemma_mtime_lookup_none(m@, name@);
    }
    None
}

/// One uploaded file, name settled: where to write, what to report, what
/// to publish, and the original mtime to restore, when one was sent.
pub struct UploadFilePlan {
    /// Created before writing; nested uploads bring their own directories.
    pub create_dir: Vec<String>,
    /// The file to stream the bytes into.
    pub target: Vec<String>,
    /// The name reported back: the cleaned directories plus the allocated
    /// name.
    pub rel_name: String,
    pub event: ChangeEvent,
    /// Seconds and nanoseconds to stamp the file with; best-effort.
    pub mtime: Option<(i64, u32)>,
}

/// Completes one upload once a unique name was granted: the reported name
/// and the event carry the allocated name, and the mtime map is consulted
/// under the client's original name.
pub fn upload_finish(
    prep: &UploadPrep,
    granted: &String,
    dir_param: Option<&String>,
    mtimes: &Vec<(String, u64)>,
) -> (r: UploadFilePlan)
    ensures
        views_of(r.create_dir@) == views_of(prep.parent@),
        views_of(r.target@) =~= views_of(prep.parent@).push(granted@),
        r.rel_name@ == join_spec(views_of(prep.rel_dirs@).push(granted@)),
        r.event.action == Action::Upload,
        r.event.path@ == (match dir_param {
            Some(d) => slash_join(d@, join_spec(views_of(prep.rel_dirs@).push(granted@))),
            None => join_spec(views_of(prep.rel_dirs@).push(granted@)),
        }),
        r.mtime matches Some(p) ==> mtime_lookup(mtimes@, prep.original_name@) matches Some(ms)
            && p.0 == ms as int / 1000 && p.1 == (ms as int % 1000) * 1000000,
        r.mtime is None <==> mtime_lookup(mtimes@, prep.original_name@) is None,
{
    let mut target = crate::paths::clone_segments(&prep.parent);
    let ghost entry = target@;
    target.push(granted.clone());
    proof {
        crate::text::lemma_views_push(entry, target@.last());
    }
    let mut full_rel = crate::paths::clone_segments(&prep.rel_dirs);
    let ghost entry2 = full_rel@;
    full_rel.push(granted.clone());
    proof {
        crate::text::lemma_views_push(entry2, full_rel@.last());
    }
    let rel_name = crate::text::join_segments(&full_rel);
    let event_path = crate::text::prefix_join(dir_param, rel_name.as_str());
    let mtime = match lookup_mtime(mtimes, &prep.original_name) {
        Some(ms) => Some(crate::ops::mtime_parts(ms)),
        None => None,
    };
    UploadFilePlan {
        create_dir: crate::paths::clone_segments(&prep.parent),
        target,
        rel_name,
        event: ChangeEvent { action: Action::Upload, path: event_path },
        mtime,
    }
}

/// What the process runs with; absent values fall back to the defaults.
pub struct Settings {
    pub upload_dir: String,
    pub port: u16,
    pub max_upload_bytes: usize,
}

/// The default root directory.
pub const DEFAULT_UPLOAD_DIR: &'static str = "./uploads";

/// The default port.
pub const DEFAULT_PORT: u16 = 8086;

/// The default upload size bound: 200 MB.
pub const DEFAULT_MAX_UPLOAD_BYTES: usize = 1024 * 1024 * 200;

/// Combines configured values with the defaults.
pub fn effective_settings(dir: Option<String>, port: Option<u16>, max: Option<usize>) -> (r:
    Settings)
    ensures
        r.upload_dir@ == (match dir {
            Some(d) => d@,
            None => DEFAULT_UPLOAD_DIR@,
        }),
        r.port == (match port {
            Some(p) => p,
            None => DEFAULT_PORT,
        }),
        r.max_upload_bytes == (match max {
            Some(m) => m,
            None => DEFAULT_MAX_UPLOAD_BYTES,
        }),
{
    Settings {
        upload_dir: match dir {
            Some(d) => d,
            None => String::from_str(DEFAULT_UPLOAD_DIR),
        },
        port: match port {
            Some(p) => p,
            None => DEFAULT_PORT,
        },
        max_upload_bytes: match max {
            Some(m) => m,
            None => DEFAULT_MAX_UPLOAD_BYTES,
        },
    }
}

} // verus!
