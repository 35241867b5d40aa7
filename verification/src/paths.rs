//! Path resolution confined to a root directory.
//!
//! A client-supplied relative path is split on `/`; empty, `.` and `..`
//! segments are silently dropped, so the joined candidate can never climb
//! above the root by name alone. Defence against symlinks pointing outside
//! the root is a separate, existence-aware check: the caller probes the
//! filesystem under direction of a [`ResolveSession`], which walks up to the
//! nearest existing ancestor of the candidate and then compares the
//! canonical form of that ancestor against the canonical root.

use vstd::prelude::*;
use vstd::string::*;
use crate::text::views_of;

verus! {

/// Segments that normalization keeps: non-empty and neither `.` nor `..`.
pub open spec fn keep_segment(seg: Seq<char>) -> bool {
    seg.len() > 0 && seg != seq!['.'] && seg != seq!['.', '.']
}

/// Splitting on `/` with `cur` the segment read so far.
pub open spec fn split_acc(s: Seq<char>, cur: Seq<char>) -> Seq<Seq<char>>
    decreases s.len(),
{
    if s.len() == 0 {
        seq![cur]
    } else if s[0] == '/' {
        seq![cur] + split_acc(s.subrange(1, s.len() as int), Seq::empty())
    } else {
        split_acc(s.subrange(1, s.len() as int), cur.push(s[0]))
    }
}

/// All `/`-separated segments of `s`, empty ones included.
pub open spec fn split_slash(s: Seq<char>) -> Seq<Seq<char>> {
    split_acc(s, Seq::empty())
}

/// `keep_segment` as a value, for use with `Seq::filter`.
pub open spec fn keep_pred() -> spec_fn(Seq<char>) -> bool {
    |seg: Seq<char>| keep_segment(seg)
}

/// The normalized form of a relative path: its segments with empty, `.`
/// and `..` dropped.
pub open spec fn clean_rel_spec(s: Seq<char>) -> Seq<Seq<char>> {
    split_slash(s).filter(keep_pred())
}

/// Every segment that normalization keeps is a plain name: non-empty,
/// not `.` and not `..`, so it can only descend.
pub proof fn lemma_clean_segments_plain(s: Seq<char>)
    ensures
        forall|i: int|
            0 <= i < clean_rel_spec(s).len() ==> #[trigger] keep_segment(clean_rel_spec(s)[i]),
{
    assert forall|i: int| 0 <= i < clean_rel_spec(s).len() implies #[trigger] keep_segment(
        clean_rel_spec(s)[i],
    ) by {
        split_slash(s).lemma_filter_pred(keep_pred(), i);
    }
}

/// Filtering a one-element sequence keeps or drops that element.
proof fn lemma_filter_singleton(s: Seq<Seq<char>>)
    requires
        s.len() == 1,
    ensures
        s.filter(keep_pred()) =~= (if keep_segment(s[0]) {
            s
        } else {
            Seq::<Seq<char>>::empty()
        }),
{
    reveal_with_fuel(Seq::filter, 2);
    assert(s.drop_last() =~= Seq::<Seq<char>>::empty());
    assert(s.drop_last().filter(keep_pred()) == Seq::<Seq<char>>::empty().filter(keep_pred()));
}

/// Splits a relative path on `/` and drops empty, `.` and `..` segments.
pub fn clean_relative_path(path: &str) -> (r: Vec<String>)
    ensures
        views_of(r@) == clean_rel_spec(path@),
{
    let len = path.unicode_len();
    let mut out: Vec<String> = Vec::new();
    let mut cur = String::new();
    let mut cur_len: usize = 0;
    let mut i: usize = 0;
    proof {
        assert(path@.subrange(0, len as int) =~= path@);
        assert(views_of(out@) =~= Seq::<Seq<char>>::empty());
        assert(views_of(out@) + clean_rel_spec(path@) =~= clean_rel_spec(path@));
    }
    while i < len
        invariant
            i <= len,
            len == path@.len(),
            cur_len == cur@.len(),
            cur_len <= i,
            views_of(out@) + split_acc(path@.subrange(i as int, len as int), cur@).filter(
                keep_pred(),
            ) =~= clean_rel_spec(path@),
        decreases len - i,
    {
        let ghost rem = path@.subrange(i as int, len as int);
        let ghost rem2 = path@.subrange(i + 1, len as int);
        proof {
            assert(rem.subrange(1, rem.len() as int) =~= rem2);
        }
        let c = path.get_char(i);
        if c == '/' {
            let ghost cur_view = cur@;
            let ghost prior = views_of(out@);
            push_if_kept(&mut out, cur, cur_len);
            proof {
                Seq::filter_distributes_over_add(
                    seq![cur_view],
                    split_acc(rem2, Seq::empty()),
                    keep_pred(),
                );
                lemma_filter_singleton(seq![cur_view]);
                assert(views_of(out@) + split_acc(rem2, Seq::empty()).filter(keep_pred())
                    =~= clean_rel_spec(path@));
            }
            cur = String::new();
            cur_len = 0;
        } else {
            let ghost cur_before = cur@;
            let piece = path.substring_char(i, i + 1);
            cur.append(piece);
            cur_len = cur_len + 1;
            proof {
                assert(cur@ =~= cur_before.push(path@[i as int]));
            }
        }
        i = i + 1;
    }
    let ghost cur_view = cur@;
    proof {
        assert(path@.subrange(len as int, len as int) =~= Seq::<char>::empty());
        assert(split_acc(Seq::<char>::empty(), cur_view) =~= seq![cur_view]);
    }
    push_if_kept(&mut out, cur, cur_len);
    proof {
        lemma_filter_singleton(seq![cur_view]);
        assert(views_of(out@) =~= clean_rel_spec(path@));
    }
    out
}

/// Appends `cur` when normalization keeps it.
fn push_if_kept(out: &mut Vec<String>, cur: String, cur_len: usize)
    requires
        cur_len == cur@.len(),
    ensures
        views_of(final(out)@) =~= views_of(old(out)@) + (if keep_segment(cur@) {
            seq![cur@]
        } else {
            Seq::<Seq<char>>::empty()
        }),
{
    proof {
        reveal_strlit(".");
        reveal_strlit("..");
        assert("."@ =~= seq!['.']);
        assert(".."@ =~= seq!['.', '.']);
    }
    let keep = cur_len > 0 && !cur.eq(&String::from_str(".")) && !cur.eq(&String::from_str(".."));
    if keep {
        let ghost before = views_of(out@);
        out.push(cur);
        proof {
            assert(views_of(out@) =~= before + seq![cur@]);
        }
    }
}

/// The candidate path for a request: the root's segments followed by the
/// normalized relative segments; the root itself when no path was given.
pub open spec fn resolve_spec(base: Seq<Seq<char>>, rel: Option<Seq<char>>) -> Seq<Seq<char>> {
    match rel {
        Some(s) => base + clean_rel_spec(s),
        None => base,
    }
}

/// Joins an optional relative path onto the root. With no path the result
/// is the root itself.
pub fn resolve_path(base: &Vec<String>, rel: Option<&String>) -> (r: Vec<String>)
    ensures
        views_of(r@) == resolve_spec(
            views_of(base@),
            match rel {
                Some(s) => Some(s@),
                None => None,
            },
        ),
{
    let mut out = clone_segments(base);
    match rel {
        Some(s) => {
            let mut cleaned = clean_relative_path(s.as_str());
            let ghost head = views_of(out@);
            let ghost tail = views_of(cleaned@);
            let mut j: usize = 0;
            let cn = cleaned.len();
            while j < cn
                invariant
                    j <= cn,
                    cn == cleaned@.len(),
                    views_of(cleaned@) == tail,
                    views_of(out@) =~= head + tail.subrange(0, j as int),
                decreases cn - j,
            {
                let ghost entry = out@;
                let seg = cleaned[j].clone();
                out.push(seg);
                proof {
                    assert(seg@ == tail[j as int]);
                    crate::text::lemma_views_push(entry, seg);
                    assert(tail.subrange(0, j + 1) =~= tail.subrange(0, j as int).push(
                        tail[j as int],
                    ));
                    assert(views_of(out@) =~= head + tail.subrange(0, j + 1));
                }
                j = j + 1;
            }
            proof {
                assert(tail.subrange(0, cn as int) =~= tail);
            }
            out
        },
        None => out,
    }
}

/// A fresh copy of a segment vector.
pub fn clone_segments(v: &Vec<String>) -> (r: Vec<String>)
    ensures
        views_of(r@) =~= views_of(v@),
        r@.len() == v@.len(),
{
    let mut out: Vec<String> = Vec::new();
    let mut i: usize = 0;
    while i < v.len()
        invariant
            i <= v@.len(),
            views_of(out@) =~= views_of(v@).subrange(0, i as int),
            out@.len() == i,
        decreases v@.len() - i,
    {
        out.push(v[i].clone());
        proof {
            assert(views_of(out@) =~= views_of(v@).subrange(0, i + 1));
        }
        i = i + 1;
    }
    proof {
        assert(views_of(v@).subrange(0, v@.len() as int) =~= views_of(v@));
    }
    out
}

/// `p` is a leading run of `q`.
pub open spec fn is_seq_prefix(p: Seq<Seq<char>>, q: Seq<Seq<char>>) -> bool {
    p.len() <= q.len() && q.subrange(0, p.len() as int) == p
}

/// Whatever relative path a client supplies, the candidate never lies
/// outside the root: it is the root's segments extended only by plain
/// descending names.
pub proof fn lemma_resolve_confined(base: Seq<Seq<char>>, rel: Option<Seq<char>>)
    ensures
        is_seq_prefix(base, resolve_spec(base, rel)),
        forall|i: int|
            base.len() <= i < resolve_spec(base, rel).len() ==> #[trigger] keep_segment(
                resolve_spec(base, rel)[i],
            ),
{
    assert(resolve_spec(base, rel).subrange(0, base.len() as int) =~= base);
    match rel {
        Some(s) => {
            lemma_clean_segments_plain(s);
        },
        None => {},
    }
}

/// Segment-wise prefix test.
pub fn is_path_prefix(p: &Vec<String>, q: &Vec<String>) -> (r: bool)
    ensures
        r == is_seq_prefix(views_of(p@), views_of(q@)),
{
    if p.len() > q.len() {
        return false;
    }
    let mut i: usize = 0;
    while i < p.len()
        invariant
            p@.len() <= q@.len(),
            i <= p@.len(),
            forall|k: int| 0 <= k < i ==> views_of(p@)[k] == views_of(q@)[k],
        decreases p@.len() - i,
    {
        if !p[i].eq(&q[i]) {
            assert(views_of(q@).subrange(0, p@.len() as int)[i as int] != views_of(p@)[i as int]);
            return false;
        }
        i = i + 1;
    }
    proof {
        assert(views_of(q@).subrange(0, p@.len() as int) =~= views_of(p@));
    }
    true
}

/// A fresh copy of the first `n` segments of `v`.
pub fn clone_prefix(v: &Vec<String>, n: usize) -> (r: Vec<String>)
    requires
        n <= v@.len(),
    ensures
        views_of(r@) =~= views_of(v@).subrange(0, n as int),
{
    let mut out: Vec<String> = Vec::new();
    let mut i: usize = 0;
    while i < n
        invariant
            i <= n,
            n <= v@.len(),
            views_of(out@) =~= views_of(v@).subrange(0, i as int),
        decreases n - i,
    {
        let ghost entry = out@;
        let seg = v[i].clone();
        out.push(seg);
        proof {
            crate::text::lemma_views_push(entry, seg);
            assert(views_of(v@).subrange(0, i + 1) =~= views_of(v@).subrange(0, i as int).push(
                views_of(v@)[i as int],
            ));
            assert(views_of(out@) =~= views_of(v@).subrange(0, i + 1));
        }
        i = i + 1;
    }
    out
}

/// The confinement verdict once the filesystem has been probed: the
/// candidate is accepted exactly when both the candidate's nearest existing
/// ancestor and the root could be canonicalized and the canonical ancestor
/// still lies under the canonical root.
pub fn resolve_path_safe(
    candidate: &Vec<String>,
    anchor_canon: Option<&Vec<String>>,
    base_canon: Option<&Vec<String>>,
) -> (r: Option<Vec<String>>)
    ensures
        r is Some <==> (anchor_canon is Some && base_canon is Some && is_seq_prefix(
            views_of(base_canon.unwrap()@),
            views_of(anchor_canon.unwrap()@),
        )),
        r matches Some(p) ==> views_of(p@) == views_of(candidate@),
{
    match (anchor_canon, base_canon) {
        (Some(anchor), Some(base)) => {
            if is_path_prefix(base, anchor) {
                Some(clone_segments(candidate))
            } else {
                None
            }
        },
        _ => None,
    }
}

/// One request a [`ResolveSession`] makes of the filesystem, or its verdict.
pub enum ResolveQuery {
    /// Does this path exist on disk?
    Exists(Vec<String>),
    /// Canonicalize (resolve symlinks in) the found ancestor and the root.
    Canonicalize { anchor: Vec<String>, base: Vec<String> },
    /// The session is finished: the confined candidate, or rejection.
    Verdict(Option<Vec<String>>),
}

/// The existence-aware confinement check, driven step by step.
///
/// Starting from the whole candidate, the session asks whether ever shorter
/// ancestors exist, down to the root itself. Once one exists, it asks for
/// the canonical forms of that ancestor and of the root, and accepts the
/// candidate exactly when the canonical ancestor stays under the canonical
/// root. When not even the root exists the candidate is rejected.
pub struct ResolveSession {
    /// The root's segments.
    pub base: Vec<String>,
    /// The candidate: root plus normalized relative segments.
    pub candidate: Vec<String>,
    /// How many leading segments of the candidate the next probe covers.
    pub depth: usize,
    /// The probed ancestor exists; canonical forms are awaited.
    pub awaiting_canon: bool,
    /// No further question remains.
    pub done: bool,
    /// The accepted path, once done.
    pub verdict: Option<Vec<String>>,
}

impl ResolveSession {
    pub open spec fn base_view(self) -> Seq<Seq<char>> {
        views_of(self.base@)
    }

    pub open spec fn candidate_view(self) -> Seq<Seq<char>> {
        views_of(self.candidate@)
    }

    pub open spec fn depth_of(self) -> int {
        self.depth as int
    }

    pub open spec fn is_done(self) -> bool {
        self.done
    }

    pub open spec fn is_awaiting_canon(self) -> bool {
        !self.done && self.awaiting_canon
    }

    pub open spec fn is_probing(self) -> bool {
        !self.done && !self.awaiting_canon
    }

    pub open spec fn verdict_view(self) -> Option<Seq<Seq<char>>> {
        match self.verdict {
            Some(p) => Some(views_of(p@)),
            None => None,
        }
    }

    /// The shape every reachable session state has: the probe depth stays
    /// between root and candidate, the root prefixes the candidate, and a
    /// positive verdict can only be the candidate itself.
    pub open spec fn wf(self) -> bool {
        &&& self.base@.len() <= self.depth <= self.candidate@.len()
        &&& is_seq_prefix(self.base_view(), self.candidate_view())
        &&& match self.verdict {
            Some(p) => self.done && views_of(p@) == self.candidate_view(),
            None => true,
        }
    }

    /// Starts the check for an optional relative path under a root.
    pub fn begin(base: &Vec<String>, rel: Option<&String>) -> (s: ResolveSession)
        ensures
            s.wf(),
            s.is_probing(),
            s.base_view() == views_of(base@),
            s.candidate_view() == resolve_spec(
                views_of(base@),
                match rel {
                    Some(r) => Some(r@),
                    None => None,
                },
            ),
            s.depth_of() == s.candidate_view().len(),
    {
        let candidate = resolve_path(base, rel);
        let depth = candidate.len();
        proof {
            lemma_resolve_confined(
                views_of(base@),
                match rel {
                    Some(r) => Some(r@),
                    None => None,
                },
            );
        }
        ResolveSession {
            base: clone_segments(base),
            candidate,
            depth,
            awaiting_canon: false,
            done: false,
            verdict: None,
        }
    }

    /// The question the caller must answer next, or the verdict.
    pub fn pending(&self) -> (q: ResolveQuery)
        requires
            self.wf(),
        ensures
            match q {
                ResolveQuery::Exists(p) => self.is_probing() && views_of(p@)
                    == self.candidate_view().subrange(0, self.depth_of()),
                ResolveQuery::Canonicalize { anchor, base } => self.is_awaiting_canon()
                    && views_of(anchor@) == self.candidate_view().subrange(0, self.depth_of())
                    && views_of(base@) == self.base_view(),
                ResolveQuery::Verdict(v) => self.is_done() && (v is Some <==> self.verdict is Some)
                    && (v matches Some(p) ==> views_of(p@) == self.candidate_view()),
            },
    {
        if self.done {
            match &self.verdict {
                Some(p) => ResolveQuery::Verdict(Some(clone_segments(p))),
                None => ResolveQuery::Verdict(None),
            }
        } else if self.awaiting_canon {
            ResolveQuery::Canonicalize {
                anchor: clone_prefix(&self.candidate, self.depth),
                base: clone_segments(&self.base),
            }
        } else {
            ResolveQuery::Exists(clone_prefix(&self.candidate, self.depth))
        }
    }

    /// Feeds back whether the probed ancestor exists. An existing ancestor
    /// moves the session to canonicalization; a missing one shortens the
    /// probe, and rejects once not even the root was found.
    pub fn answer_exists(&mut self, exists: bool)
        requires
            old(self).wf(),
            old(self).is_probing(),
        ensures
            final(self).wf(),
            final(self).base_view() == old(self).base_view(),
            final(self).candidate_view() == old(self).candidate_view(),
            exists ==> final(self).is_awaiting_canon() && final(self).depth_of()
                == old(self).depth_of(),
            !exists && old(self).depth_of() > old(self).base_view().len()
                ==> final(self).is_probing() && final(self).depth_of() == old(self).depth_of() - 1,
            !exists && old(self).depth_of() == old(self).base_view().len()
                ==> final(self).is_done() && final(self).verdict_view() is None,
    {
        if exists {
            self.awaiting_canon = true;
        } else if self.depth > self.base.len() {
            self.depth = self.depth - 1;
        } else {
            self.done = true;
        }
    }

    /// Feeds back the canonical forms, or `None` where canonicalization
    /// failed; the session decides and finishes.
    pub fn answer_canonical(
        &mut self,
        anchor_canon: Option<&Vec<String>>,
        base_canon: Option<&Vec<String>>,
    )
        requires
            old(self).wf(),
            old(self).is_awaiting_canon(),
        ensures
            final(self).wf(),
            final(self).is_done(),
            final(self).base_view() == old(self).base_view(),
            final(self).candidate_view() == old(self).candidate_view(),
            final(self).verdict_view() is Some <==> (anchor_canon is Some && base_canon is Some
                && is_seq_prefix(
                views_of(base_canon.unwrap()@),
                views_of(anchor_canon.unwrap()@),
            )),
            final(self).verdict_view() matches Some(p) ==> p == old(self).candidate_view(),
    {
        let v = resolve_path_safe(&self.candidate, anchor_canon, base_canon);
        self.verdict = v;
        self.done = true;
        self.awaiting_canon = false;
    }
}

/// Whatever the filesystem answered, a path the session accepts carries the
/// root as a prefix: no request ever operates outside the root by name.
pub proof fn lemma_session_confined(s: ResolveSession)
    requires
        s.wf(),
    ensures
        s.verdict_view() matches Some(p) ==> is_seq_prefix(s.base_view(), p),
{
}

} // verus!
