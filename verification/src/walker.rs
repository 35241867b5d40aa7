//! Bounded tree traversal: one-level listing with its display order, the
//! recursive folder enumeration, and capped substring search.
//!
//! Traversal is driven as an explicit worklist instead of call-stack
//! recursion, with a depth bound as defence against adversarially deep
//! trees, and the search additionally stops — descent included — as soon
//! as its result cap is reached.

use vstd::prelude::*;
use vstd::string::*;
use crate::text::{views_of, lex_leq, slash_join, contains_sub};
use crate::trusted::lower_of;

verus! {

/// One directory entry as a listing reports it.
pub struct DirEntry {
    pub name: String,
    pub is_dir: bool,
    pub size: u64,
    pub modified: u64,
}

impl DirEntry {
    /// A field-for-field copy.
    pub fn duplicate(&self) -> (r: DirEntry)
        ensures
            r == *self,
    {
        DirEntry {
            name: self.name.clone(),
            is_dir: self.is_dir,
            size: self.size,
            modified: self.modified,
        }
    }
}

/// A search match: the entry together with its path relative to the root.
pub struct SearchHit {
    pub entry: DirEntry,
    pub path: String,
}

/// Listing order: directories before files, then case-insensitive name.
pub open spec fn entry_le(a: DirEntry, b: DirEntry) -> bool {
    (a.is_dir && !b.is_dir) || (a.is_dir == b.is_dir && lex_leq(
        lower_of(a.name@),
        lower_of(b.name@),
    ))
}

/// The listing order relates any two entries.
pub proof fn lemma_entry_le_total(a: DirEntry, b: DirEntry)
    ensures
        entry_le(a, b) || entry_le(b, a),
{
    if a.is_dir == b.is_dir {
        crate::text::lemma_lex_total(lower_of(a.name@), lower_of(b.name@));
    }
}

/// The listing order is transitive.
pub proof fn lemma_entry_le_trans(a: DirEntry, b: DirEntry, c: DirEntry)
    requires
        entry_le(a, b),
        entry_le(b, c),
    ensures
        entry_le(a, c),
{
    if a.is_dir == b.is_dir && b.is_dir == c.is_dir {
        crate::text::lemma_lex_trans(lower_of(a.name@), lower_of(b.name@), lower_of(c.name@));
    }
}

/// Decides the listing order between two entries.
pub fn entry_le_exec(a: &DirEntry, b: &DirEntry) -> (r: bool)
    ensures
        r == entry_le(*a, *b),
{
    if a.is_dir != b.is_dir {
        a.is_dir
    } else {
        let la = crate::trusted::lowercase(a.name.as_str());
        let lb = crate::trusted::lowercase(b.name.as_str());
        crate::text::lex_leq_str(la.as_str(), lb.as_str())
    }
}

/// Non-decreasing in the listing order.
pub open spec fn sorted_entries(s: Seq<DirEntry>) -> bool {
    forall|i: int, j: int| 0 <= i < j < s.len() ==> entry_le(s[i], s[j])
}

/// Sorts a listing: directories first, then case-insensitive name ascending.
pub fn sort_entries(v: Vec<DirEntry>) -> (r: Vec<DirEntry>)
    ensures
        sorted_entries(r@),
        r@.to_multiset() == v@.to_multiset(),
{
    broadcast use vstd::seq_lib::group_to_multiset_ensures;
    broadcast use vstd::seq_lib::to_multiset_insert;

    let mut out: Vec<DirEntry> = Vec::new();
    let mut i: usize = 0;
    while i < v.len()
        invariant
            i <= v@.len(),
            sorted_entries(out@),
            out@.to_multiset() == v@.subrange(0, i as int).to_multiset(),
        decreases v@.len() - i,
    {
        let x = v[i].duplicate();
        let mut pos: usize = 0;
        while pos < out.len() && entry_le_exec(&out[pos], &x)
            invariant
                pos <= out@.len(),
                forall|k: int| 0 <= k < pos ==> entry_le(out@[k], x),
            decreases out@.len() - pos,
        {
            pos = pos + 1;
        }
        let ghost entry_seq = out@;
        out.insert(pos, x);
        proof {
            entry_seq.insert_ensures(pos as int, x);
            assert(out@[pos as int] == x);
            assert forall|k: int| pos < k < out@.len() implies out@[k] == entry_seq[k - 1] by {
                assert(entry_seq.insert(pos as int, x)[(k - 1) + 1] == entry_seq[k - 1]);
            }
            assert forall|p: int, q: int| 0 <= p < q < out@.len() implies entry_le(
                out@[p],
                out@[q],
            ) by {
                if pos < entry_seq.len() {
                    lemma_entry_le_total(entry_seq[pos as int], x);
                }
                if p == pos && q > pos + 1 {
                    lemma_entry_le_trans(x, entry_seq[pos as int], entry_seq[q - 1]);
                }
            }
            vstd::seq_lib::to_multiset_insert(entry_seq, pos as int, x);
            v@.subrange(0, i as int).to_multiset_ensures();
            assert(v@.subrange(0, i + 1) =~= v@.subrange(0, i as int).push(v@[i as int]));
            assert(v@.subrange(0, i as int).push(v@[i as int]).to_multiset() =~= v@.subrange(
                0,
                i as int,
            ).to_multiset().insert(v@[i as int]));
        }
        i = i + 1;
    }
    proof {
        assert(v@.subrange(0, v@.len() as int) =~= v@);
    }
    out
}

/// Hit order lifts the listing order of the underlying entries.
pub open spec fn hit_le(a: SearchHit, b: SearchHit) -> bool {
    entry_le(a.entry, b.entry)
}

/// Non-decreasing in the hit order.
pub open spec fn sorted_hits(s: Seq<SearchHit>) -> bool {
    forall|i: int, j: int| 0 <= i < j < s.len() ==> hit_le(s[i], s[j])
}

/// Sorts search hits: directories first, then case-insensitive name.
pub fn sort_hits(v: Vec<SearchHit>) -> (r: Vec<SearchHit>)
    ensures
        sorted_hits(r@),
        r@.to_multiset() == v@.to_multiset(),
{
    broadcast use vstd::seq_lib::group_to_multiset_ensures;
    broadcast use vstd::seq_lib::to_multiset_insert;

    let mut out: Vec<SearchHit> = Vec::new();
    let mut i: usize = 0;
    while i < v.len()
        invariant
            i <= v@.len(),
            sorted_hits(out@),
            out@.to_multiset() == v@.subrange(0, i as int).to_multiset(),
        decreases v@.len() - i,
    {
        let x = SearchHit { entry: v[i].entry.duplicate(), path: v[i].path.clone() };
        proof {
            assert(x == v@[i as int]);
        }
        let mut pos: usize = 0;
        while pos < out.len() && entry_le_exec(&out[pos].entry, &x.entry)
            invariant
                pos <= out@.len(),
                forall|k: int| 0 <= k < pos ==> hit_le(out@[k], x),
            decreases out@.len() - pos,
        {
            pos = pos + 1;
        }
        let ghost entry_seq = out@;
        out.insert(pos, x);
        proof {
            entry_seq.insert_ensures(pos as int, x);
            assert(out@[pos as int] == x);
            assert forall|k: int| pos < k < out@.len() implies out@[k] == entry_seq[k - 1] by {
                assert(entry_seq.insert(pos as int, x)[(k - 1) + 1] == entry_seq[k - 1]);
            }
            assert forall|p: int, q: int| 0 <= p < q < out@.len() implies hit_le(
                out@[p],
                out@[q],
            ) by {
                if pos < entry_seq.len() {
                    lemma_entry_le_total(entry_seq[pos as int].entry, x.entry);
                }
                if p == pos && q > pos + 1 {
                    assert(hit_le(entry_seq[pos as int], entry_seq[q - 1]));
                    lemma_entry_le_trans(
                        x.entry,
                        entry_seq[pos as int].entry,
                        entry_seq[q - 1].entry,
                    );
                }
            }
            vstd::seq_lib::to_multiset_insert(entry_seq, pos as int, x);
            v@.subrange(0, i as int).to_multiset_ensures();
            assert(v@.subrange(0, i + 1) =~= v@.subrange(0, i as int).push(v@[i as int]));
            assert(v@.subrange(0, i as int).push(v@[i as int]).to_multiset() =~= v@.subrange(
                0,
                i as int,
            ).to_multiset().insert(v@[i as int]));
        }
        i = i + 1;
    }
    proof {
        assert(v@.subrange(0, v@.len() as int) =~= v@);
    }
    out
}

/// How deep below the root traversal will descend.
pub const MAX_WALK_DEPTH: usize = 64;

/// The cap on search results.
pub const MAX_SEARCH_RESULTS: usize = 100;

/// The relative path of a child under a traversal frame: the bare name at
/// the root, `prefix/name` below it.
pub open spec fn child_rel(prefix: Seq<char>, depth: int, name: Seq<char>) -> Seq<char> {
    if depth == 0 {
        name
    } else {
        slash_join(prefix, name)
    }
}

/// Builds the relative path of a child.
fn child_rel_exec(prefix: &String, depth: usize, name: &String) -> (r: String)
    ensures
        r@ == child_rel(prefix@, depth as int, name@),
{
    if depth == 0 {
        name.clone()
    } else {
        crate::text::prefix_join(Some(prefix), name.as_str())
    }
}

/// The recursive folder enumeration, driven as a worklist.
///
/// The caller pops directories with [`FolderWalk::next`], reads each on
/// disk, and offers the names of its subdirectories back; a read that
/// fails is simply ended early, which abandons that subtree and nothing
/// else. The collected list always starts with the root as `/`.
pub struct FolderWalk {
    /// Directories discovered but not yet read: absolute segments, the
    /// relative prefix reported for them, and their depth below the root.
    pub stack: Vec<(Vec<String>, String, usize)>,
    /// The frame handed out by `next` and not yet ended.
    pub reading: Option<(Vec<String>, String, usize)>,
    /// Relative folder paths collected so far.
    pub out: Vec<String>,
}

impl FolderWalk {
    pub open spec fn folders_view(self) -> Seq<Seq<char>> {
        views_of(self.out@)
    }

    /// The root is always listed first, as `/`.
    pub open spec fn wf(self) -> bool {
        self.out@.len() >= 1 && self.out@[0]@ == seq!['/']
    }

    /// Nothing remains to pop or to answer.
    pub open spec fn is_finished(self) -> bool {
        self.stack@.len() == 0 && self.reading is None
    }

    /// Starts the enumeration at the root.
    pub fn begin(base: &Vec<String>) -> (w: FolderWalk)
        ensures
            w.wf(),
            w.reading is None,
            w.stack@.len() == 1,
            views_of(w.stack@[0].0@) == views_of(base@),
            w.stack@[0].1@.len() == 0,
            w.stack@[0].2 == 0,
            w.folders_view() =~= seq!["/"@],
            w.out@[0]@ == seq!['/'],
    {
        proof {
            reveal_strlit("/");
            assert("/"@ =~= seq!['/']);
        }
        let mut out: Vec<String> = Vec::new();
        out.push(String::from_str("/"));
        let mut stack: Vec<(Vec<String>, String, usize)> = Vec::new();
        stack.push((crate::paths::clone_segments(base), String::new(), 0));
        FolderWalk { stack, reading: None, out }
    }

    /// Pops the next directory to read, recording its relative path in the
    /// output (except for the root, listed at start). `None` means the
    /// walk is complete.
    pub fn next(&mut self) -> (r: Option<Vec<String>>)
        requires
            old(self).wf(),
            old(self).reading is None,
        ensures
            final(self).wf(),
            r is None ==> final(self).stack@ == old(self).stack@
                && final(self).out@ == old(self).out@
                && final(self).reading is None
                && old(self).stack@.len() == 0,
            r matches Some(d) ==> ({
                let frame = old(self).stack@.last();
                &&& old(self).stack@.len() > 0
                &&& views_of(d@) == views_of(frame.0@)
                &&& final(self).stack@ == old(self).stack@.drop_last()
                &&& final(self).reading == Some(frame)
                &&& (frame.2 > 0 ==> final(self).out@ == old(self).out@.push(frame.1))
                &&& (frame.2 == 0 ==> final(self).out@ == old(self).out@)
            }),
    {
        match self.stack.pop() {
            None => None,
            Some(frame) => {
                let d = crate::paths::clone_segments(&frame.0);
                if frame.2 > 0 {
                    self.out.push(frame.1.clone());
                }
                self.reading = Some(frame);
                Some(d)
            },
        }
    }

    /// Offers one subdirectory of the directory being read. Within the
    /// depth bound it is queued for its own visit; at the bound it is
    /// listed but not descended into.
    pub fn offer_subdir(&mut self, name: &String)
        requires
            old(self).wf(),
            old(self).reading is Some,
        ensures
            final(self).wf(),
            final(self).reading == old(self).reading,
            ({
                let frame = old(self).reading.unwrap();
                let rel = child_rel(frame.1@, frame.2 as int, name@);
                if frame.2 < MAX_WALK_DEPTH {
                    &&& final(self).out@ == old(self).out@
                    &&& final(self).stack@.len() == old(self).stack@.len() + 1
                    &&& final(self).stack@.drop_last() == old(self).stack@
                    &&& views_of(final(self).stack@.last().0@) =~= views_of(frame.0@).push(name@)
                    &&& final(self).stack@.last().1@ == rel
                    &&& final(self).stack@.last().2 == frame.2 + 1
                } else {
                    &&& final(self).stack@ == old(self).stack@
                    &&& final(self).out@.len() == old(self).out@.len() + 1
                    &&& final(self).out@.drop_last() == old(self).out@
                    &&& final(self).out@.last()@ == rel
                }
            }),
    {
        let rel: String;
        let depth: usize;
        let mut child_abs: Vec<String>;
        match &self.reading {
            Some(f) => {
                rel = child_rel_exec(&f.1, f.2, name);
                depth = f.2;
                child_abs = crate::paths::clone_segments(&f.0);
            },
            None => {
                proof {
                    assert(false);
                }
                rel = String::new();
                depth = 0;
                child_abs = Vec::new();
            },
        }
        if depth < MAX_WALK_DEPTH {
            let ghost entry = child_abs@;
            child_abs.push(name.clone());
            proof {
                crate::text::lemma_views_push(entry, child_abs@.last());
            }
            self.stack.push((child_abs, rel, depth + 1));
            proof {
                assert(self.stack@.drop_last() =~= old(self).stack@);
            }
        } else {
            self.out.push(rel);
            proof {
                assert(self.out@.drop_last() =~= old(self).out@);
            }
        }
    }

    /// Ends the directory being read; unread subtrees are abandoned.
    pub fn end_dir(&mut self)
        requires
            old(self).wf(),
        ensures
            final(self).wf(),
            final(self).reading is None,
            final(self).stack@ == old(self).stack@,
            final(self).out@ == old(self).out@,
    {
        self.reading = None;
    }

    /// The collected folder list.
    pub fn finish(self) -> (r: Vec<String>)
        ensures
            r@ == self.out@,
    {
        self.out
    }
}

/// One level of listing, as clients see it: a missing directory yields an
/// empty listing rather than an error, an existing one its entries in
/// display order — directories first, then case-insensitive name.
pub fn list_entries(dir_on_disk: bool, entries: Vec<DirEntry>) -> (r: Vec<DirEntry>)
    ensures
        !dir_on_disk ==> r@.len() == 0,
        dir_on_disk ==> sorted_entries(r@) && r@.to_multiset() == entries@.to_multiset(),
{
    if !dir_on_disk {
        Vec::new()
    } else {
        sort_entries(entries)
    }
}

/// An entry matches when its lowercased name contains the lowercased term.
pub open spec fn matches_term(term: Seq<char>, name: Seq<char>) -> bool {
    contains_sub(lower_of(name), lower_of(term))
}

/// The capped, case-insensitive substring search, driven as a worklist.
///
/// Matching and descent are independent: a directory is entered whether or
/// not its own name matched. Both stop as soon as the result cap is
/// reached, so no search enumerates the disk without bound. An empty term
/// finishes at once, before any directory is read.
pub struct SearchWalk {
    /// Directories discovered but not yet read.
    pub stack: Vec<(Vec<String>, String, usize)>,
    /// The frame handed out by `next` and not yet ended.
    pub reading: Option<(Vec<String>, String, usize)>,
    /// Matches collected so far, at most [`MAX_SEARCH_RESULTS`].
    pub results: Vec<SearchHit>,
    /// The search term, lowercased once.
    pub term_lower: String,
    /// The term as the caller gave it.
    pub term: Ghost<Seq<char>>,
}

impl SearchWalk {
    /// The cap always holds, and the stored term is the caller's, lowercased.
    pub open spec fn wf(self) -> bool {
        self.results@.len() <= MAX_SEARCH_RESULTS && self.term_lower@ == lower_of(self.term@)
    }

    /// Nothing remains to pop or to answer.
    pub open spec fn is_finished(self) -> bool {
        self.stack@.len() == 0 && self.reading is None
    }

    /// Starts a search; an empty term finishes on the spot, with nothing
    /// ever read from disk.
    pub fn begin(base: &Vec<String>, term: &String) -> (w: SearchWalk)
        ensures
            w.wf(),
            w.reading is None,
            w.results@.len() == 0,
            w.term@ == term@,
            term@.len() == 0 ==> w.is_finished(),
            term@.len() > 0 ==> w.stack@.len() == 1 && views_of(w.stack@[0].0@) == views_of(base@)
                && w.stack@[0].1@.len() == 0 && w.stack@[0].2 == 0,
    {
        let term_lower = crate::trusted::lowercase(term.as_str());
        let mut stack: Vec<(Vec<String>, String, usize)> = Vec::new();
        if !term.as_str().is_empty() {
            stack.push((crate::paths::clone_segments(base), String::new(), 0));
        }
        SearchWalk { stack, reading: None, results: Vec::new(), term_lower, term: Ghost(term@) }
    }

    /// Pops the next directory to read, unless the walk is complete or the
    /// cap was reached — descent stops with the cap too.
    pub fn next(&mut self) -> (r: Option<Vec<String>>)
        requires
            old(self).wf(),
            old(self).reading is None,
        ensures
            final(self).wf(),
            final(self).results@ == old(self).results@,
            final(self).term@ == old(self).term@,
            r is None ==> final(self).stack@ == old(self).stack@
                && final(self).reading is None
                && (old(self).stack@.len() == 0 || old(self).results@.len()
                >= MAX_SEARCH_RESULTS),
            r matches Some(d) ==> ({
                let frame = old(self).stack@.last();
                &&& old(self).stack@.len() > 0
                &&& old(self).results@.len() < MAX_SEARCH_RESULTS
                &&& views_of(d@) == views_of(frame.0@)
                &&& final(self).stack@ == old(self).stack@.drop_last()
                &&& final(self).reading == Some(frame)
            }),
    {
        if self.results.len() >= MAX_SEARCH_RESULTS {
            return None;
        }
        match self.stack.pop() {
            None => None,
            Some(frame) => {
                let d = crate::paths::clone_segments(&frame.0);
                self.reading = Some(frame);
                Some(d)
            },
        }
    }

    /// Offers one entry of the directory being read: a matching name is
    /// recorded (with its relative path), a subdirectory is queued for its
    /// own visit, and both stop at the result cap or the depth bound.
    pub fn offer_entry(&mut self, entry: &DirEntry)
        requires
            old(self).wf(),
            old(self).reading is Some,
        ensures
            final(self).wf(),
            final(self).reading == old(self).reading,
            final(self).term@ == old(self).term@,
            ({
                let frame = old(self).reading.unwrap();
                let rel = child_rel(frame.1@, frame.2 as int, entry.name@);
                let hit = matches_term(old(self).term@, entry.name@);
                if old(self).results@.len() >= MAX_SEARCH_RESULTS {
                    final(self).results@ == old(self).results@ && final(self).stack@ == old(
                        self,
                    ).stack@
                } else {
                    &&& (hit ==> final(self).results@.len() == old(self).results@.len() + 1
                        && final(self).results@.drop_last() == old(self).results@
                        && final(self).results@.last().entry == *entry
                        && final(self).results@.last().path@ == rel)
                    &&& (!hit ==> final(self).results@ == old(self).results@)
                    &&& ({
                        let descend = entry.is_dir && final(self).results@.len()
                            < MAX_SEARCH_RESULTS && frame.2 < MAX_WALK_DEPTH;
                        if descend {
                            &&& final(self).stack@.len() == old(self).stack@.len() + 1
                            &&& final(self).stack@.drop_last() == old(self).stack@
                            &&& views_of(final(self).stack@.last().0@) =~= views_of(
                                frame.0@,
                            ).push(entry.name@)
                            &&& final(self).stack@.last().1@ == rel
                            &&& final(self).stack@.last().2 == frame.2 + 1
                        } else {
                            final(self).stack@ == old(self).stack@
                        }
                    })
                }
            }),
    {
        if self.results.len() >= MAX_SEARCH_RESULTS {
            return;
        }
        let rel: String;
        let depth: usize;
        let mut child_abs: Vec<String>;
        match &self.reading {
            Some(f) => {
                rel = child_rel_exec(&f.1, f.2, &entry.name);
                depth = f.2;
                child_abs = crate::paths::clone_segments(&f.0);
            },
            None => {
                proof {
                    assert(false);
                }
                rel = String::new();
                depth = 0;
                child_abs = Vec::new();
            },
        }
        let lower_name = crate::trusted::lowercase(entry.name.as_str());
        let hit = crate::text::contains_str(lower_name.as_str(), self.term_lower.as_str());
        if hit {
            let ghost before = self.results@;
            self.results.push(SearchHit { entry: entry.duplicate(), path: rel.clone() });
            proof {
                assert(self.results@.drop_last() =~= before);
            }
        }
        if entry.is_dir && self.results.len() < MAX_SEARCH_RESULTS && depth < MAX_WALK_DEPTH {
            let ghost entry_abs = child_abs@;
            child_abs.push(entry.name.clone());
            proof {
                crate::text::lemma_views_push(entry_abs, child_abs@.last());
            }
            self.stack.push((child_abs, rel, depth + 1));
            proof {
                assert(self.stack@.drop_last() =~= old(self).stack@);
            }
        }
    }

    /// Ends the directory being read; unread entries are abandoned.
    pub fn end_dir(&mut self)
        requires
            old(self).wf(),
        ensures
            final(self).wf(),
            final(self).reading is None,
            final(self).stack@ == old(self).stack@,
            final(self).results@ == old(self).results@,
            final(self).term@ == old(self).term@,
    {
        self.reading = None;
    }

    /// The matches, ordered for display: directories first, then
    /// case-insensitive name. Never more than [`MAX_SEARCH_RESULTS`].
    pub fn finish(self) -> (r: Vec<SearchHit>)
        requires
            self.wf(),
        ensures
            sorted_hits(r@),
            r@.to_multiset() == self.results@.to_multiset(),
            r@.len() == self.results@.len(),
            r@.len() <= MAX_SEARCH_RESULTS,
    {
        proof {
            broadcast use vstd::seq_lib::group_to_multiset_ensures;

            self.results@.to_multiset_ensures();
        }
        let ghost before = self.results@;
        let r = sort_hits(self.results);
        proof {
            r@.to_multiset_ensures();
            assert(r@.len() == r@.to_multiset().len());
            assert(before.len() == before.to_multiset().len());
        }
        r
    }
}

} // verus!
