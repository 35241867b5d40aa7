//! Race-tolerant unique-name allocation.
//!
//! A desired destination name is probed against the filesystem; while it is
//! taken, `stem_1.ext`, `stem_2.ext`, … are probed with growing suffixes.
//! Checking and creating are separate steps, so two concurrent requests may
//! still race for the same free slot; within one batch of work, though, the
//! allocator records every name it has granted and never grants it again,
//! so the names a single batch reports are pairwise distinct.

use vstd::prelude::*;
use vstd::string::*;
use crate::text::{views_of, stem_of, ext_of, last_dot, dec_of, join_spec};

verus! {

/// The name probed at attempt `counter`: the desired name itself first,
/// then the stem with `_counter` before the extension.
pub open spec fn candidate_name_spec(desired: Seq<char>, counter: nat) -> Seq<char> {
    if counter == 0 {
        desired
    } else {
        let numbered = stem_of(desired) + seq!['_'] + dec_of(counter);
        match ext_of(desired) {
            Some(e) => numbered + seq!['.'] + e,
            None => numbered,
        }
    }
}

/// The key a target path is remembered under: its segments joined with `/`.
pub open spec fn key_of(parent: Seq<Seq<char>>, name: Seq<char>) -> Seq<char> {
    join_spec(parent.push(name))
}

/// Builds `stem_counter` or `stem_counter.ext`.
fn make_candidate(stem: &String, ext: &Option<String>, counter: u64) -> (r: String)
    requires
        counter >= 1,
    ensures
        r@ == ({
            let numbered = stem@ + seq!['_'] + dec_of(counter as nat);
            match ext {
                Some(e) => numbered + seq!['.'] + e@,
                None => numbered,
            }
        }),
{
    proof {
        reveal_strlit("_");
        reveal_strlit(".");
        assert("_"@ =~= seq!['_']);
        assert("."@ =~= seq!['.']);
    }
    let mut s = stem.clone();
    s.append("_");
    crate::text::append_decimal(&mut s, counter);
    match ext {
        Some(e) => {
            s.append(".");
            s.append(e.as_str());
        },
        None => {},
    }
    s
}

/// `key` occurs among the strings of `v`.
fn contains_key(v: &Vec<String>, key: &String) -> (r: bool)
    ensures
        r == views_of(v@).contains(key@),
{
    let mut i: usize = 0;
    while i < v.len()
        invariant
            i <= v@.len(),
            forall|k: int| 0 <= k < i ==> views_of(v@)[k] != key@,
        decreases v@.len() - i,
    {
        if v[i].eq(key) {
            assert(views_of(v@)[i as int] == key@);
            return true;
        }
        i = i + 1;
    }
    false
}

/// The names one batch of work has already granted, as joined path keys.
pub struct NameAllocator {
    /// Keys of every target granted so far in this batch.
    pub claimed: Vec<String>,
}

impl NameAllocator {
    /// Granted keys never repeat.
    pub open spec fn wf(self) -> bool {
        forall|i: int, j: int|
            0 <= i < j < self.claimed@.len() ==> views_of(self.claimed@)[i] != views_of(
                self.claimed@,
            )[j]
    }

    /// A batch starts with nothing granted.
    pub fn new() -> (a: NameAllocator)
        ensures
            a.wf(),
            a.claimed@.len() == 0,
    {
        NameAllocator { claimed: Vec::new() }
    }

    /// Records a granted key. Nothing changes and `false` comes back when
    /// the key was already granted, so distinctness is kept either way.
    pub fn commit(&mut self, key: String) -> (fresh: bool)
        requires
            old(self).wf(),
        ensures
            final(self).wf(),
            fresh == !views_of(old(self).claimed@).contains(key@),
            fresh ==> views_of(final(self).claimed@) =~= views_of(old(self).claimed@).push(key@),
            !fresh ==> final(self).claimed@ == old(self).claimed@,
    {
        if contains_key(&self.claimed, &key) {
            false
        } else {
            let ghost entry = self.claimed@;
            let ghost kv = key@;
            self.claimed.push(key);
            proof {
                crate::text::lemma_views_push(entry, self.claimed@.last());
                assert(views_of(self.claimed@) =~= views_of(entry).push(kv));
            }
            true
        }
    }
}

/// Within one batch, the allocator's granted names are pairwise distinct:
/// concurrent requests for the same base name probed sequentially in one
/// batch can never report the same allocated name twice.
pub proof fn lemma_batch_names_distinct(a: NameAllocator)
    requires
        a.wf(),
    ensures
        forall|i: int, j: int|
            0 <= i < j < a.claimed@.len() ==> a.claimed@[i]@ != a.claimed@[j]@,
{
    assert forall|i: int, j: int| 0 <= i < j < a.claimed@.len() implies a.claimed@[i]@
        != a.claimed@[j]@ by {
        assert(views_of(a.claimed@)[i] != views_of(a.claimed@)[j]);
    }
}

/// One allocation: probes names under a fixed parent directory until the
/// filesystem and the batch both report a name free.
pub struct UniqueNameSession {
    /// Segments of the directory the target lands in.
    pub parent: Vec<String>,
    /// The name the caller asked for.
    pub desired: String,
    /// `desired` before its extension.
    pub stem: String,
    /// `desired`'s extension, when it has one.
    pub ext: Option<String>,
    /// How many names were rejected so far; 0 probes `desired` itself.
    pub counter: u64,
    /// The name probed next.
    pub current: String,
    /// Keys granted earlier in this batch; treated as taken.
    pub claimed: Vec<String>,
    /// The granted name, once found.
    pub outcome: Option<String>,
}

impl UniqueNameSession {
    pub open spec fn parent_view(self) -> Seq<Seq<char>> {
        views_of(self.parent@)
    }

    pub open spec fn claimed_view(self) -> Seq<Seq<char>> {
        views_of(self.claimed@)
    }

    pub open spec fn wf(self) -> bool {
        &&& self.stem@ == stem_of(self.desired@)
        &&& (self.ext is Some <==> last_dot(self.desired@) > 0)
        &&& (self.ext matches Some(e) ==> e@ == ext_of(self.desired@).unwrap())
        &&& self.current@ == candidate_name_spec(self.desired@, self.counter as nat)
        &&& match self.outcome {
            Some(n) => !self.claimed_view().contains(key_of(self.parent_view(), n@)),
            None => true,
        }
    }

    /// Starts an allocation for `desired` under `parent`, against the names
    /// `allocator` has already granted in this batch.
    pub fn begin(allocator: &NameAllocator, parent: &Vec<String>, desired: &String) -> (s:
        UniqueNameSession)
        ensures
            s.wf(),
            s.outcome is None,
            s.counter == 0,
            s.parent_view() == views_of(parent@),
            s.desired@ == desired@,
            s.claimed_view() == views_of(allocator.claimed@),
    {
        let (stem, ext) = crate::text::split_stem_ext(desired.as_str());
        UniqueNameSession {
            parent: crate::paths::clone_segments(parent),
            desired: desired.clone(),
            stem,
            ext,
            counter: 0,
            current: desired.clone(),
            claimed: crate::paths::clone_segments(&allocator.claimed),
            outcome: None,
        }
    }

    /// The full path the caller must probe next.
    pub fn pending_path(&self) -> (p: Vec<String>)
        requires
            self.wf(),
            self.outcome is None,
        ensures
            views_of(p@) =~= self.parent_view().push(self.current@),
    {
        let mut p = crate::paths::clone_segments(&self.parent);
        let ghost entry = p@;
        let cur = self.current.clone();
        p.push(cur);
        proof {
            crate::text::lemma_views_push(entry, p@.last());
        }
        p
    }

    /// Feeds back whether the probed path exists on disk. A name is granted
    /// when the filesystem reports it free and this batch has not granted
    /// it before; otherwise the next suffix is prepared.
    pub fn answer_taken(&mut self, fs_taken: bool)
        requires
            old(self).wf(),
            old(self).outcome is None,
            old(self).counter < u64::MAX,
        ensures
            final(self).wf(),
            final(self).parent_view() == old(self).parent_view(),
            final(self).desired@ == old(self).desired@,
            final(self).claimed_view() == old(self).claimed_view(),
            ({
                let was_free = !fs_taken && !old(self).claimed_view().contains(
                    key_of(old(self).parent_view(), old(self).current@),
                );
                if was_free {
                    final(self).outcome matches Some(n) && n@ == candidate_name_spec(
                        old(self).desired@,
                        old(self).counter as nat,
                    )
                } else {
                    final(self).outcome is None && final(self).counter == old(self).counter + 1
                        && final(self).current@ == candidate_name_spec(
                        old(self).desired@,
                        (old(self).counter + 1) as nat,
                    )
                }
            }),
    {
        let key = crate::text::join_segments(&self.pending_path());
        let batch_taken = contains_key(&self.claimed, &key);
        if !fs_taken && !batch_taken {
            self.outcome = Some(self.current.clone());
        } else {
            self.counter = self.counter + 1;
            self.current = make_candidate(&self.stem, &self.ext, self.counter);
        }
    }

    /// The granted name, once `answer_taken` found one.
    pub fn granted(&self) -> (r: Option<String>)
        ensures
            r is Some <==> self.outcome is Some,
            r matches Some(n) ==> self.outcome matches Some(m) && n@ == m@,
    {
        match &self.outcome {
            Some(n) => Some(n.clone()),
            None => None,
        }
    }
}

} // verus!
