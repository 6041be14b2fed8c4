//! The note repository: listing, lookup, creation, partial update,
//! deletion and substring search.

use vstd::prelude::*;

verus! {

use crate::models::{Millis, Note, NoteTag, StoreError};
use crate::store::{
    Store, has_note, note_idx, note_at, notes_wf, links_wf, lemma_note_idx_unique,
};
use crate::order::{notes_sorted, insert_note_sorted};
use crate::patch::{NotePatch, note_patched, apply_note_patch};
use crate::sys::{fresh_id, now_millis};

/// The note table without the row bearing the identifier; order kept.
pub open spec fn notes_without(s: Seq<Note>, id: Seq<char>) -> Seq<Note>
    decreases s.len(),
{
    if s.len() == 0 {
        Seq::empty()
    } else {
        let rest = notes_without(s.drop_last(), id);
        if s.last().id@ != id {
            rest.push(s.last())
        } else {
            rest
        }
    }
}

/// The association table without every link naming the note.
pub open spec fn links_without_note(s: Seq<NoteTag>, note_id: Seq<char>) -> Seq<NoteTag>
    decreases s.len(),
{
    if s.len() == 0 {
        Seq::empty()
    } else {
        let rest = links_without_note(s.drop_last(), note_id);
        if s.last().note_id@ != note_id {
            rest.push(s.last())
        } else {
            rest
        }
    }
}

/// Two characters match when they are the same code point or the same
/// ASCII letter in either case: the storage engine's default LIKE
/// comparison, which the search mirrors.
pub open spec fn chars_match(a: char, b: char) -> bool {
    ||| a as int == b as int
    ||| (65 <= a as int <= 90 && b as int == a as int + 32)
    ||| (65 <= b as int <= 90 && a as int == b as int + 32)
}

/// The needle occurs in the haystack starting at position `i`,
/// character by matching character.
pub open spec fn contains_at(h: Seq<char>, n: Seq<char>, i: int) -> bool {
    &&& 0 <= i
    &&& i + n.len() <= h.len()
    &&& forall|m: int| 0 <= m < n.len() ==> #[trigger] chars_match(h[i + m], n[m])
}

pub open spec fn has_substring(h: Seq<char>, n: Seq<char>) -> bool {
    exists|i: int| contains_at(h, n, i)
}

/// A note matches a query when the query occurs in its title or its
/// content, ASCII letters matching either case.
pub open spec fn note_matches(n: Note, q: Seq<char>) -> bool {
    has_substring(n.title@, q) || has_substring(n.content@, q)
}

/// The notes matching the query, in table order.
pub open spec fn matching_notes(s: Seq<Note>, q: Seq<char>) -> Seq<Note>
    decreases s.len(),
{
    if s.len() == 0 {
        Seq::empty()
    } else {
        let rest = matching_notes(s.drop_last(), q);
        if note_matches(s.last(), q) {
            rest.push(s.last())
        } else {
            rest
        }
    }
}

/// Whether two characters match, ASCII case folded.
fn chars_match_exec(a: char, b: char) -> (r: bool)
    ensures
        r == chars_match(a, b),
{
    let ua = a as u32;
    let ub = b as u32;
    ua == ub || (65 <= ua && ua <= 90 && ub == ua + 32) || (65 <= ub && ub <= 90 && ua == ub + 32)
}

/// Whether the needle occurs anywhere in the haystack, by the naive
/// position-by-position scan.
pub fn str_contains(h: &str, q: &str) -> (r: bool)
    ensures
        r == has_substring(h@, q@),
{
    let hlen = h.unicode_len();
    let qlen = q.unicode_len();
    if qlen == 0 {
        proof {
            assert(contains_at(h@, q@, 0));
        }
        return true;
    }
    if qlen > hlen {
        proof {
            if has_substring(h@, q@) {
                let w = choose|w: int| contains_at(h@, q@, w);
            }
        }
        return false;
    }
    let mut i: usize = 0;
    while i <= hlen - qlen
        invariant
            1 <= qlen <= hlen,
            hlen == h@.len(),
            qlen == q@.len(),
            i <= hlen - qlen + 1,
            forall|k: int| 0 <= k < i ==> !contains_at(h@, q@, k),
        decreases hlen - qlen + 1 - i,
    {
        let mut j: usize = 0;
        let mut matches = true;
        while j < qlen
            invariant
                j <= qlen,
                i + qlen <= hlen,
                hlen == h@.len(),
                qlen == q@.len(),
                matches == (forall|m: int| 0 <= m < j ==> #[trigger] chars_match(h@[i + m], q@[m])),
            decreases qlen - j,
        {
            if !chars_match_exec(h.get_char(i + j), q.get_char(j)) {
                matches = false;
            }
            j += 1;
        }
        if matches {
            proof {
                assert(contains_at(h@, q@, i as int));
            }
            return true;
        }
        i += 1;
    }
    proof {
        if has_substring(h@, q@) {
            let w = choose|w: int| contains_at(h@, q@, w);
            assert(!contains_at(h@, q@, w));
        }
    }
    false
}

impl Store {
    /// Every note, most recently modified first.
    pub fn get_all_notes(&self) -> (r: Vec<Note>)
        ensures
            notes_sorted(r@),
            r@.to_multiset() == self.notes@.to_multiset(),
    {
        let mut out: Vec<Note> = Vec::new();
        let mut i: usize = 0;
        proof {
            assert(out@ =~= self.notes@.subrange(0, 0));
        }
        while i < self.notes.len()
            invariant
                i <= self.notes@.len(),
                notes_sorted(out@),
                out@.to_multiset() == self.notes@.subrange(0, i as int).to_multiset(),
            decreases self.notes@.len() - i,
        {
            let n = self.notes[i].duplicate();
            insert_note_sorted(&mut out, n);
            proof {
                broadcast use vstd::seq_lib::group_to_multiset_ensures;

                assert(self.notes@.subrange(0, i as int + 1) =~= self.notes@.subrange(
                    0,
                    i as int,
                ).push(self.notes@[i as int]));
            }
            i += 1;
        }
        proof {
            assert(self.notes@.subrange(0, self.notes@.len() as int) =~= self.notes@);
        }
        out
    }

    /// The note bearing the identifier, or nothing. Absence is an
    /// explicit empty result, the one policy applied to every entity.
    pub fn get_note_by_id(&self, id: String) -> (r: Option<Note>)
        requires
            self.wf(),
        ensures
            match r {
                Some(n) => has_note(self.notes@, id@) && n == note_at(self.notes@, id@),
                None => !has_note(self.notes@, id@),
            },
    {
        match self.find_note(&id) {
            Some(i) => {
                proof {
                    lemma_note_idx_unique(self.notes@, id@, i as int);
                }
                Some(self.notes[i].duplicate())
            },
            None => None,
        }
    }

    /// Appends a note under the given identifier and clock instant; both
    /// creation stamps take the same instant. Rejects a taken identifier
    /// as the storage key constraint would.
    pub fn create_note_at(
        &mut self,
        id: String,
        now: Millis,
        title: String,
        content: String,
        project_id: Option<String>,
    ) -> (r: Result<Note, StoreError>)
        requires
            old(self).wf(),
        ensures
            final(self).wf(),
            old(self).agrees_outside_notes(*final(self)),
            match r {
                Ok(n) => {
                    &&& !has_note(old(self).notes@, id@)
                    &&& n == (Note {
                        id: id,
                        title: title,
                        content: content,
                        created_at: now,
                        updated_at: now,
                        project_id: project_id,
                    })
                    &&& final(self).notes@ == old(self).notes@.push(n)
                },
                Err(e) => {
                    &&& e is IdTaken
                    &&& has_note(old(self).notes@, id@)
                    &&& *final(self) == *old(self)
                },
            },
    {
        match self.find_note(&id) {
            Some(_) => Err(StoreError::IdTaken),
            None => {
                let n = Note {
                    id,
                    title,
                    content,
                    created_at: now,
                    updated_at: now,
                    project_id,
                };
                let copy = n.duplicate();
                self.notes.push(n);
                Ok(copy)
            },
        }
    }

    /// Creates a note under a fresh identifier at the current instant.
    /// The identifier source is probabilistic, so a collision surfaces
    /// as the same error a key violation would.
    pub fn create_note(
        &mut self,
        title: String,
        content: String,
        project_id: Option<String>,
    ) -> (r: Result<Note, StoreError>)
        requires
            old(self).wf(),
        ensures
            final(self).wf(),
            old(self).agrees_outside_notes(*final(self)),
            match r {
                Ok(n) => {
                    &&& n.title == title
                    &&& n.content == content
                    &&& n.project_id == project_id
                    &&& n.created_at == n.updated_at
                    &&& n.id@.len() == 36
                    &&& !has_note(old(self).notes@, n.id@)
                    &&& final(self).notes@ == old(self).notes@.push(n)
                },
                Err(e) => {
                    &&& e is IdTaken
                    &&& *final(self) == *old(self)
                    &&& old(self).notes@.len() > 0
                },
            },
    {
        let id = fresh_id();
        let now = now_millis();
        self.create_note_at(id, now, title, content, project_id)
    }

    /// Rewrites the row bearing the identifier to its patched value,
    /// stamping the given instant. A missing row is an error: the
    /// storage layer would silently affect zero rows, and this store
    /// surfaces that as `NotFound` for every entity alike.
    pub fn update_note_at(&mut self, id: String, p: NotePatch, now: Millis) -> (r: Result<
        (),
        StoreError,
    >)
        requires
            old(self).wf(),
        ensures
            final(self).wf(),
            old(self).agrees_outside_notes(*final(self)),
            match r {
                Ok(()) => {
                    &&& has_note(old(self).notes@, id@)
                    &&& final(self).notes@ == old(self).notes@.update(
                        note_idx(old(self).notes@, id@),
                        note_patched(note_at(old(self).notes@, id@), p, now),
                    )
                },
                Err(e) => {
                    &&& e is NotFound
                    &&& !has_note(old(self).notes@, id@)
                    &&& *final(self) == *old(self)
                },
            },
    {
        match self.find_note(&id) {
            None => Err(StoreError::NotFound),
            Some(i) => {
                proof {
                    lemma_note_idx_unique(self.notes@, id@, i as int);
                }
                let updated = apply_note_patch(&self.notes[i], p, now);
                self.notes[i] = updated;
                proof {
                    let s0 = old(self).notes@;
                    let s1 = self.notes@;
                    assert forall|a: int, b: int| 0 <= a < b < s1.len() implies s1[a].id@
                        != s1[b].id@ by {
                        assert(s1[a].id == s0[a].id && s1[b].id == s0[b].id);
                    }
                }
                Ok(())
            },
        }
    }

    /// Applies a partial update at the current instant: only supplied
    /// fields and the modification stamp change.
    pub fn update_note(
        &mut self,
        id: String,
        title: Option<String>,
        content: Option<String>,
        project_id: Option<String>,
    ) -> (r: Result<(), StoreError>)
        requires
            old(self).wf(),
        ensures
            final(self).wf(),
            old(self).agrees_outside_notes(*final(self)),
            match r {
                Ok(()) => {
                    &&& has_note(old(self).notes@, id@)
                    &&& {
                        let i = note_idx(old(self).notes@, id@);
                        final(self).notes@ == old(self).notes@.update(
                            i,
                            note_patched(
                                old(self).notes@[i],
                                NotePatch { title: title, content: content, project_id: project_id },
                                final(self).notes@[i].updated_at,
                            ),
                        )
                    }
                },
                Err(e) => {
                    &&& e is NotFound
                    &&& !has_note(old(self).notes@, id@)
                    &&& *final(self) == *old(self)
                },
            },
    {
        let now = now_millis();
        let r = self.update_note_at(id, NotePatch { title, content, project_id }, now);
        r
    }

    /// The notes whose title or content holds the query, most recently
    /// modified first.
    pub fn search_notes(&self, query: String) -> (r: Vec<Note>)
        ensures
            notes_sorted(r@),
            r@.to_multiset() == matching_notes(self.notes@, query@).to_multiset(),
    {
        let mut out: Vec<Note> = Vec::new();
        let mut i: usize = 0;
        proof {
            assert(matching_notes(self.notes@.subrange(0, 0), query@) =~= Seq::<Note>::empty());
            assert(out@ =~= Seq::<Note>::empty());
        }
        while i < self.notes.len()
            invariant
                i <= self.notes@.len(),
                notes_sorted(out@),
                out@.to_multiset() == matching_notes(
                    self.notes@.subrange(0, i as int),
                    query@,
                ).to_multiset(),
            decreases self.notes@.len() - i,
        {
            proof {
                let pre = self.notes@.subrange(0, i as int);
                let post = self.notes@.subrange(0, i as int + 1);
                assert(post.drop_last() =~= pre);
                assert(post.last() == self.notes@[i as int]);
            }
            let hit = str_contains(self.notes[i].title.as_str(), query.as_str())
                || str_contains(self.notes[i].content.as_str(), query.as_str());
            if hit {
                let n = self.notes[i].duplicate();
                insert_note_sorted(&mut out, n);
            }
            proof {
                broadcast use vstd::seq_lib::group_to_multiset_ensures;

            }
            i += 1;
        }
        proof {
            assert(self.notes@.subrange(0, self.notes@.len() as int) =~= self.notes@);
        }
        out
    }

    /// Removes the note bearing the identifier, if any, and every
    /// association that names it; other notes keep their order.
    pub fn delete_note(&mut self, id: String)
        requires
            old(self).wf(),
        ensures
            final(self).wf(),
            old(self).agrees_outside_notes_and_links(*final(self)),
            final(self).notes@ == notes_without(old(self).notes@, id@),
            final(self).note_tags@ == links_without_note(old(self).note_tags@, id@),
            !has_note(final(self).notes@, id@),
    {
        let ghost s0 = self.notes@;
        let mut kept: Vec<Note> = Vec::new();
        let mut i: usize = 0;
        proof {
            assert(s0.subrange(0, 0) =~= Seq::<Note>::empty());
        }
        while i < self.notes.len()
            invariant
                i <= s0.len(),
                self.notes@ == s0,
                kept@ == notes_without(s0.subrange(0, i as int), id@),
            decreases s0.len() - i,
        {
            proof {
                let pre = s0.subrange(0, i as int);
                let post = s0.subrange(0, i as int + 1);
                assert(post.drop_last() =~= pre);
                assert(post.last() == s0[i as int]);
            }
            if !(self.notes[i].id == id) {
                kept.push(self.notes[i].duplicate());
            }
            i += 1;
        }
        proof {
            assert(s0.subrange(0, s0.len() as int) =~= s0);
        }
        self.notes = kept;

        let ghost l0 = self.note_tags@;
        let mut kept_links: Vec<NoteTag> = Vec::new();
        let mut k: usize = 0;
        proof {
            assert(l0.subrange(0, 0) =~= Seq::<NoteTag>::empty());
        }
        while k < self.note_tags.len()
            invariant
                k <= l0.len(),
                self.note_tags@ == l0,
                kept_links@ == links_without_note(l0.subrange(0, k as int), id@),
            decreases l0.len() - k,
        {
            proof {
                let pre = l0.subrange(0, k as int);
                let post = l0.subrange(0, k as int + 1);
                assert(post.drop_last() =~= pre);
                assert(post.last() == l0[k as int]);
            }
            if !(self.note_tags[k].note_id == id) {
                kept_links.push(self.note_tags[k].duplicate());
            }
            k += 1;
        }
        proof {
            assert(l0.subrange(0, l0.len() as int) =~= l0);
        }
        self.note_tags = kept_links;

        proof {
            lemma_notes_without_wf(s0, id@);
            lemma_links_without_note_wf(l0, id@);
        }
    }
}

/// Dropping one identifier's rows keeps identifiers pairwise distinct,
/// keeps only rows of the original table, and leaves no row under the
/// dropped identifier.
pub proof fn lemma_notes_without_wf(s: Seq<Note>, id: Seq<char>)
    requires
        notes_wf(s),
    ensures
        notes_wf(notes_without(s, id)),
        !has_note(notes_without(s, id), id),
        forall|m: int|
            0 <= m < notes_without(s, id).len() ==> exists|j: int|
                0 <= j < s.len() && #[trigger] notes_without(s, id)[m] == s[j],
    decreases s.len(),
{
    let out = notes_without(s, id);
    if s.len() > 0 {
        lemma_notes_without_wf(s.drop_last(), id);
        let rest = notes_without(s.drop_last(), id);
        assert forall|m: int| 0 <= m < out.len() implies exists|j: int|
            0 <= j < s.len() && #[trigger] out[m] == s[j] by {
            if s.last().id@ != id && m == out.len() - 1 {
                assert(out[m] == s[s.len() - 1]);
            } else {
                assert(out[m] == rest[m]);
                let j = choose|j: int| 0 <= j < s.drop_last().len() && rest[m] == s.drop_last()[j];
                assert(out[m] == s[j]);
            }
        }
        if s.last().id@ != id {
            assert forall|a: int, b: int| 0 <= a < b < out.len() implies out[a].id@
                != out[b].id@ by {
                if b == out.len() - 1 {
                    assert(out[a] == rest[a]);
                    let j = choose|j: int|
                        0 <= j < s.drop_last().len() && rest[a] == s.drop_last()[j];
                    assert(out[a] == s[j]);
                    assert(s[j].id@ != s[s.len() - 1].id@);
                }
            }
        }
    }
}

/// Dropping one note's links keeps association pairs pairwise distinct
/// and keeps only links of the original table.
pub proof fn lemma_links_without_note_wf(s: Seq<NoteTag>, note_id: Seq<char>)
    requires
        links_wf(s),
    ensures
        links_wf(links_without_note(s, note_id)),
        forall|m: int|
            0 <= m < links_without_note(s, note_id).len() ==> exists|j: int|
                0 <= j < s.len() && #[trigger] links_without_note(s, note_id)[m] == s[j],
    decreases s.len(),
{
    let out = links_without_note(s, note_id);
    if s.len() > 0 {
        lemma_links_without_note_wf(s.drop_last(), note_id);
        let rest = links_without_note(s.drop_last(), note_id);
        assert forall|m: int| 0 <= m < out.len() implies exists|j: int|
            0 <= j < s.len() && #[trigger] out[m] == s[j] by {
            if s.last().note_id@ != note_id && m == out.len() - 1 {
                assert(out[m] == s[s.len() - 1]);
            } else {
                assert(out[m] == rest[m]);
                let j = choose|j: int| 0 <= j < s.drop_last().len() && rest[m] == s.drop_last()[j];
                assert(out[m] == s[j]);
            }
        }
        if s.last().note_id@ != note_id {
            assert forall|a: int, b: int| 0 <= a < b < out.len() implies !(out[a].note_id@
                == out[b].note_id@ && out[a].tag_id@ == out[b].tag_id@) by {
                if b == out.len() - 1 {
                    assert(out[a] == rest[a]);
                    let j = choose|j: int|
                        0 <= j < s.drop_last().len() && rest[a] == s.drop_last()[j];
                    assert(out[a] == s[j]);
                    assert(!(s[j].note_id@ == s[s.len() - 1].note_id@ && s[j].tag_id@
                        == s[s.len() - 1].tag_id@));
                }
            }
        }
    }
}

} // verus!
