//! The tag repository and the note–tag association: creation under a
//! unique-name constraint, rename, deletion with link cleanup, and the
//! many-to-many attach/detach operations.

use vstd::prelude::*;

verus! {

use crate::models::{Millis, Tag, NoteTag, StoreError};
use crate::store::{
    Store, has_tag, tag_idx, tag_at, has_tag_name, tags_wf, links_wf, has_link,
    lemma_tag_idx_unique,
};
use crate::order::{tags_sorted, insert_tag_sorted};
use crate::patch::{TagPatch, tag_patched, apply_tag_patch};
use crate::sys::{fresh_id, now_millis};

/// The color a tag receives when none is supplied.
pub open spec fn default_tag_color() -> Seq<char> {
    "#6B7280"@
}

/// The tag table without the row bearing the identifier.
pub open spec fn tags_without(s: Seq<Tag>, id: Seq<char>) -> Seq<Tag>
    decreases s.len(),
{
    if s.len() == 0 {
        Seq::empty()
    } else {
        let rest = tags_without(s.drop_last(), id);
        if s.last().id@ != id {
            rest.push(s.last())
        } else {
            rest
        }
    }
}

/// The association table without every link naming the tag.
pub open spec fn links_without_tag(s: Seq<NoteTag>, tag_id: Seq<char>) -> Seq<NoteTag>
    decreases s.len(),
{
    if s.len() == 0 {
        Seq::empty()
    } else {
        let rest = links_without_tag(s.drop_last(), tag_id);
        if s.last().tag_id@ != tag_id {
            rest.push(s.last())
        } else {
            rest
        }
    }
}

/// The association table without the one pair.
pub open spec fn links_without_pair(
    s: Seq<NoteTag>,
    note_id: Seq<char>,
    tag_id: Seq<char>,
) -> Seq<NoteTag>
    decreases s.len(),
{
    if s.len() == 0 {
        Seq::empty()
    } else {
        let rest = links_without_pair(s.drop_last(), note_id, tag_id);
        if !(s.last().note_id@ == note_id && s.last().tag_id@ == tag_id) {
            rest.push(s.last())
        } else {
            rest
        }
    }
}

/// The tags attached to the note, in table order.
pub open spec fn tags_for_note(s: Seq<Tag>, links: Seq<NoteTag>, note_id: Seq<char>) -> Seq<Tag>
    decreases s.len(),
{
    if s.len() == 0 {
        Seq::empty()
    } else {
        let rest = tags_for_note(s.drop_last(), links, note_id);
        if has_link(links, note_id, s.last().id@) {
            rest.push(s.last())
        } else {
            rest
        }
    }
}

/// The note identifiers attached to the tag, in attachment order.
pub open spec fn note_ids_for_tag(links: Seq<NoteTag>, tag_id: Seq<char>) -> Seq<String>
    decreases links.len(),
{
    if links.len() == 0 {
        Seq::empty()
    } else {
        let rest = note_ids_for_tag(links.drop_last(), tag_id);
        if links.last().tag_id@ == tag_id {
            rest.push(links.last().note_id)
        } else {
            rest
        }
    }
}

/// Whether a different row already holds the name.
pub open spec fn name_taken_by_other(s: Seq<Tag>, id: Seq<char>, name: Seq<char>) -> bool {
    exists|j: int| 0 <= j < s.len() && s[j].name@ == name && s[j].id@ != id
}

impl Store {
    /// Every tag, by name ascending.
    pub fn get_all_tags(&self) -> (r: Vec<Tag>)
        ensures
            tags_sorted(r@),
            r@.to_multiset() == self.tags@.to_multiset(),
    {
        let mut out: Vec<Tag> = Vec::new();
        let mut i: usize = 0;
        proof {
            assert(out@ =~= self.tags@.subrange(0, 0));
        }
        while i < self.tags.len()
            invariant
                i <= self.tags@.len(),
                tags_sorted(out@),
                out@.to_multiset() == self.tags@.subrange(0, i as int).to_multiset(),
            decreases self.tags@.len() - i,
        {
            let t = self.tags[i].duplicate();
            insert_tag_sorted(&mut out, t);
            proof {
                broadcast use vstd::seq_lib::group_to_multiset_ensures;

                assert(self.tags@.subrange(0, i as int + 1) =~= self.tags@.subrange(
                    0,
                    i as int,
                ).push(self.tags@[i as int]));
            }
            i += 1;
        }
        proof {
            assert(self.tags@.subrange(0, self.tags@.len() as int) =~= self.tags@);
        }
        out
    }

    /// Appends a tag under the given identifier and clock instant,
    /// refusing a taken identifier and, per the unique-name constraint,
    /// a taken name.
    pub fn create_tag_at(&mut self, id: String, now: Millis, name: String, color: String) -> (r:
        Result<Tag, StoreError>)
        requires
            old(self).wf(),
        ensures
            final(self).wf(),
            old(self).agrees_outside_tags(*final(self)),
            match r {
                Ok(t) => {
                    &&& !has_tag(old(self).tags@, id@)
                    &&& !has_tag_name(old(self).tags@, name@)
                    &&& t == (Tag { id: id, name: name, color: color, created_at: now })
                    &&& final(self).tags@ == old(self).tags@.push(t)
                },
                Err(e) => {
                    &&& *final(self) == *old(self)
                    &&& if has_tag(old(self).tags@, id@) {
                        e is IdTaken
                    } else {
                        e is NameTaken && has_tag_name(old(self).tags@, name@)
                    }
                },
            },
    {
        if self.find_tag(&id).is_some() {
            return Err(StoreError::IdTaken);
        }
        if self.find_tag_name(&name).is_some() {
            return Err(StoreError::NameTaken);
        }
        let t = Tag { id, name, color, created_at: now };
        let copy = t.duplicate();
        self.tags.push(t);
        Ok(copy)
    }

    /// Creates a tag under a fresh identifier at the current instant; a
    /// missing color falls back to the fixed default.
    pub fn create_tag(&mut self, name: String, color: Option<String>) -> (r: Result<
        Tag,
        StoreError,
    >)
        requires
            old(self).wf(),
        ensures
            final(self).wf(),
            old(self).agrees_outside_tags(*final(self)),
            match r {
                Ok(t) => {
                    &&& t.name == name
                    &&& t.color@ == (if color is Some {
                        (color->0)@
                    } else {
                        default_tag_color()
                    })
                    &&& t.id@.len() == 36
                    &&& !has_tag(old(self).tags@, t.id@)
                    &&& !has_tag_name(old(self).tags@, name@)
                    &&& final(self).tags@ == old(self).tags@.push(t)
                },
                Err(e) => {
                    &&& *final(self) == *old(self)
                    &&& (e is NameTaken ==> has_tag_name(old(self).tags@, name@))
                    &&& (e is IdTaken ==> old(self).tags@.len() > 0)
                    &&& old(self).tags@.len() > 0
                },
            },
            has_tag_name(old(self).tags@, name@) ==> r is Err,
    {
        let id = fresh_id();
        let now = now_millis();
        let color = match color {
            Some(c) => c,
            None => "#6B7280".to_owned(),
        };
        self.create_tag_at(id, now, name, color)
    }

    /// Applies a partial update. With nothing supplied the operation is
    /// a no-op that succeeds without touching anything — a tag has no
    /// always-refreshed field. A rename onto another tag's name is
    /// refused by the unique-name constraint; a rename onto the tag's
    /// own name stands.
    pub fn update_tag(&mut self, id: String, name: Option<String>, color: Option<String>) -> (r:
        Result<(), StoreError>)
        requires
            old(self).wf(),
        ensures
            final(self).wf(),
            old(self).agrees_outside_tags(*final(self)),
            match r {
                Ok(()) => {
                    if name is None && color is None {
                        *final(self) == *old(self)
                    } else {
                        &&& has_tag(old(self).tags@, id@)
                        &&& (name is Some ==> !name_taken_by_other(
                            old(self).tags@,
                            id@,
                            (name->0)@,
                        ))
                        &&& final(self).tags@ == old(self).tags@.update(
                            tag_idx(old(self).tags@, id@),
                            tag_patched(
                                tag_at(old(self).tags@, id@),
                                TagPatch { name: name, color: color },
                            ),
                        )
                    }
                },
                Err(e) => {
                    &&& *final(self) == *old(self)
                    &&& !(name is None && color is None)
                    &&& if !has_tag(old(self).tags@, id@) {
                        e is NotFound
                    } else {
                        e is NameTaken && name is Some && name_taken_by_other(
                            old(self).tags@,
                            id@,
                            (name->0)@,
                        )
                    }
                },
            },
    {
        if name.is_none() && color.is_none() {
            return Ok(());
        }
        match self.find_tag(&id) {
            None => Err(StoreError::NotFound),
            Some(i) => {
                proof {
                    lemma_tag_idx_unique(self.tags@, id@, i as int);
                }
                match &name {
                    Some(n) => {
                        match self.find_tag_name(n) {
                            Some(j) => {
                                if !(self.tags[j].id == id) {
                                    return Err(StoreError::NameTaken);
                                }
                                proof {
                                    if name_taken_by_other(self.tags@, id@, n@) {
                                        let w = choose|w: int|
                                            0 <= w < self.tags@.len() && self.tags@[w].name@ == n@
                                                && self.tags@[w].id@ != id@;
                                        if w != j {
                                            assert(self.tags@[w].name@ != self.tags@[
                                                j as int].name@);
                                        }
                                    }
                                }
                            },
                            None => (),
                        }
                    },
                    None => (),
                }
                let updated = apply_tag_patch(&self.tags[i], TagPatch { name, color });
                self.tags[i] = updated;
                proof {
                    let s0 = old(self).tags@;
                    let s1 = self.tags@;
                    assert forall|a: int, b: int| 0 <= a < b < s1.len() implies s1[a].id@
                        != s1[b].id@ by {
                        assert(s1[a].id == s0[a].id && s1[b].id == s0[b].id);
                    }
                    assert forall|a: int, b: int| 0 <= a < b < s1.len() implies s1[a].name@
                        != s1[b].name@ by {
                        if a != i as int && b != i as int {
                            assert(s1[a].name == s0[a].name && s1[b].name == s0[b].name);
                        }
                    }
                }
                Ok(())
            },
        }
    }

    /// Removes the tag bearing the identifier, if any, and every
    /// association that names it.
    pub fn delete_tag(&mut self, id: String)
        requires
            old(self).wf(),
        ensures
            final(self).wf(),
            old(self).agrees_outside_tags_and_links(*final(self)),
            final(self).tags@ == tags_without(old(self).tags@, id@),
            final(self).note_tags@ == links_without_tag(old(self).note_tags@, id@),
            !has_tag(final(self).tags@, id@),
            forall|n: Seq<char>| !has_link(final(self).note_tags@, n, id@),
    {
        let ghost s0 = self.tags@;
        let mut kept: Vec<Tag> = Vec::new();
        let mut i: usize = 0;
        proof {
            assert(s0.subrange(0, 0) =~= Seq::<Tag>::empty());
        }
        while i < self.tags.len()
            invariant
                i <= s0.len(),
                self.tags@ == s0,
                kept@ == tags_without(s0.subrange(0, i as int), id@),
            decreases s0.len() - i,
        {
            proof {
                let pre = s0.subrange(0, i as int);
                let post = s0.subrange(0, i as int + 1);
                assert(post.drop_last() =~= pre);
                assert(post.last() == s0[i as int]);
            }
            if !(self.tags[i].id == id) {
                kept.push(self.tags[i].duplicate());
            }
            i += 1;
        }
        proof {
            assert(s0.subrange(0, s0.len() as int) =~= s0);
        }
        self.tags = kept;

        let ghost l0 = self.note_tags@;
        let mut kept_links: Vec<NoteTag> = Vec::new();
        let mut k: usize = 0;
        proof {
            assert(l0.subrange(0, 0) =~= Seq::<NoteTag>::empty());
        }
        while k < self.note_tags.len()
            invariant
                k <= l0.len(),
                self.note_tags@ == l0,
                kept_links@ == links_without_tag(l0.subrange(0, k as int), id@),
            decreases l0.len() - k,
        {
            proof {
                let pre = l0.subrange(0, k as int);
                let post = l0.subrange(0, k as int + 1);
                assert(post.drop_last() =~= pre);
                assert(post.last() == l0[k as int]);
            }
            if !(self.note_tags[k].tag_id == id) {
                kept_links.push(self.note_tags[k].duplicate());
            }
            k += 1;
        }
        proof {
            assert(l0.subrange(0, l0.len() as int) =~= l0);
        }
        self.note_tags = kept_links;

        proof {
            lemma_tags_without_wf(s0, id@);
            lemma_links_without_tag_wf(l0, id@);
        }
    }

    /// Attaches the tag to the note; attaching an attached tag is a
    /// no-op, not an error. Endpoints are not checked: a link may name
    /// rows that were never created or are already gone, as the storage
    /// schema admits.
    pub fn add_tag_to_note(&mut self, note_id: String, tag_id: String)
        requires
            old(self).wf(),
        ensures
            final(self).wf(),
            old(self).agrees_outside_links(*final(self)),
            final(self).note_tags@ == (if has_link(old(self).note_tags@, note_id@, tag_id@) {
                old(self).note_tags@
            } else {
                old(self).note_tags@.push(NoteTag { note_id: note_id, tag_id: tag_id })
            }),
            has_link(final(self).note_tags@, note_id@, tag_id@),
    {
        match self.find_link(&note_id, &tag_id) {
            Some(i) => {
                proof {
                    assert(self.note_tags@[i as int].note_id@ == note_id@ && self.note_tags@[
                        i as int].tag_id@ == tag_id@);
                    assert(has_link(self.note_tags@, note_id@, tag_id@));
                }
            },
            None => {
                let l = NoteTag { note_id, tag_id };
                self.note_tags.push(l);
                proof {
                    let s1 = self.note_tags@;
                    let s0 = old(self).note_tags@;
                    assert(s1[s1.len() - 1].note_id@ == note_id@ && s1[s1.len() - 1].tag_id@
                        == tag_id@);
                    assert(has_link(s1, note_id@, tag_id@));
                    assert forall|a: int, b: int| 0 <= a < b < s1.len() implies !(s1[a].note_id@
                        == s1[b].note_id@ && s1[a].tag_id@ == s1[b].tag_id@) by {
                        if b == s1.len() - 1 {
                            assert(!(s0[a].note_id@ == note_id@ && s0[a].tag_id@ == tag_id@));
                        }
                    }
                }
            },
        }
    }

    /// Detaches the tag from the note; detaching an absent link is a
    /// no-op.
    pub fn remove_tag_from_note(&mut self, note_id: String, tag_id: String)
        requires
            old(self).wf(),
        ensures
            final(self).wf(),
            old(self).agrees_outside_links(*final(self)),
            final(self).note_tags@ == links_without_pair(old(self).note_tags@, note_id@, tag_id@),
            !has_link(final(self).note_tags@, note_id@, tag_id@),
    {
        let ghost l0 = self.note_tags@;
        let mut kept: Vec<NoteTag> = Vec::new();
        let mut k: usize = 0;
        proof {
            assert(l0.subrange(0, 0) =~= Seq::<NoteTag>::empty());
        }
        while k < self.note_tags.len()
            invariant
                k <= l0.len(),
                self.note_tags@ == l0,
                kept@ == links_without_pair(l0.subrange(0, k as int), note_id@, tag_id@),
            decreases l0.len() - k,
        {
            proof {
                let pre = l0.subrange(0, k as int);
                let post = l0.subrange(0, k as int + 1);
                assert(post.drop_last() =~= pre);
                assert(post.last() == l0[k as int]);
            }
            if !(self.note_tags[k].note_id == note_id && self.note_tags[k].tag_id == tag_id) {
                kept.push(self.note_tags[k].duplicate());
            }
            k += 1;
        }
        proof {
            assert(l0.subrange(0, l0.len() as int) =~= l0);
        }
        self.note_tags = kept;
        proof {
            lemma_links_without_pair_wf(l0, note_id@, tag_id@);
        }
    }

    /// The tags attached to the note, by name ascending.
    pub fn get_tags_for_note(&self, note_id: String) -> (r: Vec<Tag>)
        ensures
            tags_sorted(r@),
            r@.to_multiset() == tags_for_note(
                self.tags@,
                self.note_tags@,
                note_id@,
            ).to_multiset(),
    {
        let mut out: Vec<Tag> = Vec::new();
        let mut i: usize = 0;
        proof {
            assert(tags_for_note(self.tags@.subrange(0, 0), self.note_tags@, note_id@) =~= Seq::<
                Tag,
            >::empty());
            assert(out@ =~= Seq::<Tag>::empty());
        }
        while i < self.tags.len()
            invariant
                i <= self.tags@.len(),
                tags_sorted(out@),
                out@.to_multiset() == tags_for_note(
                    self.tags@.subrange(0, i as int),
                    self.note_tags@,
                    note_id@,
                ).to_multiset(),
            decreases self.tags@.len() - i,
        {
            proof {
                let pre = self.tags@.subrange(0, i as int);
                let post = self.tags@.subrange(0, i as int + 1);
                assert(post.drop_last() =~= pre);
                assert(post.last() == self.tags@[i as int]);
            }
            let attached = self.find_link(&note_id, &self.tags[i].id).is_some();
            if attached {
                let t = self.tags[i].duplicate();
                insert_tag_sorted(&mut out, t);
            }
            proof {
                broadcast use vstd::seq_lib::group_to_multiset_ensures;

            }
            i += 1;
        }
        proof {
            assert(self.tags@.subrange(0, self.tags@.len() as int) =~= self.tags@);
        }
        out
    }

    /// The identifiers of the notes the tag is attached to, in
    /// attachment order.
    pub fn get_notes_by_tag(&self, tag_id: String) -> (r: Vec<String>)
        ensures
            r@ == note_ids_for_tag(self.note_tags@, tag_id@),
    {
        let mut out: Vec<String> = Vec::new();
        let mut k: usize = 0;
        proof {
            assert(note_ids_for_tag(self.note_tags@.subrange(0, 0), tag_id@) =~= Seq::<
                String,
            >::empty());
            assert(out@ =~= Seq::<String>::empty());
        }
        while k < self.note_tags.len()
            invariant
                k <= self.note_tags@.len(),
                out@ == note_ids_for_tag(self.note_tags@.subrange(0, k as int), tag_id@),
            decreases self.note_tags@.len() - k,
        {
            proof {
                let pre = self.note_tags@.subrange(0, k as int);
                let post = self.note_tags@.subrange(0, k as int + 1);
                assert(post.drop_last() =~= pre);
                assert(post.last() == self.note_tags@[k as int]);
            }
            if self.note_tags[k].tag_id == tag_id {
                out.push(self.note_tags[k].note_id.clone());
            }
            k += 1;
        }
        proof {
            assert(self.note_tags@.subrange(0, self.note_tags@.len() as int)
                =~= self.note_tags@);
        }
        out
    }
}

/// Dropping one identifier's row keeps identifiers and names pairwise
/// distinct and leaves no row under the dropped identifier.
proof fn lemma_tags_without_wf(s: Seq<Tag>, id: Seq<char>)
    requires
        tags_wf(s),
    ensures
        tags_wf(tags_without(s, id)),
        !has_tag(tags_without(s, id), id),
        forall|m: int|
            0 <= m < tags_without(s, id).len() ==> exists|j: int|
                0 <= j < s.len() && #[trigger] tags_without(s, id)[m] == s[j],
    decreases s.len(),
{
    let out = tags_without(s, id);
    if s.len() > 0 {
        lemma_tags_without_wf(s.drop_last(), id);
        let rest = tags_without(s.drop_last(), id);
        assert forall|m: int| 0 <= m < out.len() implies exists|j: int|
            0 <= j < s.len() && #[trigger] out[m] == s[j] by {
            if s.last().id@ != id && m == out.len() - 1 {
                assert(out[m] == s[s.len() - 1]);
            } else {
                assert(out[m] == rest[m]);
                let j = choose|j: int| 0 <= j < s.drop_last().len() && rest[m] == s.drop_last()[j];
                assert(out[m] == s[j]);
            }
        }
        if s.last().id@ != id {
            assert forall|a: int, b: int| 0 <= a < b < out.len() implies out[a].id@ != out[b].id@
                && out[a].name@ != out[b].name@ by {
                if b == out.len() - 1 {
                    assert(out[a] == rest[a]);
                    let j = choose|j: int|
                        0 <= j < s.drop_last().len() && rest[a] == s.drop_last()[j];
                    assert(out[a] == s[j]);
                    assert(s[j].id@ != s[s.len() - 1].id@);
                    assert(s[j].name@ != s[s.len() - 1].name@);
                }
            }
        }
    }
}

/// Dropping one tag's links keeps association pairs pairwise distinct
/// and leaves no link naming the tag.
proof fn lemma_links_without_tag_wf(s: Seq<NoteTag>, tag_id: Seq<char>)
    requires
        links_wf(s),
    ensures
        links_wf(links_without_tag(s, tag_id)),
        forall|n: Seq<char>| !has_link(links_without_tag(s, tag_id), n, tag_id),
        forall|m: int|
            0 <= m < links_without_tag(s, tag_id).len() ==> exists|j: int|
                0 <= j < s.len() && #[trigger] links_without_tag(s, tag_id)[m] == s[j],
    decreases s.len(),
{
    let out = links_without_tag(s, tag_id);
    if s.len() > 0 {
        lemma_links_without_tag_wf(s.drop_last(), tag_id);
        let rest = links_without_tag(s.drop_last(), tag_id);
        assert forall|m: int| 0 <= m < out.len() implies exists|j: int|
            0 <= j < s.len() && #[trigger] out[m] == s[j] by {
            if s.last().tag_id@ != tag_id && m == out.len() - 1 {
                assert(out[m] == s[s.len() - 1]);
            } else {
                assert(out[m] == rest[m]);
                let j = choose|j: int| 0 <= j < s.drop_last().len() && rest[m] == s.drop_last()[j];
                assert(out[m] == s[j]);
            }
        }
        assert forall|m: int| 0 <= m < out.len() implies out[m].tag_id@ != tag_id by {
            if s.last().tag_id@ != tag_id && m == out.len() - 1 {
            } else {
                assert(out[m] == rest[m]);
                assert forall|n: Seq<char>| !has_link(rest, n, tag_id) by {}
                if out[m].tag_id@ == tag_id {
                    assert(has_link(rest, rest[m].note_id@, tag_id));
                }
            }
        }
        assert forall|n: Seq<char>| !has_link(out, n, tag_id) by {
            if has_link(out, n, tag_id) {
                let w = choose|w: int|
                    0 <= w < out.len() && out[w].note_id@ == n && out[w].tag_id@ == tag_id;
                assert(out[w].tag_id@ != tag_id);
            }
        }
        if s.last().tag_id@ != tag_id {
            assert forall|a: int, b: int| 0 <= a < b < out.len() implies !(out[a].note_id@
                == out[b].note_id@ && out[a].tag_id@ == out[b].tag_id@) by {
                if b == out.len() - 1 {
                    assert(out[a] == rest[a]);
                    let j = choose|j: int|
                        0 <= j < s.drop_last().len() && rest[a] == s.drop_last()[j];
                    assert(out[a] == s[j]);
                    assert(!(s[j].note_id@ == s[s.len() - 1].note_id@ && s[j].tag_id@
                        == s[s.len() - 1].tag_id@));
                }
            }
        }
    }
}

/// Dropping one pair keeps association pairs pairwise distinct and
/// leaves no link with that pair.
proof fn lemma_links_without_pair_wf(s: Seq<NoteTag>, note_id: Seq<char>, tag_id: Seq<char>)
    requires
        links_wf(s),
    ensures
        links_wf(links_without_pair(s, note_id, tag_id)),
        !has_link(links_without_pair(s, note_id, tag_id), note_id, tag_id),
    decreases s.len(),
{
    let out = links_without_pair(s, note_id, tag_id);
    if s.len() > 0 {
        lemma_links_without_pair_wf(s.drop_last(), note_id, tag_id);
        let rest = links_without_pair(s.drop_last(), note_id, tag_id);
        assert forall|m: int| 0 <= m < out.len() implies !(out[m].note_id@ == note_id
            && out[m].tag_id@ == tag_id) by {
            if !(s.last().note_id@ == note_id && s.last().tag_id@ == tag_id) && m == out.len()
                - 1 {
            } else {
                assert(out[m] == rest[m]);
                if out[m].note_id@ == note_id && out[m].tag_id@ == tag_id {
                    assert(has_link(rest, note_id, tag_id));
                }
            }
        }
        if !(s.last().note_id@ == note_id && s.last().tag_id@ == tag_id) {
            assert forall|a: int, b: int| 0 <= a < b < out.len() implies !(out[a].note_id@
                == out[b].note_id@ && out[a].tag_id@ == out[b].tag_id@) by {
                if b == out.len() - 1 {
                    assert(out[a] == rest[a]);
                    lemma_links_without_pair_member(s.drop_last(), note_id, tag_id, a);
                    let j = choose|j: int|
                        0 <= j < s.drop_last().len() && rest[a] == s.drop_last()[j];
                    assert(out[a] == s[j]);
                    assert(!(s[j].note_id@ == s[s.len() - 1].note_id@ && s[j].tag_id@
                        == s[s.len() - 1].tag_id@));
                }
            }
        }
    }
}

/// Every link the drop keeps is a link of the original table.
proof fn lemma_links_without_pair_member(
    s: Seq<NoteTag>,
    note_id: Seq<char>,
    tag_id: Seq<char>,
    m: int,
)
    requires
        0 <= m < links_without_pair(s, note_id, tag_id).len(),
    ensures
        exists|j: int| 0 <= j < s.len() && links_without_pair(s, note_id, tag_id)[m] == s[j],
    decreases s.len(),
{
    if s.len() > 0 {
        let rest = links_without_pair(s.drop_last(), note_id, tag_id);
        if !(s.last().note_id@ == note_id && s.last().tag_id@ == tag_id) && m == rest.len() {
            assert(links_without_pair(s, note_id, tag_id)[m] == s[s.len() - 1]);
        } else {
            lemma_links_without_pair_member(s.drop_last(), note_id, tag_id, m);
            let j = choose|j: int| 0 <= j < s.drop_last().len() && rest[m] == s.drop_last()[j];
            assert(links_without_pair(s, note_id, tag_id)[m] == s[j]);
        }
    }
}

} // verus!
