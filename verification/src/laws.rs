//! Laws of the store, stated over the same spec vocabulary the
//! operations' contracts use, so that what each operation promises
//! composes into the behaviour a caller observes across calls.

use vstd::prelude::*;

verus! {

use crate::models::{Millis, Note, Task, Project, Tag, NoteTag};
use crate::store::{
    has_note, note_idx, note_at, notes_wf, lemma_note_idx_unique, has_project, project_at,
    projects_wf, lemma_project_idx_unique, parent_of, project_of, has_link,
};
use crate::order::{next_pos_spec, scope_nonempty, scope_max, lemma_scope_max_empty};
use crate::patch::{
    NotePatch, note_patched, TaskPatch, task_patched, ProjectPatch, project_patched, TagPatch,
    tag_patched,
};
use crate::tasks::{tasks_of_project, tasks_without_project};
use crate::tags::tags_for_note;

// ---- creation is observable, unchanged, through lookup -----------------

/// A note created under a fresh identifier is exactly what a lookup of
/// that identifier then returns, and the table stays well-formed.
pub proof fn lemma_create_then_get_note(s: Seq<Note>, n: Note)
    requires
        notes_wf(s),
        !has_note(s, n.id@),
    ensures
        notes_wf(s.push(n)),
        has_note(s.push(n), n.id@),
        note_at(s.push(n), n.id@) == n,
{
    let s1 = s.push(n);
    assert forall|a: int, b: int| 0 <= a < b < s1.len() implies s1[a].id@ != s1[b].id@ by {
        if b == s1.len() - 1 {
            assert(s1[a] == s[a]);
        }
    }
    assert(s1[s1.len() - 1].id@ == n.id@);
    lemma_note_idx_unique(s1, n.id@, s1.len() - 1);
}

/// A project created under a fresh identifier is exactly what a lookup
/// of that identifier then returns, and the table stays well-formed.
pub proof fn lemma_create_then_get_project(s: Seq<Project>, p: Project)
    requires
        projects_wf(s),
        !has_project(s, p.id@),
    ensures
        projects_wf(s.push(p)),
        has_project(s.push(p), p.id@),
        project_at(s.push(p), p.id@) == p,
{
    let s1 = s.push(p);
    assert forall|a: int, b: int| 0 <= a < b < s1.len() implies s1[a].id@ != s1[b].id@ by {
        if b == s1.len() - 1 {
            assert(s1[a] == s[a]);
        }
    }
    assert(s1[s1.len() - 1].id@ == p.id@);
    lemma_project_idx_unique(s1, p.id@, s1.len() - 1);
}

// ---- a partial update touches the supplied fields and nothing else ----

/// An empty note patch refreshes the modification stamp and leaves
/// every other field byte-identical; a present field lands exactly, and
/// identifier and creation stamp never move.
pub proof fn lemma_note_patch_frame(n: Note, p: NotePatch, now: Millis)
    ensures
        note_patched(n, p, now).id == n.id,
        note_patched(n, p, now).created_at == n.created_at,
        note_patched(n, p, now).updated_at == now,
        p.title is None ==> note_patched(n, p, now).title == n.title,
        p.title is Some ==> note_patched(n, p, now).title == p.title->0,
        p.content is None ==> note_patched(n, p, now).content == n.content,
        p.content is Some ==> note_patched(n, p, now).content == p.content->0,
        p.project_id is None ==> note_patched(n, p, now).project_id == n.project_id,
        p.project_id is Some ==> note_patched(n, p, now).project_id == Some(p.project_id->0),
        (p.title is None && p.content is None && p.project_id is None) ==> note_patched(n, p, now)
            == (Note { updated_at: now, ..n }),
{
}

/// The task patch frame: parent, position, reminder, identifier and
/// creation stamp never move; absent fields keep their values.
pub proof fn lemma_task_patch_frame(t: Task, p: TaskPatch, now: Millis)
    ensures
        task_patched(t, p, now).id == t.id,
        task_patched(t, p, now).created_at == t.created_at,
        task_patched(t, p, now).updated_at == now,
        task_patched(t, p, now).parent_id == t.parent_id,
        task_patched(t, p, now).position == t.position,
        task_patched(t, p, now).remind_at == t.remind_at,
        p.title is None ==> task_patched(t, p, now).title == t.title,
        p.title is Some ==> task_patched(t, p, now).title == p.title->0,
        p.description is None ==> task_patched(t, p, now).description == t.description,
        p.is_completed is None ==> task_patched(t, p, now).is_completed == t.is_completed,
        p.priority is None ==> task_patched(t, p, now).priority == t.priority,
        p.due_date is None ==> task_patched(t, p, now).due_date == t.due_date,
        p.project_id is None ==> task_patched(t, p, now).project_id == t.project_id,
        (p.title is None && p.description is None && p.is_completed is None && p.priority is None
            && p.due_date is None && p.project_id is None) ==> task_patched(t, p, now) == (Task {
            updated_at: now,
            ..t
        }),
{
}

/// The project patch frame.
pub proof fn lemma_project_patch_frame(pr: Project, p: ProjectPatch, now: Millis)
    ensures
        project_patched(pr, p, now).id == pr.id,
        project_patched(pr, p, now).created_at == pr.created_at,
        project_patched(pr, p, now).updated_at == now,
        p.name is None ==> project_patched(pr, p, now).name == pr.name,
        p.description is None ==> project_patched(pr, p, now).description == pr.description,
        p.color is None ==> project_patched(pr, p, now).color == pr.color,
        p.is_archived is None ==> project_patched(pr, p, now).is_archived == pr.is_archived,
        (p.name is None && p.description is None && p.color is None && p.is_archived is None)
            ==> project_patched(pr, p, now) == (Project { updated_at: now, ..pr }),
{
}

/// The tag patch frame: a tag has no modification stamp, so an empty
/// patch changes nothing at all.
pub proof fn lemma_tag_patch_frame(t: Tag, p: TagPatch)
    ensures
        tag_patched(t, p).id == t.id,
        tag_patched(t, p).created_at == t.created_at,
        p.name is None ==> tag_patched(t, p).name == t.name,
        p.color is None ==> tag_patched(t, p).color == t.color,
        (p.name is None && p.color is None) ==> tag_patched(t, p) == t,
{
}

// ---- positions advance one by one in creation order --------------------

/// Creating a task at the scope's next position advances that scope's
/// next position by exactly one: an empty scope hands out 1, and a run
/// of creations in one scope hands out 1, 2, 3, … in creation order.
pub proof fn lemma_next_position_advances(s: Seq<Task>, t: Task, parent: Option<Seq<char>>)
    requires
        parent_of(t) == parent,
        t.position as int == next_pos_spec(s, parent),
    ensures
        next_pos_spec(s.push(t), parent) == next_pos_spec(s, parent) + 1,
{
    let s1 = s.push(t);
    assert(parent_of(s1[s1.len() - 1]) == parent);
    assert(scope_nonempty(s1, parent));
    assert(s1.drop_last() =~= s);
    assert(s1.last() == t);
    if scope_nonempty(s, parent) {
        assert(t.position as int == scope_max(s, parent) + 1);
        assert(scope_max(s1, parent) == t.position as int);
    } else {
        lemma_scope_max_empty(s, parent);
        assert(t.position as int == 1);
        assert(scope_max(s1, parent) == 1);
    }
}

// ---- deleting a project leaves its listing empty ------------------------

/// After the project cascade, no task of that project remains, so a
/// listing by the old identifier is a listing of nothing.
pub proof fn lemma_deleted_project_lists_empty(s: Seq<Task>, pid: Seq<char>)
    ensures
        tasks_of_project(tasks_without_project(s, pid), pid) == Seq::<Task>::empty(),
    decreases s.len(),
{
    if s.len() > 0 {
        lemma_deleted_project_lists_empty(s.drop_last(), pid);
        let rest = tasks_without_project(s.drop_last(), pid);
        if project_of(s.last()) != Some(pid) {
            let out = rest.push(s.last());
            assert(tasks_without_project(s, pid) == out);
            assert(out.drop_last() =~= rest);
            assert(out.last() == s.last());
            assert(tasks_of_project(out, pid) == tasks_of_project(rest, pid));
        }
    }
}

// ---- deleting a tag detaches it from every note -------------------------

/// Once no association names the tag, no note lists it.
pub proof fn lemma_deleted_tag_not_listed(
    tags: Seq<Tag>,
    links: Seq<NoteTag>,
    note_id: Seq<char>,
    tag_id: Seq<char>,
)
    requires
        forall|n: Seq<char>| !has_link(links, n, tag_id),
    ensures
        forall|m: int|
            0 <= m < tags_for_note(tags, links, note_id).len() ==> #[trigger] tags_for_note(
                tags,
                links,
                note_id,
            )[m].id@ != tag_id,
    decreases tags.len(),
{
    let out = tags_for_note(tags, links, note_id);
    if tags.len() > 0 {
        lemma_deleted_tag_not_listed(tags.drop_last(), links, note_id, tag_id);
        let rest = tags_for_note(tags.drop_last(), links, note_id);
        assert forall|m: int| 0 <= m < out.len() implies #[trigger] out[m].id@ != tag_id by {
            if has_link(links, note_id, tags.last().id@) && m == out.len() - 1 {
                assert(out[m] == tags.last());
                assert(!has_link(links, note_id, tag_id));
            } else {
                assert(out[m] == rest[m]);
            }
        }
    }
}

} // verus!
