//! The relational store: one growable table per entity, an association
//! table, and the well-formedness that every operation preserves.
//!
//! Rows are kept in insertion order; listings sort on the way out. The
//! persistence layer around the store mirrors each operation onto the
//! storage engine and is handed rows and statements as plain values.

use vstd::prelude::*;

verus! {

use crate::models::{Note, Task, Project, Tag, PomodoroSession, NoteTag};

pub struct Store {
    pub notes: Vec<Note>,
    pub tasks: Vec<Task>,
    pub projects: Vec<Project>,
    pub tags: Vec<Tag>,
    pub sessions: Vec<PomodoroSession>,
    pub note_tags: Vec<NoteTag>,
}

// ---- membership, by identifier value ----------------------------------

pub open spec fn has_note(s: Seq<Note>, id: Seq<char>) -> bool {
    exists|i: int| 0 <= i < s.len() && s[i].id@ == id
}

pub open spec fn note_idx(s: Seq<Note>, id: Seq<char>) -> int {
    choose|i: int| 0 <= i < s.len() && s[i].id@ == id
}

pub open spec fn note_at(s: Seq<Note>, id: Seq<char>) -> Note {
    s[note_idx(s, id)]
}

pub open spec fn has_task(s: Seq<Task>, id: Seq<char>) -> bool {
    exists|i: int| 0 <= i < s.len() && s[i].id@ == id
}

pub open spec fn task_idx(s: Seq<Task>, id: Seq<char>) -> int {
    choose|i: int| 0 <= i < s.len() && s[i].id@ == id
}

pub open spec fn task_at(s: Seq<Task>, id: Seq<char>) -> Task {
    s[task_idx(s, id)]
}

pub open spec fn has_project(s: Seq<Project>, id: Seq<char>) -> bool {
    exists|i: int| 0 <= i < s.len() && s[i].id@ == id
}

pub open spec fn project_idx(s: Seq<Project>, id: Seq<char>) -> int {
    choose|i: int| 0 <= i < s.len() && s[i].id@ == id
}

pub open spec fn project_at(s: Seq<Project>, id: Seq<char>) -> Project {
    s[project_idx(s, id)]
}

pub open spec fn has_tag(s: Seq<Tag>, id: Seq<char>) -> bool {
    exists|i: int| 0 <= i < s.len() && s[i].id@ == id
}

pub open spec fn tag_idx(s: Seq<Tag>, id: Seq<char>) -> int {
    choose|i: int| 0 <= i < s.len() && s[i].id@ == id
}

pub open spec fn tag_at(s: Seq<Tag>, id: Seq<char>) -> Tag {
    s[tag_idx(s, id)]
}

pub open spec fn has_tag_name(s: Seq<Tag>, name: Seq<char>) -> bool {
    exists|i: int| 0 <= i < s.len() && s[i].name@ == name
}

pub open spec fn has_session(s: Seq<PomodoroSession>, id: Seq<char>) -> bool {
    exists|i: int| 0 <= i < s.len() && s[i].id@ == id
}

pub open spec fn session_idx(s: Seq<PomodoroSession>, id: Seq<char>) -> int {
    choose|i: int| 0 <= i < s.len() && s[i].id@ == id
}

pub open spec fn session_at(s: Seq<PomodoroSession>, id: Seq<char>) -> PomodoroSession {
    s[session_idx(s, id)]
}

pub open spec fn has_link(s: Seq<NoteTag>, note_id: Seq<char>, tag_id: Seq<char>) -> bool {
    exists|i: int| 0 <= i < s.len() && s[i].note_id@ == note_id && s[i].tag_id@ == tag_id
}

// ---- well-formedness ---------------------------------------------------

pub open spec fn notes_wf(s: Seq<Note>) -> bool {
    forall|i: int, j: int| 0 <= i < j < s.len() ==> s[i].id@ != s[j].id@
}

/// The parent a task names, as an identifier value.
pub open spec fn parent_of(t: Task) -> Option<Seq<char>> {
    crate::models::opt_str_view(t.parent_id)
}

/// The project a task belongs to, as an identifier value.
pub open spec fn project_of(t: Task) -> Option<Seq<char>> {
    crate::models::opt_str_view(t.project_id)
}

/// Identifiers are unique, and a task that names a present parent comes
/// after it. New tasks only ever name already-present parents (or absent
/// ones, which deletion may leave dangling), so the order is invariant.
pub open spec fn tasks_wf(s: Seq<Task>) -> bool {
    &&& forall|i: int, j: int| 0 <= i < j < s.len() ==> s[i].id@ != s[j].id@
    &&& forall|i: int, j: int|
        0 <= i < s.len() && 0 <= j < s.len() && parent_of(s[j]) == Some(s[i].id@) ==> i < j
}

pub open spec fn projects_wf(s: Seq<Project>) -> bool {
    forall|i: int, j: int| 0 <= i < j < s.len() ==> s[i].id@ != s[j].id@
}

/// Identifiers unique, and names unique: the storage layer's UNIQUE
/// constraint on tag names, enforced here at creation and rename.
pub open spec fn tags_wf(s: Seq<Tag>) -> bool {
    &&& forall|i: int, j: int| 0 <= i < j < s.len() ==> s[i].id@ != s[j].id@
    &&& forall|i: int, j: int| 0 <= i < j < s.len() ==> s[i].name@ != s[j].name@
}

pub open spec fn sessions_wf(s: Seq<PomodoroSession>) -> bool {
    forall|i: int, j: int| 0 <= i < j < s.len() ==> s[i].id@ != s[j].id@
}

/// Association pairs are unique: the composite primary key.
pub open spec fn links_wf(s: Seq<NoteTag>) -> bool {
    forall|i: int, j: int|
        0 <= i < j < s.len() ==> !(s[i].note_id@ == s[j].note_id@ && s[i].tag_id@
            == s[j].tag_id@)
}

impl Store {
    pub open spec fn wf(self) -> bool {
        &&& notes_wf(self.notes@)
        &&& tasks_wf(self.tasks@)
        &&& projects_wf(self.projects@)
        &&& tags_wf(self.tags@)
        &&& sessions_wf(self.sessions@)
        &&& links_wf(self.note_tags@)
    }

    // ---- frame conditions: which tables an operation may touch ----

    pub open spec fn agrees_outside_notes(self, other: Store) -> bool {
        &&& self.tasks == other.tasks
        &&& self.projects == other.projects
        &&& self.tags == other.tags
        &&& self.sessions == other.sessions
        &&& self.note_tags == other.note_tags
    }

    /// A note deletion may touch the note table and its associations,
    /// nothing else.
    pub open spec fn agrees_outside_notes_and_links(self, other: Store) -> bool {
        &&& self.tasks == other.tasks
        &&& self.projects == other.projects
        &&& self.tags == other.tags
        &&& self.sessions == other.sessions
    }

    pub open spec fn agrees_outside_tasks(self, other: Store) -> bool {
        &&& self.notes == other.notes
        &&& self.projects == other.projects
        &&& self.tags == other.tags
        &&& self.sessions == other.sessions
        &&& self.note_tags == other.note_tags
    }

    pub open spec fn agrees_outside_projects(self, other: Store) -> bool {
        &&& self.notes == other.notes
        &&& self.tasks == other.tasks
        &&& self.tags == other.tags
        &&& self.sessions == other.sessions
        &&& self.note_tags == other.note_tags
    }

    /// A project deletion may touch the project table and, through the
    /// ownership cascade, the task table, nothing else.
    pub open spec fn agrees_outside_projects_and_tasks(self, other: Store) -> bool {
        &&& self.notes == other.notes
        &&& self.tags == other.tags
        &&& self.sessions == other.sessions
        &&& self.note_tags == other.note_tags
    }

    pub open spec fn agrees_outside_tags(self, other: Store) -> bool {
        &&& self.notes == other.notes
        &&& self.tasks == other.tasks
        &&& self.projects == other.projects
        &&& self.sessions == other.sessions
        &&& self.note_tags == other.note_tags
    }

    /// A tag deletion may touch the tag table and its associations,
    /// nothing else.
    pub open spec fn agrees_outside_tags_and_links(self, other: Store) -> bool {
        &&& self.notes == other.notes
        &&& self.tasks == other.tasks
        &&& self.projects == other.projects
        &&& self.sessions == other.sessions
    }

    pub open spec fn agrees_outside_sessions(self, other: Store) -> bool {
        &&& self.notes == other.notes
        &&& self.tasks == other.tasks
        &&& self.projects == other.projects
        &&& self.tags == other.tags
        &&& self.note_tags == other.note_tags
    }

    pub open spec fn agrees_outside_links(self, other: Store) -> bool {
        &&& self.notes == other.notes
        &&& self.tasks == other.tasks
        &&& self.projects == other.projects
        &&& self.tags == other.tags
        &&& self.sessions == other.sessions
    }

    /// An empty store, the state after idempotent schema creation on a
    /// fresh file.
    pub fn new() -> (r: Store)
        ensures
            r.wf(),
            r.notes@.len() == 0,
            r.tasks@.len() == 0,
            r.projects@.len() == 0,
            r.tags@.len() == 0,
            r.sessions@.len() == 0,
            r.note_tags@.len() == 0,
    {
        Store {
            notes: Vec::new(),
            tasks: Vec::new(),
            projects: Vec::new(),
            tags: Vec::new(),
            sessions: Vec::new(),
            note_tags: Vec::new(),
        }
    }

    // ---- row lookup ----------------------------------------------------

    pub fn find_note(&self, id: &String) -> (r: Option<usize>)
        ensures
            match r {
                Some(i) => i < self.notes@.len() && self.notes@[i as int].id@ == id@,
                None => !has_note(self.notes@, id@),
            },
    {
        let mut i: usize = 0;
        while i < self.notes.len()
            invariant
                i <= self.notes@.len(),
                forall|j: int| 0 <= j < i ==> self.notes@[j].id@ != id@,
            decreases self.notes@.len() - i,
        {
            if self.notes[i].id == *id {
                return Some(i);
            }
            i += 1;
        }
        None
    }

    pub fn find_task(&self, id: &String) -> (r: Option<usize>)
        ensures
            match r {
                Some(i) => i < self.tasks@.len() && self.tasks@[i as int].id@ == id@,
                None => !has_task(self.tasks@, id@),
            },
    {
        let mut i: usize = 0;
        while i < self.tasks.len()
            invariant
                i <= self.tasks@.len(),
                forall|j: int| 0 <= j < i ==> self.tasks@[j].id@ != id@,
            decreases self.tasks@.len() - i,
        {
            if self.tasks[i].id == *id {
                return Some(i);
            }
            i += 1;
        }
        None
    }

    pub fn find_project(&self, id: &String) -> (r: Option<usize>)
        ensures
            match r {
                Some(i) => i < self.projects@.len() && self.projects@[i as int].id@ == id@,
                None => !has_project(self.projects@, id@),
            },
    {
        let mut i: usize = 0;
        while i < self.projects.len()
            invariant
                i <= self.projects@.len(),
                forall|j: int| 0 <= j < i ==> self.projects@[j].id@ != id@,
            decreases self.projects@.len() - i,
        {
            if self.projects[i].id == *id {
                return Some(i);
            }
            i += 1;
        }
        None
    }

    pub fn find_tag(&self, id: &String) -> (r: Option<usize>)
        ensures
            match r {
                Some(i) => i < self.tags@.len() && self.tags@[i as int].id@ == id@,
                None => !has_tag(self.tags@, id@),
            },
    {
        let mut i: usize = 0;
        while i < self.tags.len()
            invariant
                i <= self.tags@.len(),
                forall|j: int| 0 <= j < i ==> self.tags@[j].id@ != id@,
            decreases self.tags@.len() - i,
        {
            if self.tags[i].id == *id {
                return Some(i);
            }
            i += 1;
        }
        None
    }

    pub fn find_tag_name(&self, name: &String) -> (r: Option<usize>)
        ensures
            match r {
                Some(i) => i < self.tags@.len() && self.tags@[i as int].name@ == name@,
                None => !has_tag_name(self.tags@, name@),
            },
    {
        let mut i: usize = 0;
        while i < self.tags.len()
            invariant
                i <= self.tags@.len(),
                forall|j: int| 0 <= j < i ==> self.tags@[j].name@ != name@,
            decreases self.tags@.len() - i,
        {
            if self.tags[i].name == *name {
                return Some(i);
            }
            i += 1;
        }
        None
    }

    pub fn find_session(&self, id: &String) -> (r: Option<usize>)
        ensures
            match r {
                Some(i) => i < self.sessions@.len() && self.sessions@[i as int].id@ == id@,
                None => !has_session(self.sessions@, id@),
            },
    {
        let mut i: usize = 0;
        while i < self.sessions.len()
            invariant
                i <= self.sessions@.len(),
                forall|j: int| 0 <= j < i ==> self.sessions@[j].id@ != id@,
            decreases self.sessions@.len() - i,
        {
            if self.sessions[i].id == *id {
                return Some(i);
            }
            i += 1;
        }
        None
    }

    pub fn find_link(&self, note_id: &String, tag_id: &String) -> (r: Option<usize>)
        ensures
            match r {
                Some(i) => i < self.note_tags@.len() && self.note_tags@[i as int].note_id@
                    == note_id@ && self.note_tags@[i as int].tag_id@ == tag_id@,
                None => !has_link(self.note_tags@, note_id@, tag_id@),
            },
    {
        let mut i: usize = 0;
        while i < self.note_tags.len()
            invariant
                i <= self.note_tags@.len(),
                forall|j: int|
                    0 <= j < i ==> !(self.note_tags@[j].note_id@ == note_id@
                        && self.note_tags@[j].tag_id@ == tag_id@),
            decreases self.note_tags@.len() - i,
        {
            if self.note_tags[i].note_id == *note_id && self.note_tags[i].tag_id == *tag_id {
                return Some(i);
            }
            i += 1;
        }
        None
    }
}

// ---- the found index is the spec index ---------------------------------

/// Under unique identifiers, any index whose row bears the identifier is
/// the one `note_idx` picks.
pub proof fn lemma_note_idx_unique(s: Seq<Note>, id: Seq<char>, i: int)
    requires
        notes_wf(s),
        0 <= i < s.len(),
        s[i].id@ == id,
    ensures
        has_note(s, id),
        note_idx(s, id) == i,
{
    assert(has_note(s, id));
    let j = note_idx(s, id);
    if i < j {
        assert(s[i].id@ != s[j].id@);
    } else if j < i {
        assert(s[j].id@ != s[i].id@);
    }
}

pub proof fn lemma_task_idx_unique(s: Seq<Task>, id: Seq<char>, i: int)
    requires
        tasks_wf(s),
        0 <= i < s.len(),
        s[i].id@ == id,
    ensures
        has_task(s, id),
        task_idx(s, id) == i,
{
    assert(has_task(s, id));
    let j = task_idx(s, id);
    if i < j {
        assert(s[i].id@ != s[j].id@);
    } else if j < i {
        assert(s[j].id@ != s[i].id@);
    }
}

pub proof fn lemma_project_idx_unique(s: Seq<Project>, id: Seq<char>, i: int)
    requires
        projects_wf(s),
        0 <= i < s.len(),
        s[i].id@ == id,
    ensures
        has_project(s, id),
        project_idx(s, id) == i,
{
    assert(has_project(s, id));
    let j = project_idx(s, id);
    if i < j {
        assert(s[i].id@ != s[j].id@);
    } else if j < i {
        assert(s[j].id@ != s[i].id@);
    }
}

pub proof fn lemma_tag_idx_unique(s: Seq<Tag>, id: Seq<char>, i: int)
    requires
        tags_wf(s),
        0 <= i < s.len(),
        s[i].id@ == id,
    ensures
        has_tag(s, id),
        tag_idx(s, id) == i,
{
    assert(has_tag(s, id));
    let j = tag_idx(s, id);
    if i < j {
        assert(s[i].id@ != s[j].id@);
    } else if j < i {
        assert(s[j].id@ != s[i].id@);
    }
}

pub proof fn lemma_session_idx_unique(s: Seq<PomodoroSession>, id: Seq<char>, i: int)
    requires
        sessions_wf(s),
        0 <= i < s.len(),
        s[i].id@ == id,
    ensures
        has_session(s, id),
        session_idx(s, id) == i,
{
    assert(has_session(s, id));
    let j = session_idx(s, id);
    if i < j {
        assert(s[i].id@ != s[j].id@);
    } else if j < i {
        assert(s[j].id@ != s[i].id@);
    }
}

} // verus!
