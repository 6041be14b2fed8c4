//! Entity records held by the store.
//!
//! All identifiers are opaque strings chosen at creation time. Timestamps
//! are milliseconds since the Unix epoch, the integer form of the storage
//! engine's timestamp columns; the persistence layer converts them to and
//! from RFC 3339 text at its edge. Boolean columns are stored as 0/1
//! integers by that layer; here they are plain `bool`s.

use vstd::prelude::*;

verus! {

/// Milliseconds since the Unix epoch, as wide as a storage integer column.
pub type Millis = i64;

#[derive(Debug)]
pub struct Note {
    pub id: String,
    pub title: String,
    pub content: String,
    pub created_at: Millis,
    pub updated_at: Millis,
    /// Soft reference to a `Project`; may dangle after the project is
    /// deleted (no cascade is wired for notes).
    pub project_id: Option<String>,
}

#[derive(Debug)]
pub struct Task {
    pub id: String,
    pub title: String,
    pub description: Option<String>,
    pub is_completed: bool,
    pub priority: i32,
    pub due_date: Option<Millis>,
    pub remind_at: Option<Millis>,
    pub created_at: Millis,
    pub updated_at: Millis,
    /// Owning reference: deleting the project deletes its tasks.
    pub project_id: Option<String>,
    /// Owning reference: deleting a task deletes its descendants.
    pub parent_id: Option<String>,
    /// Advisory sort key, unique per sibling scope at creation time only;
    /// direct reassignment may introduce collisions or gaps.
    pub position: i64,
}

#[derive(Debug)]
pub struct Project {
    pub id: String,
    pub name: String,
    pub description: Option<String>,
    pub color: String,
    pub is_archived: bool,
    pub created_at: Millis,
    pub updated_at: Millis,
}

#[derive(Debug)]
pub struct Tag {
    pub id: String,
    /// Globally unique among tags.
    pub name: String,
    pub color: String,
    pub created_at: Millis,
}

#[derive(Debug)]
pub struct PomodoroSession {
    pub id: String,
    /// Soft reference to a `Task`; may dangle after the task is deleted.
    pub task_id: Option<String>,
    pub duration_minutes: i32,
    pub is_completed: bool,
    pub started_at: Millis,
    /// Set when `is_completed` becomes true; completing again re-stamps it
    /// (last write wins).
    pub completed_at: Option<Millis>,
    pub created_at: Millis,
}

/// Association row linking a note to a tag; the pair is a composite key.
#[derive(Debug)]
pub struct NoteTag {
    pub note_id: String,
    pub tag_id: String,
}

#[derive(Debug)]
pub struct KanbanColumn {
    pub id: String,
    pub project_id: String,
    pub name: String,
    pub position: i64,
}

/// Association row linking a task to a kanban column.
#[derive(Debug)]
pub struct ColumnTask {
    pub task_id: String,
    pub column_id: String,
    pub position: i64,
}

/// Failures surfaced by store operations.
///
/// `NotFound` is reported whenever an update or completion names an absent
/// row, even though the storage engine would silently report zero affected
/// rows; this is the one policy chosen here and applied to every entity.
/// Connection-acquisition and row-mapping failures belong to the
/// persistence layer around the store and have no variant here.
#[derive(Debug)]
pub enum StoreError {
    /// The identifier names no row.
    NotFound,
    /// A creation was handed an identifier that is already a row's key.
    IdTaken,
    /// A tag creation or rename collides with the unique-name constraint.
    NameTaken,
    /// A task creation names itself as its own parent.
    SelfParent,
    /// A task creation reuses an identifier that an existing task
    /// already names as its parent; admitting it would put a parent
    /// after its child.
    IdReferenced,
    /// An integer aggregate or position does not fit its column type.
    Overflow,
}

impl StoreError {
    /// Flat human-readable message, the only error shape the caller sees.
    pub fn message(&self) -> &'static str {
        match self {
            StoreError::NotFound => "no row matches the given id",
            StoreError::IdTaken => "a row with the given id already exists",
            StoreError::NameTaken => "a tag with the given name already exists",
            StoreError::SelfParent => "a task cannot be its own parent",
            StoreError::IdReferenced => "an existing task references the given id as its parent",
            StoreError::Overflow => "integer value out of range",
        }
    }
}

/// An optional identifier as the value it stands for.
pub open spec fn opt_str_view(o: Option<String>) -> Option<Seq<char>> {
    match o {
        Some(s) => Some(s@),
        None => None,
    }
}

/// Copies an optional string, field for field.
pub fn dup_opt_string(o: &Option<String>) -> (r: Option<String>)
    ensures
        r == *o,
{
    match o {
        Some(s) => Some(s.clone()),
        None => None,
    }
}

/// Copies an optional timestamp.
pub fn dup_opt_millis(o: &Option<Millis>) -> (r: Option<Millis>)
    ensures
        r == *o,
{
    match o {
        Some(t) => Some(*t),
        None => None,
    }
}

impl Note {
    /// An equal record under fresh ownership.
    pub fn duplicate(&self) -> (r: Note)
        ensures
            r == *self,
    {
        Note {
            id: self.id.clone(),
            title: self.title.clone(),
            content: self.content.clone(),
            created_at: self.created_at,
            updated_at: self.updated_at,
            project_id: dup_opt_string(&self.project_id),
        }
    }
}

impl Task {
    /// An equal record under fresh ownership.
    pub fn duplicate(&self) -> (r: Task)
        ensures
            r == *self,
    {
        Task {
            id: self.id.clone(),
            title: self.title.clone(),
            description: dup_opt_string(&self.description),
            is_completed: self.is_completed,
            priority: self.priority,
            due_date: dup_opt_millis(&self.due_date),
            remind_at: dup_opt_millis(&self.remind_at),
            created_at: self.created_at,
            updated_at: self.updated_at,
            project_id: dup_opt_string(&self.project_id),
            parent_id: dup_opt_string(&self.parent_id),
            position: self.position,
        }
    }
}

impl Project {
    /// An equal record under fresh ownership.
    pub fn duplicate(&self) -> (r: Project)
        ensures
            r == *self,
    {
        Project {
            id: self.id.clone(),
            name: self.name.clone(),
            description: dup_opt_string(&self.description),
            color: self.color.clone(),
            is_archived: self.is_archived,
            created_at: self.created_at,
            updated_at: self.updated_at,
        }
    }
}

impl Tag {
    /// An equal record under fresh ownership.
    pub fn duplicate(&self) -> (r: Tag)
        ensures
            r == *self,
    {
        Tag {
            id: self.id.clone(),
            name: self.name.clone(),
            color: self.color.clone(),
            created_at: self.created_at,
        }
    }
}

impl PomodoroSession {
    /// An equal record under fresh ownership.
    pub fn duplicate(&self) -> (r: PomodoroSession)
        ensures
            r == *self,
    {
        PomodoroSession {
            id: self.id.clone(),
            task_id: dup_opt_string(&self.task_id),
            duration_minutes: self.duration_minutes,
            is_completed: self.is_completed,
            started_at: self.started_at,
            completed_at: dup_opt_millis(&self.completed_at),
            created_at: self.created_at,
        }
    }
}

impl NoteTag {
    /// An equal record under fresh ownership.
    pub fn duplicate(&self) -> (r: NoteTag)
        ensures
            r == *self,
    {
        NoteTag { note_id: self.note_id.clone(), tag_id: self.tag_id.clone() }
    }
}

} // verus!
