//! The partial-update builder.
//!
//! A patch carries one optional value per updatable field; absent fields
//! are left untouched. Each entity has two faces of the same update: a
//! patched record (what the store keeps) and a SET clause of
//! column/value assignments (what the persistence layer binds into a
//! parameterized UPDATE). Column names come only from the fixed
//! [`Column`] set, never from caller input, and values travel as bound
//! parameters — the injection-safety invariant, here by construction.

use vstd::prelude::*;

verus! {

use crate::models::{Millis, Note, Task, Project, Tag, dup_opt_string};

#[derive(Clone, Copy, Debug, PartialEq, Eq, Structural)]
pub enum Table {
    Notes,
    Tasks,
    Projects,
    Tags,
    PomodoroSessions,
    NoteTags,
}

/// The fixed, code-controlled set of updatable columns.
#[derive(Clone, Copy, Debug, PartialEq, Eq, Structural)]
pub enum Column {
    Title,
    Content,
    Description,
    Name,
    Color,
    ProjectId,
    IsCompleted,
    IsArchived,
    Priority,
    DueDate,
    Position,
    UpdatedAt,
    CompletedAt,
}

/// A value bound into a statement placeholder. Booleans are stored as
/// 0/1 integers and timestamps as integers; the conversions happen here,
/// before binding, never in SQL text.
pub enum SqlValue {
    Text(String),
    Int(i64),
    Null,
}

/// One `column = ?` element of a SET clause, with the value to bind.
pub struct Assignment {
    pub column: Column,
    pub value: SqlValue,
}

impl SqlValue {
    /// An equal value under fresh ownership.
    pub fn duplicate(&self) -> (r: SqlValue)
        ensures
            r == *self,
    {
        match self {
            SqlValue::Text(s) => SqlValue::Text(s.clone()),
            SqlValue::Int(n) => SqlValue::Int(*n),
            SqlValue::Null => SqlValue::Null,
        }
    }

    /// An optional string as a bound value: text when present, else NULL.
    pub fn from_opt_text(o: &Option<String>) -> (r: SqlValue)
        ensures
            r == match *o {
                Some(s) => SqlValue::Text(s),
                None => SqlValue::Null,
            },
    {
        match o {
            Some(s) => SqlValue::Text(s.clone()),
            None => SqlValue::Null,
        }
    }

    /// An optional timestamp as a bound value.
    pub fn from_opt_int(o: &Option<Millis>) -> (r: SqlValue)
        ensures
            r == match *o {
                Some(n) => SqlValue::Int(n),
                None => SqlValue::Null,
            },
    {
        match o {
            Some(n) => SqlValue::Int(*n),
            None => SqlValue::Null,
        }
    }

    /// A boolean as the 0/1 integer the storage engine keeps.
    pub fn from_bool(b: bool) -> (r: SqlValue)
        ensures
            r == SqlValue::Int(if b { 1 as i64 } else { 0 as i64 }),
    {
        SqlValue::Int(if b { 1 } else { 0 })
    }
}

/// The SQL name of a column. Only these fixed names ever reach
/// statement text; caller-supplied strings travel as bound values.
pub open spec fn spec_column_sql(c: Column) -> Seq<char> {
    match c {
        Column::Title => "title"@,
        Column::Content => "content"@,
        Column::Description => "description"@,
        Column::Name => "name"@,
        Column::Color => "color"@,
        Column::ProjectId => "project_id"@,
        Column::IsCompleted => "is_completed"@,
        Column::IsArchived => "is_archived"@,
        Column::Priority => "priority"@,
        Column::DueDate => "due_date"@,
        Column::Position => "position"@,
        Column::UpdatedAt => "updated_at"@,
        Column::CompletedAt => "completed_at"@,
    }
}

pub fn column_sql(c: Column) -> (r: &'static str)
    ensures
        r@ == spec_column_sql(c),
{
    match c {
        Column::Title => "title",
        Column::Content => "content",
        Column::Description => "description",
        Column::Name => "name",
        Column::Color => "color",
        Column::ProjectId => "project_id",
        Column::IsCompleted => "is_completed",
        Column::IsArchived => "is_archived",
        Column::Priority => "priority",
        Column::DueDate => "due_date",
        Column::Position => "position",
        Column::UpdatedAt => "updated_at",
        Column::CompletedAt => "completed_at",
    }
}

/// The SQL name of a table; fixed for the same reason.
pub open spec fn spec_table_sql(t: Table) -> Seq<char> {
    match t {
        Table::Notes => "notes"@,
        Table::Tasks => "tasks"@,
        Table::Projects => "projects"@,
        Table::Tags => "tags"@,
        Table::PomodoroSessions => "pomodoro_sessions"@,
        Table::NoteTags => "note_tags"@,
    }
}

pub fn table_sql(t: Table) -> (r: &'static str)
    ensures
        r@ == spec_table_sql(t),
{
    match t {
        Table::Notes => "notes",
        Table::Tasks => "tasks",
        Table::Projects => "projects",
        Table::Tags => "tags",
        Table::PomodoroSessions => "pomodoro_sessions",
        Table::NoteTags => "note_tags",
    }
}

// ---- patches -----------------------------------------------------------

pub struct NotePatch {
    pub title: Option<String>,
    pub content: Option<String>,
    /// Present means re-point the note; there is no clearing to NULL.
    pub project_id: Option<String>,
}

pub struct TaskPatch {
    pub title: Option<String>,
    pub description: Option<String>,
    pub is_completed: Option<bool>,
    pub priority: Option<i32>,
    /// Present means set the due date, to a timestamp or to none at all.
    pub due_date: Option<Option<Millis>>,
    pub project_id: Option<String>,
}

pub struct ProjectPatch {
    pub name: Option<String>,
    pub description: Option<String>,
    pub color: Option<String>,
    pub is_archived: Option<bool>,
}

pub struct TagPatch {
    pub name: Option<String>,
    pub color: Option<String>,
}

impl NotePatch {
    pub fn duplicate(&self) -> (r: NotePatch)
        ensures
            r == *self,
    {
        NotePatch {
            title: dup_opt_string(&self.title),
            content: dup_opt_string(&self.content),
            project_id: dup_opt_string(&self.project_id),
        }
    }
}

impl TaskPatch {
    pub fn duplicate(&self) -> (r: TaskPatch)
        ensures
            r == *self,
    {
        TaskPatch {
            title: dup_opt_string(&self.title),
            description: dup_opt_string(&self.description),
            is_completed: self.is_completed,
            priority: self.priority,
            due_date: self.due_date,
            project_id: dup_opt_string(&self.project_id),
        }
    }
}

impl ProjectPatch {
    pub fn duplicate(&self) -> (r: ProjectPatch)
        ensures
            r == *self,
    {
        ProjectPatch {
            name: dup_opt_string(&self.name),
            description: dup_opt_string(&self.description),
            color: dup_opt_string(&self.color),
            is_archived: self.is_archived,
        }
    }
}

impl TagPatch {
    pub fn duplicate(&self) -> (r: TagPatch)
        ensures
            r == *self,
    {
        TagPatch { name: dup_opt_string(&self.name), color: dup_opt_string(&self.color) }
    }
}

// ---- the patched record ------------------------------------------------

/// The note after a partial update: supplied fields take their new
/// values, the modification timestamp is always refreshed, everything
/// else is untouched.
pub open spec fn note_patched(n: Note, p: NotePatch, now: Millis) -> Note {
    Note {
        id: n.id,
        title: if p.title is Some { p.title->0 } else { n.title },
        content: if p.content is Some { p.content->0 } else { n.content },
        created_at: n.created_at,
        updated_at: now,
        project_id: if p.project_id is Some { Some(p.project_id->0) } else { n.project_id },
    }
}

pub open spec fn task_patched(t: Task, p: TaskPatch, now: Millis) -> Task {
    Task {
        id: t.id,
        title: if p.title is Some { p.title->0 } else { t.title },
        description: if p.description is Some { Some(p.description->0) } else { t.description },
        is_completed: if p.is_completed is Some { p.is_completed->0 } else { t.is_completed },
        priority: if p.priority is Some { p.priority->0 } else { t.priority },
        due_date: if p.due_date is Some { p.due_date->0 } else { t.due_date },
        remind_at: t.remind_at,
        created_at: t.created_at,
        updated_at: now,
        project_id: if p.project_id is Some { Some(p.project_id->0) } else { t.project_id },
        parent_id: t.parent_id,
        position: t.position,
    }
}

pub open spec fn project_patched(pr: Project, p: ProjectPatch, now: Millis) -> Project {
    Project {
        id: pr.id,
        name: if p.name is Some { p.name->0 } else { pr.name },
        description: if p.description is Some { Some(p.description->0) } else { pr.description },
        color: if p.color is Some { p.color->0 } else { pr.color },
        is_archived: if p.is_archived is Some { p.is_archived->0 } else { pr.is_archived },
        created_at: pr.created_at,
        updated_at: now,
    }
}

/// A tag has no modification timestamp, so an empty patch leaves it
/// byte-identical.
pub open spec fn tag_patched(t: Tag, p: TagPatch) -> Tag {
    Tag {
        id: t.id,
        name: if p.name is Some { p.name->0 } else { t.name },
        color: if p.color is Some { p.color->0 } else { t.color },
        created_at: t.created_at,
    }
}

pub fn apply_note_patch(n: &Note, p: NotePatch, now: Millis) -> (r: Note)
    ensures
        r == note_patched(*n, p, now),
{
    Note {
        id: n.id.clone(),
        title: match p.title {
            Some(t) => t,
            None => n.title.clone(),
        },
        content: match p.content {
            Some(c) => c,
            None => n.content.clone(),
        },
        created_at: n.created_at,
        updated_at: now,
        project_id: match p.project_id {
            Some(pid) => Some(pid),
            None => dup_opt_string(&n.project_id),
        },
    }
}

pub fn apply_task_patch(t: &Task, p: TaskPatch, now: Millis) -> (r: Task)
    ensures
        r == task_patched(*t, p, now),
{
    Task {
        id: t.id.clone(),
        title: match p.title {
            Some(x) => x,
            None => t.title.clone(),
        },
        description: match p.description {
            Some(x) => Some(x),
            None => dup_opt_string(&t.description),
        },
        is_completed: match p.is_completed {
            Some(x) => x,
            None => t.is_completed,
        },
        priority: match p.priority {
            Some(x) => x,
            None => t.priority,
        },
        due_date: match p.due_date {
            Some(x) => x,
            None => t.due_date,
        },
        remind_at: t.remind_at,
        created_at: t.created_at,
        updated_at: now,
        project_id: match p.project_id {
            Some(x) => Some(x),
            None => dup_opt_string(&t.project_id),
        },
        parent_id: dup_opt_string(&t.parent_id),
        position: t.position,
    }
}

pub fn apply_project_patch(pr: &Project, p: ProjectPatch, now: Millis) -> (r: Project)
    ensures
        r == project_patched(*pr, p, now),
{
    Project {
        id: pr.id.clone(),
        name: match p.name {
            Some(x) => x,
            None => pr.name.clone(),
        },
        description: match p.description {
            Some(x) => Some(x),
            None => dup_opt_string(&pr.description),
        },
        color: match p.color {
            Some(x) => x,
            None => pr.color.clone(),
        },
        is_archived: match p.is_archived {
            Some(x) => x,
            None => pr.is_archived,
        },
        created_at: pr.created_at,
        updated_at: now,
    }
}

pub fn apply_tag_patch(t: &Tag, p: TagPatch) -> (r: Tag)
    ensures
        r == tag_patched(*t, p),
{
    Tag {
        id: t.id.clone(),
        name: match p.name {
            Some(x) => x,
            None => t.name.clone(),
        },
        color: match p.color {
            Some(x) => x,
            None => t.color.clone(),
        },
        created_at: t.created_at,
    }
}

// ---- the SET clause ----------------------------------------------------

/// The assignments a note patch binds, in the fixed field order, with
/// the modification timestamp always appended last.
pub open spec fn note_set_clause(p: NotePatch, now: Millis) -> Seq<Assignment> {
    let s = Seq::<Assignment>::empty();
    let s = if p.title is Some {
        s.push(Assignment { column: Column::Title, value: SqlValue::Text(p.title->0) })
    } else {
        s
    };
    let s = if p.content is Some {
        s.push(Assignment { column: Column::Content, value: SqlValue::Text(p.content->0) })
    } else {
        s
    };
    let s = if p.project_id is Some {
        s.push(Assignment { column: Column::ProjectId, value: SqlValue::Text(p.project_id->0) })
    } else {
        s
    };
    s.push(Assignment { column: Column::UpdatedAt, value: SqlValue::Int(now) })
}

pub open spec fn task_set_clause(p: TaskPatch, now: Millis) -> Seq<Assignment> {
    let s = Seq::<Assignment>::empty();
    let s = if p.title is Some {
        s.push(Assignment { column: Column::Title, value: SqlValue::Text(p.title->0) })
    } else {
        s
    };
    let s = if p.description is Some {
        s.push(Assignment { column: Column::Description, value: SqlValue::Text(p.description->0) })
    } else {
        s
    };
    let s = if p.is_completed is Some {
        s.push(
            Assignment {
                column: Column::IsCompleted,
                value: SqlValue::Int(if p.is_completed->0 { 1 as i64 } else { 0 as i64 }),
            },
        )
    } else {
        s
    };
    let s = if p.priority is Some {
        s.push(Assignment { column: Column::Priority, value: SqlValue::Int(p.priority->0 as i64) })
    } else {
        s
    };
    let s = if p.due_date is Some {
        s.push(
            Assignment {
                column: Column::DueDate,
                value: match p.due_date->0 {
                    Some(d) => SqlValue::Int(d),
                    None => SqlValue::Null,
                },
            },
        )
    } else {
        s
    };
    let s = if p.project_id is Some {
        s.push(Assignment { column: Column::ProjectId, value: SqlValue::Text(p.project_id->0) })
    } else {
        s
    };
    s.push(Assignment { column: Column::UpdatedAt, value: SqlValue::Int(now) })
}

pub open spec fn project_set_clause(p: ProjectPatch, now: Millis) -> Seq<Assignment> {
    let s = Seq::<Assignment>::empty();
    let s = if p.name is Some {
        s.push(Assignment { column: Column::Name, value: SqlValue::Text(p.name->0) })
    } else {
        s
    };
    let s = if p.description is Some {
        s.push(Assignment { column: Column::Description, value: SqlValue::Text(p.description->0) })
    } else {
        s
    };
    let s = if p.color is Some {
        s.push(Assignment { column: Column::Color, value: SqlValue::Text(p.color->0) })
    } else {
        s
    };
    let s = if p.is_archived is Some {
        s.push(
            Assignment {
                column: Column::IsArchived,
                value: SqlValue::Int(if p.is_archived->0 { 1 as i64 } else { 0 as i64 }),
            },
        )
    } else {
        s
    };
    s.push(Assignment { column: Column::UpdatedAt, value: SqlValue::Int(now) })
}

/// A tag patch binds only what is present; with nothing present the
/// clause is empty and the whole update is a no-op.
pub open spec fn tag_set_clause(p: TagPatch) -> Seq<Assignment> {
    let s = Seq::<Assignment>::empty();
    let s = if p.name is Some {
        s.push(Assignment { column: Column::Name, value: SqlValue::Text(p.name->0) })
    } else {
        s
    };
    if p.color is Some {
        s.push(Assignment { column: Column::Color, value: SqlValue::Text(p.color->0) })
    } else {
        s
    }
}

pub fn build_note_set_clause(p: NotePatch, now: Millis) -> (r: Vec<Assignment>)
    ensures
        r@ == note_set_clause(p, now),
{
    let mut r: Vec<Assignment> = Vec::new();
    match p.title {
        Some(t) => r.push(Assignment { column: Column::Title, value: SqlValue::Text(t) }),
        None => (),
    }
    match p.content {
        Some(c) => r.push(Assignment { column: Column::Content, value: SqlValue::Text(c) }),
        None => (),
    }
    match p.project_id {
        Some(pid) => r.push(Assignment { column: Column::ProjectId, value: SqlValue::Text(pid) }),
        None => (),
    }
    r.push(Assignment { column: Column::UpdatedAt, value: SqlValue::Int(now) });
    r
}

pub fn build_task_set_clause(p: TaskPatch, now: Millis) -> (r: Vec<Assignment>)
    ensures
        r@ == task_set_clause(p, now),
{
    let mut r: Vec<Assignment> = Vec::new();
    match p.title {
        Some(t) => r.push(Assignment { column: Column::Title, value: SqlValue::Text(t) }),
        None => (),
    }
    match p.description {
        Some(d) => r.push(Assignment { column: Column::Description, value: SqlValue::Text(d) }),
        None => (),
    }
    match p.is_completed {
        Some(b) => r.push(Assignment { column: Column::IsCompleted, value: SqlValue::from_bool(b) }),
        None => (),
    }
    match p.priority {
        Some(n) => r.push(Assignment { column: Column::Priority, value: SqlValue::Int(n as i64) }),
        None => (),
    }
    match p.due_date {
        Some(d) => r.push(Assignment { column: Column::DueDate, value: SqlValue::from_opt_int(&d) }),
        None => (),
    }
    match p.project_id {
        Some(pid) => r.push(Assignment { column: Column::ProjectId, value: SqlValue::Text(pid) }),
        None => (),
    }
    r.push(Assignment { column: Column::UpdatedAt, value: SqlValue::Int(now) });
    r
}

pub fn build_project_set_clause(p: ProjectPatch, now: Millis) -> (r: Vec<Assignment>)
    ensures
        r@ == project_set_clause(p, now),
{
    let mut r: Vec<Assignment> = Vec::new();
    match p.name {
        Some(n) => r.push(Assignment { column: Column::Name, value: SqlValue::Text(n) }),
        None => (),
    }
    match p.description {
        Some(d) => r.push(Assignment { column: Column::Description, value: SqlValue::Text(d) }),
        None => (),
    }
    match p.color {
        Some(c) => r.push(Assignment { column: Column::Color, value: SqlValue::Text(c) }),
        None => (),
    }
    match p.is_archived {
        Some(b) => r.push(Assignment { column: Column::IsArchived, value: SqlValue::from_bool(b) }),
        None => (),
    }
    r.push(Assignment { column: Column::UpdatedAt, value: SqlValue::Int(now) });
    r
}

pub fn build_tag_set_clause(p: TagPatch) -> (r: Vec<Assignment>)
    ensures
        r@ == tag_set_clause(p),
{
    let mut r: Vec<Assignment> = Vec::new();
    match p.name {
        Some(n) => r.push(Assignment { column: Column::Name, value: SqlValue::Text(n) }),
        None => (),
    }
    match p.color {
        Some(c) => r.push(Assignment { column: Column::Color, value: SqlValue::Text(c) }),
        None => (),
    }
    r
}

/// The SET clause of a direct position reassignment.
pub fn build_position_set_clause(new_position: i64, now: Millis) -> (r: Vec<Assignment>)
    ensures
        r@ == seq![
            Assignment { column: Column::Position, value: SqlValue::Int(new_position) },
            Assignment { column: Column::UpdatedAt, value: SqlValue::Int(now) },
        ],
{
    let mut r: Vec<Assignment> = Vec::new();
    r.push(Assignment { column: Column::Position, value: SqlValue::Int(new_position) });
    r.push(Assignment { column: Column::UpdatedAt, value: SqlValue::Int(now) });
    r
}

/// The SET clause of a session completion: the flag goes to 1 and the
/// completion instant is (re-)stamped.
pub fn build_completion_set_clause(now: Millis) -> (r: Vec<Assignment>)
    ensures
        r@ == seq![
            Assignment { column: Column::IsCompleted, value: SqlValue::Int(1 as i64) },
            Assignment { column: Column::CompletedAt, value: SqlValue::Int(now) },
        ],
{
    let mut r: Vec<Assignment> = Vec::new();
    r.push(Assignment { column: Column::IsCompleted, value: SqlValue::Int(1) });
    r.push(Assignment { column: Column::CompletedAt, value: SqlValue::Int(now) });
    r
}

/// The parameters to bind, in the exact order the clause appended them,
/// with the key row's identifier last for the `WHERE id = ?` test.
pub fn clause_params(clause: &Vec<Assignment>, key: &String) -> (r: Vec<SqlValue>)
    ensures
        r@ == clause@.map_values(|a: Assignment| a.value).push(SqlValue::Text(*key)),
{
    let mut r: Vec<SqlValue> = Vec::new();
    let mut i: usize = 0;
    while i < clause.len()
        invariant
            i <= clause@.len(),
            r@ == clause@.subrange(0, i as int).map_values(|a: Assignment| a.value),
        decreases clause@.len() - i,
    {
        r.push(clause[i].value.duplicate());
        proof {
            assert(clause@.subrange(0, i + 1 as int) =~= clause@.subrange(0, i as int).push(
                clause@[i as int],
            ));
            assert(clause@.subrange(0, i + 1 as int).map_values(|a: Assignment| a.value)
                =~= clause@.subrange(0, i as int).map_values(|a: Assignment| a.value).push(
                clause@[i as int].value,
            ));
        }
        i += 1;
    }
    proof {
        assert(clause@.subrange(0, clause@.len() as int) =~= clause@);
    }
    r.push(SqlValue::Text(key.clone()));
    r
}

// ---- row parameters for insertion --------------------------------------

/// The values a fresh note binds, in the fixed column order
/// (id, title, content, created_at, updated_at, project_id).
pub fn note_insert_params(n: &Note) -> (r: Vec<SqlValue>)
    ensures
        r@ == seq![
            SqlValue::Text(n.id),
            SqlValue::Text(n.title),
            SqlValue::Text(n.content),
            SqlValue::Int(n.created_at),
            SqlValue::Int(n.updated_at),
            match n.project_id {
                Some(p) => SqlValue::Text(p),
                None => SqlValue::Null,
            },
        ],
{
    let mut r: Vec<SqlValue> = Vec::new();
    r.push(SqlValue::Text(n.id.clone()));
    r.push(SqlValue::Text(n.title.clone()));
    r.push(SqlValue::Text(n.content.clone()));
    r.push(SqlValue::Int(n.created_at));
    r.push(SqlValue::Int(n.updated_at));
    r.push(SqlValue::from_opt_text(&n.project_id));
    r
}

/// The values a fresh task binds, in the fixed column order
/// (id, title, description, is_completed, priority, due_date, remind_at,
/// created_at, updated_at, project_id, parent_id, position).
pub fn task_insert_params(t: &Task) -> (r: Vec<SqlValue>)
    ensures
        r@ == seq![
            SqlValue::Text(t.id),
            SqlValue::Text(t.title),
            match t.description {
                Some(d) => SqlValue::Text(d),
                None => SqlValue::Null,
            },
            SqlValue::Int(if t.is_completed { 1 as i64 } else { 0 as i64 }),
            SqlValue::Int(t.priority as i64),
            match t.due_date {
                Some(d) => SqlValue::Int(d),
                None => SqlValue::Null,
            },
            match t.remind_at {
                Some(d) => SqlValue::Int(d),
                None => SqlValue::Null,
            },
            SqlValue::Int(t.created_at),
            SqlValue::Int(t.updated_at),
            match t.project_id {
                Some(p) => SqlValue::Text(p),
                None => SqlValue::Null,
            },
            match t.parent_id {
                Some(p) => SqlValue::Text(p),
                None => SqlValue::Null,
            },
            SqlValue::Int(t.position),
        ],
{
    let mut r: Vec<SqlValue> = Vec::new();
    r.push(SqlValue::Text(t.id.clone()));
    r.push(SqlValue::Text(t.title.clone()));
    r.push(SqlValue::from_opt_text(&t.description));
    r.push(SqlValue::from_bool(t.is_completed));
    r.push(SqlValue::Int(t.priority as i64));
    r.push(SqlValue::from_opt_int(&t.due_date));
    r.push(SqlValue::from_opt_int(&t.remind_at));
    r.push(SqlValue::Int(t.created_at));
    r.push(SqlValue::Int(t.updated_at));
    r.push(SqlValue::from_opt_text(&t.project_id));
    r.push(SqlValue::from_opt_text(&t.parent_id));
    r.push(SqlValue::Int(t.position));
    r
}

/// The values a fresh project binds, in the fixed column order
/// (id, name, description, color, is_archived, created_at, updated_at).
pub fn project_insert_params(p: &Project) -> (r: Vec<SqlValue>)
    ensures
        r@ == seq![
            SqlValue::Text(p.id),
            SqlValue::Text(p.name),
            match p.description {
                Some(d) => SqlValue::Text(d),
                None => SqlValue::Null,
            },
            SqlValue::Text(p.color),
            SqlValue::Int(if p.is_archived { 1 as i64 } else { 0 as i64 }),
            SqlValue::Int(p.created_at),
            SqlValue::Int(p.updated_at),
        ],
{
    let mut r: Vec<SqlValue> = Vec::new();
    r.push(SqlValue::Text(p.id.clone()));
    r.push(SqlValue::Text(p.name.clone()));
    r.push(SqlValue::from_opt_text(&p.description));
    r.push(SqlValue::Text(p.color.clone()));
    r.push(SqlValue::from_bool(p.is_archived));
    r.push(SqlValue::Int(p.created_at));
    r.push(SqlValue::Int(p.updated_at));
    r
}

/// The values a fresh tag binds, in the fixed column order
/// (id, name, color, created_at).
pub fn tag_insert_params(t: &crate::models::Tag) -> (r: Vec<SqlValue>)
    ensures
        r@ == seq![
            SqlValue::Text(t.id),
            SqlValue::Text(t.name),
            SqlValue::Text(t.color),
            SqlValue::Int(t.created_at),
        ],
{
    let mut r: Vec<SqlValue> = Vec::new();
    r.push(SqlValue::Text(t.id.clone()));
    r.push(SqlValue::Text(t.name.clone()));
    r.push(SqlValue::Text(t.color.clone()));
    r.push(SqlValue::Int(t.created_at));
    r
}

/// The values a fresh session binds, in the fixed column order
/// (id, task_id, duration_minutes, is_completed, started_at,
/// completed_at, created_at).
pub fn session_insert_params(s: &crate::models::PomodoroSession) -> (r: Vec<SqlValue>)
    ensures
        r@ == seq![
            SqlValue::Text(s.id),
            match s.task_id {
                Some(t) => SqlValue::Text(t),
                None => SqlValue::Null,
            },
            SqlValue::Int(s.duration_minutes as i64),
            SqlValue::Int(if s.is_completed { 1 as i64 } else { 0 as i64 }),
            SqlValue::Int(s.started_at),
            match s.completed_at {
                Some(t) => SqlValue::Int(t),
                None => SqlValue::Null,
            },
            SqlValue::Int(s.created_at),
        ],
{
    let mut r: Vec<SqlValue> = Vec::new();
    r.push(SqlValue::Text(s.id.clone()));
    r.push(SqlValue::from_opt_text(&s.task_id));
    r.push(SqlValue::Int(s.duration_minutes as i64));
    r.push(SqlValue::from_bool(s.is_completed));
    r.push(SqlValue::Int(s.started_at));
    r.push(SqlValue::from_opt_int(&s.completed_at));
    r.push(SqlValue::Int(s.created_at));
    r
}

} // verus!
