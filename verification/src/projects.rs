//! The project repository: listing, lookup, creation with a default
//! color, partial update, archiving, aggregate statistics, and deletion
//! with its task cascade.

use vstd::prelude::*;

verus! {

use crate::models::{Millis, Project, Task, StoreError};
use crate::store::{
    Store, has_project, project_idx, project_at, projects_wf, tasks_wf, parent_of, project_of,
    lemma_project_idx_unique,
};
use crate::order::{projects_sorted, insert_project_sorted};
use crate::patch::{ProjectPatch, project_patched, apply_project_patch};
use crate::tasks::{tasks_of_project, tasks_without_project};
use crate::sys::{fresh_id, now_millis};

/// The color a project receives when none is supplied.
pub open spec fn default_project_color() -> Seq<char> {
    "#3B82F6"@
}

/// The project table without the row bearing the identifier.
pub open spec fn projects_without(s: Seq<Project>, id: Seq<char>) -> Seq<Project>
    decreases s.len(),
{
    if s.len() == 0 {
        Seq::empty()
    } else {
        let rest = projects_without(s.drop_last(), id);
        if s.last().id@ != id {
            rest.push(s.last())
        } else {
            rest
        }
    }
}

/// How many tasks of the sequence are completed.
pub open spec fn count_completed(s: Seq<Task>) -> int
    decreases s.len(),
{
    if s.len() == 0 {
        0
    } else {
        count_completed(s.drop_last()) + if s.last().is_completed {
            1int
        } else {
            0int
        }
    }
}

/// Aggregate task counts for one project.
pub struct ProjectStats {
    pub total_tasks: usize,
    pub completed_tasks: usize,
    pub pending_tasks: usize,
}

impl Store {
    /// Every project, most recently created first.
    pub fn get_all_projects(&self) -> (r: Vec<Project>)
        ensures
            projects_sorted(r@),
            r@.to_multiset() == self.projects@.to_multiset(),
    {
        let mut out: Vec<Project> = Vec::new();
        let mut i: usize = 0;
        proof {
            assert(out@ =~= self.projects@.subrange(0, 0));
        }
        while i < self.projects.len()
            invariant
                i <= self.projects@.len(),
                projects_sorted(out@),
                out@.to_multiset() == self.projects@.subrange(0, i as int).to_multiset(),
            decreases self.projects@.len() - i,
        {
            let p = self.projects[i].duplicate();
            insert_project_sorted(&mut out, p);
            proof {
                broadcast use vstd::seq_lib::group_to_multiset_ensures;

                assert(self.projects@.subrange(0, i as int + 1) =~= self.projects@.subrange(
                    0,
                    i as int,
                ).push(self.projects@[i as int]));
            }
            i += 1;
        }
        proof {
            assert(self.projects@.subrange(0, self.projects@.len() as int) =~= self.projects@);
        }
        out
    }

    /// The project bearing the identifier, or nothing.
    pub fn get_project_by_id(&self, id: String) -> (r: Option<Project>)
        requires
            self.wf(),
        ensures
            match r {
                Some(p) => has_project(self.projects@, id@) && p == project_at(
                    self.projects@,
                    id@,
                ),
                None => !has_project(self.projects@, id@),
            },
    {
        match self.find_project(&id) {
            Some(i) => {
                proof {
                    lemma_project_idx_unique(self.projects@, id@, i as int);
                }
                Some(self.projects[i].duplicate())
            },
            None => None,
        }
    }

    /// Appends a project under the given identifier and clock instant,
    /// unarchived, with both creation stamps the same instant.
    pub fn create_project_at(
        &mut self,
        id: String,
        now: Millis,
        name: String,
        description: Option<String>,
        color: String,
    ) -> (r: Result<Project, StoreError>)
        requires
            old(self).wf(),
        ensures
            final(self).wf(),
            old(self).agrees_outside_projects(*final(self)),
            match r {
                Ok(p) => {
                    &&& !has_project(old(self).projects@, id@)
                    &&& p == (Project {
                        id: id,
                        name: name,
                        description: description,
                        color: color,
                        is_archived: false,
                        created_at: now,
                        updated_at: now,
                    })
                    &&& final(self).projects@ == old(self).projects@.push(p)
                },
                Err(e) => {
                    &&& e is IdTaken
                    &&& has_project(old(self).projects@, id@)
                    &&& *final(self) == *old(self)
                },
            },
    {
        match self.find_project(&id) {
            Some(_) => Err(StoreError::IdTaken),
            None => {
                let p = Project {
                    id,
                    name,
                    description,
                    color,
                    is_archived: false,
                    created_at: now,
                    updated_at: now,
                };
                let copy = p.duplicate();
                self.projects.push(p);
                Ok(copy)
            },
        }
    }

    /// Creates a project under a fresh identifier at the current
    /// instant; a missing color falls back to the fixed default.
    pub fn create_project(
        &mut self,
        name: String,
        description: Option<String>,
        color: Option<String>,
    ) -> (r: Result<Project, StoreError>)
        requires
            old(self).wf(),
        ensures
            final(self).wf(),
            old(self).agrees_outside_projects(*final(self)),
            match r {
                Ok(p) => {
                    &&& p.name == name
                    &&& p.description == description
                    &&& p.color@ == (if color is Some {
                        (color->0)@
                    } else {
                        default_project_color()
                    })
                    &&& p.is_archived == false
                    &&& p.created_at == p.updated_at
                    &&& p.id@.len() == 36
                    &&& !has_project(old(self).projects@, p.id@)
                    &&& final(self).projects@ == old(self).projects@.push(p)
                },
                Err(e) => {
                    &&& e is IdTaken
                    &&& *final(self) == *old(self)
                    &&& old(self).projects@.len() > 0
                },
            },
    {
        let id = fresh_id();
        let now = now_millis();
        let color = match color {
            Some(c) => c,
            None => "#3B82F6".to_owned(),
        };
        self.create_project_at(id, now, name, description, color)
    }

    /// Rewrites the row bearing the identifier to its patched value; a
    /// missing row is `NotFound`.
    pub fn update_project_at(&mut self, id: String, p: ProjectPatch, now: Millis) -> (r: Result<
        (),
        StoreError,
    >)
        requires
            old(self).wf(),
        ensures
            final(self).wf(),
            old(self).agrees_outside_projects(*final(self)),
            match r {
                Ok(()) => {
                    &&& has_project(old(self).projects@, id@)
                    &&& final(self).projects@ == old(self).projects@.update(
                        project_idx(old(self).projects@, id@),
                        project_patched(project_at(old(self).projects@, id@), p, now),
                    )
                },
                Err(e) => {
                    &&& e is NotFound
                    &&& !has_project(old(self).projects@, id@)
                    &&& *final(self) == *old(self)
                },
            },
    {
        match self.find_project(&id) {
            None => Err(StoreError::NotFound),
            Some(i) => {
                proof {
                    lemma_project_idx_unique(self.projects@, id@, i as int);
                }
                let updated = apply_project_patch(&self.projects[i], p, now);
                self.projects[i] = updated;
                proof {
                    let s0 = old(self).projects@;
                    let s1 = self.projects@;
                    assert forall|a: int, b: int| 0 <= a < b < s1.len() implies s1[a].id@
                        != s1[b].id@ by {
                        assert(s1[a].id == s0[a].id && s1[b].id == s0[b].id);
                    }
                }
                Ok(())
            },
        }
    }

    /// Applies a partial update at the current instant: only supplied
    /// fields and the modification stamp change.
    pub fn update_project(
        &mut self,
        id: String,
        name: Option<String>,
        description: Option<String>,
        color: Option<String>,
        is_archived: Option<bool>,
    ) -> (r: Result<(), StoreError>)
        requires
            old(self).wf(),
        ensures
            final(self).wf(),
            old(self).agrees_outside_projects(*final(self)),
            match r {
                Ok(()) => {
                    &&& has_project(old(self).projects@, id@)
                    &&& {
                        let i = project_idx(old(self).projects@, id@);
                        final(self).projects@ == old(self).projects@.update(
                            i,
                            project_patched(
                                old(self).projects@[i],
                                ProjectPatch {
                                    name: name,
                                    description: description,
                                    color: color,
                                    is_archived: is_archived,
                                },
                                final(self).projects@[i].updated_at,
                            ),
                        )
                    }
                },
                Err(e) => {
                    &&& e is NotFound
                    &&& !has_project(old(self).projects@, id@)
                    &&& *final(self) == *old(self)
                },
            },
    {
        let now = now_millis();
        let r = self.update_project_at(
            id,
            ProjectPatch { name, description, color, is_archived },
            now,
        );
        r
    }

    /// Marks the project archived; its tasks are retained untouched.
    pub fn archive_project(&mut self, id: String) -> (r: Result<(), StoreError>)
        requires
            old(self).wf(),
        ensures
            final(self).wf(),
            old(self).agrees_outside_projects(*final(self)),
            match r {
                Ok(()) => {
                    &&& has_project(old(self).projects@, id@)
                    &&& {
                        let i = project_idx(old(self).projects@, id@);
                        final(self).projects@ == old(self).projects@.update(
                            i,
                            Project {
                                is_archived: true,
                                updated_at: final(self).projects@[i].updated_at,
                                ..old(self).projects@[i]
                            },
                        )
                    }
                },
                Err(e) => {
                    &&& e is NotFound
                    &&& !has_project(old(self).projects@, id@)
                    &&& *final(self) == *old(self)
                },
            },
    {
        let now = now_millis();
        let r = self.update_project_at(
            id,
            ProjectPatch { name: None, description: None, color: None, is_archived: Some(true) },
            now,
        );
        r
    }

    /// Clears the project's archived mark.
    pub fn unarchive_project(&mut self, id: String) -> (r: Result<(), StoreError>)
        requires
            old(self).wf(),
        ensures
            final(self).wf(),
            old(self).agrees_outside_projects(*final(self)),
            match r {
                Ok(()) => {
                    &&& has_project(old(self).projects@, id@)
                    &&& {
                        let i = project_idx(old(self).projects@, id@);
                        final(self).projects@ == old(self).projects@.update(
                            i,
                            Project {
                                is_archived: false,
                                updated_at: final(self).projects@[i].updated_at,
                                ..old(self).projects@[i]
                            },
                        )
                    }
                },
                Err(e) => {
                    &&& e is NotFound
                    &&& !has_project(old(self).projects@, id@)
                    &&& *final(self) == *old(self)
                },
            },
    {
        let now = now_millis();
        let r = self.update_project_at(
            id,
            ProjectPatch { name: None, description: None, color: None, is_archived: Some(false) },
            now,
        );
        r
    }

    /// Removes every task whose project reference names the identifier,
    /// then the project row itself: the ownership cascade. Notes keep
    /// their project reference, which simply dangles: a soft link.
    pub fn delete_project(&mut self, id: String)
        requires
            old(self).wf(),
        ensures
            final(self).wf(),
            old(self).agrees_outside_projects_and_tasks(*final(self)),
            final(self).tasks@ == tasks_without_project(old(self).tasks@, id@),
            final(self).projects@ == projects_without(old(self).projects@, id@),
            !has_project(final(self).projects@, id@),
            tasks_of_project(final(self).tasks@, id@) == Seq::<Task>::empty(),
    {
        let ghost t0 = self.tasks@;
        let mut kept_tasks: Vec<Task> = Vec::new();
        let mut i: usize = 0;
        proof {
            assert(t0.subrange(0, 0) =~= Seq::<Task>::empty());
        }
        while i < self.tasks.len()
            invariant
                i <= t0.len(),
                self.tasks@ == t0,
                kept_tasks@ == tasks_without_project(t0.subrange(0, i as int), id@),
            decreases t0.len() - i,
        {
            proof {
                let pre = t0.subrange(0, i as int);
                let post = t0.subrange(0, i as int + 1);
                assert(post.drop_last() =~= pre);
                assert(post.last() == t0[i as int]);
            }
            let matches_project = match &self.tasks[i].project_id {
                Some(p) => *p == id,
                None => false,
            };
            if !matches_project {
                kept_tasks.push(self.tasks[i].duplicate());
            }
            i += 1;
        }
        proof {
            assert(t0.subrange(0, t0.len() as int) =~= t0);
        }
        self.tasks = kept_tasks;

        let ghost p0 = self.projects@;
        let mut kept_projects: Vec<Project> = Vec::new();
        let mut k: usize = 0;
        proof {
            assert(p0.subrange(0, 0) =~= Seq::<Project>::empty());
        }
        while k < self.projects.len()
            invariant
                k <= p0.len(),
                self.projects@ == p0,
                kept_projects@ == projects_without(p0.subrange(0, k as int), id@),
            decreases p0.len() - k,
        {
            proof {
                let pre = p0.subrange(0, k as int);
                let post = p0.subrange(0, k as int + 1);
                assert(post.drop_last() =~= pre);
                assert(post.last() == p0[k as int]);
            }
            if !(self.projects[k].id == id) {
                kept_projects.push(self.projects[k].duplicate());
            }
            k += 1;
        }
        proof {
            assert(p0.subrange(0, p0.len() as int) =~= p0);
        }
        self.projects = kept_projects;

        proof {
            lemma_tasks_without_project_wf(t0, id@);
            lemma_projects_without_wf(p0, id@);
            assert forall|j: int|
                0 <= j < self.tasks@.len() implies #[trigger] project_of(self.tasks@[j]) != Some(
                id@,
            ) by {
                assert(project_of(tasks_without_project(t0, id@)[j]) != Some(id@));
            }
            lemma_no_project_tasks_left(self.tasks@, id@);
        }
    }

    /// Counts the project's tasks: total, completed, and pending.
    pub fn get_project_stats(&self, id: String) -> (r: ProjectStats)
        ensures
            r.total_tasks == tasks_of_project(self.tasks@, id@).len(),
            r.completed_tasks == count_completed(tasks_of_project(self.tasks@, id@)),
            r.pending_tasks == r.total_tasks - r.completed_tasks,
    {
        let mut total: usize = 0;
        let mut completed: usize = 0;
        let mut i: usize = 0;
        proof {
            assert(tasks_of_project(self.tasks@.subrange(0, 0), id@) =~= Seq::<Task>::empty());
        }
        while i < self.tasks.len()
            invariant
                i <= self.tasks@.len(),
                total == tasks_of_project(self.tasks@.subrange(0, i as int), id@).len(),
                completed == count_completed(
                    tasks_of_project(self.tasks@.subrange(0, i as int), id@),
                ),
                completed <= total <= i,
            decreases self.tasks@.len() - i,
        {
            proof {
                let pre = self.tasks@.subrange(0, i as int);
                let post = self.tasks@.subrange(0, i as int + 1);
                assert(post.drop_last() =~= pre);
                assert(post.last() == self.tasks@[i as int]);
                let cur = tasks_of_project(post, id@);
                if project_of(self.tasks@[i as int]) == Some(id@) {
                    assert(cur == tasks_of_project(pre, id@).push(self.tasks@[i as int]));
                    assert(cur.drop_last() =~= tasks_of_project(pre, id@));
                }
            }
            let matches_project = match &self.tasks[i].project_id {
                Some(p) => *p == id,
                None => false,
            };
            if matches_project {
                total += 1;
                if self.tasks[i].is_completed {
                    completed += 1;
                }
            }
            i += 1;
        }
        proof {
            assert(self.tasks@.subrange(0, self.tasks@.len() as int) =~= self.tasks@);
            lemma_count_completed_bounds(tasks_of_project(self.tasks@, id@));
        }
        ProjectStats {
            total_tasks: total,
            completed_tasks: completed,
            pending_tasks: total - completed,
        }
    }
}

/// Completed tasks never outnumber the tasks.
proof fn lemma_count_completed_bounds(s: Seq<Task>)
    ensures
        0 <= count_completed(s) <= s.len(),
    decreases s.len(),
{
    if s.len() > 0 {
        lemma_count_completed_bounds(s.drop_last());
    }
}

/// Dropping one project's tasks keeps the task table well-formed and
/// keeps only rows of the original table, in their original order.
proof fn lemma_tasks_without_project_wf(s: Seq<Task>, pid: Seq<char>)
    requires
        tasks_wf(s),
    ensures
        tasks_wf(tasks_without_project(s, pid)),
        forall|m: int|
            0 <= m < tasks_without_project(s, pid).len() ==> #[trigger] project_of(
                tasks_without_project(s, pid)[m],
            ) != Some(pid),
        forall|m: int|
            0 <= m < tasks_without_project(s, pid).len() ==> exists|j: int|
                0 <= j < s.len() && #[trigger] tasks_without_project(s, pid)[m] == s[j],
        forall|m1: int, m2: int|
            0 <= m1 < m2 < tasks_without_project(s, pid).len() ==> exists|j1: int, j2: int|
                0 <= j1 < j2 < s.len() && #[trigger] tasks_without_project(s, pid)[m1] == s[j1]
                    && #[trigger] tasks_without_project(s, pid)[m2] == s[j2],
    decreases s.len(),
{
    let out = tasks_without_project(s, pid);
    if s.len() > 0 {
        lemma_tasks_without_project_wf(s.drop_last(), pid);
        let rest = tasks_without_project(s.drop_last(), pid);
        assert forall|m: int| 0 <= m < out.len() implies #[trigger] project_of(out[m]) != Some(
            pid,
        ) by {
            if !(project_of(s.last()) != Some(pid) && m == out.len() - 1) {
                assert(out[m] == rest[m]);
                assert(project_of(rest[m]) != Some(pid));
            }
        }
        assert forall|m: int| 0 <= m < out.len() implies exists|j: int|
            0 <= j < s.len() && #[trigger] out[m] == s[j] by {
            if project_of(s.last()) != Some(pid) && m == out.len() - 1 {
                assert(out[m] == s[s.len() - 1]);
            } else {
                assert(out[m] == rest[m]);
                let j = choose|j: int| 0 <= j < s.drop_last().len() && rest[m] == s.drop_last()[j];
                assert(out[m] == s[j]);
            }
        }
        assert forall|m1: int, m2: int| 0 <= m1 < m2 < out.len() implies exists|j1: int, j2: int|
            0 <= j1 < j2 < s.len() && #[trigger] out[m1] == s[j1] && #[trigger] out[m2]
                == s[j2] by {
            if project_of(s.last()) != Some(pid) && m2 == out.len() - 1 {
                assert(out[m1] == rest[m1]);
                let j1 = choose|j: int| 0 <= j < s.drop_last().len() && rest[m1] == s.drop_last()[j];
                assert(0 <= j1 < s.len() - 1 < s.len() && out[m1] == s[j1] && out[m2] == s[s.len()
                    - 1]);
            } else {
                assert(out[m1] == rest[m1] && out[m2] == rest[m2]);
                let (j1, j2) = choose|j1: int, j2: int|
                    0 <= j1 < j2 < s.drop_last().len() && #[trigger] rest[m1] == s.drop_last()[j1]
                        && #[trigger] rest[m2] == s.drop_last()[j2];
                assert(0 <= j1 < j2 < s.len() && out[m1] == s[j1] && out[m2] == s[j2]);
            }
        }
        assert forall|a: int, b: int| 0 <= a < b < out.len() implies out[a].id@ != out[b].id@ by {
            let (j1, j2) = choose|j1: int, j2: int|
                0 <= j1 < j2 < s.len() && #[trigger] out[a] == s[j1] && #[trigger] out[b] == s[j2];
            assert(s[j1].id@ != s[j2].id@);
        }
        assert forall|a: int, b: int|
            0 <= a < out.len() && 0 <= b < out.len() && parent_of(out[b]) == Some(
                out[a].id@,
            ) implies a < b by {
            if a == b {
                let j = choose|j: int| 0 <= j < s.len() && #[trigger] out[a] == s[j];
                assert(parent_of(s[j]) == Some(s[j].id@));
            } else if b < a {
                let (j1, j2) = choose|j1: int, j2: int|
                    0 <= j1 < j2 < s.len() && #[trigger] out[b] == s[j1] && #[trigger] out[a]
                        == s[j2];
                assert(parent_of(s[j1]) == Some(s[j2].id@));
            }
        }
    }
}

/// Dropping one identifier's row keeps project identifiers pairwise
/// distinct and leaves no row under the dropped identifier.
proof fn lemma_projects_without_wf(s: Seq<Project>, id: Seq<char>)
    requires
        projects_wf(s),
    ensures
        projects_wf(projects_without(s, id)),
        !has_project(projects_without(s, id), id),
    decreases s.len(),
{
    let out = projects_without(s, id);
    if s.len() > 0 {
        lemma_projects_without_wf(s.drop_last(), id);
        let rest = projects_without(s.drop_last(), id);
        assert forall|m: int| 0 <= m < out.len() implies out[m].id@ != id by {
            if s.last().id@ != id && m == out.len() - 1 {
            } else {
                assert(out[m] == rest[m]);
                assert(!has_project(rest, id));
            }
        }
        if s.last().id@ != id {
            assert forall|a: int, b: int| 0 <= a < b < out.len() implies out[a].id@
                != out[b].id@ by {
                if b == out.len() - 1 {
                    assert(out[a] == rest[a]);
                    lemma_projects_without_member(s.drop_last(), id, a);
                    let j = choose|j: int|
                        0 <= j < s.drop_last().len() && rest[a] == s.drop_last()[j];
                    assert(out[a] == s[j]);
                    assert(s[j].id@ != s[s.len() - 1].id@);
                }
            }
        }
    }
}

/// Every row the drop keeps is a row of the original table.
proof fn lemma_projects_without_member(s: Seq<Project>, id: Seq<char>, m: int)
    requires
        0 <= m < projects_without(s, id).len(),
    ensures
        exists|j: int| 0 <= j < s.len() && projects_without(s, id)[m] == s[j],
    decreases s.len(),
{
    if s.len() > 0 {
        let rest = projects_without(s.drop_last(), id);
        if s.last().id@ != id && m == rest.len() {
            assert(projects_without(s, id)[m] == s[s.len() - 1]);
        } else {
            lemma_projects_without_member(s.drop_last(), id, m);
            let j = choose|j: int| 0 <= j < s.drop_last().len() && rest[m] == s.drop_last()[j];
            assert(projects_without(s, id)[m] == s[j]);
        }
    }
}

/// After the cascade, no task of the project remains.
proof fn lemma_no_project_tasks_left(s: Seq<Task>, pid: Seq<char>)
    requires
        forall|j: int| 0 <= j < s.len() ==> #[trigger] project_of(s[j]) != Some(pid),
    ensures
        tasks_of_project(s, pid) == Seq::<Task>::empty(),
    decreases s.len(),
{
    if s.len() > 0 {
        assert forall|j: int|
            0 <= j < s.drop_last().len() implies #[trigger] project_of(s.drop_last()[j]) != Some(
            pid,
        ) by {
            assert(s.drop_last()[j] == s[j]);
        }
        lemma_no_project_tasks_left(s.drop_last(), pid);
    }
}

} // verus!
