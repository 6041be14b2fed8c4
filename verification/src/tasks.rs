//! The task repository: listing, creation with scoped positioning,
//! partial update, direct position reassignment, and cascading deletion
//! down the parent hierarchy.

use vstd::prelude::*;

verus! {

use crate::models::{Millis, Task, StoreError, opt_str_view};
use crate::store::{
    Store, has_task, task_idx, task_at, tasks_wf, parent_of, project_of, lemma_task_idx_unique,
};
use crate::order::{
    tasks_sorted, insert_task_sorted, next_position, next_pos_spec, scope_nonempty, scope_max,
};
use crate::patch::{TaskPatch, task_patched, apply_task_patch};
use crate::sys::{fresh_id, now_millis};

/// The tasks belonging to the project, in table order.
pub open spec fn tasks_of_project(s: Seq<Task>, pid: Seq<char>) -> Seq<Task>
    decreases s.len(),
{
    if s.len() == 0 {
        Seq::empty()
    } else {
        let rest = tasks_of_project(s.drop_last(), pid);
        if project_of(s.last()) == Some(pid) {
            rest.push(s.last())
        } else {
            rest
        }
    }
}

/// The task table without the project's tasks, in table order.
pub open spec fn tasks_without_project(s: Seq<Task>, pid: Seq<char>) -> Seq<Task>
    decreases s.len(),
{
    if s.len() == 0 {
        Seq::empty()
    } else {
        let rest = tasks_without_project(s.drop_last(), pid);
        if project_of(s.last()) != Some(pid) {
            rest.push(s.last())
        } else {
            rest
        }
    }
}

/// One doom mark per row: a task is doomed when it bears the deleted
/// identifier or descends, parent by parent, from a doomed task. Under
/// well-formedness every present parent precedes its children, so one
/// left-to-right pass settles every row.
pub open spec fn cascade_flags(s: Seq<Task>, root: Seq<char>) -> Seq<bool>
    decreases s.len(),
{
    if s.len() == 0 {
        Seq::empty()
    } else {
        let rest = cascade_flags(s.drop_last(), root);
        let t = s.last();
        let doomed = t.id@ == root || (match parent_of(t) {
            Some(p) => exists|j: int| 0 <= j < s.len() - 1 && s[j].id@ == p && rest[j],
            None => false,
        });
        rest.push(doomed)
    }
}

/// The rows whose mark is clear, in table order.
pub open spec fn keep_unflagged(s: Seq<Task>, flags: Seq<bool>) -> Seq<Task>
    recommends
        s.len() == flags.len(),
    decreases s.len(),
{
    if s.len() == 0 {
        Seq::empty()
    } else {
        let rest = keep_unflagged(s.drop_last(), flags.drop_last());
        if !flags[s.len() - 1] {
            rest.push(s.last())
        } else {
            rest
        }
    }
}

/// The task table after deleting one identifier and its descendants.
pub open spec fn tasks_after_delete(s: Seq<Task>, root: Seq<char>) -> Seq<Task> {
    keep_unflagged(s, cascade_flags(s, root))
}

impl Store {
    /// Every task, by position ascending and creation time descending.
    pub fn get_all_tasks(&self) -> (r: Vec<Task>)
        ensures
            tasks_sorted(r@),
            r@.to_multiset() == self.tasks@.to_multiset(),
    {
        let mut out: Vec<Task> = Vec::new();
        let mut i: usize = 0;
        proof {
            assert(out@ =~= self.tasks@.subrange(0, 0));
        }
        while i < self.tasks.len()
            invariant
                i <= self.tasks@.len(),
                tasks_sorted(out@),
                out@.to_multiset() == self.tasks@.subrange(0, i as int).to_multiset(),
            decreases self.tasks@.len() - i,
        {
            let t = self.tasks[i].duplicate();
            insert_task_sorted(&mut out, t);
            proof {
                broadcast use vstd::seq_lib::group_to_multiset_ensures;

                assert(self.tasks@.subrange(0, i as int + 1) =~= self.tasks@.subrange(
                    0,
                    i as int,
                ).push(self.tasks@[i as int]));
            }
            i += 1;
        }
        proof {
            assert(self.tasks@.subrange(0, self.tasks@.len() as int) =~= self.tasks@);
        }
        out
    }

    /// The project's tasks, by position ascending and creation time
    /// descending.
    pub fn get_tasks_by_project(&self, project_id: String) -> (r: Vec<Task>)
        ensures
            tasks_sorted(r@),
            r@.to_multiset() == tasks_of_project(self.tasks@, project_id@).to_multiset(),
    {
        let mut out: Vec<Task> = Vec::new();
        let mut i: usize = 0;
        proof {
            assert(tasks_of_project(self.tasks@.subrange(0, 0), project_id@) =~= Seq::<
                Task,
            >::empty());
            assert(out@ =~= Seq::<Task>::empty());
        }
        while i < self.tasks.len()
            invariant
                i <= self.tasks@.len(),
                tasks_sorted(out@),
                out@.to_multiset() == tasks_of_project(
                    self.tasks@.subrange(0, i as int),
                    project_id@,
                ).to_multiset(),
            decreases self.tasks@.len() - i,
        {
            proof {
                let pre = self.tasks@.subrange(0, i as int);
                let post = self.tasks@.subrange(0, i as int + 1);
                assert(post.drop_last() =~= pre);
                assert(post.last() == self.tasks@[i as int]);
            }
            let matches_project = match &self.tasks[i].project_id {
                Some(p) => *p == project_id,
                None => false,
            };
            if matches_project {
                let t = self.tasks[i].duplicate();
                insert_task_sorted(&mut out, t);
            }
            proof {
                broadcast use vstd::seq_lib::group_to_multiset_ensures;

            }
            i += 1;
        }
        proof {
            assert(self.tasks@.subrange(0, self.tasks@.len() as int) =~= self.tasks@);
        }
        out
    }

    /// Appends a task under the given identifier and clock instant. The
    /// position is one past the scope's maximum (1 in an empty scope).
    /// Rejected: a taken identifier, a task naming itself as parent, an
    /// identifier an existing task names as parent, and a scope whose
    /// maximum cannot be advanced.
    pub fn create_task_at(
        &mut self,
        id: String,
        now: Millis,
        title: String,
        description: Option<String>,
        priority: i32,
        due_date: Option<Millis>,
        project_id: Option<String>,
        parent_id: Option<String>,
    ) -> (r: Result<Task, StoreError>)
        requires
            old(self).wf(),
        ensures
            final(self).wf(),
            old(self).agrees_outside_tasks(*final(self)),
            match r {
                Ok(t) => {
                    &&& !has_task(old(self).tasks@, id@)
                    &&& opt_str_view(parent_id) != Some(id@)
                    &&& !(exists|j: int|
                        0 <= j < old(self).tasks@.len() && parent_of(old(self).tasks@[j]) == Some(
                            id@,
                        ))
                    &&& t == (Task {
                        id: id,
                        title: title,
                        description: description,
                        is_completed: false,
                        priority: priority,
                        due_date: due_date,
                        remind_at: None,
                        created_at: now,
                        updated_at: now,
                        project_id: project_id,
                        parent_id: parent_id,
                        position: t.position,
                    })
                    &&& t.position as int == next_pos_spec(
                        old(self).tasks@,
                        opt_str_view(parent_id),
                    )
                    &&& final(self).tasks@ == old(self).tasks@.push(t)
                },
                Err(e) => {
                    &&& *final(self) == *old(self)
                    &&& if has_task(old(self).tasks@, id@) {
                        e is IdTaken
                    } else if opt_str_view(parent_id) == Some(id@) {
                        e is SelfParent
                    } else if exists|j: int|
                        0 <= j < old(self).tasks@.len() && parent_of(old(self).tasks@[j]) == Some(
                            id@,
                        ) {
                        e is IdReferenced
                    } else {
                        e is Overflow && scope_nonempty(old(self).tasks@, opt_str_view(parent_id))
                            && scope_max(old(self).tasks@, opt_str_view(parent_id)) == i64::MAX
                                as int
                    }
                },
            },
    {
        if self.find_task(&id).is_some() {
            return Err(StoreError::IdTaken);
        }
        let parent_is_self = match &parent_id {
            Some(p) => *p == id,
            None => false,
        };
        if parent_is_self {
            return Err(StoreError::SelfParent);
        }
        let mut j: usize = 0;
        while j < self.tasks.len()
            invariant
                j <= self.tasks@.len(),
                *self == *old(self),
                old(self).wf(),
                !has_task(old(self).tasks@, id@),
                opt_str_view(parent_id) != Some(id@),
                forall|q: int| 0 <= q < j ==> parent_of(self.tasks@[q]) != Some(id@),
            decreases self.tasks@.len() - j,
        {
            let references_id = match &self.tasks[j].parent_id {
                Some(p) => *p == id,
                None => false,
            };
            if references_id {
                return Err(StoreError::IdReferenced);
            }
            j += 1;
        }
        match next_position(&self.tasks, &parent_id) {
            None => Err(StoreError::Overflow),
            Some(position) => {
                let t = Task {
                    id,
                    title,
                    description,
                    is_completed: false,
                    priority,
                    due_date,
                    remind_at: None,
                    created_at: now,
                    updated_at: now,
                    project_id,
                    parent_id,
                    position,
                };
                let copy = t.duplicate();
                self.tasks.push(t);
                proof {
                    let s0 = old(self).tasks@;
                    let s1 = self.tasks@;
                    assert forall|a: int, b: int|
                        0 <= a < s1.len() && 0 <= b < s1.len() && parent_of(s1[b]) == Some(
                            s1[a].id@,
                        ) implies a < b by {
                        if b < s0.len() && a < s0.len() {
                        } else if b == s0.len() && a < s0.len() {
                        } else if a == s0.len() && b < s0.len() {
                            assert(parent_of(s0[b]) == Some(id@));
                        } else {
                            assert(opt_str_view(s1[b].parent_id) == Some(id@));
                        }
                    }
                }
                Ok(copy)
            },
        }
    }

    /// Creates a task under a fresh identifier at the current instant,
    /// with priority defaulting to 3 and the position the scope
    /// dictates.
    pub fn create_task(
        &mut self,
        title: String,
        description: Option<String>,
        priority: Option<i32>,
        due_date: Option<Millis>,
        project_id: Option<String>,
        parent_id: Option<String>,
    ) -> (r: Result<Task, StoreError>)
        requires
            old(self).wf(),
        ensures
            final(self).wf(),
            old(self).agrees_outside_tasks(*final(self)),
            match r {
                Ok(t) => {
                    &&& t.title == title
                    &&& t.description == description
                    &&& t.priority == (if priority is Some {
                        priority->0
                    } else {
                        3
                    })
                    &&& t.due_date == due_date
                    &&& t.project_id == project_id
                    &&& t.parent_id == parent_id
                    &&& t.is_completed == false
                    &&& t.remind_at is None
                    &&& t.created_at == t.updated_at
                    &&& t.id@.len() == 36
                    &&& !has_task(old(self).tasks@, t.id@)
                    &&& t.position as int == next_pos_spec(
                        old(self).tasks@,
                        opt_str_view(parent_id),
                    )
                    &&& final(self).tasks@ == old(self).tasks@.push(t)
                },
                Err(e) => {
                    &&& *final(self) == *old(self)
                    &&& (e is Overflow ==> scope_nonempty(old(self).tasks@, opt_str_view(parent_id))
                        && scope_max(old(self).tasks@, opt_str_view(parent_id)) == i64::MAX as int)
                    &&& (e is IdTaken ==> old(self).tasks@.len() > 0)
                    &&& (e is SelfParent ==> parent_id is Some)
                    &&& (e is IdReferenced ==> old(self).tasks@.len() > 0)
                },
            },
            (scope_nonempty(old(self).tasks@, opt_str_view(parent_id)) && scope_max(
                old(self).tasks@,
                opt_str_view(parent_id),
            ) == i64::MAX as int) ==> r is Err,
    {
        let id = fresh_id();
        let now = now_millis();
        let priority = match priority {
            Some(p) => p,
            None => 3,
        };
        self.create_task_at(id, now, title, description, priority, due_date, project_id, parent_id)
    }

    /// Rewrites the row bearing the identifier to its patched value; a
    /// missing row is `NotFound`. Parent and position are untouched, so
    /// re-pointing a task's project never recomputes its position.
    pub fn update_task_at(&mut self, id: String, p: TaskPatch, now: Millis) -> (r: Result<
        (),
        StoreError,
    >)
        requires
            old(self).wf(),
        ensures
            final(self).wf(),
            old(self).agrees_outside_tasks(*final(self)),
            match r {
                Ok(()) => {
                    &&& has_task(old(self).tasks@, id@)
                    &&& final(self).tasks@ == old(self).tasks@.update(
                        task_idx(old(self).tasks@, id@),
                        task_patched(task_at(old(self).tasks@, id@), p, now),
                    )
                },
                Err(e) => {
                    &&& e is NotFound
                    &&& !has_task(old(self).tasks@, id@)
                    &&& *final(self) == *old(self)
                },
            },
    {
        match self.find_task(&id) {
            None => Err(StoreError::NotFound),
            Some(i) => {
                proof {
                    lemma_task_idx_unique(self.tasks@, id@, i as int);
                }
                let updated = apply_task_patch(&self.tasks[i], p, now);
                self.tasks[i] = updated;
                proof {
                    lemma_tasks_wf_pointwise(old(self).tasks@, self.tasks@);
                }
                Ok(())
            },
        }
    }

    /// Applies a partial update at the current instant: only supplied
    /// fields and the modification stamp change.
    pub fn update_task(
        &mut self,
        id: String,
        title: Option<String>,
        description: Option<String>,
        is_completed: Option<bool>,
        priority: Option<i32>,
        due_date: Option<Option<Millis>>,
        project_id: Option<String>,
    ) -> (r: Result<(), StoreError>)
        requires
            old(self).wf(),
        ensures
            final(self).wf(),
            old(self).agrees_outside_tasks(*final(self)),
            match r {
                Ok(()) => {
                    &&& has_task(old(self).tasks@, id@)
                    &&& {
                        let i = task_idx(old(self).tasks@, id@);
                        final(self).tasks@ == old(self).tasks@.update(
                            i,
                            task_patched(
                                old(self).tasks@[i],
                                TaskPatch {
                                    title: title,
                                    description: description,
                                    is_completed: is_completed,
                                    priority: priority,
                                    due_date: due_date,
                                    project_id: project_id,
                                },
                                final(self).tasks@[i].updated_at,
                            ),
                        )
                    }
                },
                Err(e) => {
                    &&& e is NotFound
                    &&& !has_task(old(self).tasks@, id@)
                    &&& *final(self) == *old(self)
                },
            },
    {
        let now = now_millis();
        let r = self.update_task_at(
            id,
            TaskPatch { title, description, is_completed, priority, due_date, project_id },
            now,
        );
        r
    }

    /// Sets the position directly to the caller's value, stamping the
    /// given instant. No sibling is shifted or renumbered: last write
    /// wins, and collisions or gaps may remain.
    pub fn update_task_position_at(&mut self, id: String, new_position: i64, now: Millis) -> (r:
        Result<(), StoreError>)
        requires
            old(self).wf(),
        ensures
            final(self).wf(),
            old(self).agrees_outside_tasks(*final(self)),
            match r {
                Ok(()) => {
                    &&& has_task(old(self).tasks@, id@)
                    &&& {
                        let i = task_idx(old(self).tasks@, id@);
                        final(self).tasks@ == old(self).tasks@.update(
                            i,
                            Task {
                                position: new_position,
                                updated_at: now,
                                ..old(self).tasks@[i]
                            },
                        )
                    }
                },
                Err(e) => {
                    &&& e is NotFound
                    &&& !has_task(old(self).tasks@, id@)
                    &&& *final(self) == *old(self)
                },
            },
    {
        match self.find_task(&id) {
            None => Err(StoreError::NotFound),
            Some(i) => {
                proof {
                    lemma_task_idx_unique(self.tasks@, id@, i as int);
                }
                let t = &self.tasks[i];
                let updated = Task {
                    id: t.id.clone(),
                    title: t.title.clone(),
                    description: crate::models::dup_opt_string(&t.description),
                    is_completed: t.is_completed,
                    priority: t.priority,
                    due_date: t.due_date,
                    remind_at: t.remind_at,
                    created_at: t.created_at,
                    updated_at: now,
                    project_id: crate::models::dup_opt_string(&t.project_id),
                    parent_id: crate::models::dup_opt_string(&t.parent_id),
                    position: new_position,
                };
                self.tasks[i] = updated;
                proof {
                    lemma_tasks_wf_pointwise(old(self).tasks@, self.tasks@);
                }
                Ok(())
            },
        }
    }

    /// Reassigns a task's position at the current instant.
    pub fn update_task_position(&mut self, id: String, new_position: i64) -> (r: Result<
        (),
        StoreError,
    >)
        requires
            old(self).wf(),
        ensures
            final(self).wf(),
            old(self).agrees_outside_tasks(*final(self)),
            match r {
                Ok(()) => {
                    &&& has_task(old(self).tasks@, id@)
                    &&& {
                        let i = task_idx(old(self).tasks@, id@);
                        final(self).tasks@ == old(self).tasks@.update(
                            i,
                            Task {
                                position: new_position,
                                updated_at: final(self).tasks@[i].updated_at,
                                ..old(self).tasks@[i]
                            },
                        )
                    }
                },
                Err(e) => {
                    &&& e is NotFound
                    &&& !has_task(old(self).tasks@, id@)
                    &&& *final(self) == *old(self)
                },
            },
    {
        let now = now_millis();
        let r = self.update_task_position_at(id, new_position, now);
        r
    }

    /// Removes the task bearing the identifier together with every task
    /// that descends from it through parent links; other rows keep
    /// their order. Sessions that named a removed task keep their
    /// reference, which simply dangles: a soft link.
    pub fn delete_task(&mut self, id: String)
        requires
            old(self).wf(),
        ensures
            final(self).wf(),
            old(self).agrees_outside_tasks(*final(self)),
            final(self).tasks@ == tasks_after_delete(old(self).tasks@, id@),
            !has_task(final(self).tasks@, id@),
    {
        let ghost s0 = self.tasks@;
        let mut flags: Vec<bool> = Vec::new();
        let mut i: usize = 0;
        proof {
            assert(s0.subrange(0, 0) =~= Seq::<Task>::empty());
            assert(flags@ =~= cascade_flags(s0.subrange(0, 0), id@));
        }
        while i < self.tasks.len()
            invariant
                i <= s0.len(),
                self.tasks@ == s0,
                flags@.len() == i,
                flags@ == cascade_flags(s0.subrange(0, i as int), id@),
            decreases s0.len() - i,
        {
            let ghost pre = s0.subrange(0, i as int);
            let ghost post = s0.subrange(0, i as int + 1);
            proof {
                assert(post.drop_last() =~= pre);
                assert(post.last() == s0[i as int]);
            }
            let mut doomed = self.tasks[i].id == id;
            if !doomed {
                let has_doomed_parent = match &self.tasks[i].parent_id {
                    Some(p) => {
                        let mut j: usize = 0;
                        let mut found = false;
                        while j < i
                            invariant
                                j <= i,
                                i <= s0.len(),
                                self.tasks@ == s0,
                                flags@.len() == i,
                                found == exists|q: int|
                                    0 <= q < j && s0[q].id@ == p@ && flags@[q],
                            decreases i - j,
                        {
                            if !found {
                                if self.tasks[j].id == *p && flags[j] {
                                    found = true;
                                }
                            }
                            j += 1;
                        }
                        found
                    },
                    None => false,
                };
                doomed = has_doomed_parent;
            }
            proof {
                let rest = cascade_flags(pre, id@);
                let spec_doomed = s0[i as int].id@ == id@ || (match parent_of(s0[i as int]) {
                    Some(p) => exists|j: int| 0 <= j < i && post[j].id@ == p && rest[j],
                    None => false,
                });
                assert forall|j: int| 0 <= j < i implies post[j] == s0[j] by {}
                assert(cascade_flags(post, id@) == rest.push(spec_doomed));
                assert(doomed == spec_doomed);
            }
            flags.push(doomed);
            i += 1;
        }
        proof {
            assert(s0.subrange(0, s0.len() as int) =~= s0);
        }

        let mut kept: Vec<Task> = Vec::new();
        let mut k: usize = 0;
        proof {
            assert(s0.subrange(0, 0) =~= Seq::<Task>::empty());
            assert(flags@.subrange(0, 0) =~= Seq::<bool>::empty());
            assert(kept@ =~= keep_unflagged(s0.subrange(0, 0), flags@.subrange(0, 0)));
        }
        while k < self.tasks.len()
            invariant
                k <= s0.len(),
                self.tasks@ == s0,
                flags@.len() == s0.len(),
                kept@ == keep_unflagged(s0.subrange(0, k as int), flags@.subrange(0, k as int)),
            decreases s0.len() - k,
        {
            proof {
                let pre = s0.subrange(0, k as int);
                let post = s0.subrange(0, k as int + 1);
                let fpre = flags@.subrange(0, k as int);
                let fpost = flags@.subrange(0, k as int + 1);
                assert(post.drop_last() =~= pre);
                assert(fpost.drop_last() =~= fpre);
                assert(post.last() == s0[k as int]);
                assert(fpost[post.len() - 1] == flags@[k as int]);
            }
            if !flags[k] {
                kept.push(self.tasks[k].duplicate());
            }
            k += 1;
        }
        proof {
            assert(s0.subrange(0, s0.len() as int) =~= s0);
            assert(flags@.subrange(0, flags@.len() as int) =~= flags@);
        }
        self.tasks = kept;
        proof {
            lemma_keep_unflagged_wf(s0, cascade_flags(s0, id@));
            lemma_cascade_root_flagged(s0, id@);
            if has_task(self.tasks@, id@) {
                let w = choose|w: int|
                    0 <= w < self.tasks@.len() && #[trigger] self.tasks@[w].id@ == id@;
                let out = tasks_after_delete(s0, id@);
                let j = choose|j: int|
                    0 <= j < s0.len() && #[trigger] out[w] == s0[j] && !cascade_flags(s0, id@)[j];
                assert(cascade_flags(s0, id@)[j]);
            }
        }
    }
}

/// A rewrite that keeps every row's identifier and parent keeps the
/// table well-formed.
proof fn lemma_tasks_wf_pointwise(s0: Seq<Task>, s1: Seq<Task>)
    requires
        tasks_wf(s0),
        s1.len() == s0.len(),
        forall|i: int|
            0 <= i < s0.len() ==> s1[i].id == s0[i].id && s1[i].parent_id == s0[i].parent_id,
    ensures
        tasks_wf(s1),
{
    assert forall|a: int, b: int| 0 <= a < b < s1.len() implies s1[a].id@ != s1[b].id@ by {
        assert(s0[a].id@ != s0[b].id@);
    }
    assert forall|a: int, b: int|
        0 <= a < s1.len() && 0 <= b < s1.len() && parent_of(s1[b]) == Some(s1[a].id@) implies a
        < b by {
        assert(parent_of(s0[b]) == Some(s0[a].id@));
    }
}

/// The row bearing the deleted identifier is always marked.
proof fn lemma_cascade_root_flagged(s: Seq<Task>, root: Seq<char>)
    ensures
        forall|j: int|
            0 <= j < s.len() && s[j].id@ == root ==> #[trigger] cascade_flags(s, root)[j],
        cascade_flags(s, root).len() == s.len(),
    decreases s.len(),
{
    if s.len() > 0 {
        lemma_cascade_root_flagged(s.drop_last(), root);
        assert forall|j: int|
            0 <= j < s.len() && s[j].id@ == root implies #[trigger] cascade_flags(s, root)[j] by {
            if j < s.len() - 1 {
                assert(s.drop_last()[j] == s[j]);
                assert(cascade_flags(s, root)[j] == cascade_flags(s.drop_last(), root)[j]);
            }
        }
    }
}

/// Keeping unmarked rows keeps identifiers pairwise distinct, keeps
/// every present parent ahead of its children, and keeps only rows of
/// the original table, each with a clear mark.
proof fn lemma_keep_unflagged_wf(s: Seq<Task>, flags: Seq<bool>)
    requires
        tasks_wf(s),
        flags.len() == s.len(),
    ensures
        tasks_wf(keep_unflagged(s, flags)),
        forall|m: int|
            0 <= m < keep_unflagged(s, flags).len() ==> exists|j: int|
                0 <= j < s.len() && #[trigger] keep_unflagged(s, flags)[m] == s[j] && !flags[j],
        forall|m1: int, m2: int|
            0 <= m1 < m2 < keep_unflagged(s, flags).len() ==> exists|j1: int, j2: int|
                0 <= j1 < j2 < s.len() && #[trigger] keep_unflagged(s, flags)[m1] == s[j1]
                    && #[trigger] keep_unflagged(s, flags)[m2] == s[j2],
    decreases s.len(),
{
    let out = keep_unflagged(s, flags);
    if s.len() > 0 {
        lemma_keep_unflagged_wf(s.drop_last(), flags.drop_last());
        let rest = keep_unflagged(s.drop_last(), flags.drop_last());
        assert forall|m: int| 0 <= m < out.len() implies exists|j: int|
            0 <= j < s.len() && #[trigger] out[m] == s[j] && !flags[j] by {
            if !flags[s.len() - 1] && m == out.len() - 1 {
                assert(out[m] == s[s.len() - 1] && !flags[s.len() - 1]);
            } else {
                assert(out[m] == rest[m]);
                let j = choose|j: int|
                    0 <= j < s.drop_last().len() && rest[m] == s.drop_last()[j]
                        && !flags.drop_last()[j];
                assert(out[m] == s[j] && !flags[j]);
            }
        }
        assert forall|m1: int, m2: int| 0 <= m1 < m2 < out.len() implies exists|j1: int, j2: int|
            0 <= j1 < j2 < s.len() && #[trigger] out[m1] == s[j1] && #[trigger] out[m2]
                == s[j2] by {
            if !flags[s.len() - 1] && m2 == out.len() - 1 {
                assert(out[m1] == rest[m1]);
                let j1 = choose|j: int|
                    0 <= j < s.drop_last().len() && rest[m1] == s.drop_last()[j]
                        && !flags.drop_last()[j];
                assert(0 <= j1 < s.len() - 1 < s.len() && out[m1] == s[j1] && out[m2] == s[s.len()
                    - 1]);
            } else {
                assert(out[m1] == rest[m1] && out[m2] == rest[m2]);
                let (j1, j2) = choose|j1: int, j2: int|
                    0 <= j1 < j2 < s.drop_last().len() && #[trigger] rest[m1] == s.drop_last()[j1]
                        && #[trigger] rest[m2] == s.drop_last()[j2];
                assert(0 <= j1 < j2 < s.len() && out[m1] == s[j1] && out[m2] == s[j2]);
            }
        }
        assert forall|a: int, b: int| 0 <= a < b < out.len() implies out[a].id@ != out[b].id@ by {
            let (j1, j2) = choose|j1: int, j2: int|
                0 <= j1 < j2 < s.len() && #[trigger] out[a] == s[j1] && #[trigger] out[b] == s[j2];
            assert(s[j1].id@ != s[j2].id@);
        }
        assert forall|a: int, b: int|
            0 <= a < out.len() && 0 <= b < out.len() && parent_of(out[b]) == Some(
                out[a].id@,
            ) implies a < b by {
            if a == b {
                let j = choose|j: int| 0 <= j < s.len() && #[trigger] out[a] == s[j] && !flags[j];
                assert(parent_of(s[j]) == Some(s[j].id@));
            } else if b < a {
                let (j1, j2) = choose|j1: int, j2: int|
                    0 <= j1 < j2 < s.len() && #[trigger] out[b] == s[j1] && #[trigger] out[a]
                        == s[j2];
                assert(parent_of(s[j1]) == Some(s[j2].id@));
            }
        }
    }
}

} // verus!
