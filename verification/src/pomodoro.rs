//! The pomodoro session repository: starting, completing, cancelling,
//! per-task listing, and aggregate statistics over an optional date
//! range.

use vstd::prelude::*;

verus! {

use crate::models::{Millis, PomodoroSession, StoreError, opt_str_view};
use crate::store::{
    Store, has_session, session_idx, session_at, sessions_wf, lemma_session_idx_unique,
};
use crate::order::{sessions_sorted, insert_session_sorted};
use crate::sys::{fresh_id, now_millis};

/// The session table without the row bearing the identifier.
pub open spec fn sessions_without(s: Seq<PomodoroSession>, id: Seq<char>) -> Seq<PomodoroSession>
    decreases s.len(),
{
    if s.len() == 0 {
        Seq::empty()
    } else {
        let rest = sessions_without(s.drop_last(), id);
        if s.last().id@ != id {
            rest.push(s.last())
        } else {
            rest
        }
    }
}

/// The sessions attached to the task, in table order.
pub open spec fn sessions_of_task(s: Seq<PomodoroSession>, task_id: Seq<char>) -> Seq<
    PomodoroSession,
>
    decreases s.len(),
{
    if s.len() == 0 {
        Seq::empty()
    } else {
        let rest = sessions_of_task(s.drop_last(), task_id);
        if opt_str_view(s.last().task_id) == Some(task_id) {
            rest.push(s.last())
        } else {
            rest
        }
    }
}

/// Whether a session's creation instant falls in the optional range.
pub open spec fn in_range(s: PomodoroSession, start: Option<Millis>, end: Option<Millis>) -> bool {
    &&& (start is Some ==> s.created_at >= start->0)
    &&& (end is Some ==> s.created_at <= end->0)
}

/// How many sessions fall in the range.
pub open spec fn range_total(
    s: Seq<PomodoroSession>,
    start: Option<Millis>,
    end: Option<Millis>,
) -> int
    decreases s.len(),
{
    if s.len() == 0 {
        0
    } else {
        range_total(s.drop_last(), start, end) + if in_range(s.last(), start, end) {
            1int
        } else {
            0int
        }
    }
}

/// How many completed sessions fall in the range.
pub open spec fn range_completed(
    s: Seq<PomodoroSession>,
    start: Option<Millis>,
    end: Option<Millis>,
) -> int
    decreases s.len(),
{
    if s.len() == 0 {
        0
    } else {
        range_completed(s.drop_last(), start, end) + if in_range(s.last(), start, end)
            && s.last().is_completed {
            1int
        } else {
            0int
        }
    }
}

/// The minutes of the completed sessions in the range.
pub open spec fn range_minutes(
    s: Seq<PomodoroSession>,
    start: Option<Millis>,
    end: Option<Millis>,
) -> int
    decreases s.len(),
{
    if s.len() == 0 {
        0
    } else {
        range_minutes(s.drop_last(), start, end) + if in_range(s.last(), start, end)
            && s.last().is_completed {
            s.last().duration_minutes as int
        } else {
            0int
        }
    }
}

/// The running sum of completed minutes stays within the integer
/// column's range at every prefix of the table: the condition under
/// which the storage engine's accumulating SUM would not raise.
pub open spec fn range_sums_fit(
    s: Seq<PomodoroSession>,
    start: Option<Millis>,
    end: Option<Millis>,
) -> bool {
    forall|k: int|
        0 <= k <= s.len() ==> i64::MIN as int <= #[trigger] range_minutes(
            s.subrange(0, k),
            start,
            end,
        ) <= i64::MAX as int
}

/// Integer average rounded toward zero, as casting the engine's
/// fractional AVG to an integer column would.
pub open spec fn avg_toward_zero(total: int, count: int) -> int
    recommends
        count > 0,
{
    if total >= 0 {
        total / count
    } else {
        -((-total) / count)
    }
}

/// Aggregate session statistics over a range. The average is integer
/// minutes rounded toward zero, absent when no session in the range is
/// completed.
pub struct PomodoroStats {
    pub total_sessions: usize,
    pub completed_sessions: usize,
    pub total_minutes: i64,
    pub average_minutes: Option<i64>,
}

impl Store {
    /// Every session, most recently created first.
    pub fn get_all_pomodoro_sessions(&self) -> (r: Vec<PomodoroSession>)
        ensures
            sessions_sorted(r@),
            r@.to_multiset() == self.sessions@.to_multiset(),
    {
        let mut out: Vec<PomodoroSession> = Vec::new();
        let mut i: usize = 0;
        proof {
            assert(out@ =~= self.sessions@.subrange(0, 0));
        }
        while i < self.sessions.len()
            invariant
                i <= self.sessions@.len(),
                sessions_sorted(out@),
                out@.to_multiset() == self.sessions@.subrange(0, i as int).to_multiset(),
            decreases self.sessions@.len() - i,
        {
            let s = self.sessions[i].duplicate();
            insert_session_sorted(&mut out, s);
            proof {
                broadcast use vstd::seq_lib::group_to_multiset_ensures;

                assert(self.sessions@.subrange(0, i as int + 1) =~= self.sessions@.subrange(
                    0,
                    i as int,
                ).push(self.sessions@[i as int]));
            }
            i += 1;
        }
        proof {
            assert(self.sessions@.subrange(0, self.sessions@.len() as int) =~= self.sessions@);
        }
        out
    }

    /// The task's sessions, most recently created first.
    pub fn get_sessions_by_task(&self, task_id: String) -> (r: Vec<PomodoroSession>)
        ensures
            sessions_sorted(r@),
            r@.to_multiset() == sessions_of_task(self.sessions@, task_id@).to_multiset(),
    {
        let mut out: Vec<PomodoroSession> = Vec::new();
        let mut i: usize = 0;
        proof {
            assert(sessions_of_task(self.sessions@.subrange(0, 0), task_id@) =~= Seq::<
                PomodoroSession,
            >::empty());
            assert(out@ =~= Seq::<PomodoroSession>::empty());
        }
        while i < self.sessions.len()
            invariant
                i <= self.sessions@.len(),
                sessions_sorted(out@),
                out@.to_multiset() == sessions_of_task(
                    self.sessions@.subrange(0, i as int),
                    task_id@,
                ).to_multiset(),
            decreases self.sessions@.len() - i,
        {
            proof {
                let pre = self.sessions@.subrange(0, i as int);
                let post = self.sessions@.subrange(0, i as int + 1);
                assert(post.drop_last() =~= pre);
                assert(post.last() == self.sessions@[i as int]);
            }
            let attached = match &self.sessions[i].task_id {
                Some(t) => *t == task_id,
                None => false,
            };
            if attached {
                let s = self.sessions[i].duplicate();
                insert_session_sorted(&mut out, s);
            }
            proof {
                broadcast use vstd::seq_lib::group_to_multiset_ensures;

            }
            i += 1;
        }
        proof {
            assert(self.sessions@.subrange(0, self.sessions@.len() as int) =~= self.sessions@);
        }
        out
    }

    /// Appends a running session under the given identifier and clock
    /// instant; start and creation stamps take the same instant. The
    /// duration is stored as supplied, sign included, as the storage
    /// column would keep it.
    pub fn start_pomodoro_session_at(
        &mut self,
        id: String,
        now: Millis,
        task_id: Option<String>,
        duration_minutes: i32,
    ) -> (r: Result<PomodoroSession, StoreError>)
        requires
            old(self).wf(),
        ensures
            final(self).wf(),
            old(self).agrees_outside_sessions(*final(self)),
            match r {
                Ok(s) => {
                    &&& !has_session(old(self).sessions@, id@)
                    &&& s == (PomodoroSession {
                        id: id,
                        task_id: task_id,
                        duration_minutes: duration_minutes,
                        is_completed: false,
                        started_at: now,
                        completed_at: None,
                        created_at: now,
                    })
                    &&& final(self).sessions@ == old(self).sessions@.push(s)
                },
                Err(e) => {
                    &&& *final(self) == *old(self)
                    &&& e is IdTaken
                    &&& has_session(old(self).sessions@, id@)
                },
            },
    {
        match self.find_session(&id) {
            Some(_) => Err(StoreError::IdTaken),
            None => {
                let s = PomodoroSession {
                    id,
                    task_id,
                    duration_minutes,
                    is_completed: false,
                    started_at: now,
                    completed_at: None,
                    created_at: now,
                };
                let copy = s.duplicate();
                self.sessions.push(s);
                Ok(copy)
            },
        }
    }

    /// Starts a session under a fresh identifier at the current
    /// instant.
    pub fn start_pomodoro_session(&mut self, task_id: Option<String>, duration_minutes: i32) -> (r:
        Result<PomodoroSession, StoreError>)
        requires
            old(self).wf(),
        ensures
            final(self).wf(),
            old(self).agrees_outside_sessions(*final(self)),
            match r {
                Ok(s) => {
                    &&& s.task_id == task_id
                    &&& s.duration_minutes == duration_minutes
                    &&& s.is_completed == false
                    &&& s.completed_at is None
                    &&& s.started_at == s.created_at
                    &&& s.id@.len() == 36
                    &&& !has_session(old(self).sessions@, s.id@)
                    &&& final(self).sessions@ == old(self).sessions@.push(s)
                },
                Err(e) => {
                    &&& *final(self) == *old(self)
                    &&& e is IdTaken
                    &&& old(self).sessions@.len() > 0
                },
            },
    {
        let id = fresh_id();
        let now = now_millis();
        self.start_pomodoro_session_at(id, now, task_id, duration_minutes)
    }

    /// Marks the session completed and stamps the completion instant.
    /// Completing a completed session re-stamps it: last write wins, as
    /// the storage layer's unconditional update would.
    pub fn complete_pomodoro_session_at(&mut self, id: String, now: Millis) -> (r: Result<
        (),
        StoreError,
    >)
        requires
            old(self).wf(),
        ensures
            final(self).wf(),
            old(self).agrees_outside_sessions(*final(self)),
            match r {
                Ok(()) => {
                    &&& has_session(old(self).sessions@, id@)
                    &&& final(self).sessions@ == old(self).sessions@.update(
                        session_idx(old(self).sessions@, id@),
                        PomodoroSession {
                            is_completed: true,
                            completed_at: Some(now),
                            ..session_at(old(self).sessions@, id@)
                        },
                    )
                },
                Err(e) => {
                    &&& e is NotFound
                    &&& !has_session(old(self).sessions@, id@)
                    &&& *final(self) == *old(self)
                },
            },
    {
        match self.find_session(&id) {
            None => Err(StoreError::NotFound),
            Some(i) => {
                proof {
                    lemma_session_idx_unique(self.sessions@, id@, i as int);
                }
                let s = &self.sessions[i];
                let updated = PomodoroSession {
                    id: s.id.clone(),
                    task_id: crate::models::dup_opt_string(&s.task_id),
                    duration_minutes: s.duration_minutes,
                    is_completed: true,
                    started_at: s.started_at,
                    completed_at: Some(now),
                    created_at: s.created_at,
                };
                self.sessions[i] = updated;
                proof {
                    let s0 = old(self).sessions@;
                    let s1 = self.sessions@;
                    assert forall|a: int, b: int| 0 <= a < b < s1.len() implies s1[a].id@
                        != s1[b].id@ by {
                        assert(s1[a].id == s0[a].id && s1[b].id == s0[b].id);
                    }
                }
                Ok(())
            },
        }
    }

    /// Completes the session at the current instant.
    pub fn complete_pomodoro_session(&mut self, id: String) -> (r: Result<(), StoreError>)
        requires
            old(self).wf(),
        ensures
            final(self).wf(),
            old(self).agrees_outside_sessions(*final(self)),
            match r {
                Ok(()) => {
                    &&& has_session(old(self).sessions@, id@)
                    &&& {
                        let i = session_idx(old(self).sessions@, id@);
                        final(self).sessions@ == old(self).sessions@.update(
                            i,
                            PomodoroSession {
                                is_completed: true,
                                completed_at: final(self).sessions@[i].completed_at,
                                ..old(self).sessions@[i]
                            },
                        ) && final(self).sessions@[i].completed_at is Some
                    }
                },
                Err(e) => {
                    &&& e is NotFound
                    &&& !has_session(old(self).sessions@, id@)
                    &&& *final(self) == *old(self)
                },
            },
    {
        let now = now_millis();
        let r = self.complete_pomodoro_session_at(id, now);
        r
    }

    /// Removes the session bearing the identifier, if any.
    pub fn cancel_pomodoro_session(&mut self, id: String)
        requires
            old(self).wf(),
        ensures
            final(self).wf(),
            old(self).agrees_outside_sessions(*final(self)),
            final(self).sessions@ == sessions_without(old(self).sessions@, id@),
            !has_session(final(self).sessions@, id@),
    {
        let ghost s0 = self.sessions@;
        let mut kept: Vec<PomodoroSession> = Vec::new();
        let mut i: usize = 0;
        proof {
            assert(s0.subrange(0, 0) =~= Seq::<PomodoroSession>::empty());
        }
        while i < self.sessions.len()
            invariant
                i <= s0.len(),
                self.sessions@ == s0,
                kept@ == sessions_without(s0.subrange(0, i as int), id@),
            decreases s0.len() - i,
        {
            proof {
                let pre = s0.subrange(0, i as int);
                let post = s0.subrange(0, i as int + 1);
                assert(post.drop_last() =~= pre);
                assert(post.last() == s0[i as int]);
            }
            if !(self.sessions[i].id == id) {
                kept.push(self.sessions[i].duplicate());
            }
            i += 1;
        }
        proof {
            assert(s0.subrange(0, s0.len() as int) =~= s0);
        }
        self.sessions = kept;
        proof {
            lemma_sessions_without_wf(s0, id@);
        }
    }

    /// Aggregates the sessions whose creation instant falls in the
    /// optional range: how many there are, how many completed, the
    /// completed minutes (signed, as the durations were stored), and
    /// their integer average rounded toward zero — absent, not an
    /// error, when nothing completed. The one failure is a running sum
    /// leaving the integer column's range, as the storage engine's
    /// integer SUM would raise while accumulating.
    #[verifier::rlimit(50)]
    pub fn get_pomodoro_stats(&self, start: Option<Millis>, end: Option<Millis>) -> (r: Result<
        PomodoroStats,
        StoreError,
    >)
        ensures
            match r {
                Ok(st) => {
                    &&& range_sums_fit(self.sessions@, start, end)
                    &&& st.total_sessions == range_total(self.sessions@, start, end)
                    &&& st.completed_sessions == range_completed(self.sessions@, start, end)
                    &&& st.total_minutes == range_minutes(self.sessions@, start, end)
                    &&& st.average_minutes == (if st.completed_sessions == 0 {
                        Option::<i64>::None
                    } else {
                        Some(
                            avg_toward_zero(
                                range_minutes(self.sessions@, start, end),
                                range_completed(self.sessions@, start, end),
                            ) as i64,
                        )
                    })
                },
                Err(e) => {
                    &&& e is Overflow
                    &&& !range_sums_fit(self.sessions@, start, end)
                },
            },
    {
        let ghost whole = self.sessions@;
        let mut total: usize = 0;
        let mut completed: usize = 0;
        let mut minutes: i64 = 0;
        let mut i: usize = 0;
        proof {
            assert(whole.subrange(0, 0) =~= Seq::<PomodoroSession>::empty());
        }
        while i < self.sessions.len()
            invariant
                i <= whole.len(),
                self.sessions@ == whole,
                total == range_total(whole.subrange(0, i as int), start, end),
                completed == range_completed(whole.subrange(0, i as int), start, end),
                minutes == range_minutes(whole.subrange(0, i as int), start, end),
                completed <= total <= i,
                forall|k: int|
                    0 <= k <= i ==> i64::MIN as int <= #[trigger] range_minutes(
                        whole.subrange(0, k),
                        start,
                        end,
                    ) <= i64::MAX as int,
            decreases whole.len() - i,
        {
            proof {
                let pre = whole.subrange(0, i as int);
                let post = whole.subrange(0, i as int + 1);
                assert(post.drop_last() =~= pre);
                assert(post.last() == whole[i as int]);
            }
            let s = &self.sessions[i];
            let matches_range = (match start {
                Some(lo) => s.created_at >= lo,
                None => true,
            }) && (match end {
                Some(hi) => s.created_at <= hi,
                None => true,
            });
            if matches_range {
                total += 1;
                if s.is_completed {
                    completed += 1;
                    let d = s.duration_minutes as i64;
                    let overflows = if d >= 0 {
                        minutes > i64::MAX - d
                    } else {
                        minutes < i64::MIN - d
                    };
                    if overflows {
                        proof {
                            let out = range_minutes(
                                whole.subrange(0, i as int + 1),
                                start,
                                end,
                            );
                            assert(out == minutes + d);
                            assert(!range_sums_fit(whole, start, end)) by {
                                if range_sums_fit(whole, start, end) {
                                    assert(i64::MIN as int <= range_minutes(
                                        whole.subrange(0, i as int + 1),
                                        start,
                                        end,
                                    ) <= i64::MAX as int);
                                }
                            }
                        }
                        return Err(StoreError::Overflow);
                    }
                    minutes += d;
                }
            }
            proof {
                assert(i64::MIN as int <= range_minutes(
                    whole.subrange(0, i as int + 1),
                    start,
                    end,
                ) <= i64::MAX as int);
            }
            i += 1;
        }
        proof {
            assert(whole.subrange(0, whole.len() as int) =~= whole);
        }
        let average: Option<i64> = if completed == 0 {
            None
        } else {
            let c: u64 = completed as u64;
            let mag: u64 = if minutes >= 0 {
                minutes as u64
            } else if minutes == i64::MIN {
                9223372036854775808u64
            } else {
                (-minutes) as u64
            };
            let q: u64 = mag / c;
            let a: i64 = if minutes >= 0 {
                q as i64
            } else if q == 9223372036854775808u64 {
                i64::MIN
            } else {
                -(q as i64)
            };
            proof {
                assert(c as int == completed as int && c > 0);
                if minutes >= 0 {
                    assert(mag as int == minutes as int);
                    assert(q as int == avg_toward_zero(minutes as int, completed as int));
                } else {
                    assert(mag as int == -(minutes as int));
                    assert(q as int == (mag as int) / (c as int));
                    assert(avg_toward_zero(minutes as int, completed as int) == -(q as int));
                }
            }
            Some(a)
        };
        Ok(
            PomodoroStats {
                total_sessions: total,
                completed_sessions: completed,
                total_minutes: minutes,
                average_minutes: average,
            },
        )
    }
}

/// Dropping one identifier's row keeps identifiers pairwise distinct
/// and leaves no row under the identifier.
proof fn lemma_sessions_without_wf(s: Seq<PomodoroSession>, id: Seq<char>)
    requires
        sessions_wf(s),
    ensures
        sessions_wf(sessions_without(s, id)),
        !has_session(sessions_without(s, id), id),
        forall|m: int|
            0 <= m < sessions_without(s, id).len() ==> exists|j: int|
                0 <= j < s.len() && #[trigger] sessions_without(s, id)[m] == s[j],
    decreases s.len(),
{
    let out = sessions_without(s, id);
    if s.len() > 0 {
        lemma_sessions_without_wf(s.drop_last(), id);
        let rest = sessions_without(s.drop_last(), id);
        assert forall|m: int| 0 <= m < out.len() implies exists|j: int|
            0 <= j < s.len() && #[trigger] out[m] == s[j] by {
            if s.last().id@ != id && m == out.len() - 1 {
                assert(out[m] == s[s.len() - 1]);
            } else {
                assert(out[m] == rest[m]);
                let j = choose|j: int| 0 <= j < s.drop_last().len() && rest[m] == s.drop_last()[j];
                assert(out[m] == s[j]);
            }
        }
        assert forall|m: int| 0 <= m < out.len() implies out[m].id@ != id by {
            if !(s.last().id@ != id && m == out.len() - 1) {
                assert(out[m] == rest[m]);
                if out[m].id@ == id {
                    assert(has_session(rest, id));
                }
            }
        }
        if s.last().id@ != id {
            assert forall|a: int, b: int| 0 <= a < b < out.len() implies out[a].id@
                != out[b].id@ by {
                if b == out.len() - 1 {
                    assert(out[a] == rest[a]);
                    let j = choose|j: int|
                        0 <= j < s.drop_last().len() && rest[a] == s.drop_last()[j];
                    assert(out[a] == s[j]);
                    assert(s[j].id@ != s[s.len() - 1].id@);
                }
            }
        }
    }
}

} // verus!
