//! Listing order and the task position engine.
//!
//! Every listing leaves the store in insertion order and sorts a copy on
//! the way out, each entity under its documented key. Tasks sort by
//! (position ascending, creation time descending); the position itself
//! is assigned at creation as one past the scope's maximum and may later
//! be reassigned freely, so it is an advisory sort key only.

use vstd::prelude::*;

verus! {

use crate::models::{Note, Task, Project, Tag, PomodoroSession, opt_str_view};
use crate::store::parent_of;

// ---- lexicographic order on character sequences ------------------------

/// `a` at or after position `i` compares at-most `b`: the usual
/// lexicographic order on code points, shorter prefixes first.
pub open spec fn lex_le_from(a: Seq<char>, b: Seq<char>, i: int) -> bool
    decreases a.len() - i,
{
    if i < 0 || i >= a.len() {
        true
    } else if i >= b.len() {
        false
    } else if (a[i] as int) < (b[i] as int) {
        true
    } else if (b[i] as int) < (a[i] as int) {
        false
    } else {
        lex_le_from(a, b, i + 1)
    }
}

pub open spec fn lex_le(a: Seq<char>, b: Seq<char>) -> bool {
    lex_le_from(a, b, 0)
}

proof fn lemma_lex_total_from(a: Seq<char>, b: Seq<char>, i: int)
    ensures
        lex_le_from(a, b, i) || lex_le_from(b, a, i),
    decreases a.len() - i,
{
    if 0 <= i < a.len() && i < b.len() && a[i] == b[i] {
        lemma_lex_total_from(a, b, i + 1);
    }
}

/// Any two character sequences compare one way or the other.
pub proof fn lemma_lex_total(a: Seq<char>, b: Seq<char>)
    ensures
        lex_le(a, b) || lex_le(b, a),
{
    lemma_lex_total_from(a, b, 0);
}

proof fn lemma_lex_trans_from(a: Seq<char>, b: Seq<char>, c: Seq<char>, i: int)
    requires
        lex_le_from(a, b, i),
        lex_le_from(b, c, i),
    ensures
        lex_le_from(a, c, i),
    decreases a.len() - i,
{
    if 0 <= i < a.len() && i < b.len() && i < c.len() && a[i] == b[i] && b[i] == c[i] {
        lemma_lex_trans_from(a, b, c, i + 1);
    }
}

/// Lexicographic comparison chains.
pub proof fn lemma_lex_trans(a: Seq<char>, b: Seq<char>, c: Seq<char>)
    requires
        lex_le(a, b),
        lex_le(b, c),
    ensures
        lex_le(a, c),
{
    lemma_lex_trans_from(a, b, c, 0);
}

/// Compares two strings in lexicographic code-point order.
pub fn str_lex_le(a: &str, b: &str) -> (r: bool)
    ensures
        r == lex_le(a@, b@),
{
    let alen = a.unicode_len();
    let blen = b.unicode_len();
    let mut i: usize = 0;
    loop
        invariant
            i <= alen,
            alen == a@.len(),
            blen == b@.len(),
            lex_le(a@, b@) == lex_le_from(a@, b@, i as int),
        decreases alen - i,
    {
        if i >= alen {
            return true;
        }
        if i >= blen {
            return false;
        }
        let ca = a.get_char(i);
        let cb = b.get_char(i);
        if (ca as u32) < (cb as u32) {
            return true;
        }
        if (cb as u32) < (ca as u32) {
            return false;
        }
        i += 1;
    }
}

// ---- the listing orders ------------------------------------------------

/// Notes list most-recently-modified first.
pub open spec fn note_le(a: Note, b: Note) -> bool {
    a.updated_at >= b.updated_at
}

/// Tasks list by position ascending, creation time descending as the
/// deterministic tie-break.
pub open spec fn task_le(a: Task, b: Task) -> bool {
    a.position < b.position || (a.position == b.position && a.created_at >= b.created_at)
}

/// Projects list most-recently-created first.
pub open spec fn project_le(a: Project, b: Project) -> bool {
    a.created_at >= b.created_at
}

/// Sessions list most-recently-created first.
pub open spec fn session_le(a: PomodoroSession, b: PomodoroSession) -> bool {
    a.created_at >= b.created_at
}

/// Tags list by name ascending.
pub open spec fn tag_le(a: Tag, b: Tag) -> bool {
    lex_le(a.name@, b.name@)
}

pub open spec fn notes_sorted(s: Seq<Note>) -> bool {
    forall|i: int, j: int| 0 <= i < j < s.len() ==> #[trigger] note_le(s[i], s[j])
}

pub open spec fn tasks_sorted(s: Seq<Task>) -> bool {
    forall|i: int, j: int| 0 <= i < j < s.len() ==> #[trigger] task_le(s[i], s[j])
}

pub open spec fn projects_sorted(s: Seq<Project>) -> bool {
    forall|i: int, j: int| 0 <= i < j < s.len() ==> #[trigger] project_le(s[i], s[j])
}

pub open spec fn sessions_sorted(s: Seq<PomodoroSession>) -> bool {
    forall|i: int, j: int| 0 <= i < j < s.len() ==> #[trigger] session_le(s[i], s[j])
}

pub open spec fn tags_sorted(s: Seq<Tag>) -> bool {
    forall|i: int, j: int| 0 <= i < j < s.len() ==> #[trigger] tag_le(s[i], s[j])
}

// ---- ordered insertion, one routine per listing ------------------------

pub fn insert_note_sorted(out: &mut Vec<Note>, n: Note)
    requires
        notes_sorted(old(out)@),
    ensures
        notes_sorted(final(out)@),
        final(out)@.to_multiset() == old(out)@.to_multiset().insert(n),
{
    let ghost s0 = out@;
    let mut k: usize = 0;
    while k < out.len() && out[k].updated_at >= n.updated_at
        invariant
            k <= out@.len(),
            out@ == s0,
            forall|j: int| 0 <= j < k ==> note_le(s0[j], n),
        decreases out@.len() - k,
    {
        k += 1;
    }
    proof {
        assert forall|j: int| k <= j < s0.len() implies note_le(n, s0[j]) by {
            assert(note_le(s0[k as int], s0[j]) || k as int == j);
        }
    }
    out.insert(k, n);
    proof {
        broadcast use vstd::seq_lib::group_to_multiset_ensures;

        s0.insert_ensures(k as int, n);
        let s1 = out@;
        assert forall|i: int, j: int| 0 <= i < j < s1.len() implies #[trigger] note_le(
            s1[i],
            s1[j],
        ) by {
            if i < k && j < k {
                assert(s1[i] == s0[i] && s1[j] == s0[j]);
            } else if i < k && j == k {
                assert(s1[i] == s0[i] && s1[j] == n);
            } else if i < k && j > k {
                assert(s1[i] == s0[i] && s1[j] == s0[j - 1]);
            } else if i == k {
                if j > k {
                    assert(s1[j] == s0[j - 1]);
                }
            } else {
                assert(s1[i] == s0[i - 1] && s1[j] == s0[j - 1]);
            }
        }
        assert(s1.to_multiset() =~= s0.to_multiset().insert(n));
    }
}

pub fn insert_task_sorted(out: &mut Vec<Task>, t: Task)
    requires
        tasks_sorted(old(out)@),
    ensures
        tasks_sorted(final(out)@),
        final(out)@.to_multiset() == old(out)@.to_multiset().insert(t),
{
    let ghost s0 = out@;
    let mut k: usize = 0;
    while k < out.len() && (out[k].position < t.position || (out[k].position == t.position
        && out[k].created_at >= t.created_at))
        invariant
            k <= out@.len(),
            out@ == s0,
            forall|j: int| 0 <= j < k ==> task_le(s0[j], t),
        decreases out@.len() - k,
    {
        k += 1;
    }
    proof {
        assert forall|j: int| k <= j < s0.len() implies task_le(t, s0[j]) by {
            assert(task_le(s0[k as int], s0[j]) || k as int == j);
        }
    }
    out.insert(k, t);
    proof {
        broadcast use vstd::seq_lib::group_to_multiset_ensures;

        s0.insert_ensures(k as int, t);
        let s1 = out@;
        assert forall|i: int, j: int| 0 <= i < j < s1.len() implies #[trigger] task_le(
            s1[i],
            s1[j],
        ) by {
            if i < k && j < k {
                assert(s1[i] == s0[i] && s1[j] == s0[j]);
            } else if i < k && j == k {
                assert(s1[i] == s0[i] && s1[j] == t);
            } else if i < k && j > k {
                assert(s1[i] == s0[i] && s1[j] == s0[j - 1]);
            } else if i == k {
                if j > k {
                    assert(s1[j] == s0[j - 1]);
                }
            } else {
                assert(s1[i] == s0[i - 1] && s1[j] == s0[j - 1]);
            }
        }
        assert(s1.to_multiset() =~= s0.to_multiset().insert(t));
    }
}

pub fn insert_project_sorted(out: &mut Vec<Project>, p: Project)
    requires
        projects_sorted(old(out)@),
    ensures
        projects_sorted(final(out)@),
        final(out)@.to_multiset() == old(out)@.to_multiset().insert(p),
{
    let ghost s0 = out@;
    let mut k: usize = 0;
    while k < out.len() && out[k].created_at >= p.created_at
        invariant
            k <= out@.len(),
            out@ == s0,
            forall|j: int| 0 <= j < k ==> project_le(s0[j], p),
        decreases out@.len() - k,
    {
        k += 1;
    }
    proof {
        assert forall|j: int| k <= j < s0.len() implies project_le(p, s0[j]) by {
            assert(project_le(s0[k as int], s0[j]) || k as int == j);
        }
    }
    out.insert(k, p);
    proof {
        broadcast use vstd::seq_lib::group_to_multiset_ensures;

        s0.insert_ensures(k as int, p);
        let s1 = out@;
        assert forall|i: int, j: int| 0 <= i < j < s1.len() implies #[trigger] project_le(
            s1[i],
            s1[j],
        ) by {
            if i < k && j < k {
                assert(s1[i] == s0[i] && s1[j] == s0[j]);
            } else if i < k && j == k {
                assert(s1[i] == s0[i] && s1[j] == p);
            } else if i < k && j > k {
                assert(s1[i] == s0[i] && s1[j] == s0[j - 1]);
            } else if i == k {
                if j > k {
                    assert(s1[j] == s0[j - 1]);
                }
            } else {
                assert(s1[i] == s0[i - 1] && s1[j] == s0[j - 1]);
            }
        }
        assert(s1.to_multiset() =~= s0.to_multiset().insert(p));
    }
}

pub fn insert_session_sorted(out: &mut Vec<PomodoroSession>, s: PomodoroSession)
    requires
        sessions_sorted(old(out)@),
    ensures
        sessions_sorted(final(out)@),
        final(out)@.to_multiset() == old(out)@.to_multiset().insert(s),
{
    let ghost s0 = out@;
    let mut k: usize = 0;
    while k < out.len() && out[k].created_at >= s.created_at
        invariant
            k <= out@.len(),
            out@ == s0,
            forall|j: int| 0 <= j < k ==> session_le(s0[j], s),
        decreases out@.len() - k,
    {
        k += 1;
    }
    proof {
        assert forall|j: int| k <= j < s0.len() implies session_le(s, s0[j]) by {
            assert(session_le(s0[k as int], s0[j]) || k as int == j);
        }
    }
    out.insert(k, s);
    proof {
        broadcast use vstd::seq_lib::group_to_multiset_ensures;

        s0.insert_ensures(k as int, s);
        let s1 = out@;
        assert forall|i: int, j: int| 0 <= i < j < s1.len() implies #[trigger] session_le(
            s1[i],
            s1[j],
        ) by {
            if i < k && j < k {
                assert(s1[i] == s0[i] && s1[j] == s0[j]);
            } else if i < k && j == k {
                assert(s1[i] == s0[i] && s1[j] == s);
            } else if i < k && j > k {
                assert(s1[i] == s0[i] && s1[j] == s0[j - 1]);
            } else if i == k {
                if j > k {
                    assert(s1[j] == s0[j - 1]);
                }
            } else {
                assert(s1[i] == s0[i - 1] && s1[j] == s0[j - 1]);
            }
        }
        assert(s1.to_multiset() =~= s0.to_multiset().insert(s));
    }
}

pub fn insert_tag_sorted(out: &mut Vec<Tag>, t: Tag)
    requires
        tags_sorted(old(out)@),
    ensures
        tags_sorted(final(out)@),
        final(out)@.to_multiset() == old(out)@.to_multiset().insert(t),
{
    let ghost s0 = out@;
    let mut k: usize = 0;
    while k < out.len() && str_lex_le(out[k].name.as_str(), t.name.as_str())
        invariant
            k <= out@.len(),
            out@ == s0,
            forall|j: int| 0 <= j < k ==> tag_le(s0[j], t),
        decreases out@.len() - k,
    {
        k += 1;
    }
    proof {
        assert forall|j: int| k <= j < s0.len() implies tag_le(t, s0[j]) by {
            lemma_lex_total(s0[k as int].name@, t.name@);
            if (k as int) < j {
                assert(tag_le(s0[k as int], s0[j]));
                lemma_lex_trans(t.name@, s0[k as int].name@, s0[j].name@);
            }
        }
    }
    out.insert(k, t);
    proof {
        broadcast use vstd::seq_lib::group_to_multiset_ensures;

        s0.insert_ensures(k as int, t);
        let s1 = out@;
        assert forall|i: int, j: int| 0 <= i < j < s1.len() implies #[trigger] tag_le(
            s1[i],
            s1[j],
        ) by {
            if i < k && j < k {
                assert(s1[i] == s0[i] && s1[j] == s0[j]);
            } else if i < k && j == k {
                assert(s1[i] == s0[i] && s1[j] == t);
            } else if i < k && j > k {
                assert(s1[i] == s0[i] && s1[j] == s0[j - 1]);
            } else if i == k {
                if j > k {
                    assert(s1[j] == s0[j - 1]);
                }
            } else {
                assert(s1[i] == s0[i - 1] && s1[j] == s0[j - 1]);
            }
        }
        assert(s1.to_multiset() =~= s0.to_multiset().insert(t));
    }
}

// ---- the position scope ------------------------------------------------

/// Whether any task shares the given parent scope.
pub open spec fn scope_nonempty(s: Seq<Task>, parent: Option<Seq<char>>) -> bool {
    exists|i: int| 0 <= i < s.len() && parent_of(s[i]) == parent
}

/// The greatest position in the scope; one below every possible position
/// when the scope is empty.
pub open spec fn scope_max(s: Seq<Task>, parent: Option<Seq<char>>) -> int
    decreases s.len(),
{
    if s.len() == 0 {
        i64::MIN as int - 1
    } else {
        let rest = scope_max(s.drop_last(), parent);
        if parent_of(s.last()) == parent && s.last().position as int > rest {
            s.last().position as int
        } else {
            rest
        }
    }
}

/// The position a task created into the scope receives: one past the
/// scope's maximum, or 1 for an empty scope.
pub open spec fn next_pos_spec(s: Seq<Task>, parent: Option<Seq<char>>) -> int {
    if scope_nonempty(s, parent) {
        scope_max(s, parent) + 1
    } else {
        1
    }
}

/// Compares two optional identifiers by value.
pub fn opt_str_eq(a: &Option<String>, b: &Option<String>) -> (r: bool)
    ensures
        r == (opt_str_view(*a) == opt_str_view(*b)),
{
    match a {
        None => match b {
            None => true,
            Some(_) => false,
        },
        Some(x) => match b {
            None => false,
            Some(y) => *x == *y,
        },
    }
}

/// Computes the next creation position for the scope, or nothing when
/// the scope's maximum already sits at the top of the integer range.
pub fn next_position(tasks: &Vec<Task>, parent: &Option<String>) -> (r: Option<i64>)
    ensures
        match r {
            Some(p) => p as int == next_pos_spec(tasks@, opt_str_view(*parent)),
            None => scope_nonempty(tasks@, opt_str_view(*parent)) && scope_max(
                tasks@,
                opt_str_view(*parent),
            ) == i64::MAX as int,
        },
{
    let ghost pv = opt_str_view(*parent);
    let mut cur: Option<i64> = None;
    let mut i: usize = 0;
    while i < tasks.len()
        invariant
            i <= tasks@.len(),
            pv == opt_str_view(*parent),
            match cur {
                None => !scope_nonempty(tasks@.subrange(0, i as int), pv),
                Some(m) => scope_nonempty(tasks@.subrange(0, i as int), pv) && m as int
                    == scope_max(tasks@.subrange(0, i as int), pv),
            },
        decreases tasks@.len() - i,
    {
        let ghost pre = tasks@.subrange(0, i as int);
        let ghost post = tasks@.subrange(0, i + 1 as int);
        proof {
            assert(post.drop_last() =~= pre);
            assert(post.last() == tasks@[i as int]);
        }
        if opt_str_eq(&tasks[i].parent_id, parent) {
            proof {
                assert(opt_str_view(tasks@[i as int].parent_id) == pv);
                assert(parent_of(tasks@[i as int]) == pv);
                assert(parent_of(post[i as int]) == pv);
                assert(scope_nonempty(post, pv));
            }
            match cur {
                None => {
                    proof {
                        lemma_scope_max_empty(pre, pv);
                    }
                    cur = Some(tasks[i].position);
                },
                Some(m) => {
                    if tasks[i].position > m {
                        cur = Some(tasks[i].position);
                    }
                },
            }
        } else {
            proof {
                assert(scope_max(post, pv) == scope_max(pre, pv));
                if scope_nonempty(post, pv) {
                    let w = choose|j: int| 0 <= j < post.len() && parent_of(post[j]) == pv;
                    assert(w < pre.len() && parent_of(pre[w]) == pv);
                }
            }
        }
        i += 1;
    }
    proof {
        assert(tasks@.subrange(0, tasks@.len() as int) =~= tasks@);
    }
    match cur {
        None => Some(1),
        Some(m) => {
            if m == i64::MAX {
                None
            } else {
                Some(m + 1)
            }
        },
    }
}

/// An empty scope's maximum is the sentinel below every position.
pub proof fn lemma_scope_max_empty(s: Seq<Task>, parent: Option<Seq<char>>)
    requires
        !scope_nonempty(s, parent),
    ensures
        scope_max(s, parent) == i64::MIN as int - 1,
    decreases s.len(),
{
    if s.len() > 0 {
        assert(parent_of(s[s.len() - 1]) != parent);
        assert(!scope_nonempty(s.drop_last(), parent)) by {
            if scope_nonempty(s.drop_last(), parent) {
                let w = choose|j: int|
                    0 <= j < s.drop_last().len() && parent_of(s.drop_last()[j]) == parent;
                assert(s[w] == s.drop_last()[w]);
                assert(parent_of(s[w]) == parent);
            }
        }
        lemma_scope_max_empty(s.drop_last(), parent);
    }
}

} // verus!
