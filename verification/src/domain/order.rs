//! The orders in which task lists are shown, and sorted insertion.
//!
//! Every order compares a key of integers lexicographically; each key ends
//! with the task id (or its negation), so tasks with distinct ids are never
//! tied.

use vstd::prelude::*;

use super::task::Task;
use crate::date::Timestamp;

verus! {

/// The orders used by the store queries and the views.
#[derive(Clone, Copy, Debug, PartialEq, Eq, Structural)]
pub enum TaskOrder {
    /// By position, then id.
    PositionId,
    /// Tasks with a due date first, then by due date, position, id.
    DueFirst,
    /// By due date (absent first), position, id.
    Due,
    /// By project (none first), position, id.
    Project,
    /// By Eisenhower quadrant (do, schedule, delegate, eliminate), position, id.
    Quadrant,
    /// Most recently completed first (never completed last), then highest id.
    RecentlyCompleted,
}

/// Lexicographic strict order on integer sequences.
pub open spec fn lex_lt(a: Seq<int>, b: Seq<int>) -> bool
    decreases a.len(),
{
    if a.len() == 0 || b.len() == 0 {
        false
    } else if a[0] != b[0] {
        a[0] < b[0]
    } else {
        lex_lt(a.drop_first(), b.drop_first())
    }
}

/// Rank of the Eisenhower quadrant: do 0, schedule 1, delegate 2,
/// eliminate 3.
pub open spec fn quad_rank_spec(t: Task) -> int {
    if t.urgent && t.important {
        0
    } else if t.important {
        1
    } else if t.urgent {
        2
    } else {
        3
    }
}

/// The sort key of a task in an order.
pub open spec fn task_key(o: TaskOrder, t: Task) -> Seq<int> {
    let due_some: int = if t.due_date is Some {
        1
    } else {
        0
    };
    let due: int = match t.due_date {
        Some(d) => d@,
        None => 0,
    };
    match o {
        TaskOrder::PositionId => seq![t.position as int, t.id as int],
        TaskOrder::DueFirst => seq![1 - due_some, due_some, due, t.position as int, t.id as int],
        TaskOrder::Due => seq![due_some, due, t.position as int, t.id as int],
        TaskOrder::Project => seq![
            if t.project_id is Some {
                1
            } else {
                0
            },
            match t.project_id {
                Some(p) => p as int,
                None => 0,
            },
            t.position as int,
            t.id as int,
        ],
        TaskOrder::Quadrant => seq![quad_rank_spec(t), t.position as int, t.id as int],
        TaskOrder::RecentlyCompleted => seq![
            if t.completed_at is Some {
                -1
            } else {
                0
            },
            match t.completed_at {
                Some(c) => -(c.secs as int),
                None => 0,
            },
            match t.completed_at {
                Some(c) => -(c.nanos as int),
                None => 0,
            },
            -(t.id as int),
        ],
    }
}

/// Does `a` come strictly before `b` in order `o`?
pub open spec fn task_before(o: TaskOrder, a: Task, b: Task) -> bool {
    lex_lt(task_key(o, a), task_key(o, b))
}

/// Is `s` strictly increasing in order `o`?
pub open spec fn sorted_by(o: TaskOrder, s: Seq<Task>) -> bool {
    forall|i: int, j: int| 0 <= i < j < s.len() ==> task_before(o, #[trigger] s[i], #[trigger] s[j])
}

proof fn lemma_lex_trans(a: Seq<int>, b: Seq<int>, c: Seq<int>)
    requires
        lex_lt(a, b),
        lex_lt(b, c),
    ensures
        lex_lt(a, c),
    decreases a.len(),
{
    if a[0] == b[0] && b[0] == c[0] {
        lemma_lex_trans(a.drop_first(), b.drop_first(), c.drop_first());
    }
}

proof fn lemma_lex_irrefl(a: Seq<int>)
    ensures
        !lex_lt(a, a),
    decreases a.len(),
{
    if a.len() > 0 {
        lemma_lex_irrefl(a.drop_first());
    }
}

proof fn lemma_lex_total(a: Seq<int>, b: Seq<int>)
    requires
        a.len() == b.len(),
        a.len() > 0,
        a.last() != b.last(),
    ensures
        lex_lt(a, b) || lex_lt(b, a),
    decreases a.len(),
{
    if a[0] == b[0] {
        assert(a.drop_first().last() == a.last());
        assert(b.drop_first().last() == b.last());
        lemma_lex_total(a.drop_first(), b.drop_first());
    }
}

proof fn lemma_lex_asym(a: Seq<int>, b: Seq<int>)
    requires
        lex_lt(a, b),
    ensures
        !lex_lt(b, a),
    decreases a.len(),
{
    if a[0] == b[0] {
        lemma_lex_asym(a.drop_first(), b.drop_first());
    }
}

/// The task orders are transitive.
pub proof fn lemma_before_trans(o: TaskOrder, a: Task, b: Task, c: Task)
    requires
        task_before(o, a, b),
        task_before(o, b, c),
    ensures
        task_before(o, a, c),
{
    lemma_lex_trans(task_key(o, a), task_key(o, b), task_key(o, c));
}

/// The task orders are irreflexive and asymmetric.
pub proof fn lemma_before_asym(o: TaskOrder, a: Task, b: Task)
    ensures
        !task_before(o, a, a),
        task_before(o, a, b) ==> !task_before(o, b, a),
{
    lemma_lex_irrefl(task_key(o, a));
    if task_before(o, a, b) {
        lemma_lex_asym(task_key(o, a), task_key(o, b));
    }
}

/// Tasks with distinct ids are ordered one way or the other.
pub proof fn lemma_before_total(o: TaskOrder, a: Task, b: Task)
    requires
        a.id != b.id,
    ensures
        task_before(o, a, b) || task_before(o, b, a),
{
    let ka = task_key(o, a);
    let kb = task_key(o, b);
    assert(ka.last() != kb.last());
    lemma_lex_total(ka, kb);
}

/// Executable rank of the Eisenhower quadrant.
pub fn quad_rank(t: &Task) -> (r: u8)
    ensures
        r as int == quad_rank_spec(*t),
{
    match (t.urgent, t.important) {
        (true, true) => 0,
        (false, true) => 1,
        (true, false) => 2,
        (false, false) => 3,
    }
}

/// Compares two integer keys of the same length.
fn lex_less(a: &Vec<i128>, b: &Vec<i128>) -> (r: bool)
    requires
        a.len() == b.len(),
    ensures
        r == lex_lt(a@.map_values(|x: i128| x as int), b@.map_values(|x: i128| x as int)),
{
    let ghost fa = a@.map_values(|x: i128| x as int);
    let ghost fb = b@.map_values(|x: i128| x as int);
    let mut i: usize = 0;
    assert(fa.skip(0) =~= fa);
    assert(fb.skip(0) =~= fb);
    while i < a.len()
        invariant
            a.len() == b.len(),
            i <= a.len(),
            fa == a@.map_values(|x: i128| x as int),
            fb == b@.map_values(|x: i128| x as int),
            lex_lt(fa, fb) == lex_lt(fa.skip(i as int), fb.skip(i as int)),
        decreases a.len() - i,
    {
        assert(fa.skip(i as int)[0] == a@[i as int] as int);
        assert(fb.skip(i as int)[0] == b@[i as int] as int);
        if a[i] != b[i] {
            return a[i] < b[i];
        }
        assert(fa.skip(i as int).drop_first() =~= fa.skip(i + 1));
        assert(fb.skip(i as int).drop_first() =~= fb.skip(i + 1));
        i = i + 1;
    }
    false
}

/// The key of a task as machine integers.
fn key_of(o: TaskOrder, t: &Task) -> (k: Vec<i128>)
    ensures
        k@.map_values(|x: i128| x as int) == task_key(o, *t),
        k@.len() == task_key(o, *t).len(),
{
    let due_some: i128 = if t.due_date.is_some() {
        1
    } else {
        0
    };
    let due: i128 = match t.due_date {
        Some(d) => d.days_from_ce() as i128,
        None => 0,
    };
    let k: Vec<i128> = match o {
        TaskOrder::PositionId => vec![t.position as i128, t.id as i128],
        TaskOrder::DueFirst => {
            let due_none: i128 = 1 - due_some;
            vec![due_none, due_some, due, t.position as i128, t.id as i128]
        },
        TaskOrder::Due => vec![due_some, due, t.position as i128, t.id as i128],
        TaskOrder::Project => vec![
            if t.project_id.is_some() {
                1
            } else {
                0
            },
            match t.project_id {
                Some(p) => p as i128,
                None => 0,
            },
            t.position as i128,
            t.id as i128,
        ],
        TaskOrder::Quadrant => vec![quad_rank(t) as i128, t.position as i128, t.id as i128],
        TaskOrder::RecentlyCompleted => {
            let done_first: i128 = if t.completed_at.is_some() {
                -1
            } else {
                0
            };
            let secs: i128 = match t.completed_at {
                Some(c) => 0 - (c.secs as i128),
                None => 0,
            };
            let nanos: i128 = match t.completed_at {
                Some(c) => 0 - (c.nanos as i128),
                None => 0,
            };
            let id_desc: i128 = 0 - (t.id as i128);
            vec![done_first, secs, nanos, id_desc]
        },
    };
    assert(k@.map_values(|x: i128| x as int) =~= task_key(o, *t));
    k
}

/// Does `a` come strictly before `b` in order `o`?
pub fn before(o: TaskOrder, a: &Task, b: &Task) -> (r: bool)
    ensures
        r == task_before(o, *a, *b),
{
    let ka = key_of(o, a);
    let kb = key_of(o, b);
    assert(task_key(o, *a).len() == task_key(o, *b).len());
    lex_less(&ka, &kb)
}

/// Inserts `t` into `v`, kept sorted in order `o`, given that no task in `v`
/// has the id of `t`.
pub fn insert_sorted(v: &mut Vec<Task>, t: Task, o: TaskOrder)
    requires
        sorted_by(o, old(v)@),
        forall|i: int| 0 <= i < old(v)@.len() ==> (#[trigger] old(v)@[i]).id != t.id,
    ensures
        sorted_by(o, final(v)@),
        final(v)@.to_multiset() == old(v)@.to_multiset().insert(t),
        forall|x: Task| #[trigger] final(v)@.contains(x) <==> (old(v)@.contains(x) || x == t),
{
    let mut p: usize = 0;
    while p < v.len() && !before(o, &t, &v[p])
        invariant
            p <= v.len(),
            forall|i: int| 0 <= i < p ==> task_before(o, #[trigger] v@[i], t),
            forall|i: int| 0 <= i < v@.len() ==> (#[trigger] v@[i]).id != t.id,
        decreases v.len() - p,
    {
        proof {
            lemma_before_total(o, t, v@[p as int]);
        }
        p = p + 1;
    }
    let ghost old_v = v@;
    proof {
        assert forall|j: int| p <= j < old_v.len() implies task_before(o, t, #[trigger] old_v[j]) by {
            if j > p {
                lemma_before_trans(o, t, old_v[p as int], old_v[j]);
            }
        }
        old_v.insert_ensures(p as int, t);
        vstd::seq_lib::to_multiset_insert(old_v, p as int, t);
    }
    v.insert(p, t);
    proof {
        let nv = v@;
        assert(nv == old_v.insert(p as int, t));
        assert forall|i: int, j: int| 0 <= i < j < nv.len() implies task_before(
            o,
            #[trigger] nv[i],
            #[trigger] nv[j],
        ) by {
            if j < p {
            } else if j == p {
            } else if i < p {
                lemma_before_trans(o, nv[i], t, nv[j]);
            } else if i == p {
            } else {
            }
        }
        assert forall|x: Task| #[trigger] nv.contains(x) <==> (old_v.contains(x) || x == t) by {
            if nv.contains(x) {
                let k = choose|k: int| 0 <= k < nv.len() && nv[k] == x;
                if k < p {
                    assert(old_v[k] == x);
                } else if k > p {
                    assert(old_v[k - 1] == x);
                }
            }
            if old_v.contains(x) {
                let k = choose|k: int| 0 <= k < old_v.len() && old_v[k] == x;
                if k < p {
                    assert(nv[k] == x);
                } else {
                    assert(nv[k + 1] == x);
                }
            }
            if x == t {
                assert(nv[p as int] == x);
            }
        }
    }
}


/// Is `x` a later instant than `y`?
pub open spec fn later(x: Timestamp, y: Timestamp) -> bool {
    x.secs > y.secs || (x.secs == y.secs && x.nanos > y.nanos)
}

/// What each order puts first, on the tasks' fields:
/// - position then id: a smaller position, then a smaller id;
/// - due first ("Hoy"): tasks with a due date before those without, an
///   earlier due date first, then position and id;
/// - due ("Próximas"): tasks without a due date first, then an earlier due
///   date, then position and id;
/// - project: tasks without project first, then a smaller project id, then
///   position and id;
/// - quadrant: urgent and important, then important only, then urgent
///   only, then neither; then position and id;
/// - recently completed: completed tasks before the others, a later
///   completion first, then a higher id.
pub proof fn law_order_fields(a: Task, b: Task)
    ensures
        a.position < b.position ==> task_before(TaskOrder::PositionId, a, b),
        a.position == b.position && a.id < b.id ==> task_before(TaskOrder::PositionId, a, b),
        a.due_date is Some && b.due_date is None ==> task_before(TaskOrder::DueFirst, a, b),
        (a.due_date matches Some(x) && b.due_date matches Some(y) && x@ < y@) ==> task_before(
            TaskOrder::DueFirst,
            a,
            b,
        ),
        a.due_date == b.due_date && a.position < b.position ==> task_before(TaskOrder::DueFirst, a, b),
        a.due_date == b.due_date && a.position == b.position && a.id < b.id ==> task_before(
            TaskOrder::DueFirst,
            a,
            b,
        ),
        a.due_date is None && b.due_date is Some ==> task_before(TaskOrder::Due, a, b),
        (a.due_date matches Some(x) && b.due_date matches Some(y) && x@ < y@) ==> task_before(TaskOrder::Due, a, b),
        a.due_date == b.due_date && a.position < b.position ==> task_before(TaskOrder::Due, a, b),
        a.due_date == b.due_date && a.position == b.position && a.id < b.id ==> task_before(TaskOrder::Due, a, b),
        a.project_id is None && b.project_id is Some ==> task_before(TaskOrder::Project, a, b),
        (a.project_id matches Some(x) && b.project_id matches Some(y) && x < y) ==> task_before(
            TaskOrder::Project,
            a,
            b,
        ),
        a.project_id == b.project_id && a.position < b.position ==> task_before(TaskOrder::Project, a, b),
        a.project_id == b.project_id && a.position == b.position && a.id < b.id ==> task_before(
            TaskOrder::Project,
            a,
            b,
        ),
        a.urgent && a.important && !(b.urgent && b.important) ==> task_before(TaskOrder::Quadrant, a, b),
        !a.urgent && a.important && !b.important ==> task_before(TaskOrder::Quadrant, a, b),
        a.urgent && !a.important && !b.urgent && !b.important ==> task_before(TaskOrder::Quadrant, a, b),
        a.urgent == b.urgent && a.important == b.important && a.position < b.position ==> task_before(
            TaskOrder::Quadrant,
            a,
            b,
        ),
        a.urgent == b.urgent && a.important == b.important && a.position == b.position && a.id < b.id
            ==> task_before(TaskOrder::Quadrant, a, b),
        a.completed_at is Some && b.completed_at is None ==> task_before(TaskOrder::RecentlyCompleted, a, b),
        (a.completed_at matches Some(x) && b.completed_at matches Some(y) && later(x, y)) ==> task_before(
            TaskOrder::RecentlyCompleted,
            a,
            b,
        ),
        a.completed_at == b.completed_at && a.id > b.id ==> task_before(TaskOrder::RecentlyCompleted, a, b),
{
    reveal_with_fuel(lex_lt, 6);
}

/// A sorted listing never puts a task after one it comes before: in a
/// stable sort `r` in order `o`, a later element never comes before an
/// earlier one.
pub proof fn law_sorted_never_inverts(o: TaskOrder, s: Seq<Task>, r: Seq<Task>, idx: Seq<int>, i: int, j: int)
    requires
        stable_sorted(o, s, r, idx),
        0 <= i < j < r.len(),
    ensures
        !task_before(o, r[j], r[i]),
{
    assert(stable_before(o, s[idx[i]], idx[i], s[idx[j]], idx[j]));
    assert(r[i] == s[idx[i]] && r[j] == s[idx[j]]);
    lemma_before_asym(o, r[i], r[j]);
    if task_key(o, r[i]) == task_key(o, r[j]) {
        lemma_before_asym(o, r[j], r[j]);
    }
}

/// `a` comes before `b` in order `o`, ties broken by their positions `i`
/// and `j` in the input (a stable sort).
pub open spec fn stable_before(o: TaskOrder, a: Task, i: int, b: Task, j: int) -> bool {
    task_before(o, a, b) || (task_key(o, a) == task_key(o, b) && i < j)
}

/// `r` is `s` sorted stably in order `o`: `r` lists the tasks of `s` by a
/// permutation `idx` of its positions, ordered by key and then by position.
pub open spec fn stable_sorted(o: TaskOrder, s: Seq<Task>, r: Seq<Task>, idx: Seq<int>) -> bool {
    &&& idx.len() == s.len()
    &&& r.len() == s.len()
    &&& forall|k: int| 0 <= k < idx.len() ==> 0 <= #[trigger] idx[k] < s.len() && r[k] == s[idx[k]]
    &&& forall|a: int, b: int| 0 <= a < idx.len() && 0 <= b < idx.len() && a != b ==> idx[a] != idx[b]
    &&& forall|a: int, b: int| 0 <= a < b < idx.len() ==> stable_before(o, s[#[trigger] idx[a]], idx[a], s[#[trigger] idx[b]], idx[b])
}

proof fn lemma_stable_total(o: TaskOrder, a: Task, i: int, b: Task, j: int)
    requires
        i < j,
        !task_before(o, b, a),
    ensures
        stable_before(o, a, i, b, j),
{
    let ka = task_key(o, a);
    let kb = task_key(o, b);
    if !task_before(o, a, b) && ka != kb {
        assert(ka.len() == kb.len());
        lemma_lex_total_general(ka, kb);
    }
}

proof fn lemma_lex_total_general(a: Seq<int>, b: Seq<int>)
    requires
        a.len() == b.len(),
        a != b,
    ensures
        lex_lt(a, b) || lex_lt(b, a),
    decreases a.len(),
{
    if a.len() == 0 {
        assert(a =~= b);
    } else if a[0] == b[0] {
        if a.drop_first() == b.drop_first() {
            assert forall|k: int| 0 <= k < a.len() implies a[k] == b[k] by {
                if k > 0 {
                    assert(a[k] == a.drop_first()[k - 1]);
                    assert(b[k] == b.drop_first()[k - 1]);
                }
            }
            assert(a =~= b);
        }
        lemma_lex_total_general(a.drop_first(), b.drop_first());
    }
}

proof fn lemma_stable_trans(o: TaskOrder, a: Task, i: int, b: Task, j: int, c: Task, k: int)
    requires
        stable_before(o, a, i, b, j),
        stable_before(o, b, j, c, k),
    ensures
        stable_before(o, a, i, c, k),
{
    if task_before(o, a, b) && task_before(o, b, c) {
        lemma_before_trans(o, a, b, c);
    }
}

/// Sorts `v` stably in order `o` (what `sort_by` does with the order's
/// comparison).
pub fn sort_stable(v: &Vec<Task>, o: TaskOrder) -> (r: Vec<Task>)
    ensures
        exists|idx: Seq<int>| stable_sorted(o, v@, r@, idx),
{
    let mut idx: Vec<usize> = Vec::new();
    let mut i: usize = 0;
    while i < v.len()
        invariant
            i <= v@.len(),
            idx@.len() == i,
            forall|k: int| 0 <= k < idx@.len() ==> #[trigger] idx@[k] < i,
            forall|a: int, b: int| 0 <= a < idx@.len() && 0 <= b < idx@.len() && a != b ==> idx@[a] != idx@[b],
            forall|a: int, b: int|
                0 <= a < b < idx@.len() ==> stable_before(o, v@[#[trigger] idx@[a] as int], idx@[a] as int, v@[#[trigger] idx@[b] as int], idx@[b] as int),
        decreases v@.len() - i,
    {
        let mut p: usize = 0;
        while p < idx.len() && !before(o, &v[i], &v[idx[p]])
            invariant
                p <= idx@.len(),
                i < v@.len(),
                forall|k: int| 0 <= k < idx@.len() ==> #[trigger] idx@[k] < i,
                forall|k: int| 0 <= k < p ==> stable_before(o, v@[#[trigger] idx@[k] as int], idx@[k] as int, v@[i as int], i as int),
            decreases idx@.len() - p,
        {
            proof {
                lemma_stable_total(o, v@[idx@[p as int] as int], idx@[p as int] as int, v@[i as int], i as int);
            }
            p = p + 1;
        }
        let ghost old_idx = idx@;
        proof {
            assert forall|k: int| p <= k < old_idx.len() implies stable_before(o, v@[i as int], i as int, v@[#[trigger] old_idx[k] as int], old_idx[k] as int) by {
                if k > p {
                    lemma_stable_trans(o, v@[i as int], i as int, v@[old_idx[p as int] as int], old_idx[p as int] as int, v@[old_idx[k] as int], old_idx[k] as int);
                }
            }
        }
        idx.insert(p, i);
        proof {
            let ni = idx@;
            assert(ni == old_idx.insert(p as int, i));
            assert forall|a: int, b: int|
                0 <= a < b < ni.len() implies stable_before(o, v@[#[trigger] ni[a] as int], ni[a] as int, v@[#[trigger] ni[b] as int], ni[b] as int) by {
                if a < p && b > p {
                    lemma_stable_trans(o, v@[ni[a] as int], ni[a] as int, v@[i as int], i as int, v@[ni[b] as int], ni[b] as int);
                } else if a < p && b < p {
                    assert(ni[a] == old_idx[a] && ni[b] == old_idx[b]);
                } else if a > p {
                    assert(ni[a] == old_idx[a - 1] && ni[b] == old_idx[b - 1]);
                } else if a < p && b == p {
                } else {
                    assert(ni[b] == old_idx[b - 1]);
                }
            }
            assert forall|a: int, b: int| 0 <= a < ni.len() && 0 <= b < ni.len() && a != b implies ni[a] != ni[b] by {
                if a != p && b != p {
                    let ka = if a < p { a } else { a - 1 };
                    let kb = if b < p { b } else { b - 1 };
                    assert(ni[a] == old_idx[ka] && ni[b] == old_idx[kb]);
                } else if a == p {
                    let kb = if b < p { b } else { b - 1 };
                    assert(ni[b] == old_idx[kb]);
                } else {
                    let ka = if a < p { a } else { a - 1 };
                    assert(ni[a] == old_idx[ka]);
                }
            }
            assert forall|k: int| 0 <= k < ni.len() implies #[trigger] ni[k] < i + 1 by {
                if k < p {
                    assert(ni[k] == old_idx[k]);
                } else if k > p {
                    assert(ni[k] == old_idx[k - 1]);
                }
            }
        }
        i = i + 1;
    }
    let mut r: Vec<Task> = Vec::new();
    let mut k: usize = 0;
    while k < idx.len()
        invariant
            k <= idx@.len(),
            idx@.len() == v@.len(),
            forall|m: int| 0 <= m < idx@.len() ==> #[trigger] idx@[m] < v@.len(),
            r@.len() == k,
            forall|m: int| 0 <= m < k ==> r@[m] == v@[#[trigger] idx@[m] as int],
        decreases idx@.len() - k,
    {
        r.push(v[idx[k]].duplicate());
        k = k + 1;
    }
    let ghost gi = idx@.map_values(|x: usize| x as int);
    assert forall|a: int, b: int| 0 <= a < gi.len() && 0 <= b < gi.len() && a != b implies gi[a] != gi[b] by {
        assert(idx@[a] != idx@[b]);
    }
    assert(stable_sorted(o, v@, r@, gi));
    r
}
} // verus!
