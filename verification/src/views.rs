//! What the desktop views show and how the keyboard drives them: the
//! GTD and Eisenhower views, blocked tasks, quick-add drafts, keyboard
//! shortcuts and the auto-completion candidates.

use vstd::prelude::*;

use crate::date::Date;
use crate::domain::order::{
    later, law_order_fields, law_sorted_never_inverts, sort_stable, stable_sorted, task_before, TaskOrder,
};
use crate::domain::project::Project;
use crate::domain::quickadd::ParsedQuickAdd;
use crate::domain::rules::status_blocks;
use crate::domain::task::{
    copy_opt_string, status_open, Freq, NewTask, Recurrence, Status, Task, TaskId,
};
use crate::store::keyed::{keep_seq, lemma_keep_from};
use crate::store::mock::{law_tasks_keyed_by_id, MockRepository, TaskFilter};
use crate::text::{
    chars_eq, chars_of, dec, extend_chars, extend_str, lower_seq, owned, string_of, to_ascii_lower,
    u64_to_dec,
};

verus! {

/// The views of the sidebar.
#[derive(Clone, Copy, Debug, PartialEq, Eq, Structural)]
pub enum Screen {
    Inbox,
    Today,
    Upcoming,
    Projects,
    Eisenhower,
    Done,
}

/// The label of a view.
pub open spec fn screen_label(v: Screen) -> Seq<char> {
    match v {
        Screen::Inbox => "Inbox"@,
        Screen::Today => "Hoy"@,
        Screen::Upcoming => "Próximas"@,
        Screen::Projects => "Proyectos"@,
        Screen::Eisenhower => "Eisenhower"@,
        Screen::Done => "Completadas"@,
    }
}

/// The view selected by the digit key `i + 1`.
pub open spec fn screen_at(i: int) -> Screen {
    if i == 0 {
        Screen::Inbox
    } else if i == 1 {
        Screen::Today
    } else if i == 2 {
        Screen::Upcoming
    } else if i == 3 {
        Screen::Projects
    } else if i == 4 {
        Screen::Eisenhower
    } else {
        Screen::Done
    }
}

impl Screen {
    /// The label shown in the sidebar.
    pub fn label(self) -> (r: &'static str)
        ensures
            r@ == screen_label(self),
    {
        match self {
            Screen::Inbox => "Inbox",
            Screen::Today => "Hoy",
            Screen::Upcoming => "Próximas",
            Screen::Projects => "Proyectos",
            Screen::Eisenhower => "Eisenhower",
            Screen::Done => "Completadas",
        }
    }

    /// The views in sidebar order.
    pub fn all() -> (r: [Screen; 6])
        ensures
            forall|i: int| 0 <= i < 6 ==> r@[i] == screen_at(i),
    {
        [Screen::Inbox, Screen::Today, Screen::Upcoming, Screen::Projects, Screen::Eisenhower, Screen::Done]
    }

    /// The view selected by the digit key `i + 1` (`i < 6`).
    pub fn at(i: usize) -> (r: Screen)
        requires
            i < 6,
        ensures
            r == screen_at(i as int),
    {
        if i == 0 {
            Screen::Inbox
        } else if i == 1 {
            Screen::Today
        } else if i == 2 {
            Screen::Upcoming
        } else if i == 3 {
            Screen::Projects
        } else if i == 4 {
            Screen::Eisenhower
        } else {
            Screen::Done
        }
    }
}

// ---------------------------------------------------------------------------
// Visible tasks
// ---------------------------------------------------------------------------

/// Which tasks a view shows, given the blocked ids and today's day number.
pub open spec fn screen_keeps(v: Screen, blocked: Seq<TaskId>, today: int) -> spec_fn(Task) -> bool {
    |t: Task|
        match v {
            Screen::Inbox => status_open(t.status) && t.project_id is None,
            Screen::Today => status_open(t.status) && !blocked.contains(t.id) && ((t.due_date matches Some(
                d,
            ) && d@ <= today) || (t.scheduled_date matches Some(d) && d@ == today)),
            Screen::Upcoming => status_open(t.status) && (t.due_date matches Some(d) && d@ > today),
            Screen::Projects => status_open(t.status),
            Screen::Eisenhower => status_open(t.status),
            Screen::Done => t.status == Status::Done,
        }
}

/// The order of a view.
pub open spec fn screen_order(v: Screen) -> TaskOrder {
    match v {
        Screen::Inbox => TaskOrder::PositionId,
        Screen::Today => TaskOrder::DueFirst,
        Screen::Upcoming => TaskOrder::Due,
        Screen::Projects => TaskOrder::Project,
        Screen::Eisenhower => TaskOrder::Quadrant,
        Screen::Done => TaskOrder::RecentlyCompleted,
    }
}

fn order_of(v: Screen) -> (o: TaskOrder)
    ensures
        o == screen_order(v),
{
    match v {
        Screen::Inbox => TaskOrder::PositionId,
        Screen::Today => TaskOrder::DueFirst,
        Screen::Upcoming => TaskOrder::Due,
        Screen::Projects => TaskOrder::Project,
        Screen::Eisenhower => TaskOrder::Quadrant,
        Screen::Done => TaskOrder::RecentlyCompleted,
    }
}

fn contains_id(v: &Vec<TaskId>, x: TaskId) -> (r: bool)
    ensures
        r == v@.contains(x),
{
    let mut i: usize = 0;
    while i < v.len()
        invariant
            i <= v@.len(),
            forall|k: int| 0 <= k < i ==> v@[k] != x,
        decreases v@.len() - i,
    {
        if v[i] == x {
            return true;
        }
        i = i + 1;
    }
    false
}

fn keeps(t: &Task, v: Screen, blocked: &Vec<TaskId>, today: Date) -> (r: bool)
    ensures
        r == screen_keeps(v, blocked@, today@)(*t),
{
    let open = t.status.is_open();
    match v {
        Screen::Inbox => open && t.project_id.is_none(),
        Screen::Today => {
            open && !contains_id(blocked, t.id) && ((match t.due_date {
                Some(d) => d.le(&today),
                None => false,
            }) || (match t.scheduled_date {
                Some(d) => d.same(&today),
                None => false,
            }))
        },
        Screen::Upcoming => open && (match t.due_date {
            Some(d) => today.lt(&d),
            None => false,
        }),
        Screen::Projects => open,
        Screen::Eisenhower => open,
        Screen::Done => t.status == Status::Done,
    }
}

/// The tasks a view shows, in its order (a stable sort of the tasks it
/// keeps). Blocked tasks are not shown in "Hoy".
pub fn visible_tasks(tasks: &Vec<Task>, v: Screen, blocked: &Vec<TaskId>, today: Date) -> (r: Vec<Task>)
    ensures
        exists|idx: Seq<int>|
            stable_sorted(screen_order(v), keep_seq(tasks@, screen_keeps(v, blocked@, today@)), r@, idx),
{
    let ghost p = screen_keeps(v, blocked@, today@);
    let mut sel: Vec<Task> = Vec::new();
    let mut i: usize = 0;
    while i < tasks.len()
        invariant
            i <= tasks@.len(),
            p == screen_keeps(v, blocked@, today@),
            sel@ == keep_seq(tasks@.take(i as int), p),
        decreases tasks@.len() - i,
    {
        assert(tasks@.take(i + 1).drop_last() =~= tasks@.take(i as int));
        if keeps(&tasks[i], v, blocked, today) {
            sel.push(tasks[i].duplicate());
        }
        i = i + 1;
    }
    assert(tasks@.take(tasks@.len() as int) =~= tasks@);
    sort_stable(&sel, order_of(v))
}

/// Blocked tasks are not shown in "Hoy": every task the Today view lists
/// (a stable sort of the tasks it keeps) is open, not blocked, and due by
/// today or scheduled for today.
pub proof fn law_today_hides_blocked(tasks: Seq<Task>, blocked: Seq<TaskId>, today: int, r: Seq<Task>, idx: Seq<int>)
    requires
        stable_sorted(screen_order(Screen::Today), keep_seq(tasks, screen_keeps(Screen::Today, blocked, today)), r, idx),
    ensures
        forall|k: int|
            0 <= k < r.len() ==> {
                &&& !blocked.contains((#[trigger] r[k]).id)
                &&& status_open(r[k].status)
                &&& (r[k].due_date matches Some(d) && d@ <= today) || (r[k].scheduled_date matches Some(d) && d@
                    == today)
            },
{
    let p = screen_keeps(Screen::Today, blocked, today);
    let s = keep_seq(tasks, p);
    lemma_keep_from(tasks, p);
    assert forall|k: int| 0 <= k < r.len() implies {
        &&& !blocked.contains((#[trigger] r[k]).id)
        &&& status_open(r[k].status)
        &&& (r[k].due_date matches Some(d) && d@ <= today) || (r[k].scheduled_date matches Some(d) && d@
            == today)
    } by {
        let i = idx[k];
        assert(r[k] == s[i]);
        assert(s.contains(s[i]));
        assert(p(s[i]));
    }
}

/// What each view lists first: in the list `r` a view shows (a stable
/// sort of the tasks it keeps), for every two tasks, the earlier one
/// - in Inbox has a position no larger;
/// - in Hoy has a due date if the later one has, and no later one;
/// - in Próximas has a due date no later;
/// - in Proyectos has no project if the later one has none, else a
///   project id no larger;
/// - in Eisenhower is urgent and important if the later one is, and
///   important if the later one is important but not urgent;
/// - in Completadas was not completed before the later one.
pub proof fn law_view_orders(v: Screen, tasks: Seq<Task>, blocked: Seq<TaskId>, today: int, r: Seq<Task>, idx: Seq<int>, i: int, j: int)
    requires
        stable_sorted(screen_order(v), keep_seq(tasks, screen_keeps(v, blocked, today)), r, idx),
        0 <= i < j < r.len(),
    ensures
        v == Screen::Inbox ==> r[i].position <= r[j].position,
        v == Screen::Today ==> (r[j].due_date is Some ==> r[i].due_date is Some),
        v == Screen::Today ==> (r[i].due_date is Some && r[j].due_date is Some ==> r[i].due_date->0@ <= r[j].due_date->0@),
        v == Screen::Upcoming ==> (r[i].due_date is Some && r[j].due_date is Some ==> r[i].due_date->0@ <= r[j].due_date->0@),
        v == Screen::Upcoming ==> (r[i].due_date is Some ==> r[j].due_date is Some),
        v == Screen::Projects ==> (r[j].project_id is None ==> r[i].project_id is None),
        v == Screen::Projects ==> (r[i].project_id is Some && r[j].project_id is Some ==> r[i].project_id->0 <= r[j].project_id->0),
        v == Screen::Eisenhower ==> (r[j].urgent && r[j].important ==> r[i].urgent && r[i].important),
        v == Screen::Eisenhower ==> (!r[j].urgent && r[j].important ==> r[i].important),
        v == Screen::Done ==> !(r[j].completed_at matches Some(x) && r[i].completed_at matches Some(y) && later(
            x,
            y,
        )),
        v == Screen::Done ==> (r[j].completed_at is Some ==> r[i].completed_at is Some),
{
    law_sorted_never_inverts(screen_order(v), keep_seq(tasks, screen_keeps(v, blocked, today)), r, idx, i, j);
    law_order_fields(r[j], r[i]);
    if let (Some(x), Some(y)) = (r[i].due_date, r[j].due_date) {
        if y@ < x@ {
            assert(task_before(TaskOrder::DueFirst, r[j], r[i]));
            assert(task_before(TaskOrder::Due, r[j], r[i]));
        }
    }
}

/// The views agree with the store's queries: with no blocked task, the
/// Today view keeps exactly the tasks `tasks_today` selects, and the
/// Upcoming view those `tasks_upcoming` selects, in the same orders.
pub proof fn law_views_match_store(s: MockRepository, t: Task, today: Date)
    ensures
        screen_keeps(Screen::Today, Seq::empty(), today@)(t) == s.selects(TaskFilter::Today(today), t),
        screen_keeps(Screen::Upcoming, Seq::empty(), today@)(t) == s.selects(TaskFilter::Upcoming(today), t),
        screen_order(Screen::Today) == TaskOrder::DueFirst,
        screen_order(Screen::Upcoming) == TaskOrder::Due,
{
}

/// The status of the last task with id `d`, if any.
pub open spec fn status_of(tasks: Seq<Task>, d: TaskId) -> Option<Status>
    decreases tasks.len(),
{
    if tasks.len() == 0 {
        None
    } else if tasks.last().id == d {
        Some(tasks.last().status)
    } else {
        status_of(tasks.drop_last(), d)
    }
}

/// Is a task with these prerequisites blocked: is one of them an open task?
pub open spec fn deps_block(tasks: Seq<Task>, ds: Seq<TaskId>) -> bool {
    exists|k: int| 0 <= k < ds.len() && (status_of(tasks, #[trigger] ds[k]) matches Some(s) && status_open(s))
}

/// What `status_of` finds is the status of a task with that id, and it
/// finds nothing only when no task has that id.
proof fn lemma_status_of(tasks: Seq<Task>, d: TaskId)
    ensures
        status_of(tasks, d) matches Some(st) ==> exists|i: int|
            0 <= i < tasks.len() && (#[trigger] tasks[i]).id == d && tasks[i].status == st,
        status_of(tasks, d) is None <==> forall|i: int| 0 <= i < tasks.len() ==> (#[trigger] tasks[i]).id != d,
    decreases tasks.len(),
{
    if tasks.len() > 0 {
        let p = tasks.drop_last();
        lemma_status_of(p, d);
        if tasks.last().id == d {
            assert(tasks[tasks.len() - 1].id == d);
        } else {
            if let Some(st) = status_of(p, d) {
                let i = choose|i: int| 0 <= i < p.len() && (#[trigger] p[i]).id == d && p[i].status == st;
                assert(tasks[i] == p[i]);
            }
            assert forall|i: int| 0 <= i < tasks.len() && (#[trigger] tasks[i]).id == d implies status_of(tasks, d) is Some by {
                assert(i < p.len());
                assert(p[i] == tasks[i]);
            }
        }
    }
}

/// The window's blocked tasks are the store's: for the tasks as
/// `list_tasks` lists them and the prerequisites of task `id` as
/// `dependencies_of(id)` gives them, the window counts the task blocked
/// exactly when the store does.
pub proof fn law_blocked_matches_store(s: MockRepository, tasks: Seq<Task>, id: TaskId, ds: Seq<TaskId>)
    requires
        s.is_listing(tasks, TaskFilter::All, TaskOrder::PositionId),
        forall|d: TaskId| #[trigger] ds.contains(d) <==> s.deps_view().contains((id, d)),
    ensures
        deps_block(tasks, ds) <==> s.blocked_spec(id),
{
    let v = s.tasks_view();
    if deps_block(tasks, ds) {
        let k = choose|k: int| 0 <= k < ds.len() && (status_of(tasks, #[trigger] ds[k]) matches Some(st) && status_open(st));
        let d = ds[k];
        lemma_status_of(tasks, d);
        let st = status_of(tasks, d)->0;
        let i = choose|i: int| 0 <= i < tasks.len() && (#[trigger] tasks[i]).id == d && tasks[i].status == st;
        assert(tasks.contains(tasks[i]));
        assert(ds.contains(d));
        assert(s.deps_view().contains((id, d)));
        assert(v.dom().contains(d) && v[d] == tasks[i]);
        assert(status_blocks(v[d].status));
    }
    if s.blocked_spec(id) {
        let d = choose|d: TaskId|
            #![trigger s.deps_view().contains((id, d))]
            s.deps_view().contains((id, d)) && v.dom().contains(d) && status_blocks(v[d].status);
        assert(ds.contains(d));
        let k = choose|k: int| 0 <= k < ds.len() && ds[k] == d;
        law_tasks_keyed_by_id(s, d);
        assert(s.selects(TaskFilter::All, v[d]));
        assert(tasks.contains(v[d]));
        let j = choose|j: int| 0 <= j < tasks.len() && tasks[j] == v[d];
        lemma_status_of(tasks, d);
        assert(tasks[j].id == d);
        let st = status_of(tasks, d)->0;
        let i = choose|i: int| 0 <= i < tasks.len() && (#[trigger] tasks[i]).id == d && tasks[i].status == st;
        assert(tasks.contains(tasks[i]));
        assert(v[tasks[i].id] == tasks[i]);
        assert(status_open(st));
        assert(status_of(tasks, ds[k]) matches Some(x) && status_open(x));
    }
}

fn status_lookup(tasks: &Vec<Task>, d: TaskId) -> (r: Option<Status>)
    ensures
        r == status_of(tasks@, d),
{
    let mut i: usize = tasks.len();
    assert(tasks@.take(i as int) =~= tasks@);
    while i > 0
        invariant
            i <= tasks@.len(),
            status_of(tasks@, d) == status_of(tasks@.take(i as int), d),
        decreases i,
    {
        assert(tasks@.take(i as int).drop_last() =~= tasks@.take(i - 1));
        if tasks[i - 1].id == d {
            return Some(tasks[i - 1].status);
        }
        i = i - 1;
    }
    None
}

/// The ids of the tasks whose prerequisites include an open task, given
/// each task's prerequisites.
pub fn blocked_ids(tasks: &Vec<Task>, deps: &Vec<(TaskId, Vec<TaskId>)>) -> (r: Vec<TaskId>)
    ensures
        forall|x: TaskId| #[trigger] r@.contains(x) <==> exists|j: int|
            0 <= j < deps@.len() && deps@[j].0 == x && deps_block(tasks@, #[trigger] deps@[j].1@),
{
    let mut r: Vec<TaskId> = Vec::new();
    let mut j: usize = 0;
    while j < deps.len()
        invariant
            j <= deps@.len(),
            forall|x: TaskId| #[trigger] r@.contains(x) <==> exists|m: int|
                0 <= m < j && deps@[m].0 == x && deps_block(tasks@, #[trigger] deps@[m].1@),
        decreases deps@.len() - j,
    {
        let ds = &deps[j].1;
        let mut k: usize = 0;
        let mut any = false;
        while k < ds.len() && !any
            invariant
                k <= ds@.len(),
                ds@ == deps@[j as int].1@,
                any ==> deps_block(tasks@, ds@),
                !any ==> forall|m: int| 0 <= m < k ==> !(status_of(tasks@, #[trigger] ds@[m]) matches Some(s) && status_open(s)),
            decreases ds@.len() - k,
        {
            match status_lookup(tasks, ds[k]) {
                Some(s) => {
                    if s.is_open() {
                        any = true;
                    }
                },
                None => {},
            }
            k = k + 1;
        }
        let ghost old_r = r@;
        if any {
            r.push(deps[j].0);
        }
        proof {
            assert forall|x: TaskId| #[trigger] r@.contains(x) <==> exists|m: int|
                0 <= m < j + 1 && deps@[m].0 == x && deps_block(tasks@, #[trigger] deps@[m].1@) by {
                if r@.contains(x) && !old_r.contains(x) {
                    assert(x == deps@[j as int].0);
                }
                if old_r.contains(x) && any {
                    let q = choose|q: int| 0 <= q < old_r.len() && old_r[q] == x;
                    assert(r@[q] == x);
                }
                if exists|m: int| 0 <= m < j + 1 && deps@[m].0 == x && deps_block(tasks@, #[trigger] deps@[m].1@) {
                    let m = choose|m: int| 0 <= m < j + 1 && deps@[m].0 == x && deps_block(tasks@, #[trigger] deps@[m].1@);
                    if m == j {
                        assert(any);
                        assert(r@[r@.len() - 1] == x);
                    }
                }
            }
        }
        j = j + 1;
    }
    r
}

// ---------------------------------------------------------------------------
// Labels and messages
// ---------------------------------------------------------------------------

/// The short label of a rule shown next to a task: `(cada semana)` or
/// `(cada 2 semanas)`.
pub open spec fn recurrence_label_spec(r: Recurrence) -> Seq<char> {
    let (sing, plur) = match r.freq {
        Freq::Daily => ("día"@, "días"@),
        Freq::Weekly => ("semana"@, "semanas"@),
        Freq::Monthly => ("mes"@, "meses"@),
        Freq::Yearly => ("año"@, "años"@),
    };
    if r.interval <= 1 {
        "(cada "@ + sing + ")"@
    } else {
        "(cada "@ + dec(r.interval as nat) + " "@ + plur + ")"@
    }
}

/// The short label of a rule.
pub fn recurrence_label(r: &Recurrence) -> (s: String)
    ensures
        s@ == recurrence_label_spec(*r),
{
    let (sing, plur) = match r.freq {
        Freq::Daily => ("día", "días"),
        Freq::Weekly => ("semana", "semanas"),
        Freq::Monthly => ("mes", "meses"),
        Freq::Yearly => ("año", "años"),
    };
    let mut v = chars_of("(cada ");
    if r.interval <= 1 {
        extend_str(&mut v, sing);
    } else {
        extend_chars(&mut v, &u64_to_dec(r.interval as u64));
        extend_str(&mut v, " ");
        extend_str(&mut v, plur);
    }
    extend_str(&mut v, ")");
    string_of(&v)
}

/// The message after checking the linked repositories.
pub open spec fn check_message_spec(completed: nat) -> Seq<char> {
    if completed > 0 {
        dec(completed) + " tarea(s) completada(s) por commits"@
    } else {
        "Sin coincidencias nuevas"@
    }
}

/// The message after checking the linked repositories, given how many
/// tasks were completed.
pub fn check_message(completed: u64) -> (s: String)
    ensures
        s@ == check_message_spec(completed as nat),
{
    if completed > 0 {
        let mut v = u64_to_dec(completed);
        extend_str(&mut v, " tarea(s) completada(s) por commits");
        string_of(&v)
    } else {
        owned("Sin coincidencias nuevas")
    }
}

// ---------------------------------------------------------------------------
// Quick add and projects
// ---------------------------------------------------------------------------

/// ASCII case-insensitive equality (`str::eq_ignore_ascii_case`).
pub open spec fn eq_ignore_case(a: Seq<char>, b: Seq<char>) -> bool {
    lower_seq(a) == lower_seq(b)
}

/// The first project whose name equals `name` ignoring ASCII case.
pub open spec fn find_project_spec(ps: Seq<Project>, name: Seq<char>) -> Option<i64>
    decreases ps.len(),
{
    if ps.len() == 0 {
        None
    } else {
        match find_project_spec(ps.drop_last(), name) {
            Some(id) => Some(id),
            None => if eq_ignore_case(ps.last().name@, name) {
                Some(ps.last().id)
            } else {
                None
            },
        }
    }
}

/// The id of the first project named `name`, ignoring ASCII case.
pub fn find_project(projects: &Vec<Project>, name: &str) -> (r: Option<i64>)
    ensures
        r == find_project_spec(projects@, name@),
{
    let wanted = to_ascii_lower(&chars_of(name));
    let mut i: usize = 0;
    while i < projects.len()
        invariant
            i <= projects@.len(),
            wanted@ == lower_seq(name@),
            find_project_spec(projects@.take(i as int), name@) is None,
        decreases projects@.len() - i,
    {
        assert(projects@.take(i + 1).drop_last() =~= projects@.take(i as int));
        let have = to_ascii_lower(&chars_of(projects[i].name.as_str()));
        if chars_eq(&have, &wanted) {
            proof {
                let t = projects@.take(i + 1);
                assert(t.last() == projects@[i as int]);
                lemma_find_prefix(projects@, name@, i + 1);
            }
            return Some(projects[i].id);
        }
        i = i + 1;
    }
    assert(projects@.take(projects@.len() as int) =~= projects@);
    None
}

/// A match in a prefix is the match of the whole sequence.
proof fn lemma_find_prefix(ps: Seq<Project>, name: Seq<char>, n: int)
    requires
        0 <= n <= ps.len(),
        find_project_spec(ps.take(n), name) is Some,
    ensures
        find_project_spec(ps, name) == find_project_spec(ps.take(n), name),
    decreases ps.len() - n,
{
    if n < ps.len() {
        assert(ps.take(n + 1).drop_last() =~= ps.take(n));
        lemma_find_prefix(ps, name, n + 1);
    } else {
        assert(ps.take(n) =~= ps);
    }
}

/// Where a quick-add line's task goes.
#[derive(Clone, Debug)]
pub enum ProjectChoice {
    /// No project was named.
    NoProject,
    /// The existing project with this id.
    Existing(i64),
    /// A new project with this name, created first.
    Create(String),
}

/// What a parsed quick-add line asks for: nothing when its title is empty;
/// otherwise the project its task goes to: none when no project is named,
/// the first project with that name (ignoring ASCII case), or else a new
/// project with that name.
pub fn quick_add_target(parsed: &ParsedQuickAdd, projects: &Vec<Project>) -> (r: Option<ProjectChoice>)
    ensures
        r is None <==> parsed.title@.len() == 0,
        r matches Some(c) ==> match parsed.project {
            None => c is NoProject,
            Some(n) => match find_project_spec(projects@, n@) {
                Some(id) => c == ProjectChoice::Existing(id),
                None => c matches ProjectChoice::Create(m) && m@ == n@,
            },
        },
{
    if chars_of(parsed.title.as_str()).len() == 0 {
        return None;
    }
    match &parsed.project {
        None => Some(ProjectChoice::NoProject),
        Some(n) => match find_project(projects, n.as_str()) {
            Some(id) => Some(ProjectChoice::Existing(id)),
            None => Some(ProjectChoice::Create(n.clone())),
        },
    }
}

/// The draft created from a parsed quick-add line: its title, the resolved
/// project, its due date (today when it only gives a rule, so that the rule
/// has a base date) and its rule.
pub fn quick_add_draft(parsed: &ParsedQuickAdd, project_id: Option<i64>, today: Date) -> (nt: NewTask)
    ensures
        nt.title@ == parsed.title@,
        nt.project_id == project_id,
        nt.due_date == (match parsed.due {
            Some(d) => Some(d),
            None => if parsed.recurrence is Some {
                Some(today)
            } else {
                None
            },
        }),
        nt.recurrence == parsed.recurrence,
        nt.notes is None,
        nt.status == Status::Todo,
        !nt.urgent,
        !nt.important,
        nt.parent_id is None,
        nt.scheduled_date is None,
        nt.position == 0,
{
    let mut nt = NewTask::new(parsed.title.as_str());
    match project_id {
        Some(pid) => {
            nt = nt.project(pid);
        },
        None => {},
    }
    let due = match parsed.due {
        Some(d) => Some(d),
        None => match parsed.recurrence {
            Some(_) => Some(today),
            None => None,
        },
    };
    match due {
        Some(d) => {
            nt = nt.due(d);
        },
        None => {},
    }
    match parsed.recurrence {
        Some(r) => {
            nt = nt.recurring(r);
        },
        None => {},
    }
    nt
}

// ---------------------------------------------------------------------------
// Repository links
// ---------------------------------------------------------------------------

/// A task to check against its repository: id, path, keyword and the
/// commit the link was made at.
pub type RepoCandidate = (TaskId, String, String, Option<String>);

/// Is the task an open task linked to a repository with a keyword?
pub open spec fn is_candidate(t: Task) -> bool {
    status_open(t.status) && t.repo_path is Some && t.repo_keyword is Some
}

/// The open tasks linked to a repository with a keyword, in order.
pub open spec fn repo_linked(tasks: Seq<Task>) -> Seq<Task> {
    keep_seq(tasks, |t: Task| is_candidate(t))
}

/// The open tasks linked to a repository with a keyword, in order, each as
/// its id, path, keyword and base commit.
pub fn repo_candidates(tasks: &Vec<Task>) -> (r: Vec<RepoCandidate>)
    ensures
        r@.len() == repo_linked(tasks@).len(),
        forall|k: int| 0 <= k < r@.len() ==> {
            let t = #[trigger] repo_linked(tasks@)[k];
            &&& r@[k].0 == t.id
            &&& Some(r@[k].1) == t.repo_path
            &&& Some(r@[k].2) == t.repo_keyword
            &&& r@[k].3 == t.repo_base_commit
        },
{
    let ghost p = |t: Task| is_candidate(t);
    let mut r: Vec<RepoCandidate> = Vec::new();
    let mut i: usize = 0;
    while i < tasks.len()
        invariant
            i <= tasks@.len(),
            p == (|t: Task| is_candidate(t)),
            r@.len() == keep_seq(tasks@.take(i as int), p).len(),
            forall|k: int| 0 <= k < r@.len() ==> {
                let t = #[trigger] keep_seq(tasks@.take(i as int), p)[k];
                &&& r@[k].0 == t.id
                &&& Some(r@[k].1) == t.repo_path
                &&& Some(r@[k].2) == t.repo_keyword
                &&& r@[k].3 == t.repo_base_commit
            },
        decreases tasks@.len() - i,
    {
        assert(tasks@.take(i + 1).drop_last() =~= tasks@.take(i as int));
        let t = &tasks[i];
        if t.status.is_open() {
            match (&t.repo_path, &t.repo_keyword) {
                (Some(path), Some(kw)) => {
                    let ghost old_r = r@;
                    r.push((t.id, path.clone(), kw.clone(), copy_opt_string(&t.repo_base_commit)));
                    proof {
                        let ks = keep_seq(tasks@.take(i + 1), p);
                        assert(ks == keep_seq(tasks@.take(i as int), p).push(tasks@[i as int]));
                        assert forall|k: int| 0 <= k < r@.len() implies {
                            let t = #[trigger] keep_seq(tasks@.take(i + 1), p)[k];
                            &&& r@[k].0 == t.id
                            &&& Some(r@[k].1) == t.repo_path
                            &&& Some(r@[k].2) == t.repo_keyword
                            &&& r@[k].3 == t.repo_base_commit
                        } by {
                            if k < old_r.len() {
                                assert(ks[k] == keep_seq(tasks@.take(i as int), p)[k]);
                            }
                        }
                    }
                },
                _ => {},
            }
        }
        i = i + 1;
    }
    assert(tasks@.take(tasks@.len() as int) =~= tasks@);
    r
}

// ---------------------------------------------------------------------------
// Keyboard
// ---------------------------------------------------------------------------

/// The keys pressed in one frame.
#[derive(Clone, Copy, Debug)]
pub struct Keys {
    /// The digit keys 1 to 6.
    pub digits: [bool; 6],
    /// `n`: focus the quick-add field.
    pub new_task: bool,
    /// Down arrow or `j`.
    pub down: bool,
    /// Up arrow or `k`.
    pub up: bool,
    /// `x` or space: complete or reopen.
    pub toggle_done: bool,
    /// `e` or enter: edit the title.
    pub edit: bool,
    /// Delete.
    pub delete: bool,
    /// `u`: toggle urgent.
    pub urgent: bool,
    /// `i`: toggle important.
    pub important: bool,
}

/// What a key asks of the store.
#[derive(Clone, Debug)]
pub enum KeyAction {
    Complete(TaskId),
    Reopen(TaskId),
    StartEdit(TaskId, String),
    Delete(TaskId),
    ToggleUrgent(TaskId),
    ToggleImportant(TaskId),
}

/// The effect of the keys of one frame.
#[derive(Clone, Debug)]
pub struct KeyOutcome {
    pub view: Screen,
    pub focus_new: bool,
    pub selected: Option<TaskId>,
    pub actions: Vec<KeyAction>,
}

/// The view after the digit keys: the last pressed digit wins.
pub open spec fn screen_after_digits(digits: Seq<bool>, v: Screen) -> Screen
    decreases digits.len(),
{
    if digits.len() == 0 {
        v
    } else if digits.last() {
        screen_at(digits.len() - 1)
    } else {
        screen_after_digits(digits.drop_last(), v)
    }
}

/// Position of task `id` in the list.
pub open spec fn position_of(visible: Seq<Task>, id: TaskId) -> Option<int> {
    if exists|i: int| 0 <= i < visible.len() && visible[i].id == id {
        Some(choose|i: int| 0 <= i < visible.len() && visible[i].id == id && forall|j: int| 0 <= j < i ==> visible[j].id != id)
    } else {
        None
    }
}

/// The selection after moving down: the next task (staying on the last),
/// or the first when nothing was selected.
pub open spec fn move_down(visible: Seq<Task>, selected: Option<TaskId>) -> Option<TaskId> {
    let idx = match selected {
        Some(s) => position_of(visible, s),
        None => None,
    };
    let ni: int = match idx {
        Some(x) => if x + 1 < visible.len() {
            x + 1
        } else if visible.len() > 0 {
            visible.len() - 1
        } else {
            0
        },
        None => 0,
    };
    if 0 <= ni < visible.len() {
        Some(visible[ni].id)
    } else {
        None
    }
}

/// The selection after moving up: the previous task (staying on the
/// first), or the first when nothing was selected.
pub open spec fn move_up(visible: Seq<Task>, selected: Option<TaskId>) -> Option<TaskId> {
    let idx = match selected {
        Some(s) => position_of(visible, s),
        None => None,
    };
    let ni: int = match idx {
        Some(x) => if x > 0 {
            x - 1
        } else {
            0
        },
        None => 0,
    };
    if 0 <= ni < visible.len() {
        Some(visible[ni].id)
    } else {
        None
    }
}

/// What the keys ask of the store for the selected task `id`: completing
/// or reopening it and editing it need it listed; delete and the flags act
/// on the selection as it is.
pub open spec fn key_actions(keys: Keys, id: TaskId, visible: Seq<Task>) -> Seq<KeyAction> {
    let pos = position_of(visible, id);
    let toggle: Seq<KeyAction> = if keys.toggle_done && pos is Some {
        if visible[pos->0].status == Status::Done {
            seq![KeyAction::Reopen(id)]
        } else {
            seq![KeyAction::Complete(id)]
        }
    } else {
        Seq::empty()
    };
    let edit: Seq<KeyAction> = if keys.edit && pos is Some {
        seq![KeyAction::StartEdit(id, visible[pos->0].title)]
    } else {
        Seq::empty()
    };
    let delete: Seq<KeyAction> = if keys.delete {
        seq![KeyAction::Delete(id)]
    } else {
        Seq::empty()
    };
    let urgent: Seq<KeyAction> = if keys.urgent {
        seq![KeyAction::ToggleUrgent(id)]
    } else {
        Seq::empty()
    };
    let important: Seq<KeyAction> = if keys.important {
        seq![KeyAction::ToggleImportant(id)]
    } else {
        Seq::empty()
    };
    toggle + edit + delete + urgent + important
}

/// The task a key action concerns.
pub open spec fn action_task(a: KeyAction) -> TaskId {
    match a {
        KeyAction::Complete(t) => t,
        KeyAction::Reopen(t) => t,
        KeyAction::StartEdit(t, _) => t,
        KeyAction::Delete(t) => t,
        KeyAction::ToggleUrgent(t) => t,
        KeyAction::ToggleImportant(t) => t,
    }
}

/// `i` is the first place where task `id` is listed.
pub open spec fn first_listed(visible: Seq<Task>, id: TaskId, i: int) -> bool {
    0 <= i < visible.len() && visible[i].id == id && forall|j: int| 0 <= j < i ==> visible[j].id != id
}

proof fn lemma_position_first(visible: Seq<Task>, id: TaskId, i: int)
    requires
        first_listed(visible, id, i),
    ensures
        position_of(visible, id) == Some(i),
{
    let p = choose|p: int| 0 <= p < visible.len() && visible[p].id == id && forall|j: int| 0 <= j < p ==> visible[j].id != id;
    assert(0 <= p < visible.len() && visible[p].id == id && forall|j: int| 0 <= j < p ==> visible[j].id != id);
    if p < i {
        assert(visible[p].id != id);
    }
    if i < p {
        assert(visible[i].id != id);
    }
}

/// What the keys ask for the selected task `id`: every action concerns
/// `id`; `i` toggles importance and `u` urgency, each exactly when its key
/// is pressed, and delete deletes exactly when pressed; when the task is
/// listed, the done key completes it if it is not done and reopens it if it
/// is, and the edit key starts editing it with its title; when it is not
/// listed, neither key does anything.
pub proof fn law_key_actions(keys: Keys, id: TaskId, visible: Seq<Task>)
    ensures
        forall|k: int|
            0 <= k < key_actions(keys, id, visible).len() ==> action_task(
                #[trigger] key_actions(keys, id, visible)[k],
            ) == id,
        key_actions(keys, id, visible).contains(KeyAction::ToggleImportant(id)) <==> keys.important,
        key_actions(keys, id, visible).contains(KeyAction::ToggleUrgent(id)) <==> keys.urgent,
        key_actions(keys, id, visible).contains(KeyAction::Delete(id)) <==> keys.delete,
        forall|i: int|
            #[trigger] first_listed(visible, id, i) ==> {
                &&& (key_actions(keys, id, visible).contains(KeyAction::Complete(id)) <==> keys.toggle_done
                    && visible[i].status != Status::Done)
                &&& (key_actions(keys, id, visible).contains(KeyAction::Reopen(id)) <==> keys.toggle_done
                    && visible[i].status == Status::Done)
                &&& (key_actions(keys, id, visible).contains(KeyAction::StartEdit(id, visible[i].title))
                    <==> keys.edit)
            },
        (forall|i: int| 0 <= i < visible.len() ==> visible[i].id != id) ==> {
            &&& !key_actions(keys, id, visible).contains(KeyAction::Complete(id))
            &&& !key_actions(keys, id, visible).contains(KeyAction::Reopen(id))
            &&& forall|title: String| !key_actions(keys, id, visible).contains(KeyAction::StartEdit(id, title))
        },
{
    let s = key_actions(keys, id, visible);
    let pos = position_of(visible, id);
    lemma_key_actions_contain(keys, id, visible);
    assert forall|k: int| 0 <= k < s.len() implies action_task(#[trigger] s[k]) == id by {
        assert(s.contains(s[k]));
    }
    assert(keys.important ==> s.contains(KeyAction::ToggleImportant(id)));
    assert(keys.urgent ==> s.contains(KeyAction::ToggleUrgent(id)));
    assert(keys.delete ==> s.contains(KeyAction::Delete(id)));
    assert forall|i: int| #[trigger] first_listed(visible, id, i) implies {
        &&& (s.contains(KeyAction::Complete(id)) <==> keys.toggle_done && visible[i].status != Status::Done)
        &&& (s.contains(KeyAction::Reopen(id)) <==> keys.toggle_done && visible[i].status == Status::Done)
        &&& (s.contains(KeyAction::StartEdit(id, visible[i].title)) <==> keys.edit)
    } by {
        lemma_position_first(visible, id, i);
        let done = visible[i].status == Status::Done;
        if keys.toggle_done {
            if done {
                assert(s.contains(KeyAction::Reopen(id)));
            } else {
                assert(s.contains(KeyAction::Complete(id)));
            }
        }
        if keys.edit {
            assert(s.contains(KeyAction::StartEdit(id, visible[i].title)));
        }
    }
    if forall|i: int| 0 <= i < visible.len() ==> visible[i].id != id {
        assert(pos is None);
    }
}

/// An action is among those the keys ask for `id` exactly when one of the
/// pressed keys asks for it.
proof fn lemma_key_actions_contain(keys: Keys, id: TaskId, visible: Seq<Task>)
    ensures
        forall|x: KeyAction|
            #[trigger] key_actions(keys, id, visible).contains(x) <==> {
                ||| (keys.toggle_done && position_of(visible, id) is Some && x == (if visible[position_of(
                    visible,
                    id,
                )->0].status == Status::Done {
                    KeyAction::Reopen(id)
                } else {
                    KeyAction::Complete(id)
                }))
                ||| (keys.edit && position_of(visible, id) is Some && x == KeyAction::StartEdit(
                    id,
                    visible[position_of(visible, id)->0].title,
                ))
                ||| (keys.delete && x == KeyAction::Delete(id))
                ||| (keys.urgent && x == KeyAction::ToggleUrgent(id))
                ||| (keys.important && x == KeyAction::ToggleImportant(id))
            },
{
    broadcast use vstd::seq_lib::lemma_seq_concat_contains_all_elements;

    let pos = position_of(visible, id);
    let toggle: Seq<KeyAction> = if keys.toggle_done && pos is Some {
        if visible[pos->0].status == Status::Done {
            seq![KeyAction::Reopen(id)]
        } else {
            seq![KeyAction::Complete(id)]
        }
    } else {
        Seq::empty()
    };
    let edit: Seq<KeyAction> = if keys.edit && pos is Some {
        seq![KeyAction::StartEdit(id, visible[pos->0].title)]
    } else {
        Seq::empty()
    };
    let delete: Seq<KeyAction> = if keys.delete {
        seq![KeyAction::Delete(id)]
    } else {
        Seq::empty()
    };
    let urgent: Seq<KeyAction> = if keys.urgent {
        seq![KeyAction::ToggleUrgent(id)]
    } else {
        Seq::empty()
    };
    let important: Seq<KeyAction> = if keys.important {
        seq![KeyAction::ToggleImportant(id)]
    } else {
        Seq::empty()
    };
    assert(key_actions(keys, id, visible) == toggle + edit + delete + urgent + important);
    assert forall|x: KeyAction| #[trigger] key_actions(keys, id, visible).contains(x) <==> {
        ||| toggle.contains(x)
        ||| edit.contains(x)
        ||| delete.contains(x)
        ||| urgent.contains(x)
        ||| important.contains(x)
    } by {}
    assert forall|x: KeyAction| toggle.contains(x) <==> (keys.toggle_done && pos is Some && x == (
    if visible[pos->0].status == Status::Done {
        KeyAction::Reopen(id)
    } else {
        KeyAction::Complete(id)
    })) by {
        if keys.toggle_done && pos is Some {
            lemma_one_contains(toggle[0], x);
            assert(toggle == seq![toggle[0]]);
        } else {
            lemma_none_contains(x);
        }
    }
    assert forall|x: KeyAction| edit.contains(x) <==> (keys.edit && pos is Some && x
        == KeyAction::StartEdit(id, visible[pos->0].title)) by {
        if keys.edit && pos is Some {
            lemma_one_contains(edit[0], x);
            assert(edit == seq![edit[0]]);
        } else {
            lemma_none_contains(x);
        }
    }
    assert forall|x: KeyAction| delete.contains(x) <==> (keys.delete && x == KeyAction::Delete(id)) by {
        if keys.delete {
            lemma_one_contains(KeyAction::Delete(id), x);
        } else {
            lemma_none_contains(x);
        }
    }
    assert forall|x: KeyAction| urgent.contains(x) <==> (keys.urgent && x == KeyAction::ToggleUrgent(id)) by {
        if keys.urgent {
            lemma_one_contains(KeyAction::ToggleUrgent(id), x);
        } else {
            lemma_none_contains(x);
        }
    }
    assert forall|x: KeyAction| important.contains(x) <==> (keys.important && x
        == KeyAction::ToggleImportant(id)) by {
        if keys.important {
            lemma_one_contains(KeyAction::ToggleImportant(id), x);
        } else {
            lemma_none_contains(x);
        }
    }
}

proof fn lemma_one_contains(y: KeyAction, x: KeyAction)
    ensures
        seq![y].contains(x) <==> x == y,
{
    if x == y {
        assert(seq![y][0] == x);
    }
}

proof fn lemma_none_contains(x: KeyAction)
    ensures
        !Seq::<KeyAction>::empty().contains(x),
{
}

fn find_pos(visible: &Vec<Task>, id: TaskId) -> (r: Option<usize>)
    ensures
        match r {
            Some(i) => position_of(visible@, id) == Some(i as int) && i < visible@.len(),
            None => position_of(visible@, id) is None,
        },
{
    let mut i: usize = 0;
    while i < visible.len()
        invariant
            i <= visible@.len(),
            forall|j: int| 0 <= j < i ==> visible@[j].id != id,
        decreases visible@.len() - i,
    {
        if visible[i].id == id {
            proof {
                let c = choose|c: int| 0 <= c < visible@.len() && visible@[c].id == id && forall|j: int| 0 <= j < c ==> visible@[j].id != id;
                if c < i {
                } else if c > i {
                    assert(visible@[i as int].id != id);
                }
            }
            return Some(i);
        }
        i = i + 1;
    }
    None
}

fn step_down(visible: &Vec<Task>, selected: Option<TaskId>) -> (r: Option<TaskId>)
    ensures
        r == move_down(visible@, selected),
{
    let idx = match selected {
        Some(s) => find_pos(visible, s),
        None => None,
    };
    let n = visible.len();
    let ni: usize = match idx {
        Some(x) => if x + 1 < n {
            x + 1
        } else if n > 0 {
            n - 1
        } else {
            0
        },
        None => 0,
    };
    if ni < visible.len() {
        Some(visible[ni].id)
    } else {
        None
    }
}

fn step_up(visible: &Vec<Task>, selected: Option<TaskId>) -> (r: Option<TaskId>)
    ensures
        r == move_up(visible@, selected),
{
    let idx = match selected {
        Some(s) => find_pos(visible, s),
        None => None,
    };
    let ni: usize = match idx {
        Some(x) => if x > 0 {
            x - 1
        } else {
            0
        },
        None => 0,
    };
    if ni < visible.len() {
        Some(visible[ni].id)
    } else {
        None
    }
}

/// The actions the keys ask for on the selected task `id`.
fn actions_for(keys: &Keys, id: TaskId, visible: &Vec<Task>) -> (actions: Vec<KeyAction>)
    ensures
        actions@ == key_actions(*keys, id, visible@),
{
    let mut actions: Vec<KeyAction> = Vec::new();
    let pos = find_pos(visible, id);
    let ghost vs = visible@;
    let ghost ps = position_of(vs, id);
    let ghost toggle: Seq<KeyAction> = if keys.toggle_done && ps is Some {
        if vs[ps->0].status == Status::Done {
            seq![KeyAction::Reopen(id)]
        } else {
            seq![KeyAction::Complete(id)]
        }
    } else {
        Seq::empty()
    };
    let ghost edit: Seq<KeyAction> = if keys.edit && ps is Some {
        seq![KeyAction::StartEdit(id, vs[ps->0].title)]
    } else {
        Seq::empty()
    };
    if keys.toggle_done {
        match pos {
            Some(p) => {
                if visible[p].status == Status::Done {
                    actions.push(KeyAction::Reopen(id));
                } else {
                    actions.push(KeyAction::Complete(id));
                }
            },
            None => {},
        }
    }
    assert(actions@ =~= toggle);
    if keys.edit {
        match pos {
            Some(p) => {
                actions.push(KeyAction::StartEdit(id, visible[p].title.clone()));
            },
            None => {},
        }
    }
    assert(actions@ =~= toggle + edit);
    let ghost a2 = actions@;
    if keys.delete {
        actions.push(KeyAction::Delete(id));
    }
    let ghost a3 = actions@;
    assert(a3 =~= a2 + (if keys.delete { seq![KeyAction::Delete(id)] } else { Seq::<KeyAction>::empty() }));
    if keys.urgent {
        actions.push(KeyAction::ToggleUrgent(id));
    }
    let ghost a4 = actions@;
    assert(a4 =~= a3 + (if keys.urgent { seq![KeyAction::ToggleUrgent(id)] } else { Seq::<KeyAction>::empty() }));
    if keys.important {
        actions.push(KeyAction::ToggleImportant(id));
    }
    assert(actions@ =~= a4 + (if keys.important { seq![KeyAction::ToggleImportant(id)] } else { Seq::<KeyAction>::empty() }));
    assert(actions@ =~= key_actions(*keys, id, visible@));
    actions
}

/// The effect of a frame's keys on the view, the selection and the store:
/// digits switch views, `n` focuses the quick-add field, down/up move the
/// selection (both from the selection the frame began with; up wins when
/// both are pressed), and the other keys act on the selected task (completing an
/// open task or reopening a done one, editing, deleting, toggling the
/// flags). Keys that act on a task do nothing when it is not listed,
/// except delete and the flags, which act on the selection as it is.
pub fn handle_keys(keys: &Keys, view: Screen, selected: Option<TaskId>, visible: &Vec<Task>) -> (out: KeyOutcome)
    ensures
        out.view == screen_after_digits(keys.digits@, view),
        out.focus_new == keys.new_task,
        out.selected == (if keys.up {
            move_up(visible@, selected)
        } else if keys.down {
            move_down(visible@, selected)
        } else {
            selected
        }),
        out.actions@ == (match out.selected {
            Some(id) => key_actions(*keys, id, visible@),
            None => Seq::empty(),
        }),
{
    let mut v = view;
    let mut i: usize = 0;
    while i < 6
        invariant
            i <= 6,
            keys.digits@.len() == 6,
            v == screen_after_digits(keys.digits@.take(i as int), view),
        decreases 6 - i,
    {
        assert(keys.digits@.take(i + 1).drop_last() =~= keys.digits@.take(i as int));
        if keys.digits[i] {
            v = Screen::at(i);
        }
        i = i + 1;
    }
    assert(keys.digits@.take(6) =~= keys.digits@);
    // Both moves start from the selection the frame began with; up wins.
    let mut sel = selected;
    if keys.down {
        sel = step_down(visible, selected);
    }
    if keys.up {
        sel = step_up(visible, selected);
    }
    let actions = match sel {
        Some(id) => actions_for(keys, id, visible),
        None => Vec::new(),
    };
    KeyOutcome { view: v, focus_new: keys.new_task, selected: sel, actions }
}

} // verus!
