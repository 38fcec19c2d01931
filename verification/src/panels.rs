//! What the panels of the window list: the sections of the Projects and
//! Eisenhower views, the detail panel of the selected task, and the text
//! fields that only take a non-blank value.

use vstd::prelude::*;

use crate::domain::project::Project;
use crate::domain::task::{status_open, Task, TaskId};
use crate::store::keyed::keep_seq;
use crate::sync::{in_project, tasks_in};
use crate::text::{string_of, trim, trim_str};

verus! {

// ---------------------------------------------------------------------------
// Text fields
// ---------------------------------------------------------------------------

/// The trimmed text of a field, or `None` when it is blank.
pub open spec fn field_value(s: Seq<char>) -> Option<Seq<char>> {
    if trim(s).len() == 0 {
        None
    } else {
        Some(trim(s))
    }
}

/// The trimmed text of a field, `None` when only whitespace was typed
/// (quick add, new project, repository path and keyword, title edits).
pub fn field_text(s: &str) -> (r: Option<String>)
    ensures
        match r {
            Some(t) => field_value(s@) == Some(t@),
            None => field_value(s@) is None,
        },
{
    let t = trim_str(s);
    if t.len() == 0 {
        None
    } else {
        Some(string_of(&t))
    }
}

// ---------------------------------------------------------------------------
// Projects view
// ---------------------------------------------------------------------------

/// Is the project shown (not archived)?
pub open spec fn is_active(p: Project) -> bool {
    !p.archived
}

/// The projects shown, in order.
pub open spec fn active_projects(ps: Seq<Project>) -> Seq<Project> {
    keep_seq(ps, |p: Project| is_active(p))
}

/// The sections of the Projects view: each project that is not archived,
/// in order, with the listed tasks that belong to it (in list order); then
/// the listed tasks without project.
pub fn project_sections(projects: &Vec<Project>, visible: &Vec<Task>) -> (r: (
    Vec<(Project, Vec<Task>)>,
    Vec<Task>,
))
    ensures
        r.0@.len() == active_projects(projects@).len(),
        forall|k: int|
            0 <= k < r.0@.len() ==> {
                &&& (#[trigger] r.0@[k]).0 == active_projects(projects@)[k]
                &&& r.0@[k].1@ == keep_seq(visible@, in_project(Some(active_projects(projects@)[k].id)))
            },
        r.1@ == keep_seq(visible@, in_project(None)),
{
    let ghost p = |p: Project| is_active(p);
    let mut out: Vec<(Project, Vec<Task>)> = Vec::new();
    let mut i: usize = 0;
    while i < projects.len()
        invariant
            i <= projects@.len(),
            p == (|p: Project| is_active(p)),
            out@.len() == keep_seq(projects@.take(i as int), p).len(),
            forall|k: int|
                0 <= k < out@.len() ==> {
                    &&& (#[trigger] out@[k]).0 == keep_seq(projects@.take(i as int), p)[k]
                    &&& out@[k].1@ == keep_seq(visible@, in_project(Some(keep_seq(projects@.take(i as int), p)[k].id)))
                },
        decreases projects@.len() - i,
    {
        assert(projects@.take(i + 1).drop_last() =~= projects@.take(i as int));
        if !projects[i].archived {
            let items = tasks_in(visible.as_slice(), Some(projects[i].id));
            out.push((projects[i].duplicate(), items));
        }
        i = i + 1;
    }
    assert(projects@.take(projects@.len() as int) =~= projects@);
    let inbox = tasks_in(visible.as_slice(), None);
    (out, inbox)
}

// ---------------------------------------------------------------------------
// Eisenhower view
// ---------------------------------------------------------------------------

/// The flags `(urgent, important)` of quadrant `q` (0 to 3) in the 2×2
/// grid: do, schedule, delegate, eliminate.
pub open spec fn quadrant_flags(q: int) -> (bool, bool) {
    if q == 0 {
        (true, true)
    } else if q == 1 {
        (false, true)
    } else if q == 2 {
        (true, false)
    } else {
        (false, false)
    }
}

/// The title of quadrant `q` (0 to 3).
pub open spec fn quadrant_title(q: int) -> Seq<char> {
    if q == 0 {
        "Hacer — urgente + importante"@
    } else if q == 1 {
        "Programar — importante"@
    } else if q == 2 {
        "Delegar — urgente"@
    } else {
        "Eliminar — ni urgente ni importante"@
    }
}

/// Is the task in the quadrant with these flags?
pub open spec fn has_flags(urgent: bool, important: bool) -> spec_fn(Task) -> bool {
    |t: Task| t.urgent == urgent && t.important == important
}

fn with_flags(visible: &Vec<Task>, urgent: bool, important: bool) -> (r: Vec<Task>)
    ensures
        r@ == keep_seq(visible@, has_flags(urgent, important)),
{
    let mut r: Vec<Task> = Vec::new();
    let mut i: usize = 0;
    while i < visible.len()
        invariant
            i <= visible@.len(),
            r@ == keep_seq(visible@.take(i as int), has_flags(urgent, important)),
        decreases visible@.len() - i,
    {
        assert(visible@.take(i + 1).drop_last() =~= visible@.take(i as int));
        if visible[i].urgent == urgent && visible[i].important == important {
            r.push(visible[i].duplicate());
        }
        i = i + 1;
    }
    assert(visible@.take(visible@.len() as int) =~= visible@);
    r
}

/// The four quadrants of the Eisenhower view, in grid order, each with its
/// title and the listed tasks with its flags (in list order).
pub fn quadrant_sections(visible: &Vec<Task>) -> (r: Vec<(&'static str, Vec<Task>)>)
    ensures
        r@.len() == 4,
        forall|q: int|
            0 <= q < 4 ==> {
                &&& (#[trigger] r@[q]).0@ == quadrant_title(q)
                &&& r@[q].1@ == keep_seq(visible@, has_flags(quadrant_flags(q).0, quadrant_flags(q).1))
            },
{
    let mut r: Vec<(&'static str, Vec<Task>)> = Vec::new();
    r.push(("Hacer — urgente + importante", with_flags(visible, true, true)));
    r.push(("Programar — importante", with_flags(visible, false, true)));
    r.push(("Delegar — urgente", with_flags(visible, true, false)));
    r.push(("Eliminar — ni urgente ni importante", with_flags(visible, false, false)));
    r
}

// ---------------------------------------------------------------------------
// Detail panel
// ---------------------------------------------------------------------------

/// Can `t` be added as a prerequisite of `sel`, which has prerequisites
/// `deps`: another open task that is not one already?
pub open spec fn is_dependency_candidate(t: Task, sel: TaskId, deps: Seq<TaskId>) -> bool {
    t.id != sel && status_open(t.status) && !deps.contains(t.id)
}

/// The tasks offered as new prerequisites of `sel`, in order.
pub fn dependency_candidates(tasks: &Vec<Task>, sel: TaskId, deps: &Vec<TaskId>) -> (r: Vec<Task>)
    ensures
        r@ == keep_seq(tasks@, |t: Task| is_dependency_candidate(t, sel, deps@)),
{
    let ghost p = |t: Task| is_dependency_candidate(t, sel, deps@);
    let mut r: Vec<Task> = Vec::new();
    let mut i: usize = 0;
    while i < tasks.len()
        invariant
            i <= tasks@.len(),
            p == (|t: Task| is_dependency_candidate(t, sel, deps@)),
            r@ == keep_seq(tasks@.take(i as int), p),
        decreases tasks@.len() - i,
    {
        assert(tasks@.take(i + 1).drop_last() =~= tasks@.take(i as int));
        let t = &tasks[i];
        let mut known = false;
        let mut k: usize = 0;
        while k < deps.len()
            invariant
                k <= deps@.len(),
                known == exists|j: int| 0 <= j < k && deps@[j] == t.id,
            decreases deps@.len() - k,
        {
            if deps[k] == t.id {
                known = true;
            }
            k = k + 1;
        }
        assert(known == deps@.contains(t.id));
        if t.id != sel && t.status.is_open() && !known {
            r.push(t.duplicate());
        }
        i = i + 1;
    }
    assert(tasks@.take(tasks@.len() as int) =~= tasks@);
    r
}

/// The title of the first task with id `d`, or `(?)` when there is none.
pub open spec fn title_of(tasks: Seq<Task>, d: TaskId) -> Seq<char> {
    if exists|i: int| 0 <= i < tasks.len() && tasks[i].id == d {
        tasks[choose|i: int|
            0 <= i < tasks.len() && tasks[i].id == d && forall|j: int| 0 <= j < i ==> tasks[j].id != d].title@
    } else {
        "(?)"@
    }
}

/// The title shown for prerequisite `d`.
pub fn dependency_title(tasks: &Vec<Task>, d: TaskId) -> (r: String)
    ensures
        r@ == title_of(tasks@, d),
{
    let mut i: usize = 0;
    while i < tasks.len()
        invariant
            i <= tasks@.len(),
            forall|j: int| 0 <= j < i ==> tasks@[j].id != d,
        decreases tasks@.len() - i,
    {
        if tasks[i].id == d {
            proof {
                let c = choose|c: int|
                    0 <= c < tasks@.len() && tasks@[c].id == d && forall|j: int| 0 <= j < c ==> tasks@[j].id != d;
                if c > i {
                    assert(tasks@[i as int].id != d);
                }
            }
            return tasks[i].title.clone();
        }
        i = i + 1;
    }
    proof {
        reveal_strlit("(?)");
    }
    crate::text::owned("(?)")
}

// ---------------------------------------------------------------------------
// Frame decisions
// ---------------------------------------------------------------------------

/// The selection kept when the list changes: cleared when the selected task
/// is no longer listed.
pub fn keep_selection(selected: Option<TaskId>, visible: &Vec<Task>) -> (r: Option<TaskId>)
    ensures
        r == (match selected {
            Some(s) => if exists|i: int| 0 <= i < visible@.len() && visible@[i].id == s {
                Some(s)
            } else {
                None
            },
            None => None,
        }),
{
    match selected {
        Some(s) => {
            let mut i: usize = 0;
            while i < visible.len()
                invariant
                    i <= visible@.len(),
                    selected == Some(s),
                    forall|j: int| 0 <= j < i ==> visible@[j].id != s,
                decreases visible@.len() - i,
            {
                if visible[i].id == s {
                    assert(visible@[i as int].id == s);
                    return Some(s);
                }
                i = i + 1;
            }
            None
        },
        None => None,
    }
}

/// Are the linked repositories checked this frame: at start-up, and each
/// time the window gets the focus back?
pub fn should_check_repos(did_initial_check: bool, focused: bool, was_focused: bool) -> (r: bool)
    ensures
        r == (!did_initial_check || (focused && !was_focused)),
{
    !did_initial_check || (focused && !was_focused)
}

} // verus!
