//! Pure domain rules: the Eisenhower matrix, blocking by dependencies and
//! recurrence.

use vstd::prelude::*;

use crate::date::{
    add_months_days, days_from_ymd, in_range, lemma_add_months_later, lemma_add_months_past_range, lemma_ymd_of,
    month_len, valid_ymd, Date, MAX_DAYS, MAX_YEAR, MIN_YEAR,
};

use super::task::{
    copy_opt_string, Freq, NewTask, Quadrant, Recurrence, Status, Task,
};

verus! {

/// The quadrant for the two axes.
pub open spec fn quadrant_spec(urgent: bool, important: bool) -> Quadrant {
    if urgent && important {
        Quadrant::Do
    } else if important {
        Quadrant::Schedule
    } else if urgent {
        Quadrant::Delegate
    } else {
        Quadrant::Eliminate
    }
}

/// Derives the Eisenhower quadrant from the two axes.
pub fn eisenhower(urgent: bool, important: bool) -> (q: Quadrant)
    ensures
        q == quadrant_spec(urgent, important),
{
    match (urgent, important) {
        (true, true) => Quadrant::Do,
        (false, true) => Quadrant::Schedule,
        (true, false) => Quadrant::Delegate,
        (false, false) => Quadrant::Eliminate,
    }
}

/// The quadrant of a task.
pub fn quadrant_of(task: &Task) -> (q: Quadrant)
    ensures
        q == quadrant_spec(task.urgent, task.important),
{
    eisenhower(task.urgent, task.important)
}

/// Does a prerequisite in this status still block (neither done nor
/// cancelled)?
pub open spec fn status_blocks(s: Status) -> bool {
    s != Status::Done && s != Status::Cancelled
}

/// Is a task with prerequisites in these statuses blocked?
pub open spec fn blocked_by(deps: Seq<Status>) -> bool {
    exists|i: int| 0 <= i < deps.len() && status_blocks(#[trigger] deps[i])
}

/// A task is blocked when some prerequisite is still unfinished; a done or
/// cancelled prerequisite no longer blocks.
pub fn is_blocked(dep_statuses: &[Status]) -> (r: bool)
    ensures
        r == blocked_by(dep_statuses@),
{
    let mut i: usize = 0;
    while i < dep_statuses.len()
        invariant
            i <= dep_statuses@.len(),
            forall|k: int| 0 <= k < i ==> !status_blocks(#[trigger] dep_statuses@[k]),
        decreases dep_statuses@.len() - i,
    {
        match dep_statuses[i] {
            Status::Done | Status::Cancelled => {},
            _ => {
                assert(status_blocks(dep_statuses@[i as int]));
                return true;
            },
        }
        i = i + 1;
    }
    false
}

/// The interval used when stepping a rule: at least 1.
pub open spec fn step_of(r: Recurrence) -> int {
    if r.interval >= 1 {
        r.interval as int
    } else {
        1
    }
}

/// The day number of the next occurrence after day `base`.
pub open spec fn next_occurrence_days(base: int, r: Recurrence) -> Option<int> {
    let n = step_of(r);
    match r.freq {
        Freq::Daily => if base + n <= MAX_DAYS {
            Some(base + n)
        } else {
            None
        },
        Freq::Weekly => if base + 7 * n <= MAX_DAYS {
            Some(base + 7 * n)
        } else {
            None
        },
        Freq::Monthly => add_months_days(base, n),
        Freq::Yearly => add_months_days(base, 12 * n),
    }
}

/// A recurrence moves forward: the next occurrence of a date (day number
/// `base`, in chrono's range) comes strictly after it.
pub proof fn law_next_occurrence_later(base: int, r: Recurrence)
    requires
        in_range(base),
    ensures
        next_occurrence_days(base, r) matches Some(d) ==> d > base,
{
    match r.freq {
        Freq::Monthly => lemma_add_months_later(base, step_of(r)),
        Freq::Yearly => lemma_add_months_later(base, 12 * step_of(r)),
        _ => {},
    }
}

/// A rule steps by its interval. For a date with day number `b` (in
/// chrono's range, with calendar date `y-m-d`) and a rule with interval
/// `n >= 1`: a daily rule gives day `b + n`, a weekly rule day `b + 7n`
/// (`None` past the last date); a monthly rule gives the same day `n`
/// months later and a yearly rule `n` years later, on the last day of the
/// month when that day does not exist (`None` outside chrono's years).
pub proof fn law_step_by_interval(b: int, y: int, m: int, d: int, r: Recurrence)
    requires
        in_range(b),
        valid_ymd(y, m, d),
        days_from_ymd(y, m, d) == b,
        r.interval >= 1,
    ensures
        r.freq == Freq::Daily ==> next_occurrence_days(b, r) == (if b + r.interval <= MAX_DAYS {
            Some(b + r.interval)
        } else {
            None
        }),
        r.freq == Freq::Weekly ==> next_occurrence_days(b, r) == (if b + 7 * r.interval <= MAX_DAYS {
            Some(b + 7 * r.interval)
        } else {
            None
        }),
        r.freq == Freq::Monthly || r.freq == Freq::Yearly ==> {
            let months: int = if r.freq == Freq::Monthly {
                r.interval as int
            } else {
                12 * r.interval
            };
            let t = 12 * y + m - 1 + months;
            let y2 = t / 12;
            let m2 = t % 12 + 1;
            let d2 = if d <= month_len(y2, m2) {
                d
            } else {
                month_len(y2, m2)
            };
            next_occurrence_days(b, r) == (if MIN_YEAR <= y2 <= MAX_YEAR {
                Some(days_from_ymd(y2, m2, d2))
            } else {
                None
            })
        },
{
    lemma_ymd_of(y, m, d);
}

/// An interval of 0 steps as an interval of 1.
pub proof fn law_zero_interval_steps_once(b: int, r: Recurrence)
    requires
        r.interval == 0,
    ensures
        next_occurrence_days(b, r) == next_occurrence_days(b, Recurrence { freq: r.freq, interval: 1 }),
{
}

/// Next date of a recurrence from a base date; `None` only when the calendar
/// overflows.
pub fn next_occurrence(base: Date, r: Recurrence) -> (res: Option<Date>)
    ensures
        match res {
            Some(d) => next_occurrence_days(base@, r) == Some(d@),
            None => next_occurrence_days(base@, r) is None,
        },
{
    let n: u32 = if r.interval >= 1 {
        r.interval
    } else {
        1
    };
    match r.freq {
        Freq::Daily => base.checked_add_days(n as u64),
        Freq::Weekly => base.checked_add_days(7 * (n as u64)),
        Freq::Monthly => base.checked_add_months(n),
        Freq::Yearly => {
            if n > u32::MAX / 12 {
                // So many years from a date in range lie past chrono's last
                // date.
                let day = base.days_from_ce();
                proof {
                    lemma_add_months_past_range(day as int, 12 * n);
                }
                None
            } else {
                base.checked_add_months(12 * n)
            }
        },
    }
}

/// The next occurrence of an optional date.
pub open spec fn shift_date(d: Option<Date>, r: Recurrence) -> Option<int> {
    match d {
        Some(x) => next_occurrence_days(x@, r),
        None => None,
    }
}

/// Does `o` hold the date with day number given by `spec`?
pub open spec fn date_matches(o: Option<Date>, spec: Option<int>) -> bool {
    match o {
        Some(d) => spec == Some(d@),
        None => spec is None,
    }
}

/// Whether completing `task` yields a next occurrence: it is recurring and
/// at least one of its dates can be shifted.
pub open spec fn regenerates(task: &Task) -> bool {
    match task.recurrence {
        Some(r) => shift_date(task.due_date, r) is Some || shift_date(task.scheduled_date, r) is Some,
        None => false,
    }
}

/// The next occurrence of a completed recurring task comes later: each
/// date of the draft `regenerate_recurring` gives (when shifted) is after
/// the same date of the task.
pub proof fn law_regenerated_dates_later(task: Task, r: Recurrence, due: Option<Date>, scheduled: Option<Date>)
    requires
        task.recurrence == Some(r),
        date_matches(due, shift_date(task.due_date, r)),
        date_matches(scheduled, shift_date(task.scheduled_date, r)),
        task.due_date matches Some(d) ==> in_range(d@),
        task.scheduled_date matches Some(d) ==> in_range(d@),
    ensures
        due matches Some(n) ==> (task.due_date matches Some(d) && n@ > d@),
        scheduled matches Some(n) ==> (task.scheduled_date matches Some(d) && n@ > d@),
{
    if let Some(d) = task.due_date {
        law_next_occurrence_later(d@, r);
    }
    if let Some(d) = task.scheduled_date {
        law_next_occurrence_later(d@, r);
    }
}

/// When a recurring task is completed, the draft of its next occurrence:
/// both dates shifted by the rule, status `Todo`, everything else copied.
/// `None` when the task is not recurring or no date can be shifted.
pub fn regenerate_recurring(task: &Task) -> (res: Option<NewTask>)
    ensures
        res is Some <==> regenerates(task),
        res matches Some(nt) ==> {
            &&& nt.title == task.title
            &&& nt.notes == task.notes
            &&& nt.status == Status::Todo
            &&& nt.urgent == task.urgent
            &&& nt.important == task.important
            &&& nt.project_id == task.project_id
            &&& nt.parent_id == task.parent_id
            &&& date_matches(nt.due_date, shift_date(task.due_date, task.recurrence->0))
            &&& date_matches(nt.scheduled_date, shift_date(task.scheduled_date, task.recurrence->0))
            &&& nt.recurrence == task.recurrence
            &&& nt.position == task.position
        },
{
    let r = match task.recurrence {
        Some(r) => r,
        None => {
            return None;
        },
    };
    let next_due = match task.due_date {
        Some(d) => next_occurrence(d, r),
        None => None,
    };
    let next_scheduled = match task.scheduled_date {
        Some(d) => next_occurrence(d, r),
        None => None,
    };
    if next_due.is_none() && next_scheduled.is_none() {
        return None;
    }
    Some(
        NewTask {
            title: task.title.clone(),
            notes: copy_opt_string(&task.notes),
            status: Status::Todo,
            urgent: task.urgent,
            important: task.important,
            project_id: task.project_id,
            parent_id: task.parent_id,
            due_date: next_due,
            scheduled_date: next_scheduled,
            recurrence: Some(r),
            position: task.position,
        },
    )
}

} // verus!
