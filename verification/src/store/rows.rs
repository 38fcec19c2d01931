//! Reading stored rows: a task row holds every column as a plain value, and
//! [`task_from_row`] turns it into a [`Task`], checking the status, the
//! dates and the timestamps.

use vstd::prelude::*;

use crate::date::{date_of, spec_naive_date_parse, spec_parse_rfc3339, Date, Timestamp};
use crate::domain::task::{rule_parse, status_from_text, Recurrence, Status, Task};
use crate::store::StoreError;
use crate::text::{chars_of, extend_chars, extend_str, string_of};

verus! {

broadcast use crate::date::Date::lemma_date_of_view;

/// The columns of a stored task, as read.
pub struct TaskRow {
    pub id: i64,
    pub title: String,
    pub notes: Option<String>,
    pub status: String,
    pub urgent: bool,
    pub important: bool,
    pub project_id: Option<i64>,
    pub parent_id: Option<i64>,
    pub due_date: Option<String>,
    pub scheduled_date: Option<String>,
    pub recurrence: Option<String>,
    pub position: i64,
    pub created_at: String,
    pub updated_at: String,
    pub completed_at: Option<String>,
    pub repo_path: Option<String>,
    pub repo_keyword: Option<String>,
    pub repo_base_commit: Option<String>,
}

/// The message for a stored status that is not one of the four.
pub open spec fn bad_status_msg(s: Seq<char>) -> Seq<char> {
    "estado '"@ + s + "'"@
}

/// The message for a stored date chrono cannot read.
pub open spec fn bad_date_msg(s: Seq<char>, e: Seq<char>) -> Seq<char> {
    "fecha '"@ + s + "': "@ + e
}

/// The message for a stored timestamp chrono cannot read.
pub open spec fn bad_timestamp_msg(s: Seq<char>, e: Seq<char>) -> Seq<char> {
    "timestamp '"@ + s + "': "@ + e
}

/// A stored date read back, or the message of the failure.
pub open spec fn read_date(s: Seq<char>) -> Result<Date, Seq<char>> {
    match spec_naive_date_parse(s) {
        Ok(d) => Ok(date_of(d)),
        Err(e) => Err(bad_date_msg(s, e)),
    }
}

/// An optional stored date read back.
pub open spec fn read_opt_date(s: Option<String>) -> Result<Option<Date>, Seq<char>> {
    match s {
        None => Ok(None),
        Some(t) => match read_date(t@) {
            Ok(d) => Ok(Some(d)),
            Err(e) => Err(e),
        },
    }
}

/// A stored timestamp read back, or the message of the failure.
pub open spec fn read_timestamp(s: Seq<char>) -> Result<Timestamp, Seq<char>> {
    match spec_parse_rfc3339(s) {
        Ok(x) => Ok(Timestamp { secs: x.0 as i64, nanos: x.1 as u32 }),
        Err(e) => Err(bad_timestamp_msg(s, e)),
    }
}

/// An optional stored timestamp read back.
pub open spec fn read_opt_timestamp(s: Option<String>) -> Result<Option<Timestamp>, Seq<char>> {
    match s {
        None => Ok(None),
        Some(t) => match read_timestamp(t@) {
            Ok(x) => Ok(Some(x)),
            Err(e) => Err(e),
        },
    }
}

/// The task a row stands for, or the message of the first column that
/// cannot be read: the status, the due date, the scheduled date, then the
/// three timestamps. A rule that cannot be read is no rule.
pub open spec fn task_of_row(r: TaskRow) -> Result<Task, Seq<char>> {
    match status_from_text(r.status@) {
        None => Err(bad_status_msg(r.status@)),
        Some(st) => match read_opt_date(r.due_date) {
            Err(e) => Err(e),
            Ok(due) => match read_opt_date(r.scheduled_date) {
                Err(e) => Err(e),
                Ok(sched) => match read_timestamp(r.created_at@) {
                    Err(e) => Err(e),
                    Ok(created) => match read_timestamp(r.updated_at@) {
                        Err(e) => Err(e),
                        Ok(updated) => match read_opt_timestamp(r.completed_at) {
                            Err(e) => Err(e),
                            Ok(completed) => Ok(
                                Task {
                                    id: r.id,
                                    title: r.title,
                                    notes: r.notes,
                                    status: st,
                                    urgent: r.urgent,
                                    important: r.important,
                                    project_id: r.project_id,
                                    parent_id: r.parent_id,
                                    due_date: due,
                                    scheduled_date: sched,
                                    recurrence: match r.recurrence {
                                        Some(x) => rule_parse(x@),
                                        None => None,
                                    },
                                    position: r.position,
                                    created_at: created,
                                    updated_at: updated,
                                    completed_at: completed,
                                    repo_path: r.repo_path,
                                    repo_keyword: r.repo_keyword,
                                    repo_base_commit: r.repo_base_commit,
                                },
                            ),
                        },
                    },
                },
            },
        },
    }
}

fn message(prefix: &str, s: &str, sep: &str, e: &str) -> (m: String)
    ensures
        m@ == prefix@ + s@ + sep@ + e@,
{
    let mut v = chars_of(prefix);
    extend_str(&mut v, s);
    extend_str(&mut v, sep);
    extend_str(&mut v, e);
    string_of(&v)
}

fn date_column(s: &Option<String>) -> (r: Result<Option<Date>, String>)
    ensures
        match r {
            Ok(d) => read_opt_date(*s) matches Ok(y) && y == d,
            Err(e) => read_opt_date(*s) matches Err(m) && m == e@,
        },
{
    match s {
        None => Ok(None),
        Some(t) => match Date::parse(t.as_str()) {
            Ok(d) => Ok(Some(d)),
            Err(e) => {
                proof {
                    reveal_strlit("fecha '");
                    reveal_strlit("': ");
                }
                Err(message("fecha '", t.as_str(), "': ", e.as_str()))
            },
        },
    }
}

fn timestamp_column(s: &str) -> (r: Result<Timestamp, String>)
    ensures
        match r {
            Ok(x) => read_timestamp(s@) matches Ok(y) && y == x,
            Err(e) => read_timestamp(s@) matches Err(m) && m == e@,
        },
{
    match Timestamp::parse_rfc3339(s) {
        Ok(x) => Ok(x),
        Err(e) => {
            proof {
                reveal_strlit("timestamp '");
                reveal_strlit("': ");
            }
            Err(message("timestamp '", s, "': ", e.as_str()))
        },
    }
}

fn opt_timestamp_column(s: &Option<String>) -> (r: Result<Option<Timestamp>, String>)
    ensures
        match r {
            Ok(x) => read_opt_timestamp(*s) matches Ok(y) && y == x,
            Err(e) => read_opt_timestamp(*s) matches Err(m) && m == e@,
        },
{
    match s {
        None => Ok(None),
        Some(t) => match timestamp_column(t.as_str()) {
            Ok(x) => Ok(Some(x)),
            Err(e) => Err(e),
        },
    }
}

/// Turns a stored row into a task: `Ok` exactly when its status is one of
/// the four and its dates and timestamps can be read; otherwise an
/// `Invalid` error with the message of the first column that cannot.
pub fn task_from_row(row: TaskRow) -> (r: Result<Task, StoreError>)
    ensures
        match task_of_row(row) {
            Ok(t) => r matches Ok(x) && x == t,
            Err(m) => r matches Err(StoreError::Invalid(e)) && e@ == m,
        },
{
    let status = match Status::from_db(row.status.as_str()) {
        Some(s) => s,
        None => {
            proof {
                reveal_strlit("estado '");
                reveal_strlit("'");
                reveal_strlit("");
            }
            return Err(StoreError::Invalid(message("estado '", row.status.as_str(), "'", "")));
        },
    };
    let due = match date_column(&row.due_date) {
        Ok(d) => d,
        Err(e) => {
            return Err(StoreError::Invalid(e));
        },
    };
    let sched = match date_column(&row.scheduled_date) {
        Ok(d) => d,
        Err(e) => {
            return Err(StoreError::Invalid(e));
        },
    };
    let created = match timestamp_column(row.created_at.as_str()) {
        Ok(x) => x,
        Err(e) => {
            return Err(StoreError::Invalid(e));
        },
    };
    let updated = match timestamp_column(row.updated_at.as_str()) {
        Ok(x) => x,
        Err(e) => {
            return Err(StoreError::Invalid(e));
        },
    };
    let completed = match opt_timestamp_column(&row.completed_at) {
        Ok(x) => x,
        Err(e) => {
            return Err(StoreError::Invalid(e));
        },
    };
    let recurrence: Option<Recurrence> = match &row.recurrence {
        Some(x) => Recurrence::from_rule(x.as_str()),
        None => None,
    };
    Ok(
        Task {
            id: row.id,
            title: row.title,
            notes: row.notes,
            status,
            urgent: row.urgent,
            important: row.important,
            project_id: row.project_id,
            parent_id: row.parent_id,
            due_date: due,
            scheduled_date: sched,
            recurrence,
            position: row.position,
            created_at: created,
            updated_at: updated,
            completed_at: completed,
            repo_path: row.repo_path,
            repo_keyword: row.repo_keyword,
            repo_base_commit: row.repo_base_commit,
        },
    )
}

} // verus!
