//! In-memory repository: projects, tasks, tags, task tags and dependencies,
//! with the semantics of the SQLite schema (including its delete cascades).

use vstd::prelude::*;

use crate::date::{Date, Timestamp};
use crate::domain::order::{before, insert_sorted, sorted_by, TaskOrder};
use crate::domain::project::{NewProject, Project};
use crate::domain::rules::status_blocks;
use crate::domain::tag::Tag;
use crate::domain::task::{
    copy_opt_string, status_open, NewTask, ProjectId, Status, TagId, Task, TaskId,
};
use crate::text::{
    chars_eq, chars_lt, chars_of, dec_int, extend_chars, i64_to_dec, lemma_seq_lt_irrefl,
    lemma_seq_lt_total, lemma_seq_lt_trans, owned, seq_le, seq_lt, string_of,
};

use super::keyed::{
    count_false, elems, has_key, keep_seq, keyed_map, lemma_count_false_set, lemma_keep_from,
    lemma_keep_map, lemma_keep_no_dup, lemma_keep_unique, lemma_keyed_dom, lemma_keyed_map_values,
    lemma_keyed_origin, lemma_keyed_update, lemma_keyed_val, lemma_unique_push, unique_keys,
};
use super::{Result, StoreError};

verus! {

/// The key of a task.
pub open spec fn task_id_of() -> spec_fn(Task) -> i64 {
    |t: Task| t.id
}

/// The key of a project.
pub open spec fn project_id_of() -> spec_fn(Project) -> i64 {
    |p: Project| p.id
}

/// The key of a tag.
pub open spec fn tag_id_of() -> spec_fn(Tag) -> i64 {
    |t: Tag| t.id
}

/// Which tasks a query selects.
#[derive(Clone, Copy, Debug)]
pub enum TaskFilter {
    /// Every task.
    All,
    /// Tasks in a status.
    InStatus(Status),
    /// Open tasks due on or before the day, or scheduled for it.
    Today(Date),
    /// Open tasks due after the day.
    Upcoming(Date),
    /// Tasks of a project (`None`: without project).
    InProject(Option<ProjectId>),
    /// Subtasks of a task.
    ChildOf(TaskId),
    /// Open tasks with an unfinished prerequisite.
    Blocked,
}

/// The message of a missing task.
pub open spec fn task_not_found(id: i64) -> Seq<char> {
    "tarea "@ + dec_int(id as int)
}

/// The message of a missing project.
pub open spec fn project_not_found(id: i64) -> Seq<char> {
    "proyecto "@ + dec_int(id as int)
}

/// The message of a self-dependency.
pub open spec fn self_dependency_msg() -> Seq<char> {
    "una tarea no puede depender de sí misma"@
}

/// `t` with the project cleared when it is `pid`.
pub open spec fn without_project(t: Task, pid: ProjectId) -> Task {
    if t.project_id == Some(pid) {
        Task { project_id: None, ..t }
    } else {
        t
    }
}

/// Does task `t` reach `root` by at most `n` parent links, through tasks
/// of `tasks`?
pub open spec fn reaches(tasks: Map<TaskId, Task>, t: TaskId, root: TaskId, n: nat) -> bool
    decreases n,
{
    t == root || (n > 0 && tasks.dom().contains(t) && match tasks[t].parent_id {
        Some(p) => reaches(tasks, p, root, (n - 1) as nat),
        None => false,
    })
}

/// Is `t` the task `root` or one of its descendants?
pub open spec fn in_subtree(tasks: Map<TaskId, Task>, t: TaskId, root: TaskId) -> bool {
    exists|n: nat| reaches(tasks, t, root, n)
}

/// The in-memory repository.
pub struct MockRepository {
    projects: Vec<Project>,
    tasks: Vec<Task>,
    tags: Vec<Tag>,
    task_tags: Vec<(TaskId, TagId)>,
    task_deps: Vec<(TaskId, TaskId)>,
    next_project: ProjectId,
    next_task: TaskId,
    next_tag: TagId,
}

impl MockRepository {
    /// The tasks by id.
    pub closed spec fn tasks_view(&self) -> Map<TaskId, Task> {
        keyed_map(self.tasks@, task_id_of())
    }

    /// The projects by id.
    pub closed spec fn projects_view(&self) -> Map<ProjectId, Project> {
        keyed_map(self.projects@, project_id_of())
    }

    /// The tags by id.
    pub closed spec fn tags_view(&self) -> Map<TagId, Tag> {
        keyed_map(self.tags@, tag_id_of())
    }

    /// The (task, tag) links.
    pub closed spec fn tag_links(&self) -> Set<(TaskId, TagId)> {
        elems(self.task_tags@)
    }

    /// The (task, prerequisite) dependencies.
    pub closed spec fn deps_view(&self) -> Set<(TaskId, TaskId)> {
        elems(self.task_deps@)
    }

    /// The id the next project gets.
    pub closed spec fn next_project_id(&self) -> int {
        self.next_project as int
    }

    /// The id the next task gets.
    pub closed spec fn next_task_id(&self) -> int {
        self.next_task as int
    }

    /// The id the next tag gets.
    pub closed spec fn next_tag_id(&self) -> int {
        self.next_tag as int
    }

    /// Well-formedness: keys unique and below the next ids, no repeated
    /// links, tag names unique.
    pub closed spec fn wf(&self) -> bool {
        &&& unique_keys(self.tasks@, task_id_of())
        &&& unique_keys(self.projects@, project_id_of())
        &&& unique_keys(self.tags@, tag_id_of())
        &&& forall|i: int| 0 <= i < self.tasks@.len() ==> (#[trigger] self.tasks@[i]).id < self.next_task
        &&& forall|i: int| 0 <= i < self.projects@.len() ==> (#[trigger] self.projects@[i]).id < self.next_project
        &&& forall|i: int| 0 <= i < self.tags@.len() ==> (#[trigger] self.tags@[i]).id < self.next_tag
        &&& self.next_task >= 1
        &&& self.next_project >= 1
        &&& self.next_tag >= 1
        &&& self.task_tags@.no_duplicates()
        &&& self.task_deps@.no_duplicates()
        &&& forall|i: int, j: int|
            0 <= i < j < self.tags@.len() ==> (#[trigger] self.tags@[i]).name@ != (#[trigger] self.tags@[j]).name@
    }

    /// Is task `id` blocked: does it depend on an existing task that is
    /// neither done nor cancelled?
    pub open spec fn blocked_spec(&self, id: TaskId) -> bool {
        exists|d: TaskId|
            #![trigger self.deps_view().contains((id, d))]
            self.deps_view().contains((id, d)) && self.tasks_view().dom().contains(d)
                && status_blocks(self.tasks_view()[d].status)
    }

    /// Does the filter select `t`?
    pub open spec fn selects(&self, f: TaskFilter, t: Task) -> bool {
        match f {
            TaskFilter::All => true,
            TaskFilter::InStatus(s) => t.status == s,
            TaskFilter::Today(d) => status_open(t.status) && ((t.due_date matches Some(x) && x@
                <= d@) || (t.scheduled_date matches Some(x) && x@ == d@)),
            TaskFilter::Upcoming(d) => status_open(t.status) && (t.due_date matches Some(x) && x@
                > d@),
            TaskFilter::InProject(p) => t.project_id == p,
            TaskFilter::ChildOf(p) => t.parent_id == Some(p),
            TaskFilter::Blocked => status_open(t.status) && self.blocked_spec(t.id),
        }
    }

    /// `r` lists, in order `o`, exactly the stored tasks the filter selects.
    pub open spec fn is_listing(&self, r: Seq<Task>, f: TaskFilter, o: TaskOrder) -> bool {
        &&& sorted_by(o, r)
        &&& forall|t: Task|
            #[trigger] r.contains(t) <==> (self.tasks_view().dom().contains(t.id)
                && self.tasks_view()[t.id] == t && self.selects(f, t))
    }

    /// An empty repository.
    pub fn new() -> (r: MockRepository)
        ensures
            r.wf(),
            r.tasks_view() == Map::<TaskId, Task>::empty(),
            r.projects_view() == Map::<ProjectId, Project>::empty(),
            r.tags_view() == Map::<TagId, Tag>::empty(),
            r.tag_links() == Set::<(TaskId, TagId)>::empty(),
            r.deps_view() == Set::<(TaskId, TaskId)>::empty(),
            r.next_task_id() == 1,
            r.next_project_id() == 1,
            r.next_tag_id() == 1,
    {
        let r = MockRepository {
            projects: Vec::new(),
            tasks: Vec::new(),
            tags: Vec::new(),
            task_tags: Vec::new(),
            task_deps: Vec::new(),
            next_project: 1,
            next_task: 1,
            next_tag: 1,
        };
        assert(r.tag_links() =~= Set::<(TaskId, TagId)>::empty());
        assert(r.deps_view() =~= Set::<(TaskId, TaskId)>::empty());
        r
    }

    /// Index of task `id` in the vector.
    fn task_index(&self, id: TaskId) -> (r: Option<usize>)
        requires
            self.wf(),
        ensures
            match r {
                Some(i) => i < self.tasks@.len() && self.tasks@[i as int].id == id,
                None => !self.tasks_view().dom().contains(id),
            },
            r is Some <==> self.tasks_view().dom().contains(id),
    {
        let mut i: usize = 0;
        while i < self.tasks.len()
            invariant
                i <= self.tasks@.len(),
                forall|k: int| 0 <= k < i ==> (#[trigger] self.tasks@[k]).id != id,
            decreases self.tasks@.len() - i,
        {
            if self.tasks[i].id == id {
                proof {
                    lemma_keyed_dom(self.tasks@, task_id_of(), id);
                    assert(task_id_of()(self.tasks@[i as int]) == id);
                }
                return Some(i);
            }
            i = i + 1;
        }
        proof {
            lemma_keyed_dom(self.tasks@, task_id_of(), id);
            if has_key(self.tasks@, task_id_of(), id) {
                let k = choose|k: int| 0 <= k < self.tasks@.len() && task_id_of()(#[trigger] self.tasks@[k]) == id;
                assert(self.tasks@[k].id == id);
            }
        }
        None
    }

    /// Index of project `id` in the vector.
    fn project_index(&self, id: ProjectId) -> (r: Option<usize>)
        requires
            self.wf(),
        ensures
            match r {
                Some(i) => i < self.projects@.len() && self.projects@[i as int].id == id,
                None => !self.projects_view().dom().contains(id),
            },
            r is Some <==> self.projects_view().dom().contains(id),
    {
        let mut i: usize = 0;
        while i < self.projects.len()
            invariant
                i <= self.projects@.len(),
                forall|k: int| 0 <= k < i ==> (#[trigger] self.projects@[k]).id != id,
            decreases self.projects@.len() - i,
        {
            if self.projects[i].id == id {
                proof {
                    lemma_keyed_dom(self.projects@, project_id_of(), id);
                    assert(project_id_of()(self.projects@[i as int]) == id);
                }
                return Some(i);
            }
            i = i + 1;
        }
        proof {
            lemma_keyed_dom(self.projects@, project_id_of(), id);
            if has_key(self.projects@, project_id_of(), id) {
                let k = choose|k: int|
                    0 <= k < self.projects@.len() && project_id_of()(#[trigger] self.projects@[k]) == id;
                assert(self.projects@[k].id == id);
            }
        }
        None
    }

    /// The "not found" error for task `id`.
    fn task_missing(id: TaskId) -> (e: StoreError)
        ensures
            e matches StoreError::NotFound(m) && m@ == task_not_found(id),
    {
        let mut v = chars_of("tarea ");
        let d = i64_to_dec(id);
        extend_chars(&mut v, &d);
        StoreError::NotFound(string_of(&v))
    }

    /// The "not found" error for project `id`.
    fn project_missing(id: ProjectId) -> (e: StoreError)
        ensures
            e matches StoreError::NotFound(m) && m@ == project_not_found(id),
    {
        let mut v = chars_of("proyecto ");
        let d = i64_to_dec(id);
        extend_chars(&mut v, &d);
        StoreError::NotFound(string_of(&v))
    }

    // ---- Projects ----

    /// Creates a project with the next id, not archived.
    pub fn create_project(&mut self, p: NewProject) -> (r: Result<Project>)
        requires
            old(self).wf(),
            old(self).next_project_id() < i64::MAX,
        ensures
            final(self).wf(),
            r matches Ok(proj) && proj.id == old(self).next_project_id() && proj.name == p.name
                && proj.color == p.color && !proj.archived,
            r matches Ok(proj) && !old(self).projects_view().dom().contains(proj.id),
            r matches Ok(proj) ==> final(self).projects_view() == old(self).projects_view().insert(
                proj.id,
                proj,
            ),
            final(self).next_project_id() == old(self).next_project_id() + 1,
            final(self).tasks_view() == old(self).tasks_view(),
            final(self).tags_view() == old(self).tags_view(),
            final(self).tag_links() == old(self).tag_links(),
            final(self).deps_view() == old(self).deps_view(),
            final(self).next_task_id() == old(self).next_task_id(),
            final(self).next_tag_id() == old(self).next_tag_id(),
    {
        proof {
            law_ids_below_counters(*old(self));
        }
        let id = self.next_project;
        self.next_project = self.next_project + 1;
        let proj = Project { id, name: p.name, color: p.color, archived: false };
        let copy = proj.duplicate();
        proof {
            if has_key(self.projects@, project_id_of(), id) {
                let k = choose|k: int|
                    0 <= k < self.projects@.len() && project_id_of()(#[trigger] self.projects@[k]) == id;
                assert(self.projects@[k].id < id);
            }
            lemma_unique_push(self.projects@, project_id_of(), copy);
        }
        self.projects.push(copy);
        proof {
            assert(self.projects@.drop_last() =~= old(self).projects@);
        }
        Ok(proj)
    }

    /// The project `id`, or `NotFound`.
    pub fn get_project(&self, id: ProjectId) -> (r: Result<Project>)
        requires
            self.wf(),
        ensures
            r is Ok <==> self.projects_view().dom().contains(id),
            r matches Ok(p) ==> p == self.projects_view()[id],
            r matches Err(e) ==> e matches StoreError::NotFound(m) && m@ == project_not_found(id),
    {
        match self.project_index(id) {
            Some(i) => {
                proof {
                    lemma_keyed_val(self.projects@, project_id_of(), i as int);
                }
                Ok(self.projects[i].duplicate())
            },
            None => Err(Self::project_missing(id)),
        }
    }

    /// Replaces project `p.id` by `p`; `NotFound` when there is none.
    pub fn update_project(&mut self, p: &Project) -> (r: Result<()>)
        requires
            old(self).wf(),
        ensures
            final(self).wf(),
            r is Ok <==> old(self).projects_view().dom().contains(p.id),
            r matches Err(e) ==> e matches StoreError::NotFound(m) && m@ == project_not_found(p.id),
            r is Ok ==> final(self).projects_view() == old(self).projects_view().insert(p.id, *p),
            r is Err ==> final(self).projects_view() == old(self).projects_view(),
            final(self).tasks_view() == old(self).tasks_view(),
            final(self).tags_view() == old(self).tags_view(),
            final(self).tag_links() == old(self).tag_links(),
            final(self).deps_view() == old(self).deps_view(),
            final(self).next_task_id() == old(self).next_task_id(),
            final(self).next_project_id() == old(self).next_project_id(),
            final(self).next_tag_id() == old(self).next_tag_id(),
    {
        match self.project_index(p.id) {
            None => Err(Self::project_missing(p.id)),
            Some(i) => {
                let copy = p.duplicate();
                proof {
                    lemma_keyed_update(self.projects@, project_id_of(), i as int, copy);
                }
                self.projects.set(i, copy);
                Ok(())
            },
        }
    }

    /// Archives or unarchives project `id`; `NotFound` when there is none.
    pub fn set_project_archived(&mut self, id: ProjectId, archived: bool) -> (r: Result<()>)
        requires
            old(self).wf(),
        ensures
            final(self).wf(),
            r is Ok <==> old(self).projects_view().dom().contains(id),
            r matches Err(e) ==> e matches StoreError::NotFound(m) && m@ == project_not_found(id),
            r is Ok ==> final(self).projects_view() == old(self).projects_view().insert(
                id,
                Project { archived, ..old(self).projects_view()[id] },
            ),
            r is Err ==> final(self).projects_view() == old(self).projects_view(),
            final(self).tasks_view() == old(self).tasks_view(),
            final(self).tags_view() == old(self).tags_view(),
            final(self).tag_links() == old(self).tag_links(),
            final(self).deps_view() == old(self).deps_view(),
            final(self).next_task_id() == old(self).next_task_id(),
            final(self).next_project_id() == old(self).next_project_id(),
            final(self).next_tag_id() == old(self).next_tag_id(),
    {
        match self.project_index(id) {
            None => Err(Self::project_missing(id)),
            Some(i) => {
                let cur = self.projects[i].duplicate();
                let updated = Project { archived, ..cur };
                proof {
                    lemma_keyed_val(self.projects@, project_id_of(), i as int);
                    lemma_keyed_update(self.projects@, project_id_of(), i as int, updated);
                }
                self.projects.set(i, updated);
                Ok(())
            },
        }
    }

    /// Deletes project `id` (if any); its tasks are left without project.
    pub fn delete_project(&mut self, id: ProjectId) -> (r: Result<()>)
        requires
            old(self).wf(),
        ensures
            final(self).wf(),
            r is Ok,
            final(self).projects_view() == old(self).projects_view().remove(id),
            final(self).tasks_view() == Map::new(
                |k: TaskId| old(self).tasks_view().dom().contains(k),
                |k: TaskId| without_project(old(self).tasks_view()[k], id),
            ),
            final(self).tags_view() == old(self).tags_view(),
            final(self).tag_links() == old(self).tag_links(),
            final(self).deps_view() == old(self).deps_view(),
            final(self).next_task_id() == old(self).next_task_id(),
            final(self).next_project_id() == old(self).next_project_id(),
            final(self).next_tag_id() == old(self).next_tag_id(),
    {
        let ghost keep = |p: Project| p.id != id;
        let mut kept: Vec<Project> = Vec::new();
        let mut i: usize = 0;
        while i < self.projects.len()
            invariant
                i <= self.projects@.len(),
                kept@ == keep_seq(self.projects@.take(i as int), keep),
                keep == (|p: Project| p.id != id),
            decreases self.projects@.len() - i,
        {
            let ghost pre = self.projects@.take(i as int);
            assert(self.projects@.take(i + 1).drop_last() =~= pre);
            if self.projects[i].id != id {
                kept.push(self.projects[i].duplicate());
            }
            i = i + 1;
        }
        proof {
            assert(self.projects@.take(self.projects@.len() as int) =~= self.projects@);
            lemma_keep_map(self.projects@, project_id_of(), keep);
            lemma_keep_unique(self.projects@, project_id_of(), keep);
            lemma_keep_from(self.projects@, keep);
            assert forall|k: ProjectId| #[trigger] old(self).projects_view().dom().contains(k) implies old(
                self,
            ).projects_view()[k].id == k by {
                lemma_keyed_origin(old(self).projects@, project_id_of(), k);
            }
            assert(keyed_map(kept@, project_id_of()) =~= old(self).projects_view().remove(id));
        }
        self.projects = kept;
        proof {
            assert forall|k: int| 0 <= k < self.projects@.len() implies (#[trigger] self.projects@[k]).id
                < self.next_project by {
                assert(self.projects@.contains(self.projects@[k]));
                let j = choose|j: int| 0 <= j < old(self).projects@.len() && old(self).projects@[j] == self.projects@[k];
                assert(old(self).projects@[j].id < self.next_project);
            }
        }
        let ghost f = |t: Task| without_project(t, id);
        let mut j: usize = 0;
        while j < self.tasks.len()
            invariant
                self.projects == kept,
                j <= self.tasks@.len(),
                self.tasks@.len() == old(self).tasks@.len(),
                f == (|t: Task| without_project(t, id)),
                forall|k: int| 0 <= k < j ==> self.tasks@[k] == f(#[trigger] old(self).tasks@[k]),
                forall|k: int| j <= k < self.tasks@.len() ==> #[trigger] self.tasks@[k] == old(self).tasks@[k],
                self.tags == old(self).tags,
                self.task_tags == old(self).task_tags,
                self.task_deps == old(self).task_deps,
                self.next_task == old(self).next_task,
                self.next_project == old(self).next_project,
                self.next_tag == old(self).next_tag,
            decreases self.tasks@.len() - j,
        {
            if self.tasks[j].project_id == Some(id) {
                let cur = self.tasks[j].duplicate();
                let updated = Task { project_id: None, ..cur };
                self.tasks.set(j, updated);
            }
            j = j + 1;
        }
        proof {
            assert forall|x: Task| task_id_of()(#[trigger] f(x)) == task_id_of()(x) by {}
            lemma_keyed_map_values(old(self).tasks@, self.tasks@, task_id_of(), f);
            assert(self.tasks_view() =~= Map::new(
                |k: TaskId| old(self).tasks_view().dom().contains(k),
                |k: TaskId| without_project(old(self).tasks_view()[k], id),
            ));
            assert forall|a: int, b: int| 0 <= a < b < self.tasks@.len() implies task_id_of()(
                #[trigger] self.tasks@[a],
            ) != task_id_of()(#[trigger] self.tasks@[b]) by {
                assert(self.tasks@[a].id == old(self).tasks@[a].id);
                assert(self.tasks@[b].id == old(self).tasks@[b].id);
                assert(task_id_of()(old(self).tasks@[a]) != task_id_of()(old(self).tasks@[b]));
            }
            assert forall|k: int| 0 <= k < self.tasks@.len() implies (#[trigger] self.tasks@[k]).id
                < self.next_task by {
                assert(self.tasks@[k].id == old(self).tasks@[k].id);
            }
        }
        Ok(())
    }

    // ---- Tasks ----

    /// Creates a task from a draft with the next id; both timestamps are
    /// the same current time, it is not completed and not linked to a
    /// repository.
    pub fn create_task(&mut self, t: NewTask) -> (r: Result<Task>)
        requires
            old(self).wf(),
            old(self).next_task_id() < i64::MAX,
        ensures
            final(self).wf(),
            r is Ok,
            r matches Ok(task) ==> {
                &&& task.id == old(self).next_task_id()
                &&& !old(self).tasks_view().dom().contains(task.id)
                &&& task.title == t.title
                &&& task.notes == t.notes
                &&& task.status == t.status
                &&& task.urgent == t.urgent
                &&& task.important == t.important
                &&& task.project_id == t.project_id
                &&& task.parent_id == t.parent_id
                &&& task.due_date == t.due_date
                &&& task.scheduled_date == t.scheduled_date
                &&& task.recurrence == t.recurrence
                &&& task.position == t.position
                &&& task.updated_at == task.created_at
                &&& task.completed_at is None
                &&& task.repo_path is None
                &&& task.repo_keyword is None
                &&& task.repo_base_commit is None
                &&& final(self).tasks_view() == old(self).tasks_view().insert(task.id, task)
            },
            final(self).next_task_id() == old(self).next_task_id() + 1,
            final(self).projects_view() == old(self).projects_view(),
            final(self).tags_view() == old(self).tags_view(),
            final(self).tag_links() == old(self).tag_links(),
            final(self).deps_view() == old(self).deps_view(),
            final(self).next_project_id() == old(self).next_project_id(),
            final(self).next_tag_id() == old(self).next_tag_id(),
    {
        proof {
            law_ids_below_counters(*old(self));
        }
        let now = Timestamp::now();
        let id = self.next_task;
        self.next_task = self.next_task + 1;
        let task = Task {
            id,
            title: t.title,
            notes: t.notes,
            status: t.status,
            urgent: t.urgent,
            important: t.important,
            project_id: t.project_id,
            parent_id: t.parent_id,
            due_date: t.due_date,
            scheduled_date: t.scheduled_date,
            recurrence: t.recurrence,
            position: t.position,
            created_at: now,
            updated_at: now,
            completed_at: None,
            repo_path: None,
            repo_keyword: None,
            repo_base_commit: None,
        };
        let copy = task.duplicate();
        proof {
            if has_key(self.tasks@, task_id_of(), id) {
                let k = choose|k: int| 0 <= k < self.tasks@.len() && task_id_of()(#[trigger] self.tasks@[k]) == id;
                assert(self.tasks@[k].id < id);
            }
            lemma_unique_push(self.tasks@, task_id_of(), copy);
        }
        self.tasks.push(copy);
        proof {
            assert(self.tasks@.drop_last() =~= old(self).tasks@);
        }
        Ok(task)
    }

    /// The task `id`, or `NotFound`.
    pub fn get_task(&self, id: TaskId) -> (r: Result<Task>)
        requires
            self.wf(),
        ensures
            r is Ok <==> self.tasks_view().dom().contains(id),
            r matches Ok(t) ==> t == self.tasks_view()[id],
            r matches Err(e) ==> e matches StoreError::NotFound(m) && m@ == task_not_found(id),
    {
        match self.task_index(id) {
            Some(i) => {
                proof {
                    lemma_keyed_val(self.tasks@, task_id_of(), i as int);
                }
                Ok(self.tasks[i].duplicate())
            },
            None => Err(Self::task_missing(id)),
        }
    }

    /// Replaces task `t.id` by `t`, keeping its creation time and setting
    /// its update time to now; `NotFound` when there is none.
    pub fn update_task(&mut self, t: &Task) -> (r: Result<()>)
        requires
            old(self).wf(),
        ensures
            final(self).wf(),
            r is Ok <==> old(self).tasks_view().dom().contains(t.id),
            r matches Err(e) ==> e matches StoreError::NotFound(m) && m@ == task_not_found(t.id),
            r is Ok ==> final(self).tasks_view() == old(self).tasks_view().insert(
                t.id,
                Task {
                    created_at: old(self).tasks_view()[t.id].created_at,
                    updated_at: final(self).tasks_view()[t.id].updated_at,
                    ..*t
                },
            ),
            r is Err ==> final(self).tasks_view() == old(self).tasks_view(),
            final(self).projects_view() == old(self).projects_view(),
            final(self).tags_view() == old(self).tags_view(),
            final(self).tag_links() == old(self).tag_links(),
            final(self).deps_view() == old(self).deps_view(),
            final(self).next_task_id() == old(self).next_task_id(),
            final(self).next_project_id() == old(self).next_project_id(),
            final(self).next_tag_id() == old(self).next_tag_id(),
    {
        match self.task_index(t.id) {
            None => Err(Self::task_missing(t.id)),
            Some(i) => {
                let created = self.tasks[i].created_at;
                let now = Timestamp::now();
                let copy = t.duplicate();
                let updated = Task { created_at: created, updated_at: now, ..copy };
                proof {
                    lemma_keyed_val(self.tasks@, task_id_of(), i as int);
                    lemma_keyed_update(self.tasks@, task_id_of(), i as int, updated);
                }
                self.tasks.set(i, updated);
                Ok(())
            },
        }
    }

    /// Sets the status of task `id`; it is marked completed now when the
    /// status is `Done` and uncompleted otherwise, and updated now.
    /// `NotFound` when there is no such task.
    pub fn set_status(&mut self, id: TaskId, status: Status) -> (r: Result<()>)
        requires
            old(self).wf(),
        ensures
            final(self).wf(),
            r is Ok <==> old(self).tasks_view().dom().contains(id),
            r matches Err(e) ==> e matches StoreError::NotFound(m) && m@ == task_not_found(id),
            r is Ok ==> {
                let now = final(self).tasks_view()[id].updated_at;
                final(self).tasks_view() == old(self).tasks_view().insert(
                    id,
                    Task {
                        status,
                        completed_at: if status == Status::Done {
                            Some(now)
                        } else {
                            None
                        },
                        updated_at: now,
                        ..old(self).tasks_view()[id]
                    },
                )
            },
            r is Err ==> final(self).tasks_view() == old(self).tasks_view(),
            final(self).projects_view() == old(self).projects_view(),
            final(self).tags_view() == old(self).tags_view(),
            final(self).tag_links() == old(self).tag_links(),
            final(self).deps_view() == old(self).deps_view(),
            final(self).next_task_id() == old(self).next_task_id(),
            final(self).next_project_id() == old(self).next_project_id(),
            final(self).next_tag_id() == old(self).next_tag_id(),
    {
        let now = Timestamp::now();
        match self.task_index(id) {
            None => Err(Self::task_missing(id)),
            Some(i) => {
                let cur = self.tasks[i].duplicate();
                let completed = if status == Status::Done {
                    Some(now)
                } else {
                    None
                };
                let updated = Task { status, completed_at: completed, updated_at: now, ..cur };
                proof {
                    lemma_keyed_val(self.tasks@, task_id_of(), i as int);
                    lemma_keyed_update(self.tasks@, task_id_of(), i as int, updated);
                }
                self.tasks.set(i, updated);
                Ok(())
            },
        }
    }

    /// Marks task `id` done (see [`MockRepository::set_status`]).
    pub fn complete_task(&mut self, id: TaskId) -> (r: Result<()>)
        requires
            old(self).wf(),
        ensures
            final(self).wf(),
            r is Ok <==> old(self).tasks_view().dom().contains(id),
            r matches Err(e) ==> e matches StoreError::NotFound(m) && m@ == task_not_found(id),
            r is Ok ==> {
                let now = final(self).tasks_view()[id].updated_at;
                final(self).tasks_view() == old(self).tasks_view().insert(
                    id,
                    Task {
                        status: Status::Done,
                        completed_at: Some(now),
                        updated_at: now,
                        ..old(self).tasks_view()[id]
                    },
                )
            },
            r is Err ==> final(self).tasks_view() == old(self).tasks_view(),
            final(self).projects_view() == old(self).projects_view(),
            final(self).tags_view() == old(self).tags_view(),
            final(self).tag_links() == old(self).tag_links(),
            final(self).deps_view() == old(self).deps_view(),
            final(self).next_task_id() == old(self).next_task_id(),
            final(self).next_project_id() == old(self).next_project_id(),
            final(self).next_tag_id() == old(self).next_tag_id(),
    {
        self.set_status(id, Status::Done)
    }

    /// Should the task at index `k` be deleted with `root`, given the
    /// marks so far?
    pub closed spec fn should_mark(&self, marked: Seq<bool>, k: int, root: TaskId) -> bool {
        let t = self.tasks@[k];
        t.id == root || match t.parent_id {
            Some(p) => p == root || exists|j: int|
                0 <= j < self.tasks@.len() && (#[trigger] self.tasks@[j]).id == p && marked[j],
            None => false,
        }
    }

    /// Marks are sound: a marked task lies in the subtree of `root`.
    pub closed spec fn marks_sound(&self, marked: Seq<bool>, root: TaskId) -> bool {
        &&& marked.len() == self.tasks@.len()
        &&& forall|k: int|
            0 <= k < marked.len() && #[trigger] marked[k] ==> in_subtree(self.tasks_view(), self.tasks@[k].id, root)
    }

    /// Marks are closed: no unmarked task should be marked.
    pub closed spec fn marks_closed(&self, marked: Seq<bool>, root: TaskId) -> bool {
        forall|k: int| 0 <= k < marked.len() && !(#[trigger] marked[k]) ==> !self.should_mark(marked, k, root)
    }

    proof fn lemma_marks_complete(&self, marked: Seq<bool>, root: TaskId, t: TaskId, n: nat)
        requires
            self.wf(),
            marked.len() == self.tasks@.len(),
            self.marks_closed(marked, root),
            reaches(self.tasks_view(), t, root, n),
            self.tasks_view().dom().contains(t),
        ensures
            exists|k: int| 0 <= k < marked.len() && self.tasks@[k].id == t && #[trigger] marked[k],
        decreases n,
    {
        lemma_keyed_origin(self.tasks@, task_id_of(), t);
        let k = choose|k: int|
            0 <= k < self.tasks@.len() && task_id_of()(#[trigger] self.tasks@[k]) == t && self.tasks@[k]
                == self.tasks_view()[t];
        if t == root {
            assert(self.should_mark(marked, k, root));
        } else {
            let p = self.tasks_view()[t].parent_id->0;
            if p != root {
                assert(reaches(self.tasks_view(), p, root, (n - 1) as nat));
                assert(self.tasks_view().dom().contains(p));
                self.lemma_marks_complete(marked, root, p, (n - 1) as nat);
                let j = choose|j: int| 0 <= j < marked.len() && self.tasks@[j].id == p && #[trigger] marked[j];
                assert(self.should_mark(marked, k, root));
            } else {
                assert(self.should_mark(marked, k, root));
            }
        }
        assert(marked[k]);
    }

    /// Is `x` deleted together with `root`: sound and closed marks decide it.
    proof fn lemma_marks_decide(&self, marked: Seq<bool>, root: TaskId, k: int)
        requires
            self.wf(),
            self.marks_sound(marked, root),
            self.marks_closed(marked, root),
            0 <= k < marked.len(),
        ensures
            marked[k] <==> in_subtree(self.tasks_view(), self.tasks@[k].id, root),
    {
        let t = self.tasks@[k].id;
        if in_subtree(self.tasks_view(), t, root) {
            let n = choose|n: nat| reaches(self.tasks_view(), t, root, n);
            lemma_keyed_val(self.tasks@, task_id_of(), k);
            self.lemma_marks_complete(marked, root, t, n);
            let j = choose|j: int| 0 <= j < marked.len() && self.tasks@[j].id == t && #[trigger] marked[j];
            if j != k {
                assert(task_id_of()(self.tasks@[j]) != task_id_of()(self.tasks@[k]));
            }
        }
    }

    /// Should the task at index `k` be deleted with `root`?
    fn should_mark_at(&self, marked: &Vec<bool>, k: usize, root: TaskId) -> (r: bool)
        requires
            self.wf(),
            marked@.len() == self.tasks@.len(),
            k < self.tasks@.len(),
        ensures
            r == self.should_mark(marked@, k as int, root),
    {
        let t = &self.tasks[k];
        if t.id == root {
            return true;
        }
        match t.parent_id {
            None => false,
            Some(p) => {
                if p == root {
                    return true;
                }
                match self.task_index(p) {
                    Some(j) => {
                        let r = marked[j];
                        proof {
                            if !r {
                                assert forall|j2: int|
                                    0 <= j2 < self.tasks@.len() && (#[trigger] self.tasks@[j2]).id == p implies !marked@[j2] by {
                                    if j2 != j {
                                        assert(task_id_of()(self.tasks@[j2]) != task_id_of()(self.tasks@[j as int]));
                                    }
                                }
                            }
                        }
                        r
                    },
                    None => {
                        proof {
                            lemma_keyed_dom(self.tasks@, task_id_of(), p);
                            assert forall|j2: int|
                                0 <= j2 < self.tasks@.len() && (#[trigger] self.tasks@[j2]).id == p implies false by {
                                assert(task_id_of()(self.tasks@[j2]) == p);
                            }
                        }
                        false
                    },
                }
            },
        }
    }

    /// Marks the tasks deleted together with `root`: `root` itself and its
    /// descendants.
    fn mark_subtree(&self, root: TaskId) -> (marked: Vec<bool>)
        requires
            self.wf(),
        ensures
            self.marks_sound(marked@, root),
            self.marks_closed(marked@, root),
    {
        let n = self.tasks.len();
        let mut marked: Vec<bool> = Vec::new();
        while marked.len() < n
            invariant
                marked@.len() <= n,
                n == self.tasks@.len(),
                forall|k: int| 0 <= k < marked@.len() ==> !(#[trigger] marked@[k]),
            decreases n - marked@.len(),
        {
            marked.push(false);
        }
        loop
            invariant
                self.wf(),
                n == self.tasks@.len(),
                self.marks_sound(marked@, root),
            ensures
                self.marks_sound(marked@, root),
                self.marks_closed(marked@, root),
            decreases count_false(marked@),
        {
            let ghost start = marked@;
            let mut changed = false;
            let mut k: usize = 0;
            while k < n
                invariant
                    self.wf(),
                    n == self.tasks@.len(),
                    k <= n,
                    self.marks_sound(marked@, root),
                    count_false(marked@) <= count_false(start),
                    changed ==> count_false(marked@) < count_false(start),
                    !changed ==> marked@ == start,
                    !changed ==> forall|j: int|
                        0 <= j < k && !(#[trigger] marked@[j]) ==> !self.should_mark(marked@, j, root),
                decreases n - k,
            {
                if !marked[k] && self.should_mark_at(&marked, k, root) {
                    proof {
                        let t = self.tasks@[k as int];
                        lemma_keyed_val(self.tasks@, task_id_of(), k as int);
                        let v = self.tasks_view();
                        if t.id == root {
                            assert(reaches(v, t.id, root, 0));
                        } else {
                            let p = t.parent_id->0;
                            if p == root {
                                assert(reaches(v, p, root, 0));
                                assert(reaches(v, t.id, root, 1));
                            } else {
                                let j = choose|j: int|
                                    0 <= j < self.tasks@.len() && (#[trigger] self.tasks@[j]).id == p && marked@[j];
                                assert(in_subtree(v, p, root));
                                let m = choose|m: nat| reaches(v, p, root, m);
                                assert(reaches(v, t.id, root, m + 1));
                            }
                        }
                        lemma_count_false_set(marked@, k as int);
                    }
                    marked.set(k, true);
                    changed = true;
                }
                k = k + 1;
            }
            if !changed {
                break ;
            }
        }
        marked
    }

    /// Deletes task `id` (if any) together with its descendants (the
    /// subtasks, cascading), and every tag link and dependency that
    /// mentions a deleted task or `id`.
    pub fn delete_task(&mut self, id: TaskId) -> (r: Result<()>)
        requires
            old(self).wf(),
        ensures
            final(self).wf(),
            r is Ok,
            final(self).tasks_view() == Map::new(
                |k: TaskId|
                    old(self).tasks_view().dom().contains(k) && !in_subtree(old(self).tasks_view(), k, id),
                |k: TaskId| old(self).tasks_view()[k],
            ),
            final(self).tag_links() == old(self).tag_links().filter(
                |p: (TaskId, TagId)| !in_subtree(old(self).tasks_view(), p.0, id),
            ),
            final(self).deps_view() == old(self).deps_view().filter(
                |p: (TaskId, TaskId)|
                    !in_subtree(old(self).tasks_view(), p.0, id) && !in_subtree(
                        old(self).tasks_view(),
                        p.1,
                        id,
                    ),
            ),
            final(self).projects_view() == old(self).projects_view(),
            final(self).tags_view() == old(self).tags_view(),
            final(self).next_task_id() == old(self).next_task_id(),
            final(self).next_project_id() == old(self).next_project_id(),
            final(self).next_tag_id() == old(self).next_tag_id(),
    {
        let marked = self.mark_subtree(id);
        let ghost v = self.tasks_view();
        let ghost keep_task = |t: Task| !in_subtree(v, t.id, id);
        let ghost keep_link = |p: (TaskId, TagId)| !in_subtree(v, p.0, id);
        let ghost keep_dep = |p: (TaskId, TaskId)| !in_subtree(v, p.0, id) && !in_subtree(v, p.1, id);
        let mut tasks: Vec<Task> = Vec::new();
        let mut i: usize = 0;
        while i < self.tasks.len()
            invariant
                self.wf(),
                v == self.tasks_view(),
                self.marks_sound(marked@, id),
                self.marks_closed(marked@, id),
                i <= self.tasks@.len(),
                tasks@ == keep_seq(self.tasks@.take(i as int), keep_task),
                keep_task == (|t: Task| !in_subtree(v, t.id, id)),
            decreases self.tasks@.len() - i,
        {
            assert(self.tasks@.take(i + 1).drop_last() =~= self.tasks@.take(i as int));
            proof {
                self.lemma_marks_decide(marked@, id, i as int);
            }
            if !marked[i] {
                tasks.push(self.tasks[i].duplicate());
            }
            i = i + 1;
        }
        let mut links: Vec<(TaskId, TagId)> = Vec::new();
        let mut l: usize = 0;
        while l < self.task_tags.len()
            invariant
                self.wf(),
                v == self.tasks_view(),
                self.marks_sound(marked@, id),
                self.marks_closed(marked@, id),
                l <= self.task_tags@.len(),
                links@ == keep_seq(self.task_tags@.take(l as int), keep_link),
                keep_link == (|p: (TaskId, TagId)| !in_subtree(v, p.0, id)),
            decreases self.task_tags@.len() - l,
        {
            assert(self.task_tags@.take(l + 1).drop_last() =~= self.task_tags@.take(l as int));
            let pair = self.task_tags[l];
            let gone = self.deleted_with(&marked, id, pair.0);
            if !gone {
                links.push(pair);
            }
            l = l + 1;
        }
        let mut deps: Vec<(TaskId, TaskId)> = Vec::new();
        let mut d: usize = 0;
        while d < self.task_deps.len()
            invariant
                self.wf(),
                v == self.tasks_view(),
                self.marks_sound(marked@, id),
                self.marks_closed(marked@, id),
                d <= self.task_deps@.len(),
                deps@ == keep_seq(self.task_deps@.take(d as int), keep_dep),
                keep_dep == (|p: (TaskId, TaskId)| !in_subtree(v, p.0, id) && !in_subtree(v, p.1, id)),
            decreases self.task_deps@.len() - d,
        {
            assert(self.task_deps@.take(d + 1).drop_last() =~= self.task_deps@.take(d as int));
            let pair = self.task_deps[d];
            let gone_a = self.deleted_with(&marked, id, pair.0);
            let gone_b = self.deleted_with(&marked, id, pair.1);
            if !gone_a && !gone_b {
                deps.push(pair);
            }
            d = d + 1;
        }
        proof {
            assert(self.tasks@.take(self.tasks@.len() as int) =~= self.tasks@);
            assert(self.task_tags@.take(self.task_tags@.len() as int) =~= self.task_tags@);
            assert(self.task_deps@.take(self.task_deps@.len() as int) =~= self.task_deps@);
            lemma_keep_map(self.tasks@, task_id_of(), keep_task);
            lemma_keep_unique(self.tasks@, task_id_of(), keep_task);
            lemma_keep_from(self.tasks@, keep_task);
            lemma_keep_from(self.task_tags@, keep_link);
            lemma_keep_from(self.task_deps@, keep_dep);
            lemma_keep_no_dup(self.task_tags@, keep_link);
            lemma_keep_no_dup(self.task_deps@, keep_dep);
            assert forall|k: TaskId| #[trigger] v.dom().contains(k) implies v[k].id == k by {
                lemma_keyed_origin(self.tasks@, task_id_of(), k);
            }
            assert(keyed_map(tasks@, task_id_of()) =~= Map::new(
                |k: TaskId| v.dom().contains(k) && !in_subtree(v, k, id),
                |k: TaskId| v[k],
            ));
            assert(elems(links@) =~= elems(self.task_tags@).filter(keep_link));
            assert(elems(deps@) =~= elems(self.task_deps@).filter(keep_dep));
            assert forall|k: int| 0 <= k < tasks@.len() implies (#[trigger] tasks@[k]).id < self.next_task by {
                assert(tasks@.contains(tasks@[k]));
                let j = choose|j: int| 0 <= j < self.tasks@.len() && self.tasks@[j] == tasks@[k];
                assert(self.tasks@[j].id < self.next_task);
            }
        }
        self.tasks = tasks;
        self.task_tags = links;
        self.task_deps = deps;
        Ok(())
    }

    /// Is `x` deleted together with `root`?
    fn deleted_with(&self, marked: &Vec<bool>, root: TaskId, x: TaskId) -> (r: bool)
        requires
            self.wf(),
            self.marks_sound(marked@, root),
            self.marks_closed(marked@, root),
        ensures
            r == in_subtree(self.tasks_view(), x, root),
    {
        if x == root {
            proof {
                assert(reaches(self.tasks_view(), x, root, 0));
            }
            return true;
        }
        match self.task_index(x) {
            Some(j) => {
                proof {
                    self.lemma_marks_decide(marked@, root, j as int);
                }
                marked[j]
            },
            None => {
                proof {
                    assert forall|n: nat| !reaches(self.tasks_view(), x, root, n) by {}
                }
                false
            },
        }
    }

    // ---- Queries ----

    /// Does the filter select the task at index `i` of the vector?
    fn selects_at(&self, f: TaskFilter, i: usize) -> (r: bool)
        requires
            self.wf(),
            i < self.tasks@.len(),
        ensures
            r == self.selects(f, self.tasks@[i as int]),
    {
        let t = &self.tasks[i];
        match f {
            TaskFilter::All => true,
            TaskFilter::InStatus(s) => t.status == s,
            TaskFilter::Today(d) => {
                t.status.is_open() && ((match t.due_date {
                    Some(x) => x.le(&d),
                    None => false,
                }) || (match t.scheduled_date {
                    Some(x) => x.same(&d),
                    None => false,
                }))
            },
            TaskFilter::Upcoming(d) => {
                t.status.is_open() && (match t.due_date {
                    Some(x) => d.lt(&x),
                    None => false,
                })
            },
            TaskFilter::InProject(p) => t.project_id == p,
            TaskFilter::ChildOf(p) => t.parent_id == Some(p),
            TaskFilter::Blocked => t.status.is_open() && self.is_blocked_inner(t.id),
        }
    }

    /// The stored tasks the filter selects, in order `o`.
    fn collect_sorted(&self, f: TaskFilter, o: TaskOrder) -> (r: Vec<Task>)
        requires
            self.wf(),
        ensures
            self.is_listing(r@, f, o),
    {
        let mut out: Vec<Task> = Vec::new();
        let mut i: usize = 0;
        while i < self.tasks.len()
            invariant
                self.wf(),
                i <= self.tasks@.len(),
                sorted_by(o, out@),
                forall|t: Task|
                    #[trigger] out@.contains(t) <==> exists|k: int|
                        0 <= k < i && self.tasks@[k] == t && self.selects(f, t),
                forall|t: Task| #[trigger] out@.contains(t) ==> exists|k: int| 0 <= k < i && self.tasks@[k] == t,
            decreases self.tasks@.len() - i,
        {
            if self.selects_at(f, i) {
                let t = self.tasks[i].duplicate();
                proof {
                    assert forall|m: int| 0 <= m < out@.len() implies (#[trigger] out@[m]).id != t.id by {
                        assert(out@.contains(out@[m]));
                        let k = choose|k: int| 0 <= k < i && self.tasks@[k] == out@[m];
                        assert(task_id_of()(self.tasks@[k]) != task_id_of()(self.tasks@[i as int]));
                    }
                }
                insert_sorted(&mut out, t, o);
                proof {
                    assert forall|x: Task| #[trigger] out@.contains(x) implies exists|k: int|
                        0 <= k < i + 1 && self.tasks@[k] == x by {
                        if x == t {
                            assert(self.tasks@[i as int] == x);
                        }
                    }
                    assert forall|x: Task| #[trigger] out@.contains(x) <==> exists|k: int|
                        0 <= k < i + 1 && self.tasks@[k] == x && self.selects(f, x) by {
                        if x == t {
                            assert(self.tasks@[i as int] == x);
                        }
                        if exists|k: int| 0 <= k < i + 1 && self.tasks@[k] == x && self.selects(f, x) {
                            let k = choose|k: int| 0 <= k < i + 1 && self.tasks@[k] == x && self.selects(f, x);
                            if k < i {
                            }
                        }
                    }
                }
            } else {
                proof {
                    assert forall|x: Task| #[trigger] out@.contains(x) <==> exists|k: int|
                        0 <= k < i + 1 && self.tasks@[k] == x && self.selects(f, x) by {
                        if exists|k: int| 0 <= k < i + 1 && self.tasks@[k] == x && self.selects(f, x) {
                            let k = choose|k: int| 0 <= k < i + 1 && self.tasks@[k] == x && self.selects(f, x);
                            if k < i {
                            }
                        }
                    }
                }
            }
            i = i + 1;
        }
        proof {
            assert forall|t: Task| #[trigger] out@.contains(t) <==> (self.tasks_view().dom().contains(t.id)
                && self.tasks_view()[t.id] == t && self.selects(f, t)) by {
                if out@.contains(t) {
                    let k = choose|k: int| 0 <= k < self.tasks@.len() && self.tasks@[k] == t && self.selects(f, t);
                    lemma_keyed_val(self.tasks@, task_id_of(), k);
                }
                if self.tasks_view().dom().contains(t.id) && self.tasks_view()[t.id] == t && self.selects(f, t) {
                    lemma_keyed_origin(self.tasks@, task_id_of(), t.id);
                }
            }
        }
        out
    }

    /// Is task `id` blocked?
    fn is_blocked_inner(&self, id: TaskId) -> (r: bool)
        requires
            self.wf(),
        ensures
            r == self.blocked_spec(id),
    {
        let mut i: usize = 0;
        while i < self.task_deps.len()
            invariant
                self.wf(),
                i <= self.task_deps@.len(),
                forall|k: int|
                    0 <= k < i ==> !((#[trigger] self.task_deps@[k]).0 == id && self.tasks_view().dom().contains(
                        self.task_deps@[k].1,
                    ) && status_blocks(self.tasks_view()[self.task_deps@[k].1].status)),
            decreases self.task_deps@.len() - i,
        {
            let (a, d) = self.task_deps[i];
            if a == id {
                match self.task_index(d) {
                    Some(j) => {
                        proof {
                            lemma_keyed_val(self.tasks@, task_id_of(), j as int);
                        }
                        match self.tasks[j].status {
                            Status::Done | Status::Cancelled => {},
                            _ => {
                                proof {
                                    assert(self.deps_view().contains((id, d)));
                                }
                                return true;
                            },
                        }
                    },
                    None => {},
                }
            }
            i = i + 1;
        }
        proof {
            assert forall|d: TaskId| #![trigger self.deps_view().contains((id, d))]
                !(self.deps_view().contains((id, d)) && self.tasks_view().dom().contains(d) && status_blocks(
                    self.tasks_view()[d].status,
                )) by {
                if self.deps_view().contains((id, d)) {
                    assert(self.task_deps@.contains((id, d)));
                    let k = choose|k: int| 0 <= k < self.task_deps@.len() && self.task_deps@[k] == (id, d);
                    assert(self.task_deps@[k].0 == id);
                }
            }
        }
        false
    }

    /// Every task, by position then id.
    pub fn list_tasks(&self) -> (r: Result<Vec<Task>>)
        requires
            self.wf(),
        ensures
            r matches Ok(v) && self.is_listing(v@, TaskFilter::All, TaskOrder::PositionId),
    {
        Ok(self.collect_sorted(TaskFilter::All, TaskOrder::PositionId))
    }

    /// The tasks in a status, by position then id.
    pub fn tasks_by_status(&self, status: Status) -> (r: Result<Vec<Task>>)
        requires
            self.wf(),
        ensures
            r matches Ok(v) && self.is_listing(v@, TaskFilter::InStatus(status), TaskOrder::PositionId),
    {
        Ok(self.collect_sorted(TaskFilter::InStatus(status), TaskOrder::PositionId))
    }

    /// Open tasks due on or before `today` or scheduled for it; those with a
    /// due date first, then by due date, position and id.
    pub fn tasks_today(&self, today: Date) -> (r: Result<Vec<Task>>)
        requires
            self.wf(),
        ensures
            r matches Ok(v) && self.is_listing(v@, TaskFilter::Today(today), TaskOrder::DueFirst),
    {
        Ok(self.collect_sorted(TaskFilter::Today(today), TaskOrder::DueFirst))
    }

    /// Open tasks due after `from`, by due date, position and id.
    pub fn tasks_upcoming(&self, from: Date) -> (r: Result<Vec<Task>>)
        requires
            self.wf(),
        ensures
            r matches Ok(v) && self.is_listing(v@, TaskFilter::Upcoming(from), TaskOrder::Due),
    {
        Ok(self.collect_sorted(TaskFilter::Upcoming(from), TaskOrder::Due))
    }

    /// The tasks of a project (`None`: the inbox), by position then id.
    pub fn tasks_by_project(&self, project_id: Option<ProjectId>) -> (r: Result<Vec<Task>>)
        requires
            self.wf(),
        ensures
            r matches Ok(v) && self.is_listing(v@, TaskFilter::InProject(project_id), TaskOrder::PositionId),
    {
        Ok(self.collect_sorted(TaskFilter::InProject(project_id), TaskOrder::PositionId))
    }

    /// The subtasks of a task, by position then id.
    pub fn subtasks(&self, parent_id: TaskId) -> (r: Result<Vec<Task>>)
        requires
            self.wf(),
        ensures
            r matches Ok(v) && self.is_listing(v@, TaskFilter::ChildOf(parent_id), TaskOrder::PositionId),
    {
        Ok(self.collect_sorted(TaskFilter::ChildOf(parent_id), TaskOrder::PositionId))
    }

    /// Open tasks with an unfinished prerequisite, by position then id.
    pub fn blocked_tasks(&self) -> (r: Result<Vec<Task>>)
        requires
            self.wf(),
        ensures
            r matches Ok(v) && self.is_listing(v@, TaskFilter::Blocked, TaskOrder::PositionId),
    {
        Ok(self.collect_sorted(TaskFilter::Blocked, TaskOrder::PositionId))
    }

    /// Does task `id` depend on an existing task that is neither done nor
    /// cancelled?
    pub fn is_task_blocked(&self, id: TaskId) -> (r: Result<bool>)
        requires
            self.wf(),
        ensures
            r matches Ok(b) && b == self.blocked_spec(id),
    {
        Ok(self.is_blocked_inner(id))
    }

    // ---- Tags ----

    /// Index of tag `id` in the vector.
    fn tag_index(&self, id: TagId) -> (r: Option<usize>)
        requires
            self.wf(),
        ensures
            match r {
                Some(i) => i < self.tags@.len() && self.tags@[i as int].id == id,
                None => !self.tags_view().dom().contains(id),
            },
            r is Some <==> self.tags_view().dom().contains(id),
    {
        let mut i: usize = 0;
        while i < self.tags.len()
            invariant
                i <= self.tags@.len(),
                forall|k: int| 0 <= k < i ==> (#[trigger] self.tags@[k]).id != id,
            decreases self.tags@.len() - i,
        {
            if self.tags[i].id == id {
                proof {
                    lemma_keyed_dom(self.tags@, tag_id_of(), id);
                    assert(tag_id_of()(self.tags@[i as int]) == id);
                }
                return Some(i);
            }
            i = i + 1;
        }
        proof {
            lemma_keyed_dom(self.tags@, tag_id_of(), id);
            if has_key(self.tags@, tag_id_of(), id) {
                let k = choose|k: int| 0 <= k < self.tags@.len() && tag_id_of()(#[trigger] self.tags@[k]) == id;
                assert(self.tags@[k].id == id);
            }
        }
        None
    }

    /// Is there a tag named `name`?
    pub open spec fn has_tag_named(&self, name: Seq<char>) -> bool {
        exists|k: TagId| #[trigger] self.tags_view().dom().contains(k) && self.tags_view()[k].name@ == name
    }

    /// Creates the tag `name`; when a tag of that name exists it is
    /// returned and nothing changes.
    pub fn create_tag(&mut self, name: &str) -> (r: Result<Tag>)
        requires
            old(self).wf(),
            old(self).next_tag_id() < i64::MAX,
        ensures
            final(self).wf(),
            r matches Ok(tag) && tag.name@ == name@,
            r matches Ok(tag) && final(self).tags_view().dom().contains(tag.id) && final(self).tags_view()[tag.id]
                == tag,
            r matches Ok(tag) && forall|k: TagId|
                #[trigger] final(self).tags_view().dom().contains(k) && final(self).tags_view()[k].name@ == name@
                    ==> k == tag.id,
            old(self).has_tag_named(name@) ==> (r matches Ok(tag) && old(self).tags_view().dom().contains(tag.id)
                && old(self).tags_view()[tag.id] == tag && final(self).tags_view() == old(self).tags_view()
                && final(self).next_tag_id() == old(self).next_tag_id()),
            !old(self).has_tag_named(name@) ==> (r matches Ok(tag) && tag.id == old(self).next_tag_id()
                && !old(self).tags_view().dom().contains(tag.id)
                && final(self).tags_view() == old(self).tags_view().insert(tag.id, tag)
                && final(self).next_tag_id() == old(self).next_tag_id() + 1),
            final(self).tasks_view() == old(self).tasks_view(),
            final(self).projects_view() == old(self).projects_view(),
            final(self).tag_links() == old(self).tag_links(),
            final(self).deps_view() == old(self).deps_view(),
            final(self).next_task_id() == old(self).next_task_id(),
            final(self).next_project_id() == old(self).next_project_id(),
    {
        proof {
            law_ids_below_counters(*old(self));
        }
        let wanted = chars_of(name);
        let mut i: usize = 0;
        while i < self.tags.len()
            invariant
                self.wf(),
                wanted@ == name@,
                i <= self.tags@.len(),
                forall|k: int| 0 <= k < i ==> (#[trigger] self.tags@[k]).name@ != name@,
            decreases self.tags@.len() - i,
        {
            let have = chars_of(self.tags[i].name.as_str());
            if chars_eq(&have, &wanted) {
                proof {
                    lemma_keyed_val(self.tags@, tag_id_of(), i as int);
                    let id = self.tags@[i as int].id;
                    assert forall|k: TagId|
                        #[trigger] self.tags_view().dom().contains(k) && self.tags_view()[k].name@ == name@ implies k
                        == id by {
                        law_tag_names_unique(*self, k, id);
                    }
                }
                return Ok(self.tags[i].duplicate());
            }
            i = i + 1;
        }
        proof {
            if self.has_tag_named(name@) {
                let k = choose|k: TagId| #[trigger] self.tags_view().dom().contains(k) && self.tags_view()[k].name@ == name@;
                lemma_keyed_origin(self.tags@, tag_id_of(), k);
            }
        }
        let id = self.next_tag;
        self.next_tag = self.next_tag + 1;
        let tag = Tag { id, name: owned(name) };
        let copy = tag.duplicate();
        proof {
            if has_key(self.tags@, tag_id_of(), id) {
                let k = choose|k: int| 0 <= k < self.tags@.len() && tag_id_of()(#[trigger] self.tags@[k]) == id;
                assert(self.tags@[k].id < id);
            }
            lemma_unique_push(self.tags@, tag_id_of(), copy);
        }
        self.tags.push(copy);
        proof {
            assert(self.tags@.drop_last() =~= old(self).tags@);
            assert(self.tags_view().dom().contains(id) && self.tags_view()[id] == tag);
            assert forall|k: TagId|
                #[trigger] self.tags_view().dom().contains(k) && self.tags_view()[k].name@ == name@ implies k
                == id by {
                law_tag_names_unique(*self, k, id);
            }
        }
        Ok(tag)
    }

    /// Every tag, by name.
    pub fn list_tags(&self) -> (r: Result<Vec<Tag>>)
        requires
            self.wf(),
        ensures
            r matches Ok(v) && tags_by_name(v@) && forall|x: Tag|
                #[trigger] v@.contains(x) <==> (self.tags_view().dom().contains(x.id) && self.tags_view()[x.id] == x),
    {
        let mut out: Vec<Tag> = Vec::new();
        let mut i: usize = 0;
        while i < self.tags.len()
            invariant
                self.wf(),
                i <= self.tags@.len(),
                tags_by_name(out@),
                forall|x: Tag| #[trigger] out@.contains(x) <==> exists|k: int| 0 <= k < i && self.tags@[k] == x,
            decreases self.tags@.len() - i,
        {
            let t = self.tags[i].duplicate();
            proof {
                assert forall|m: int| 0 <= m < out@.len() implies (#[trigger] out@[m]).name@ != t.name@ by {
                    assert(out@.contains(out@[m]));
                    let k = choose|k: int| 0 <= k < i && self.tags@[k] == out@[m];
                }
            }
            insert_tag_by_name(&mut out, t);
            proof {
                assert forall|x: Tag| #[trigger] out@.contains(x) <==> exists|k: int| 0 <= k < i + 1 && self.tags@[k] == x by {
                    if x == t {
                        assert(self.tags@[i as int] == x);
                    }
                    if exists|k: int| 0 <= k < i + 1 && self.tags@[k] == x {
                        let k = choose|k: int| 0 <= k < i + 1 && self.tags@[k] == x;
                        if k < i {
                        }
                    }
                }
            }
            i = i + 1;
        }
        proof {
            assert forall|x: Tag| #[trigger] out@.contains(x) <==> (self.tags_view().dom().contains(x.id)
                && self.tags_view()[x.id] == x) by {
                if out@.contains(x) {
                    let k = choose|k: int| 0 <= k < self.tags@.len() && self.tags@[k] == x;
                    lemma_keyed_val(self.tags@, tag_id_of(), k);
                }
                if self.tags_view().dom().contains(x.id) && self.tags_view()[x.id] == x {
                    lemma_keyed_origin(self.tags@, tag_id_of(), x.id);
                }
            }
        }
        Ok(out)
    }

    /// The tags of task `id`, by name.
    pub fn tags_for_task(&self, id: TaskId) -> (r: Result<Vec<Tag>>)
        requires
            self.wf(),
        ensures
            r matches Ok(v) && tags_by_name(v@) && forall|x: Tag|
                #[trigger] v@.contains(x) <==> (self.tag_links().contains((id, x.id))
                    && self.tags_view().dom().contains(x.id) && self.tags_view()[x.id] == x),
    {
        let mut out: Vec<Tag> = Vec::new();
        let mut i: usize = 0;
        while i < self.task_tags.len()
            invariant
                self.wf(),
                i <= self.task_tags@.len(),
                tags_by_name(out@),
                forall|x: Tag| #[trigger] out@.contains(x) <==> exists|k: int|
                    0 <= k < i && self.task_tags@[k] == (id, x.id) && self.tags_view().dom().contains(x.id)
                        && self.tags_view()[x.id] == x,
            decreases self.task_tags@.len() - i,
        {
            let (a, b) = self.task_tags[i];
            if a == id {
                match self.tag_index(b) {
                    Some(j) => {
                        let t = self.tags[j].duplicate();
                        proof {
                            lemma_keyed_val(self.tags@, tag_id_of(), j as int);
                            assert forall|m: int| 0 <= m < out@.len() implies (#[trigger] out@[m]).name@ != t.name@ by {
                                let x = out@[m];
                                assert(out@.contains(x));
                                let k = choose|k: int|
                                    0 <= k < i && self.task_tags@[k] == (id, x.id) && self.tags_view().dom().contains(x.id)
                                        && self.tags_view()[x.id] == x;
                                assert(self.task_tags@[k] != self.task_tags@[i as int]);
                                lemma_keyed_origin(self.tags@, tag_id_of(), x.id);
                                let q = choose|q: int| 0 <= q < self.tags@.len() && tag_id_of()(#[trigger] self.tags@[q]) == x.id
                                    && self.tags@[q] == self.tags_view()[x.id];
                                assert(q != j);
                            }
                        }
                        insert_tag_by_name(&mut out, t);
                        proof {
                            assert forall|x: Tag| #[trigger] out@.contains(x) <==> exists|k: int|
                                0 <= k < i + 1 && self.task_tags@[k] == (id, x.id) && self.tags_view().dom().contains(x.id)
                                    && self.tags_view()[x.id] == x by {
                                if x == t {
                                    assert(self.task_tags@[i as int] == (id, x.id));
                                }
                                if exists|k: int| 0 <= k < i + 1 && self.task_tags@[k] == (id, x.id)
                                    && self.tags_view().dom().contains(x.id) && self.tags_view()[x.id] == x {
                                    let k = choose|k: int| 0 <= k < i + 1 && self.task_tags@[k] == (id, x.id)
                                        && self.tags_view().dom().contains(x.id) && self.tags_view()[x.id] == x;
                                    if k < i {
                                    }
                                }
                            }
                        }
                    },
                    None => {
                        proof {
                            assert forall|x: Tag| #[trigger] out@.contains(x) <==> exists|k: int|
                                0 <= k < i + 1 && self.task_tags@[k] == (id, x.id) && self.tags_view().dom().contains(x.id)
                                    && self.tags_view()[x.id] == x by {
                                if exists|k: int| 0 <= k < i + 1 && self.task_tags@[k] == (id, x.id)
                                    && self.tags_view().dom().contains(x.id) && self.tags_view()[x.id] == x {
                                    let k = choose|k: int| 0 <= k < i + 1 && self.task_tags@[k] == (id, x.id)
                                        && self.tags_view().dom().contains(x.id) && self.tags_view()[x.id] == x;
                                    if k < i {
                                    }
                                }
                            }
                        }
                    },
                }
            } else {
                proof {
                    assert forall|x: Tag| #[trigger] out@.contains(x) <==> exists|k: int|
                        0 <= k < i + 1 && self.task_tags@[k] == (id, x.id) && self.tags_view().dom().contains(x.id)
                            && self.tags_view()[x.id] == x by {
                        if exists|k: int| 0 <= k < i + 1 && self.task_tags@[k] == (id, x.id)
                            && self.tags_view().dom().contains(x.id) && self.tags_view()[x.id] == x {
                            let k = choose|k: int| 0 <= k < i + 1 && self.task_tags@[k] == (id, x.id)
                                && self.tags_view().dom().contains(x.id) && self.tags_view()[x.id] == x;
                            if k < i {
                            }
                        }
                    }
                }
            }
            i = i + 1;
        }
        proof {
            assert forall|x: Tag| #[trigger] out@.contains(x) <==> (self.tag_links().contains((id, x.id))
                && self.tags_view().dom().contains(x.id) && self.tags_view()[x.id] == x) by {
                if self.tag_links().contains((id, x.id)) {
                    assert(self.task_tags@.contains((id, x.id)));
                }
            }
        }
        Ok(out)
    }

    /// Links task `task_id` to tag `tag_id` (no effect if already linked).
    pub fn add_tag(&mut self, task_id: TaskId, tag_id: TagId) -> (r: Result<()>)
        requires
            old(self).wf(),
        ensures
            final(self).wf(),
            r is Ok,
            final(self).tag_links() == old(self).tag_links().insert((task_id, tag_id)),
            final(self).tasks_view() == old(self).tasks_view(),
            final(self).projects_view() == old(self).projects_view(),
            final(self).tags_view() == old(self).tags_view(),
            final(self).deps_view() == old(self).deps_view(),
            final(self).next_task_id() == old(self).next_task_id(),
            final(self).next_project_id() == old(self).next_project_id(),
            final(self).next_tag_id() == old(self).next_tag_id(),
    {
        let pair = (task_id, tag_id);
        if !contains_pair(&self.task_tags, pair) {
            self.task_tags.push(pair);
            proof {
                assert(self.task_tags@.no_duplicates()) by {
                    let s2 = self.task_tags@;
                    assert forall|a: int, b: int| 0 <= a < s2.len() && 0 <= b < s2.len() && a != b implies s2[a] != s2[b] by {
                        if a == s2.len() - 1 || b == s2.len() - 1 {
                            let other = if a == s2.len() - 1 { b } else { a };
                            assert(old(self).task_tags@.contains(s2[other]));
                        } else {
                            assert(s2[a] == old(self).task_tags@[a] && s2[b] == old(self).task_tags@[b]);
                        }
                    }
                }
            }
        }
        proof {
            assert forall|x: (TaskId, TagId)| #[trigger] self.task_tags@.contains(x) <==> (old(self).task_tags@.contains(x) || x == pair) by {
                if self.task_tags@.contains(x) && self.task_tags@.len() > old(self).task_tags@.len() {
                    let k = choose|k: int| 0 <= k < self.task_tags@.len() && self.task_tags@[k] == x;
                    if k < old(self).task_tags@.len() {
                        assert(old(self).task_tags@[k] == x);
                    }
                }
                if old(self).task_tags@.contains(x) && self.task_tags@.len() > old(self).task_tags@.len() {
                    let k = choose|k: int| 0 <= k < old(self).task_tags@.len() && old(self).task_tags@[k] == x;
                    assert(self.task_tags@[k] == x);
                }
                if x == pair && self.task_tags@.len() > old(self).task_tags@.len() {
                    assert(self.task_tags@[self.task_tags@.len() - 1] == x);
                }
            }
            assert(self.tag_links() =~= old(self).tag_links().insert(pair));
        }
        Ok(())
    }

    /// Unlinks task `task_id` from tag `tag_id`.
    pub fn remove_tag(&mut self, task_id: TaskId, tag_id: TagId) -> (r: Result<()>)
        requires
            old(self).wf(),
        ensures
            final(self).wf(),
            r is Ok,
            final(self).tag_links() == old(self).tag_links().remove((task_id, tag_id)),
            final(self).tasks_view() == old(self).tasks_view(),
            final(self).projects_view() == old(self).projects_view(),
            final(self).tags_view() == old(self).tags_view(),
            final(self).deps_view() == old(self).deps_view(),
            final(self).next_task_id() == old(self).next_task_id(),
            final(self).next_project_id() == old(self).next_project_id(),
            final(self).next_tag_id() == old(self).next_tag_id(),
    {
        let links = without_pair(&self.task_tags, (task_id, tag_id));
        self.task_tags = links;
        proof {
            assert(self.tag_links() =~= old(self).tag_links().remove((task_id, tag_id)));
        }
        Ok(())
    }

    // ---- Dependencies ----

    /// Records that task `task_id` depends on task `depends_on`; a task
    /// cannot depend on itself (`Invalid`).
    pub fn add_dependency(&mut self, task_id: TaskId, depends_on: TaskId) -> (r: Result<()>)
        requires
            old(self).wf(),
        ensures
            final(self).wf(),
            r is Err <==> task_id == depends_on,
            r matches Err(e) ==> e matches StoreError::Invalid(m) && m@ == self_dependency_msg(),
            r is Ok ==> final(self).deps_view() == old(self).deps_view().insert((task_id, depends_on)),
            r is Err ==> final(self).deps_view() == old(self).deps_view(),
            final(self).tasks_view() == old(self).tasks_view(),
            final(self).projects_view() == old(self).projects_view(),
            final(self).tags_view() == old(self).tags_view(),
            final(self).tag_links() == old(self).tag_links(),
            final(self).next_task_id() == old(self).next_task_id(),
            final(self).next_project_id() == old(self).next_project_id(),
            final(self).next_tag_id() == old(self).next_tag_id(),
    {
        if task_id == depends_on {
            return Err(StoreError::Invalid(owned("una tarea no puede depender de sí misma")));
        }
        let pair = (task_id, depends_on);
        if !contains_pair(&self.task_deps, pair) {
            self.task_deps.push(pair);
            proof {
                assert(self.task_deps@.no_duplicates()) by {
                    let s2 = self.task_deps@;
                    assert forall|a: int, b: int| 0 <= a < s2.len() && 0 <= b < s2.len() && a != b implies s2[a] != s2[b] by {
                        if a == s2.len() - 1 || b == s2.len() - 1 {
                            let other = if a == s2.len() - 1 { b } else { a };
                            assert(old(self).task_deps@.contains(s2[other]));
                        } else {
                            assert(s2[a] == old(self).task_deps@[a] && s2[b] == old(self).task_deps@[b]);
                        }
                    }
                }
            }
        }
        proof {
            assert forall|x: (TaskId, TaskId)| #[trigger] self.task_deps@.contains(x) <==> (old(self).task_deps@.contains(x) || x == pair) by {
                if self.task_deps@.contains(x) && self.task_deps@.len() > old(self).task_deps@.len() {
                    let k = choose|k: int| 0 <= k < self.task_deps@.len() && self.task_deps@[k] == x;
                    if k < old(self).task_deps@.len() {
                        assert(old(self).task_deps@[k] == x);
                    }
                }
                if old(self).task_deps@.contains(x) && self.task_deps@.len() > old(self).task_deps@.len() {
                    let k = choose|k: int| 0 <= k < old(self).task_deps@.len() && old(self).task_deps@[k] == x;
                    assert(self.task_deps@[k] == x);
                }
                if x == pair && self.task_deps@.len() > old(self).task_deps@.len() {
                    assert(self.task_deps@[self.task_deps@.len() - 1] == x);
                }
            }
            assert(self.deps_view() =~= old(self).deps_view().insert(pair));
        }
        Ok(())
    }

    /// Removes the dependency of `task_id` on `depends_on`.
    pub fn remove_dependency(&mut self, task_id: TaskId, depends_on: TaskId) -> (r: Result<()>)
        requires
            old(self).wf(),
        ensures
            final(self).wf(),
            r is Ok,
            final(self).deps_view() == old(self).deps_view().remove((task_id, depends_on)),
            final(self).tasks_view() == old(self).tasks_view(),
            final(self).projects_view() == old(self).projects_view(),
            final(self).tags_view() == old(self).tags_view(),
            final(self).tag_links() == old(self).tag_links(),
            final(self).next_task_id() == old(self).next_task_id(),
            final(self).next_project_id() == old(self).next_project_id(),
            final(self).next_tag_id() == old(self).next_tag_id(),
    {
        let deps = without_pair(&self.task_deps, (task_id, depends_on));
        self.task_deps = deps;
        proof {
            assert(self.deps_view() =~= old(self).deps_view().remove((task_id, depends_on)));
        }
        Ok(())
    }

    /// The tasks that task `id` depends on, in increasing order.
    pub fn dependencies_of(&self, id: TaskId) -> (r: Result<Vec<TaskId>>)
        requires
            self.wf(),
        ensures
            r matches Ok(v) && (forall|a: int, b: int| 0 <= a < b < v@.len() ==> v@[a] < v@[b])
                && forall|d: TaskId| #[trigger] v@.contains(d) <==> self.deps_view().contains((id, d)),
    {
        let mut out: Vec<TaskId> = Vec::new();
        let mut i: usize = 0;
        while i < self.task_deps.len()
            invariant
                self.wf(),
                i <= self.task_deps@.len(),
                forall|a: int, b: int| 0 <= a < b < out@.len() ==> out@[a] < out@[b],
                forall|d: TaskId| #[trigger] out@.contains(d) <==> exists|k: int| 0 <= k < i && self.task_deps@[k] == (id, d),
            decreases self.task_deps@.len() - i,
        {
            let (a, b) = self.task_deps[i];
            if a == id {
                proof {
                    if out@.contains(b) {
                        let k = choose|k: int| 0 <= k < i && self.task_deps@[k] == (id, b);
                        assert(self.task_deps@[k] != self.task_deps@[i as int]);
                    }
                }
                insert_id_sorted(&mut out, b);
            }
            proof {
                assert forall|d: TaskId| #[trigger] out@.contains(d) <==> exists|k: int| 0 <= k < i + 1 && self.task_deps@[k] == (id, d) by {
                    if exists|k: int| 0 <= k < i + 1 && self.task_deps@[k] == (id, d) {
                        let k = choose|k: int| 0 <= k < i + 1 && self.task_deps@[k] == (id, d);
                        if k < i {
                        }
                    }
                }
            }
            i = i + 1;
        }
        proof {
            assert forall|d: TaskId| #[trigger] out@.contains(d) <==> self.deps_view().contains((id, d)) by {
                if self.deps_view().contains((id, d)) {
                    assert(self.task_deps@.contains((id, d)));
                }
            }
        }
        Ok(out)
    }

    // ---- Project listing ----

    /// The projects (only the unarchived ones unless `include_archived`),
    /// by name.
    pub fn list_projects(&self, include_archived: bool) -> (r: Result<Vec<Project>>)
        requires
            self.wf(),
        ensures
            r matches Ok(v) && projects_by_name(v@) && v@.no_duplicates() && forall|x: Project|
                #[trigger] v@.contains(x) <==> (self.projects_view().dom().contains(x.id)
                    && self.projects_view()[x.id] == x && (include_archived || !x.archived)),
    {
        let mut out: Vec<Project> = Vec::new();
        let mut i: usize = 0;
        while i < self.projects.len()
            invariant
                self.wf(),
                i <= self.projects@.len(),
                projects_by_name(out@),
                out@.no_duplicates(),
                forall|x: Project| #[trigger] out@.contains(x) <==> exists|k: int|
                    0 <= k < i && self.projects@[k] == x && (include_archived || !x.archived),
            decreases self.projects@.len() - i,
        {
            if include_archived || !self.projects[i].archived {
                let p = self.projects[i].duplicate();
                proof {
                    if out@.contains(p) {
                        let k = choose|k: int| 0 <= k < i && self.projects@[k] == p && (include_archived || !p.archived);
                        assert(project_id_of()(self.projects@[k]) != project_id_of()(self.projects@[i as int]));
                    }
                }
                insert_project_by_name(&mut out, p);
            }
            proof {
                assert forall|x: Project| #[trigger] out@.contains(x) <==> exists|k: int|
                    0 <= k < i + 1 && self.projects@[k] == x && (include_archived || !x.archived) by {
                    if exists|k: int| 0 <= k < i + 1 && self.projects@[k] == x && (include_archived || !x.archived) {
                        let k = choose|k: int| 0 <= k < i + 1 && self.projects@[k] == x && (include_archived || !x.archived);
                        if k < i {
                        }
                    }
                }
            }
            i = i + 1;
        }
        proof {
            assert forall|x: Project| #[trigger] out@.contains(x) <==> (self.projects_view().dom().contains(x.id)
                && self.projects_view()[x.id] == x && (include_archived || !x.archived)) by {
                if out@.contains(x) {
                    let k = choose|k: int| 0 <= k < self.projects@.len() && self.projects@[k] == x && (include_archived || !x.archived);
                    lemma_keyed_val(self.projects@, project_id_of(), k);
                }
                if self.projects_view().dom().contains(x.id) && self.projects_view()[x.id] == x {
                    lemma_keyed_origin(self.projects@, project_id_of(), x.id);
                }
            }
        }
        Ok(out)
    }
}


/// Tags in strictly increasing order of name.
pub open spec fn tags_by_name(s: Seq<Tag>) -> bool {
    forall|i: int, j: int| 0 <= i < j < s.len() ==> seq_lt((#[trigger] s[i]).name@, (#[trigger] s[j]).name@)
}

/// Projects in non-decreasing order of name.
pub open spec fn projects_by_name(s: Seq<Project>) -> bool {
    forall|i: int, j: int| 0 <= i < j < s.len() ==> seq_le((#[trigger] s[i]).name@, (#[trigger] s[j]).name@)
}

/// Inserts `t` into `v`, kept in strictly increasing order of name, given
/// that no tag in `v` has its name.
fn insert_tag_by_name(v: &mut Vec<Tag>, t: Tag)
    requires
        tags_by_name(old(v)@),
        forall|m: int| 0 <= m < old(v)@.len() ==> (#[trigger] old(v)@[m]).name@ != t.name@,
    ensures
        tags_by_name(final(v)@),
        forall|x: Tag| #[trigger] final(v)@.contains(x) <==> (old(v)@.contains(x) || x == t),
{
    let tn = chars_of(t.name.as_str());
    let mut p: usize = 0;
    while p < v.len() && chars_lt(&chars_of(v[p].name.as_str()), &tn)
        invariant
            p <= v@.len(),
            tn@ == t.name@,
            forall|i: int| 0 <= i < p ==> seq_lt((#[trigger] v@[i]).name@, t.name@),
        decreases v@.len() - p,
    {
        p = p + 1;
    }
    let ghost old_v = v@;
    proof {
        if p < old_v.len() {
            lemma_seq_lt_total(old_v[p as int].name@, t.name@);
        }
        assert forall|j: int| p <= j < old_v.len() implies seq_lt(t.name@, (#[trigger] old_v[j]).name@) by {
            lemma_seq_lt_total(old_v[p as int].name@, t.name@);
            if j > p {
                lemma_seq_lt_trans(t.name@, old_v[p as int].name@, old_v[j].name@);
            }
        }
    }
    v.insert(p, t);
    proof {
        let nv = v@;
        assert(nv == old_v.insert(p as int, t));
        assert forall|i: int, j: int| 0 <= i < j < nv.len() implies seq_lt((#[trigger] nv[i]).name@, (#[trigger] nv[j]).name@) by {
            if i < p && j > p {
                lemma_seq_lt_trans(nv[i].name@, t.name@, nv[j].name@);
            }
        }
        assert forall|x: Tag| #[trigger] nv.contains(x) <==> (old_v.contains(x) || x == t) by {
            if nv.contains(x) {
                let k = choose|k: int| 0 <= k < nv.len() && nv[k] == x;
                if k < p {
                    assert(old_v[k] == x);
                } else if k > p {
                    assert(old_v[k - 1] == x);
                }
            }
            if old_v.contains(x) {
                let k = choose|k: int| 0 <= k < old_v.len() && old_v[k] == x;
                if k < p {
                    assert(nv[k] == x);
                } else {
                    assert(nv[k + 1] == x);
                }
            }
            if x == t {
                assert(nv[p as int] == x);
            }
        }
    }
}

/// Inserts `t` into `v`, kept in non-decreasing order of name (after the
/// projects of the same name), given that `t` is not in `v`.
fn insert_project_by_name(v: &mut Vec<Project>, t: Project)
    requires
        projects_by_name(old(v)@),
        old(v)@.no_duplicates(),
        !old(v)@.contains(t),
    ensures
        projects_by_name(final(v)@),
        final(v)@.no_duplicates(),
        forall|x: Project| #[trigger] final(v)@.contains(x) <==> (old(v)@.contains(x) || x == t),
{
    let tn = chars_of(t.name.as_str());
    let mut p: usize = 0;
    while p < v.len() && !chars_lt(&tn, &chars_of(v[p].name.as_str()))
        invariant
            p <= v@.len(),
            tn@ == t.name@,
            forall|i: int| 0 <= i < p ==> seq_le((#[trigger] v@[i]).name@, t.name@),
        decreases v@.len() - p,
    {
        proof {
            lemma_seq_lt_total(v@[p as int].name@, t.name@);
        }
        p = p + 1;
    }
    let ghost old_v = v@;
    proof {
        assert forall|j: int| p <= j < old_v.len() implies seq_lt(t.name@, (#[trigger] old_v[j]).name@) by {
            if j > p {
                let a = old_v[p as int].name@;
                let b = old_v[j].name@;
                if seq_lt(a, b) {
                    lemma_seq_lt_trans(t.name@, a, b);
                }
            }
        }
    }
    v.insert(p, t);
    proof {
        let nv = v@;
        assert(nv == old_v.insert(p as int, t));
        assert forall|i: int, j: int| 0 <= i < j < nv.len() implies seq_le((#[trigger] nv[i]).name@, (#[trigger] nv[j]).name@) by {
            if i < p && j > p {
                let a = nv[i].name@;
                let b = nv[j].name@;
                if seq_lt(a, t.name@) {
                    lemma_seq_lt_trans(a, t.name@, b);
                }
            } else if i < p && j == p {
            } else if i == p {
            } else if i < p {
                assert(nv[i] == old_v[i] && nv[j] == old_v[j]);
            } else {
                assert(nv[i] == old_v[i - 1] && nv[j] == old_v[j - 1]);
            }
        }
        assert forall|x: Project| #[trigger] nv.contains(x) <==> (old_v.contains(x) || x == t) by {
            if nv.contains(x) {
                let k = choose|k: int| 0 <= k < nv.len() && nv[k] == x;
                if k < p {
                    assert(old_v[k] == x);
                } else if k > p {
                    assert(old_v[k - 1] == x);
                }
            }
            if old_v.contains(x) {
                let k = choose|k: int| 0 <= k < old_v.len() && old_v[k] == x;
                if k < p {
                    assert(nv[k] == x);
                } else {
                    assert(nv[k + 1] == x);
                }
            }
            if x == t {
                assert(nv[p as int] == x);
            }
        }
        assert forall|a: int, b: int| 0 <= a < nv.len() && 0 <= b < nv.len() && a != b implies nv[a] != nv[b] by {
            if a == p || b == p {
                let other = if a == p { b } else { a };
                let k = if other < p { other } else { other - 1 };
                assert(old_v[k] == nv[other]);
                assert(old_v.contains(nv[other]));
            } else {
                let ka = if a < p { a } else { a - 1 };
                let kb = if b < p { b } else { b - 1 };
                assert(old_v[ka] == nv[a] && old_v[kb] == nv[b]);
            }
        }
    }
}

/// Inserts `x` into `v`, kept strictly increasing, given that `x` is not
/// in `v`.
fn insert_id_sorted(v: &mut Vec<i64>, x: i64)
    requires
        forall|a: int, b: int| 0 <= a < b < old(v)@.len() ==> old(v)@[a] < old(v)@[b],
        !old(v)@.contains(x),
    ensures
        forall|a: int, b: int| 0 <= a < b < final(v)@.len() ==> final(v)@[a] < final(v)@[b],
        forall|y: i64| #[trigger] final(v)@.contains(y) <==> (old(v)@.contains(y) || y == x),
{
    let mut p: usize = 0;
    while p < v.len() && v[p] < x
        invariant
            p <= v@.len(),
            forall|i: int| 0 <= i < p ==> v@[i] < x,
        decreases v@.len() - p,
    {
        p = p + 1;
    }
    let ghost old_v = v@;
    proof {
        if p < old_v.len() {
            assert(old_v[p as int] != x) by {
                assert(old_v.contains(old_v[p as int]));
            }
        }
    }
    v.insert(p, x);
    proof {
        let nv = v@;
        assert(nv == old_v.insert(p as int, x));
        assert forall|y: i64| #[trigger] nv.contains(y) <==> (old_v.contains(y) || y == x) by {
            if nv.contains(y) {
                let k = choose|k: int| 0 <= k < nv.len() && nv[k] == y;
                if k < p {
                    assert(old_v[k] == y);
                } else if k > p {
                    assert(old_v[k - 1] == y);
                }
            }
            if old_v.contains(y) {
                let k = choose|k: int| 0 <= k < old_v.len() && old_v[k] == y;
                if k < p {
                    assert(nv[k] == y);
                } else {
                    assert(nv[k + 1] == y);
                }
            }
            if y == x {
                assert(nv[p as int] == y);
            }
        }
    }
}

/// Does `v` hold `pair`?
fn contains_pair(v: &Vec<(i64, i64)>, pair: (i64, i64)) -> (r: bool)
    ensures
        r == v@.contains(pair),
{
    let mut i: usize = 0;
    while i < v.len()
        invariant
            i <= v@.len(),
            forall|k: int| 0 <= k < i ==> v@[k] != pair,
        decreases v@.len() - i,
    {
        if v[i].0 == pair.0 && v[i].1 == pair.1 {
            assert(v@[i as int] == pair);
            return true;
        }
        i = i + 1;
    }
    false
}

/// `v` without `pair`, other elements kept in order.
fn without_pair(v: &Vec<(i64, i64)>, pair: (i64, i64)) -> (r: Vec<(i64, i64)>)
    requires
        v@.no_duplicates(),
    ensures
        r@.no_duplicates(),
        forall|x: (i64, i64)| #[trigger] r@.contains(x) <==> (v@.contains(x) && x != pair),
{
    let ghost keep = |x: (i64, i64)| x != pair;
    let mut r: Vec<(i64, i64)> = Vec::new();
    let mut i: usize = 0;
    while i < v.len()
        invariant
            i <= v@.len(),
            r@ == keep_seq(v@.take(i as int), keep),
            keep == (|x: (i64, i64)| x != pair),
        decreases v@.len() - i,
    {
        assert(v@.take(i + 1).drop_last() =~= v@.take(i as int));
        if !(v[i].0 == pair.0 && v[i].1 == pair.1) {
            r.push(v[i]);
        }
        i = i + 1;
    }
    proof {
        assert(v@.take(v@.len() as int) =~= v@);
        lemma_keep_from(v@, keep);
        lemma_keep_no_dup(v@, keep);
    }
    r
}

// ---------------------------------------------------------------------------
// Laws
// ---------------------------------------------------------------------------

/// Ids are fresh: every stored task, project and tag id is below the
/// counter the next one of its kind gets, and the counters start at 1.
pub proof fn law_ids_below_counters(s: MockRepository)
    requires
        s.wf(),
    ensures
        s.next_task_id() >= 1,
        s.next_project_id() >= 1,
        s.next_tag_id() >= 1,
        forall|k: TaskId| #[trigger] s.tasks_view().dom().contains(k) ==> k < s.next_task_id(),
        forall|k: ProjectId| #[trigger] s.projects_view().dom().contains(k) ==> k < s.next_project_id(),
        forall|k: TagId| #[trigger] s.tags_view().dom().contains(k) ==> k < s.next_tag_id(),
{
    assert forall|k: TaskId| #[trigger] s.tasks_view().dom().contains(k) implies k < s.next_task_id() by {
        lemma_keyed_origin(s.tasks@, task_id_of(), k);
    }
    assert forall|k: ProjectId| #[trigger] s.projects_view().dom().contains(k) implies k < s.next_project_id() by {
        lemma_keyed_origin(s.projects@, project_id_of(), k);
    }
    assert forall|k: TagId| #[trigger] s.tags_view().dom().contains(k) implies k < s.next_tag_id() by {
        lemma_keyed_origin(s.tags@, tag_id_of(), k);
    }
}

/// Each task is stored under its own id.
pub proof fn law_tasks_keyed_by_id(s: MockRepository, k: TaskId)
    requires
        s.tasks_view().dom().contains(k),
    ensures
        s.tasks_view()[k].id == k,
{
    lemma_keyed_origin(s.tasks@, task_id_of(), k);
}

/// Tag names are unique in a store: two tags with the same name are the
/// same tag.
pub proof fn law_tag_names_unique(s: MockRepository, a: TagId, b: TagId)
    requires
        s.wf(),
        s.tags_view().dom().contains(a),
        s.tags_view().dom().contains(b),
        s.tags_view()[a].name@ == s.tags_view()[b].name@,
    ensures
        a == b,
{
    lemma_keyed_origin(s.tags@, tag_id_of(), a);
    lemma_keyed_origin(s.tags@, tag_id_of(), b);
    let i = choose|i: int|
        0 <= i < s.tags@.len() && tag_id_of()(#[trigger] s.tags@[i]) == a && s.tags@[i] == s.tags_view()[a];
    let j = choose|j: int|
        0 <= j < s.tags@.len() && tag_id_of()(#[trigger] s.tags@[j]) == b && s.tags@[j] == s.tags_view()[b];
    if i < j {
        assert(s.tags@[i].name@ != s.tags@[j].name@);
    } else if j < i {
        assert(s.tags@[j].name@ != s.tags@[i].name@);
    }
}

/// Creating a tag is idempotent: when a store already holds the tag
/// `first` named `name`, a call of `create_tag(name)` (which then returns
/// a stored tag of that name and leaves the tags as they are) returns
/// `first` itself.
pub proof fn law_create_tag_idempotent(
    s: MockRepository,
    after: MockRepository,
    name: Seq<char>,
    first: Tag,
    second: Tag,
)
    requires
        s.wf(),
        s.tags_view().dom().contains(first.id),
        s.tags_view()[first.id] == first,
        first.name@ == name,
        s.tags_view().dom().contains(second.id),
        s.tags_view()[second.id] == second,
        second.name@ == name,
        after.tags_view() == s.tags_view(),
    ensures
        second == first,
        after.tags_view() == s.tags_view(),
{
    law_tag_names_unique(s, first.id, second.id);
}

/// What is created is read back: after `create_task` stored `t` (the
/// tasks become the old ones with `t` inserted at its id), `get_task(t.id)`
/// finds `t`, and every other task reads as before.
pub proof fn law_get_after_create(before: MockRepository, after: MockRepository, t: Task)
    requires
        after.tasks_view() == before.tasks_view().insert(t.id, t),
    ensures
        after.tasks_view().dom().contains(t.id),
        after.tasks_view()[t.id] == t,
        forall|k: TaskId|
            k != t.id ==> (#[trigger] after.tasks_view().dom().contains(k) <==> before.tasks_view().dom().contains(k)),
        forall|k: TaskId|
            k != t.id && before.tasks_view().dom().contains(k) ==> #[trigger] after.tasks_view()[k]
                == before.tasks_view()[k],
{
}

/// An update is read back: after `update_task(t)` succeeded, reading task
/// `t.id` gives `t` with its creation time kept and a new update time; the
/// other tasks read as before.
pub proof fn law_get_after_update(before: MockRepository, after: MockRepository, t: Task)
    requires
        before.tasks_view().dom().contains(t.id),
        after.tasks_view() == before.tasks_view().insert(
            t.id,
            Task {
                created_at: before.tasks_view()[t.id].created_at,
                updated_at: after.tasks_view()[t.id].updated_at,
                ..t
            },
        ),
    ensures
        after.tasks_view().dom().contains(t.id),
        after.tasks_view()[t.id] == (Task {
            created_at: before.tasks_view()[t.id].created_at,
            updated_at: after.tasks_view()[t.id].updated_at,
            ..t
        }),
        after.tasks_view()[t.id].title == t.title,
        after.tasks_view()[t.id].status == t.status,
        after.tasks_view()[t.id].repo_path == t.repo_path,
        after.tasks_view().dom() == before.tasks_view().dom(),
        forall|k: TaskId|
            k != t.id && before.tasks_view().dom().contains(k) ==> #[trigger] after.tasks_view()[k]
                == before.tasks_view()[k],
{
    assert(after.tasks_view().dom() =~= before.tasks_view().dom());
}

/// Linking a tag twice is linking it once: two `add_tag(task, tag)` calls
/// (each adds the pair to the links) leave the links of one call.
pub proof fn law_add_tag_idempotent(
    s0: MockRepository,
    s1: MockRepository,
    s2: MockRepository,
    task_id: TaskId,
    tag_id: TagId,
)
    requires
        s1.tag_links() == s0.tag_links().insert((task_id, tag_id)),
        s2.tag_links() == s1.tag_links().insert((task_id, tag_id)),
    ensures
        s2.tag_links() == s1.tag_links(),
        s2.tag_links().contains((task_id, tag_id)),
{
    assert(s2.tag_links() =~= s1.tag_links());
}

/// An open prerequisite blocks: a task that depends on a stored task which
/// is neither done nor cancelled is blocked.
pub proof fn law_open_prerequisite_blocks(s: MockRepository, a: TaskId, b: TaskId)
    requires
        s.deps_view().contains((a, b)),
        s.tasks_view().dom().contains(b),
        status_blocks(s.tasks_view()[b].status),
    ensures
        s.blocked_spec(a),
{
}

/// Completing the last open prerequisite unblocks: when every prerequisite
/// of `a` other than `b` is closed or gone, and `b` is done after the
/// change (as `complete_task(b)` leaves it, with the dependencies as they
/// were), `a` is no longer blocked.
pub proof fn law_complete_unblocks(before: MockRepository, after: MockRepository, a: TaskId, b: TaskId)
    requires
        after.deps_view() == before.deps_view(),
        after.tasks_view().dom().contains(b) && after.tasks_view()[b].status == Status::Done,
        forall|d: TaskId|
            d != b && #[trigger] before.deps_view().contains((a, d)) ==> !(after.tasks_view().dom().contains(d)
                && status_blocks(after.tasks_view()[d].status)),
    ensures
        !after.blocked_spec(a),
{
}

/// Deleting a task deletes its subtasks: after `delete_task(root)` (which
/// keeps exactly the tasks outside the subtree of `root`), a task whose
/// parent is `root` is gone, and so is `root`.
pub proof fn law_delete_cascades(before: MockRepository, after: MockRepository, root: TaskId, child: TaskId)
    requires
        after.tasks_view() == Map::new(
            |k: TaskId| before.tasks_view().dom().contains(k) && !in_subtree(before.tasks_view(), k, root),
            |k: TaskId| before.tasks_view()[k],
        ),
        before.tasks_view().dom().contains(child),
        before.tasks_view()[child].parent_id == Some(root),
    ensures
        !after.tasks_view().dom().contains(child),
        !after.tasks_view().dom().contains(root),
{
    assert(reaches(before.tasks_view(), root, root, 0));
    assert(reaches(before.tasks_view(), child, root, 1)) by {
        assert(reaches(before.tasks_view(), root, root, 0));
    }
    assert(in_subtree(before.tasks_view(), child, root));
    assert(in_subtree(before.tasks_view(), root, root));
}

} // verus!
