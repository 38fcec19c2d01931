use tasky::date::{Date, Timestamp};
use tasky::domain::project::NewProject;
use tasky::domain::task::{NewTask, Status};
use tasky::store::rows::{task_from_row, TaskRow};
use tasky::store::{MockRepository, StoreError};
use tasky::views::{blocked_ids, visible_tasks, Screen};

fn row() -> TaskRow {
    TaskRow {
        id: 5,
        title: "t".into(),
        notes: Some("n".into()),
        status: "doing".into(),
        urgent: true,
        important: false,
        project_id: Some(2),
        parent_id: None,
        due_date: Some("2026-08-06".into()),
        scheduled_date: None,
        recurrence: Some("FREQ=WEEKLY;INTERVAL=2".into()),
        position: 3,
        created_at: "2026-08-06T10:00:00+00:00".into(),
        updated_at: "2026-08-06T10:00:00.5+02:00".into(),
        completed_at: None,
        repo_path: None,
        repo_keyword: None,
        repo_base_commit: None,
    }
}

#[test]
fn rows_become_tasks() {
    let t = task_from_row(row()).unwrap();
    assert_eq!(t.id, 5);
    assert_eq!(t.status, Status::Doing);
    assert_eq!(t.due_date, Some(Date::from_ymd_opt(2026, 8, 6).unwrap()));
    assert_eq!(t.recurrence.unwrap().interval, 2);
    assert_eq!(t.created_at, Timestamp { secs: 1786010400, nanos: 0 });
    assert_eq!(t.updated_at, Timestamp { secs: 1786003200, nanos: 500_000_000 });
}

#[test]
fn bad_rows_are_invalid() {
    let mut r = row();
    r.status = "hecho".into();
    match task_from_row(r) {
        Err(StoreError::Invalid(m)) => assert_eq!(m, "estado 'hecho'"),
        _ => panic!("estado"),
    }
    let mut r = row();
    r.due_date = Some("2026-13-01".into());
    match task_from_row(r) {
        Err(StoreError::Invalid(m)) => assert!(m.starts_with("fecha '2026-13-01': ")),
        _ => panic!("fecha"),
    }
    let mut r = row();
    r.created_at = "ayer".into();
    match task_from_row(r) {
        Err(e) => assert!(e.message().starts_with("dato inválido: timestamp 'ayer': ")),
        _ => panic!("timestamp"),
    }
    let mut r = row();
    r.recurrence = Some("basura".into());
    assert!(task_from_row(r).unwrap().recurrence.is_none());
}

#[test]
fn store_error_messages() {
    assert_eq!(StoreError::NotFound("tarea 3".into()).message(), "no encontrado: tarea 3");
    assert_eq!(StoreError::Sqlite("x".into()).message(), "error de sqlite: x");
    assert_eq!(StoreError::Migration("y".into()).message(), "error de migración: y");
}

#[test]
fn mock_errors_and_statuses() {
    let repo = &mut MockRepository::new();
    match repo.get_task(42) {
        Err(StoreError::NotFound(m)) => assert_eq!(m, "tarea 42"),
        _ => panic!("tarea"),
    }
    match repo.get_project(7) {
        Err(StoreError::NotFound(m)) => assert_eq!(m, "proyecto 7"),
        _ => panic!("proyecto"),
    }
    let t = repo.create_task(NewTask::new("x")).unwrap();
    match repo.add_dependency(t.id, t.id) {
        Err(StoreError::Invalid(_)) => {}
        _ => panic!("dependencia"),
    }
    repo.complete_task(t.id).unwrap();
    assert!(repo.get_task(t.id).unwrap().completed_at.is_some());
    repo.set_status(t.id, Status::Todo).unwrap();
    assert!(repo.get_task(t.id).unwrap().completed_at.is_none());
    assert!(repo.set_status(999, Status::Todo).is_err());
}

#[test]
fn mock_projects_archive_and_delete() {
    let repo = &mut MockRepository::new();
    let a = repo.create_project(NewProject::new("Zeta")).unwrap();
    let b = repo.create_project(NewProject::new("Alfa").color("#fff")).unwrap();
    let names: Vec<String> = repo.list_projects(true).unwrap().into_iter().map(|p| p.name).collect();
    assert_eq!(names, vec!["Alfa".to_string(), "Zeta".to_string()]);
    repo.set_project_archived(a.id, true).unwrap();
    assert_eq!(repo.list_projects(false).unwrap().len(), 1);
    let t = repo.create_task(NewTask::new("en b").project(b.id)).unwrap();
    repo.delete_project(b.id).unwrap();
    assert_eq!(repo.get_task(t.id).unwrap().project_id, None);
    assert!(repo.get_project(b.id).is_err());
}

#[test]
fn created_task_reads_back() {
    let repo = &mut MockRepository::new();
    let t = repo.create_task(NewTask::new("nueva").urgent(true).position(4)).unwrap();
    let got = repo.get_task(t.id).unwrap();
    assert_eq!(got.title, "nueva");
    assert!(got.urgent);
    assert_eq!(got.position, 4);
    assert_eq!(got.created_at, got.updated_at);
}

#[test]
fn today_view_matches_store_query() {
    let repo = &mut MockRepository::new();
    let today = Date::from_ymd_opt(2026, 8, 6).unwrap();
    repo.create_task(NewTask::new("a").due(Date::from_ymd_opt(2026, 8, 1).unwrap())).unwrap();
    repo.create_task(NewTask::new("b").scheduled(today)).unwrap();
    repo.create_task(NewTask::new("c").due(Date::from_ymd_opt(2026, 9, 1).unwrap())).unwrap();
    let d = repo.create_task(NewTask::new("d").due(today)).unwrap();
    repo.complete_task(d.id).unwrap();
    let all = repo.list_tasks().unwrap();
    let from_store: Vec<i64> = repo.tasks_today(today).unwrap().iter().map(|t| t.id).collect();
    let from_view: Vec<i64> = visible_tasks(&all, Screen::Today, &vec![], today).iter().map(|t| t.id).collect();
    assert_eq!(from_store, from_view);
    assert_eq!(from_store.len(), 2);
    let up_store: Vec<i64> = repo.tasks_upcoming(today).unwrap().iter().map(|t| t.id).collect();
    let up_view: Vec<i64> = visible_tasks(&all, Screen::Upcoming, &vec![], today).iter().map(|t| t.id).collect();
    assert_eq!(up_store, up_view);
}

#[test]
fn updated_task_reads_back() {
    let repo = &mut MockRepository::new();
    let t = repo.create_task(NewTask::new("vieja")).unwrap();
    let mut changed = t.clone();
    changed.title = "nueva".into();
    changed.status = Status::Doing;
    repo.update_task(&changed).unwrap();
    let got = repo.get_task(t.id).unwrap();
    assert_eq!(got.title, "nueva");
    assert_eq!(got.status, Status::Doing);
    assert_eq!(got.created_at, t.created_at);
}

#[test]
fn status_text_roundtrip() {
    for s in [Status::Todo, Status::Doing, Status::Done, Status::Cancelled] {
        assert_eq!(Status::from_db(s.as_str()), Some(s));
    }
    assert_eq!(Status::from_db("hecho"), None);
}

#[test]
fn window_blocked_matches_store() {
    let repo = &mut MockRepository::new();
    let a = repo.create_task(NewTask::new("a")).unwrap();
    let b = repo.create_task(NewTask::new("b")).unwrap();
    let c = repo.create_task(NewTask::new("c")).unwrap();
    repo.add_dependency(a.id, b.id).unwrap();
    repo.add_dependency(c.id, b.id).unwrap();
    repo.add_dependency(c.id, a.id).unwrap();
    repo.complete_task(b.id).unwrap();
    let tasks = repo.list_tasks().unwrap();
    let deps: Vec<(i64, Vec<i64>)> = tasks.iter().map(|t| (t.id, repo.dependencies_of(t.id).unwrap())).collect();
    let blocked = blocked_ids(&tasks, &deps);
    for t in &tasks {
        assert_eq!(blocked.contains(&t.id), repo.is_task_blocked(t.id).unwrap());
    }
    assert_eq!(blocked, vec![c.id]);
}

#[test]
fn new_ids_are_fresh() {
    let repo = &mut MockRepository::new();
    let a = repo.create_task(NewTask::new("a")).unwrap();
    repo.delete_task(a.id).unwrap();
    let b = repo.create_task(NewTask::new("b")).unwrap();
    assert!(b.id > a.id);
    let t1 = repo.create_tag("uno").unwrap();
    let t2 = repo.create_tag("dos").unwrap();
    assert_ne!(t1.id, t2.id);
    let p1 = repo.create_project(NewProject::new("P")).unwrap();
    let p2 = repo.create_project(NewProject::new("P")).unwrap();
    assert_ne!(p1.id, p2.id);
}
