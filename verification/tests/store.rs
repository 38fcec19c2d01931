use tasky::date::Date;
use tasky::domain::project::NewProject;
use tasky::domain::task::{NewTask, Status};
use tasky::store::MockRepository;

fn date(y: i32, m: u32, d: u32) -> Date {
    Date::from_ymd_opt(y, m, d).unwrap()
}

#[test]
fn mock_crud_and_queries() {
    let repo = &mut MockRepository::new();
    let p = repo.create_project(NewProject::new("Casa")).unwrap();
    assert_eq!(repo.get_project(p.id).unwrap().name, "Casa");
    assert_eq!(repo.list_projects(false).unwrap().len(), 1);

    let t1 = repo
        .create_task(NewTask::new("A").project(p.id).urgent(true).important(true).due(date(2026, 8, 6)))
        .unwrap();
    let t2 = repo.create_task(NewTask::new("B").important(true).due(date(2026, 12, 1))).unwrap();
    let t3 = repo.create_task(NewTask::new("C")).unwrap();

    let mut got = repo.get_task(t1.id).unwrap();
    assert_eq!(got.title, "A");
    got.title = "A2".into();
    repo.update_task(&got).unwrap();
    assert_eq!(repo.get_task(t1.id).unwrap().title, "A2");
    assert_eq!(repo.list_tasks().unwrap().len(), 3);

    assert_eq!(repo.tasks_by_status(Status::Todo).unwrap().len(), 3);
    repo.complete_task(t3.id).unwrap();
    assert_eq!(repo.tasks_by_status(Status::Done).unwrap().len(), 1);
    assert!(repo.get_task(t3.id).unwrap().completed_at.is_some());
    assert_eq!(repo.tasks_by_status(Status::Todo).unwrap().len(), 2);

    let today = date(2026, 8, 6);
    let hoy = repo.tasks_today(today).unwrap();
    assert!(hoy.iter().any(|t| t.id == t1.id));
    assert!(!hoy.iter().any(|t| t.id == t2.id));
    let prox = repo.tasks_upcoming(today).unwrap();
    assert!(prox.iter().any(|t| t.id == t2.id));
    assert!(!prox.iter().any(|t| t.id == t1.id));

    assert_eq!(repo.tasks_by_project(Some(p.id)).unwrap().len(), 1);
    assert!(repo.tasks_by_project(None).unwrap().iter().any(|t| t.id == t2.id));

    let tag = repo.create_tag("compras").unwrap();
    let tag_again = repo.create_tag("compras").unwrap();
    assert_eq!(tag.id, tag_again.id);
    repo.add_tag(t1.id, tag.id).unwrap();
    repo.add_tag(t1.id, tag.id).unwrap();
    assert_eq!(repo.tags_for_task(t1.id).unwrap().len(), 1);
    repo.remove_tag(t1.id, tag.id).unwrap();
    assert!(repo.tags_for_task(t1.id).unwrap().is_empty());

    repo.delete_task(t2.id).unwrap();
    assert!(repo.get_task(t2.id).is_err());
    assert_eq!(repo.list_tasks().unwrap().len(), 2);
}

#[test]
fn mock_hierarchy() {
    let repo = &mut MockRepository::new();
    let parent = repo.create_task(NewTask::new("padre")).unwrap();
    let c1 = repo.create_task(NewTask::new("hijo1").parent(parent.id)).unwrap();
    let c2 = repo.create_task(NewTask::new("hijo2").parent(parent.id)).unwrap();

    let subs = repo.subtasks(parent.id).unwrap();
    assert_eq!(subs.len(), 2);

    repo.delete_task(parent.id).unwrap();
    assert!(repo.get_task(c1.id).is_err());
    assert!(repo.get_task(c2.id).is_err());
}

#[test]
fn mock_dependencies() {
    let repo = &mut MockRepository::new();
    let a = repo.create_task(NewTask::new("A")).unwrap();
    let b = repo.create_task(NewTask::new("B")).unwrap();

    repo.add_dependency(a.id, b.id).unwrap();
    assert!(repo.is_task_blocked(a.id).unwrap());
    assert!(repo.blocked_tasks().unwrap().iter().any(|t| t.id == a.id));
    assert_eq!(repo.dependencies_of(a.id).unwrap(), vec![b.id]);

    assert!(repo.add_dependency(a.id, a.id).is_err());

    repo.complete_task(b.id).unwrap();
    assert!(!repo.is_task_blocked(a.id).unwrap());
    assert!(repo.blocked_tasks().unwrap().is_empty());
}

#[test]
fn mock_repo_link() {
    let repo = &mut MockRepository::new();
    let t = repo.create_task(NewTask::new("con repo")).unwrap();
    let fresh = repo.get_task(t.id).unwrap();
    assert!(fresh.repo_path.is_none() && fresh.repo_keyword.is_none());

    let mut task = repo.get_task(t.id).unwrap();
    task.repo_path = Some("C:/repos/proyecto".into());
    task.repo_keyword = Some("cierra-login".into());
    task.repo_base_commit = Some("abc123".into());
    repo.update_task(&task).unwrap();

    let got = repo.get_task(t.id).unwrap();
    assert_eq!(got.repo_path.as_deref(), Some("C:/repos/proyecto"));
    assert_eq!(got.repo_keyword.as_deref(), Some("cierra-login"));
    assert_eq!(got.repo_base_commit.as_deref(), Some("abc123"));
}
