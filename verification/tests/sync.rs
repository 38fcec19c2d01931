use std::collections::HashMap;

use tasky::domain::project::NewProject;
use tasky::domain::task::NewTask;
use tasky::store::MockRepository;
use tasky::sync::render_markdown;

#[test]
fn renders_sections_per_project_and_inbox() {
    let mut store = MockRepository::new();
    let p = store.create_project(NewProject::new("Casa")).unwrap();
    store.create_task(NewTask::new("comprar pan").project(p.id)).unwrap();
    store.create_task(NewTask::new("idea suelta")).unwrap();
    let files = render_markdown(
        &store.list_projects(true).unwrap(),
        &store.list_tasks().unwrap(),
        &HashMap::new(),
    );
    let inbox = files.iter().find(|(n, _)| n == "inbox.md").unwrap();
    assert!(inbox.1.contains("idea suelta"));
    let casa = files.iter().find(|(n, _)| n == "Casa.md").unwrap();
    assert!(casa.1.contains("# Casa"));
    assert!(casa.1.contains("- [ ] comprar pan"));
}
