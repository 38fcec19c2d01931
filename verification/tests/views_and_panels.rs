use tasky::date::{Date, Timestamp};
use tasky::domain::project::Project;
use tasky::domain::quickadd::parse_quick_add;
use tasky::domain::task::{Freq, Recurrence, Status, Task};
use tasky::panels::{
    dependency_candidates, dependency_title, field_text, keep_selection, project_sections, quadrant_sections,
    should_check_repos,
};
use tasky::views::{
    blocked_ids, check_message, find_project, handle_keys, quick_add_draft, quick_add_target, recurrence_label,
    repo_candidates, visible_tasks, KeyAction, Keys, ProjectChoice, Screen,
};

fn date(y: i32, m: u32, d: u32) -> Date {
    Date::from_ymd_opt(y, m, d).unwrap()
}

fn at(secs: i64) -> Timestamp {
    Timestamp { secs, nanos: 0 }
}

fn task(id: i64, title: &str, project: Option<i64>, urgent: bool, important: bool, done: bool) -> Task {
    Task {
        id,
        title: title.to_string(),
        notes: None,
        status: if done { Status::Done } else { Status::Todo },
        urgent,
        important,
        project_id: project,
        parent_id: None,
        due_date: None,
        scheduled_date: None,
        recurrence: None,
        position: 0,
        created_at: at(0),
        updated_at: at(0),
        completed_at: if done { Some(at(id * 10)) } else { None },
        repo_path: None,
        repo_keyword: None,
        repo_base_commit: None,
    }
}

fn project(id: i64, name: &str, archived: bool) -> Project {
    Project { id, name: name.to_string(), color: None, archived }
}

fn ids(v: &[Task]) -> Vec<i64> {
    v.iter().map(|t| t.id).collect()
}

fn no_keys() -> Keys {
    Keys {
        digits: [false; 6],
        new_task: false,
        down: false,
        up: false,
        toggle_done: false,
        edit: false,
        delete: false,
        urgent: false,
        important: false,
    }
}

#[test]
fn inbox_lists_open_tasks_without_project_by_position() {
    let mut a = task(1, "a", None, false, false, false);
    a.position = 5;
    let b = task(2, "b", None, false, false, false);
    let c = task(3, "c", Some(9), false, false, false);
    let d = task(4, "d", None, false, false, true);
    let v = visible_tasks(&vec![a, b, c, d], Screen::Inbox, &vec![], date(2026, 8, 6));
    assert_eq!(ids(&v), vec![2, 1]);
}

#[test]
fn today_hides_blocked_and_sorts_due_first() {
    let today = date(2026, 8, 6);
    let mut a = task(1, "a", None, false, false, false);
    a.due_date = Some(date(2026, 8, 6));
    let mut b = task(2, "b", None, false, false, false);
    b.due_date = Some(date(2026, 8, 1));
    let mut c = task(3, "c", None, false, false, false);
    c.scheduled_date = Some(today);
    let mut d = task(4, "d", None, false, false, false);
    d.due_date = Some(date(2026, 8, 2));
    let mut e = task(5, "e", None, false, false, false);
    e.due_date = Some(date(2026, 9, 1));
    let v = visible_tasks(&vec![a, b, c, d, e], Screen::Today, &vec![4], today);
    assert_eq!(ids(&v), vec![2, 1, 3]);
}

#[test]
fn upcoming_and_done_orders() {
    let today = date(2026, 8, 6);
    let mut a = task(1, "a", None, false, false, false);
    a.due_date = Some(date(2026, 9, 1));
    let mut b = task(2, "b", None, false, false, false);
    b.due_date = Some(date(2026, 8, 7));
    let c = task(3, "c", None, false, false, true);
    let d = task(4, "d", None, false, false, true);
    let tasks = vec![a, b, c, d];
    assert_eq!(ids(&visible_tasks(&tasks, Screen::Upcoming, &vec![], today)), vec![2, 1]);
    assert_eq!(ids(&visible_tasks(&tasks, Screen::Done, &vec![], today)), vec![4, 3]);
}

#[test]
fn eisenhower_view_orders_by_quadrant() {
    let tasks = vec![
        task(1, "e", None, false, false, false),
        task(2, "d", None, true, false, false),
        task(3, "s", None, false, true, false),
        task(4, "do", None, true, true, false),
    ];
    let v = visible_tasks(&tasks, Screen::Eisenhower, &vec![], date(2026, 8, 6));
    assert_eq!(ids(&v), vec![4, 3, 2, 1]);
}

#[test]
fn blocked_ids_need_an_open_prerequisite() {
    let tasks = vec![
        task(1, "a", None, false, false, false),
        task(2, "b", None, false, false, true),
        task(3, "c", None, false, false, false),
    ];
    let deps = vec![(1, vec![2]), (3, vec![2, 1]), (2, vec![99])];
    assert_eq!(blocked_ids(&tasks, &deps), vec![3]);
}

#[test]
fn labels_and_messages() {
    assert_eq!(recurrence_label(&Recurrence::weekly()), "(cada semana)");
    assert_eq!(recurrence_label(&Recurrence::new(Freq::Daily, 3)), "(cada 3 días)");
    assert_eq!(recurrence_label(&Recurrence::new(Freq::Yearly, 2)), "(cada 2 años)");
    assert_eq!(check_message(2), "2 tarea(s) completada(s) por commits");
    assert_eq!(check_message(0), "Sin coincidencias nuevas");
    assert_eq!(Screen::Today.label(), "Hoy");
    assert_eq!(Screen::at(5), Screen::Done);
}

#[test]
fn find_project_ignores_ascii_case() {
    let ps = vec![project(1, "Trabajo", false), project(2, "Casa", false), project(3, "casa", false)];
    assert_eq!(find_project(&ps, "CASA"), Some(2));
    assert_eq!(find_project(&ps, "ocio"), None);
}

#[test]
fn quick_add_draft_gives_rules_a_base_date() {
    let today = date(2026, 8, 6);
    let p = parse_quick_add("Regar ~semanal", today);
    let nt = quick_add_draft(&p, Some(7), today);
    assert_eq!(nt.title, "Regar");
    assert_eq!(nt.project_id, Some(7));
    assert_eq!(nt.due_date, Some(today));
    assert_eq!(nt.recurrence, Some(Recurrence::weekly()));
    let q = parse_quick_add("Leer", today);
    assert_eq!(quick_add_draft(&q, None, today).due_date, None);
}

#[test]
fn repo_candidates_are_open_linked_tasks() {
    let mut a = task(1, "a", None, false, false, false);
    a.repo_path = Some("/r".into());
    a.repo_keyword = Some("k".into());
    a.repo_base_commit = Some("abc".into());
    let mut b = task(2, "b", None, false, false, true);
    b.repo_path = Some("/r".into());
    b.repo_keyword = Some("k".into());
    let mut c = task(3, "c", None, false, false, false);
    c.repo_path = Some("/r".into());
    let r = repo_candidates(&vec![a, b, c]);
    assert_eq!(r, vec![(1, "/r".to_string(), "k".to_string(), Some("abc".to_string()))]);
}

#[test]
fn keys_switch_views_and_move_selection() {
    let visible = vec![task(1, "a", None, false, false, false), task(2, "b", None, false, false, true)];
    let mut k = no_keys();
    k.digits[1] = true;
    k.digits[4] = true;
    k.down = true;
    let out = handle_keys(&k, Screen::Inbox, None, &visible);
    assert_eq!(out.view, Screen::Eisenhower);
    assert_eq!(out.selected, Some(1));
    assert!(out.actions.is_empty());

    let mut k2 = no_keys();
    k2.down = true;
    k2.toggle_done = true;
    k2.edit = true;
    let out2 = handle_keys(&k2, Screen::Inbox, Some(1), &visible);
    assert_eq!(out2.selected, Some(2));
    assert_eq!(out2.actions.len(), 2);
    assert!(matches!(out2.actions[0], KeyAction::Reopen(2)));
    assert!(matches!(&out2.actions[1], KeyAction::StartEdit(2, t) if t == "b"));

    let mut k3 = no_keys();
    k3.up = true;
    k3.delete = true;
    k3.urgent = true;
    let out3 = handle_keys(&k3, Screen::Inbox, Some(1), &visible);
    assert_eq!(out3.selected, Some(1));
    assert!(matches!(out3.actions[0], KeyAction::Delete(1)));
    assert!(matches!(out3.actions[1], KeyAction::ToggleUrgent(1)));
}

#[test]
fn project_and_quadrant_sections() {
    let ps = vec![project(1, "A", false), project(2, "B", true), project(3, "C", false)];
    let visible = vec![
        task(10, "x", Some(1), true, true, false),
        task(11, "y", None, false, true, false),
        task(12, "z", Some(3), false, false, false),
        task(13, "w", Some(1), false, true, false),
    ];
    let (sections, inbox) = project_sections(&ps, &visible);
    assert_eq!(sections.len(), 2);
    assert_eq!(sections[0].0.name, "A");
    assert_eq!(ids(&sections[0].1), vec![10, 13]);
    assert_eq!(sections[1].0.name, "C");
    assert_eq!(ids(&inbox), vec![11]);

    let q = quadrant_sections(&visible);
    assert_eq!(q.len(), 4);
    assert_eq!(q[0].0, "Hacer — urgente + importante");
    assert_eq!(ids(&q[0].1), vec![10]);
    assert_eq!(ids(&q[1].1), vec![11, 13]);
    assert!(q[2].1.is_empty());
    assert_eq!(ids(&q[3].1), vec![12]);
}

#[test]
fn detail_panel_helpers() {
    let tasks = vec![
        task(1, "a", None, false, false, false),
        task(2, "b", None, false, false, false),
        task(3, "c", None, false, false, true),
        task(4, "d", None, false, false, false),
    ];
    assert_eq!(ids(&dependency_candidates(&tasks, 1, &vec![4])), vec![2]);
    assert_eq!(dependency_title(&tasks, 3), "c");
    assert_eq!(dependency_title(&tasks, 99), "(?)");
    assert_eq!(keep_selection(Some(2), &tasks), Some(2));
    assert_eq!(keep_selection(Some(7), &tasks), None);
    assert!(should_check_repos(false, false, false));
    assert!(should_check_repos(true, true, false));
    assert!(!should_check_repos(true, true, true));
    assert_eq!(field_text("  hola mundo "), Some("hola mundo".to_string()));
    assert_eq!(field_text("   "), None);
}

#[test]
fn down_and_up_in_one_frame_start_from_the_same_selection() {
    let visible = vec![
        task(1, "a", None, false, false, false),
        task(2, "b", None, false, false, false),
        task(3, "c", None, false, false, false),
    ];
    let mut k = no_keys();
    k.down = true;
    k.up = true;
    assert_eq!(handle_keys(&k, Screen::Inbox, Some(2), &visible).selected, Some(1));
    assert_eq!(handle_keys(&k, Screen::Inbox, None, &visible).selected, Some(1));
}

#[test]
fn quick_add_target_picks_or_creates_the_project() {
    let today = date(2026, 8, 6);
    let ps = vec![project(4, "Casa", false)];
    assert!(quick_add_target(&parse_quick_add("+casa #x", today), &ps).is_none());
    assert!(matches!(quick_add_target(&parse_quick_add("Pan +CASA", today), &ps), Some(ProjectChoice::Existing(4))));
    assert!(matches!(quick_add_target(&parse_quick_add("Pan +ocio", today), &ps), Some(ProjectChoice::Create(n)) if n == "ocio"));
    assert!(matches!(quick_add_target(&parse_quick_add("Pan", today), &ps), Some(ProjectChoice::NoProject)));
}
