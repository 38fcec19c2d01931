use tasky::date::Date;
use tasky::domain::quickadd::parse_quick_add;
use tasky::domain::task::{Freq, Recurrence};

fn date(y: i32, m: u32, d: u32) -> Date {
    Date::from_ymd_opt(y, m, d).unwrap()
}

#[test]
fn parses_all_markers() {
    let today = date(2026, 8, 6);
    let p = parse_quick_add("Comprar café +casa @errand !hoy #compras", today);
    assert_eq!(p.title, "Comprar café");
    assert_eq!(p.project.as_deref(), Some("casa"));
    assert_eq!(p.tags, vec!["errand".to_string(), "compras".to_string()]);
    assert_eq!(p.due, Some(today));
}

#[test]
fn plain_text_is_all_title() {
    let p = parse_quick_add("solo un título sin marcadores", date(2026, 8, 6));
    assert_eq!(p.title, "solo un título sin marcadores");
    assert!(p.project.is_none() && p.tags.is_empty() && p.due.is_none());
}

#[test]
fn relative_and_iso_dates() {
    let today = date(2026, 8, 6);
    assert_eq!(parse_quick_add("x !mañana", today).due, Some(date(2026, 8, 7)));
    assert_eq!(parse_quick_add("x !2026-12-01", today).due, Some(date(2026, 12, 1)));
    assert_eq!(parse_quick_add("x !basura", today).due, None);
}

#[test]
fn empty_markers_and_dupes_ignored() {
    let p = parse_quick_add("Tarea + @ #tag #tag @tag", date(2026, 8, 6));
    assert_eq!(p.title, "Tarea");
    assert!(p.project.is_none());
    assert_eq!(p.tags, vec!["tag".to_string()]);
}

#[test]
fn parses_recurrence() {
    let today = date(2026, 8, 6);
    assert_eq!(parse_quick_add("Regar ~semanal", today).recurrence, Some(Recurrence::weekly()));
    assert_eq!(parse_quick_add("x ~daily", today).recurrence, Some(Recurrence::daily()));
    assert_eq!(parse_quick_add("x ~2w", today).recurrence, Some(Recurrence::new(Freq::Weekly, 2)));
    assert_eq!(parse_quick_add("x ~3d", today).recurrence, Some(Recurrence::new(Freq::Daily, 3)));
    assert_eq!(parse_quick_add("x ~basura", today).recurrence, None);

    let p = parse_quick_add("Regar plantas +casa ~semanal !hoy", today);
    assert_eq!(p.title, "Regar plantas");
    assert_eq!(p.recurrence, Some(Recurrence::weekly()));
    assert_eq!(p.due, Some(today));
    assert_eq!(p.project.as_deref(), Some("casa"));
}
