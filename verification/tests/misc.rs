use tasky::config::{run_entry, Config, RunEntry};
use tasky::date::{Date, Timestamp};
use tasky::domain::rules::next_occurrence;
use tasky::domain::task::{Freq, Recurrence};
use tasky::icon::icon_rgba;
use tasky::sync::{pull_message, remotes_include_origin, sanitize, sync_summary};
use tasky::update::{update_message, UpdateOutcome};

#[test]
fn config_defaults() {
    let c = Config::default();
    assert!(c.dark_mode);
    assert!(!c.start_with_windows);
    assert!(c.git_repo_path.is_none());
}

#[test]
fn run_entry_writes_or_deletes() {
    match run_entry(true, "C:/tasky.exe") {
        RunEntry::Write { name, command } => {
            assert_eq!(name, "Tasky");
            assert_eq!(command, "C:/tasky.exe");
        }
        _ => panic!("write"),
    }
    assert!(matches!(run_entry(false, "x"), RunEntry::Delete { name } if name == "Tasky"));
}

#[test]
fn update_messages() {
    assert_eq!(update_message(&UpdateOutcome::UpToDate("0.1.0".into())), "Ya estás en la última versión (0.1.0)");
    assert_eq!(
        update_message(&UpdateOutcome::Updated("0.2.0".into())),
        "Actualizado a 0.2.0 — reinicia la app para aplicar"
    );
    assert_eq!(update_message(&UpdateOutcome::Failed("red".into())), "No se pudo actualizar: red");
}

#[test]
fn icon_is_blue_with_dark_border() {
    let v = icon_rgba();
    assert_eq!(v.len(), 32 * 32 * 4);
    assert_eq!(&v[0..4], &[30, 58, 95, 255]);
    let centre = (16 * 32 + 16) * 4;
    assert_eq!(&v[centre..centre + 4], &[59, 130, 246, 255]);
    let last = (31 * 32 + 31) * 4;
    assert_eq!(&v[last..last + 4], &[30, 58, 95, 255]);
}

#[test]
fn sanitize_file_names() {
    assert_eq!(sanitize("Casa"), "Casa");
    assert_eq!(sanitize(" a/b:c "), "a_b_c");
    assert_eq!(sanitize("   "), "proyecto");
    assert_eq!(sanitize("Año-2026 ok_1"), "Año-2026 ok_1");
}

#[test]
fn git_messages() {
    assert!(remotes_include_origin("upstream\n  origin  \n"));
    assert!(!remotes_include_origin("upstream\norigins"));
    assert_eq!(sync_summary(&Some("0123456789abcdef".into()), &Ok(true)), "Commit 0123456 · push OK");
    assert_eq!(sync_summary(&None, &Ok(false)), "Sin cambios · sin remoto 'origin'");
    assert_eq!(sync_summary(&Some("abc".into()), &Err("sin red".into())), "Commit abc · push falló: sin red");
    assert_eq!(pull_message(false), "Sin remoto 'origin'");
    assert_eq!(pull_message(true), "Pull OK (fast-forward)");
}

#[test]
fn dates_and_timestamps_through_chrono() {
    let d = Date::from_ymd_opt(2024, 2, 29).unwrap();
    assert_eq!(d.to_text(), "2024-02-29");
    assert_eq!(Date::parse_iso("2024-02-29"), Some(d));
    assert!(Date::from_ymd_opt(2023, 2, 29).is_none());
    assert!(Date::parse("29/02/2024").is_err());
    assert_eq!(d.succ_opt(), Date::from_ymd_opt(2024, 3, 1));
    assert_eq!(d.checked_add_days(366), Date::from_ymd_opt(2025, 3, 1));
    assert_eq!(Date::from_ymd_opt(2026, 1, 31).unwrap().checked_add_months(1), Date::from_ymd_opt(2026, 2, 28));
    assert_eq!(d.days_from_ce(), 738945);
    let t = Timestamp { secs: 0, nanos: 0 };
    assert_eq!(t.to_rfc3339(), Some("1970-01-01T00:00:00+00:00".to_string()));
    assert_eq!(Timestamp::parse_rfc3339("1970-01-01T00:00:01Z"), Ok(Timestamp { secs: 1, nanos: 0 }));
}

#[test]
fn rule_roundtrip_on_values() {
    for f in [Freq::Daily, Freq::Weekly, Freq::Monthly, Freq::Yearly] {
        for n in [1u32, 2, 10, 365] {
            let r = Recurrence::new(f, n);
            assert_eq!(Recurrence::from_rule(&r.to_rule()), Some(r));
        }
    }
}

#[test]
fn next_occurrence_is_later() {
    let base = Date::from_ymd_opt(2024, 1, 31).unwrap();
    for r in [Recurrence::daily(), Recurrence::weekly(), Recurrence::monthly(), Recurrence::new(Freq::Yearly, 1)] {
        let next = next_occurrence(base, r).unwrap();
        assert!(next.days_from_ce() > base.days_from_ce());
    }
    assert_eq!(next_occurrence(base, Recurrence::monthly()), Date::from_ymd_opt(2024, 2, 29));
}

#[test]
fn date_text_pads_and_signs_years() {
    assert_eq!(Date::from_ymd_opt(5, 1, 2).unwrap().to_text(), "0005-01-02");
    assert_eq!(Date::from_ymd_opt(-1, 1, 1).unwrap().to_text(), "-0001-01-01");
    assert_eq!(Date::from_ymd_opt(10000, 12, 31).unwrap().to_text(), "+10000-12-31");
}

#[test]
fn rule_reading_closed_form_examples() {
    assert_eq!(Recurrence::from_rule(" ; FREQ=daily ; interval = 4 ;"), Some(Recurrence::new(Freq::Daily, 4)));
    assert_eq!(Recurrence::from_rule("FREQ=WEEKLY;FREQ=MONTHLY"), Some(Recurrence::monthly()));
    assert_eq!(Recurrence::from_rule("FREQ=WEEKLY;FREQ=NUNCA"), None);
    assert_eq!(Recurrence::from_rule("FREQ=WEEKLY;INTERVAL=x"), None);
    assert_eq!(Recurrence::from_rule("FREQ=WEEKLY;BYDAY"), None);
    assert_eq!(Recurrence::from_rule("INTERVAL=3"), None);
    assert_eq!(Recurrence::from_rule("FREQ=YEARLY;INTERVAL=0"), Some(Recurrence::new(Freq::Yearly, 1)));
}
