use tasky::gitlink::{message_has_keyword, messages_contain_keyword};

#[test]
fn keyword_matching_is_case_insensitive() {
    assert!(message_has_keyword("Fix LOGIN done", "login"));
    assert!(message_has_keyword("cierra-xyz", "CIERRA-XYZ"));
    assert!(!message_has_keyword("nada que ver", "login"));
    assert!(!message_has_keyword("algo", "   "));
}

#[test]
fn keyword_found_in_any_new_message() {
    let msgs = vec![
        "docs: actualizar README".to_string(),
        "feat: login listo cierra-login".to_string(),
    ];
    assert!(messages_contain_keyword(&msgs, "cierra-login"));
    assert!(!messages_contain_keyword(&msgs, "cierra-otro"));
    assert!(!messages_contain_keyword(&Vec::new(), "cierra-login"));
}

#[test]
fn keyword_is_trimmed_before_matching() {
    assert!(message_has_keyword("Cierra-Login listo", "  cierra-login  "));
}
