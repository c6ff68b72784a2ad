use zap::{filter_records, is_affirmative, partition_by_owner, resolve_identity, ProcessInfo};

fn rec(command: &str, pid: &str, owner: &str) -> ProcessInfo {
    ProcessInfo {
        pid: pid.to_string(),
        owner: owner.to_string(),
        command: command.to_string(),
    }
}

#[test]
fn affirmative_accepts_only_y_and_yes() {
    assert!(is_affirmative("y"));
    assert!(is_affirmative("Y"));
    assert!(is_affirmative("yes"));
    assert!(is_affirmative("YES"));
    assert!(is_affirmative("Yes"));
    assert!(is_affirmative("  yes\n"));
    assert!(is_affirmative("y\n"));
}

#[test]
fn non_affirmative_answers_decline() {
    assert!(!is_affirmative(""));
    assert!(!is_affirmative("\n"));
    assert!(!is_affirmative("n"));
    assert!(!is_affirmative("no"));
    assert!(!is_affirmative("yess"));
    assert!(!is_affirmative("ye"));
    assert!(!is_affirmative("y e s"));
    assert!(!is_affirmative("oui"));
    assert!(!is_affirmative("sudo"));
}

#[test]
fn identity_comes_back_trimmed() {
    assert_eq!(resolve_identity(Some("alice\n")), "alice");
    assert_eq!(resolve_identity(Some("  bob \t\n")), "bob");
    assert_eq!(resolve_identity(Some("carol")), "carol");
}

#[test]
fn failed_or_blank_lookup_is_unknown() {
    assert_eq!(resolve_identity(None), "unknown");
    assert_eq!(resolve_identity(Some("")), "unknown");
    assert_eq!(resolve_identity(Some("  \n")), "unknown");
}

#[test]
fn unicode_whitespace_is_trimmed() {
    assert_eq!(resolve_identity(Some("\u{2003}bob\u{A0}\n")), "bob");
    assert!(is_affirmative("\u{A0}yes\u{2028}"));
}

#[test]
fn partition_splits_by_owner() {
    let records = vec![
        rec("node", "1", "alice"),
        rec("java", "2", "bob"),
        rec("ruby", "3", "alice"),
        rec("go", "4", "root"),
    ];
    let user = "alice".to_string();
    let (owned, foreign) = partition_by_owner(records.clone(), &user);
    assert_eq!(owned.len(), 2);
    assert_eq!(foreign.len(), 2);
    assert_eq!(owned.len() + foreign.len(), records.len());
    assert_eq!(owned[0].pid, "1");
    assert_eq!(owned[1].pid, "3");
    assert_eq!(foreign[0].pid, "2");
    assert_eq!(foreign[1].pid, "4");
    for r in &owned {
        assert_eq!(r.owner, "alice");
    }
    for r in &foreign {
        assert_ne!(r.owner, "alice");
    }
}

#[test]
fn every_record_lands_in_exactly_one_side() {
    let records = vec![rec("a", "10", "u1"), rec("b", "11", "u2"), rec("c", "12", "u1")];
    let user = "u2".to_string();
    let (owned, foreign) = partition_by_owner(records.clone(), &user);
    for r in &records {
        let in_owned = owned.contains(r);
        let in_foreign = foreign.contains(r);
        assert!(in_owned ^ in_foreign);
    }
}

#[test]
fn empty_filter_set_matches_everything() {
    let filters: Vec<String> = Vec::new();
    let records = vec![rec("node", "1", "a"), rec("java", "2", "b")];
    let kept = filter_records(&filters, records.clone());
    assert_eq!(kept, records);
}

#[test]
fn filters_keep_only_named_commands() {
    let filters = vec!["node".to_string()];
    let records = vec![rec("node", "1", "a"), rec("java", "2", "b"), rec("node", "3", "c")];
    let kept = filter_records(&filters, records);
    assert_eq!(kept.len(), 2);
    assert_eq!(kept[0].pid, "1");
    assert_eq!(kept[1].pid, "3");
}

#[test]
fn any_satisfied_filter_suffices() {
    let filters = vec!["node".to_string(), "java".to_string()];
    let records = vec![rec("node", "1", "a"), rec("java", "2", "b"), rec("ruby", "3", "c")];
    let kept = filter_records(&filters, records);
    assert_eq!(kept.len(), 2);
}
