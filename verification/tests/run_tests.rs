use zap::{is_affirmative, normalize_port, parse_args, Action, Invocation, Sequencer, Zap};

const HEADER: &str = "COMMAND PID USER";

#[test]
fn port_gets_colon_prefix() {
    assert_eq!(normalize_port("8080"), ":8080");
    assert_eq!(normalize_port(":8080"), ":8080");
    assert_eq!(normalize_port(""), ":");
    assert_eq!(normalize_port("abc"), ":abc");
}

#[test]
fn missing_port_argument_means_usage() {
    let args = vec!["zap".to_string()];
    assert!(matches!(parse_args(&args), Invocation::Usage));
    let none: Vec<String> = Vec::new();
    assert!(matches!(parse_args(&none), Invocation::Usage));
}

#[test]
fn port_argument_starts_a_run() {
    let args = vec!["zap".to_string(), "8080".to_string()];
    match parse_args(&args) {
        Invocation::Run { port, filters } => {
            assert_eq!(port, ":8080");
            assert!(filters.is_empty());
        },
        Invocation::Usage => panic!("a port argument must start a run"),
    }
}

#[test]
fn flags_select_filters() {
    let args = vec![
        "zap".to_string(),
        ":3000".to_string(),
        "--node".to_string(),
        "-g".to_string(),
        "--mystery".to_string(),
    ];
    match parse_args(&args) {
        Invocation::Run { port, filters } => {
            assert_eq!(port, ":3000");
            assert_eq!(filters, vec!["node".to_string(), "Google".to_string()]);
        },
        Invocation::Usage => panic!("a port argument must start a run"),
    }
}

#[test]
fn owned_record_is_killed_and_counted() {
    let text = format!("{}\nnode 1234 alice\n", HEADER);
    let z = Zap::new(":8080", &text);
    let user = "alice".to_string();
    let mut run = Sequencer::new(z.processes, &user);
    match run.next_action() {
        Action::Kill { pid, elevated } => {
            assert_eq!(pid, "1234");
            assert!(!elevated);
        },
        _ => panic!("an owned record must be killed first"),
    }
    run.record_kill_result(true);
    match run.next_action() {
        Action::ReportSummary { killed } => assert_eq!(killed, 1),
        _ => panic!("one kill must be summarized"),
    }
    run.acknowledge_report();
    assert!(matches!(run.next_action(), Action::Finished));
}

#[test]
fn foreign_record_waits_for_confirmation_and_declines() {
    let text = format!("{}\nnode 1234 alice\n", HEADER);
    let z = Zap::new(":8080", &text);
    let user = "bob".to_string();
    let mut run = Sequencer::new(z.processes, &user);
    assert!(matches!(run.next_action(), Action::AskConfirmation));
    assert!(!is_affirmative("n\n"));
    run.record_confirmation(false);
    match run.next_action() {
        Action::ReportSkipped { count } => assert_eq!(count, 1),
        _ => panic!("declined foreign records must be reported skipped"),
    }
    run.acknowledge_report();
    match run.next_action() {
        Action::ReportSummary { killed } => assert_eq!(killed, 0),
        _ => panic!("the zero total is still reported"),
    }
    run.acknowledge_report();
    assert!(matches!(run.next_action(), Action::Finished));
}

#[test]
fn confirmed_foreign_record_is_killed_elevated() {
    let text = format!("{}\nnode 1234 alice\njava 999 carol\n", HEADER);
    let z = Zap::new(":8080", &text);
    let user = "bob".to_string();
    let mut run = Sequencer::new(z.processes, &user);
    assert!(matches!(run.next_action(), Action::AskConfirmation));
    assert!(is_affirmative("yes\n"));
    run.record_confirmation(true);
    match run.next_action() {
        Action::Kill { pid, elevated } => {
            assert_eq!(pid, "1234");
            assert!(elevated);
        },
        _ => panic!("a confirmed foreign record must be killed"),
    }
    run.record_kill_result(true);
    match run.next_action() {
        Action::Kill { pid, elevated } => {
            assert_eq!(pid, "999");
            assert!(elevated);
        },
        _ => panic!("the second foreign record must follow"),
    }
    run.record_kill_result(false);
    match run.next_action() {
        Action::ReportSummary { killed } => assert_eq!(killed, 1),
        _ => panic!("only successful kills are counted"),
    }
}

#[test]
fn owned_failures_continue_the_batch() {
    let text = format!("{}\nnode 1 alice\njava 2 alice\nruby 3 alice\n", HEADER);
    let z = Zap::new(":80", &text);
    let user = "alice".to_string();
    let mut run = Sequencer::new(z.processes, &user);
    let expected = ["1", "2", "3"];
    for (i, want) in expected.iter().enumerate() {
        match run.next_action() {
            Action::Kill { pid, elevated } => {
                assert_eq!(&pid, want);
                assert!(!elevated);
            },
            _ => panic!("each owned record must get its kill attempt"),
        }
        run.record_kill_result(i != 1);
    }
    match run.next_action() {
        Action::ReportSummary { killed } => assert_eq!(killed, 2),
        _ => panic!("the summary must follow the batch"),
    }
}

#[test]
fn mixed_ownership_kills_owned_then_asks() {
    let text = format!("{}\nnode 1234 alice\njava 999 bob\n", HEADER);
    let z = Zap::new(":8080", &text);
    let user = "alice".to_string();
    let mut run = Sequencer::new(z.processes, &user);
    match run.next_action() {
        Action::Kill { pid, elevated } => {
            assert_eq!(pid, "1234");
            assert!(!elevated);
        },
        _ => panic!("the owned record comes first"),
    }
    run.record_kill_result(true);
    assert!(matches!(run.next_action(), Action::AskConfirmation));
    run.record_confirmation(false);
    match run.next_action() {
        Action::ReportSkipped { count } => assert_eq!(count, 1),
        _ => panic!("the foreign record was declined"),
    }
    run.acknowledge_report();
    match run.next_action() {
        Action::ReportSummary { killed } => assert_eq!(killed, 1),
        _ => panic!("the owned kill is still summarized"),
    }
}

#[test]
fn empty_listing_reports_no_processes() {
    let text = format!("{}\n", HEADER);
    let z = Zap::new(":9999", &text);
    assert!(z.processes.is_empty());
    let user = "alice".to_string();
    let mut run = Sequencer::new(z.processes, &user);
    assert!(matches!(run.next_action(), Action::ReportNoProcesses));
    run.acknowledge_report();
    assert!(matches!(run.next_action(), Action::Finished));
}
