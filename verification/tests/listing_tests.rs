use zap::{parse_listing, parse_lsof_line, ProcessInfo, Zap};

const HEADER: &str = "COMMAND     PID   USER   FD   TYPE DEVICE SIZE/OFF NODE NAME";

#[test]
fn single_valid_line_parses() {
    let rec = parse_lsof_line("node 1234 alice 23u IPv6").expect("line should parse");
    assert_eq!(rec.command, "node");
    assert_eq!(rec.pid, "1234");
    assert_eq!(rec.owner, "alice");
}

#[test]
fn line_with_exactly_three_tokens_parses() {
    let rec = parse_lsof_line("java 99 bob").expect("line should parse");
    assert_eq!(rec.command, "java");
    assert_eq!(rec.pid, "99");
    assert_eq!(rec.owner, "bob");
}

#[test]
fn short_lines_yield_no_record() {
    assert!(parse_lsof_line("garbage").is_none());
    assert!(parse_lsof_line("two tokens").is_none());
    assert!(parse_lsof_line("").is_none());
    assert!(parse_lsof_line("   \t  ").is_none());
}

#[test]
fn non_numeric_identifier_yields_no_record() {
    assert!(parse_lsof_line("node 12a4 alice").is_none());
    assert!(parse_lsof_line("node - alice").is_none());
    assert!(parse_lsof_line("node ++7 alice").is_none());
}

#[test]
fn identifier_range_is_respected() {
    assert!(parse_lsof_line("node 4294967295 alice").is_some());
    assert!(parse_lsof_line("node 4294967296 alice").is_none());
    let rec = parse_lsof_line("node +99 bob").expect("plus-signed digits parse");
    assert_eq!(rec.pid, "+99");
}

#[test]
fn leading_whitespace_shifts_no_columns() {
    let rec = parse_lsof_line("  node\t1234   alice ").expect("line should parse");
    assert_eq!(rec.command, "node");
    assert_eq!(rec.pid, "1234");
    assert_eq!(rec.owner, "alice");
}

#[test]
fn listing_skips_header_line() {
    let text = format!("{}\nnode 1234 alice\n", HEADER);
    let recs = parse_listing(&text);
    assert_eq!(recs.len(), 1);
    assert_eq!(recs[0].pid, "1234");
}

#[test]
fn header_only_listing_is_empty() {
    let text = format!("{}\n", HEADER);
    assert!(parse_listing(&text).is_empty());
    assert!(parse_listing("").is_empty());
}

#[test]
fn malformed_line_between_valid_lines_is_skipped() {
    let text = format!("{}\nnode 1234 alice\ngarbage\njava 999 bob\n", HEADER);
    let recs = parse_listing(&text);
    assert_eq!(recs.len(), 2);
    assert_eq!(recs[0].pid, "1234");
    assert_eq!(recs[1].pid, "999");
}

#[test]
fn duplicate_identifiers_keep_first_record() {
    let text = format!(
        "{}\nnode 1234 alice 23u IPv4\nnode 1234 alice 24u IPv6\njava 999 bob\n",
        HEADER
    );
    let recs = parse_listing(&text);
    assert_eq!(recs.len(), 2);
    assert_eq!(recs[0].pid, "1234");
    assert_eq!(recs[0].command, "node");
    assert_eq!(recs[1].pid, "999");
    for i in 0..recs.len() {
        for j in (i + 1)..recs.len() {
            assert_ne!(recs[i].pid, recs[j].pid);
        }
    }
}

#[test]
fn identifiers_equal_in_value_are_deduplicated() {
    let text = format!("{}\nnode 99 alice\nnode +99 alice\nnode 0099 bob\n", HEADER);
    let recs = parse_listing(&text);
    assert_eq!(recs.len(), 1);
    assert_eq!(recs[0].pid, "99");
    assert_eq!(recs[0].owner, "alice");
}

#[test]
fn unicode_whitespace_separates_tokens() {
    let rec = parse_lsof_line("node\u{A0}1234\u{0B}alice").expect("line should parse");
    assert_eq!(rec.command, "node");
    assert_eq!(rec.pid, "1234");
    assert_eq!(rec.owner, "alice");
}

#[test]
fn parsing_twice_gives_identical_records() {
    let text = format!("{}\nnode 1234 alice\ngarbage\njava 999 bob\n", HEADER);
    let first: Vec<ProcessInfo> = parse_listing(&text);
    let second: Vec<ProcessInfo> = parse_listing(&text);
    assert_eq!(first, second);
}

#[test]
fn zap_new_keeps_port_and_parses_listing() {
    let text = format!("{}\nnode 1234 alice\n", HEADER);
    let z = Zap::new(":8080", &text);
    assert_eq!(z.port, ":8080");
    assert_eq!(z.processes.len(), 1);
    assert_eq!(z.processes[0].owner, "alice");
}
