use grpc_probe::plan::{
    already_scanned, parse_port, parse_ports, plan_tasks, select_domains, total_scans, ScannedSet,
};
use grpc_probe::text::{chars_of, decimal_text, join_texts, trimmed};

fn strings(list: &[&str]) -> Vec<String> {
    list.iter().map(|s| s.to_string()).collect()
}

fn port(s: &str) -> Option<u16> {
    parse_port(&chars_of(s))
}

#[test]
fn ports_by_default() {
    assert_eq!(parse_ports("50051,443,8080,9090"), vec![50051, 443, 8080, 9090]);
}

#[test]
fn ports_with_blanks_and_junk() {
    assert_eq!(parse_ports(" 443 ,\t80\n,,x,70000,-1,+22, 443"), vec![443, 80, 22, 443]);
    assert_eq!(parse_ports(""), Vec::<u16>::new());
    assert_eq!(parse_ports("\u{a0}443\u{3000},4 43"), vec![443]);
}

#[test]
fn port_numbers() {
    assert_eq!(port("0"), Some(0));
    assert_eq!(port("65535"), Some(65535));
    assert_eq!(port("65536"), None);
    assert_eq!(port("0000443"), Some(443));
    assert_eq!(port("99999999999999999999"), None);
    assert_eq!(port("+"), None);
    assert_eq!(port(""), None);
    assert_eq!(port("++1"), None);
    assert_eq!(port(" 1"), None);
    assert_eq!(port("\u{661}"), None);
}

#[test]
fn port_in_decimal_is_read_back() {
    for p in [0u16, 7, 10, 443, 50051, 65535] {
        assert_eq!(port(&decimal_text(p as u64)), Some(p));
    }
    assert_eq!(decimal_text(u64::MAX), "18446744073709551615");
}

#[test]
fn texts_are_joined() {
    assert_eq!(join_texts(&strings(&["a", "b", "c"]), ";"), "a;b;c");
    assert_eq!(join_texts(&strings(&["a"]), ";"), "a");
    assert_eq!(join_texts(&strings(&[]), ";"), "");
}

#[test]
fn domains_of_the_input() {
    let lines = strings(&["# top", "a.com", "", "b.com", "#c.com", " #d", " "]);
    assert_eq!(select_domains(&lines), strings(&["a.com", "b.com", " #d", " "]));
}

#[test]
fn set_of_endpoints() {
    let mut set = ScannedSet::new();
    assert_eq!(set.len(), 0);
    set.insert("a.com", 443);
    set.insert("a.com", 80);
    set.insert("a.com", 443);
    set.insert("b.com", 443);
    assert_eq!(set.len(), 3);
    assert!(set.contains("a.com", 80));
    assert!(set.contains("b.com", 443));
    assert!(!set.contains("b.com", 80));
    assert!(!set.contains("c.com", 443));
}

#[test]
fn rows_of_an_earlier_output() {
    let rows = vec![
        strings(&["a.com", "443", "true"]),
        strings(&["a.com", "443"]),
        strings(&["b.com", "8080", ""]),
        strings(&["c.com", " 443"]),
        strings(&["d.com"]),
        strings(&["e.com", "http"]),
    ];
    let set = already_scanned(&rows);
    assert_eq!(set.len(), 2);
    assert!(set.contains("a.com", 443));
    assert!(set.contains("b.com", 8080));
}

#[test]
fn tasks_of_a_fresh_run() {
    let domains = strings(&["a.com", "b.com"]);
    let tasks = plan_tasks(&domains, &vec![443, 80], &ScannedSet::new());
    let expected = vec![
        ("a.com".to_string(), 443),
        ("a.com".to_string(), 80),
        ("b.com".to_string(), 443),
        ("b.com".to_string(), 80),
    ];
    assert_eq!(tasks, expected);
    assert_eq!(tasks.len(), total_scans(2, 2));
}

#[test]
fn tasks_of_a_resumed_run() {
    let domains = strings(&["a.com", "b.com"]);
    let rows = vec![strings(&["a.com", "80"]), strings(&["b.com", "443"])];
    let tasks = plan_tasks(&domains, &vec![443, 80], &already_scanned(&rows));
    assert_eq!(tasks, vec![("a.com".to_string(), 443), ("b.com".to_string(), 80)]);
}

#[test]
fn white_space_of_unicode_is_trimmed() {
    for c in '\u{0}'..=char::MAX {
        let white = matches!(
            c,
            '\u{9}'..='\u{d}'
                | ' '
                | '\u{85}'
                | '\u{a0}'
                | '\u{1680}'
                | '\u{2000}'..='\u{200a}'
                | '\u{2028}'
                | '\u{2029}'
                | '\u{202f}'
                | '\u{205f}'
                | '\u{3000}'
        );
        assert_eq!(trimmed(&[c]).is_empty(), white);
    }
    assert_eq!(trimmed(&[' ', 'a', ' ', 'b', '\u{3000}']), &['a', ' ', 'b']);
    assert_eq!(parse_ports("443,\u{a0}80\u{2003},\u{200b}22"), vec![443, 80]);
}
