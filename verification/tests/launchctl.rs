use lagent::launchctl::{
    list_command, list_loaded, load, load_quiet, parse_list, run_context, run_result, start, stop,
    unload, unload_quiet,
};

fn strs(v: &[String]) -> Vec<&str> {
    v.iter().map(|s| s.as_str()).collect()
}

#[test]
fn argument_lists() {
    assert_eq!(strs(&load("/a b.plist")), ["load", "-w", "/a b.plist"]);
    assert_eq!(strs(&unload("/p")), ["unload", "-w", "/p"]);
    assert_eq!(strs(&load_quiet("/p")), ["load", "/p"]);
    assert_eq!(strs(&unload_quiet("/p")), ["unload", "/p"]);
    assert_eq!(strs(&start("com.x")), ["start", "com.x"]);
    assert_eq!(strs(&stop("com.x")), ["stop", "com.x"]);
}

#[test]
fn parse_list_reads_the_table() {
    let out = "PID\tStatus\tLabel\n123\t0\tcom.example.a\n-\t0\tcom.example.b\r\n\
               bad line\n  45 \t-9\t  spaced label  \n+7\t0\tplus\n99999999999\t0\thuge\n";
    let entries = parse_list(out);
    let got: Vec<(&str, bool, Option<u32>)> = entries
        .iter()
        .map(|e| (e.label.as_str(), e.running, e.pid))
        .collect();
    assert_eq!(
        got,
        vec![
            ("com.example.a", true, Some(123)),
            ("com.example.b", false, None),
            ("spaced label", true, Some(45)),
            ("plus", true, Some(7)),
            ("huge", false, None),
        ]
    );
}

#[test]
fn parse_list_edge_cases() {
    assert!(parse_list("").is_empty());
    assert!(parse_list("123\t0\tonly-header-line").is_empty());
    let e = parse_list("header\n1\t2\tlabel\twith\ttabs");
    assert_eq!(e.len(), 1);
    assert_eq!(e[0].label, "label\twith\ttabs");
    let e = parse_list("header\n\n\t\t\n");
    assert_eq!(e.len(), 1);
    assert_eq!(e[0].label, "");
    assert_eq!(e[0].pid, None);
    assert!(list_loaded(false, "header\n1\t0\tx\n").is_empty());
    assert_eq!(list_loaded(true, "header\n1\t0\tx\n").len(), 1);
}

#[test]
fn run_result_reports_failures() {
    let args = load("/p.plist");
    assert!(run_result(&args, true, Some(0), "").is_ok());
    let e = run_result(&args, false, Some(78), " Load failed: 5\n").unwrap_err();
    assert_eq!(e.message(), "launchctl load -w /p.plist failed (exit 78): Load failed: 5");
    let e = run_result(&args, false, None, "").unwrap_err();
    assert_eq!(e.code, -1);
    assert_eq!(e.message(), "launchctl load -w /p.plist failed (exit -1): ");
    let e = run_result(&args, false, Some(i32::MIN), "x").unwrap_err();
    assert_eq!(e.message(), "launchctl load -w /p.plist failed (exit -2147483648): x");
    assert_eq!(run_context(&args), "failed to run launchctl load -w /p.plist");
}

#[test]
fn list_command_per_scope() {
    let c = list_command(true, Some("alice".to_string()));
    assert_eq!(strs(&c.argv), ["launchctl", "list"]);
    assert_eq!(c.context, "failed to run launchctl list");
    let c = list_command(false, Some("alice".to_string()));
    assert_eq!(strs(&c.argv), ["sudo", "-u", "alice", "launchctl", "list"]);
    assert_eq!(c.context, "failed to run launchctl list as SUDO_USER");
    let c = list_command(false, Some(String::new()));
    assert_eq!(strs(&c.argv), ["launchctl", "list"]);
    let c = list_command(false, None);
    assert_eq!(strs(&c.argv), ["launchctl", "list"]);
}
