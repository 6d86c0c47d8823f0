use lagent::agent::{Agent, ListedFile};
use lagent::commands::{
    disable, enable, list, reload, reload_needed, restart, start, status, stop, validate, Step,
};
use lagent::launchctl::{parse_list, LaunchctlEntry};
use lagent::state::compute_hash;
use lagent::state::read_hash;
use lagent::validate::ValidationResult;

fn agent() -> Agent {
    Agent { path: "/L/a.plist".to_string(), label: "com.a".to_string() }
}

fn names(steps: &[Step]) -> Vec<String> {
    steps
        .iter()
        .map(|s| match s {
            Step::Load(p) => format!("load {}", p),
            Step::Unload(p) => format!("unload {}", p),
            Step::LoadQuiet(p) => format!("load-quiet {}", p),
            Step::UnloadQuiet(p) => format!("unload-quiet {}", p),
            Step::Start(l) => format!("start {}", l),
            Step::Stop(l) => format!("stop {}", l),
            Step::WriteHash { label, path } => format!("write-hash {} {}", label, path),
            Step::DeleteHash(l) => format!("delete-hash {}", l),
        })
        .collect()
}

#[test]
fn command_steps() {
    let a = agent();
    assert_eq!(names(&enable(&a)), ["load /L/a.plist", "write-hash com.a /L/a.plist"]);
    assert_eq!(names(&disable(&a)), ["unload /L/a.plist", "delete-hash com.a"]);
    assert_eq!(names(&start(&a)), ["start com.a"]);
    assert_eq!(names(&stop(&a)), ["stop com.a"]);
    assert_eq!(names(&restart(&a)), ["stop com.a", "start com.a"]);
    assert_eq!(
        names(&reload(&a, true)),
        ["unload-quiet /L/a.plist", "load-quiet /L/a.plist", "start com.a", "write-hash com.a /L/a.plist"]
    );
    assert_eq!(
        names(&reload(&a, false)),
        ["unload-quiet /L/a.plist", "load-quiet /L/a.plist", "write-hash com.a /L/a.plist"]
    );
}

#[test]
fn reload_skips_unchanged_plist() {
    let bytes = b"<plist/>";
    let current = compute_hash(bytes);
    let stored = read_hash(Some(format!("{}\n", compute_hash(bytes))));
    assert!(!reload_needed(&current, &stored));
    assert!(reload_needed(&current, &None));
    assert!(reload_needed(&current, &Some("0000".to_string())));
}

fn entries() -> Vec<LaunchctlEntry> {
    parse_list("PID\tStatus\tLabel\n12\t0\tcom.b\n-\t0\tcom.c\n-\t0\tcom.b\n40\t0\tcom.c\n")
}

#[test]
fn status_uses_last_entry() {
    let es = entries();
    let s = status(&es, &"com.b".to_string());
    assert!(s.loaded && !s.running && s.pid.is_none());
    let s = status(&es, &"com.c".to_string());
    assert!(s.loaded && s.running && s.pid == Some(40));
    let s = status(&es, &"com.z".to_string());
    assert!(!s.loaded && !s.running && s.pid.is_none());
}

fn plist(label: &str) -> Vec<u8> {
    format!(
        r#"<?xml version="1.0" encoding="UTF-8"?>
<plist version="1.0"><dict><key>Label</key><string>{}</string></dict></plist>"#,
        label
    )
    .into_bytes()
}

fn file(name: &str, contents: Option<Vec<u8>>) -> ListedFile {
    ListedFile { path: format!("/L/{}", name), file_name: name.to_string(), contents }
}

#[test]
fn list_rows_sorted_and_stable() {
    let files = vec![
        file("z.plist", Some(plist("com.c"))),
        file("notes.txt", Some(plist("com.a"))),
        file("y.plist", Some(b"junk".to_vec())),
        file("x.plist", Some(plist("com.b"))),
        file("w.plist", Some(plist("com.c"))),
        file("Upper.plist", None),
    ];
    let rows = list(&files, &entries());
    let got: Vec<(&str, bool, bool, Option<u32>)> = rows
        .iter()
        .map(|r| (r.label.as_str(), r.loaded, r.running, r.pid))
        .collect();
    assert_eq!(
        got,
        vec![
            ("Upper", false, false, None),
            ("com.b", true, false, None),
            ("com.c", true, true, Some(40)),
            ("com.c", true, true, Some(40)),
            ("y", false, false, None),
        ]
    );
}

#[test]
fn validate_verdict() {
    let ok = ValidationResult { errors: vec![], warnings: vec!["w".to_string()] };
    assert!(validate(&ok));
    let bad = ValidationResult { errors: vec!["e".to_string()], warnings: vec![] };
    assert!(!validate(&bad));
}
