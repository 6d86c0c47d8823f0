use lagent::agent::{read_label, resolve, Agent, LabelError, ListedFile, ResolveError};

const DIR: &str = "/tmp/lagent-tests";

fn plist_text(label: &str) -> String {
    format!(
        r#"<?xml version="1.0" encoding="UTF-8"?>
<!DOCTYPE plist PUBLIC "-//Apple//DTD PLIST 1.0//EN" "http://www.apple.com/DTDs/PropertyList-1.0.dtd">
<plist version="1.0">
<dict>
    <key>Label</key>
    <string>{label}</string>
    <key>ProgramArguments</key>
    <array><string>/usr/bin/true</string></array>
</dict>
</plist>"#
    )
}

fn write_plist(files: &mut Vec<ListedFile>, stem: &str, label: &str) -> String {
    let file_name = format!("{}.plist", stem);
    let path = format!("{}/{}", DIR, file_name);
    files.push(ListedFile {
        path: path.clone(),
        file_name,
        contents: Some(plist_text(label).into_bytes()),
    });
    path
}

fn other_file(files: &mut Vec<ListedFile>, file_name: &str, contents: &str) {
    files.push(ListedFile {
        path: format!("{}/{}", DIR, file_name),
        file_name: file_name.to_string(),
        contents: Some(contents.as_bytes().to_vec()),
    });
}

fn ok(r: Result<Agent, ResolveError>) -> Agent {
    match r {
        Ok(a) => a,
        Err(e) => panic!("{}", e.message()),
    }
}

#[test]
fn test_resolve_by_stem() {
    let mut files = Vec::new();
    write_plist(&mut files, "com.example.myapp", "com.example.myapp");
    let agent = ok(resolve("com.example.myapp", &files));
    assert_eq!(agent.label, "com.example.myapp");
}

#[test]
fn test_resolve_strips_plist_suffix() {
    let mut files = Vec::new();
    write_plist(&mut files, "com.example.myapp", "com.example.myapp");
    let agent = ok(resolve("com.example.myapp.plist", &files));
    assert_eq!(agent.label, "com.example.myapp");
}

#[test]
fn test_resolve_by_label_when_stem_differs() {
    let mut files = Vec::new();
    write_plist(&mut files, "myapp", "com.example.myapp");
    let agent = ok(resolve("com.example.myapp", &files));
    assert_eq!(agent.label, "com.example.myapp");
}

#[test]
fn test_resolve_no_match_returns_error() {
    let files = Vec::new();
    let result = resolve("nonexistent", &files);
    assert!(result.is_err());
    assert!(result.unwrap_err().message().contains("no agent found"));
}

#[test]
fn test_resolve_ambiguous_returns_error() {
    let mut files = Vec::new();
    write_plist(&mut files, "com.example.myapp", "com.example.myapp");
    write_plist(&mut files, "com.example.myapp-alt", "com.example.myapp");
    let result = resolve("com.example.myapp", &files);
    assert!(result.is_err());
    assert!(result.unwrap_err().message().contains("ambiguous"));
}

#[test]
fn test_resolve_path_is_correct() {
    let mut files = Vec::new();
    let expected_path = write_plist(&mut files, "com.example.myapp", "com.example.myapp");
    let agent = ok(resolve("com.example.myapp", &files));
    assert_eq!(agent.path, expected_path);
}

#[test]
fn resolve_error_messages_are_exact() {
    let mut files = Vec::new();
    assert_eq!(
        resolve("x.plist", &files).unwrap_err().message(),
        "no agent found matching 'x.plist'"
    );
    write_plist(&mut files, "a", "x");
    write_plist(&mut files, "x", "y");
    assert_eq!(
        resolve("x", &files).unwrap_err().message(),
        "ambiguous agent name, be more specific: 'x' matches x, y"
    );
}

#[test]
fn resolve_strips_repeated_suffixes() {
    let mut files = Vec::new();
    write_plist(&mut files, "svc", "com.example.svc");
    let agent = ok(resolve("svc.plist.plist", &files));
    assert_eq!(agent.label, "com.example.svc");
}

#[test]
fn resolve_stem_match_without_readable_label_uses_stem() {
    let mut files = Vec::new();
    other_file(&mut files, "broken.plist", "this is not a plist");
    files.push(ListedFile {
        path: format!("{}/unreadable.plist", DIR),
        file_name: "unreadable.plist".to_string(),
        contents: None,
    });
    let agent = ok(resolve("broken", &files));
    assert_eq!(agent.label, "broken");
    assert_eq!(agent.path, format!("{}/broken.plist", DIR));
    let agent = ok(resolve("unreadable", &files));
    assert_eq!(agent.label, "unreadable");
}

#[test]
fn resolve_ignores_files_that_are_not_plists() {
    let mut files = Vec::new();
    other_file(&mut files, "svc.txt", &plist_text("svc"));
    other_file(&mut files, ".plist", &plist_text("svc"));
    other_file(&mut files, "svc.PLIST", &plist_text("svc"));
    assert!(resolve("svc", &files).is_err());
    assert!(resolve("", &files).is_err());
}

#[test]
fn resolve_by_stem_reports_label_inside() {
    let mut files = Vec::new();
    write_plist(&mut files, "short", "com.example.long");
    let agent = ok(resolve("short", &files));
    assert_eq!(agent.label, "com.example.long");
}

#[test]
fn read_label_reports_each_failure() {
    assert_eq!(read_label("/x/a.plist", plist_text("abc").as_bytes()).unwrap(), "abc");
    match read_label("/x/g.plist", b"garbage") {
        Err(e @ LabelError::Parse { .. }) => {
            assert!(e.message().starts_with("failed to parse /x/g.plist: "))
        }
        other => panic!("unexpected {:?}", other),
    }
    let array = r#"<?xml version="1.0" encoding="UTF-8"?>
<plist version="1.0"><array><string>x</string></array></plist>"#;
    match read_label("/x/a.plist", array.as_bytes()) {
        Err(e @ LabelError::NotDictionary) => {
            assert_eq!(e.message(), "plist root is not a dictionary")
        }
        other => panic!("unexpected {:?}", other),
    }
    let number = r#"<?xml version="1.0" encoding="UTF-8"?>
<plist version="1.0"><dict><key>Label</key><integer>3</integer></dict></plist>"#;
    match read_label("/x/n.plist", number.as_bytes()) {
        Err(e @ LabelError::MissingLabel) => {
            assert_eq!(e.message(), "Label key not found or not a string")
        }
        other => panic!("unexpected {:?}", other),
    }
}
