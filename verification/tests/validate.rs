use lagent::validate::{validate, ValidateError, ValidationResult};

fn check(text: &str) -> ValidationResult {
    match validate(true, "", text.as_bytes()) {
        Ok(r) => r,
        Err(e) => panic!("{}", e.message()),
    }
}

fn valid_plist(label: &str) -> String {
    format!(
        r#"<?xml version="1.0" encoding="UTF-8"?>
<!DOCTYPE plist PUBLIC "-//Apple//DTD PLIST 1.0//EN" "http://www.apple.com/DTDs/PropertyList-1.0.dtd">
<plist version="1.0">
<dict>
    <key>Label</key>
    <string>{label}</string>
    <key>ProgramArguments</key>
    <array><string>/usr/bin/true</string></array>
</dict>
</plist>"#
    )
}

const WITHOUT_PROGRAM: &str = r#"<?xml version="1.0" encoding="UTF-8"?>
<!DOCTYPE plist PUBLIC "-//Apple//DTD PLIST 1.0//EN" "http://www.apple.com/DTDs/PropertyList-1.0.dtd">
<plist version="1.0">
<dict>
    <key>Label</key>
    <string>com.example.test</string>
</dict>
</plist>"#;

const WITHOUT_LABEL: &str = r#"<?xml version="1.0" encoding="UTF-8"?>
<!DOCTYPE plist PUBLIC "-//Apple//DTD PLIST 1.0//EN" "http://www.apple.com/DTDs/PropertyList-1.0.dtd">
<plist version="1.0">
<dict>
    <key>ProgramArguments</key>
    <array><string>/usr/bin/true</string></array>
</dict>
</plist>"#;

const WITH_UNKNOWN_KEY: &str = r#"<?xml version="1.0" encoding="UTF-8"?>
<!DOCTYPE plist PUBLIC "-//Apple//DTD PLIST 1.0//EN" "http://www.apple.com/DTDs/PropertyList-1.0.dtd">
<plist version="1.0">
<dict>
    <key>Label</key>
    <string>com.example.test</string>
    <key>ProgramArguments</key>
    <array><string>/usr/bin/true</string></array>
    <key>SuperUnknownKey</key>
    <string>value</string>
</dict>
</plist>"#;

#[test]
fn test_valid_plist_has_no_errors() {
    let result = check(&valid_plist("com.example.test"));
    assert!(result.errors.is_empty(), "expected no errors, got: {:?}", result.errors);
}

#[test]
fn test_missing_program_is_error() {
    let result = check(WITHOUT_PROGRAM);
    assert!(result.errors.iter().any(|e| e.contains("Program")));
}

#[test]
fn test_missing_label_is_error() {
    let result = check(WITHOUT_LABEL);
    assert!(result.errors.iter().any(|e| e.contains("Label")));
}

#[test]
fn test_unknown_key_is_warning_not_error() {
    let result = check(WITH_UNKNOWN_KEY);
    assert!(result.errors.is_empty());
    assert!(result.warnings.iter().any(|w| w.contains("SuperUnknownKey")));
}

#[test]
fn findings_are_exact() {
    assert_eq!(
        check(WITHOUT_PROGRAM).errors,
        vec!["missing required key: Program or ProgramArguments".to_string()]
    );
    assert_eq!(
        check(WITHOUT_LABEL).errors,
        vec!["missing required key: Label".to_string()]
    );
    assert_eq!(
        check(WITH_UNKNOWN_KEY).warnings,
        vec!["unknown key: SuperUnknownKey".to_string()]
    );
    let empty_label = valid_plist("");
    assert_eq!(check(&empty_label).errors, vec!["Label must not be empty".to_string()]);
    let nothing = r#"<?xml version="1.0" encoding="UTF-8"?>
<plist version="1.0"><dict><key>Program</key><integer>1</integer><key>Label</key><true/></dict></plist>"#;
    assert_eq!(check(nothing).errors, vec!["missing required key: Label".to_string()]);
    let array = r#"<?xml version="1.0" encoding="UTF-8"?>
<plist version="1.0"><array/></plist>"#;
    let r = check(array);
    assert_eq!(r.errors, vec!["plist root must be a dictionary".to_string()]);
    assert!(r.warnings.is_empty());
}

#[test]
fn syntax_failure_short_circuits() {
    let r = validate(false, "  bad.plist: Encountered unknown tag\n", b"ignored").unwrap();
    assert_eq!(r.errors, vec!["syntax error: bad.plist: Encountered unknown tag".to_string()]);
    assert!(r.warnings.is_empty());
}

#[test]
fn unparsable_plist_is_an_error() {
    match validate(true, "", b"not a plist at all") {
        Err(e @ ValidateError::Parse(_)) => {
            assert!(e.message().starts_with("failed to parse plist: "))
        }
        other => panic!("unexpected {:?}", other.map(|r| r.errors)),
    }
}
