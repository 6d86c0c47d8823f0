//! Checking a plist against the launchd schema: the keys it must have, and
//! the keys launchd knows.
use vstd::prelude::*;
use crate::agent::label_key;
use crate::plist_doc::{
    EntryView, PlistEntry, PlistRoot, RootView, find_key, lemma_lookup_push_other, lookup,
    parse_plist, plist_parse,
};
use crate::text::{concat, lemma_views, trim, trim_str, views};

verus! {

/// The outcome of checking a plist: errors make it invalid, warnings do not.
#[derive(Debug)]
pub struct ValidationResult {
    /// What makes the plist invalid, in the order found.
    pub errors: Vec<String>,
    /// What is odd but allowed, in the order found.
    pub warnings: Vec<String>,
}

/// The top-level keys that launchd knows.
pub open spec fn known_keys() -> Seq<Seq<char>> {
    seq![
        "Label"@,
        "Program"@,
        "ProgramArguments"@,
        "WorkingDirectory"@,
        "StandardOutPath"@,
        "StandardErrorPath"@,
        "EnvironmentVariables"@,
        "RunAtLoad"@,
        "StartInterval"@,
        "StartCalendarInterval"@,
        "KeepAlive"@,
        "OnDemand"@,
        "UserName"@,
        "GroupName"@,
        "Disabled"@,
        "LimitLoadToSessionType"@,
        "AbandonProcessGroup"@,
        "WatchPaths"@,
        "QueueDirectories"@,
        "SoftResourceLimits"@,
        "HardResourceLimits"@,
        "Nice"@,
        "ProcessType"@,
        "ThrottleInterval"@,
        "ExitTimeout"@,
        "TimeOut"@,
        "inetdCompatibility"@,
        "Sockets"@,
        "SessionCreate"@,
        "Debug"@,
        "WaitForDebugger"@,
        "EnableGlobbing"@,
        "EnableTransactions"@,
        "LaunchOnlyOnce"@,
        "MachServices"@,
        "BundleProgram"@
    ]
}

/// The keys of [`known_keys`], as strings.
fn known_keys_vec() -> (res: Vec<String>)
    ensures
        views(res@) == known_keys(),
{
    let res = vec![
        String::from_str("Label"),
        String::from_str("Program"),
        String::from_str("ProgramArguments"),
        String::from_str("WorkingDirectory"),
        String::from_str("StandardOutPath"),
        String::from_str("StandardErrorPath"),
        String::from_str("EnvironmentVariables"),
        String::from_str("RunAtLoad"),
        String::from_str("StartInterval"),
        String::from_str("StartCalendarInterval"),
        String::from_str("KeepAlive"),
        String::from_str("OnDemand"),
        String::from_str("UserName"),
        String::from_str("GroupName"),
        String::from_str("Disabled"),
        String::from_str("LimitLoadToSessionType"),
        String::from_str("AbandonProcessGroup"),
        String::from_str("WatchPaths"),
        String::from_str("QueueDirectories"),
        String::from_str("SoftResourceLimits"),
        String::from_str("HardResourceLimits"),
        String::from_str("Nice"),
        String::from_str("ProcessType"),
        String::from_str("ThrottleInterval"),
        String::from_str("ExitTimeout"),
        String::from_str("TimeOut"),
        String::from_str("inetdCompatibility"),
        String::from_str("Sockets"),
        String::from_str("SessionCreate"),
        String::from_str("Debug"),
        String::from_str("WaitForDebugger"),
        String::from_str("EnableGlobbing"),
        String::from_str("EnableTransactions"),
        String::from_str("LaunchOnlyOnce"),
        String::from_str("MachServices"),
        String::from_str("BundleProgram")
    ];
    proof {
        lemma_views(res@);
    }
    assert(views(res@) =~= known_keys());
    res
}

/// Whether launchd knows the top-level key `key`.
pub fn is_known_key(key: &String) -> (res: bool)
    ensures
        res == known_keys().contains(key@),
{
    let known = known_keys_vec();
    let mut i: usize = 0;
    while i < known.len()
        invariant
            i <= known@.len(),
            views(known@) == known_keys(),
            forall|j: int| 0 <= j < i ==> known_keys()[j] != key@,
        decreases known@.len() - i,
    {
        proof {
            lemma_views(known@);
        }
        if known[i] == *key {
            assert(known_keys()[i as int] == key@);
            return true;
        }
        i += 1;
    }
    false
}


/// The error about the `Label` key, if any: missing (or not a string), or empty.
pub open spec fn label_error(es: Seq<EntryView>) -> Seq<Seq<char>> {
    match lookup(es, label_key()) {
        Some(e) => match e.text {
            Some(l) => if l.len() == 0 {
                seq!["Label must not be empty"@]
            } else {
                seq![]
            },
            None => seq!["missing required key: Label"@],
        },
        None => seq!["missing required key: Label"@],
    }
}

/// The error about the program, if any: neither `Program` nor
/// `ProgramArguments` is present, whatever their values.
pub open spec fn program_error(es: Seq<EntryView>) -> Seq<Seq<char>> {
    if lookup(es, "Program"@) is None && lookup(es, "ProgramArguments"@) is None {
        seq!["missing required key: Program or ProgramArguments"@]
    } else {
        seq![]
    }
}

/// A warning for each top-level key that launchd does not know, in order.
pub open spec fn unknown_key_warnings(es: Seq<EntryView>) -> Seq<Seq<char>>
    decreases es.len(),
{
    if es.len() == 0 {
        seq![]
    } else {
        let rest = unknown_key_warnings(es.drop_last());
        if known_keys().contains(es.last().key) {
            rest
        } else {
            rest.push("unknown key: "@ + es.last().key)
        }
    }
}

/// What the schema check finds in a parsed plist: errors, then warnings.
pub open spec fn schema_findings(root: RootView) -> (Seq<Seq<char>>, Seq<Seq<char>>) {
    match root {
        RootView::Dictionary(es) => (label_error(es) + program_error(es), unknown_key_warnings(es)),
        RootView::Other => (seq!["plist root must be a dictionary"@], seq![]),
    }
}

/// The findings of a [`ValidationResult`].
pub open spec fn findings(r: ValidationResult) -> (Seq<Seq<char>>, Seq<Seq<char>>) {
    (views(r.errors@), views(r.warnings@))
}

/// Pushes `s` onto `v`, with what that does to the views.
fn push_string(v: &mut Vec<String>, s: String)
    ensures
        views(final(v)@) == views(old(v)@).push(s@),
{
    let ghost before = v@;
    v.push(s);
    proof {
        lemma_views(before);
        lemma_views(v@);
        assert(views(v@) =~= views(before).push(s@));
    }
}

/// Checks a parsed plist against the launchd schema: a non-empty string
/// `Label`, and a `Program` or `ProgramArguments` key, are required; a
/// key that launchd does not know is a warning.
pub fn check_schema(root: &PlistRoot) -> (res: ValidationResult)
    ensures
        findings(res) == schema_findings(root@),
{
    let mut errors: Vec<String> = Vec::new();
    let mut warnings: Vec<String> = Vec::new();
    match root {
        PlistRoot::Other => {
            push_string(&mut errors, String::from_str("plist root must be a dictionary"));
            assert(views(errors@) =~= seq!["plist root must be a dictionary"@]);
            assert(views(warnings@) =~= Seq::<Seq<char>>::empty());
        },
        PlistRoot::Dictionary(entries) => {
            let ghost es = entries@.map_values(|e: PlistEntry| e@);
            assert(views(errors@) =~= Seq::<Seq<char>>::empty());
            let label = String::from_str("Label");
            proof {
                reveal_strlit("Label");
                assert(label@ =~= label_key());
            }
            match find_key(entries, &label) {
                Some(i) => {
                    assert(es[i as int] == entries@[i as int]@);
                    match &entries[i].text {
                        Some(l) => {
                            if l.as_str().unicode_len() == 0 {
                                push_string(&mut errors, String::from_str("Label must not be empty"));
                            }
                        },
                        None => {
                            push_string(&mut errors, String::from_str("missing required key: Label"));
                        },
                    }
                },
                None => {
                    push_string(&mut errors, String::from_str("missing required key: Label"));
                },
            }
            assert(views(errors@) =~= label_error(es));
            let program = String::from_str("Program");
            let program_arguments = String::from_str("ProgramArguments");
            let p1 = find_key(entries, &program);
            let p2 = find_key(entries, &program_arguments);
            if p1.is_none() && p2.is_none() {
                push_string(
                    &mut errors,
                    String::from_str("missing required key: Program or ProgramArguments"),
                );
            }
            assert(views(errors@) =~= label_error(es) + program_error(es));
            let mut i: usize = 0;
            while i < entries.len()
                invariant
                    i <= entries@.len(),
                    es == entries@.map_values(|e: PlistEntry| e@),
                    views(warnings@) == unknown_key_warnings(es.take(i as int)),
                decreases entries@.len() - i,
            {
                assert(es.take(i + 1).drop_last() =~= es.take(i as int));
                assert(es.take(i + 1).last() == entries@[i as int]@);
                if !is_known_key(&entries[i].key) {
                    let w = concat("unknown key: ", entries[i].key.as_str());
                    push_string(&mut warnings, w);
                }
                i += 1;
            }
            assert(es.take(i as int) =~= es);
        },
    }
    ValidationResult { errors, warnings }
}

/// The findings when the syntax check (`plutil -lint`) fails: one error
/// that quotes its trimmed message.
pub fn syntax_failure(stderr: &str) -> (res: ValidationResult)
    ensures
        findings(res) == (seq!["syntax error: "@ + trim(stderr@)], Seq::<Seq<char>>::empty()),
{
    let mut errors: Vec<String> = Vec::new();
    let msg = trim_str(stderr);
    push_string(&mut errors, concat("syntax error: ", msg.as_str()));
    let warnings: Vec<String> = Vec::new();
    assert(views(errors@) =~= seq!["syntax error: "@ + trim(stderr@)]);
    assert(views(warnings@) =~= Seq::<Seq<char>>::empty());
    ValidationResult { errors, warnings }
}

/// Why a plist could not be checked against the schema.
#[derive(Debug)]
pub enum ValidateError {
    /// The plist passed the syntax check, but could not be parsed; the
    /// parser's message.
    Parse(String),
}

impl ValidateError {
    /// The text of the error.
    pub fn message(&self) -> (res: String)
        ensures
            res@ == match self {
                ValidateError::Parse(m) => "failed to parse plist: "@ + m@,
            },
    {
        match self {
            ValidateError::Parse(m) => concat("failed to parse plist: ", m.as_str()),
        }
    }
}

/// Validates a plist in two stages: the syntax check's verdict (from
/// `plutil -lint`) and, when that passed, the schema check on the plist's
/// bytes. When the syntax check failed, the bytes are not looked at.
pub fn validate(lint_passed: bool, lint_stderr: &str, contents: &[u8]) -> (res: Result<
    ValidationResult,
    ValidateError,
>)
    ensures
        !lint_passed ==> (res matches Ok(r) && findings(r) == (
            seq!["syntax error: "@ + trim(lint_stderr@)],
            Seq::<Seq<char>>::empty(),
        )),
        lint_passed ==> match plist_parse(contents@) {
            Ok(root) => res matches Ok(r) && findings(r) == schema_findings(root),
            Err(m) => res matches Err(ValidateError::Parse(e)) && e@ == m,
        },
{
    if !lint_passed {
        return Ok(syntax_failure(lint_stderr));
    }
    match parse_plist(contents) {
        Err(m) => Err(ValidateError::Parse(m)),
        Ok(root) => Ok(check_schema(&root)),
    }
}


/// A plist has no errors exactly when its root is a dictionary with a
/// non-empty string `Label` and a `Program` or `ProgramArguments` key.
pub proof fn lemma_no_errors_iff_required_keys(root: RootView)
    ensures
        schema_findings(root).0.len() == 0 <==> (root matches RootView::Dictionary(es) && (lookup(
            es,
            label_key(),
        ) matches Some(e) && (e.text matches Some(l) && l.len() > 0)) && (lookup(es, "Program"@) is Some
            || lookup(es, "ProgramArguments"@) is Some)),
{
}

/// A key that launchd does not know yields a warning, never an error: adding
/// one to a dictionary leaves its errors as they were and adds one warning
/// that names it.
pub proof fn lemma_unknown_key_only_warns(es: Seq<EntryView>, e: EntryView)
    requires
        !known_keys().contains(e.key),
    ensures
        schema_findings(RootView::Dictionary(es.push(e))).0 == schema_findings(
            RootView::Dictionary(es),
        ).0,
        schema_findings(RootView::Dictionary(es.push(e))).1 == schema_findings(
            RootView::Dictionary(es),
        ).1.push("unknown key: "@ + e.key),
{
    reveal_strlit("Label");
    assert(known_keys()[0] =~= label_key());
    assert(known_keys()[1] == "Program"@);
    assert(known_keys()[2] == "ProgramArguments"@);
    lemma_lookup_push_other(es, e, label_key());
    lemma_lookup_push_other(es, e, "Program"@);
    lemma_lookup_push_other(es, e, "ProgramArguments"@);
    assert(es.push(e).drop_last() =~= es);
}


/// The launchd keys: each of `Label`, `Program`, `ProgramArguments`,
/// `WorkingDirectory`, `StandardOutPath`, `StandardErrorPath`,
/// `EnvironmentVariables`, `RunAtLoad`, `StartInterval`,
/// `StartCalendarInterval`, `KeepAlive`, `OnDemand`, `UserName`, `GroupName`,
/// `Disabled`, `LimitLoadToSessionType`, `AbandonProcessGroup`, `WatchPaths`,
/// `QueueDirectories`, `SoftResourceLimits`, `HardResourceLimits`, `Nice`,
/// `ProcessType`, `ThrottleInterval`, `ExitTimeout`, `TimeOut`,
/// `inetdCompatibility`, `Sockets`, `SessionCreate`, `Debug`,
/// `WaitForDebugger`, `EnableGlobbing`, `EnableTransactions`,
/// `LaunchOnlyOnce`, `MachServices` and `BundleProgram` is a known key.
pub proof fn lemma_launchd_keys_are_known(k: Seq<char>)
    requires
        ({
        ||| k == "Label"@
        ||| k == "Program"@
        ||| k == "ProgramArguments"@
        ||| k == "WorkingDirectory"@
        ||| k == "StandardOutPath"@
        ||| k == "StandardErrorPath"@
        ||| k == "EnvironmentVariables"@
        ||| k == "RunAtLoad"@
        ||| k == "StartInterval"@
        ||| k == "StartCalendarInterval"@
        ||| k == "KeepAlive"@
        ||| k == "OnDemand"@
        ||| k == "UserName"@
        ||| k == "GroupName"@
        ||| k == "Disabled"@
        ||| k == "LimitLoadToSessionType"@
        ||| k == "AbandonProcessGroup"@
        ||| k == "WatchPaths"@
        ||| k == "QueueDirectories"@
        ||| k == "SoftResourceLimits"@
        ||| k == "HardResourceLimits"@
        ||| k == "Nice"@
        ||| k == "ProcessType"@
        ||| k == "ThrottleInterval"@
        ||| k == "ExitTimeout"@
        ||| k == "TimeOut"@
        ||| k == "inetdCompatibility"@
        ||| k == "Sockets"@
        ||| k == "SessionCreate"@
        ||| k == "Debug"@
        ||| k == "WaitForDebugger"@
        ||| k == "EnableGlobbing"@
        ||| k == "EnableTransactions"@
        ||| k == "LaunchOnlyOnce"@
        ||| k == "MachServices"@
        ||| k == "BundleProgram"@
        }),
    ensures
        known_keys().contains(k),
{
    assert(known_keys()[0] == "Label"@);
    assert(known_keys()[1] == "Program"@);
    assert(known_keys()[2] == "ProgramArguments"@);
    assert(known_keys()[3] == "WorkingDirectory"@);
    assert(known_keys()[4] == "StandardOutPath"@);
    assert(known_keys()[5] == "StandardErrorPath"@);
    assert(known_keys()[6] == "EnvironmentVariables"@);
    assert(known_keys()[7] == "RunAtLoad"@);
    assert(known_keys()[8] == "StartInterval"@);
    assert(known_keys()[9] == "StartCalendarInterval"@);
    assert(known_keys()[10] == "KeepAlive"@);
    assert(known_keys()[11] == "OnDemand"@);
    assert(known_keys()[12] == "UserName"@);
    assert(known_keys()[13] == "GroupName"@);
    assert(known_keys()[14] == "Disabled"@);
    assert(known_keys()[15] == "LimitLoadToSessionType"@);
    assert(known_keys()[16] == "AbandonProcessGroup"@);
    assert(known_keys()[17] == "WatchPaths"@);
    assert(known_keys()[18] == "QueueDirectories"@);
    assert(known_keys()[19] == "SoftResourceLimits"@);
    assert(known_keys()[20] == "HardResourceLimits"@);
    assert(known_keys()[21] == "Nice"@);
    assert(known_keys()[22] == "ProcessType"@);
    assert(known_keys()[23] == "ThrottleInterval"@);
    assert(known_keys()[24] == "ExitTimeout"@);
    assert(known_keys()[25] == "TimeOut"@);
    assert(known_keys()[26] == "inetdCompatibility"@);
    assert(known_keys()[27] == "Sockets"@);
    assert(known_keys()[28] == "SessionCreate"@);
    assert(known_keys()[29] == "Debug"@);
    assert(known_keys()[30] == "WaitForDebugger"@);
    assert(known_keys()[31] == "EnableGlobbing"@);
    assert(known_keys()[32] == "EnableTransactions"@);
    assert(known_keys()[33] == "LaunchOnlyOnce"@);
    assert(known_keys()[34] == "MachServices"@);
    assert(known_keys()[35] == "BundleProgram"@);
}

/// A dictionary whose keys are all launchd keys draws no warning.
pub proof fn lemma_launchd_keys_draw_no_warning(es: Seq<EntryView>)
    requires
        forall|i: int| 0 <= i < es.len() ==> {
            let k = #[trigger] es[i].key;
            ||| k == "Label"@
            ||| k == "Program"@
            ||| k == "ProgramArguments"@
            ||| k == "WorkingDirectory"@
            ||| k == "StandardOutPath"@
            ||| k == "StandardErrorPath"@
            ||| k == "EnvironmentVariables"@
            ||| k == "RunAtLoad"@
            ||| k == "StartInterval"@
            ||| k == "StartCalendarInterval"@
            ||| k == "KeepAlive"@
            ||| k == "OnDemand"@
            ||| k == "UserName"@
            ||| k == "GroupName"@
            ||| k == "Disabled"@
            ||| k == "LimitLoadToSessionType"@
            ||| k == "AbandonProcessGroup"@
            ||| k == "WatchPaths"@
            ||| k == "QueueDirectories"@
            ||| k == "SoftResourceLimits"@
            ||| k == "HardResourceLimits"@
            ||| k == "Nice"@
            ||| k == "ProcessType"@
            ||| k == "ThrottleInterval"@
            ||| k == "ExitTimeout"@
            ||| k == "TimeOut"@
            ||| k == "inetdCompatibility"@
            ||| k == "Sockets"@
            ||| k == "SessionCreate"@
            ||| k == "Debug"@
            ||| k == "WaitForDebugger"@
            ||| k == "EnableGlobbing"@
            ||| k == "EnableTransactions"@
            ||| k == "LaunchOnlyOnce"@
            ||| k == "MachServices"@
            ||| k == "BundleProgram"@
        },
    ensures
        unknown_key_warnings(es) == Seq::<Seq<char>>::empty(),
    decreases es.len(),
{
    if es.len() > 0 {
        assert forall|i: int| 0 <= i < es.drop_last().len() implies {
            let k = #[trigger] es.drop_last()[i].key;
            ||| k == "Label"@
            ||| k == "Program"@
            ||| k == "ProgramArguments"@
            ||| k == "WorkingDirectory"@
            ||| k == "StandardOutPath"@
            ||| k == "StandardErrorPath"@
            ||| k == "EnvironmentVariables"@
            ||| k == "RunAtLoad"@
            ||| k == "StartInterval"@
            ||| k == "StartCalendarInterval"@
            ||| k == "KeepAlive"@
            ||| k == "OnDemand"@
            ||| k == "UserName"@
            ||| k == "GroupName"@
            ||| k == "Disabled"@
            ||| k == "LimitLoadToSessionType"@
            ||| k == "AbandonProcessGroup"@
            ||| k == "WatchPaths"@
            ||| k == "QueueDirectories"@
            ||| k == "SoftResourceLimits"@
            ||| k == "HardResourceLimits"@
            ||| k == "Nice"@
            ||| k == "ProcessType"@
            ||| k == "ThrottleInterval"@
            ||| k == "ExitTimeout"@
            ||| k == "TimeOut"@
            ||| k == "inetdCompatibility"@
            ||| k == "Sockets"@
            ||| k == "SessionCreate"@
            ||| k == "Debug"@
            ||| k == "WaitForDebugger"@
            ||| k == "EnableGlobbing"@
            ||| k == "EnableTransactions"@
            ||| k == "LaunchOnlyOnce"@
            ||| k == "MachServices"@
            ||| k == "BundleProgram"@
        } by {
            assert(es.drop_last()[i] == es[i]);
        }
        lemma_launchd_keys_draw_no_warning(es.drop_last());
        assert(es.last() == es[es.len() - 1]);
        lemma_launchd_keys_are_known(es.last().key);
    }
}

} // verus!
