//! The `launchctl` command lines the library runs, and what it makes of
//! their results: the exit status of a command, and the table that
//! `launchctl list` prints.
use vstd::prelude::*;
use crate::text::{
    chars_of, find_char, index_of, int_decimal, join, join_strings, lemma_index_of, lemma_views, lines,
    parse_u32, parse_u32_range, push_i32, string_of_range, strip_cr, trim, trim_bounds, trim_str,
    views,
};

verus! {

/// An entry from `launchctl list` output.
#[derive(Debug)]
pub struct LaunchctlEntry {
    /// The job's label.
    pub label: String,
    /// Whether the job has a process: exactly when `pid` is present.
    pub running: bool,
    /// The process id, when the PID column holds a number.
    pub pid: Option<u32>,
}

/// An entry as the parser yields it: label and process id.
pub type EntryView = (Seq<char>, Option<u32>);

/// The view of a [`LaunchctlEntry`].
pub open spec fn entry_view(e: LaunchctlEntry) -> EntryView {
    (e.label@, e.pid)
}

/// The entry of one line of `launchctl list` output, whose columns
/// (`PID`, `Status`, `Label`) are separated by tabs: a line with fewer than
/// two tabs has none; otherwise the label is the trimmed text after the
/// second tab, and the process id is the trimmed first column read as a
/// `u32`, when it is one.
pub open spec fn parse_line(line: Seq<char>) -> Option<EntryView> {
    let t1 = index_of(line, '\t');
    if t1 >= line.len() {
        None
    } else {
        let rest = line.skip(t1 + 1 as int);
        let t2 = index_of(rest, '\t');
        if t2 >= rest.len() {
            None
        } else {
            Some((trim(rest.skip(t2 + 1 as int)), parse_u32(trim(line.take(t1 as int)))))
        }
    }
}

/// The entries of a run of lines, in order, each line that has one.
pub open spec fn entries_from(ls: Seq<Seq<char>>) -> Seq<EntryView>
    decreases ls.len(),
{
    if ls.len() == 0 {
        seq![]
    } else {
        let rest = entries_from(ls.drop_first());
        match parse_line(ls[0]) {
            Some(e) => seq![e] + rest,
            None => rest,
        }
    }
}

/// The entries of `launchctl list` output: those of its lines after the
/// first, which is the column header.
pub open spec fn list_entries(stdout: Seq<char>) -> Seq<EntryView> {
    let ls = lines(stdout);
    if ls.len() == 0 {
        seq![]
    } else {
        entries_from(ls.drop_first())
    }
}

/// Reads the entry of the line `cs[from..to]`.
fn parse_line_range(cs: &Vec<char>, from: usize, to: usize) -> (res: Option<LaunchctlEntry>)
    requires
        from <= to <= cs@.len(),
    ensures
        match res {
            Some(e) => parse_line(cs@.subrange(from as int, to as int)) == Some(entry_view(e))
                && e.running == (e.pid is Some),
            None => parse_line(cs@.subrange(from as int, to as int)) is None,
        },
{
    let ghost line = cs@.subrange(from as int, to as int);
    let t1 = find_char(cs, from, to, '\t');
    if t1 == to {
        return None;
    }
    let t2 = find_char(cs, t1 + 1, to, '\t');
    let ghost rest = line.skip(t1 - from + 1);
    assert(rest =~= cs@.subrange(t1 + 1, to as int));
    if t2 == to {
        return None;
    }
    assert(rest.skip(t2 - t1) =~= cs@.subrange(t2 + 1, to as int));
    assert(line.take(t1 - from) =~= cs@.subrange(from as int, t1 as int));
    let (plo, phi) = trim_bounds(cs, from, t1);
    let pid = parse_u32_range(cs, plo, phi);
    let (llo, lhi) = trim_bounds(cs, t2 + 1, to);
    let label = string_of_range(cs, llo, lhi);
    Some(LaunchctlEntry { label, running: pid.is_some(), pid })
}

/// How `lines` unfolds at `pos`: the line that starts there, ended by the
/// first `'\n'` at or after `pos` (at `k`), then the lines after it.
proof fn lemma_lines_step(s: Seq<char>, pos: int, k: int)
    requires
        0 <= pos <= k <= s.len(),
        pos < s.len(),
        k - pos == index_of(s.subrange(pos, s.len() as int), '\n'),
    ensures
        k < s.len() ==> lines(s.skip(pos)) == seq![strip_cr(s.subrange(pos, k))] + lines(
            s.skip(k + 1),
        ),
        k == s.len() ==> lines(s.skip(pos)) == seq![s.skip(pos)],
{
    let t = s.skip(pos);
    assert(t =~= s.subrange(pos, s.len() as int));
    lemma_index_of(t, '\n');
    if k < s.len() {
        assert(t.take(k - pos) =~= s.subrange(pos, k));
        assert(t.skip(k - pos + 1) =~= s.skip(k + 1));
    }
}

/// Reads the entries of `launchctl list` output, as [`list_entries`] says.
pub fn parse_list(stdout: &str) -> (res: Vec<LaunchctlEntry>)
    ensures
        res@.map_values(|e: LaunchctlEntry| entry_view(e)) == list_entries(stdout@),
        forall|i: int| 0 <= i < res@.len() ==> (#[trigger] res@[i]).running == (res@[i].pid is Some),
{
    let cs = chars_of(stdout);
    let n = cs.len();
    let mut res: Vec<LaunchctlEntry> = Vec::new();
    if n == 0 {
        assert(lines(stdout@) =~= Seq::<Seq<char>>::empty());
        return res;
    }
    assert(cs@.skip(0) =~= cs@);
    assert(cs@.subrange(0, n as int) =~= cs@);
    let k0 = find_char(&cs, 0, n, '\n');
    proof {
        lemma_lines_step(cs@, 0, k0 as int);
    }
    let mut pos = if k0 < n {
        k0 + 1
    } else {
        n
    };
    assert(lines(cs@).drop_first() =~= lines(cs@.skip(pos as int))) by {
        if k0 == n {
            assert(cs@.skip(n as int) =~= Seq::<char>::empty());
        }
    }
    while pos < n
        invariant
            pos <= n == cs@.len(),
            cs@ == stdout@,
            lines(cs@).len() > 0,
            list_entries(stdout@) == res@.map_values(|e: LaunchctlEntry| entry_view(e))
                + entries_from(lines(cs@.skip(pos as int))),
            forall|i: int|
                0 <= i < res@.len() ==> (#[trigger] res@[i]).running == (res@[i].pid is Some),
        decreases n - pos,
    {
        let k = find_char(&cs, pos, n, '\n');
        proof {
            lemma_lines_step(cs@, pos as int, k as int);
        }
        let end = if k < n && k > pos && cs[k - 1] == '\r' {
            k - 1
        } else {
            k
        };
        let ghost line = lines(cs@.skip(pos as int))[0];
        assert(line =~= cs@.subrange(pos as int, end as int));
        let ghost rest_lines = lines(cs@.skip(pos as int)).drop_first();
        let ghost before = res@;
        match parse_line_range(&cs, pos, end) {
            Some(e) => {
                res.push(e);
                assert(res@.map_values(|e: LaunchctlEntry| entry_view(e)) =~= before.map_values(
                    |e: LaunchctlEntry| entry_view(e),
                ) + seq![entry_view(e)]);
            },
            None => {},
        }
        pos = if k < n {
            k + 1
        } else {
            n
        };
        assert(rest_lines =~= lines(cs@.skip(pos as int))) by {
            if k == n {
                assert(cs@.skip(n as int) =~= Seq::<char>::empty());
            }
        }
    }
    assert(cs@.skip(n as int) =~= Seq::<char>::empty());
    res
}

/// The jobs that `launchctl list` reported: none when the command failed,
/// otherwise the entries of its output.
pub fn list_loaded(success: bool, stdout: &str) -> (res: Vec<LaunchctlEntry>)
    ensures
        res@.map_values(|e: LaunchctlEntry| entry_view(e)) == (if success {
            list_entries(stdout@)
        } else {
            Seq::<EntryView>::empty()
        }),
        forall|i: int| 0 <= i < res@.len() ==> (#[trigger] res@[i]).running == (res@[i].pid is Some),
{
    if success {
        parse_list(stdout)
    } else {
        let res = Vec::new();
        assert(res@.map_values(|e: LaunchctlEntry| entry_view(e)) =~= Seq::<EntryView>::empty());
        res
    }
}


/// The arguments `[a, b]`.
fn two(a: &str, b: &str) -> (res: Vec<String>)
    ensures
        views(res@) == seq![a@, b@],
{
    let mut res = Vec::new();
    res.push(String::from_str(a));
    res.push(String::from_str(b));
    proof {
        lemma_views(res@);
    }
    assert(views(res@) =~= seq![a@, b@]);
    res
}

/// The arguments `[a, b, c]`.
fn three(a: &str, b: &str, c: &str) -> (res: Vec<String>)
    ensures
        views(res@) == seq![a@, b@, c@],
{
    let mut res = two(a, b);
    let ghost before = res@;
    res.push(String::from_str(c));
    assert(views(res@) =~= seq![a@, b@, c@]) by {
        lemma_views(before);
        lemma_views(res@);
        assert(res@[0] == before[0]);
        assert(res@[1] == before[1]);
    }
    res
}

/// The `launchctl` arguments that load an agent permanently (it will start
/// at login): `load -w <path>`.
pub fn load(path: &str) -> (res: Vec<String>)
    ensures
        views(res@) == seq!["load"@, "-w"@, path@],
{
    three("load", "-w", path)
}

/// The `launchctl` arguments that unload an agent permanently (it will not
/// start at login): `unload -w <path>`.
pub fn unload(path: &str) -> (res: Vec<String>)
    ensures
        views(res@) == seq!["unload"@, "-w"@, path@],
{
    three("unload", "-w", path)
}

/// The `launchctl` arguments that load an agent without changing whether it
/// is enabled: `load <path>`.
pub fn load_quiet(path: &str) -> (res: Vec<String>)
    ensures
        views(res@) == seq!["load"@, path@],
{
    two("load", path)
}

/// The `launchctl` arguments that unload an agent without changing whether
/// it is enabled: `unload <path>`.
pub fn unload_quiet(path: &str) -> (res: Vec<String>)
    ensures
        views(res@) == seq!["unload"@, path@],
{
    two("unload", path)
}

/// The `launchctl` arguments that start an agent by label: `start <label>`.
pub fn start(label: &str) -> (res: Vec<String>)
    ensures
        views(res@) == seq!["start"@, label@],
{
    two("start", label)
}

/// The `launchctl` arguments that stop an agent by label: `stop <label>`.
pub fn stop(label: &str) -> (res: Vec<String>)
    ensures
        views(res@) == seq!["stop"@, label@],
{
    two("stop", label)
}

/// A `launchctl` run that failed.
#[derive(Debug)]
pub struct LaunchctlError {
    /// The arguments, joined by spaces.
    pub command: String,
    /// The exit code; `-1` when the process was ended by a signal.
    pub code: i32,
    /// What the process wrote to standard error, trimmed.
    pub stderr: String,
}

impl LaunchctlError {
    /// The text of the error: `launchctl <args> failed (exit <code>): <stderr>`.
    pub fn message(&self) -> (res: String)
        ensures
            res@ == "launchctl "@ + self.command@ + " failed (exit "@ + int_decimal(
                self.code as int,
            ) + "): "@ + self.stderr@,
    {
        let mut res = String::from_str("launchctl ");
        res.append(self.command.as_str());
        res.append(" failed (exit ");
        push_i32(&mut res, self.code);
        res.append("): ");
        res.append(self.stderr.as_str());
        res
    }
}

/// The outcome of running `launchctl` with `args`, given how the process
/// ended: success, or an error that names the arguments, the exit code
/// (`-1` without one) and the trimmed standard error.
pub fn run_result(args: &Vec<String>, success: bool, code: Option<i32>, stderr: &str) -> (res:
    Result<(), LaunchctlError>)
    ensures
        success ==> res is Ok,
        !success ==> (res matches Err(e) && e.command@ == join(views(args@), " "@) && e.code as int == (
        match code {
            Some(c) => c as int,
            None => -1int,
        }) && e.stderr@ == trim(stderr@)),
{
    if success {
        Ok(())
    } else {
        let command = join_strings(args, " ");
        let code = match code {
            Some(c) => c,
            None => -1,
        };
        Err(LaunchctlError { command, code, stderr: trim_str(stderr) })
    }
}

/// The context given when `launchctl` cannot be started at all:
/// `failed to run launchctl <args>`.
pub fn run_context(args: &Vec<String>) -> (res: String)
    ensures
        res@ == "failed to run launchctl "@ + join(views(args@), " "@),
{
    let mut res = String::from_str("failed to run launchctl ");
    let joined = join_strings(args, " ");
    res.append(joined.as_str());
    res
}

/// The command line that lists the loaded jobs, with the context given when
/// it cannot be started.
pub struct ListCommand {
    /// The program and its arguments.
    pub argv: Vec<String>,
    /// What to say when the program cannot be started.
    pub context: String,
}

/// How the loaded jobs are listed: `launchctl list`, except in system scope
/// under `sudo`, where the invoking user's session is asked
/// (`sudo -u <user> launchctl list`). An empty `SUDO_USER` counts as none.
pub fn list_command(user_scope: bool, sudo_user: Option<String>) -> (res: ListCommand)
    ensures
        match sudo_user {
            Some(u) if !user_scope && u@.len() > 0 => views(res.argv@) == seq![
                "sudo"@,
                "-u"@,
                u@,
                "launchctl"@,
                "list"@,
            ] && res.context@ == "failed to run launchctl list as SUDO_USER"@,
            _ => views(res.argv@) == seq!["launchctl"@, "list"@] && res.context@
                == "failed to run launchctl list"@,
        },
{
    match sudo_user {
        Some(u) => {
            if !user_scope && u.as_str().unicode_len() > 0 {
                let mut argv = three("sudo", "-u", u.as_str());
                let ghost before = argv@;
                argv.push(String::from_str("launchctl"));
                let ghost mid = argv@;
                argv.push(String::from_str("list"));
                assert(views(argv@) =~= seq!["sudo"@, "-u"@, u@, "launchctl"@, "list"@]) by {
                    lemma_views(before);
                    lemma_views(mid);
                    lemma_views(argv@);
                    assert(argv@[0] == before[0]);
                    assert(argv@[1] == before[1]);
                    assert(argv@[2] == before[2]);
                }
                return ListCommand {
                    argv,
                    context: String::from_str("failed to run launchctl list as SUDO_USER"),
                };
            }
        },
        None => {},
    }
    ListCommand {
        argv: two("launchctl", "list"),
        context: String::from_str("failed to run launchctl list"),
    }
}

} // verus!
