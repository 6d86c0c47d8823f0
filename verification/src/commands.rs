//! What each command decides: which rows `list` shows, what `status`
//! reports, and which steps `enable`, `disable`, `start`, `stop`, `restart`
//! and `reload` take, in order. Running the steps is left to the caller.
use vstd::prelude::*;
use crate::agent::{
    Agent, FileView, LabeledFile, ListedFile, is_plist_file_name, is_plist_name, label_files,
    labeled_view, listed_view,
};
use crate::launchctl::LaunchctlEntry;
use crate::plist_doc::opt_view;
use crate::state::{lemma_written_hash_reads_back, sha256_digest};
use crate::text::{hex_lower, trim, file_stem, lemma_lex_le_total, lemma_lex_le_transitive, lex_le, split_file_name, str_le};
use crate::validate::ValidationResult;

verus! {

/// The last entry for `label` in `launchctl list` output, which is the one
/// that counts when a label is listed more than once.
pub open spec fn last_with_label(es: Seq<LaunchctlEntry>, label: Seq<char>) -> Option<LaunchctlEntry>
    decreases es.len(),
{
    if es.len() == 0 {
        None
    } else if es.last().label@ == label {
        Some(es.last())
    } else {
        last_with_label(es.drop_last(), label)
    }
}

/// Finds [`last_with_label`].
fn find_last_with_label(es: &Vec<LaunchctlEntry>, label: &String) -> (res: Option<usize>)
    ensures
        match res {
            Some(i) => i < es@.len() && last_with_label(es@, label@) == Some(es@[i as int]),
            None => last_with_label(es@, label@) is None,
        },
{
    let mut i = es.len();
    assert(es@.take(i as int) =~= es@);
    while i > 0
        invariant
            i <= es@.len(),
            last_with_label(es@, label@) == last_with_label(es@.take(i as int), label@),
        decreases i,
    {
        assert(es@.take(i as int).last() == es@[i - 1]);
        if es[i - 1].label == *label {
            return Some(i - 1);
        }
        assert(es@.take(i as int).drop_last() =~= es@.take(i - 1));
        i -= 1;
    }
    None
}

/// `launchctl list` output speaks of an agent only through the entries that
/// bear exactly its label: the agent is loaded exactly when some entry has
/// its label, and then its running flag and process id are those of the last
/// such entry; otherwise it is neither running nor has a process id.
pub proof fn lemma_status_is_exact(es: Seq<LaunchctlEntry>, l: Seq<char>)
    ensures
        status_of(es, l).0 <==> exists|k: int| 0 <= k < es.len() && (#[trigger] es[k]).label@ == l,
        status_of(es, l).0 ==> exists|k: int|
            0 <= k < es.len() && (#[trigger] es[k]).label@ == l && es[k].running == status_of(
                es,
                l,
            ).1 && es[k].pid == status_of(es, l).2 && forall|j: int|
                k < j < es.len() ==> (#[trigger] es[j]).label@ != l,
        !status_of(es, l).0 ==> !status_of(es, l).1 && status_of(es, l).2 is None,
    decreases es.len(),
{
    if es.len() > 0 {
        let n = es.len() - 1;
        assert(es[n] == es.last());
        if es.last().label@ != l {
            let p = es.drop_last();
            lemma_status_is_exact(p, l);
            assert forall|k: int| 0 <= k < p.len() implies (#[trigger] p[k]) == es[k] by {}
            if exists|k: int| 0 <= k < es.len() && (#[trigger] es[k]).label@ == l {
                let k = choose|k: int| 0 <= k < es.len() && (#[trigger] es[k]).label@ == l;
                assert(p[k] == es[k]);
            }
            if status_of(es, l).0 {
                let k = choose|k: int|
                    0 <= k < p.len() && (#[trigger] p[k]).label@ == l && p[k].running == status_of(
                        p,
                        l,
                    ).1 && p[k].pid == status_of(p, l).2 && forall|j: int|
                        k < j < p.len() ==> (#[trigger] p[j]).label@ != l;
                assert(es[k] == p[k]);
                assert forall|j: int| k < j < es.len() implies (#[trigger] es[j]).label@ != l by {
                    if j < n {
                        assert(es[j] == p[j]);
                    }
                }
            }
        }
    }
}

/// How `launchctl` sees an agent.
#[derive(Debug)]
pub struct AgentStatus {
    /// Whether `launchctl list` shows the label.
    pub loaded: bool,
    /// Whether its entry says it is running.
    pub running: bool,
    /// The process id its entry gives.
    pub pid: Option<u32>,
}

/// The status of the agent `label` given `launchctl list` output: loaded
/// when listed, with the running flag and process id of its last entry;
/// otherwise not loaded, not running, no process id.
pub open spec fn status_of(es: Seq<LaunchctlEntry>, label: Seq<char>) -> (bool, bool, Option<u32>) {
    match last_with_label(es, label) {
        Some(e) => (true, e.running, e.pid),
        None => (false, false, None),
    }
}

/// What `status` reports of the agent `label`. The caller prints it, and
/// exits with status 1 when the agent is not loaded.
pub fn status(loaded: &Vec<LaunchctlEntry>, label: &String) -> (res: AgentStatus)
    ensures
        (res.loaded, res.running, res.pid) == status_of(loaded@, label@),
        res.loaded <==> exists|k: int|
            0 <= k < loaded@.len() && (#[trigger] loaded@[k]).label@ == label@,
        res.loaded ==> exists|k: int|
            0 <= k < loaded@.len() && (#[trigger] loaded@[k]).label@ == label@ && loaded@[k].running
                == res.running && loaded@[k].pid == res.pid && forall|j: int|
                k < j < loaded@.len() ==> (#[trigger] loaded@[j]).label@ != label@,
        !res.loaded ==> !res.running && res.pid is None,
{
    proof {
        lemma_status_is_exact(loaded@, label@);
    }
    match find_last_with_label(loaded, label) {
        Some(i) => AgentStatus { loaded: true, running: loaded[i].running, pid: loaded[i].pid },
        None => AgentStatus { loaded: false, running: false, pid: None },
    }
}

/// One step of a command, run by the caller in order; the first that fails
/// ends the command.
#[derive(Debug)]
pub enum Step {
    /// `launchctl load -w <path>`.
    Load(String),
    /// `launchctl unload -w <path>`.
    Unload(String),
    /// `launchctl load <path>`.
    LoadQuiet(String),
    /// `launchctl unload <path>`.
    UnloadQuiet(String),
    /// `launchctl start <label>`.
    Start(String),
    /// `launchctl stop <label>`.
    Stop(String),
    /// Store the hash of the plist at `path` for the agent `label`.
    WriteHash { label: String, path: String },
    /// Remove the stored hash of the agent `label`, if there is one.
    DeleteHash(String),
}

/// What a [`Step`] holds.
pub enum StepView {
    Load(Seq<char>),
    Unload(Seq<char>),
    LoadQuiet(Seq<char>),
    UnloadQuiet(Seq<char>),
    Start(Seq<char>),
    Stop(Seq<char>),
    WriteHash(Seq<char>, Seq<char>),
    DeleteHash(Seq<char>),
}

impl View for Step {
    type V = StepView;

    open spec fn view(&self) -> StepView {
        match self {
            Step::Load(p) => StepView::Load(p@),
            Step::Unload(p) => StepView::Unload(p@),
            Step::LoadQuiet(p) => StepView::LoadQuiet(p@),
            Step::UnloadQuiet(p) => StepView::UnloadQuiet(p@),
            Step::Start(l) => StepView::Start(l@),
            Step::Stop(l) => StepView::Stop(l@),
            Step::WriteHash { label, path } => StepView::WriteHash(label@, path@),
            Step::DeleteHash(l) => StepView::DeleteHash(l@),
        }
    }
}

/// The views of a run of steps.
pub open spec fn step_views(steps: Seq<Step>) -> Seq<StepView> {
    steps.map_values(|s: Step| s@)
}

/// Pushes a step, with what that does to the views.
fn push_step(steps: &mut Vec<Step>, s: Step)
    ensures
        step_views(final(steps)@) == step_views(old(steps)@).push(s@),
{
    let ghost before = steps@;
    steps.push(s);
    assert(step_views(steps@) =~= step_views(before).push(s@)) by {
        assert forall|k: int| 0 <= k < before.len() implies steps@[k] == before[k] by {}
    }
}

/// `enable`: load the agent permanently, then store its plist's hash.
pub fn enable(agent: &Agent) -> (res: Vec<Step>)
    ensures
        step_views(res@) == seq![
            StepView::Load(agent.path@),
            StepView::WriteHash(agent.label@, agent.path@),
        ],
{
    let mut res = Vec::new();
    push_step(&mut res, Step::Load(agent.path.clone()));
    push_step(&mut res, Step::WriteHash { label: agent.label.clone(), path: agent.path.clone() });
    assert(step_views(res@) =~= seq![
        StepView::Load(agent.path@),
        StepView::WriteHash(agent.label@, agent.path@),
    ]);
    res
}

/// `disable`: unload the agent permanently, then remove its stored hash.
pub fn disable(agent: &Agent) -> (res: Vec<Step>)
    ensures
        step_views(res@) == seq![
            StepView::Unload(agent.path@),
            StepView::DeleteHash(agent.label@),
        ],
{
    let mut res = Vec::new();
    push_step(&mut res, Step::Unload(agent.path.clone()));
    push_step(&mut res, Step::DeleteHash(agent.label.clone()));
    assert(step_views(res@) =~= seq![
        StepView::Unload(agent.path@),
        StepView::DeleteHash(agent.label@),
    ]);
    res
}

/// `start`: start the agent by label.
pub fn start(agent: &Agent) -> (res: Vec<Step>)
    ensures
        step_views(res@) == seq![StepView::Start(agent.label@)],
{
    let mut res = Vec::new();
    push_step(&mut res, Step::Start(agent.label.clone()));
    assert(step_views(res@) =~= seq![StepView::Start(agent.label@)]);
    res
}

/// `stop`: stop the agent by label.
pub fn stop(agent: &Agent) -> (res: Vec<Step>)
    ensures
        step_views(res@) == seq![StepView::Stop(agent.label@)],
{
    let mut res = Vec::new();
    push_step(&mut res, Step::Stop(agent.label.clone()));
    assert(step_views(res@) =~= seq![StepView::Stop(agent.label@)]);
    res
}

/// `restart`: stop the agent, then start it; the plist is not reloaded.
pub fn restart(agent: &Agent) -> (res: Vec<Step>)
    ensures
        step_views(res@) == seq![StepView::Stop(agent.label@), StepView::Start(agent.label@)],
{
    let mut res = Vec::new();
    push_step(&mut res, Step::Stop(agent.label.clone()));
    push_step(&mut res, Step::Start(agent.label.clone()));
    assert(step_views(res@) =~= seq![StepView::Stop(agent.label@), StepView::Start(agent.label@)]);
    res
}

/// Whether `reload` has work to do: the plist's current hash differs from
/// the stored one, or none is stored.
pub open spec fn needs_reload(current: Seq<char>, stored: Option<Seq<char>>) -> bool {
    stored != Some(current)
}

/// A reload is needed exactly when no hash is stored, or when the stored
/// hash differs, as text, from the current one.
pub proof fn lemma_reload_needed_iff_changed(current: Seq<char>, stored: Option<Seq<char>>)
    ensures
        needs_reload(current, None),
        stored matches Some(s) ==> (needs_reload(current, stored) <==> s != current),
{
}

/// Decides [`needs_reload`].
pub fn reload_needed(current: &String, stored: &Option<String>) -> (res: bool)
    ensures
        res == needs_reload(current@, opt_view(*stored)),
        stored is None ==> res,
        stored matches Some(s) ==> (res <==> s@ != current@),
{
    proof {
        lemma_reload_needed_iff_changed(current@, opt_view(*stored));
    }
    match stored {
        Some(s) => !(*s == *current),
        None => true,
    }
}

/// `reload`, once [`reload_needed`] said so: unload and load the agent
/// without changing whether it is enabled, start it again if it was
/// running, then store its plist's hash.
pub fn reload(agent: &Agent, was_running: bool) -> (res: Vec<Step>)
    ensures
        step_views(res@) == seq![
            StepView::UnloadQuiet(agent.path@),
            StepView::LoadQuiet(agent.path@),
        ] + (if was_running {
            seq![StepView::Start(agent.label@)]
        } else {
            Seq::<StepView>::empty()
        }) + seq![StepView::WriteHash(agent.label@, agent.path@)],
{
    let mut res = Vec::new();
    push_step(&mut res, Step::UnloadQuiet(agent.path.clone()));
    push_step(&mut res, Step::LoadQuiet(agent.path.clone()));
    if was_running {
        push_step(&mut res, Step::Start(agent.label.clone()));
    }
    push_step(&mut res, Step::WriteHash { label: agent.label.clone(), path: agent.path.clone() });
    assert(step_views(res@) =~= seq![
        StepView::UnloadQuiet(agent.path@),
        StepView::LoadQuiet(agent.path@),
    ] + (if was_running {
        seq![StepView::Start(agent.label@)]
    } else {
        Seq::<StepView>::empty()
    }) + seq![StepView::WriteHash(agent.label@, agent.path@)]);
    res
}

/// Whether `validate` reports the plist as valid: exactly when no error was
/// found. The caller prints the warnings, then the errors or a confirmation,
/// and exits with status 1 when it is not valid.
pub fn validate(result: &ValidationResult) -> (res: bool)
    ensures
        res == (result.errors@.len() == 0),
{
    result.errors.len() == 0
}


/// One row of `list`.
#[derive(Debug)]
pub struct ListRow {
    /// The plist's `Label`, or the file's stem when it has none.
    pub label: String,
    /// Whether `launchctl list` shows the label.
    pub loaded: bool,
    /// Whether its entry says it is running.
    pub running: bool,
    /// The process id its entry gives.
    pub pid: Option<u32>,
}

/// A row as `list` computes it: label, loaded, running, process id.
pub type RowView = (Seq<char>, bool, bool, Option<u32>);

/// The view of a [`ListRow`].
pub open spec fn row_view(r: ListRow) -> RowView {
    (r.label@, r.loaded, r.running, r.pid)
}

/// The views of a run of rows.
pub open spec fn row_views(rows: Seq<ListRow>) -> Seq<RowView> {
    rows.map_values(|r: ListRow| row_view(r))
}

/// The row a directory entry gives: none unless it is a plist file; its
/// label is the plist's `Label`, or the file's stem when that cannot be read.
pub open spec fn row_of(f: FileView, es: Seq<LaunchctlEntry>) -> Option<RowView> {
    if !is_plist_name(f.1) {
        None
    } else {
        let label = match f.2 {
            Some(l) => l,
            None => file_stem(f.1),
        };
        let st = status_of(es, label);
        Some((label, st.0, st.1, st.2))
    }
}

/// The rows of the directory entries, in directory order.
pub open spec fn rows_of(fs: Seq<FileView>, es: Seq<LaunchctlEntry>) -> Seq<RowView>
    decreases fs.len(),
{
    if fs.len() == 0 {
        seq![]
    } else {
        let rest = rows_of(fs.drop_last(), es);
        match row_of(fs.last(), es) {
            Some(r) => rest.push(r),
            None => rest,
        }
    }
}

/// Whether rows are in label order.
pub open spec fn sorted_by_label(rows: Seq<RowView>) -> bool {
    forall|i: int, j: int| 0 <= i < j < rows.len() ==> lex_le(rows[i].0, rows[j].0)
}

/// The rows with label `l`, in order.
pub open spec fn with_label(rows: Seq<RowView>, l: Seq<char>) -> Seq<RowView> {
    rows.filter(label_is(l))
}

/// Whether a row has label `l`.
pub open spec fn label_is(l: Seq<char>) -> spec_fn(RowView) -> bool {
    |r: RowView| r.0 == l
}

/// `rows` sorted by label the way a stable sort does it: in label order, and
/// the rows of each label in the order they had.
pub open spec fn stably_sorted(sorted: Seq<RowView>, rows: Seq<RowView>) -> bool {
    &&& sorted.len() == rows.len()
    &&& sorted_by_label(sorted)
    &&& forall|l: Seq<char>| #[trigger] with_label(sorted, l) == with_label(rows, l)
}

/// A run with no row of label `l` has none with it once filtered.
proof fn lemma_with_label_none(rows: Seq<RowView>, l: Seq<char>)
    requires
        forall|i: int| 0 <= i < rows.len() ==> rows[i].0 != l,
    ensures
        with_label(rows, l) == Seq::<RowView>::empty(),
{
    let f = with_label(rows, l);
    if f.len() > 0 {
        rows.lemma_filter_pred(label_is(l), 0);
        rows.lemma_filter_contains_rev(label_is(l), f[0]);
    }
    assert(f =~= Seq::<RowView>::empty());
}

/// Filtering a single row.
proof fn lemma_with_label_single(x: RowView, l: Seq<char>)
    ensures
        with_label(seq![x], l) == (if x.0 == l {
            seq![x]
        } else {
            Seq::<RowView>::empty()
        }),
{
    assert(seq![x].drop_last() =~= Seq::<RowView>::empty());
    reveal_with_fuel(Seq::filter, 2);
}

/// Inserts `x` into label-ordered rows after every row whose label comes no
/// later than its own.
fn insert_sorted(rows: &mut Vec<ListRow>, x: ListRow)
    requires
        sorted_by_label(row_views(old(rows)@)),
    ensures
        row_views(final(rows)@).len() == row_views(old(rows)@).len() + 1,
        sorted_by_label(row_views(final(rows)@)),
        forall|l: Seq<char>| #[trigger] with_label(row_views(final(rows)@), l) == with_label(
            row_views(old(rows)@),
            l,
        ) + with_label(seq![row_view(x)], l),
{
    let ghost s = row_views(rows@);
    let ghost xv = row_view(x);
    let mut p: usize = 0;
    while p < rows.len() && str_le(rows[p].label.as_str(), x.label.as_str())
        invariant
            p <= rows@.len(),
            s == row_views(rows@),
            xv == row_view(x),
            forall|k: int| 0 <= k < p ==> lex_le(#[trigger] s[k].0, xv.0),
        decreases rows@.len() - p,
    {
        p += 1;
    }
    proof {
        assert forall|k: int| p <= k < s.len() implies !lex_le(#[trigger] s[k].0, xv.0) by {
            if lex_le(s[k].0, xv.0) {
                lemma_lex_le_transitive(s[p as int].0, s[k].0, xv.0);
            }
        }
    }
    let ghost before = rows@;
    rows.insert(p, x);
    proof {
        let t = row_views(rows@);
        assert(rows@ == before.insert(p as int, x));
        assert(t =~= s.take(p as int) + seq![xv] + s.skip(p as int));
        assert forall|i: int, j: int| 0 <= i < j < t.len() implies lex_le(t[i].0, t[j].0) by {
            if i < p && j == p {
            } else if i == p {
                lemma_lex_le_total(xv.0, t[j].0);
            } else {
                if i > p {
                    assert(t[i] == s[i - 1]);
                } else {
                    assert(t[i] == s[i]);
                }
                if j > p {
                    assert(t[j] == s[j - 1]);
                } else {
                    assert(t[j] == s[j]);
                }
            }
        }
        assert forall|l: Seq<char>| #[trigger] with_label(t, l) == with_label(s, l) + with_label(
            seq![xv],
            l,
        ) by {
            let pred = label_is(l);
            Seq::filter_distributes_over_add(s.take(p as int) + seq![xv], s.skip(p as int), pred);
            Seq::filter_distributes_over_add(s.take(p as int), seq![xv], pred);
            Seq::filter_distributes_over_add(s.take(p as int), s.skip(p as int), pred);
            assert(s =~= s.take(p as int) + s.skip(p as int));
            lemma_with_label_single(xv, l);
            if xv.0 == l {
                lemma_lex_le_total(xv.0, xv.0);
                assert forall|i: int| 0 <= i < s.skip(p as int).len() implies s.skip(p as int)[i].0
                    != l by {
                    assert(s.skip(p as int)[i] == s[p + i]);
                }
                lemma_with_label_none(s.skip(p as int), l);
                assert(with_label(t, l) =~= with_label(s, l) + with_label(seq![xv], l));
            } else {
                assert(with_label(t, l) =~= with_label(s, l) + with_label(seq![xv], l));
            }
        }
    }
}

/// The rows of `list` for directory entries whose labels have been read,
/// sorted by label, with what `launchctl list` says of each.
pub fn list_labeled(files: &Vec<LabeledFile>, loaded: &Vec<LaunchctlEntry>) -> (res: Vec<ListRow>)
    ensures
        stably_sorted(
            row_views(res@),
            rows_of(files@.map_values(|f: LabeledFile| labeled_view(f)), loaded@),
        ),
{
    let ghost fs = files@.map_values(|f: LabeledFile| labeled_view(f));
    let mut rows: Vec<ListRow> = Vec::new();
    let mut i: usize = 0;
    assert(fs.take(0) =~= Seq::<FileView>::empty());
    assert(row_views(rows@) =~= Seq::<RowView>::empty());
    while i < files.len()
        invariant
            i <= files@.len(),
            fs == files@.map_values(|f: LabeledFile| labeled_view(f)),
            stably_sorted(row_views(rows@), rows_of(fs.take(i as int), loaded@)),
        decreases files@.len() - i,
    {
        let f = &files[i];
        assert(fs.take(i + 1).drop_last() =~= fs.take(i as int));
        assert(fs.take(i + 1).last() == labeled_view(*f));
        if is_plist_file_name(f.file_name.as_str()) {
            let label = match &f.label {
                Some(l) => l.clone(),
                None => {
                    let (stem, _) = split_file_name(f.file_name.as_str());
                    stem
                },
            };
            let st = status(loaded, &label);
            let row = ListRow { label, loaded: st.loaded, running: st.running, pid: st.pid };
            let ghost prev = row_views(rows@);
            let ghost unsorted = rows_of(fs.take(i as int), loaded@);
            insert_sorted(&mut rows, row);
            proof {
                let u2 = rows_of(fs.take(i + 1), loaded@);
                assert(u2 == unsorted.push(row_view(row)));
                assert forall|l: Seq<char>| #[trigger] with_label(row_views(rows@), l)
                    == with_label(u2, l) by {
                    Seq::filter_distributes_over_add(unsorted, seq![row_view(row)], label_is(l));
                    lemma_with_label_single(row_view(row), l);
                    assert(unsorted.push(row_view(row)) =~= unsorted + seq![row_view(row)]);
                }
            }
        }
        i += 1;
    }
    assert(fs.take(i as int) =~= fs);
    rows
}

/// `list`: one row per plist file in the directory, labelled by the
/// plist's `Label` (or the file's stem), with what `launchctl list` says of
/// it, sorted by label. The caller prints them.
pub fn list(files: &Vec<ListedFile>, loaded: &Vec<LaunchctlEntry>) -> (res: Vec<ListRow>)
    ensures
        stably_sorted(
            row_views(res@),
            rows_of(files@.map_values(|f: ListedFile| listed_view(f)), loaded@),
        ),
{
    let labeled = label_files(files);
    list_labeled(&labeled, loaded)
}


/// Once `enable` or `reload` has stored the hash of a plist, `reload` of the
/// same, unchanged plist has nothing to do: the hash read back from the hash
/// file equals the one computed again from the plist's bytes.
pub proof fn lemma_reload_after_store_is_skipped(contents: Seq<u8>)
    ensures
        !needs_reload(
            hex_lower(sha256_digest(contents)),
            Some(trim(hex_lower(sha256_digest(contents)))),
        ),
{
    lemma_written_hash_reads_back(contents);
}

/// Every row of a stable sort is one of the rows sorted.
proof fn lemma_stably_sorted_member(sorted: Seq<RowView>, rows: Seq<RowView>, i: int)
    requires
        stably_sorted(sorted, rows),
        0 <= i < sorted.len(),
    ensures
        rows.contains(sorted[i]),
{
    let l = sorted[i].0;
    sorted.lemma_filter_contains(label_is(l), i);
    assert(with_label(sorted, l) == with_label(rows, l));
    rows.lemma_filter_contains_rev(label_is(l), sorted[i]);
}

/// The rows of directory entries, when each entry of `launchctl list` is
/// running exactly when it has a process id: a row is running exactly when
/// it has a process id, and a row that is not loaded is not running.
proof fn lemma_rows_of_consistent(fs: Seq<FileView>, es: Seq<LaunchctlEntry>, r: RowView)
    requires
        forall|k: int| 0 <= k < es.len() ==> (#[trigger] es[k]).running == (es[k].pid is Some),
        rows_of(fs, es).contains(r),
    ensures
        r.2 == (r.3 is Some),
        !r.1 ==> !r.2,
    decreases fs.len(),
{
    if fs.len() > 0 {
        let rest = rows_of(fs.drop_last(), es);
        if rest.contains(r) {
            lemma_rows_of_consistent(fs.drop_last(), es, r);
        } else {
            let label = r.0;
            lemma_last_with_label_member(es, label);
        }
    }
}

/// [`last_with_label`] finds an entry of the run.
proof fn lemma_last_with_label_member(es: Seq<LaunchctlEntry>, label: Seq<char>)
    ensures
        last_with_label(es, label) matches Some(e) ==> es.contains(e),
    decreases es.len(),
{
    if es.len() > 0 && es.last().label@ != label {
        lemma_last_with_label_member(es.drop_last(), label);
        if let Some(e) = last_with_label(es, label) {
            let k = choose|k: int| 0 <= k < es.drop_last().len() && es.drop_last()[k] == e;
            assert(es[k] == e);
        }
    } else if es.len() > 0 {
        assert(es[es.len() - 1] == es.last());
    }
}

/// What `list` shows is consistent with `launchctl list` output whose
/// entries run exactly when they have a process id (as [`parse_list`]
/// yields them): each row is running exactly when it has a process id, and
/// a row that is not loaded is not running.
///
/// [`parse_list`]: crate::launchctl::parse_list
pub proof fn lemma_list_rows_consistent(
    sorted: Seq<RowView>,
    fs: Seq<FileView>,
    es: Seq<LaunchctlEntry>,
)
    requires
        forall|k: int| 0 <= k < es.len() ==> (#[trigger] es[k]).running == (es[k].pid is Some),
        stably_sorted(sorted, rows_of(fs, es)),
    ensures
        forall|i: int|
            0 <= i < sorted.len() ==> (#[trigger] sorted[i]).2 == (sorted[i].3 is Some) && (
            !sorted[i].1 ==> !sorted[i].2),
{
    assert forall|i: int| 0 <= i < sorted.len() implies (#[trigger] sorted[i]).2 == (
    sorted[i].3 is Some) && (!sorted[i].1 ==> !sorted[i].2) by {
        lemma_stably_sorted_member(sorted, rows_of(fs, es), i);
        lemma_rows_of_consistent(fs, es, sorted[i]);
    }
}

} // verus!
