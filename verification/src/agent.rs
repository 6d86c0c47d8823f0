//! Resolving an agent by its plist file name or by the `Label` inside it.
use vstd::prelude::*;
use crate::plist_doc::{
    PlistRoot, PlistEntry, RootView, find_key, lookup, opt_view, parse_plist,
    plist_parse,
};
use crate::text::{
    plist_suffix,
    file_extension, file_stem, join, split_file_name, strip_plist_suffixes,
    strip_plist_suffixes_str, views, concat, join_strings,
};

verus! {

/// A resolved agent: its plist file and its label.
#[derive(Debug)]
pub struct Agent {
    /// The path of the plist file.
    pub path: String,
    /// The agent's label.
    pub label: String,
}

/// Why the label of a plist could not be read.
#[derive(Debug)]
pub enum LabelError {
    /// The bytes are not a property list.
    Parse {
        /// The path of the plist file.
        path: String,
        /// The parser's message.
        reason: String,
    },
    /// The root of the property list is not a dictionary.
    NotDictionary,
    /// The root dictionary has no `Label` key, or its value is not a string.
    MissingLabel,
}

impl LabelError {
    /// The text of the error.
    pub fn message(&self) -> (res: String)
        ensures
            res@ == match self {
                LabelError::Parse { path, reason } => "failed to parse "@ + path@ + ": "@
                    + reason@,
                LabelError::NotDictionary => "plist root is not a dictionary"@,
                LabelError::MissingLabel => "Label key not found or not a string"@,
            },
    {
        match self {
            LabelError::Parse { path, reason } => {
                let mut res = String::from_str("failed to parse ");
                res.append(path.as_str());
                res.append(": ");
                res.append(reason.as_str());
                res
            },
            LabelError::NotDictionary => String::from_str("plist root is not a dictionary"),
            LabelError::MissingLabel => String::from_str("Label key not found or not a string"),
        }
    }
}

/// The key `"Label"`.
pub open spec fn label_key() -> Seq<char> {
    seq!['L', 'a', 'b', 'e', 'l']
}

/// The label of a parsed plist: the string value of its root dictionary's
/// `Label` key.
pub open spec fn root_label(root: RootView) -> Option<Seq<char>> {
    match root {
        RootView::Dictionary(es) => match lookup(es, label_key()) {
            Some(e) => e.text,
            None => None,
        },
        RootView::Other => None,
    }
}

/// The label of a plist document's bytes, when it has one.
pub open spec fn plist_label(bytes: Seq<u8>) -> Option<Seq<char>> {
    match plist_parse(bytes) {
        Ok(root) => root_label(root),
        Err(_) => None,
    }
}

/// Reads the `Label` of a parsed plist.
pub fn label_of(root: &PlistRoot) -> (res: Result<String, LabelError>)
    ensures
        match res {
            Ok(l) => root_label(root@) == Some(l@),
            Err(LabelError::NotDictionary) => root@ is Other,
            Err(LabelError::MissingLabel) => root@ is Dictionary && root_label(root@) is None,
            Err(LabelError::Parse { .. }) => false,
        },
{
    match root {
        PlistRoot::Other => Err(LabelError::NotDictionary),
        PlistRoot::Dictionary(entries) => {
            let key = String::from_str("Label");
            proof {
                reveal_strlit("Label");
                assert(key@ =~= label_key());
            }
            match find_key(entries, &key) {
                None => Err(LabelError::MissingLabel),
                Some(i) => {
                    let ghost es = entries@.map_values(|e: PlistEntry| e@);
                    assert(es[i as int] == entries@[i as int]@);
                    match &entries[i].text {
                        Some(t) => Ok(t.clone()),
                        None => Err(LabelError::MissingLabel),
                    }
                },
            }
        },
    }
}

/// Reads the `Label` key of the plist file at `path`, given its bytes.
pub fn read_label(path: &str, contents: &[u8]) -> (res: Result<String, LabelError>)
    ensures
        match res {
            Ok(l) => plist_label(contents@) == Some(l@),
            Err(LabelError::Parse { path: p, reason }) => p@ == path@ && plist_parse(contents@)
                == Err::<RootView, Seq<char>>(reason@),
            Err(LabelError::NotDictionary) => plist_parse(contents@) == Ok::<RootView, Seq<char>>(
                RootView::Other,
            ),
            Err(LabelError::MissingLabel) => plist_parse(contents@) matches Ok(
                RootView::Dictionary(_),
            ) && plist_label(contents@) is None,
        },
{
    match parse_plist(contents) {
        Err(reason) => Err(LabelError::Parse { path: String::from_str(path), reason }),
        Ok(root) => label_of(&root),
    }
}


/// A directory entry offered for resolution, with the bytes of the file
/// when they could be read.
pub struct ListedFile {
    /// The entry's full path.
    pub path: String,
    /// The entry's file name (the last component of `path`).
    pub file_name: String,
    /// The file's bytes; `None` when it could not be read.
    pub contents: Option<Vec<u8>>,
}

/// A directory entry with the label read from it, when one was.
pub struct LabeledFile {
    /// The entry's full path.
    pub path: String,
    /// The entry's file name (the last component of `path`).
    pub file_name: String,
    /// The plist's `Label`; `None` when it could not be read.
    pub label: Option<String>,
}

/// A file as resolution sees it: path, file name and label.
pub type FileView = (Seq<char>, Seq<char>, Option<Seq<char>>);

/// An agent as resolution yields it: path and label.
pub type AgentView = (Seq<char>, Seq<char>);

/// The view of an [`Agent`].
pub open spec fn agent_view(a: Agent) -> AgentView {
    (a.path@, a.label@)
}

/// The view of a [`LabeledFile`].
pub open spec fn labeled_view(f: LabeledFile) -> FileView {
    (f.path@, f.file_name@, opt_view(f.label))
}

/// The view of a [`ListedFile`]: its label is the one its bytes hold.
pub open spec fn listed_view(f: ListedFile) -> FileView {
    (
        f.path@,
        f.file_name@,
        match f.contents {
            Some(b) => plist_label(b@),
            None => None,
        },
    )
}

/// The extension `"plist"`.
pub open spec fn plist_extension() -> Seq<char> {
    seq!['p', 'l', 'i', 's', 't']
}

/// Whether a file name has the extension `plist` (case-sensitive).
pub open spec fn is_plist_name(name: Seq<char>) -> bool {
    file_extension(name) == Some(plist_extension())
}

/// Decides [`is_plist_name`].
pub fn is_plist_file_name(name: &str) -> (res: bool)
    ensures
        res == is_plist_name(name@),
{
    let (_, ext) = split_file_name(name);
    match ext {
        Some(e) => {
            let plist = String::from_str("plist");
            proof {
                reveal_strlit("plist");
                assert(plist@ =~= plist_extension());
            }
            e == plist
        },
        None => false,
    }
}

/// The agent a file stands for when looking for `needle`: a plist file whose
/// stem is `needle` (labelled by its `Label`, or by its stem when that cannot
/// be read), or a plist file whose `Label` is `needle`.
pub open spec fn candidate(f: FileView, needle: Seq<char>) -> Option<AgentView> {
    if !is_plist_name(f.1) {
        None
    } else if file_stem(f.1) == needle {
        Some(
            (
                f.0,
                match f.2 {
                    Some(l) => l,
                    None => file_stem(f.1),
                },
            ),
        )
    } else if f.2 == Some(needle) {
        Some((f.0, needle))
    } else {
        None
    }
}

/// The agents that the files stand for when looking for `needle`, in order.
pub open spec fn matches(fs: Seq<FileView>, needle: Seq<char>) -> Seq<AgentView>
    decreases fs.len(),
{
    if fs.len() == 0 {
        seq![]
    } else {
        let rest = matches(fs.drop_last(), needle);
        match candidate(fs.last(), needle) {
            Some(a) => rest.push(a),
            None => rest,
        }
    }
}

/// What to look for given the name a user typed: the name without any
/// trailing `".plist"`.
pub open spec fn needle_of(id: Seq<char>) -> Seq<char> {
    strip_plist_suffixes(id)
}

/// Why no single agent was found.
#[derive(Debug)]
pub enum ResolveError {
    /// No file matches.
    NoMatch {
        /// The name that was looked for, as given.
        id: String,
    },
    /// Several files match.
    Ambiguous {
        /// The name that was looked for, as given.
        id: String,
        /// The labels of the matching agents, in directory order.
        labels: Vec<String>,
    },
}

impl ResolveError {
    /// The text of the error.
    pub fn message(&self) -> (res: String)
        ensures
            res@ == match self {
                ResolveError::NoMatch { id } => "no agent found matching '"@ + id@ + "'"@,
                ResolveError::Ambiguous { id, labels } =>
                    "ambiguous agent name, be more specific: '"@ + id@ + "' matches "@ + join(
                    views(labels@),
                    ", "@,
                ),
            },
    {
        match self {
            ResolveError::NoMatch { id } => {
                let mut res = String::from_str("no agent found matching '");
                res.append(id.as_str());
                res.append("'");
                res
            },
            ResolveError::Ambiguous { id, labels } => {
                let mut res = String::from_str("ambiguous agent name, be more specific: '");
                res.append(id.as_str());
                res.append("' matches ");
                let joined = join_strings(labels, ", ");
                res.append(joined.as_str());
                res
            },
        }
    }
}

/// What resolving `id` among files gives: the single match, or an error
/// when there is none or more than one.
pub open spec fn resolve_outcome(id: Seq<char>, m: Seq<AgentView>, res: Result<Agent, ResolveError>) -> bool {
    &&& (m.len() == 1) == (res is Ok)
    &&& res matches Ok(a) ==> agent_view(a) == m[0]
    &&& (m.len() == 0) == (res matches Err(ResolveError::NoMatch { .. }))
    &&& res matches Err(ResolveError::NoMatch { id: i }) ==> i@ == id
    &&& (m.len() >= 2) == (res matches Err(ResolveError::Ambiguous { .. }))
    &&& res matches Err(ResolveError::Ambiguous { id: i, labels }) ==> i@ == id
        && views(labels@) == m.map_values(|a: AgentView| a.1)
}


/// Each agent that resolution yields is one of the plist files listed, at
/// that file's own path: its stem is the name looked for (and the agent
/// bears the file's label, or the stem when the label cannot be read), or
/// else its label is the name looked for (and the agent bears it).
pub proof fn lemma_match_is_a_listed_plist(fs: Seq<FileView>, needle: Seq<char>, k: int)
    requires
        0 <= k < matches(fs, needle).len(),
    ensures
        exists|i: int|
            0 <= i < fs.len() && #[trigger] fs[i].0 == matches(fs, needle)[k].0 && is_plist_name(
                fs[i].1,
            ) && (if file_stem(fs[i].1) == needle {
                matches(fs, needle)[k].1 == (match fs[i].2 {
                    Some(l) => l,
                    None => file_stem(fs[i].1),
                })
            } else {
                fs[i].2 == Some(needle) && matches(fs, needle)[k].1 == needle
            }),
    decreases fs.len(),
{
    let rest = matches(fs.drop_last(), needle);
    if k < rest.len() {
        lemma_match_is_a_listed_plist(fs.drop_last(), needle, k);
        let i = choose|i: int|
            0 <= i < fs.drop_last().len() && #[trigger] fs.drop_last()[i].0 == rest[k].0
                && is_plist_name(fs.drop_last()[i].1) && (if file_stem(fs.drop_last()[i].1)
                == needle {
                rest[k].1 == (match fs.drop_last()[i].2 {
                    Some(l) => l,
                    None => file_stem(fs.drop_last()[i].1),
                })
            } else {
                fs.drop_last()[i].2 == Some(needle) && rest[k].1 == needle
            });
        assert(fs[i] == fs.drop_last()[i]);
        assert(matches(fs, needle)[k] == rest[k]);
    } else {
        let i = fs.len() - 1;
        assert(fs[i] == fs.last());
        assert(fs[i].0 == matches(fs, needle)[k].0);
    }
}

/// The agent that `resolve` yields is one of the listed plist files, at
/// that file's full path: a file whose stem is the name looked for (labelled
/// by its `Label`, or by its stem when that cannot be read), or a file whose
/// `Label` is the name looked for.
pub proof fn lemma_resolved_agent_is_listed(
    id: Seq<char>,
    fs: Seq<FileView>,
    res: Result<Agent, ResolveError>,
)
    requires
        resolve_outcome(id, matches(fs, needle_of(id)), res),
    ensures
        res matches Ok(a) ==> exists|i: int|
            0 <= i < fs.len() && #[trigger] fs[i].0 == a.path@ && is_plist_name(fs[i].1) && (if file_stem(fs[i].1)
                == needle_of(id) {
                a.label@ == (match fs[i].2 {
                    Some(l) => l,
                    None => file_stem(fs[i].1),
                })
            } else {
                fs[i].2 == Some(needle_of(id)) && a.label@ == needle_of(id)
            }),
{
    if res is Ok {
        lemma_match_is_a_listed_plist(fs, needle_of(id), 0);
    }
}

/// Resolves `id` among files whose labels have been read: strips any
/// trailing `".plist"` from `id`, then keeps the plist files whose stem or
/// label is what remains.
pub fn resolve_labeled(id: &str, files: &Vec<LabeledFile>) -> (res: Result<Agent, ResolveError>)
    ensures
        resolve_outcome(
            id@,
            matches(files@.map_values(|f: LabeledFile| labeled_view(f)), needle_of(id@)),
            res,
        ),
        res matches Ok(a) ==> exists|i: int|
            0 <= i < files@.len() && #[trigger] files@[i].path@ == a.path@ && is_plist_name(
                files@[i].file_name@,
            ) && (if file_stem(files@[i].file_name@) == needle_of(id@) {
                a.label@ == (match opt_view(files@[i].label) {
                    Some(l) => l,
                    None => file_stem(files@[i].file_name@),
                })
            } else {
                opt_view(files@[i].label) == Some(needle_of(id@)) && a.label@ == needle_of(id@)
            }),
{
    let needle = strip_plist_suffixes_str(id);
    let ghost fs = files@.map_values(|f: LabeledFile| labeled_view(f));
    let mut found: Vec<Agent> = Vec::new();
    let mut i: usize = 0;
    while i < files.len()
        invariant
            i <= files@.len(),
            fs == files@.map_values(|f: LabeledFile| labeled_view(f)),
            needle@ == needle_of(id@),
            found@.map_values(|a: Agent| agent_view(a)) == matches(fs.take(i as int), needle@),
        decreases files@.len() - i,
    {
        let f = &files[i];
        assert(fs.take(i + 1).drop_last() =~= fs.take(i as int));
        assert(fs.take(i + 1).last() == labeled_view(*f));
        let (stem, _) = split_file_name(f.file_name.as_str());
        if is_plist_file_name(f.file_name.as_str()) {
            if stem == needle {
                let label = match &f.label {
                    Some(l) => l.clone(),
                    None => stem.clone(),
                };
                found.push(Agent { path: f.path.clone(), label });
            } else {
                match &f.label {
                    Some(l) => {
                        if *l == needle {
                            found.push(Agent { path: f.path.clone(), label: l.clone() });
                        }
                    },
                    None => {},
                }
            }
        }
        assert(found@.map_values(|a: Agent| agent_view(a)) =~= matches(
            fs.take(i + 1),
            needle@,
        ));
        i += 1;
    }
    assert(fs.take(i as int) =~= fs);
    let ghost m = matches(fs, needle@);
    proof {
        if m.len() == 1 {
            lemma_match_is_a_listed_plist(fs, needle@, 0);
            let j = choose|j: int|
                0 <= j < fs.len() && #[trigger] fs[j].0 == m[0].0 && is_plist_name(fs[j].1) && (
                if file_stem(fs[j].1) == needle@ {
                    m[0].1 == (match fs[j].2 {
                        Some(l) => l,
                        None => file_stem(fs[j].1),
                    })
                } else {
                    fs[j].2 == Some(needle@) && m[0].1 == needle@
                });
            assert(fs[j] == labeled_view(files@[j]));
        }
    }
    assert(found@.len() == m.len());
    if found.len() == 0 {
        Err(ResolveError::NoMatch { id: String::from_str(id) })
    } else if found.len() == 1 {
        assert(agent_view(found@[0]) == m[0]);
        Ok(found.remove(0))
    } else {
        let mut labels: Vec<String> = Vec::new();
        let mut j: usize = 0;
        while j < found.len()
            invariant
                j <= found@.len(),
                labels@.len() == j,
                found@.map_values(|a: Agent| agent_view(a)) == m,
                views(labels@) == m.take(j as int).map_values(|a: AgentView| a.1),
            decreases found@.len() - j,
        {
            assert(agent_view(found@[j as int]) == m[j as int]);
            let ghost before = labels@;
            let label = found[j].label.clone();
            labels.push(label);
            assert(labels@ == before.push(label));
            assert forall|k: int| 0 <= k < j + 1 implies views(labels@)[k] == m.take(j + 1).map_values(
                |a: AgentView| a.1,
            )[k] by {
                if k < j {
                    assert(views(labels@)[k] == labels@[k]@);
                    assert(views(before)[k] == before[k]@);
                }
            }
            assert(views(labels@) =~= m.take(j + 1).map_values(|a: AgentView| a.1));
            j += 1;
        }
        assert(m.take(j as int) =~= m);
        Err(ResolveError::Ambiguous { id: String::from_str(id), labels })
    }
}


/// Reads the label of a listed file, if its bytes are there and hold one.
fn label_of_listed(f: &ListedFile) -> (res: Option<String>)
    ensures
        opt_view(res) == listed_view(*f).2,
{
    match &f.contents {
        Some(bytes) => match read_label(f.path.as_str(), bytes.as_slice()) {
            Ok(l) => Some(l),
            Err(_) => None,
        },
        None => None,
    }
}

/// Reads the labels of listed files.
pub fn label_files(files: &Vec<ListedFile>) -> (res: Vec<LabeledFile>)
    ensures
        res@.map_values(|f: LabeledFile| labeled_view(f)) == files@.map_values(
            |f: ListedFile| listed_view(f),
        ),
{
    let mut res: Vec<LabeledFile> = Vec::new();
    let mut i: usize = 0;
    while i < files.len()
        invariant
            i <= files@.len(),
            res@.len() == i,
            res@.map_values(|f: LabeledFile| labeled_view(f)) == files@.take(i as int).map_values(
                |f: ListedFile| listed_view(f),
            ),
        decreases files@.len() - i,
    {
        let f = &files[i];
        let label = label_of_listed(f);
        let ghost before = res@;
        res.push(
            LabeledFile { path: f.path.clone(), file_name: f.file_name.clone(), label },
        );
        assert forall|k: int| 0 <= k < i + 1 implies labeled_view(res@[k]) == listed_view(
            files@[k],
        ) by {
            if k < i {
                assert(res@[k] == before[k]);
                assert(before.map_values(|f: LabeledFile| labeled_view(f))[k] == labeled_view(
                    before[k],
                ));
                assert(files@.take(i as int).map_values(|f: ListedFile| listed_view(f))[k]
                    == listed_view(files@[k]));
            }
        }
        assert(res@.map_values(|f: LabeledFile| labeled_view(f)) =~= files@.take(
            i + 1,
        ).map_values(|f: ListedFile| listed_view(f)));
        i += 1;
    }
    assert(files@.take(i as int) =~= files@);
    res
}

/// Resolves an agent by label or by plist file name among the entries of a
/// directory, reading each plist's `Label` from its bytes. Fails when no
/// entry or more than one matches.
pub fn resolve(id: &str, files: &Vec<ListedFile>) -> (res: Result<Agent, ResolveError>)
    ensures
        resolve_outcome(
            id@,
            matches(files@.map_values(|f: ListedFile| listed_view(f)), needle_of(id@)),
            res,
        ),
        res matches Ok(a) ==> exists|i: int|
            0 <= i < files@.len() && #[trigger] files@[i].path@ == a.path@ && is_plist_name(
                files@[i].file_name@,
            ) && (if file_stem(files@[i].file_name@) == needle_of(id@) {
                a.label@ == (match listed_view(files@[i]).2 {
                    Some(l) => l,
                    None => file_stem(files@[i].file_name@),
                })
            } else {
                listed_view(files@[i]).2 == Some(needle_of(id@)) && a.label@ == needle_of(id@)
            }),
{
    let labeled = label_files(files);
    let res = resolve_labeled(id, &labeled);
    proof {
        let fs = files@.map_values(|f: ListedFile| listed_view(f));
        lemma_resolved_agent_is_listed(id@, fs, res);
        if let Ok(a) = &res {
            let i = choose|i: int|
                0 <= i < fs.len() && #[trigger] fs[i].0 == a.path@ && is_plist_name(fs[i].1) && (
                if file_stem(fs[i].1) == needle_of(id@) {
                    a.label@ == (match fs[i].2 {
                        Some(l) => l,
                        None => file_stem(fs[i].1),
                    })
                } else {
                    fs[i].2 == Some(needle_of(id@)) && a.label@ == needle_of(id@)
                });
            assert(fs[i] == listed_view(files@[i]));
        }
    }
    res
}

/// Looking for a name with `".plist"` added is looking for the name itself.
pub proof fn lemma_needle_ignores_plist_suffix(id: Seq<char>)
    ensures
        needle_of(id + plist_suffix()) == needle_of(id),
{
    let s = id + plist_suffix();
    assert(s.skip(s.len() - 6) =~= plist_suffix());
    assert(s.take(s.len() - 6) =~= id);
}


/// Resolving a name with `".plist"` added finds the same agents as
/// resolving the name itself.
pub proof fn lemma_resolve_ignores_plist_suffix(fs: Seq<FileView>, id: Seq<char>)
    ensures
        matches(fs, needle_of(id + plist_suffix())) == matches(fs, needle_of(id)),
{
    lemma_needle_ignores_plist_suffix(id);
}

} // verus!
