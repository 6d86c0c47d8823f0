//! The part of a property list that the library reads: whether its root is a
//! dictionary and, if so, each top-level key with its string value.
use vstd::prelude::*;

verus! {

/// One top-level entry of a plist dictionary.
pub struct PlistEntry {
    /// The key.
    pub key: String,
    /// The value when it is a string; `None` for any other kind of value.
    pub text: Option<String>,
}

/// The root of a parsed property list.
pub enum PlistRoot {
    /// A dictionary, with its entries in document order.
    Dictionary(Vec<PlistEntry>),
    /// Any other kind of value.
    Other,
}

/// What a [`PlistEntry`] holds.
pub struct EntryView {
    pub key: Seq<char>,
    pub text: Option<Seq<char>>,
}

/// What a [`PlistRoot`] holds.
pub enum RootView {
    Dictionary(Seq<EntryView>),
    Other,
}

/// The view of an optional string.
pub open spec fn opt_view(o: Option<String>) -> Option<Seq<char>> {
    match o {
        Some(s) => Some(s@),
        None => None,
    }
}

impl View for PlistEntry {
    type V = EntryView;

    open spec fn view(&self) -> EntryView {
        EntryView { key: self.key@, text: opt_view(self.text) }
    }
}

impl View for PlistRoot {
    type V = RootView;

    open spec fn view(&self) -> RootView {
        match self {
            PlistRoot::Dictionary(es) => RootView::Dictionary(es@.map_values(|e: PlistEntry| e@)),
            PlistRoot::Other => RootView::Other,
        }
    }
}

/// What the `plist` crate makes of a document's bytes: its root, or the text
/// of the error it reports.
pub uninterp spec fn plist_parse(bytes: Seq<u8>) -> Result<RootView, Seq<char>>;

/// Parses `bytes` with `plist::from_bytes` (any encoding the crate reads:
/// XML, binary or ASCII) into a `plist::Value`, and keeps of it what
/// [`PlistRoot`] holds. Claimed: the result, or the error's text, is
/// [`plist_parse`] of the bytes. Nothing more is stated of the parser.
#[verifier::external_body]
pub(crate) fn parse_plist(bytes: &[u8]) -> (res: Result<PlistRoot, String>)
    ensures
        match res {
            Ok(root) => plist_parse(bytes@) == Ok::<RootView, Seq<char>>(root@),
            Err(e) => plist_parse(bytes@) == Err::<RootView, Seq<char>>(e@),
        },
{
    match plist::from_bytes::<plist::Value>(bytes) {
        Err(e) => Err(e.to_string()),
        Ok(plist::Value::Dictionary(dict)) => {
            let mut entries = Vec::new();
            for (key, value) in dict {
                let text = match value {
                    plist::Value::String(s) => Some(s),
                    _ => None,
                };
                entries.push(PlistEntry { key, text });
            }
            Ok(PlistRoot::Dictionary(entries))
        },
        Ok(_) => Ok(PlistRoot::Other),
    }
}

/// The position of the first entry with key `key`, or `es.len()` when none has it.
pub open spec fn key_index(es: Seq<EntryView>, key: Seq<char>) -> nat
    decreases es.len(),
{
    if es.len() == 0 {
        0
    } else if es[0].key == key {
        0
    } else {
        1 + key_index(es.drop_first(), key)
    }
}

/// The first entry with key `key`, as `Dictionary::get` finds it.
pub open spec fn lookup(es: Seq<EntryView>, key: Seq<char>) -> Option<EntryView> {
    if key_index(es, key) < es.len() {
        Some(es[key_index(es, key) as int])
    } else {
        None
    }
}

/// Finds the first entry of `entries` with key `key`.
pub fn find_key(entries: &Vec<PlistEntry>, key: &String) -> (res: Option<usize>)
    ensures
        match res {
            Some(i) => i < entries@.len() && i == key_index(
                entries@.map_values(|e: PlistEntry| e@),
                key@,
            ),
            None => key_index(entries@.map_values(|e: PlistEntry| e@), key@) >= entries@.len(),
        },
{
    let ghost es = entries@.map_values(|e: PlistEntry| e@);
    let mut i: usize = 0;
    assert(es.skip(0) =~= es);
    while i < entries.len()
        invariant
            i <= entries@.len(),
            es == entries@.map_values(|e: PlistEntry| e@),
            key_index(es, key@) == i + key_index(es.skip(i as int), key@),
        decreases entries@.len() - i,
    {
        if entries[i].key == *key {
            return Some(i);
        }
        assert(es.skip(i as int).drop_first() =~= es.skip(i + 1));
        i += 1;
    }
    None
}


/// An entry added after the others does not change what a key other than
/// its own finds.
pub proof fn lemma_lookup_push_other(es: Seq<EntryView>, e: EntryView, key: Seq<char>)
    requires
        e.key != key,
    ensures
        lookup(es.push(e), key) == lookup(es, key),
    decreases es.len(),
{
    if es.len() > 0 && es[0].key != key {
        lemma_lookup_push_other(es.drop_first(), e, key);
        assert(es.push(e).drop_first() =~= es.drop_first().push(e));
    }
}

} // verus!
