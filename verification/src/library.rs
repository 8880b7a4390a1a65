//! The plugin library: from the listing of the library's directory, the plugins
//! that can be installed (the files whose names end in `.so`) and where each is
//! downloaded from; and the index of them as the JSON text of `plugins.json`.

use vstd::prelude::*;
use vstd::string::StringExecFns;
use crate::text::{str_eq, ends_with, spec_ends_with};
use std::collections::HashMap;

verus! {

/// One entry of the listing of the library's directory.
#[derive(Debug)]
pub struct LibraryEntry {
    pub name: String,
    /// `file` or `dir`.
    pub kind: String,
    pub download_url: Option<String>,
}

pub struct EntryModel {
    pub name: Seq<char>,
    pub kind: Seq<char>,
    pub download_url: Option<Seq<char>>,
}

impl View for LibraryEntry {
    type V = EntryModel;

    open spec fn view(&self) -> EntryModel {
        EntryModel {
            name: self.name@,
            kind: self.kind@,
            download_url: match self.download_url {
                Some(u) => Some(u@),
                None => None,
            },
        }
    }
}

pub open spec fn file_kind() -> Seq<char> {
    seq!['f', 'i', 'l', 'e']
}

pub open spec fn so_suffix() -> Seq<char> {
    seq!['.', 's', 'o']
}

/// Whether an entry of the listing is an installable plugin.
pub open spec fn is_plugin_entry(e: EntryModel) -> bool {
    e.kind == file_kind() && spec_ends_with(e.name, so_suffix())
}

/// Where a plugin is downloaded from; empty where the listing gives no address.
pub open spec fn url_of(e: EntryModel) -> Seq<char> {
    match e.download_url {
        Some(u) => u,
        None => seq![],
    }
}

/// The plugins of a listing, by name: later entries of the same name replace earlier ones.
pub open spec fn library_map(es: Seq<EntryModel>) -> Map<Seq<char>, Seq<char>>
    decreases es.len(),
{
    if es.len() == 0 {
        Map::empty()
    } else if is_plugin_entry(es.last()) {
        library_map(es.drop_last()).insert(es.last().name, url_of(es.last()))
    } else {
        library_map(es.drop_last())
    }
}

/// Plugins by name, each name once, with where each is downloaded from.
#[derive(Debug)]
pub struct PluginIndex {
    pub entries: Vec<(String, String)>,
}

pub open spec fn has_key(es: Seq<(String, String)>, k: Seq<char>) -> bool {
    exists|i: int| 0 <= i < es.len() && #[trigger] es[i].0@ == k
}

impl PluginIndex {
    /// No name stands twice.
    pub open spec fn wf(&self) -> bool {
        forall|i: int, j: int|
            0 <= i < self.entries@.len() && 0 <= j < self.entries@.len() && i != j
                ==> #[trigger] self.entries@[i].0@ != #[trigger] self.entries@[j].0@
    }

    pub open spec fn index_of(&self, k: Seq<char>) -> int {
        choose|i: int| 0 <= i < self.entries@.len() && #[trigger] self.entries@[i].0@ == k
    }

    /// The index as a map from names to addresses.
    pub open spec fn map(&self) -> Map<Seq<char>, Seq<char>> {
        Map::new(
            |k: Seq<char>| has_key(self.entries@, k),
            |k: Seq<char>| self.entries@[self.index_of(k)].1@,
        )
    }

    /// The empty index.
    pub fn new() -> (r: PluginIndex)
        ensures
            r.wf(),
            r.map() == Map::<Seq<char>, Seq<char>>::empty(),
    {
        let r = PluginIndex { entries: Vec::new() };
        assert(r.map() =~= Map::<Seq<char>, Seq<char>>::empty());
        r
    }

    fn position(&self, name: &str) -> (r: Option<usize>)
        requires
            self.wf(),
        ensures
            match r {
                Some(i) => i < self.entries@.len() && self.entries@[i as int].0@ == name@
                    && self.index_of(name@) == i,
                None => !has_key(self.entries@, name@),
            },
    {
        let mut i: usize = 0;
        while i < self.entries.len()
            invariant
                self.wf(),
                i <= self.entries@.len(),
                forall|j: int| 0 <= j < i ==> #[trigger] self.entries@[j].0@ != name@,
            decreases self.entries@.len() - i,
        {
            if str_eq(self.entries[i].0.as_str(), name) {
                let ghost k = self.index_of(name@);
                assert(0 <= k < self.entries@.len() && self.entries@[k].0@ == name@);
                assert(k == i as int) by {
                    if k != i as int {
                        assert(self.entries@[k].0@ != self.entries@[i as int].0@);
                    }
                }
                return Some(i);
            }
            i = i + 1;
        }
        None
    }

    /// Where the plugin `name` is downloaded from, if the index has it.
    pub fn get(&self, name: &str) -> (r: Option<String>)
        requires
            self.wf(),
        ensures
            match r {
                Some(u) => self.map().contains_key(name@) && self.map()[name@] == u@,
                None => !self.map().contains_key(name@),
            },
    {
        match self.position(name) {
            Some(i) => Some(self.entries[i].1.clone()),
            None => None,
        }
    }

    /// Notes that the plugin `name` is downloaded from `url`, in place of any
    /// address noted before.
    pub fn insert(&mut self, name: &str, url: &str)
        requires
            old(self).wf(),
        ensures
            final(self).wf(),
            final(self).map() == old(self).map().insert(name@, url@),
    {
        let ghost old_map = self.map();
        match self.position(name) {
            Some(i) => {
                self.entries.set(i, (String::from_str(name), String::from_str(url)));
                assert forall|k: Seq<char>| #[trigger] self.map().contains_key(k) == old_map.insert(name@, url@).contains_key(k) by {
                    if has_key(old(self).entries@, k) {
                        let j = choose|j: int| 0 <= j < old(self).entries@.len() && #[trigger] old(self).entries@[j].0@ == k;
                        assert(self.entries@[j].0@ == k);
                    }
                    if has_key(self.entries@, k) {
                        let j = choose|j: int| 0 <= j < self.entries@.len() && #[trigger] self.entries@[j].0@ == k;
                        if j != i {
                            assert(old(self).entries@[j].0@ == k);
                        }
                    }
                }
                assert forall|k: Seq<char>| #[trigger] self.map().contains_key(k) implies self.map()[k] == old_map.insert(name@, url@)[k] by {
                    let a = self.index_of(k);
                    if k != name@ {
                        let b = old(self).index_of(k);
                        assert(0 <= a < self.entries@.len() && self.entries@[a].0@ == k);
                        assert(a != i);
                        assert(old(self).entries@[a].0@ == k);
                        assert(0 <= b < old(self).entries@.len() && old(self).entries@[b].0@ == k);
                        assert(a == b);
                    } else {
                        assert(0 <= a < self.entries@.len() && self.entries@[a].0@ == k);
                        assert(a == i);
                    }
                }
                assert(self.map() =~= old_map.insert(name@, url@));
            },
            None => {
                self.entries.push((String::from_str(name), String::from_str(url)));
                let ghost n = old(self).entries@.len() as int;
                assert forall|k: Seq<char>| #[trigger] self.map().contains_key(k) == old_map.insert(name@, url@).contains_key(k) by {
                    if has_key(old(self).entries@, k) {
                        let j = choose|j: int| 0 <= j < old(self).entries@.len() && #[trigger] old(self).entries@[j].0@ == k;
                        assert(self.entries@[j].0@ == k);
                    }
                    if k == name@ {
                        assert(self.entries@[n].0@ == k);
                    }
                    if has_key(self.entries@, k) {
                        let j = choose|j: int| 0 <= j < self.entries@.len() && #[trigger] self.entries@[j].0@ == k;
                        if j != n {
                            assert(old(self).entries@[j].0@ == k);
                        }
                    }
                }
                assert forall|k: Seq<char>| #[trigger] self.map().contains_key(k) implies self.map()[k] == old_map.insert(name@, url@)[k] by {
                    let a = self.index_of(k);
                    assert(0 <= a < self.entries@.len() && self.entries@[a].0@ == k);
                    if k != name@ {
                        let b = old(self).index_of(k);
                        assert(a != n);
                        assert(old(self).entries@[a].0@ == k);
                        assert(0 <= b < old(self).entries@.len() && old(self).entries@[b].0@ == k);
                        assert(a == b);
                    } else {
                        if a != n {
                            assert(old(self).entries@[a].0@ == name@);
                        }
                    }
                }
                assert(self.map() =~= old_map.insert(name@, url@));
            },
        }
    }

    /// The names of the plugins, each once.
    pub fn names(&self) -> (v: Vec<String>)
        requires
            self.wf(),
        ensures
            v@.len() == self.entries@.len(),
            forall|i: int| 0 <= i < v@.len() ==> #[trigger] v@[i]@ == self.entries@[i].0@,
            forall|i: int| 0 <= i < v@.len() ==> self.map().contains_key(#[trigger] v@[i]@),
            forall|k: Seq<char>| #[trigger] self.map().contains_key(k) ==> exists|i: int| 0 <= i < v@.len() && #[trigger] v@[i]@ == k,
    {
        let mut v: Vec<String> = Vec::new();
        let mut i: usize = 0;
        while i < self.entries.len()
            invariant
                i <= self.entries@.len(),
                v@.len() == i,
                forall|j: int| 0 <= j < i ==> #[trigger] v@[j]@ == self.entries@[j].0@,
            decreases self.entries@.len() - i,
        {
            v.push(self.entries[i].0.clone());
            i = i + 1;
        }
        assert forall|j: int| 0 <= j < v@.len() implies self.map().contains_key(#[trigger] v@[j]@) by {
            assert(self.entries@[j].0@ == v@[j]@);
        }
        assert forall|k: Seq<char>| #[trigger] self.map().contains_key(k) implies exists|j: int| 0 <= j < v@.len() && #[trigger] v@[j]@ == k by {
            let j = choose|j: int| 0 <= j < self.entries@.len() && #[trigger] self.entries@[j].0@ == k;
            assert(v@[j]@ == k);
        }
        v
    }
}

/// Whether an entry of the listing is an installable plugin: a file whose name ends in `.so`.
pub fn is_plugin(e: &LibraryEntry) -> (r: bool)
    ensures
        r == is_plugin_entry(e@),
{
    proof {
        reveal_strlit("file");
        reveal_strlit(".so");
        assert("file"@ =~= file_kind());
        assert(".so"@ =~= so_suffix());
    }
    str_eq(e.kind.as_str(), "file") && ends_with(e.name.as_str(), ".so")
}

pub open spec fn entries_view(es: Seq<LibraryEntry>) -> Seq<EntryModel> {
    Seq::new(es.len(), |i: int| es[i]@)
}

/// The installable plugins of a listing of the library's directory.
pub fn select_plugins(listing: &Vec<LibraryEntry>) -> (r: PluginIndex)
    ensures
        r.wf(),
        r.map() == library_map(entries_view(listing@)),
{
    proof {
        reveal_strlit("file");
        reveal_strlit(".so");
        reveal_strlit("");
        assert(""@ =~= Seq::<char>::empty());
        assert("file"@ =~= file_kind());
        assert(".so"@ =~= so_suffix());
    }
    let mut index = PluginIndex::new();
    let mut i: usize = 0;
    while i < listing.len()
        invariant
            i <= listing@.len(),
            index.wf(),
            index.map() == library_map(entries_view(listing@).take(i as int)),
            "file"@ == file_kind(),
            ".so"@ == so_suffix(),
            ""@ == Seq::<char>::empty(),
        decreases listing@.len() - i,
    {
        let e = &listing[i];
        let ghost es = entries_view(listing@).take(i + 1);
        assert(es.drop_last() =~= entries_view(listing@).take(i as int));
        assert(es.last() == e@);
        if str_eq(e.kind.as_str(), "file") && ends_with(e.name.as_str(), ".so") {
            assert(is_plugin_entry(e@));
            match &e.download_url {
                Some(u) => index.insert(e.name.as_str(), u.as_str()),
                None => index.insert(e.name.as_str(), ""),
            }
            assert(index.map() == library_map(es));
        } else {
            assert(!is_plugin_entry(e@));
            assert(index.map() == library_map(es));
        }
        i = i + 1;
    }
    assert(entries_view(listing@).take(listing@.len() as int) =~= entries_view(listing@));
    index
}

/// Every plugin that the index offers comes from a file of the listing whose
/// name ends in `.so`.
pub proof fn law_index_holds_only_shared_libraries(es: Seq<EntryModel>, k: Seq<char>)
    requires
        library_map(es).contains_key(k),
    ensures
        spec_ends_with(k, so_suffix()),
        exists|i: int| 0 <= i < es.len() && #[trigger] es[i].name == k && is_plugin_entry(es[i]),
    decreases es.len(),
{
    if is_plugin_entry(es.last()) && es.last().name == k {
        assert(es[es.len() - 1].name == k);
    } else {
        law_index_holds_only_shared_libraries(es.drop_last(), k);
        let i = choose|i: int| 0 <= i < es.drop_last().len() && #[trigger] es.drop_last()[i].name == k && is_plugin_entry(es.drop_last()[i]);
        assert(es[i] == es.drop_last()[i]);
    }
}

/// The plugin index offers a name exactly when some plugin entry of the
/// listing has it, and downloads it from the address of the last such entry.
pub proof fn law_index_uses_last_entry(es: Seq<EntryModel>, k: Seq<char>, i: int)
    requires
        0 <= i < es.len(),
        is_plugin_entry(es[i]),
        es[i].name == k,
        forall|j: int| i < j < es.len() ==> !(is_plugin_entry(#[trigger] es[j]) && es[j].name == k),
    ensures
        library_map(es).contains_key(k),
        library_map(es)[k] == url_of(es[i]),
    decreases es.len(),
{
    if i == es.len() - 1 {
    } else {
        assert forall|j: int| i < j < es.drop_last().len() implies !(is_plugin_entry(#[trigger] es.drop_last()[j]) && es.drop_last()[j].name == k) by {
            assert(es.drop_last()[j] == es[j]);
        }
        assert(es.drop_last()[i] == es[i]);
        law_index_uses_last_entry(es.drop_last(), k, i);
        assert(!(is_plugin_entry(es[es.len() - 1]) && es[es.len() - 1].name == k));
    }
}

/// The JSON object of strings that `text` holds, as a map from names to
/// values; none where `text` is not such an object. What `serde_json` reads
/// as a `HashMap<String, String>`; where a name stands twice, its last value.
pub uninterp spec fn json_string_map(text: Seq<char>) -> Option<Map<Seq<char>, Seq<char>>>;

/// Reads `text` as a JSON object of strings.
/// Calls `serde_json::from_str::<HashMap<String, String>>` and hands out the
/// map's pairs, in the map's order, which the contract leaves open; each name
/// comes once. On failure, the error's message (its text is not stated).
#[verifier::external_body]
fn parse_json_string_map(text: &str) -> (r: Result<Vec<(String, String)>, String>)
    ensures
        r is Err <==> json_string_map(text@) is None,
        r matches Ok(v) ==> (forall|i: int, j: int|
            0 <= i < v@.len() && 0 <= j < v@.len() && i != j
                ==> #[trigger] v@[i].0@ != #[trigger] v@[j].0@)
            && json_string_map(text@) == Some((PluginIndex { entries: v }).map()),
{
    match serde_json::from_str::<HashMap<String, String>>(text) {
        Ok(m) => Ok(m.into_iter().collect()),
        Err(e) => Err(e.to_string()),
    }
}

/// Writes the index as a pretty-printed JSON object of strings.
/// Calls `serde_json::to_string_pretty` on the index as a
/// `HashMap<String, String>`. The order of the members follows the map's,
/// which differs from one process to the next, so no text is claimed: only
/// that reading it back gives the index. `serde_json` fails only on a map
/// whose keys are not strings, or on a value whose `Serialize` impl fails,
/// neither of which a map of strings is; its error arm is never taken.
#[verifier::external_body]
fn write_json_string_map(index: &PluginIndex) -> (r: String)
    requires
        index.wf(),
    ensures
        json_string_map(r@) == Some(index.map()),
{
    let m: HashMap<String, String> = index.entries.iter().cloned().collect();
    match serde_json::to_string_pretty(&m) {
        Ok(t) => t,
        Err(_) => String::new(),
    }
}

/// The index that the text of `plugins.json` holds; the parser's message
/// where the text is not a JSON object of strings.
pub fn read_plugin_index(text: &str) -> (r: Result<PluginIndex, String>)
    ensures
        r is Err <==> json_string_map(text@) is None,
        r matches Ok(i) ==> i.wf() && json_string_map(text@) == Some(i.map()),
{
    match parse_json_string_map(text) {
        Ok(v) => Ok(PluginIndex { entries: v }),
        Err(e) => Err(e),
    }
}

/// The text of `plugins.json` for the index: a JSON object of strings that
/// reads back as the index.
pub fn plugin_index_text(index: &PluginIndex) -> (r: String)
    requires
        index.wf(),
    ensures
        json_string_map(r@) == Some(index.map()),
{
    write_json_string_map(index)
}

/// What is written as the text of an index reads back as that index: the same
/// names, each with the same address.
pub proof fn law_index_text_reads_back(index: PluginIndex, text: Seq<char>, back: PluginIndex)
    requires
        index.wf(),
        json_string_map(text) == Some(index.map()),
        json_string_map(text) == Some(back.map()),
    ensures
        back.map() == index.map(),
{
}

} // verus!
