//! The tool registry: flat, keyed by name, in registration order, with optional
//! tags and deferred entries.

use crate::collections;
use crate::error::ToolError;
use crate::provider::{ToolDef, ToolDefView};
use crate::text;
use crate::text::{contains_text, join, to_lowercase};
use crate::views;
use vstd::prelude::*;

verus! {

/// A typed tool, to be offered by its definition.
pub struct TypedTool<T>(pub T);

/// A registered tool.
pub struct ToolEntry {
    /// Its definition.
    pub def: ToolDef,
    /// Tags under which a search finds it.
    pub tags: Vec<String>,
    /// Whether it is withheld from the prompt until a search surfaces it.
    pub deferred: bool,
    /// Position of the tool that the host keeps.
    pub slot: usize,
}

/// What a [`ToolEntry`] stands for.
#[verifier::ext_equal]
pub struct ToolEntryView {
    /// Its definition.
    pub def: ToolDefView,
    /// Tags under which a search finds it.
    pub tags: Seq<Seq<char>>,
    /// Whether it is withheld from the prompt until a search surfaces it.
    pub deferred: bool,
    /// Position of the tool that the host keeps.
    pub slot: usize,
}

impl View for ToolEntry {
    type V = ToolEntryView;

    open spec fn view(&self) -> ToolEntryView {
        ToolEntryView {
            def: self.def@,
            tags: views::each(self.tags@),
            deferred: self.deferred,
            slot: self.slot,
        }
    }
}

impl Clone for ToolEntry {
    fn clone(&self) -> (copy: Self)
        ensures
            copy@ == self@,
    {
        let copy = ToolEntry {
            def: self.def.clone(),
            tags: self.tags.clone(),
            deferred: self.deferred,
            slot: self.slot,
        };
        assert(copy@.tags =~= self@.tags);
        copy
    }
}

/// What a map of registered tools holds, in registration order.
pub uninterp spec fn registered(
    map: indexmap::IndexMap<String, ToolEntry>,
) -> Seq<(Seq<char>, ToolEntry)>;

/// `indexmap::IndexMap::new`.
#[verifier::external_body]
fn new_entries() -> (map: indexmap::IndexMap<String, ToolEntry>)
    ensures
        registered(map).len() == 0,
{
    indexmap::IndexMap::new()
}

/// `indexmap::IndexMap::insert`: sets a key, in place where it is there, at the
/// end otherwise.
#[verifier::external_body]
fn set_entry(map: &mut indexmap::IndexMap<String, ToolEntry>, key: String, entry: ToolEntry)
    ensures
        registered(*final(map)) == collections::with_entry(registered(*old(map)), key@, entry),
{
    let _ = map.insert(key, entry);
}

/// `indexmap::IndexMap::shift_remove`: takes a key out; the others keep their
/// order.
#[verifier::external_body]
fn remove_entry(map: &mut indexmap::IndexMap<String, ToolEntry>, key: &str) -> (found: bool)
    ensures
        found == (collections::position(registered(*old(map)), key@) is Some),
        registered(*final(map)) == collections::without_entry(registered(*old(map)), key@),
{
    map.shift_remove(key).is_some()
}

/// `indexmap::IndexMap::get`.
#[verifier::external_body]
fn entry_for<'a>(
    map: &'a indexmap::IndexMap<String, ToolEntry>,
    key: &str,
) -> (entry: Option<&'a ToolEntry>)
    ensures
        match entry {
            Some(e) => collections::lookup(registered(*map), key@) == Some(*e),
            None => collections::lookup(registered(*map), key@) is None,
        },
{
    map.get(key)
}

/// `indexmap::IndexMap::get_mut`: the entry of a key, to change in place.
#[verifier::external_body]
fn entry_mut<'a>(
    map: &'a mut indexmap::IndexMap<String, ToolEntry>,
    key: &str,
) -> (entry: Option<&'a mut ToolEntry>)
    ensures
        match entry {
            Some(e) => {
                &&& collections::lookup(registered(*old(map)), key@) == Some(*e)
                &&& registered(*final(map)) == collections::with_entry(
                    registered(*old(map)),
                    key@,
                    *final(e),
                )
            },
            None => {
                &&& collections::lookup(registered(*old(map)), key@) is None
                &&& registered(*final(map)) == registered(*old(map))
            },
        },
{
    map.get_mut(key)
}

/// `indexmap::IndexMap::len`.
#[verifier::external_body]
fn entry_count(map: &indexmap::IndexMap<String, ToolEntry>) -> (count: usize)
    ensures
        count == registered(*map).len(),
{
    map.len()
}

/// `indexmap::IndexMap::get_index`: the entry at a position.
#[verifier::external_body]
fn entry_at(
    map: &indexmap::IndexMap<String, ToolEntry>,
    i: usize,
) -> (entry: Option<(&String, &ToolEntry)>)
    ensures
        match entry {
            Some(e) => {
                &&& i < registered(*map).len()
                &&& e.0@ == registered(*map)[i as int].0
                &&& *e.1 == registered(*map)[i as int].1
            },
            None => i >= registered(*map).len(),
        },
{
    map.get_index(i)
}

/// A flat registry of tools, keyed by name.
pub struct ToolRegistry {
    entries: indexmap::IndexMap<String, ToolEntry>,
}

/// What entries stand for.
pub open spec fn entry_views(
    entries: Seq<(Seq<char>, ToolEntry)>,
) -> Seq<(Seq<char>, ToolEntryView)> {
    entries.map_values(|e: (Seq<char>, ToolEntry)| (e.0, e.1@))
}

impl View for ToolRegistry {
    type V = Seq<(Seq<char>, ToolEntryView)>;

    closed spec fn view(&self) -> Seq<(Seq<char>, ToolEntryView)> {
        entry_views(registered(self.entries))
    }
}

proof fn lemma_view_position(entries: Seq<(Seq<char>, ToolEntry)>, key: Seq<char>)
    ensures
        collections::position(entry_views(entries), key) == collections::position(entries, key),
        collections::position(entries, key) matches Some(i) ==> 0 <= i < entries.len(),
    decreases entries.len(),
{
    collections::lemma_position(entries, key);
    if entries.len() > 0 && entries[0].0 != key {
        lemma_view_position(entries.drop_first(), key);
        assert(entry_views(entries).drop_first() =~= entry_views(entries.drop_first()));
    }
}

proof fn lemma_view_with_entry(
    entries: Seq<(Seq<char>, ToolEntry)>,
    key: Seq<char>,
    entry: ToolEntry,
)
    ensures
        entry_views(collections::with_entry(entries, key, entry)) == collections::with_entry(
            entry_views(entries),
            key,
            entry@,
        ),
{
    lemma_view_position(entries, key);
    assert(entry_views(collections::with_entry(entries, key, entry)) =~= collections::with_entry(
        entry_views(entries),
        key,
        entry@,
    ));
}

/// The definitions of the tools that are not deferred, in order.
pub open spec fn active(entries: Seq<(Seq<char>, ToolEntryView)>) -> Seq<ToolDefView>
    decreases entries.len(),
{
    if entries.len() == 0 {
        Seq::empty()
    } else {
        let before = active(entries.drop_last());
        if entries.last().1.deferred {
            before
        } else {
            before.push(entries.last().1.def)
        }
    }
}

/// Whether a tool is deferred.
pub open spec fn any_deferred(entries: Seq<(Seq<char>, ToolEntryView)>) -> bool {
    exists|i: int| 0 <= i < entries.len() && (#[trigger] entries[i]).1.deferred
}

/// The text in which a search for a tool looks.
pub open spec fn searched_text(name: Seq<char>, entry: ToolEntryView) -> Seq<char> {
    name + " "@ + entry.def.description + " "@ + text::joined(entry.tags, " "@)
}

/// The searched texts of all tools, in lower case.
pub open spec fn lowered_texts(entries: Seq<(Seq<char>, ToolEntryView)>) -> Seq<Seq<char>> {
    entries.map_values(|e: (Seq<char>, ToolEntryView)| text::lowercase(searched_text(e.0, e.1)))
}

/// Names and descriptions of the deferred tools in whose searched text the
/// query stands, in order.
pub open spec fn found(
    entries: Seq<(Seq<char>, ToolEntryView)>,
    lowered: Seq<Seq<char>>,
    query: Seq<char>,
) -> Seq<(Seq<char>, Seq<char>)>
    decreases entries.len(),
{
    if entries.len() == 0 {
        Seq::empty()
    } else {
        let before = found(entries.drop_last(), lowered, query);
        let last = entries.last();
        if last.1.deferred && text::holds_text(lowered[entries.len() - 1], query) {
            before.push((last.0, last.1.def.description))
        } else {
            before
        }
    }
}

/// What name and description pairs stand for.
pub open spec fn hit_views(hits: Seq<(String, String)>) -> Seq<(Seq<char>, Seq<char>)> {
    hits.map_values(|h: (String, String)| (h.0@, h.1@))
}

impl ToolRegistry {
    /// A new, empty registry.
    #[must_use]
    pub fn new() -> (registry: ToolRegistry)
        ensures
            registry@ == Seq::<(Seq<char>, ToolEntryView)>::empty(),
    {
        let registry = ToolRegistry { entries: new_entries() };
        assert(registry@ =~= Seq::empty());
        registry
    }

    /// Registers a tool (active, untagged). Replaces one of the same name.
    pub fn register(&mut self, def: ToolDef, slot: usize)
        ensures
            final(self)@ == collections::with_entry(
                old(self)@,
                def@.name,
                ToolEntryView { def: def@, tags: Seq::empty(), deferred: false, slot },
            ),
    {
        let tags: Vec<String> = Vec::new();
        assert(views::each(tags@) =~= Seq::empty());
        self.insert(def, tags, false, slot);
    }

    /// Registers a tool with tags and deferral. Replaces one of the same name,
    /// in its place.
    pub fn insert(&mut self, def: ToolDef, tags: Vec<String>, defer: bool, slot: usize)
        ensures
            final(self)@ == collections::with_entry(
                old(self)@,
                def@.name,
                ToolEntryView { def: def@, tags: views::each(tags@), deferred: defer, slot },
            ),
    {
        let name = def.name.clone();
        let entry = ToolEntry { def, tags, deferred: defer, slot };
        proof {
            lemma_view_with_entry(registered(self.entries), name@, entry);
        }
        set_entry(&mut self.entries, name, entry);
    }

    /// Removes a tool by name; returns whether it was there.
    pub fn remove(&mut self, name: &str) -> (found: bool)
        ensures
            found == (collections::position(old(self)@, name@) is Some),
            final(self)@ == collections::without_entry(old(self)@, name@),
    {
        let ghost before = registered(self.entries);
        proof {
            lemma_view_position(before, name@);
        }
        let found = remove_entry(&mut self.entries, name);
        assert(self@ =~= collections::without_entry(entry_views(before), name@));
        found
    }

    /// Looks up a tool by name.
    #[must_use]
    pub fn get(&self, name: &str) -> (slot: Option<usize>)
        ensures
            slot == (match collections::lookup(self@, name@) {
                Some(entry) => Some(entry.slot),
                None => None,
            }),
    {
        proof {
            lemma_view_position(registered(self.entries), name@);
        }
        match entry_for(&self.entries, name) {
            Some(entry) => Some(entry.slot),
            None => None,
        }
    }

    /// The tool to call for `name`; an unknown name is an error that the model
    /// can recover from.
    pub fn resolve(&self, name: &str) -> (slot: Result<usize, ToolError>)
        ensures
            match (collections::lookup(self@, name@), slot) {
                (Some(entry), Ok(s)) => s == entry.slot,
                (None, Err(e)) => e@ == "unknown tool: "@ + name@,
                _ => false,
            },
    {
        match self.get(name) {
            Some(slot) => Ok(slot),
            None => Err(ToolError::new("unknown tool: ".to_owned().concat(name))),
        }
    }

    /// Names of all registered tools, in registration order.
    #[must_use]
    pub fn names(&self) -> (names: Vec<String>)
        ensures
            views::each(names@) == self@.map_values(|e: (Seq<char>, ToolEntryView)| e.0),
    {
        let mut names: Vec<String> = Vec::new();
        let count: usize = entry_count(&self.entries);
        let mut i: usize = 0;
        while i < count
            invariant
                i <= count,
                count == self@.len(),
                count == registered(self.entries).len(),
                names@.len() == i,
                forall|j: int| 0 <= j < i ==> (#[trigger] names@[j])@ == self@[j].0,
            decreases count - i,
        {
            match entry_at(&self.entries, i) {
                Some(entry) => {
                    names.push(entry.0.clone());
                },
                None => {},
            }
            i = i + 1;
        }
        assert(views::each(names@) =~= self@.map_values(|e: (Seq<char>, ToolEntryView)| e.0));
        names
    }

    /// Number of registered tools.
    #[must_use]
    pub fn len(&self) -> (count: usize)
        ensures
            count == self@.len(),
    {
        entry_count(&self.entries)
    }

    /// Whether the registry is empty.
    #[must_use]
    pub fn is_empty(&self) -> (empty: bool)
        ensures
            empty == (self@.len() == 0),
    {
        entry_count(&self.entries) == 0
    }

    /// Definitions of the active (non-deferred) tools, in registration order.
    #[must_use]
    pub fn active_defs(&self) -> (defs: Vec<ToolDef>)
        ensures
            views::each(defs@) == active(self@),
    {
        let ghost all = self@;
        let mut defs: Vec<ToolDef> = Vec::new();
        let count: usize = entry_count(&self.entries);
        let mut i: usize = 0;
        assert(views::each(defs@) =~= active(all.take(0)));
        while i < count
            invariant
                i <= count,
                all == self@,
                count == all.len(),
                count == registered(self.entries).len(),
                views::each(defs@) == active(all.take(i as int)),
            decreases count - i,
        {
            let ghost before = defs@;
            assert(all.take(i + 1).drop_last() =~= all.take(i as int));
            match entry_at(&self.entries, i) {
                Some(entry) => {
                    assert(all[i as int] == (entry.0@, entry.1@));
                    if !entry.1.deferred {
                        let def = entry.1.def.clone();
                        defs.push(def);
                        assert(views::each(defs@) =~= views::each(before).push(def@));
                    }
                },
                None => {},
            }
            i = i + 1;
        }
        assert(all.take(i as int) =~= all);
        defs
    }

    /// Whether any tool is deferred (so that the loop offers tool search).
    #[must_use]
    pub fn has_deferred(&self) -> (deferred: bool)
        ensures
            deferred == any_deferred(self@),
    {
        let count: usize = entry_count(&self.entries);
        let mut i: usize = 0;
        while i < count
            invariant
                i <= count,
                count == self@.len(),
                count == registered(self.entries).len(),
                forall|j: int| 0 <= j < i ==> !(#[trigger] self@[j]).1.deferred,
            decreases count - i,
        {
            match entry_at(&self.entries, i) {
                Some(entry) => {
                    assert(self@[i as int] == (entry.0@, entry.1@));
                    if entry.1.deferred {
                        return true;
                    }
                },
                None => {},
            }
            i = i + 1;
        }
        false
    }

    /// Marks a tool active; returns whether there is one of that name.
    pub fn activate(&mut self, name: &str) -> (found: bool)
        ensures
            match collections::lookup(old(self)@, name@) {
                Some(entry) => found && final(self)@ == collections::with_entry(
                    old(self)@,
                    name@,
                    ToolEntryView { deferred: false, ..entry },
                ),
                None => !found && final(self)@ == old(self)@,
            },
    {
        let ghost before = registered(self.entries);
        proof {
            lemma_view_position(before, name@);
        }
        match entry_mut(&mut self.entries, name) {
            Some(entry) => {
                entry.deferred = false;
                proof {
                    let changed = *entry;
                    lemma_view_with_entry(before, name@, changed);
                }
                true
            },
            None => false,
        }
    }

    /// Reports the deferred tools in whose lower-cased text the query stands.
    pub fn report_found(&self, lowered: &Vec<String>, query: &str) -> (hits: Vec<(String, String)>)
        requires
            lowered@.len() == self@.len(),
        ensures
            hit_views(hits@) == found(self@, views::each(lowered@), query@),
    {
        let ghost all = self@;
        let ghost low = views::each(lowered@);
        let mut hits: Vec<(String, String)> = Vec::new();
        let count: usize = entry_count(&self.entries);
        let mut i: usize = 0;
        assert(hit_views(hits@) =~= found(all.take(0), low, query@));
        while i < count
            invariant
                i <= count,
                all == self@,
                low == views::each(lowered@),
                lowered@.len() == count,
                count == all.len(),
                count == registered(self.entries).len(),
                hit_views(hits@) == found(all.take(i as int), low, query@),
            decreases count - i,
        {
            let ghost before = hits@;
            assert(all.take(i + 1).drop_last() =~= all.take(i as int));
            assert(low[i as int] == lowered@[i as int]@);
            match entry_at(&self.entries, i) {
                Some(entry) => {
                    assert(all[i as int] == (entry.0@, entry.1@));
                    if entry.1.deferred && contains_text(lowered[i].as_str(), query) {
                        hits.push((entry.0.clone(), entry.1.def.description.clone()));
                        assert(hit_views(hits@) =~= hit_views(before).push(
                            (entry.0@, entry.1@.def.description),
                        ));
                    }
                },
                None => {},
            }
            i = i + 1;
        }
        assert(all.take(i as int) =~= all);
        hits
    }

    /// Searches the deferred tools by case-insensitive substring over name,
    /// description and tags.
    #[must_use]
    pub fn search(&self, query: &str) -> (hits: Vec<(String, String)>)
        ensures
            hit_views(hits@) == found(self@, lowered_texts(self@), text::lowercase(query@)),
    {
        let q = to_lowercase(query);
        let mut lowered: Vec<String> = Vec::new();
        let count: usize = entry_count(&self.entries);
        let mut i: usize = 0;
        while i < count
            invariant
                i <= count,
                count == self@.len(),
                count == registered(self.entries).len(),
                lowered@.len() == i,
                forall|j: int| 0 <= j < i ==> (#[trigger] lowered@[j])@ == lowered_texts(self@)[j],
            decreases count - i,
        {
            match entry_at(&self.entries, i) {
                Some(entry) => {
                    assert(self@[i as int] == (entry.0@, entry.1@));
                    let mut searched = entry.0.clone();
                    searched.append(" ");
                    searched.append(entry.1.def.description.as_str());
                    searched.append(" ");
                    searched.append(join(&entry.1.tags, " ").as_str());
                    lowered.push(to_lowercase(searched.as_str()));
                },
                None => {},
            }
            i = i + 1;
        }
        assert(views::each(lowered@) =~= lowered_texts(self@));
        self.report_found(&lowered, q.as_str())
    }
}

/// A tool that was registered is the one that its name finds, and the others
/// are found as before.
pub proof fn a_registered_tool_is_found(
    entries: Seq<(Seq<char>, ToolEntryView)>,
    entry: ToolEntryView,
    other: Seq<char>,
)
    ensures
        collections::lookup(
            collections::with_entry(entries, entry.def.name, entry),
            entry.def.name,
        ) == Some(entry),
        other != entry.def.name ==> collections::lookup(
            collections::with_entry(entries, entry.def.name, entry),
            other,
        ) == collections::lookup(entries, other),
{
    collections::a_set_key_reads_back(entries, entry.def.name, entry, other);
}

/// Whether every name stands once.
pub open spec fn names_differ(entries: Seq<(Seq<char>, ToolEntryView)>) -> bool {
    forall|i: int, j: int|
        0 <= i < j < entries.len() ==> (#[trigger] entries[i]).0 != (#[trigger] entries[j]).0
}

/// Registering and removing tools keeps every name single.
pub proof fn names_stay_apart(
    entries: Seq<(Seq<char>, ToolEntryView)>,
    name: Seq<char>,
    entry: ToolEntryView,
)
    requires
        names_differ(entries),
    ensures
        names_differ(collections::with_entry(entries, name, entry)),
        names_differ(collections::without_entry(entries, name)),
        collections::lookup(collections::without_entry(entries, name), name) is None,
{
    collections::lemma_position(entries, name);
    let without = collections::without_entry(entries, name);
    if collections::position(entries, name) is Some {
        let at = collections::position(entries, name)->0;
        assert forall|j: int| 0 <= j < without.len() implies (#[trigger] without[j]).0 != name by {
            if j < at {
                assert(without[j] == entries[j]);
            } else {
                assert(without[j] == entries[j + 1]);
            }
        }
        assert forall|i: int, j: int| 0 <= i < j < without.len() implies (#[trigger] without[i]).0
            != (#[trigger] without[j]).0 by {
            let k = if i < at { i } else { i + 1 };
            let m = if j < at { j } else { j + 1 };
            assert(without[i] == entries[k]);
            assert(without[j] == entries[m]);
        }
    }
    collections::lemma_position(without, name);
}

/// A search reports exactly the deferred tools in whose searched text the query
/// stands.
pub proof fn a_search_reports_the_deferred_matches(
    entries: Seq<(Seq<char>, ToolEntryView)>,
    lowered: Seq<Seq<char>>,
    query: Seq<char>,
)
    ensures
        forall|k: int|
            0 <= k < found(entries, lowered, query).len() ==> exists|i: int|
                {
                    &&& 0 <= i < entries.len()
                    &&& (#[trigger] entries[i]).1.deferred
                    &&& text::holds_text(lowered[i], query)
                    &&& #[trigger] found(entries, lowered, query)[k] == (
                        entries[i].0,
                        entries[i].1.def.description,
                    )
                },
        forall|i: int|
            0 <= i < entries.len() && (#[trigger] entries[i]).1.deferred && text::holds_text(
                lowered[i],
                query,
            ) ==> found(entries, lowered, query).contains(
                (entries[i].0, entries[i].1.def.description),
            ),
    decreases entries.len(),
{
    let hits = found(entries, lowered, query);
    if entries.len() > 0 {
        let shorter = entries.drop_last();
        let before = found(shorter, lowered, query);
        a_search_reports_the_deferred_matches(shorter, lowered, query);
        let last = entries.len() - 1;
        assert forall|k: int| 0 <= k < hits.len() implies exists|i: int|
            {
                &&& 0 <= i < entries.len()
                &&& (#[trigger] entries[i]).1.deferred
                &&& text::holds_text(lowered[i], query)
                &&& #[trigger] hits[k] == (entries[i].0, entries[i].1.def.description)
            } by {
            if k < before.len() {
                assert(hits[k] == before[k]);
                let i = choose|i: int|
                    {
                        &&& 0 <= i < shorter.len()
                        &&& (#[trigger] shorter[i]).1.deferred
                        &&& text::holds_text(lowered[i], query)
                        &&& before[k] == (shorter[i].0, shorter[i].1.def.description)
                    };
                assert(entries[i] == shorter[i]);
            } else {
                assert(entries[last].1.deferred);
            }
        }
        assert forall|i: int|
            0 <= i < entries.len() && (#[trigger] entries[i]).1.deferred && text::holds_text(
                lowered[i],
                query,
            ) implies hits.contains((entries[i].0, entries[i].1.def.description)) by {
            let hit = (entries[i].0, entries[i].1.def.description);
            if i < last {
                assert(shorter[i] == entries[i]);
                assert(before.contains(hit));
                let k = choose|k: int| 0 <= k < before.len() && before[k] == hit;
                assert(hits[k] == hit);
            } else {
                assert(hits[before.len() as int] == hit);
            }
        }
    }
}

proof fn lemma_active_holds(entries: Seq<(Seq<char>, ToolEntryView)>, i: int)
    requires
        0 <= i < entries.len(),
        !entries[i].1.deferred,
    ensures
        active(entries).contains(entries[i].1.def),
    decreases entries.len(),
{
    let shorter = entries.drop_last();
    let before = active(shorter);
    if i < shorter.len() {
        lemma_active_holds(shorter, i);
        let k = choose|k: int| 0 <= k < before.len() && before[k] == entries[i].1.def;
        assert(active(entries)[k] == entries[i].1.def);
    } else {
        assert(active(entries)[before.len() as int] == entries[i].1.def);
    }
}

/// An activated tool is offered from then on, and no search surfaces it again.
pub proof fn an_activated_tool_is_offered(
    entries: Seq<(Seq<char>, ToolEntryView)>,
    name: Seq<char>,
    entry: ToolEntryView,
    lowered: Seq<Seq<char>>,
    query: Seq<char>,
)
    requires
        names_differ(entries),
        collections::lookup(entries, name) == Some(entry),
    ensures
        ({
            let after = collections::with_entry(
                entries,
                name,
                ToolEntryView { deferred: false, ..entry },
            );
            &&& active(after).contains(entry.def)
            &&& forall|k: int|
                0 <= k < found(after, lowered, query).len() ==> (#[trigger] found(
                    after,
                    lowered,
                    query,
                )[k]).0 != name
        }),
{
    let after = collections::with_entry(entries, name, ToolEntryView { deferred: false, ..entry });
    let hits = found(after, lowered, query);
    collections::lemma_position(entries, name);
    let at = collections::position(entries, name)->0;
    assert(!after[at].1.deferred);
    lemma_active_holds(after, at);
    a_search_reports_the_deferred_matches(after, lowered, query);
    assert forall|k: int| 0 <= k < hits.len() implies (#[trigger] hits[k]).0 != name by {
        let i = choose|i: int|
            {
                &&& 0 <= i < after.len()
                &&& (#[trigger] after[i]).1.deferred
                &&& text::holds_text(lowered[i], query)
                &&& hits[k] == (after[i].0, after[i].1.def.description)
            };
        assert(i != at);
        assert(after[i] == entries[i]);
        assert(entries[at].0 == name);
    }
}

/// With nothing deferred every tool is offered and a search finds none.
pub proof fn without_deferral_every_tool_is_offered(
    entries: Seq<(Seq<char>, ToolEntryView)>,
    lowered: Seq<Seq<char>>,
    query: Seq<char>,
)
    requires
        !any_deferred(entries),
    ensures
        found(entries, lowered, query).len() == 0,
        active(entries) == entries.map_values(|e: (Seq<char>, ToolEntryView)| e.1.def),
    decreases entries.len(),
{
    if entries.len() > 0 {
        let shorter = entries.drop_last();
        assert forall|i: int| 0 <= i < shorter.len() implies !(#[trigger] shorter[i]).1.deferred by {
            assert(!entries[i].1.deferred);
        }
        without_deferral_every_tool_is_offered(shorter, lowered, query);
        assert(!entries[entries.len() - 1].1.deferred);
    }
    assert(active(entries) =~= entries.map_values(|e: (Seq<char>, ToolEntryView)| e.1.def));
}

/// The tools that are not deferred are offered, in order, and no other.
pub proof fn the_active_tools_are_offered_in_order(entries: Seq<(Seq<char>, ToolEntryView)>)
    ensures
        active(entries) == entries.filter(
            |e: (Seq<char>, ToolEntryView)| !e.1.deferred,
        ).map_values(|e: (Seq<char>, ToolEntryView)| e.1.def),
    decreases entries.len(),
{
    reveal(Seq::filter);
    if entries.len() > 0 {
        the_active_tools_are_offered_in_order(entries.drop_last());
    }
    assert(active(entries) =~= entries.filter(
        |e: (Seq<char>, ToolEntryView)| !e.1.deferred,
    ).map_values(|e: (Seq<char>, ToolEntryView)| e.1.def));
}

/// A search looks for a tool in its name, its description and each of its tags.
pub proof fn a_tool_is_searched_by_all_that_names_it(
    entries: Seq<(Seq<char>, ToolEntryView)>,
    i: int,
    tag: int,
)
    requires
        0 <= i < entries.len(),
    ensures
        lowered_texts(entries).len() == entries.len(),
        lowered_texts(entries)[i] == text::lowercase(searched_text(entries[i].0, entries[i].1)),
        text::holds_text(searched_text(entries[i].0, entries[i].1), entries[i].0),
        text::holds_text(
            searched_text(entries[i].0, entries[i].1),
            entries[i].1.def.description,
        ),
        0 <= tag < entries[i].1.tags.len() ==> text::holds_text(
            searched_text(entries[i].0, entries[i].1),
            entries[i].1.tags[tag],
        ),
{
    let name = entries[i].0;
    let entry = entries[i].1;
    let none = Seq::<char>::empty();
    let tags = text::joined(entry.tags, " "@);
    let rest = " "@ + entry.def.description + " "@ + tags;
    text::a_text_holds_its_parts(none, name, rest);
    assert(name + rest =~= searched_text(name, entry));
    text::a_text_holds_its_parts(name + " "@, entry.def.description, " "@ + tags);
    assert(name + " "@ + entry.def.description + (" "@ + tags) =~= searched_text(name, entry));
    if 0 <= tag < entry.tags.len() {
        text::a_joined_text_holds_every_part(entry.tags, " "@, tag);
        text::what_a_part_holds_the_text_holds(
            name + " "@ + entry.def.description + " "@,
            tags,
            none,
            entry.tags[tag],
        );
    }
}

/// A search reports its matches in order of registration, each once, with its name
/// and its description.
pub proof fn a_search_reports_in_order(
    entries: Seq<(Seq<char>, ToolEntryView)>,
    lowered: Seq<Seq<char>>,
    query: Seq<char>,
)
    ensures
        found(entries, lowered, query) == Seq::new(entries.len(), |i: int| i).filter(
            |i: int| entries[i].1.deferred && text::holds_text(lowered[i], query),
        ).map_values(|i: int| (entries[i].0, entries[i].1.def.description)),
{
    lemma_found_by_position(entries, entries.len() as int, lowered, query);
    assert(entries.take(entries.len() as int) =~= entries);
}

proof fn lemma_found_by_position(
    entries: Seq<(Seq<char>, ToolEntryView)>,
    n: int,
    lowered: Seq<Seq<char>>,
    query: Seq<char>,
)
    requires
        0 <= n <= entries.len(),
    ensures
        found(entries.take(n), lowered, query) == Seq::new(n as nat, |i: int| i).filter(
            |i: int| entries[i].1.deferred && text::holds_text(lowered[i], query),
        ).map_values(|i: int| (entries[i].0, entries[i].1.def.description)),
    decreases n,
{
    reveal(Seq::filter);
    if n > 0 {
        lemma_found_by_position(entries, n - 1, lowered, query);
        assert(entries.take(n).drop_last() =~= entries.take(n - 1));
        assert(Seq::new(n as nat, |i: int| i).drop_last() =~= Seq::new(
            (n - 1) as nat,
            |i: int| i,
        ));
    }
    assert(found(entries.take(n), lowered, query) =~= Seq::new(n as nat, |i: int| i).filter(
        |i: int| entries[i].1.deferred && text::holds_text(lowered[i], query),
    ).map_values(|i: int| (entries[i].0, entries[i].1.def.description)));
}

} // verus!
