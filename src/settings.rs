//! The mod settings document: its model, and the reconciliation that drops the
//! entries of a deleted mod and renumbers the rest.
use vstd::prelude::*;
use crate::decimal::{decimal, decimal_of};
use crate::names::{names_match, same_name, texts_equal};

verus! {

/// A named property with an optional value.
pub struct ModProperty {
    pub name: String,
    pub value: Option<String>,
}

/// One mod's entry in the ordered list of mods.
pub struct ModEntry {
    pub entry_name: String,
    pub entry_value: String,
    pub index: String,
    pub properties: Vec<ModProperty>,
}

/// A property at the top of the document; the one named `Data` holds the mod entries.
pub struct TopLevelProperty {
    pub name: String,
    pub value: Option<String>,
    pub mods: Vec<ModEntry>,
}

/// The whole settings document.
pub struct SettingsData {
    pub template: String,
    pub properties: Vec<TopLevelProperty>,
}

/// A property as plain text.
pub struct PropertyView {
    pub name: Seq<char>,
    pub value: Option<Seq<char>>,
}

/// A mod entry as plain text.
pub struct EntryView {
    pub entry_name: Seq<char>,
    pub entry_value: Seq<char>,
    pub index: Seq<char>,
    pub properties: Seq<PropertyView>,
}

/// A top-level property as plain text.
pub struct TopLevelView {
    pub name: Seq<char>,
    pub value: Option<Seq<char>>,
    pub mods: Seq<EntryView>,
}

/// The whole document as plain text.
pub struct SettingsView {
    pub template: Seq<char>,
    pub properties: Seq<TopLevelView>,
}

/// The text of an optional value.
pub open spec fn text_option_view(o: Option<String>) -> Option<Seq<char>> {
    match o {
        Some(s) => Some(s@),
        None => None,
    }
}

impl View for ModProperty {
    type V = PropertyView;

    open spec fn view(&self) -> PropertyView {
        PropertyView { name: self.name@, value: text_option_view(self.value) }
    }
}

pub open spec fn properties_view(s: Seq<ModProperty>) -> Seq<PropertyView> {
    s.map_values(|p: ModProperty| p@)
}

impl View for ModEntry {
    type V = EntryView;

    open spec fn view(&self) -> EntryView {
        EntryView {
            entry_name: self.entry_name@,
            entry_value: self.entry_value@,
            index: self.index@,
            properties: properties_view(self.properties@),
        }
    }
}

pub open spec fn entries_view(s: Seq<ModEntry>) -> Seq<EntryView> {
    s.map_values(|e: ModEntry| e@)
}

impl View for TopLevelProperty {
    type V = TopLevelView;

    open spec fn view(&self) -> TopLevelView {
        TopLevelView {
            name: self.name@,
            value: text_option_view(self.value),
            mods: entries_view(self.mods@),
        }
    }
}

pub open spec fn top_level_view(s: Seq<TopLevelProperty>) -> Seq<TopLevelView> {
    s.map_values(|p: TopLevelProperty| p@)
}

impl View for SettingsData {
    type V = SettingsView;

    open spec fn view(&self) -> SettingsView {
        SettingsView { template: self.template@, properties: top_level_view(self.properties@) }
    }
}

pub open spec fn name_key() -> Seq<char> {
    seq!['N', 'a', 'm', 'e']
}

pub open spec fn priority_key() -> Seq<char> {
    seq!['M', 'o', 'd', 'P', 'r', 'i', 'o', 'r', 'i', 't', 'y']
}

pub open spec fn data_key() -> Seq<char> {
    seq!['D', 'a', 't', 'a']
}

/// `i` is the position of the first property called `key`.
pub open spec fn is_first_named(props: Seq<PropertyView>, key: Seq<char>, i: int) -> bool {
    &&& 0 <= i < props.len()
    &&& props[i].name == key
    &&& forall|j: int| 0 <= j < i ==> props[j].name != key
}

/// `i` is the position of the first top-level property called `Data`.
pub open spec fn is_first_data(props: Seq<TopLevelView>, i: int) -> bool {
    &&& 0 <= i < props.len()
    &&& props[i].name == data_key()
    &&& forall|j: int| 0 <= j < i ==> props[j].name != data_key()
}

/// The entry's first `Name` property has a value that is `target` up to ASCII case.
pub open spec fn names_mod(e: EntryView, target: Seq<char>) -> bool {
    exists|i: int|
        #[trigger] is_first_named(e.properties, name_key(), i) && match e.properties[i].value {
            Some(v) => same_name(v, target),
            None => false,
        }
}

/// The entries that do not name `target`, in their order.
pub open spec fn kept_entries(s: Seq<EntryView>, target: Seq<char>) -> Seq<EntryView>
    decreases s.len(),
{
    if s.len() == 0 {
        s
    } else {
        let k = kept_entries(s.drop_last(), target);
        if names_mod(s.last(), target) {
            k
        } else {
            k.push(s.last())
        }
    }
}

/// The properties with the value of the first `ModPriority` property set to `v`.
pub open spec fn with_priority(props: Seq<PropertyView>, v: Seq<char>) -> Seq<PropertyView> {
    Seq::new(
        props.len(),
        |i: int|
            if is_first_named(props, priority_key(), i) {
                PropertyView { name: props[i].name, value: Some(v) }
            } else {
                props[i]
            },
    )
}

/// The entry placed at position `i`: its index and its priority become `i`.
pub open spec fn renumbered(e: EntryView, i: nat) -> EntryView {
    EntryView {
        entry_name: e.entry_name,
        entry_value: e.entry_value,
        index: decimal_of(i),
        properties: with_priority(e.properties, decimal_of(i)),
    }
}

/// Every entry renumbered by its position.
pub open spec fn renumber_all(s: Seq<EntryView>) -> Seq<EntryView> {
    Seq::new(s.len(), |i: int| renumbered(s[i], i as nat))
}

/// The mod entries once those naming `target` are gone and the rest renumbered.
pub open spec fn reconciled_entries(s: Seq<EntryView>, target: Seq<char>) -> Seq<EntryView> {
    renumber_all(kept_entries(s, target))
}

/// The document once the first `Data` property's entries are reconciled.
pub open spec fn reconciled(doc: SettingsView, target: Seq<char>) -> SettingsView {
    SettingsView {
        template: doc.template,
        properties: Seq::new(
            doc.properties.len(),
            |i: int|
                if is_first_data(doc.properties, i) {
                    TopLevelView {
                        name: doc.properties[i].name,
                        value: doc.properties[i].value,
                        mods: reconciled_entries(doc.properties[i].mods, target),
                    }
                } else {
                    doc.properties[i]
                },
        ),
    }
}
fn is_name_key(s: &String) -> (r: bool)
    ensures
        r == (s@ == name_key()),
{
    proof {
        reveal_strlit("Name");
        assert("Name"@ =~= name_key());
    }
    texts_equal(s.as_str(), "Name")
}

fn is_priority_key(s: &String) -> (r: bool)
    ensures
        r == (s@ == priority_key()),
{
    proof {
        reveal_strlit("ModPriority");
        assert("ModPriority"@ =~= priority_key());
    }
    texts_equal(s.as_str(), "ModPriority")
}

fn is_data_key(s: &String) -> (r: bool)
    ensures
        r == (s@ == data_key()),
{
    proof {
        reveal_strlit("Data");
        assert("Data"@ =~= data_key());
    }
    texts_equal(s.as_str(), "Data")
}

/// Whether the entry's first `Name` property names `target`, up to ASCII case.
pub fn entry_names_mod(e: &ModEntry, target: &str) -> (r: bool)
    ensures
        r == names_mod(e@, target@),
{
    let props = &e.properties;
    let ghost pv = properties_view(props@);
    let mut j: usize = 0;
    while j < props.len()
        invariant
            pv == properties_view(props@),
            pv == e@.properties,
            j <= props.len(),
            forall|k: int| 0 <= k < j ==> pv[k].name != name_key(),
        decreases props.len() - j,
    {
        if is_name_key(&props[j].name) {
            assert(is_first_named(pv, name_key(), j as int));
            assert forall|i: int| #[trigger] is_first_named(pv, name_key(), i) implies i == j by {
                if i < j {
                    assert(pv[i].name != name_key());
                } else if i > j {
                    assert(pv[j as int].name != name_key());
                }
            }
            match &props[j].value {
                Some(v) => {
                    return names_match(v.as_str(), target);
                },
                None => {
                    return false;
                },
            }
        }
        j = j + 1;
    }
    assert forall|i: int| !(#[trigger] is_first_named(pv, name_key(), i)) by {
        if 0 <= i < pv.len() {
            assert(pv[i].name != name_key());
        }
    }
    false
}

/// Sets the value of the first `ModPriority` property to `v`.
fn set_priority(props: Vec<ModProperty>, v: &String) -> (r: Vec<ModProperty>)
    ensures
        properties_view(r@) == with_priority(properties_view(props@), v@),
{
    let ghost orig = properties_view(props@);
    let n = props.len();
    let mut src = props;
    let mut out: Vec<ModProperty> = Vec::new();
    let mut found = false;
    let mut i: usize = 0;
    while i < n
        invariant
            n == orig.len(),
            i <= n,
            src@.len() + i == n,
            out@.len() == i,
            forall|k: int| 0 <= k < src@.len() ==> #[trigger] src@[k]@ == orig[i + k],
            forall|k: int| 0 <= k < i ==> #[trigger] out@[k]@ == with_priority(orig, v@)[k],
            found <==> exists|k: int| 0 <= k < i && #[trigger] orig[k].name == priority_key(),
        decreases n - i,
    {
        let mut p = src.remove(0);
        assert(p@ == orig[i as int]);
        let ghost was_found = found;
        if !found && is_priority_key(&p.name) {
            assert(is_first_named(orig, priority_key(), i as int));
            p.value = Some(v.clone());
            found = true;
        } else {
            assert(!is_first_named(orig, priority_key(), i as int));
        }
        assert(p@ == with_priority(orig, v@)[i as int]);
        out.push(p);
        assert(found <==> exists|k: int| 0 <= k < i + 1 && #[trigger] orig[k].name == priority_key()) by {
            if was_found {
                let k = choose|k: int| 0 <= k < i && #[trigger] orig[k].name == priority_key();
                assert(0 <= k < i + 1 && orig[k].name == priority_key());
            }
        }
        i = i + 1;
    }
    assert(properties_view(out@) =~= with_priority(orig, v@));
    out
}

fn renumber(e: ModEntry, i: u64) -> (r: ModEntry)
    ensures
        r@ == renumbered(e@, i as nat),
{
    let text = decimal(i);
    let properties = set_priority(e.properties, &text);
    ModEntry { entry_name: e.entry_name, entry_value: e.entry_value, index: text, properties }
}

/// Drops every entry whose first `Name` property names `target` (up to ASCII
/// case) and renumbers the remaining entries from zero, in their order.
pub fn reconcile_entries(mods: Vec<ModEntry>, target: &str) -> (r: Vec<ModEntry>)
    ensures
        entries_view(r@) == reconciled_entries(entries_view(mods@), target@),
{
    let ghost orig = entries_view(mods@);
    let n = mods.len();
    let mut src = mods;
    let mut kept: Vec<ModEntry> = Vec::new();
    let mut i: usize = 0;
    while i < n
        invariant
            n == orig.len(),
            i <= n,
            src@.len() + i == n,
            forall|k: int| 0 <= k < src@.len() ==> #[trigger] src@[k]@ == orig[i + k],
            entries_view(kept@) == kept_entries(orig.subrange(0, i as int), target@),
        decreases n - i,
    {
        let e = src.remove(0);
        assert(e@ == orig[i as int]);
        let ghost before = kept@;
        assert(orig.subrange(0, i + 1).drop_last() =~= orig.subrange(0, i as int));
        if !entry_names_mod(&e, target) {
            kept.push(e);
            assert(entries_view(kept@) =~= entries_view(before).push(orig[i as int]));
        }
        i = i + 1;
    }
    assert(orig.subrange(0, n as int) =~= orig);
    let ghost kv = entries_view(kept@);
    let m = kept.len();
    let mut rest = kept;
    let mut out: Vec<ModEntry> = Vec::new();
    let mut j: usize = 0;
    while j < m
        invariant
            m == kv.len(),
            j <= m,
            rest@.len() + j == m,
            out@.len() == j,
            forall|k: int| 0 <= k < rest@.len() ==> #[trigger] rest@[k]@ == kv[j + k],
            forall|k: int| 0 <= k < j ==> #[trigger] out@[k]@ == renumbered(kv[k], k as nat),
        decreases m - j,
    {
        let e = rest.remove(0);
        assert(e@ == kv[j as int]);
        let r = renumber(e, j as u64);
        out.push(r);
        j = j + 1;
    }
    assert(entries_view(out@) =~= renumber_all(kv));
    out
}

/// Reconciles the document after the mod `mod_name` is deleted: in the first
/// top-level property called `Data`, the entries naming the mod are dropped
/// and the rest renumbered; everything else is kept as it is.
pub fn reconcile_settings(doc: SettingsData, mod_name: &str) -> (r: SettingsData)
    ensures
        r@ == reconciled(doc@, mod_name@),
{
    let ghost orig = top_level_view(doc.properties@);
    let ghost dv = doc@;
    let ghost goal = reconciled(dv, mod_name@).properties;
    let n = doc.properties.len();
    let mut src = doc.properties;
    let mut out: Vec<TopLevelProperty> = Vec::new();
    let mut done = false;
    let mut i: usize = 0;
    while i < n
        invariant
            n == orig.len(),
            i <= n,
            src@.len() + i == n,
            out@.len() == i,
            forall|k: int| 0 <= k < src@.len() ==> #[trigger] src@[k]@ == orig[i + k],
            forall|k: int| 0 <= k < i ==> #[trigger] out@[k]@ == goal[k],
            dv.properties == orig,
            goal == reconciled(dv, mod_name@).properties,
            done <==> exists|k: int| 0 <= k < i && #[trigger] orig[k].name == data_key(),
        decreases n - i,
    {
        let p = src.remove(0);
        assert(p@ == orig[i as int]);
        let ghost was_done = done;
        if !done && is_data_key(&p.name) {
            assert(is_first_data(orig, i as int));
            let mods = reconcile_entries(p.mods, mod_name);
            let q = TopLevelProperty { name: p.name, value: p.value, mods };
            assert(q@ == goal[i as int]);
            out.push(q);
            done = true;
        } else {
            assert(!is_first_data(orig, i as int));
            out.push(p);
        }
        assert(done <==> exists|k: int| 0 <= k < i + 1 && #[trigger] orig[k].name == data_key()) by {
            if was_done {
                let k = choose|k: int| 0 <= k < i && #[trigger] orig[k].name == data_key();
                assert(0 <= k < i + 1 && orig[k].name == data_key());
            }
        }
        i = i + 1;
    }
    let r = SettingsData { template: doc.template, properties: out };
    assert(r@.properties =~= goal);
    r
}

} // verus!
