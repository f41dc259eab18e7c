//! Laws of the settings reconciliation.
use vstd::prelude::*;
use crate::decimal::decimal_of;
use crate::names::same_name;
use crate::settings::{
    data_key, is_first_data, is_first_named, kept_entries, name_key, names_mod, priority_key, reconciled,
    reconciled_entries, renumber_all, renumbered, with_priority, EntryView, PropertyView,
    SettingsView,
};

verus! {

/// No entry of `s` names `target`.
pub open spec fn none_named(s: Seq<EntryView>, target: Seq<char>) -> bool {
    forall|k: int| 0 <= k < s.len() ==> !names_mod(#[trigger] s[k], target)
}

proof fn lemma_keys_differ()
    ensures
        name_key() != priority_key(),
{
    assert(name_key().len() != priority_key().len());
}

proof fn lemma_with_priority_first(props: Seq<PropertyView>, v: Seq<char>, key: Seq<char>, i: int)
    ensures
        with_priority(props, v).len() == props.len(),
        is_first_named(with_priority(props, v), key, i) == is_first_named(props, key, i),
{
    let w = with_priority(props, v);
    assert forall|j: int| 0 <= j < props.len() implies #[trigger] w[j].name == props[j].name by {}
    if is_first_named(props, key, i) {
        assert forall|j: int| 0 <= j < i implies w[j].name != key by {
            assert(w[j].name == props[j].name);
        }
    }
    if is_first_named(w, key, i) {
        assert forall|j: int| 0 <= j < i implies props[j].name != key by {
            assert(w[j].name == props[j].name);
        }
    }
}

proof fn lemma_renumbered_names_mod(e: EntryView, n: nat, target: Seq<char>)
    ensures
        names_mod(renumbered(e, n), target) == names_mod(e, target),
{
    let p = e.properties;
    let w = renumbered(e, n).properties;
    lemma_keys_differ();
    assert forall|i: int| #[trigger] is_first_named(w, name_key(), i) <==> is_first_named(p, name_key(), i) by {
        lemma_with_priority_first(p, decimal_of(n), name_key(), i);
    }
    if names_mod(e, target) {
        let i = choose|i: int|
            #[trigger] is_first_named(p, name_key(), i) && match p[i].value {
                Some(v) => same_name(v, target),
                None => false,
            };
        assert(!is_first_named(p, priority_key(), i));
        assert(w[i] == p[i]);
        assert(is_first_named(w, name_key(), i));
    }
    if names_mod(renumbered(e, n), target) {
        let i = choose|i: int|
            #[trigger] is_first_named(w, name_key(), i) && match w[i].value {
                Some(v) => same_name(v, target),
                None => false,
            };
        assert(is_first_named(p, name_key(), i));
        assert(!is_first_named(p, priority_key(), i));
        assert(w[i] == p[i]);
    }
}

proof fn lemma_kept_none_named(s: Seq<EntryView>, target: Seq<char>)
    ensures
        none_named(kept_entries(s, target), target),
    decreases s.len(),
{
    if s.len() > 0 {
        lemma_kept_none_named(s.drop_last(), target);
    }
}

/// When no entry names `target`, every entry is kept.
proof fn lemma_kept_all(s: Seq<EntryView>, target: Seq<char>)
    requires
        none_named(s, target),
    ensures
        kept_entries(s, target) == s,
    decreases s.len(),
{
    if s.len() > 0 {
        assert(none_named(s.drop_last(), target)) by {
            assert forall|k: int| 0 <= k < s.drop_last().len() implies !names_mod(#[trigger] s.drop_last()[k], target) by {
                assert(s.drop_last()[k] == s[k]);
            }
        }
        lemma_kept_all(s.drop_last(), target);
        assert(!names_mod(s[s.len() - 1], target));
        assert(s.drop_last().push(s.last()) =~= s);
    }
}

proof fn lemma_renumber_all_none_named(s: Seq<EntryView>, target: Seq<char>)
    requires
        none_named(s, target),
    ensures
        none_named(renumber_all(s), target),
{
    assert forall|k: int| 0 <= k < renumber_all(s).len() implies !names_mod(#[trigger] renumber_all(s)[k], target) by {
        lemma_renumbered_names_mod(s[k], k as nat, target);
    }
}

proof fn lemma_renumber_all_idempotent(s: Seq<EntryView>)
    ensures
        renumber_all(renumber_all(s)) == renumber_all(s),
{
    let r = renumber_all(s);
    assert forall|k: int| 0 <= k < s.len() implies #[trigger] renumber_all(r)[k] == r[k] by {
        let p = s[k].properties;
        let d = decimal_of(k as nat);
        let w = with_priority(p, d);
        assert forall|j: int| 0 <= j < p.len() implies #[trigger] with_priority(w, d)[j] == w[j] by {
            lemma_with_priority_first(p, d, priority_key(), j);
        }
        assert(with_priority(w, d) =~= w);
    }
    assert(renumber_all(r) =~= r);
}

/// Reconciling the entries a second time for the same name changes nothing.
pub proof fn lemma_reconcile_entries_idempotent(s: Seq<EntryView>, target: Seq<char>)
    ensures
        reconciled_entries(reconciled_entries(s, target), target) == reconciled_entries(s, target),
{
    let k = kept_entries(s, target);
    let r = renumber_all(k);
    lemma_kept_none_named(s, target);
    lemma_renumber_all_none_named(k, target);
    lemma_kept_all(r, target);
    lemma_renumber_all_idempotent(k);
}

/// Reconciling a document a second time for the same mod name gives the same
/// document: a reconciliation with nothing left to remove is stable.
pub proof fn lemma_reconcile_idempotent(doc: SettingsView, target: Seq<char>)
    ensures
        reconciled(reconciled(doc, target), target) == reconciled(doc, target),
{
    let once = reconciled(doc, target);
    let p = doc.properties;
    let q = once.properties;
    assert forall|i: int| #[trigger] is_first_data(q, i) <==> is_first_data(p, i) by {
        assert forall|j: int| 0 <= j < p.len() implies #[trigger] q[j].name == p[j].name by {}
        if is_first_data(p, i) {
            assert forall|j: int| 0 <= j < i implies q[j].name != data_key() by {
                assert(q[j].name == p[j].name);
            }
        }
        if is_first_data(q, i) {
            assert forall|j: int| 0 <= j < i implies p[j].name != data_key() by {
                assert(q[j].name == p[j].name);
            }
        }
    }
    assert forall|i: int| 0 <= i < p.len() implies #[trigger] reconciled(once, target).properties[i] == q[i] by {
        if is_first_data(p, i) {
            lemma_reconcile_entries_idempotent(p[i].mods, target);
        }
    }
    assert(reconciled(once, target).properties =~= q);
}

/// Where no entry names `target`, reconciling only renumbers the entries.
pub proof fn lemma_absent_name_renumbers(s: Seq<EntryView>, target: Seq<char>)
    requires
        none_named(s, target),
    ensures
        reconciled_entries(s, target) == renumber_all(s),
{
    lemma_kept_all(s, target);
}

/// Where no entry of the `Data` property names `target` and its entries are
/// already numbered by position, reconciling leaves the document as it is.
pub proof fn lemma_absent_name_keeps_document(doc: SettingsView, target: Seq<char>)
    requires
        forall|i: int|
            #[trigger] is_first_data(doc.properties, i) ==> none_named(doc.properties[i].mods, target)
                && renumber_all(doc.properties[i].mods) == doc.properties[i].mods,
    ensures
        reconciled(doc, target) == doc,
{
    let p = doc.properties;
    assert forall|i: int| 0 <= i < p.len() implies #[trigger] reconciled(doc, target).properties[i] == p[i] by {
        if is_first_data(p, i) {
            lemma_kept_all(p[i].mods, target);
        }
    }
    assert(reconciled(doc, target).properties =~= p);
}

} // verus!
