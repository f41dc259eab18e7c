use mod_manager::settings::{reconcile_entries, reconcile_settings, ModEntry, ModProperty, SettingsData, TopLevelProperty};

fn prop(name: &str, value: Option<&str>) -> ModProperty {
    ModProperty { name: name.to_string(), value: value.map(|v| v.to_string()) }
}

fn entry(index: &str, mod_name: Option<&str>, priority: &str) -> ModEntry {
    let mut properties = vec![prop("Enabled", Some("true"))];
    if let Some(n) = mod_name {
        properties.push(prop("Name", Some(n)));
    }
    properties.push(prop("ModPriority", Some(priority)));
    ModEntry {
        entry_name: "Data".to_string(),
        entry_value: "GcModSettingsInfo".to_string(),
        index: index.to_string(),
        properties,
    }
}

fn document(mods: Vec<ModEntry>) -> SettingsData {
    SettingsData {
        template: "GcModSettings".to_string(),
        properties: vec![
            TopLevelProperty { name: "DisableAllMods".to_string(), value: Some("false".to_string()), mods: vec![] },
            TopLevelProperty { name: "Data".to_string(), value: None, mods },
        ],
    }
}

fn name_of(e: &ModEntry) -> Option<String> {
    e.properties.iter().find(|p| p.name == "Name").and_then(|p| p.value.clone())
}

fn priority_of(e: &ModEntry) -> Option<String> {
    e.properties.iter().find(|p| p.name == "ModPriority").and_then(|p| p.value.clone())
}

fn summary(doc: &SettingsData) -> Vec<(String, Option<String>, Option<String>)> {
    doc.properties[1].mods.iter().map(|e| (e.index.clone(), name_of(e), priority_of(e))).collect()
}

#[test]
fn deleting_middle_entry_renumbers_the_rest() {
    let doc = document(vec![entry("0", Some("Alpha"), "0"), entry("1", Some("fOO"), "1"), entry("2", Some("Gamma"), "2")]);
    let out = reconcile_settings(doc, "Foo");
    assert_eq!(
        summary(&out),
        vec![
            ("0".to_string(), Some("Alpha".to_string()), Some("0".to_string())),
            ("1".to_string(), Some("Gamma".to_string()), Some("1".to_string())),
        ]
    );
    assert_eq!(out.template, "GcModSettings");
    assert_eq!(out.properties[0].name, "DisableAllMods");
    assert_eq!(out.properties[0].value.as_deref(), Some("false"));
}

#[test]
fn reconciling_twice_changes_nothing_more() {
    let doc = document(vec![entry("0", Some("Alpha"), "0"), entry("1", Some("Foo"), "1"), entry("2", Some("Gamma"), "2")]);
    let once = reconcile_settings(doc, "foo");
    let first = summary(&once);
    let twice = reconcile_settings(once, "foo");
    assert_eq!(summary(&twice), first);
}

#[test]
fn absent_name_keeps_every_entry() {
    let doc = document(vec![entry("0", Some("Alpha"), "0"), entry("1", Some("Beta"), "1")]);
    let before = summary(&doc);
    let out = reconcile_settings(doc, "Nope");
    assert_eq!(summary(&out), before);
}

#[test]
fn stale_indices_are_renumbered_from_zero() {
    let doc = document(vec![entry("4", Some("Alpha"), "7"), entry("9", Some("Beta"), "3")]);
    let out = reconcile_settings(doc, "Nope");
    assert_eq!(
        summary(&out),
        vec![
            ("0".to_string(), Some("Alpha".to_string()), Some("0".to_string())),
            ("1".to_string(), Some("Beta".to_string()), Some("1".to_string())),
        ]
    );
}

#[test]
fn entries_without_name_are_kept() {
    let mut nameless = entry("0", None, "0");
    nameless.properties.push(prop("Name", None));
    let doc = document(vec![entry("0", None, "0"), entry("1", Some("Foo"), "1")]);
    let out = reconcile_settings(doc, "Foo");
    assert_eq!(summary(&out), vec![("0".to_string(), None, Some("0".to_string()))]);
    let out2 = reconcile_entries(vec![nameless], "Foo");
    assert_eq!(out2.len(), 1);
}

#[test]
fn all_matching_entries_are_removed() {
    let mods = vec![entry("0", Some("FOO"), "0"), entry("1", Some("Bar"), "1"), entry("2", Some("foo"), "2")];
    let out = reconcile_entries(mods, "Foo");
    assert_eq!(out.len(), 1);
    assert_eq!(name_of(&out[0]).as_deref(), Some("Bar"));
    assert_eq!(out[0].index, "0");
    assert_eq!(priority_of(&out[0]).as_deref(), Some("0"));
}

#[test]
fn only_first_name_property_counts() {
    let mut e = entry("0", Some("Other"), "0");
    e.properties.push(prop("Name", Some("Foo")));
    let out = reconcile_entries(vec![e], "Foo");
    assert_eq!(out.len(), 1);
}

#[test]
fn entry_without_priority_gets_only_index() {
    let e = ModEntry {
        entry_name: "Data".to_string(),
        entry_value: "GcModSettingsInfo".to_string(),
        index: "5".to_string(),
        properties: vec![prop("Name", Some("Solo"))],
    };
    let out = reconcile_entries(vec![e], "x");
    assert_eq!(out[0].index, "0");
    assert_eq!(out[0].properties.len(), 1);
    assert_eq!(priority_of(&out[0]), None);
}

#[test]
fn large_positions_are_written_in_decimal() {
    let mods: Vec<ModEntry> = (0..12).map(|i| entry("0", Some(&format!("M{}", i)), "0")).collect();
    let out = reconcile_entries(mods, "none");
    assert_eq!(out[11].index, "11");
    assert_eq!(priority_of(&out[10]).as_deref(), Some("10"));
}

#[test]
fn only_first_data_property_is_touched() {
    let mut doc = document(vec![entry("0", Some("Foo"), "0")]);
    doc.properties.push(TopLevelProperty { name: "Data".to_string(), value: None, mods: vec![entry("3", Some("Foo"), "3")] });
    let out = reconcile_settings(doc, "foo");
    assert_eq!(out.properties[1].mods.len(), 0);
    assert_eq!(out.properties[2].mods.len(), 1);
    assert_eq!(out.properties[2].mods[0].index, "3");
}
