use mod_manager::install::{plan_installation, resolve_steps, ExtractedEntry, InstallPlan, Placement, ResolveStep};

fn dir(name: &str) -> ExtractedEntry {
    ExtractedEntry { name: name.to_string(), is_dir: true }
}

fn file(name: &str) -> ExtractedEntry {
    ExtractedEntry { name: name.to_string(), is_dir: false }
}

fn names(v: &[&str]) -> Vec<String> {
    v.iter().map(|s| s.to_string()).collect()
}

fn placed(plan: InstallPlan) -> Vec<(String, Placement)> {
    match plan {
        InstallPlan::Messy => panic!("expected candidates"),
        InstallPlan::Placed(v) => v.into_iter().map(|p| (p.name, p.placement)).collect(),
    }
}

#[test]
fn single_new_folder_is_installed() {
    let plan = plan_installation(&vec![dir("CoolMod")], &names(&["Other"]));
    assert_eq!(placed(plan), vec![("CoolMod".to_string(), Placement::Installed)]);
}

#[test]
fn colliding_folder_is_staged() {
    let plan = plan_installation(&vec![dir("CoolMod")], &names(&["CoolMod"]));
    assert_eq!(placed(plan), vec![("CoolMod".to_string(), Placement::Staged)]);
}

#[test]
fn collision_ignores_ascii_case() {
    let plan = plan_installation(&vec![dir("coolmod")], &names(&["COOLMOD"]));
    assert_eq!(placed(plan), vec![("coolmod".to_string(), Placement::Staged)]);
}

#[test]
fn files_only_archive_is_messy() {
    let plan = plan_installation(&vec![file("a.pak"), file("readme.txt")], &names(&[]));
    assert!(matches!(plan, InstallPlan::Messy));
}

#[test]
fn empty_archive_is_messy() {
    let plan = plan_installation(&vec![], &names(&["X"]));
    assert!(matches!(plan, InstallPlan::Messy));
}

#[test]
fn top_level_files_are_ignored() {
    let plan = plan_installation(&vec![file("notes.txt"), dir("A"), file("b.pak"), dir("B")], &names(&["b"]));
    assert_eq!(
        placed(plan),
        vec![("A".to_string(), Placement::Installed), ("B".to_string(), Placement::Staged)]
    );
}

#[test]
fn later_folder_with_same_name_is_staged() {
    let plan = plan_installation(&vec![dir("Mod"), dir("MOD")], &names(&[]));
    assert_eq!(
        placed(plan),
        vec![("Mod".to_string(), Placement::Installed), ("MOD".to_string(), Placement::Staged)]
    );
}

#[test]
fn replace_removes_then_moves() {
    assert_eq!(
        resolve_steps(true),
        vec![ResolveStep::RemoveInstalled, ResolveStep::MoveIntoPlace, ResolveStep::RemoveStagingIfEmpty]
    );
}

#[test]
fn decline_discards_candidate() {
    assert_eq!(resolve_steps(false), vec![ResolveStep::DiscardStaged, ResolveStep::RemoveStagingIfEmpty]);
}
