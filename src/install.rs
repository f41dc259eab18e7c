//! Classification of freshly extracted archive contents against the installed
//! mods, and the steps that settle a staged conflict.
use vstd::prelude::*;
use crate::names::{names_match, same_name};

verus! {

/// An entry found directly under the extraction directory.
pub struct ExtractedEntry {
    pub name: String,
    pub is_dir: bool,
}

impl View for ExtractedEntry {
    type V = (Seq<char>, bool);

    open spec fn view(&self) -> (Seq<char>, bool) {
        (self.name@, self.is_dir)
    }
}

/// Where a candidate mod goes.
#[derive(PartialEq, Eq, Structural, Clone, Copy, Debug)]
pub enum Placement {
    /// Moved straight into the mods root.
    Installed,
    /// Held in the staging area until the user decides.
    Staged,
}

/// A candidate mod and where it goes.
pub struct CandidatePlacement {
    pub name: String,
    pub placement: Placement,
}

impl View for CandidatePlacement {
    type V = (Seq<char>, Placement);

    open spec fn view(&self) -> (Seq<char>, Placement) {
        (self.name@, self.placement)
    }
}

/// What to do with an extracted archive.
pub enum InstallPlan {
    /// No directory at the top of the archive: the user has to name the mod.
    Messy,
    /// The candidate mods, in the order they were listed, each with its placement.
    Placed(Vec<CandidatePlacement>),
}

pub open spec fn entries_view(s: Seq<ExtractedEntry>) -> Seq<(Seq<char>, bool)> {
    s.map_values(|e: ExtractedEntry| e@)
}

pub open spec fn names_view(s: Seq<String>) -> Seq<Seq<char>> {
    s.map_values(|n: String| n@)
}

pub open spec fn placements_view(s: Seq<CandidatePlacement>) -> Seq<(Seq<char>, Placement)> {
    s.map_values(|p: CandidatePlacement| p@)
}

/// The names of the directories among the entries, in their order.
pub open spec fn candidate_names(entries: Seq<(Seq<char>, bool)>) -> Seq<Seq<char>>
    decreases entries.len(),
{
    if entries.len() == 0 {
        Seq::empty()
    } else {
        let c = candidate_names(entries.drop_last());
        if entries.last().1 {
            c.push(entries.last().0)
        } else {
            c
        }
    }
}

/// Some name among the first `upto` of `names` is `name` up to ASCII case.
pub open spec fn taken_within(names: Seq<Seq<char>>, upto: int, name: Seq<char>) -> bool {
    exists|j: int| 0 <= j < upto && j < names.len() && same_name(#[trigger] names[j], name)
}

/// Candidate `i` collides with an installed mod or with an earlier candidate.
pub open spec fn collides(cands: Seq<Seq<char>>, existing: Seq<Seq<char>>, i: int) -> bool {
    taken_within(existing, existing.len() as int, cands[i]) || taken_within(cands, i, cands[i])
}

/// Each candidate with its placement: staged where it collides, installed otherwise.
pub open spec fn planned(cands: Seq<Seq<char>>, existing: Seq<Seq<char>>) -> Seq<(Seq<char>, Placement)> {
    Seq::new(
        cands.len(),
        |i: int|
            (cands[i], if collides(cands, existing, i) {
                Placement::Staged
            } else {
                Placement::Installed
            }),
    )
}

fn taken_among(names: &Vec<String>, upto: usize, name: &str) -> (r: bool)
    requires
        upto <= names@.len(),
    ensures
        r == taken_within(names_view(names@), upto as int, name@),
{
    let ghost nv = names_view(names@);
    let mut j: usize = 0;
    while j < upto
        invariant
            upto <= names@.len(),
            nv == names_view(names@),
            j <= upto,
            forall|k: int| 0 <= k < j ==> !same_name(#[trigger] nv[k], name@),
        decreases upto - j,
    {
        if names_match(names[j].as_str(), name) {
            assert(same_name(nv[j as int], name@));
            return true;
        }
        j = j + 1;
    }
    false
}

/// Decides where each directory found at the top of an extracted archive goes,
/// given the names of the mods already installed. Files at the top are ignored.
/// Without any directory the archive is messy. Otherwise each directory, in
/// order, is staged when its name matches (up to ASCII case) an installed mod
/// or an earlier directory, and installed otherwise.
pub fn plan_installation(entries: &Vec<ExtractedEntry>, existing: &Vec<String>) -> (r: InstallPlan)
    ensures
        (r is Messy) == (candidate_names(entries_view(entries@)).len() == 0),
        r matches InstallPlan::Placed(v) ==> placements_view(v@) == planned(
            candidate_names(entries_view(entries@)),
            names_view(existing@),
        ),
{
    let ghost ev = entries_view(entries@);
    let mut cands: Vec<String> = Vec::new();
    let mut i: usize = 0;
    while i < entries.len()
        invariant
            ev == entries_view(entries@),
            i <= entries@.len(),
            names_view(cands@) == candidate_names(ev.subrange(0, i as int)),
        decreases entries.len() - i,
    {
        assert(ev.subrange(0, i + 1).drop_last() =~= ev.subrange(0, i as int));
        if entries[i].is_dir {
            let ghost before = cands@;
            cands.push(entries[i].name.clone());
            assert(names_view(cands@) =~= names_view(before).push(ev[i as int].0));
        }
        i = i + 1;
    }
    assert(ev.subrange(0, entries@.len() as int) =~= ev);
    if cands.len() == 0 {
        return InstallPlan::Messy;
    }
    let ghost cv = names_view(cands@);
    let ghost xv = names_view(existing@);
    let mut out: Vec<CandidatePlacement> = Vec::new();
    let mut k: usize = 0;
    while k < cands.len()
        invariant
            cv == names_view(cands@),
            xv == names_view(existing@),
            k <= cands@.len(),
            out@.len() == k,
            forall|m: int| 0 <= m < k ==> #[trigger] out@[m]@ == planned(cv, xv)[m],
        decreases cands.len() - k,
    {
        let name = cands[k].clone();
        let staged = taken_among(existing, existing.len(), name.as_str())
            || taken_among(&cands, k, name.as_str());
        let placement = if staged {
            Placement::Staged
        } else {
            Placement::Installed
        };
        out.push(CandidatePlacement { name, placement });
        k = k + 1;
    }
    assert(placements_view(out@) =~= planned(cv, xv));
    InstallPlan::Placed(out)
}
/// The state of the mods root that installation works on: the installed mod
/// folders and the staged candidates, each by on-disk name with its content,
/// and whether the staging area exists.
pub struct ModsRoot {
    pub mods: Map<Seq<char>, nat>,
    pub staged: Map<Seq<char>, nat>,
    pub staging: bool,
}

/// The mods root once a candidate with content `content` is put in its place.
pub open spec fn place(root: ModsRoot, name: Seq<char>, content: nat, p: Placement) -> ModsRoot {
    match p {
        Placement::Installed => ModsRoot { mods: root.mods.insert(name, content), ..root },
        Placement::Staged => ModsRoot { staged: root.staged.insert(name, content), staging: true, ..root },
    }
}

/// The mods root once every candidate of the plan is put in its place;
/// `contents` gives each candidate's content by name.
pub open spec fn place_all(
    root: ModsRoot,
    plan: Seq<(Seq<char>, Placement)>,
    contents: Map<Seq<char>, nat>,
) -> ModsRoot
    decreases plan.len(),
{
    if plan.len() == 0 {
        root
    } else {
        let r = place_all(root, plan.drop_last(), contents);
        place(r, plan.last().0, contents[plan.last().0], plan.last().1)
    }
}

/// A step that settles a staged conflict, for the mod named by the conflict.
#[derive(PartialEq, Eq, Structural, Clone, Copy, Debug)]
pub enum ResolveStep {
    /// Remove the installed mod folder of that name, if there is one.
    RemoveInstalled,
    /// Move the staged candidate into the mods root under that name.
    MoveIntoPlace,
    /// Delete the staged candidate.
    DiscardStaged,
    /// Remove the staging area if nothing is left in it.
    RemoveStagingIfEmpty,
}

/// The steps that settle a conflict: replace the installed mod with the staged
/// candidate, or discard the candidate; then tidy the staging area.
pub open spec fn resolution(replace: bool) -> Seq<ResolveStep> {
    if replace {
        seq![ResolveStep::RemoveInstalled, ResolveStep::MoveIntoPlace, ResolveStep::RemoveStagingIfEmpty]
    } else {
        seq![ResolveStep::DiscardStaged, ResolveStep::RemoveStagingIfEmpty]
    }
}

/// The mod folders whose names are not `name` up to ASCII case.
pub open spec fn without_name(m: Map<Seq<char>, nat>, name: Seq<char>) -> Map<Seq<char>, nat> {
    Map::new(|k: Seq<char>| m.contains_key(k) && !same_name(k, name), |k: Seq<char>| m[k])
}

/// The mods root once one step for the mod `name` is carried out.
pub open spec fn apply_step(root: ModsRoot, name: Seq<char>, step: ResolveStep) -> ModsRoot {
    match step {
        ResolveStep::RemoveInstalled => ModsRoot { mods: without_name(root.mods, name), ..root },
        ResolveStep::MoveIntoPlace => if root.staged.contains_key(name) {
            ModsRoot {
                mods: root.mods.insert(name, root.staged[name]),
                staged: root.staged.remove(name),
                ..root
            }
        } else {
            root
        },
        ResolveStep::DiscardStaged => ModsRoot { staged: root.staged.remove(name), ..root },
        ResolveStep::RemoveStagingIfEmpty => if root.staged.is_empty() {
            ModsRoot { staging: false, ..root }
        } else {
            root
        },
    }
}

/// The mods root once the steps for the mod `name` are carried out in order.
pub open spec fn apply_steps(root: ModsRoot, name: Seq<char>, steps: Seq<ResolveStep>) -> ModsRoot
    decreases steps.len(),
{
    if steps.len() == 0 {
        root
    } else {
        apply_step(apply_steps(root, name, steps.drop_last()), name, steps.last())
    }
}

/// The steps that settle a staged conflict: with `replace`, the installed mod
/// is removed and the candidate moved into its place; without, the candidate
/// is deleted. Either way the staging area goes once it is empty.
pub fn resolve_steps(replace: bool) -> (r: Vec<ResolveStep>)
    ensures
        r@ == resolution(replace),
{
    let mut steps: Vec<ResolveStep> = Vec::new();
    if replace {
        steps.push(ResolveStep::RemoveInstalled);
        steps.push(ResolveStep::MoveIntoPlace);
    } else {
        steps.push(ResolveStep::DiscardStaged);
    }
    steps.push(ResolveStep::RemoveStagingIfEmpty);
    assert(steps@ =~= resolution(replace));
    steps
}

proof fn lemma_apply_steps_push(root: ModsRoot, name: Seq<char>, steps: Seq<ResolveStep>, step: ResolveStep)
    ensures
        apply_steps(root, name, steps.push(step)) == apply_step(apply_steps(root, name, steps), name, step),
        apply_steps(root, name, Seq::<ResolveStep>::empty()) == root,
{
    assert(steps.push(step).drop_last() =~= steps);
}

/// An archive with a single new top-level directory installs it under its own
/// name: one installed candidate, nothing staged, the mod folder in place.
pub proof fn lemma_single_new_folder(
    entries: Seq<(Seq<char>, bool)>,
    existing: Seq<Seq<char>>,
    root: ModsRoot,
    contents: Map<Seq<char>, nat>,
    x: Seq<char>,
)
    requires
        candidate_names(entries) == seq![x],
        !taken_within(existing, existing.len() as int, x),
    ensures
        planned(candidate_names(entries), existing) == seq![(x, Placement::Installed)],
        place_all(root, seq![(x, Placement::Installed)], contents).mods == root.mods.insert(x, contents[x]),
        place_all(root, seq![(x, Placement::Installed)], contents).staged == root.staged,
{
    let c = seq![x];
    assert(!taken_within(c, 0, x));
    assert(!collides(c, existing, 0));
    assert(planned(c, existing) =~= seq![(x, Placement::Installed)]);
    let plan = seq![(x, Placement::Installed)];
    assert(plan.drop_last() =~= Seq::<(Seq<char>, Placement)>::empty());
    assert(place_all(root, Seq::<(Seq<char>, Placement)>::empty(), contents) == root);
}

/// An archive whose single top-level directory collides with an installed mod
/// stages it: the installed folders stay as they are, the candidate goes to
/// the staging area.
pub proof fn lemma_single_colliding_folder(
    entries: Seq<(Seq<char>, bool)>,
    existing: Seq<Seq<char>>,
    root: ModsRoot,
    contents: Map<Seq<char>, nat>,
    x: Seq<char>,
)
    requires
        candidate_names(entries) == seq![x],
        taken_within(existing, existing.len() as int, x),
    ensures
        planned(candidate_names(entries), existing) == seq![(x, Placement::Staged)],
        place_all(root, seq![(x, Placement::Staged)], contents).mods == root.mods,
        place_all(root, seq![(x, Placement::Staged)], contents).staged == root.staged.insert(x, contents[x]),
        place_all(root, seq![(x, Placement::Staged)], contents).staging,
{
    let c = seq![x];
    assert(collides(c, existing, 0));
    assert(planned(c, existing) =~= seq![(x, Placement::Staged)]);
    let plan = seq![(x, Placement::Staged)];
    assert(plan.drop_last() =~= Seq::<(Seq<char>, Placement)>::empty());
    assert(place_all(root, Seq::<(Seq<char>, Placement)>::empty(), contents) == root);
}

/// Replacing puts the staged candidate's content in place of every installed
/// folder of that name, leaves the other folders alone, empties the staged
/// slot, and removes the staging area once it is empty.
pub proof fn lemma_replace_resolution(root: ModsRoot, name: Seq<char>)
    requires
        root.staged.contains_key(name),
    ensures
        ({
            let after = apply_steps(root, name, resolution(true));
            &&& after.mods.contains_key(name)
            &&& after.mods[name] == root.staged[name]
            &&& forall|k: Seq<char>| #[trigger] after.mods.contains_key(k) && k != name ==> !same_name(k, name)
            &&& forall|k: Seq<char>|
                !same_name(k, name) ==> (#[trigger] after.mods.contains_key(k) == root.mods.contains_key(k)
                    && (root.mods.contains_key(k) ==> after.mods[k] == root.mods[k]))
            &&& after.staged == root.staged.remove(name)
            &&& after.staged.is_empty() ==> !after.staging
        }),
{
    let e = Seq::<ResolveStep>::empty();
    let s1 = e.push(ResolveStep::RemoveInstalled);
    let s2 = s1.push(ResolveStep::MoveIntoPlace);
    let s3 = s2.push(ResolveStep::RemoveStagingIfEmpty);
    assert(s3 =~= resolution(true));
    lemma_apply_steps_push(root, name, e, ResolveStep::RemoveInstalled);
    lemma_apply_steps_push(root, name, s1, ResolveStep::MoveIntoPlace);
    lemma_apply_steps_push(root, name, s2, ResolveStep::RemoveStagingIfEmpty);
    let r1 = apply_step(root, name, ResolveStep::RemoveInstalled);
    assert(r1.staged == root.staged);
    crate::names::lemma_same_name_equivalence(name, name, name);
}

/// Declining the replacement leaves the installed folders unchanged and
/// deletes the staged candidate.
pub proof fn lemma_discard_resolution(root: ModsRoot, name: Seq<char>)
    ensures
        apply_steps(root, name, resolution(false)).mods == root.mods,
        !apply_steps(root, name, resolution(false)).staged.contains_key(name),
        apply_steps(root, name, resolution(false)).staged.is_empty() ==> !apply_steps(
            root,
            name,
            resolution(false),
        ).staging,
{
    let e = Seq::<ResolveStep>::empty();
    let s1 = e.push(ResolveStep::DiscardStaged);
    let s2 = s1.push(ResolveStep::RemoveStagingIfEmpty);
    assert(s2 =~= resolution(false));
    lemma_apply_steps_push(root, name, e, ResolveStep::DiscardStaged);
    lemma_apply_steps_push(root, name, s1, ResolveStep::RemoveStagingIfEmpty);
}
/// No two installed mod folders carry the same name up to ASCII case.
pub open spec fn unique_names(m: Map<Seq<char>, nat>) -> bool {
    forall|a: Seq<char>, b: Seq<char>|
        #[trigger] m.contains_key(a) && #[trigger] m.contains_key(b) && same_name(a, b) ==> a == b
}

/// Every installed mod folder is among the names in `existing`.
pub open spec fn listed_in(m: Map<Seq<char>, nat>, existing: Seq<Seq<char>>) -> bool {
    forall|k: Seq<char>| #[trigger] m.contains_key(k) ==> exists|j: int| 0 <= j < existing.len() && existing[j] == k
}

proof fn lemma_place_prefix(
    root: ModsRoot,
    cands: Seq<Seq<char>>,
    existing: Seq<Seq<char>>,
    contents: Map<Seq<char>, nat>,
    i: int,
)
    requires
        0 <= i <= cands.len(),
        unique_names(root.mods),
        listed_in(root.mods, existing),
    ensures
        ({
            let m = place_all(root, planned(cands, existing).subrange(0, i), contents).mods;
            &&& unique_names(m)
            &&& forall|k: Seq<char>| #[trigger] m.contains_key(k) ==> (exists|j: int|
                0 <= j < existing.len() && existing[j] == k) || (exists|j: int| 0 <= j < i && cands[j] == k)
        }),
    decreases i,
{
    let plan = planned(cands, existing);
    if i == 0 {
        assert(plan.subrange(0, 0) =~= Seq::<(Seq<char>, Placement)>::empty());
    } else {
        lemma_place_prefix(root, cands, existing, contents, i - 1);
        let pre = plan.subrange(0, i - 1);
        assert(plan.subrange(0, i).drop_last() =~= pre);
        let before = place_all(root, pre, contents);
        let m0 = before.mods;
        let c = cands[i - 1];
        let m = place_all(root, plan.subrange(0, i), contents).mods;
        if collides(cands, existing, i - 1) {
            assert(m == m0);
        } else {
            assert(m == m0.insert(c, contents[c]));
            assert forall|k: Seq<char>| #[trigger] m0.contains_key(k) implies !same_name(k, c) by {
                crate::names::lemma_same_name_equivalence(k, c, k);
                if exists|j: int| 0 <= j < existing.len() && existing[j] == k {
                    let j = choose|j: int| 0 <= j < existing.len() && existing[j] == k;
                    if same_name(k, c) {
                        assert(same_name(existing[j], c));
                        assert(taken_within(existing, existing.len() as int, c));
                    }
                } else {
                    let j = choose|j: int| 0 <= j < i - 1 && cands[j] == k;
                    if same_name(k, c) {
                        assert(same_name(cands[j], c));
                        assert(taken_within(cands, i - 1, c));
                    }
                }
            }
            assert forall|a: Seq<char>, b: Seq<char>|
                #[trigger] m.contains_key(a) && #[trigger] m.contains_key(b) && same_name(a, b) implies a == b by {
                crate::names::lemma_same_name_equivalence(a, b, a);
                crate::names::lemma_same_name_equivalence(c, c, c);
                if a != c && b != c {
                    assert(m0.contains_key(a) && m0.contains_key(b));
                } else if a == c && b != c {
                    assert(m0.contains_key(b));
                    assert(!same_name(b, c));
                } else if a != c && b == c {
                    assert(m0.contains_key(a));
                    assert(!same_name(a, c));
                }
            }
        }
        assert forall|k: Seq<char>| #[trigger] m.contains_key(k) implies (exists|j: int|
            0 <= j < existing.len() && existing[j] == k) || (exists|j: int| 0 <= j < i && cands[j] == k) by {
            if m0.contains_key(k) {
                if exists|j: int| 0 <= j < i - 1 && cands[j] == k {
                    let j = choose|j: int| 0 <= j < i - 1 && cands[j] == k;
                    assert(0 <= j < i && cands[j] == k);
                }
            } else {
                assert(k == c);
                assert(0 <= i - 1 < i && cands[i - 1] == k);
            }
        }
    }
}

/// Installing keeps the mods root free of two folders with the same name up
/// to ASCII case: starting from such a root whose folders are all listed in
/// `existing`, putting every candidate in its planned place installs only
/// names that no other folder carries.
pub proof fn lemma_install_keeps_names_unique(
    root: ModsRoot,
    cands: Seq<Seq<char>>,
    existing: Seq<Seq<char>>,
    contents: Map<Seq<char>, nat>,
)
    requires
        unique_names(root.mods),
        listed_in(root.mods, existing),
    ensures
        unique_names(place_all(root, planned(cands, existing), contents).mods),
{
    lemma_place_prefix(root, cands, existing, contents, cands.len() as int);
    assert(planned(cands, existing).subrange(0, cands.len() as int) =~= planned(cands, existing));
}
/// Settling a conflict, either way, keeps the mods root free of two folders
/// with the same name up to ASCII case.
pub proof fn lemma_resolution_keeps_names_unique(root: ModsRoot, name: Seq<char>, replace: bool)
    requires
        unique_names(root.mods),
        root.staged.contains_key(name),
    ensures
        unique_names(apply_steps(root, name, resolution(replace)).mods),
{
    if replace {
        lemma_replace_resolution(root, name);
        let m = apply_steps(root, name, resolution(true)).mods;
        assert forall|a: Seq<char>, b: Seq<char>|
            #[trigger] m.contains_key(a) && #[trigger] m.contains_key(b) && same_name(a, b) implies a == b by {
            crate::names::lemma_same_name_equivalence(a, b, name);
            crate::names::lemma_same_name_equivalence(b, a, name);
            if a != name && b != name {
                assert(!same_name(a, name) && !same_name(b, name));
                assert(root.mods.contains_key(a) && root.mods.contains_key(b));
            } else if a == name && b != name {
                assert(!same_name(b, name));
            } else if a != name && b == name {
                assert(!same_name(a, name));
            }
        }
    } else {
        lemma_discard_resolution(root, name);
    }
}

} // verus!
