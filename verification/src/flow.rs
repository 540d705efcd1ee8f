//! The decisions behind the interface's tabs: what an event does to a tab's state,
//! and which outside work (files, network) it asks the program to carry out.
use vstd::prelude::*;
use crate::catalog::{install_dir, install_dir_spec, RemoteMod};
use crate::components::Actions;
use crate::mods::{enabled_after, same_but_enabled, toggle_step_for, Mod, ToggleStep};

verus! {

/// What the home screen is told.
#[derive(Debug, Clone, Copy, PartialEq, Eq, Structural)]
pub enum HomeEvent {
    /// A tick of the terminal loop.
    Tick,
    /// A fresh catalog was fetched.
    CatalogFetched,
    /// Every installed mod is to be reinstalled from the catalog.
    ReinstallMods,
    /// Anything else.
    Other,
}

/// What the home screen asks the program to do.
#[derive(Debug, Clone, Copy, PartialEq, Eq, Structural)]
pub enum HomeEffect {
    /// Nothing.
    Idle,
    /// Show the cached catalog, and fetch a fresh one in the background.
    LoadCacheAndFetch,
    /// Keep the fetched catalog and show it.
    TakeCatalog,
    /// Report that there is no catalog to reinstall from.
    ReportEmptyCatalog,
    /// Reinstall every installed mod from the catalog.
    Reinstall,
}

/// The home screen's next "catalog fetched" flag and its effect: the first tick loads
/// the catalog, later ticks do nothing; a reinstall is refused without a catalog.
pub open spec fn home_transition(catalog_fetched: bool, catalog_empty: bool, event: HomeEvent) -> (bool, HomeEffect) {
    match event {
        HomeEvent::Tick => if catalog_fetched {
            (true, HomeEffect::Idle)
        } else {
            (true, HomeEffect::LoadCacheAndFetch)
        },
        HomeEvent::CatalogFetched => (catalog_fetched, HomeEffect::TakeCatalog),
        HomeEvent::ReinstallMods => if catalog_empty {
            (catalog_fetched, HomeEffect::ReportEmptyCatalog)
        } else {
            (catalog_fetched, HomeEffect::Reinstall)
        },
        HomeEvent::Other => (catalog_fetched, HomeEffect::Idle),
    }
}

/// The home screen's step: whether the catalog has been asked for after the event,
/// and what to do.
pub fn home_step(catalog_fetched: bool, catalog_empty: bool, event: HomeEvent) -> (res: (bool, HomeEffect))
    ensures
        res == home_transition(catalog_fetched, catalog_empty, event),
        event != HomeEvent::Tick ==> res.0 == catalog_fetched,
        event == HomeEvent::Tick ==> res.0,
        res.1 == HomeEffect::LoadCacheAndFetch <==> (event == HomeEvent::Tick && !catalog_fetched),
        res.1 == HomeEffect::Reinstall <==> (event == HomeEvent::ReinstallMods && !catalog_empty),
{
    match event {
        HomeEvent::Tick => {
            if catalog_fetched {
                (true, HomeEffect::Idle)
            } else {
                (true, HomeEffect::LoadCacheAndFetch)
            }
        },
        HomeEvent::CatalogFetched => (catalog_fetched, HomeEffect::TakeCatalog),
        HomeEvent::ReinstallMods => {
            if catalog_empty {
                (catalog_fetched, HomeEffect::ReportEmptyCatalog)
            } else {
                (catalog_fetched, HomeEffect::Reinstall)
            }
        },
        HomeEvent::Other => (catalog_fetched, HomeEffect::Idle),
    }
}

/// The catalog is loaded once: the first tick asks for it and sets the flag, no event
/// clears the flag once set, and a tick with the flag set asks for nothing.
pub proof fn lemma_catalog_loaded_once(catalog_empty: bool, event: HomeEvent)
    ensures
        home_transition(false, catalog_empty, HomeEvent::Tick) == (true, HomeEffect::LoadCacheAndFetch),
        home_transition(true, catalog_empty, event).0,
        home_transition(true, catalog_empty, HomeEvent::Tick).1 == HomeEffect::Idle,
{
}

/// Only a tick sets the "catalog fetched" flag, and no event clears it; the catalog is
/// loaded and fetched exactly on a tick while the flag is unset, and a reinstall goes
/// ahead exactly when asked for with a catalog at hand. Events other than these do
/// nothing.
pub proof fn lemma_only_first_tick_loads(catalog_fetched: bool, catalog_empty: bool, event: HomeEvent)
    ensures
        event != HomeEvent::Tick ==> home_transition(catalog_fetched, catalog_empty, event).0 == catalog_fetched,
        event == HomeEvent::Tick ==> home_transition(catalog_fetched, catalog_empty, event).0,
        home_transition(catalog_fetched, catalog_empty, event).1 == HomeEffect::LoadCacheAndFetch <==> (event
            == HomeEvent::Tick && !catalog_fetched),
        home_transition(catalog_fetched, catalog_empty, event).1 == HomeEffect::Reinstall <==> (event
            == HomeEvent::ReinstallMods && !catalog_empty),
        event == HomeEvent::Other ==> home_transition(catalog_fetched, catalog_empty, event) == (
        catalog_fetched,
        HomeEffect::Idle,
        ),
{
}

/// One mod to reinstall: the installed mod's position, the catalog entry's position,
/// the folder it goes into, and whether its old folder is removed afterwards.
#[derive(Debug, Clone, PartialEq)]
pub struct ReinstallStep {
    pub installed: usize,
    pub remote: usize,
    pub target: String,
    pub migrating: bool,
}

/// `s` reinstalls the installed mod `i` from catalog entry `k`, into that entry's
/// install folder; the mod's old folder, named `folder` inside the mods folder, is
/// removed afterwards when it is another one.
pub open spec fn is_reinstall_step(s: ReinstallStep, i: int, k: int, catalog: Seq<RemoteMod>, folder: Seq<char>) -> bool {
    &&& s.installed == i
    &&& s.remote == k
    &&& s.target@ == install_dir_spec(catalog[k])
    &&& s.migrating == (folder != install_dir_spec(catalog[k]))
}

fn reinstall_step(installed: usize, remote: usize, catalog: &Vec<RemoteMod>, folder: &String) -> (s: ReinstallStep)
    requires
        remote < catalog@.len(),
    ensures
        is_reinstall_step(s, installed as int, remote as int, catalog@, folder@),
{
    let target = install_dir(&catalog[remote]);
    let migrating = !(*folder == target);
    ReinstallStep { installed, remote, target, migrating }
}

/// The positions of the installed mods that have a catalog entry, in order.
pub open spec fn matched_positions(matches: Seq<Option<usize>>) -> Seq<int>
    decreases matches.len(),
{
    if matches.len() == 0 {
        Seq::empty()
    } else {
        let rest = matched_positions(matches.drop_last());
        if matches.last() is Some {
            rest.push(matches.len() - 1)
        } else {
            rest
        }
    }
}

/// `step` reinstalls installed mod `i` from its catalog entry `matches[i]`.
pub open spec fn reinstalls_match(
    step: ReinstallStep,
    i: int,
    matches: Seq<Option<usize>>,
    catalog: Seq<RemoteMod>,
    folders: Seq<String>,
) -> bool {
    &&& 0 <= i < matches.len()
    &&& matches[i] is Some
    &&& is_reinstall_step(step, i, matches[i]->0 as int, catalog, folders[i]@)
}

/// The plan for reinstalling every installed mod. `matches[i]` is the position of the
/// catalog entry of installed mod `i`, if the catalog has one; `folders[i]` is the name
/// of that mod's folder inside the mods folder. Mods without an entry
/// are passed over; the others are reinstalled in order.
pub fn plan_reinstall(
    matches: &Vec<Option<usize>>,
    catalog: &Vec<RemoteMod>,
    folders: &Vec<String>,
) -> (plan: Vec<ReinstallStep>)
    requires
        folders@.len() == matches@.len(),
        forall|i: int| 0 <= i < matches@.len() ==> (#[trigger] matches@[i] matches Some(k) ==> k < catalog@.len()),
    ensures
        plan@.len() == matched_positions(matches@).len(),
        forall|s: int|
            0 <= s < plan@.len() ==> reinstalls_match(
                #[trigger] plan@[s],
                matched_positions(matches@)[s],
                matches@,
                catalog@,
                folders@,
            ),
{
    let mut plan: Vec<ReinstallStep> = Vec::new();
    let mut i: usize = 0;
    while i < matches.len()
        invariant
            i <= matches@.len(),
            folders@.len() == matches@.len(),
            forall|j: int| 0 <= j < matches@.len() ==> (#[trigger] matches@[j] matches Some(k) ==> k < catalog@.len()),
            plan@.len() == matched_positions(matches@.take(i as int)).len(),
            forall|s: int|
                0 <= s < plan@.len() ==> reinstalls_match(
                    #[trigger] plan@[s],
                    matched_positions(matches@.take(i as int))[s],
                    matches@,
                    catalog@,
                    folders@,
                ),
        decreases matches@.len() - i,
    {
        let ghost before = plan@;
        let ghost prefix = matches@.take(i as int);
        let ghost next = matches@.take(i + 1);
        assert(next.drop_last() =~= prefix);
        assert(next.last() == matches@[i as int]);
        match matches[i] {
            Some(k) => {
                assert(matched_positions(next) == matched_positions(prefix).push(i as int));
                let step = reinstall_step(i, k, catalog, &folders[i]);
                plan.push(step);
                assert forall|s: int| 0 <= s < plan@.len() implies reinstalls_match(
                    #[trigger] plan@[s],
                    matched_positions(next)[s],
                    matches@,
                    catalog@,
                    folders@,
                ) by {
                    if s < before.len() {
                        assert(plan@[s] == before[s]);
                    }
                }
            },
            None => {
                assert(matched_positions(next) == matched_positions(prefix));
                assert forall|s: int| 0 <= s < plan@.len() implies reinstalls_match(
                    #[trigger] plan@[s],
                    matched_positions(next)[s],
                    matches@,
                    catalog@,
                    folders@,
                ) by {
                    assert(plan@[s] == before[s]);
                }
            },
        }
        i = i + 1;
    }
    assert(matches@.take(i as int) =~= matches@);
    plan
}

/// What upgrading one installed mod comes to.
#[derive(Debug, Clone, PartialEq)]
pub enum UpgradeOutcome {
    /// No catalog is loaded: nothing can be upgraded.
    NoCatalog,
    /// The catalog has no entry for the mod: it is passed over.
    NotInIndex,
    /// Reinstall the mod as this step says.
    Reinstall(ReinstallStep),
}

/// Upgrading the installed mod at position `installed`, whose folder inside the mods
/// folder is named `folder`, given the position of its catalog entry, if the catalog
/// has one.
pub fn upgrade_step(installed: usize, matched: Option<usize>, catalog: &Vec<RemoteMod>, folder: &String) -> (res: UpgradeOutcome)
    requires
        matched matches Some(k) ==> k < catalog@.len(),
    ensures
        catalog@.len() == 0 ==> res is NoCatalog,
        catalog@.len() != 0 && matched is None ==> res is NotInIndex,
        catalog@.len() != 0 && matched is Some ==> (res matches UpgradeOutcome::Reinstall(s)
            && is_reinstall_step(s, installed as int, matched->0 as int, catalog@, folder@)),
{
    if catalog.len() == 0 {
        return UpgradeOutcome::NoCatalog;
    }
    match matched {
        Some(k) => UpgradeOutcome::Reinstall(reinstall_step(installed, k, catalog, folder)),
        None => UpgradeOutcome::NotInIndex,
    }
}

/// What the installed-mods tab asks the program to do after one of its events.
#[derive(Debug, Clone, Copy, PartialEq, Eq, Structural)]
pub enum ModlistEffect {
    /// Carry out this toggle step on the folder of the mod at this position, then
    /// list the mods again.
    Toggle(usize, ToggleStep),
    /// The mod is forced on: report that it cannot be deleted.
    RefuseDelete,
    /// Delete the folder of the mod at this position; once deleted, read the mods again.
    DeleteFolder(usize),
    /// Read the mods again, then drop the reload requests still queued.
    ReloadAndDrain,
}

/// The event names a mod inside the list.
pub open spec fn names_listed_mod(event: Actions, len: int) -> bool {
    match event {
        Actions::Selected(c) => c < len,
        Actions::Delete(c) => c < len,
        Actions::Reload => true,
    }
}

/// What the installed-mods tab does with an event, given whether the chosen mod is
/// enabled on disk now: choosing a mod toggles it (and records its new state),
/// deleting is refused for a mod that is forced on, a reload reads the mods again.
pub fn modlist_step(mods: &mut Vec<Mod>, event: Actions, enabled_now: bool) -> (effect: ModlistEffect)
    requires
        names_listed_mod(event, old(mods)@.len() as int),
    ensures
        final(mods)@.len() == old(mods)@.len(),
        forall|j: int|
            0 <= j < old(mods)@.len() && !(event matches Actions::Selected(c) && j == c) ==> #[trigger] final(mods)@[j]
                == old(mods)@[j],
        event matches Actions::Selected(c) ==> {
            let step = toggle_step_for(old(mods)@[c as int].force_enable, enabled_now);
            &&& effect == ModlistEffect::Toggle(c, step)
            &&& final(mods)@[c as int].enabled == enabled_after(step, old(mods)@[c as int].enabled)
            &&& same_but_enabled(final(mods)@[c as int], old(mods)@[c as int])
        },
        event matches Actions::Delete(c) ==> effect == if old(mods)@[c as int].force_enable {
            ModlistEffect::RefuseDelete
        } else {
            ModlistEffect::DeleteFolder(c)
        },
        event is Reload ==> effect == ModlistEffect::ReloadAndDrain,
{
    match event {
        Actions::Selected(c) => {
            let mut m = mods.remove(c);
            let step = m.toggle_step(enabled_now);
            m.record_toggle(step);
            mods.insert(c, m);
            ModlistEffect::Toggle(c, step)
        },
        Actions::Delete(c) => {
            if mods[c].force_enable {
                ModlistEffect::RefuseDelete
            } else {
                ModlistEffect::DeleteFolder(c)
            }
        },
        Actions::Reload => ModlistEffect::ReloadAndDrain,
    }
}

/// The queued events left once the reload requests are dropped: a reload has just
/// been done, so the ones still waiting are redundant.
pub fn drain_reloads(queue: Vec<Actions>) -> (rest: Vec<Actions>)
    ensures
        rest@ == without_reloads(queue@),
{
    let ghost src = queue@;
    let mut rest: Vec<Actions> = Vec::new();
    assert(src.take(0) =~= Seq::<Actions>::empty());
    assert(src.take(0).filter(|a: Actions| !(a is Reload)) =~= Seq::<Actions>::empty()) by {
        reveal_with_fuel(Seq::filter, 1);
    }
    for a in it: queue
        invariant
            it.seq() == src,
            rest@ == src.take(it.index() as int).filter(|a: Actions| !(a is Reload)),
    {
        let ghost n = it.index();
        assert(a == src[n]);
        assert(src.take(n + 1) =~= src.take(n).push(a));
        proof {
            src.take(n).lemma_filter_push(a, |a: Actions| !(a is Reload));
        }
        match a {
            Actions::Reload => {},
            _ => {
                rest.push(a);
            },
        }
    }
    assert(src.take(src.len() as int) =~= src);
    rest
}

/// The queued events other than reload requests, in order.
pub open spec fn without_reloads(queue: Seq<Actions>) -> Seq<Actions> {
    queue.filter(|a: Actions| !(a is Reload))
}

/// Draining after a reload leaves no reload request queued, and keeps every other
/// queued event.
pub proof fn lemma_drain_keeps_other_events(queue: Seq<Actions>)
    ensures
        forall|i: int| 0 <= i < without_reloads(queue).len() ==> !(#[trigger] without_reloads(queue)[i] is Reload),
        forall|i: int| 0 <= i < queue.len() && !(queue[i] is Reload) ==> #[trigger] without_reloads(queue).contains(queue[i]),
{
    queue.filter_lemma(|a: Actions| !(a is Reload));
}

/// The state of the tab that installs mods from the catalog.
#[derive(Debug)]
pub enum RemoteState {
    /// Waiting for the user.
    Normal,
    /// This catalog entry was chosen and is installed on the next tick.
    Downloading(RemoteMod),
}

/// What the catalog tab is told.
#[derive(Debug)]
pub enum RemoteEvent {
    /// A tick of the terminal loop.
    Tick,
    /// The user chose this catalog entry to install.
    Choose(RemoteMod),
}

/// What the catalog tab asks the program to do.
#[derive(Debug)]
pub enum RemoteEffect {
    /// Nothing.
    Idle,
    /// Download the archive at `url` and unpack it into the mod folder `dir`.
    Install { url: String, dir: String },
}

/// The catalog tab's transition: choosing an entry marks it for installation; the
/// next tick installs it (from its download address, into its install folder) and goes
/// back to waiting. A tick while waiting changes nothing.
pub open spec fn is_remote_transition(state: RemoteState, event: RemoteEvent, next: RemoteState, effect: RemoteEffect) -> bool {
    match event {
        RemoteEvent::Choose(m) => next == RemoteState::Downloading(m) && effect is Idle,
        RemoteEvent::Tick => match state {
            RemoteState::Normal => next is Normal && effect is Idle,
            RemoteState::Downloading(m) => next is Normal && match effect {
                RemoteEffect::Install { url, dir } => url@ == m.download_url@ && dir@ == install_dir_spec(m),
                RemoteEffect::Idle => false,
            },
        },
    }
}

/// The catalog tab's step.
pub fn remote_step(state: RemoteState, event: RemoteEvent) -> (res: (RemoteState, RemoteEffect))
    ensures
        is_remote_transition(state, event, res.0, res.1),
{
    match event {
        RemoteEvent::Choose(m) => (RemoteState::Downloading(m), RemoteEffect::Idle),
        RemoteEvent::Tick => match state {
            RemoteState::Normal => (RemoteState::Normal, RemoteEffect::Idle),
            RemoteState::Downloading(m) => {
                let dir = install_dir(&m);
                (RemoteState::Normal, RemoteEffect::Install { url: m.download_url, dir })
            },
        },
    }
}

} // verus!
