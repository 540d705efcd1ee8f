use balatui::components::Actions;
use balatui::flow::{
    drain_reloads, home_step, modlist_step, plan_reinstall, remote_step, upgrade_step, HomeEffect, HomeEvent,
    ModlistEffect, RemoteEffect, RemoteEvent, RemoteState, UpgradeOutcome,
};
use balatui::listing::{catalog_rows, installed_rows};
use balatui::mods::{Mod, ToggleStep};
use balatui::motd::motd_options;
use balatui::order::sort_by_name;
use balatui::quick::{game_dir_parts, mods_folder_name, proton_data_dir_parts};
use balatui::RemoteMod;
use std::path::PathBuf;

fn remote(name: &str, folder_name: &str, identifier: &str) -> RemoteMod {
    RemoteMod {
        name: name.to_string(),
        folder_name: folder_name.to_string(),
        identifier: identifier.to_string(),
        download_url: format!("https://example.com/{}.zip", name),
        ..Default::default()
    }
}

fn installed(name: &str, version: &str) -> Mod {
    let mut m = Mod::new();
    m.name = name.to_string();
    m.version = version.to_string();
    m.folder = PathBuf::from(format!("/mods/{}", name));
    m
}

#[test]
fn first_tick_loads_the_catalog_once() {
    assert_eq!(home_step(false, true, HomeEvent::Tick), (true, HomeEffect::LoadCacheAndFetch));
    assert_eq!(home_step(true, true, HomeEvent::Tick), (true, HomeEffect::Idle));
    assert_eq!(home_step(true, false, HomeEvent::CatalogFetched), (true, HomeEffect::TakeCatalog));
    assert_eq!(home_step(false, false, HomeEvent::Other), (false, HomeEffect::Idle));
}

#[test]
fn reinstall_is_refused_without_a_catalog() {
    assert_eq!(home_step(true, true, HomeEvent::ReinstallMods), (true, HomeEffect::ReportEmptyCatalog));
    assert_eq!(home_step(true, false, HomeEvent::ReinstallMods), (true, HomeEffect::Reinstall));
}

#[test]
fn reinstall_plan_skips_unmatched_and_flags_moves() {
    let catalog = vec![remote("Cryo", "", "cryo"), remote("Talisman", "Talisman", "talisman")];
    let matches = vec![Some(1), None, Some(0)];
    let folders = vec!["Talisman".to_string(), "Other".to_string(), "Cryo-main".to_string()];
    let plan = plan_reinstall(&matches, &catalog, &folders);
    assert_eq!(plan.len(), 2);
    assert_eq!((plan[0].installed, plan[0].remote), (0, 1));
    assert_eq!(plan[0].target, "Talisman");
    assert!(!plan[0].migrating);
    assert_eq!((plan[1].installed, plan[1].remote), (2, 0));
    assert_eq!(plan[1].target, "cryo");
    assert!(plan[1].migrating);
}

#[test]
fn upgrading_one_mod() {
    let catalog = vec![remote("Cryo", "Cryo@1", "cryo")];
    let folder = "Cryo".to_string();
    assert_eq!(upgrade_step(0, Some(0), &vec![], &folder), UpgradeOutcome::NoCatalog);
    assert_eq!(upgrade_step(0, None, &catalog, &folder), UpgradeOutcome::NotInIndex);
    match upgrade_step(3, Some(0), &catalog, &folder) {
        UpgradeOutcome::Reinstall(step) => {
            assert_eq!((step.installed, step.remote), (3, 0));
            assert_eq!(step.target, "Cryo@1");
            assert!(step.migrating);
        }
        other => panic!("unexpected outcome {:?}", other),
    }
}

#[test]
fn choosing_a_mod_toggles_it() {
    let mut mods = vec![installed("A", "1"), installed("B", "1")];
    mods[1].enabled = Some(true);
    assert_eq!(modlist_step(&mut mods, Actions::Selected(1), true), ModlistEffect::Toggle(1, ToggleStep::Disable));
    assert_eq!(mods[1].enabled, Some(false));
    assert_eq!(mods[0].enabled, None);
    assert_eq!(modlist_step(&mut mods, Actions::Selected(1), false), ModlistEffect::Toggle(1, ToggleStep::Enable));
    assert_eq!(mods[1].enabled, Some(true));
}

#[test]
fn forced_mods_are_neither_toggled_nor_deleted() {
    let mut mods = vec![installed("Steamodded", "1")];
    mods[0].force_enable = true;
    mods[0].enabled = Some(true);
    assert_eq!(modlist_step(&mut mods, Actions::Selected(0), true), ModlistEffect::Toggle(0, ToggleStep::Refused));
    assert_eq!(mods[0].enabled, Some(true));
    assert_eq!(modlist_step(&mut mods, Actions::Delete(0), true), ModlistEffect::RefuseDelete);
    mods[0].force_enable = false;
    assert_eq!(modlist_step(&mut mods, Actions::Delete(0), true), ModlistEffect::DeleteFolder(0));
    assert_eq!(modlist_step(&mut mods, Actions::Reload, true), ModlistEffect::ReloadAndDrain);
    assert_eq!(mods.len(), 1);
}

#[test]
fn queued_reloads_are_dropped() {
    let queue = vec![Actions::Reload, Actions::Selected(2), Actions::Reload, Actions::Delete(1), Actions::Reload];
    assert_eq!(drain_reloads(queue), vec![Actions::Selected(2), Actions::Delete(1)]);
    assert!(drain_reloads(vec![Actions::Reload]).is_empty());
}

#[test]
fn chosen_mod_is_installed_on_the_next_tick() {
    let chosen = remote("Cryo", "", "cryo-dir");
    let (state, effect) = remote_step(RemoteState::Normal, RemoteEvent::Choose(chosen.clone()));
    assert!(matches!(effect, RemoteEffect::Idle));
    match &state {
        RemoteState::Downloading(m) => assert_eq!(m, &chosen),
        RemoteState::Normal => panic!("the mod was not marked"),
    }
    let (state, effect) = remote_step(state, RemoteEvent::Tick);
    assert!(matches!(state, RemoteState::Normal));
    match effect {
        RemoteEffect::Install { url, dir } => {
            assert_eq!(url, "https://example.com/Cryo.zip");
            assert_eq!(dir, "cryo-dir");
        }
        RemoteEffect::Idle => panic!("nothing was installed"),
    }
    let (state, effect) = remote_step(state, RemoteEvent::Tick);
    assert!(matches!(state, RemoteState::Normal));
    assert!(matches!(effect, RemoteEffect::Idle));
}

#[test]
fn sorting_keeps_equal_names_in_order() {
    let mut mods = vec![installed("b", "1"), installed("a", "1"), installed("b", "2"), installed("a", "2")];
    sort_by_name(&mut mods);
    let seen: Vec<(String, String)> = mods.iter().map(|m| (m.name.clone(), m.version.clone())).collect();
    assert_eq!(
        seen,
        vec![
            ("a".to_string(), "1".to_string()),
            ("a".to_string(), "2".to_string()),
            ("b".to_string(), "1".to_string()),
            ("b".to_string(), "2".to_string()),
        ]
    );
}

#[test]
fn installed_rows_are_sorted_and_selection_clamped() {
    let mut mods = vec![installed("Zed", "2.0"), installed("Alpha", "1.0")];
    mods[0].enabled = Some(false);
    mods[1].author = vec!["me".to_string(), "you".to_string()];
    let (rows, selected) = installed_rows(&mut mods, 7);
    assert_eq!(selected, 1);
    assert_eq!(mods[0].name, "Alpha");
    assert_eq!(rows[0], vec!["Alpha", " 1.0 ", "by me, you"]);
    assert_eq!(rows[1], vec!["Zed", " 2.0 ", "by ", " (disabled)"]);
    let mut none: Vec<Mod> = vec![];
    assert_eq!(installed_rows(&mut none, 3), (vec![], 0));
}

#[test]
fn catalog_rows_are_sorted() {
    let mut mods = vec![remote("b", "", "b"), remote("a", "", "a")];
    mods[0].owner = "o".to_string();
    mods[0].description = "d".to_string();
    let rows = catalog_rows(&mut mods);
    assert_eq!(rows[0][0], "a");
    assert_eq!(rows[1], vec!["b", " by o", " d"]);
}

#[test]
fn message_list_and_folder_parts() {
    let options = motd_options();
    assert_eq!(options.len(), 11);
    assert_eq!(options[0], "First we Ball, then we Atro. We Balatro!");
    assert_eq!(game_dir_parts(), vec!["steamapps", "common", "Balatro"]);
    let proton = proton_data_dir_parts();
    assert_eq!(proton.len(), 10);
    assert_eq!(proton[2], "2379780");
    assert_eq!(proton[9], "Balatro");
    assert_eq!(mods_folder_name(), "Mods");
}
