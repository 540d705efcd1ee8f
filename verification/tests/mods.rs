use balatui::mods::{
    directory_mod, enabled_from_entries, folder_mods, metadata_kind, needs_version_file, placeholder_mod, steamodded_version, MetadataKind, Mod, ModList,
    ToggleStep,
};
use std::path::PathBuf;

#[test]
fn new_mod_is_blank() {
    let m = Mod::new();
    assert!(m.id.is_empty() && m.name.is_empty() && m.version.is_empty());
    assert!(m.author.is_empty() && m.dependencies.is_empty());
    assert_eq!(m.enabled, None);
    assert!(!m.force_enable);
    assert_eq!(m.folder, PathBuf::new());
    let _list = ModList::new();
}

#[test]
fn marker_file_disables_a_mod() {
    assert!(enabled_from_entries(&vec!["main.lua".to_string(), "mod.json".to_string()]));
    assert!(!enabled_from_entries(&vec!["main.lua".to_string(), ".lovelyignore".to_string()]));
    assert!(enabled_from_entries(&vec![]));
}

#[test]
fn toggling_flips_a_mod_unless_forced() {
    let mut m = Mod::new();
    m.enabled = Some(true);
    let step = m.toggle_step(true);
    assert_eq!(step, ToggleStep::Disable);
    m.record_toggle(step);
    assert_eq!(m.enabled, Some(false));
    let step = m.toggle_step(false);
    assert_eq!(step, ToggleStep::Enable);
    m.record_toggle(step);
    assert_eq!(m.enabled, Some(true));
    m.force_enable = true;
    let step = m.toggle_step(true);
    assert_eq!(step, ToggleStep::Refused);
    m.record_toggle(step);
    assert_eq!(m.enabled, Some(true));
}

#[test]
fn metadata_is_classified() {
    let mut m = Mod::new();
    assert_eq!(metadata_kind(&m), MetadataKind::Unusable);
    m.name = "Steamodded".to_string();
    assert_eq!(metadata_kind(&m), MetadataKind::Steamodded);
    m.id = "smods".to_string();
    assert_eq!(metadata_kind(&m), MetadataKind::Identified);
}

#[test]
fn steamodded_version_is_the_quoted_text() {
    assert_eq!(steamodded_version("return \"1.0.0~BETA-1221a\""), Some("1.0.0~BETA-1221a".to_string()));
    assert_eq!(steamodded_version("return \"unterminated"), Some("unterminated".to_string()));
    assert_eq!(steamodded_version("no quotes here"), None);
}

#[test]
fn steamodded_metadata_is_completed() {
    let mut m = Mod::new();
    m.name = "Steamodded".to_string();
    m.adopt_as_steamodded("1.0.0".to_string(), false);
    assert_eq!(m.id, "steamodded");
    assert_eq!(m.version, "1.0.0");
    assert_eq!(m.enabled, Some(false));
    assert!(m.force_enable);
    assert_eq!(m.author, vec!["the Steamodded contributors".to_string()]);
}

#[test]
fn folders_without_metadata_get_a_placeholder() {
    let m = placeholder_mod(PathBuf::from("/mods/Cool"), "Cool".to_string(), true).unwrap();
    assert_eq!(m.name, "Cool");
    assert_eq!(m.version, "(unknown)");
    assert_eq!(m.author, vec!["unknown".to_string()]);
    assert_eq!(m.enabled, Some(true));
    assert_eq!(m.folder, PathBuf::from("/mods/Cool"));
    assert!(placeholder_mod(PathBuf::from("/mods/lovely"), "Lovely-0.6".to_string(), true).is_none());
    assert!(placeholder_mod(PathBuf::from("/mods/smods"), "Steamodded-main".to_string(), true).is_none());
}

#[test]
fn last_identified_candidate_is_chosen() {
    let mut a = Mod::new();
    a.id = "a".to_string();
    let b = Mod::new();
    let mut c = Mod::new();
    c.id = "c".to_string();
    let d = Mod::new();
    assert_eq!(Mod::from_candidates(vec![a, b, c, d]).id, "c");
    let blank = Mod::from_candidates(vec![Mod::new()]);
    assert!(blank.id.is_empty() && blank.name.is_empty());
}

fn metadata(id: &str, name: &str) -> Mod {
    let mut m = Mod::new();
    m.id = id.to_string();
    m.name = name.to_string();
    m.folder = PathBuf::from("/mods/folder");
    m
}

#[test]
fn folder_lists_each_described_mod() {
    let candidates = vec![metadata("a", "A"), metadata("", "Nothing"), metadata("b", "B")];
    assert!(!needs_version_file(&candidates));
    let mods = folder_mods(candidates, false, None, PathBuf::from("/mods/folder"), "folder".to_string());
    assert_eq!(mods.len(), 2);
    assert_eq!((mods[0].id.as_str(), mods[0].enabled), ("a", Some(false)));
    assert_eq!((mods[1].id.as_str(), mods[1].enabled), ("b", Some(false)));
}

#[test]
fn folder_with_steamodded_metadata_is_completed() {
    let candidates = vec![metadata("", "Steamodded")];
    assert!(needs_version_file(&candidates));
    let mods = folder_mods(candidates, true, Some("1.0.0~BETA".to_string()), PathBuf::from("/mods/smods"), "smods".to_string());
    assert_eq!(mods.len(), 1);
    assert_eq!(mods[0].id, "steamodded");
    assert_eq!(mods[0].version, "1.0.0~BETA");
    assert!(mods[0].force_enable);
    assert_eq!(mods[0].author, vec!["the Steamodded contributors"]);
}

#[test]
fn folder_without_metadata_gets_a_placeholder_unless_a_loader() {
    let mods = folder_mods(vec![metadata("", "x")], true, None, PathBuf::from("/mods/Thing"), "Thing".to_string());
    assert_eq!(mods.len(), 1);
    assert_eq!(mods[0].name, "Thing");
    assert_eq!(mods[0].version, "(unknown)");
    assert_eq!(mods[0].folder, PathBuf::from("/mods/Thing"));
    let loader = folder_mods(vec![], true, None, PathBuf::from("/mods/lovely"), "Lovely-Injector".to_string());
    assert!(loader.is_empty());
}

#[test]
fn directory_mod_takes_the_last_identified_metadata() {
    let m = directory_mod(vec![metadata("a", "A"), metadata("b", "B"), metadata("", "C")], false);
    assert_eq!(m.id, "b");
    assert_eq!(m.enabled, Some(false));
    let blank = directory_mod(vec![metadata("", "C")], true);
    assert!(blank.id.is_empty() && blank.name.is_empty());
    assert_eq!(blank.enabled, None);
}
