use balatui::catalog::RemoteMod;
use balatui::components::{
    clamp_selection, select_next, select_previous, About, Actions, EditKey, TextInput,
};
use balatui::listing::{description_lines, detail_rows, mod_option_cells, remote_option_cells};
use balatui::mods::Mod;
use balatui::motd::motd;
use balatui::quick::{key_hints, launch_arguments, quick_action, quick_option_labels, tab_title_list, QuickAction};
use balatui::search::{matching_positions, search_mods};

const MESSAGES: [&str; 11] = [
    "First we Ball, then we Atro. We Balatro!",
    "Someone call Bean!",
    "Surely you'll pull a baron this time.",
    "Also try the SealSeal mod!",
    "You are valid!",
    "Nerf Ceremonial Dagger.",
    "Praise Zech!",
    "Only cool people can see this message :3",
    ":3",
    "Also try Cloverpit!",
    "PhotoPhotoPhotoChadChad",
];

#[test]
fn motd_is_one_of_the_messages() {
    for _ in 0..20 {
        assert!(MESSAGES.contains(&motd().as_str()));
    }
    let about = About::new();
    assert!(MESSAGES.contains(&about.motd_text().as_str()));
}

#[test]
fn text_input_edits() {
    let mut t = TextInput::new();
    assert!(t.text.is_empty());
    t.apply_key(EditKey::Char('a'));
    t.apply_key(EditKey::Char('b'));
    assert_eq!(t.text, "ab");
    t.apply_key(EditKey::Backspace);
    assert_eq!(t.text, "a");
    t.apply_key(EditKey::Other);
    assert_eq!(t.text, "a");
    t.apply_key(EditKey::Backspace);
    t.apply_key(EditKey::Backspace);
    assert_eq!(t.text, "");
    let f = TextInput::from("x".to_string(), "Search...".to_string(), "Mods".to_string());
    assert_eq!((f.text.as_str(), f.placeholder.as_str(), f.title.as_str()), ("x", "Search...", "Mods"));
}

#[test]
fn selection_wraps_around() {
    assert_eq!(select_next(2, 0, 3), (0, 0));
    assert_eq!(select_previous(0, 0, 3), (2, 0));
    assert_eq!(select_next(0, 0, 1), (0, 0));
    assert_eq!(select_next(6, 0, 10), (7, 2));
    assert_eq!(select_previous(7, 2, 10), (6, 1));
    assert_eq!(select_previous(5, 9, 10), (4, 0));
    assert_eq!(select_next(3, 4, 10), (4, 4));
    assert_eq!(clamp_selection(5, 3), 2);
    assert_eq!(clamp_selection(5, 0), 0);
    assert_eq!(clamp_selection(1, 3), 1);
    assert_eq!(Actions::Selected(1), Actions::Selected(1));
    assert_ne!(Actions::Selected(1), Actions::Reload);
}

#[test]
fn rows_show_mod_fields() {
    let mut m = Mod::new();
    m.name = "Cryo".to_string();
    m.version = "1.2".to_string();
    m.author = vec!["A".to_string(), "B".to_string()];
    assert_eq!(mod_option_cells(&m), vec!["Cryo", " 1.2 ", "by A, B"]);
    m.enabled = Some(false);
    assert_eq!(mod_option_cells(&m), vec!["Cryo", " 1.2 ", "by A, B", " (disabled)"]);
    let r = RemoteMod {
        name: "Cryo".to_string(),
        owner: "alex".to_string(),
        description: "Cold".to_string(),
        ..Default::default()
    };
    assert_eq!(remote_option_cells(&r), vec!["Cryo", " by alex", " Cold"]);
}

#[test]
fn details_panel_rows() {
    let mut r = RemoteMod {
        name: "Cryo".to_string(),
        version: "1.0".to_string(),
        owner: "alex".to_string(),
        source: "bmi".to_string(),
        categories: vec!["Joker".to_string(), "QoL".to_string()],
        package_url: "https://pkg".to_string(),
        ..Default::default()
    };
    let rows = detail_rows(&r);
    let expect: Vec<(String, String)> = [
        ("Name", "Cryo"),
        ("Version", "1.0"),
        ("By", "alex"),
        ("Source", "bmi"),
        ("Categories", "Joker, QoL"),
        ("Website", "https://pkg"),
    ]
    .iter()
    .map(|(a, b)| (a.to_string(), b.to_string()))
    .collect();
    assert_eq!(rows, expect);
    r.repo = "https://repo".to_string();
    assert_eq!(detail_rows(&r)[5].1, "https://repo");
    r.repo = String::new();
    r.package_url = String::new();
    assert_eq!(detail_rows(&r).len(), 5);
}

#[test]
fn description_lines_follow_str_lines() {
    for text in ["", "one", "one\ntwo", "one\r\ntwo\n", "\n", "a\n\nb", "x\r", "a\rb\n"] {
        let expect: Vec<String> = text.lines().map(|l| l.to_string()).collect();
        assert_eq!(description_lines(text), expect, "text {:?}", text);
    }
}

#[test]
fn quick_options_map_to_actions() {
    let labels = quick_option_labels();
    assert_eq!(labels.len(), 7);
    assert_eq!(labels[0], "Launch Balatro");
    assert_eq!(quick_action(0), Some(QuickAction::Launch { disable_console: true }));
    assert_eq!(quick_action(1), Some(QuickAction::Launch { disable_console: false }));
    assert_eq!(quick_action(2), Some(QuickAction::OpenGameDataFolder));
    assert_eq!(quick_action(3), Some(QuickAction::OpenModsFolder));
    assert_eq!(quick_action(5), Some(QuickAction::InstallLovely));
    assert_eq!(quick_action(6), Some(QuickAction::ReinstallAllMods));
    assert_eq!(quick_action(7), None);
    assert_eq!(launch_arguments(true), vec!["-applaunch", "2379780", "--disable-console"]);
    assert_eq!(launch_arguments(false), vec!["-applaunch", "2379780"]);
    assert_eq!(tab_title_list(), vec!["Quick Options", "Installed Mods", "Find New Mods"]);
    assert_eq!(key_hints(2), vec!["[Enter: Install Mod]", "[Tab/Shift+Tab: Switch Tabs]", "[Esc: Exit]"]);
    assert!(key_hints(3).is_empty());
}

fn named(name: &str) -> RemoteMod {
    RemoteMod { name: name.to_string(), ..Default::default() }
}

#[test]
fn empty_search_shows_everything() {
    let mods = vec![named("Cryo"), named("Talisman"), named("cryo")];
    assert_eq!(search_mods(&mods, ""), vec![0, 1, 2]);
}

#[test]
fn search_finds_matching_names() {
    let mods = vec![named("Cryptid"), named("Talisman"), named("Jokers Plus")];
    let found = search_mods(&mods, "talis");
    assert_eq!(found, vec![1]);
    assert!(search_mods(&mods, "zzzz").is_empty());
}

#[test]
fn ranked_names_map_to_first_positions() {
    let mods = vec![named("Cryo"), named("Talisman"), named("cryo")];
    let ranked = vec!["talisman".to_string(), "cryo".to_string(), "unknown".to_string()];
    assert_eq!(matching_positions(&mods, &ranked), vec![1, 0]);
}

#[test]
fn space_only_query_shows_first_of_each_name() {
    let mods = vec![named("Cryo"), named("Talisman"), named("cryo")];
    assert_eq!(search_mods(&mods, "  "), vec![0, 1, 0]);
}

#[test]
fn search_keeps_only_names_matching_the_query() {
    let mods = vec![named("Cryptid"), named("Talisman"), named("Cryo")];
    let mut found = search_mods(&mods, "cry");
    found.sort();
    assert_eq!(found, vec![0, 2]);
}

#[test]
fn short_lists_keep_any_selection() {
    assert_eq!(select_next(usize::MAX, 3, 1), (usize::MAX, usize::MAX - 5));
    assert_eq!(select_previous(usize::MAX, 3, 0), (usize::MAX, 3));
    assert_eq!(select_previous(0, 9, 4), (3, 0));
    assert_eq!(select_next(3, 9, 4), (0, 9));
}
