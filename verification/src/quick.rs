//! The quick options tab: its entries, what each does, and how the game is launched.
use vstd::prelude::*;
use crate::text::views_of;

verus! {

/// What choosing a quick option does.
#[derive(Debug, Clone, Copy, PartialEq, Eq, Structural)]
pub enum QuickAction {
    /// Start the game through Steam, with or without its console.
    Launch { disable_console: bool },
    /// Open the game's data folder (saves, settings and the mods folder).
    OpenGameDataFolder,
    /// Open the folder, inside the game's data folder, that holds the mods.
    OpenModsFolder,
    /// Open this program's own data folder.
    OpenOwnDataFolder,
    /// Download and install the Lovely injector.
    InstallLovely,
    /// Reinstall every installed mod from the catalog.
    ReinstallAllMods,
}

/// The entries of the quick options tab, top to bottom.
pub open spec fn quick_option_texts() -> Seq<Seq<char>> {
    seq![
        "Launch Balatro"@,
        "Launch Balatro With Console"@,
        "Open Balatro Data Folder"@,
        "Open Balatro Mods Folder"@,
        "Open Balatro-tui Data Folder"@,
        "Install/Update Lovely"@,
        "Reinstall/Update All Mods"@,
    ]
}

/// What the entry at `index` does.
pub open spec fn quick_action_at(index: int) -> Option<QuickAction> {
    if index == 0 {
        Some(QuickAction::Launch { disable_console: true })
    } else if index == 1 {
        Some(QuickAction::Launch { disable_console: false })
    } else if index == 2 {
        Some(QuickAction::OpenGameDataFolder)
    } else if index == 3 {
        Some(QuickAction::OpenModsFolder)
    } else if index == 4 {
        Some(QuickAction::OpenOwnDataFolder)
    } else if index == 5 {
        Some(QuickAction::InstallLovely)
    } else if index == 6 {
        Some(QuickAction::ReinstallAllMods)
    } else {
        None
    }
}

/// The entries of the quick options tab.
pub fn quick_option_labels() -> (labels: Vec<String>)
    ensures
        views_of(labels@) == quick_option_texts(),
{
    let mut labels: Vec<String> = Vec::new();
    labels.push(String::from_str("Launch Balatro"));
    labels.push(String::from_str("Launch Balatro With Console"));
    labels.push(String::from_str("Open Balatro Data Folder"));
    labels.push(String::from_str("Open Balatro Mods Folder"));
    labels.push(String::from_str("Open Balatro-tui Data Folder"));
    labels.push(String::from_str("Install/Update Lovely"));
    labels.push(String::from_str("Reinstall/Update All Mods"));
    assert(views_of(labels@) =~= quick_option_texts());
    labels
}

/// What choosing the entry at `index` does; nothing past the last entry.
pub fn quick_action(index: usize) -> (action: Option<QuickAction>)
    ensures
        action == quick_action_at(index as int),
        index < 7 ==> (action matches Some(a) && label_of(a) == quick_option_texts()[index as int]),
        index >= 7 ==> action is None,
{
    match index {
        0 => Some(QuickAction::Launch { disable_console: true }),
        1 => Some(QuickAction::Launch { disable_console: false }),
        2 => Some(QuickAction::OpenGameDataFolder),
        3 => Some(QuickAction::OpenModsFolder),
        4 => Some(QuickAction::OpenOwnDataFolder),
        5 => Some(QuickAction::InstallLovely),
        6 => Some(QuickAction::ReinstallAllMods),
        _ => None,
    }
}

/// The text of the entry that does `action`.
pub open spec fn label_of(action: QuickAction) -> Seq<char> {
    match action {
        QuickAction::Launch { disable_console } => if disable_console {
            "Launch Balatro"@
        } else {
            "Launch Balatro With Console"@
        },
        QuickAction::OpenGameDataFolder => "Open Balatro Data Folder"@,
        QuickAction::OpenModsFolder => "Open Balatro Mods Folder"@,
        QuickAction::OpenOwnDataFolder => "Open Balatro-tui Data Folder"@,
        QuickAction::InstallLovely => "Install/Update Lovely"@,
        QuickAction::ReinstallAllMods => "Reinstall/Update All Mods"@,
    }
}

/// Each entry does what its text says, and no two entries do the same thing: every
/// action of the tab is reached by exactly one entry.
pub proof fn lemma_entries_do_what_they_say(i: int, j: int)
    requires
        0 <= i < quick_option_texts().len(),
        0 <= j < quick_option_texts().len(),
    ensures
        quick_action_at(i) matches Some(a) && label_of(a) == quick_option_texts()[i],
        i != j ==> quick_action_at(i) != quick_action_at(j),
{
    assert(quick_option_texts().len() == 7);
}

/// Every action the tab offers is reached by some entry.
pub proof fn lemma_every_action_is_offered(a: QuickAction)
    ensures
        exists|i: int| 0 <= i < quick_option_texts().len() && quick_action_at(i) == Some(a),
{
    assert(quick_option_texts().len() == 7);
    match a {
        QuickAction::Launch { disable_console } => {
            if disable_console {
                assert(quick_action_at(0) == Some(a));
            } else {
                assert(quick_action_at(1) == Some(a));
            }
        },
        QuickAction::OpenGameDataFolder => {
            assert(quick_action_at(2) == Some(a));
        },
        QuickAction::OpenModsFolder => {
            assert(quick_action_at(3) == Some(a));
        },
        QuickAction::OpenOwnDataFolder => {
            assert(quick_action_at(4) == Some(a));
        },
        QuickAction::InstallLovely => {
            assert(quick_action_at(5) == Some(a));
        },
        QuickAction::ReinstallAllMods => {
            assert(quick_action_at(6) == Some(a));
        },
    }
}

/// Every entry of the tab does something, and nothing past them does.
pub proof fn lemma_every_entry_has_an_action(index: int)
    ensures
        0 <= index < quick_option_texts().len() <==> quick_action_at(index) is Some,
{
}

/// The Steam arguments that launch the game (Steam app 2379780).
pub open spec fn launch_args_for(disable_console: bool) -> Seq<Seq<char>> {
    let base = seq!["-applaunch"@, "2379780"@];
    if disable_console { base.push("--disable-console"@) } else { base }
}

/// The arguments passed to `steam` to launch the game.
pub fn launch_arguments(disable_console: bool) -> (args: Vec<String>)
    ensures
        views_of(args@) == launch_args_for(disable_console),
{
    let mut args: Vec<String> = Vec::new();
    args.push(String::from_str("-applaunch"));
    args.push(String::from_str("2379780"));
    if disable_console {
        args.push(String::from_str("--disable-console"));
    }
    assert(views_of(args@) =~= launch_args_for(disable_console));
    args
}

/// The folders, under Steam's data folder, that lead to the game's installation.
pub open spec fn game_dir_path() -> Seq<Seq<char>> {
    seq!["steamapps"@, "common"@, "Balatro"@]
}

pub fn game_dir_parts() -> (parts: Vec<String>)
    ensures
        views_of(parts@) == game_dir_path(),
{
    let mut parts: Vec<String> = Vec::new();
    parts.push(String::from_str("steamapps"));
    parts.push(String::from_str("common"));
    parts.push(String::from_str("Balatro"));
    assert(views_of(parts@) =~= game_dir_path());
    parts
}

/// The folders, under Steam's data folder, that lead to the game's data folder inside
/// the Proton prefix that runs it on Linux.
pub open spec fn proton_data_dir_path() -> Seq<Seq<char>> {
    seq![
        "steamapps"@,
        "compatdata"@,
        "2379780"@,
        "pfx"@,
        "drive_c"@,
        "users"@,
        "steamuser"@,
        "AppData"@,
        "Roaming"@,
        "Balatro"@,
    ]
}

pub fn proton_data_dir_parts() -> (parts: Vec<String>)
    ensures
        views_of(parts@) == proton_data_dir_path(),
        views_of(parts@).subrange(7, 9) == windows_roaming_app_data(),
        views_of(parts@)[2] == launch_args_for(false)[1],
        views_of(parts@).last() == game_dir_path().last(),
{
    let mut parts: Vec<String> = Vec::new();
    parts.push(String::from_str("steamapps"));
    parts.push(String::from_str("compatdata"));
    parts.push(String::from_str("2379780"));
    parts.push(String::from_str("pfx"));
    parts.push(String::from_str("drive_c"));
    parts.push(String::from_str("users"));
    parts.push(String::from_str("steamuser"));
    parts.push(String::from_str("AppData"));
    parts.push(String::from_str("Roaming"));
    parts.push(String::from_str("Balatro"));
    assert(views_of(parts@) =~= proton_data_dir_path());
    assert(views_of(parts@).subrange(7, 9) =~= windows_roaming_app_data());
    parts
}

/// Where Windows keeps a user's roaming application data, under the user's folder.
pub open spec fn windows_roaming_app_data() -> Seq<Seq<char>> {
    seq!["AppData"@, "Roaming"@]
}

/// On Linux the game runs in the Proton prefix Steam keeps for it under
/// `steamapps/compatdata`, named by the same app id that launches it, and its data
/// folder is what the game's own folder name names inside the roaming application
/// data of the prefix's user `steamuser` on drive C.
pub proof fn lemma_proton_data_dir_layout(disable_console: bool)
    ensures
        proton_data_dir_path() == seq!["steamapps"@, "compatdata"@] + seq![launch_args_for(disable_console)[1]] + seq![
            "pfx"@,
            "drive_c"@,
            "users"@,
            "steamuser"@,
        ] + windows_roaming_app_data() + seq![game_dir_path().last()],
        proton_data_dir_path().subrange(0, 1) == game_dir_path().subrange(0, 1),
{
    assert(proton_data_dir_path() =~= seq!["steamapps"@, "compatdata"@] + seq![launch_args_for(disable_console)[1]]
        + seq!["pfx"@, "drive_c"@, "users"@, "steamuser"@] + windows_roaming_app_data() + seq![game_dir_path().last()]);
    assert(proton_data_dir_path().subrange(0, 1) =~= game_dir_path().subrange(0, 1));
}

/// The folder, inside the game's data folder, that holds the mods.
pub fn mods_folder_name() -> (name: String)
    ensures
        name@ == "Mods"@,
{
    String::from_str("Mods")
}

/// The titles of the main tabs.
pub open spec fn tab_titles() -> Seq<Seq<char>> {
    seq!["Quick Options"@, "Installed Mods"@, "Find New Mods"@]
}

pub fn tab_title_list() -> (titles: Vec<String>)
    ensures
        views_of(titles@) == tab_titles(),
{
    let mut titles: Vec<String> = Vec::new();
    titles.push(String::from_str("Quick Options"));
    titles.push(String::from_str("Installed Mods"));
    titles.push(String::from_str("Find New Mods"));
    assert(views_of(titles@) =~= tab_titles());
    titles
}

/// The key bindings listed at the bottom of the screen for the tab at `tab`.
pub open spec fn key_hints_for(tab: int) -> Seq<Seq<char>> {
    if tab == 0 {
        seq!["[Up/Down: Switch Option]"@, "[Enter: Select Option]"@, "[Tab/Shift+Tab: Switch Tabs]"@, "[Esc: Exit]"@]
    } else if tab == 1 {
        seq![
            "[Up/Down: Select Mod]"@,
            "[Shift+D: Delete Mod]"@,
            "[Enter: Select Option]"@,
            "[Tab/Shift+Tab: Switch Tabs]"@,
            "[Esc: Exit]"@,
        ]
    } else if tab == 2 {
        seq!["[Enter: Install Mod]"@, "[Tab/Shift+Tab: Switch Tabs]"@, "[Esc: Exit]"@]
    } else {
        Seq::empty()
    }
}

/// The key bindings shown for a tab.
pub fn key_hints(tab: usize) -> (keys: Vec<String>)
    ensures
        views_of(keys@) == key_hints_for(tab as int),
{
    let mut keys: Vec<String> = Vec::new();
    if tab == 0 {
        keys.push(String::from_str("[Up/Down: Switch Option]"));
        keys.push(String::from_str("[Enter: Select Option]"));
        keys.push(String::from_str("[Tab/Shift+Tab: Switch Tabs]"));
        keys.push(String::from_str("[Esc: Exit]"));
    } else if tab == 1 {
        keys.push(String::from_str("[Up/Down: Select Mod]"));
        keys.push(String::from_str("[Shift+D: Delete Mod]"));
        keys.push(String::from_str("[Enter: Select Option]"));
        keys.push(String::from_str("[Tab/Shift+Tab: Switch Tabs]"));
        keys.push(String::from_str("[Esc: Exit]"));
    } else if tab == 2 {
        keys.push(String::from_str("[Enter: Install Mod]"));
        keys.push(String::from_str("[Tab/Shift+Tab: Switch Tabs]"));
        keys.push(String::from_str("[Esc: Exit]"));
    }
    assert(views_of(keys@) =~= key_hints_for(tab as int));
    keys
}

} // verus!
