use balatui::catalog::{merge_key, thunderstore_mods, TsPackage, TsVersion};
use balatui::order::sort_by_name;
use balatui::{default_source, install_dir, merge_catalogs, RemoteMod};

fn mod_entry(source: &str, name: &str, owner: &str) -> RemoteMod {
    RemoteMod {
        name: name.to_string(),
        version: "1.0.0".to_string(),
        owner: owner.to_string(),
        categories: vec![],
        repo: String::new(),
        download_url: format!("https://example.com/{}/{}", owner, name),
        folder_name: format!("{}@{}", owner, name),
        identifier: name.to_string(),
        id: name.to_string(),
        description: String::new(),
        source: source.to_string(),
        package_url: String::new(),
    }
}

#[test]
fn ts_wins_on_same_owner_and_name() {
    let bmi = vec![mod_entry("bmi", "Steamodded", "notnirep")];
    let ts = vec![mod_entry("thunderstore", "Steamodded", "notnirep")];

    let merged = merge_catalogs(bmi, ts);
    assert_eq!(merged.len(), 1);
    assert_eq!(merged[0].source, "thunderstore");
}

#[test]
fn same_name_different_owner_both_kept() {
    let a = mod_entry("thunderstore", "cryo", "alex");
    let b = mod_entry("thunderstore", "cryo", "bob");

    let merged = merge_catalogs(vec![], vec![a, b]);
    assert_eq!(merged.len(), 2);
}

#[test]
fn distinct_mods_kept_and_sorted() {
    let bmi_a = mod_entry("bmi", "Apple", "farmer");
    let ts_b = mod_entry("thunderstore", "Banana", "grocer");

    let merged = merge_catalogs(vec![bmi_a], vec![ts_b]);
    assert_eq!(merged.len(), 2);
    assert_eq!(merged[0].name, "Apple");
    assert_eq!(merged[1].name, "Banana");
}

#[test]
fn merge_is_case_insensitive() {
    let bmi = vec![mod_entry("bmi", "Steamodded", "NotNirep")];
    let ts = vec![mod_entry("thunderstore", "Steamodded", "notnirep")];

    let merged = merge_catalogs(bmi, ts);
    assert_eq!(merged.len(), 1);
    assert_eq!(merged[0].source, "thunderstore");
}

#[test]
fn merge_key_lowercases_owner_and_name() {
    let m = mod_entry("bmi", "SteamODDED", "NotNirep");
    assert_eq!(merge_key(&m), ("notnirep".to_string(), "steamodded".to_string()));
}

#[test]
fn slash_in_owner_or_name_does_not_collide() {
    let bmi = vec![mod_entry("bmi", "c", "a/b")];
    let ts = vec![mod_entry("thunderstore", "b/c", "a")];
    let merged = merge_catalogs(bmi, ts);
    assert_eq!(merged.len(), 2);
    assert_eq!(merged[0].name, "b/c");
    assert_eq!(merged[1].name, "c");
}

#[test]
fn first_index_entry_wins_among_index_duplicates() {
    let mut first = mod_entry("bmi", "Cryo", "alex");
    first.version = "1.0.0".to_string();
    let mut second = mod_entry("bmi", "cryo", "Alex");
    second.version = "2.0.0".to_string();
    let merged = merge_catalogs(vec![first, second], vec![]);
    assert_eq!(merged.len(), 1);
    assert_eq!(merged[0].version, "1.0.0");
    assert_eq!(merged[0].name, "Cryo");
}

#[test]
fn last_thunderstore_entry_wins_among_its_duplicates() {
    let mut first = mod_entry("thunderstore", "Cryo", "alex");
    first.version = "1.0.0".to_string();
    let mut second = mod_entry("thunderstore", "Cryo", "alex");
    second.version = "2.0.0".to_string();
    let index = mod_entry("bmi", "Cryo", "alex");
    let merged = merge_catalogs(vec![index], vec![first, second]);
    assert_eq!(merged.len(), 1);
    assert_eq!(merged[0].version, "2.0.0");
    assert_eq!(merged[0].source, "thunderstore");
}

#[test]
fn merge_orders_by_byte_order_of_names() {
    let merged = merge_catalogs(
        vec![mod_entry("bmi", "banana", "a"), mod_entry("bmi", "Zebra", "b")],
        vec![mod_entry("thunderstore", "apple", "c"), mod_entry("thunderstore", "Apple", "d")],
    );
    let names: Vec<&str> = merged.iter().map(|m| m.name.as_str()).collect();
    assert_eq!(names, vec!["Apple", "Zebra", "apple", "banana"]);
}

#[test]
fn merge_of_empty_catalogs_is_empty() {
    assert!(merge_catalogs(vec![], vec![]).is_empty());
}

#[test]
fn sort_by_name_orders_entries() {
    let mut mods = vec![mod_entry("bmi", "c", "x"), mod_entry("bmi", "a", "y"), mod_entry("bmi", "b", "z")];
    sort_by_name(&mut mods);
    let names: Vec<&str> = mods.iter().map(|m| m.name.as_str()).collect();
    assert_eq!(names, vec!["a", "b", "c"]);
}

#[test]
fn install_dir_prefers_folder_name() {
    let m = mod_entry("bmi", "Cryo", "alex");
    assert_eq!(install_dir(&m), "alex@Cryo");
    let mut bare = mod_entry("bmi", "Cryo", "alex");
    bare.folder_name = String::new();
    bare.identifier = "cryo-mod".to_string();
    assert_eq!(install_dir(&bare), "cryo-mod");
}

#[test]
fn default_source_is_the_index() {
    assert_eq!(default_source(), "bmi");
}

fn package(name: &str, owner: &str, deprecated: bool, versions: usize) -> TsPackage {
    TsPackage {
        name: name.to_string(),
        owner: owner.to_string(),
        package_url: format!("https://thunderstore.io/{}/{}", owner, name),
        categories: vec!["Mods".to_string()],
        is_deprecated: deprecated,
        versions: (0..versions)
            .map(|i| TsVersion {
                version_number: format!("{}.0.0", versions - i),
                description: format!("{} description", name),
                download_url: format!("https://dl/{}/{}", name, versions - i),
            })
            .collect(),
    }
}

#[test]
fn thunderstore_packages_become_catalog_entries() {
    let mods = thunderstore_mods(vec![
        package("Cryo", "alex", false, 2),
        package("Old", "bob", true, 1),
        package("R2modman", "ebkr", false, 1),
        package("Lovely", "ethan", false, 1),
        package("Empty", "carol", false, 0),
        package("Talisman", "dave", false, 1),
    ]);
    assert_eq!(mods.len(), 2);
    let cryo = &mods[0];
    assert_eq!(cryo.name, "Cryo");
    assert_eq!(cryo.version, "2.0.0");
    assert_eq!(cryo.owner, "alex");
    assert_eq!(cryo.folder_name, "alex@Cryo");
    assert_eq!(cryo.identifier, "Cryo");
    assert_eq!(cryo.id, "Cryo");
    assert_eq!(cryo.source, "thunderstore");
    assert_eq!(cryo.download_url, "https://dl/Cryo/2");
    assert_eq!(cryo.description, "Cryo description");
    assert_eq!(cryo.categories, vec!["Mods".to_string()]);
    assert_eq!(cryo.repo, "");
    assert_eq!(cryo.package_url, "https://thunderstore.io/alex/Cryo");
    assert_eq!(mods[1].name, "Talisman");
}
