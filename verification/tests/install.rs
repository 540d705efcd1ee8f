use balatui::catalog::RemoteMod;
use balatui::dir_name_from_url;
use balatui::install::{catalog_payload, find_mod_by_name, flattens_single_folder, looks_like_zip};
use std::io::Write;

#[test]
fn dir_name_is_the_file_stem() {
    assert_eq!(dir_name_from_url("https://example.com/releases/SealSeal.zip"), "SealSeal");
}

#[test]
fn dir_name_ignores_query_and_fragment() {
    assert_eq!(dir_name_from_url("https://example.com/a/Mod.v2.zip?raw=true#top"), "Mod.v2");
    assert_eq!(dir_name_from_url("https://example.com/a/Thing#frag/x.zip"), "Thing");
}

#[test]
fn dir_name_skips_trailing_slashes() {
    assert_eq!(dir_name_from_url("https://example.com/mods/Talisman//"), "Talisman");
}

#[test]
fn dir_name_falls_back_to_mod() {
    assert_eq!(dir_name_from_url(""), "mod");
    assert_eq!(dir_name_from_url("///"), "mod");
    assert_eq!(dir_name_from_url("https://example.com/.zip"), "mod");
    assert_eq!(dir_name_from_url("?only=query"), "mod");
}

#[test]
fn dir_name_without_extension_is_kept() {
    assert_eq!(dir_name_from_url("https://example.com/download/latest"), "latest");
}

#[test]
fn zip_signatures_are_recognised() {
    assert!(looks_like_zip(b"PK\x03\x04"));
    assert!(looks_like_zip(b"PK\x05\x06"));
    assert!(looks_like_zip(b"PK\x07\x08"));
    assert!(!looks_like_zip(b"PK\x03"));
    assert!(!looks_like_zip(b"PK\x01\x02"));
    assert!(!looks_like_zip(b"\x1f\x8b\x08\x00"));
}

#[test]
fn plain_payload_is_kept() {
    let data = b"[{\"name\":\"x\"}]".to_vec();
    assert_eq!(catalog_payload(data.clone()).unwrap(), data);
}

#[test]
fn gzip_payload_is_decompressed() {
    let mut enc = flate2::write::GzEncoder::new(Vec::new(), flate2::Compression::default());
    enc.write_all(b"catalog contents").unwrap();
    let gz = enc.finish().unwrap();
    assert_eq!(catalog_payload(gz).unwrap(), b"catalog contents".to_vec());
}

#[test]
fn broken_gzip_payload_is_an_error() {
    assert!(catalog_payload(vec![0x1f, 0x8b, 0x00, 0x01, 0x02]).is_err());
}

fn entry(name: &str, identifier: &str) -> RemoteMod {
    RemoteMod { name: name.to_string(), identifier: identifier.to_string(), ..Default::default() }
}

#[test]
fn mods_are_found_by_name_or_identifier_ignoring_case() {
    let catalog = vec![entry("Talisman", "talisman-mod"), entry("Cryptid", "cryptid"), entry("cryptid", "other")];
    assert_eq!(find_mod_by_name(&catalog, "TALISMAN"), Some(0));
    assert_eq!(find_mod_by_name(&catalog, "Talisman-Mod"), Some(0));
    assert_eq!(find_mod_by_name(&catalog, "CRYPTID"), Some(1));
    assert_eq!(find_mod_by_name(&catalog, "missing"), None);
}

#[test]
fn query_fragment_and_trailing_slash_leave_the_name() {
    let base = "https://example.com/mods/Foo.zip";
    assert_eq!(dir_name_from_url(&format!("{base}?raw=1")), dir_name_from_url(base));
    assert_eq!(dir_name_from_url(&format!("{base}#top")), dir_name_from_url(base));
    assert_eq!(dir_name_from_url("https://example.com/mods/Foo/"), "Foo");
    assert_eq!(dir_name_from_url("https://example.com/mods/Foo/"), dir_name_from_url("https://example.com/mods/Foo"));
}

#[test]
fn only_a_single_folder_is_moved_up() {
    assert!(flattens_single_folder(&vec![true]));
    assert!(!flattens_single_folder(&vec![false]));
    assert!(!flattens_single_folder(&vec![true, true]));
    assert!(!flattens_single_folder(&vec![]));
}
