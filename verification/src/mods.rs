//! Installed mods: their metadata, and the decisions taken while scanning the
//! game's mod folder and toggling mods on and off.
use vstd::prelude::*;
use crate::order::Named;
use crate::text::{
    chars_of, find_char_from, lemma_first_occurrence, lowercase_of, prefix_before, starts_with,
    starts_with_text, string_of, suffix_after_first, to_lowercase,
};

verus! {

#[verifier::external_type_specification]
#[verifier::external_body]
pub struct ExPathBuf(std::path::PathBuf);

/// `std::path::PathBuf::new`: an empty path.
#[verifier::external_body]
fn empty_path() -> std::path::PathBuf {
    std::path::PathBuf::new()
}

/// The list of installed mods; the scan itself reads the file system.
pub struct ModList;

impl ModList {
    pub fn new() -> Self {
        ModList
    }
}

/// An installed mod, as described by its metadata file.
#[derive(Debug)]
pub struct Mod {
    pub id: String,
    pub name: String,
    pub folder: std::path::PathBuf,
    pub description: String,
    pub version: String,
    pub author: Vec<String>,
    pub dependencies: Vec<String>,
    pub enabled: Option<bool>,
    pub force_enable: bool,
}

impl Named for Mod {
    open spec fn name_view(&self) -> Seq<char> {
        self.name@
    }

    fn name_text(&self) -> (name: &String) {
        &self.name
    }
}

/// Text fields empty, no authors or dependencies, enabled state unknown, not forced on.
pub open spec fn is_blank_mod(m: Mod) -> bool {
    &&& m.id@.len() == 0
    &&& m.name@.len() == 0
    &&& m.description@.len() == 0
    &&& m.version@.len() == 0
    &&& m.author@.len() == 0
    &&& m.dependencies@.len() == 0
    &&& m.enabled is None
    &&& !m.force_enable
}

impl Mod {
    /// A blank mod with an empty folder path.
    pub fn new() -> (m: Self)
        ensures
            is_blank_mod(m),
    {
        Mod {
            id: String::new(),
            name: String::new(),
            folder: empty_path(),
            description: String::new(),
            version: String::new(),
            author: Vec::new(),
            dependencies: Vec::new(),
            enabled: None,
            force_enable: false,
        }
    }
}


/// The marker file whose presence disables a mod.
pub open spec fn ignore_marker() -> Seq<char> {
    ".lovelyignore"@
}

/// A mod is enabled unless its folder holds the marker file.
pub open spec fn enabled_by_entries(entry_names: Seq<String>) -> bool {
    !exists|i: int| 0 <= i < entry_names.len() && (#[trigger] entry_names[i])@ == ignore_marker()
}

/// Whether a mod whose folder holds the given entries (file names) is enabled.
pub fn enabled_from_entries(entry_names: &Vec<String>) -> (enabled: bool)
    ensures
        enabled == enabled_by_entries(entry_names@),
{
    let marker = String::from_str(".lovelyignore");
    let mut i: usize = 0;
    while i < entry_names.len()
        invariant
            i <= entry_names.len(),
            marker@ == ignore_marker(),
            forall|j: int| 0 <= j < i ==> (#[trigger] entry_names@[j])@ != ignore_marker(),
        decreases entry_names.len() - i,
    {
        if entry_names[i] == marker {
            return false;
        }
        i = i + 1;
    }
    true
}

/// What toggling a mod does, given whether it is enabled on disk now.
#[derive(Debug, Clone, Copy, PartialEq, Eq, Structural)]
pub enum ToggleStep {
    /// The mod is forced on and stays as it is.
    Refused,
    /// Write the marker file: the mod becomes disabled.
    Disable,
    /// Remove the marker file: the mod becomes enabled.
    Enable,
}

pub open spec fn toggle_step_for(force_enable: bool, enabled_now: bool) -> ToggleStep {
    if force_enable {
        ToggleStep::Refused
    } else if enabled_now {
        ToggleStep::Disable
    } else {
        ToggleStep::Enable
    }
}

/// The recorded enabled state after a toggle step.
pub open spec fn enabled_after(step: ToggleStep, before: Option<bool>) -> Option<bool> {
    match step {
        ToggleStep::Refused => before,
        ToggleStep::Disable => Some(false),
        ToggleStep::Enable => Some(true),
    }
}

/// Everything but the enabled state is equal.
pub open spec fn same_but_enabled(a: Mod, b: Mod) -> bool {
    &&& a.id == b.id
    &&& a.name == b.name
    &&& a.folder == b.folder
    &&& a.description == b.description
    &&& a.version == b.version
    &&& a.author == b.author
    &&& a.dependencies == b.dependencies
    &&& a.force_enable == b.force_enable
}

impl Mod {
    /// The step that toggles this mod, given whether it is enabled on disk now.
    pub fn toggle_step(&self, enabled_now: bool) -> (step: ToggleStep)
        ensures
            step == toggle_step_for(self.force_enable, enabled_now),
    {
        if self.force_enable {
            ToggleStep::Refused
        } else if enabled_now {
            ToggleStep::Disable
        } else {
            ToggleStep::Enable
        }
    }

    /// Records the enabled state once a toggle step has been carried out on disk.
    pub fn record_toggle(&mut self, step: ToggleStep)
        ensures
            final(self).enabled == enabled_after(step, old(self).enabled),
            same_but_enabled(*final(self), *old(self)),
    {
        match step {
            ToggleStep::Refused => {},
            ToggleStep::Disable => {
                self.enabled = Some(false);
            },
            ToggleStep::Enable => {
                self.enabled = Some(true);
            },
        }
    }
}

/// Toggling a mod that is not forced on flips it, and toggling it again (the disk now
/// showing the new state) brings back the state it had; a forced mod never changes.
pub proof fn lemma_toggle_twice_restores(force_enable: bool, enabled_now: bool, before: Option<bool>)
    ensures
        !force_enable ==> enabled_after(toggle_step_for(force_enable, enabled_now), before) == Some(!enabled_now),
        !force_enable ==> enabled_after(
            toggle_step_for(force_enable, !enabled_now),
            enabled_after(toggle_step_for(force_enable, enabled_now), before),
        ) == Some(enabled_now),
        force_enable ==> enabled_after(toggle_step_for(force_enable, enabled_now), before) == before,
{
}

/// How the scan treats a metadata file read from a mod's folder.
#[derive(Debug, Clone, Copy, PartialEq, Eq, Structural)]
pub enum MetadataKind {
    /// It names a mod id: the mod is listed as it is.
    Identified,
    /// It has no id but is Steamodded's own metadata: listed once completed.
    Steamodded,
    /// It has no id: it describes no mod.
    Unusable,
}

pub open spec fn metadata_kind_of(m: Mod) -> MetadataKind {
    if m.id@.len() != 0 {
        MetadataKind::Identified
    } else if m.name@ == "Steamodded"@ {
        MetadataKind::Steamodded
    } else {
        MetadataKind::Unusable
    }
}

/// How a metadata file read while scanning the mod folder is treated.
pub fn metadata_kind(m: &Mod) -> (kind: MetadataKind)
    ensures
        kind == metadata_kind_of(*m),
{
    if !m.id.as_str().is_empty() {
        MetadataKind::Identified
    } else if m.name == String::from_str("Steamodded") {
        MetadataKind::Steamodded
    } else {
        MetadataKind::Unusable
    }
}

/// The version Steamodded's `version.lua` declares on its first line: the text
/// between the first and the second double quote (or the line's end).
pub open spec fn steamodded_version_of(line: Seq<char>) -> Option<Seq<char>> {
    match suffix_after_first(line, '"') {
        Some(rest) => Some(prefix_before(rest, '"')),
        None => None,
    }
}

/// Reads the version from the first line of Steamodded's `version.lua`.
pub fn steamodded_version(line: &str) -> (version: Option<String>)
    ensures
        version is Some <==> steamodded_version_of(line@) is Some,
        version matches Some(v) ==> steamodded_version_of(line@) == Some(v@),
{
    let v = chars_of(line);
    let q = find_char_from(&v, 0, '"');
    proof {
        lemma_first_occurrence(line@, '"', q as int);
    }
    if q == v.len() {
        return None;
    }
    let r = find_char_from(&v, q + 1, '"');
    proof {
        let rest = line@.skip(q + 1);
        assert forall|i: int| 0 <= i < r - (q + 1) implies rest[i] != '"' by {
            assert(rest[i] == v@[q + 1 + i]);
        }
        if r < v.len() {
            assert(rest[r - (q + 1)] == v@[r as int]);
        }
        lemma_first_occurrence(rest, '"', r - (q + 1));
        assert(rest.take(r - (q + 1)) =~= v@.subrange(q + 1, r as int));
    }
    Some(string_of(&v, q + 1, r))
}

/// The completed entry for Steamodded's own metadata: id `steamodded`, the
/// version read from its `version.lua`, forced on, credited to its contributors.
pub open spec fn is_adopted_steamodded(before: Mod, after: Mod, version: Seq<char>, enabled: bool) -> bool {
    &&& after.id@ == "steamodded"@
    &&& after.version@ == version
    &&& after.enabled == Some(enabled)
    &&& after.force_enable
    &&& after.author@.len() == 1
    &&& after.author@[0]@ == "the Steamodded contributors"@
    &&& after.name == before.name
    &&& after.folder == before.folder
    &&& after.description == before.description
    &&& after.dependencies == before.dependencies
}

impl Mod {
    /// Completes Steamodded's own metadata, which carries no id.
    pub fn adopt_as_steamodded(&mut self, version: String, enabled: bool)
        ensures
            is_adopted_steamodded(*old(self), *final(self), version@, enabled),
    {
        self.id = String::from_str("steamodded");
        self.version = version;
        self.enabled = Some(enabled);
        self.force_enable = true;
        let mut author: Vec<String> = Vec::new();
        author.push(String::from_str("the Steamodded contributors"));
        self.author = author;
    }
}

/// Folders of the mod loaders themselves, which are not listed as mods when they
/// carry no metadata.
pub open spec fn is_loader_folder(folder_name: Seq<char>) -> bool {
    starts_with_text(lowercase_of(folder_name), "lovely"@) || starts_with_text(
        lowercase_of(folder_name),
        "steamodded"@,
    )
}

/// The entry listed for a folder without usable metadata: named after the folder,
/// version and author unknown.
pub open spec fn is_placeholder_for(m: Mod, folder: std::path::PathBuf, folder_name: Seq<char>, enabled: bool) -> bool {
    &&& m.name@ == folder_name
    &&& m.folder == folder
    &&& m.version@ == "(unknown)"@
    &&& m.author@.len() == 1
    &&& m.author@[0]@ == "unknown"@
    &&& m.enabled == Some(enabled)
    &&& m.id@.len() == 0
    &&& m.description@.len() == 0
    &&& m.dependencies@.len() == 0
    &&& !m.force_enable
}

/// The entry for a mod folder in which no metadata file described a mod, or none
/// when the folder belongs to a mod loader.
pub fn placeholder_mod(folder: std::path::PathBuf, folder_name: String, enabled: bool) -> (res: Option<Mod>)
    ensures
        res is None <==> is_loader_folder(folder_name@),
        res matches Some(m) ==> is_placeholder_for(m, folder, folder_name@, enabled),
        res matches Some(m) ==> m.enabled == Some(enabled) && m.name@ == folder_name@ && m.folder == folder,
{
    let lower = to_lowercase(folder_name.as_str());
    if starts_with(lower.as_str(), "lovely") || starts_with(lower.as_str(), "steamodded") {
        return None;
    }
    let mut author: Vec<String> = Vec::new();
    author.push(String::from_str("unknown"));
    Some(Mod {
        id: String::new(),
        name: folder_name,
        folder,
        description: String::new(),
        version: String::from_str("(unknown)"),
        author,
        dependencies: Vec::new(),
        enabled: Some(enabled),
        force_enable: false,
    })
}

/// A folder without usable metadata is listed with the enabled state found on disk
/// (a folder holding the marker file is listed as disabled), under the folder's own
/// name and path, and is never forced on.
pub proof fn lemma_placeholder_keeps_disk_state(m: Mod, folder: std::path::PathBuf, folder_name: Seq<char>, enabled: bool)
    requires
        is_placeholder_for(m, folder, folder_name, enabled),
    ensures
        m.enabled == Some(enabled),
        !enabled ==> m.enabled == Some(false),
        m.name@ == folder_name,
        m.folder == folder,
        !m.force_enable,
{
}

/// Whatever its metadata, every mod listed for a folder carries that folder's on-disk
/// enabled state.
pub proof fn lemma_listed_mods_keep_disk_state(before: Mod, after: Mod, enabled: bool, version: Seq<char>)
    requires
        is_listed_as(before, after, enabled, version),
    ensures
        after.enabled == Some(enabled),
{
}

/// Index `k` holds the last candidate that names a mod id.
pub open spec fn is_last_identified(candidates: Seq<Mod>, k: int) -> bool {
    &&& 0 <= k < candidates.len()
    &&& candidates[k].id@.len() != 0
    &&& forall|j: int| k < j < candidates.len() ==> (#[trigger] candidates[j]).id@.len() == 0
}

impl Mod {
    /// The mod a folder holds, from the metadata files read in it: the last one that
    /// names a mod id, or a blank mod when none does.
    pub fn from_candidates(candidates: Vec<Mod>) -> (m: Mod)
        ensures
            (exists|k: int| is_last_identified(candidates@, k) && candidates@[k] == m) || (
            (forall|j: int| 0 <= j < candidates@.len() ==> (#[trigger] candidates@[j]).id@.len() == 0)
                && is_blank_mod(m)),
    {
        let ghost src = candidates@;
        let mut found: Option<Mod> = None;
        let ghost mut at: int = -1;
        for c in it: candidates
            invariant
                it.seq() == src,
                found is None ==> forall|j: int| 0 <= j < it.index() ==> (#[trigger] src[j]).id@.len() == 0,
                found matches Some(f) ==> 0 <= at < it.index() && src[at] == f && src[at].id@.len() != 0
                    && forall|j: int| at < j < it.index() ==> (#[trigger] src[j]).id@.len() == 0,
        {
            let ghost n = it.index();
            assert(c == src[n]);
            if !c.id.as_str().is_empty() {
                found = Some(c);
                proof {
                    at = n;
                }
            }
        }
        match found {
            Some(f) => {
                assert(is_last_identified(src, at));
                f
            },
            None => Mod::new(),
        }
    }
}

/// The mod a folder describes, from the metadata files read in it and whether the
/// folder is enabled: the last file that names a mod id, with that enabled state, or a
/// blank mod when none does.
pub fn directory_mod(candidates: Vec<Mod>, enabled: bool) -> (m: Mod)
    ensures
        (exists|k: int|
            is_last_identified(candidates@, k) && m.enabled == Some(enabled) && same_but_enabled(m, candidates@[k]))
            || ((forall|j: int| 0 <= j < candidates@.len() ==> (#[trigger] candidates@[j]).id@.len() == 0)
            && is_blank_mod(m)),
{
    let ghost src = candidates@;
    let mut found = Mod::from_candidates(candidates);
    if !found.id.as_str().is_empty() {
        let ghost before = found;
        found.enabled = Some(enabled);
        proof {
            if !(exists|k: int| is_last_identified(src, k) && src[k] == before) {
                assert(is_blank_mod(before));
            }
        }
    }
    found
}

/// Some metadata file of the folder is Steamodded's own.
pub open spec fn has_steamodded_metadata(candidates: Seq<Mod>) -> bool {
    exists|i: int| 0 <= i < candidates.len() && metadata_kind_of(#[trigger] candidates[i]) == MetadataKind::Steamodded
}

/// Whether the folder's `version.lua` has to be read: some metadata file of the folder
/// is Steamodded's own.
pub fn needs_version_file(candidates: &Vec<Mod>) -> (res: bool)
    ensures
        res == has_steamodded_metadata(candidates@),
{
    let mut i: usize = 0;
    while i < candidates.len()
        invariant
            i <= candidates@.len(),
            forall|j: int| 0 <= j < i ==> metadata_kind_of(#[trigger] candidates@[j]) != MetadataKind::Steamodded,
        decreases candidates@.len() - i,
    {
        if metadata_kind(&candidates[i]) == MetadataKind::Steamodded {
            return true;
        }
        i = i + 1;
    }
    false
}

/// The positions of the metadata files that describe a mod, in order.
pub open spec fn usable_positions(candidates: Seq<Mod>) -> Seq<int>
    decreases candidates.len(),
{
    if candidates.len() == 0 {
        Seq::empty()
    } else {
        let rest = usable_positions(candidates.drop_last());
        if metadata_kind_of(candidates.last()) == MetadataKind::Unusable {
            rest
        } else {
            rest.push(candidates.len() - 1)
        }
    }
}

/// `after` is how the scan lists the metadata `before` of a folder that is enabled or
/// not as `enabled` says: as it is with that enabled state, or, for Steamodded's own
/// metadata, completed with the `version` read from its `version.lua`.
pub open spec fn is_listed_as(before: Mod, after: Mod, enabled: bool, version: Seq<char>) -> bool {
    if metadata_kind_of(before) == MetadataKind::Steamodded {
        is_adopted_steamodded(before, after, version, enabled)
    } else {
        after.enabled == Some(enabled) && same_but_enabled(after, before)
    }
}

/// The mods listed for one folder of the mods folder, from the metadata files read in
/// it (`candidates`, in the order they were read), whether the folder is enabled, and
/// the Steamodded version read from its `version.lua` when it was needed. Every
/// metadata file that describes a mod gives one entry; when none does, the folder is
/// listed under its own name, unless it belongs to a mod loader.
pub fn folder_mods(
    candidates: Vec<Mod>,
    enabled: bool,
    steamodded_version: Option<String>,
    folder: std::path::PathBuf,
    folder_name: String,
) -> (mods: Vec<Mod>)
    requires
        has_steamodded_metadata(candidates@) ==> steamodded_version is Some,
    ensures
        usable_positions(candidates@).len() > 0 ==> mods@.len() == usable_positions(candidates@).len()
            && forall|k: int|
            0 <= k < mods@.len() ==> is_listed_as(
                candidates@[usable_positions(candidates@)[k]],
                #[trigger] mods@[k],
                enabled,
                steamodded_version->0@,
            ),
        usable_positions(candidates@).len() == 0 && is_loader_folder(folder_name@) ==> mods@.len() == 0,
        usable_positions(candidates@).len() == 0 && !is_loader_folder(folder_name@) ==> mods@.len() == 1
            && is_placeholder_for(mods@[0], folder, folder_name@, enabled),
        forall|k: int| 0 <= k < mods@.len() ==> (#[trigger] mods@[k]).enabled == Some(enabled),
{
    let ghost src = candidates@;
    let mut mods: Vec<Mod> = Vec::new();
    for c in it: candidates
        invariant
            it.seq() == src,
            has_steamodded_metadata(src) ==> steamodded_version is Some,
            mods@.len() == usable_positions(src.take(it.index() as int)).len(),
            forall|j: int| 0 <= j < usable_positions(src.take(it.index() as int)).len() ==> 0 <= #[trigger] usable_positions(src.take(it.index() as int))[j] < it.index(),
            forall|k: int|
                0 <= k < mods@.len() ==> is_listed_as(
                    src[usable_positions(src.take(it.index() as int))[k]],
                    #[trigger] mods@[k],
                    enabled,
                    steamodded_version->0@,
                ),
    {
        let ghost n = it.index();
        let ghost before = mods@;
        let ghost prefix = src.take(n as int);
        let ghost next = src.take(n + 1);
        assert(c == src[n]);
        assert(next.drop_last() =~= prefix);
        assert(next.last() == c);
        let ghost cg = c;
        let mut c = c;
        match metadata_kind(&c) {
            MetadataKind::Identified => {
                c.enabled = Some(enabled);
                mods.push(c);
            },
            MetadataKind::Steamodded => {
                assert(has_steamodded_metadata(src)) by {
                    assert(metadata_kind_of(src[n]) == MetadataKind::Steamodded);
                }
                let version = match &steamodded_version {
                    Some(v) => v.clone(),
                    None => String::new(),
                };
                c.adopt_as_steamodded(version, enabled);
                mods.push(c);
            },
            MetadataKind::Unusable => {},
        }
        proof {
            let pos = usable_positions(next);
            if metadata_kind_of(cg) == MetadataKind::Unusable {
                assert(pos == usable_positions(prefix));
            } else {
                assert(pos == usable_positions(prefix).push(n as int));
            }
            assert forall|k: int| 0 <= k < mods@.len() implies is_listed_as(
                src[pos[k]],
                #[trigger] mods@[k],
                enabled,
                steamodded_version->0@,
            ) by {
                if k < before.len() {
                    assert(mods@[k] == before[k]);
                }
            }
        }
    }
    assert(src.take(src.len() as int) =~= src);
    if mods.len() == 0 {
        match placeholder_mod(folder, folder_name, enabled) {
            Some(m) => {
                mods.push(m);
            },
            None => {},
        }
    }
    mods
}

} // verus!
