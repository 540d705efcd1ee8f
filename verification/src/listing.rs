//! What the lists and panels of the interface show for a mod, as text.
use vstd::prelude::*;
use crate::catalog::RemoteMod;
use crate::components::clamp_selection;
use crate::mods::{is_placeholder_for, Mod};
use crate::order::{is_stable_sort_by_name, sort_by_name};
use crate::text::{
    chars_of, find_char_from, join, joined, lemma_first_occurrence, prefix_before, string_of,
    suffix_after_first, views_of,
};

verus! {

/// The cells of an installed mod's row: its name, its version, its authors, and a
/// mark when it is disabled.
pub open spec fn mod_cells(m: Mod) -> Seq<Seq<char>> {
    let base = seq![
        m.name@,
        " "@ + m.version@ + " "@,
        "by "@ + joined(views_of(m.author@), ", "@),
    ];
    if m.enabled == Some(false) { base.push(" (disabled)"@) } else { base }
}

/// A folder listed without metadata while disabled on disk shows the disabled mark as
/// the last cell of its row; one enabled on disk shows no mark.
pub proof fn lemma_placeholder_row_marks_disk_state(m: Mod, folder: std::path::PathBuf, folder_name: Seq<char>, enabled: bool)
    requires
        is_placeholder_for(m, folder, folder_name, enabled),
    ensures
        !enabled ==> mod_cells(m).len() == 4 && mod_cells(m)[3] == " (disabled)"@,
        enabled ==> mod_cells(m).len() == 3,
        mod_cells(m)[0] == folder_name,
{
}

/// The row shown for an installed mod.
pub fn mod_option_cells(m: &Mod) -> (cells: Vec<String>)
    ensures
        views_of(cells@) == mod_cells(*m),
{
    let mut cells: Vec<String> = Vec::new();
    cells.push(m.name.clone());
    let mut version = String::from_str(" ");
    version.append(m.version.as_str());
    version.append(" ");
    cells.push(version);
    let mut by = String::from_str("by ");
    let authors = join(&m.author, ", ");
    by.append(authors.as_str());
    cells.push(by);
    let disabled = match m.enabled {
        Some(e) => !e,
        None => false,
    };
    if disabled {
        cells.push(String::from_str(" (disabled)"));
    }
    assert(views_of(cells@) =~= mod_cells(*m));
    cells
}

/// Lists the installed mods: sorts them by name (stably) and gives one row per mod, in
/// that order, with the selection moved back inside the list when it is past its end.
pub fn installed_rows(mods: &mut Vec<Mod>, selected: usize) -> (res: (Vec<Vec<String>>, usize))
    ensures
        is_stable_sort_by_name(old(mods)@, final(mods)@),
        final(mods)@.to_multiset() == old(mods)@.to_multiset(),
        res.0@.len() == final(mods)@.len(),
        forall|i: int| 0 <= i < res.0@.len() ==> views_of((#[trigger] res.0@[i])@) == mod_cells(final(mods)@[i]),
        res.1 == if selected < final(mods)@.len() {
            selected as int
        } else if final(mods)@.len() == 0 {
            0
        } else {
            final(mods)@.len() - 1
        },
{
    sort_by_name(mods);
    let sel = clamp_selection(selected, mods.len());
    let mut rows: Vec<Vec<String>> = Vec::new();
    let mut i: usize = 0;
    while i < mods.len()
        invariant
            i <= mods@.len(),
            rows@.len() == i,
            forall|j: int| 0 <= j < i ==> views_of((#[trigger] rows@[j])@) == mod_cells(mods@[j]),
        decreases mods@.len() - i,
    {
        rows.push(mod_option_cells(&mods[i]));
        i = i + 1;
    }
    (rows, sel)
}

/// The cells of a catalog entry's row: its name, its owner, its description.
pub open spec fn remote_cells(m: RemoteMod) -> Seq<Seq<char>> {
    seq![m.name@, " by "@ + m.owner@, " "@ + m.description@]
}

/// The row shown for a catalog entry.
pub fn remote_option_cells(m: &RemoteMod) -> (cells: Vec<String>)
    ensures
        views_of(cells@) == remote_cells(*m),
{
    let mut cells: Vec<String> = Vec::new();
    cells.push(m.name.clone());
    let mut by = String::from_str(" by ");
    by.append(m.owner.as_str());
    cells.push(by);
    let mut desc = String::from_str(" ");
    desc.append(m.description.as_str());
    cells.push(desc);
    assert(views_of(cells@) =~= remote_cells(*m));
    cells
}

/// Lists catalog entries: sorts them by name (stably) and gives one row per entry, in
/// that order.
pub fn catalog_rows(mods: &mut Vec<RemoteMod>) -> (rows: Vec<Vec<String>>)
    ensures
        is_stable_sort_by_name(old(mods)@, final(mods)@),
        final(mods)@.to_multiset() == old(mods)@.to_multiset(),
        rows@.len() == final(mods)@.len(),
        forall|i: int| 0 <= i < rows@.len() ==> views_of((#[trigger] rows@[i])@) == remote_cells(final(mods)@[i]),
{
    sort_by_name(mods);
    let mut rows: Vec<Vec<String>> = Vec::new();
    let mut i: usize = 0;
    while i < mods.len()
        invariant
            i <= mods@.len(),
            rows@.len() == i,
            forall|j: int| 0 <= j < i ==> views_of((#[trigger] rows@[j])@) == remote_cells(mods@[j]),
        decreases mods@.len() - i,
    {
        rows.push(remote_option_cells(&mods[i]));
        i = i + 1;
    }
    rows
}

/// The web page given for a catalog entry: its repository, or its package page when
/// it has no repository.
pub open spec fn website_of(m: RemoteMod) -> Seq<char> {
    if m.repo@.len() == 0 { m.package_url@ } else { m.repo@ }
}

/// The labelled rows of the details panel for a catalog entry; the website row only
/// when there is a website.
pub open spec fn detail_rows_of(m: RemoteMod) -> Seq<(Seq<char>, Seq<char>)> {
    let base = seq![
        ("Name"@, m.name@),
        ("Version"@, m.version@),
        ("By"@, m.owner@),
        ("Source"@, m.source@),
        ("Categories"@, joined(views_of(m.categories@), ", "@)),
    ];
    if website_of(m).len() == 0 { base } else { base.push(("Website"@, website_of(m))) }
}

pub open spec fn row_views(rows: Seq<(String, String)>) -> Seq<(Seq<char>, Seq<char>)> {
    rows.map_values(|r: (String, String)| (r.0@, r.1@))
}

/// The labelled rows of the details panel.
pub fn detail_rows(m: &RemoteMod) -> (rows: Vec<(String, String)>)
    ensures
        row_views(rows@) == detail_rows_of(*m),
{
    let mut rows: Vec<(String, String)> = Vec::new();
    rows.push((String::from_str("Name"), m.name.clone()));
    rows.push((String::from_str("Version"), m.version.clone()));
    rows.push((String::from_str("By"), m.owner.clone()));
    rows.push((String::from_str("Source"), m.source.clone()));
    rows.push((String::from_str("Categories"), join(&m.categories, ", ")));
    let website = if m.repo.as_str().is_empty() {
        m.package_url.clone()
    } else {
        m.repo.clone()
    };
    if !website.as_str().is_empty() {
        rows.push((String::from_str("Website"), website));
    }
    assert(row_views(rows@) =~= detail_rows_of(*m));
    rows
}

/// A line without the carriage return of a `\r\n` ending.
pub open spec fn without_cr(line: Seq<char>) -> Seq<char> {
    if line.len() > 0 && line.last() == '\r' { line.drop_last() } else { line }
}

/// The lines of a text, as `str::lines` yields them: split at `\n`, a `\r` before
/// the `\n` dropped, no line after a final `\n`.
pub open spec fn lines_of(text: Seq<char>) -> Seq<Seq<char>>
    decreases text.len(),
{
    if text.len() == 0 {
        Seq::empty()
    } else {
        match suffix_after_first(text, '\n') {
            Some(rest) => {
                proof {
                    lemma_suffix_shorter(text, '\n');
                }
                seq![without_cr(prefix_before(text, '\n'))] + lines_of(rest)
            },
            None => seq![text],
        }
    }
}

pub proof fn lemma_suffix_shorter(s: Seq<char>, c: char)
    ensures
        suffix_after_first(s, c) matches Some(rest) ==> rest.len() < s.len(),
    decreases s.len(),
{
    if s.len() > 0 && s[0] != c {
        lemma_suffix_shorter(s.drop_first(), c);
    }
}

/// The lines of a description.
pub fn description_lines(text: &str) -> (lines: Vec<String>)
    ensures
        views_of(lines@) == lines_of(text@),
{
    let v = chars_of(text);
    let ghost s = text@;
    let mut lines: Vec<String> = Vec::new();
    let mut start: usize = 0;
    assert(s.skip(0) =~= s);
    while start < v.len()
        invariant
            v@ == s,
            start <= v.len(),
            views_of(lines@) + lines_of(s.skip(start as int)) == lines_of(s),
        decreases v.len() - start,
    {
        let ghost rest = s.skip(start as int);
        let e = find_char_from(&v, start, '\n');
        proof {
            assert forall|i: int| 0 <= i < e - start implies rest[i] != '\n' by {
                assert(rest[i] == v@[start + i]);
            }
            if e < v.len() {
                assert(rest[e - start] == v@[e as int]);
            }
            lemma_first_occurrence(rest, '\n', e - start);
            assert(rest.take(e - start) =~= s.subrange(start as int, e as int));
        }
        let ghost before = views_of(lines@);
        if e < v.len() {
            let end = if e > start && v[e - 1] == '\r' { e - 1 } else { e };
            let line = string_of(&v, start, end);
            proof {
                let piece = s.subrange(start as int, e as int);
                if e > start && v@[e - 1] == '\r' {
                    assert(piece.last() == v@[e - 1]);
                    assert(piece.drop_last() =~= s.subrange(start as int, end as int));
                }
                assert(line@ == without_cr(piece));
                assert(rest.skip(e - start + 1) =~= s.skip(e + 1));
                assert(lines_of(rest) == seq![line@] + lines_of(s.skip(e + 1)));
            }
            lines.push(line);
            proof {
                assert(views_of(lines@) =~= before.push(line@));
                assert(before + lines_of(rest) =~= before.push(line@) + lines_of(s.skip(e + 1)));
            }
            start = e + 1;
        } else {
            let line = string_of(&v, start, e);
            proof {
                assert(rest =~= s.subrange(start as int, e as int));
                assert(lines_of(rest) == seq![line@]);
            }
            lines.push(line);
            proof {
                assert(views_of(lines@) =~= before.push(line@));
                assert(s.skip(e as int) =~= Seq::<char>::empty());
                assert(lines_of(s.skip(e as int)) =~= Seq::<Seq<char>>::empty());
                assert(before + lines_of(rest) =~= before.push(line@) + lines_of(s.skip(e as int)));
            }
            start = e;
        }
    }
    proof {
        assert(s.skip(start as int) =~= Seq::<char>::empty());
        assert(views_of(lines@) + lines_of(s.skip(start as int)) =~= views_of(lines@));
    }
    lines
}

} // verus!
