//! Narrowing the remote catalog down to the mods a search query matches.
use vstd::prelude::*;
use vstd::multiset::Multiset;
use crate::catalog::RemoteMod;
use crate::text::{lowercase_of, to_lowercase, views_of};

verus! {

/// The lowercased names of a list of mods.
pub open spec fn lowered_names(mods: Seq<RemoteMod>) -> Seq<Seq<char>> {
    mods.map_values(|m: RemoteMod| lowercase_of(m.name@))
}

/// For each ranked name, the position of the first mod with that lowercased name;
/// names that no mod has are passed over.
pub open spec fn positions_for(lowered: Seq<Seq<char>>, ranked: Seq<Seq<char>>) -> Seq<int>
    decreases ranked.len(),
{
    if ranked.len() == 0 {
        Seq::empty()
    } else {
        let rest = positions_for(lowered, ranked.drop_last());
        match lowered.index_of_first(ranked.last()) {
            Some(j) => rest.push(j),
            None => rest,
        }
    }
}

/// `p` is where a lowercased name first occurs.
pub open spec fn is_first_occurrence(lowered: Seq<Seq<char>>, p: int) -> bool {
    &&& 0 <= p < lowered.len()
    &&& forall|j: int| 0 <= j < p ==> lowered[j] != lowered[p]
}

proof fn lemma_positions_are_first_occurrences(lowered: Seq<Seq<char>>, ranked: Seq<Seq<char>>)
    ensures
        forall|i: int|
            0 <= i < positions_for(lowered, ranked).len() ==> is_first_occurrence(lowered, #[trigger] positions_for(lowered, ranked)[i]),
    decreases ranked.len(),
{
    if ranked.len() > 0 {
        let rest = positions_for(lowered, ranked.drop_last());
        lemma_positions_are_first_occurrences(lowered, ranked.drop_last());
        lowered.index_of_first_ensures(ranked.last());
        match lowered.index_of_first(ranked.last()) {
            Some(j) => {
                assert forall|i: int| 0 <= i < rest.push(j).len() implies is_first_occurrence(lowered, #[trigger] rest.push(j)[i]) by {
                    if i < rest.len() {
                        assert(rest.push(j)[i] == rest[i]);
                    }
                }
            },
            None => {},
        }
    }
}

fn lowered_name_list(mods: &Vec<RemoteMod>) -> (names: Vec<String>)
    ensures
        views_of(names@) == lowered_names(mods@),
{
    let mut names: Vec<String> = Vec::new();
    let mut i: usize = 0;
    while i < mods.len()
        invariant
            i <= mods.len(),
            names@.len() == i,
            forall|j: int| 0 <= j < i ==> (#[trigger] names@[j])@ == lowercase_of(mods@[j].name@),
        decreases mods.len() - i,
    {
        names.push(to_lowercase(mods[i].name.as_str()));
        i = i + 1;
    }
    assert(views_of(names@) =~= lowered_names(mods@));
    names
}

fn first_position(names: &Vec<String>, name: &String) -> (res: Option<usize>)
    ensures
        res matches Some(p) ==> views_of(names@).index_of_first(name@) == Some(p as int),
        res is None ==> views_of(names@).index_of_first(name@) is None,
{
    let ghost all = views_of(names@);
    proof {
        all.index_of_first_ensures(name@);
    }
    let mut i: usize = 0;
    while i < names.len()
        invariant
            i <= names.len(),
            all == views_of(names@),
            forall|j: int| 0 <= j < i ==> all[j] != name@,
        decreases names.len() - i,
    {
        assert(all[i as int] == names@[i as int]@);
        if names[i] == *name {
            proof {
                assert(all.contains(name@));
                all.index_of_first_ensures(name@);
                let k = all.index_of_first(name@)->0;
                if k < i {
                    assert(all[k] != name@);
                } else if k > i {
                    assert(all[i as int] == name@);
                }
            }
            return Some(i);
        }
        i = i + 1;
    }
    proof {
        all.index_of_first_ensures(name@);
        if all.contains(name@) {
            let k = choose|k: int| 0 <= k < all.len() && all[k] == name@;
            assert(all[k] != name@);
        }
    }
    None
}

/// For each ranked name, the position of the first mod whose lowercased name it is.
pub fn matching_positions(mods: &Vec<RemoteMod>, ranked: &Vec<String>) -> (pos: Vec<usize>)
    ensures
        pos@.map_values(|p: usize| p as int) == positions_for(lowered_names(mods@), views_of(ranked@)),
{
    let names = lowered_name_list(mods);
    let ghost lowered = lowered_names(mods@);
    let ghost all = views_of(ranked@);
    let mut pos: Vec<usize> = Vec::new();
    let mut i: usize = 0;
    while i < ranked.len()
        invariant
            i <= ranked.len(),
            views_of(names@) == lowered,
            lowered == lowered_names(mods@),
            all == views_of(ranked@),
            pos@.map_values(|p: usize| p as int) == positions_for(lowered, all.take(i as int)),
        decreases ranked.len() - i,
    {
        assert(all.take(i + 1).drop_last() =~= all.take(i as int));
        assert(all.take(i + 1).last() == ranked@[i as int]@);
        let ghost before = pos@;
        match first_position(&names, &ranked[i]) {
            Some(p) => {
                pos.push(p);
                assert(pos@.map_values(|p: usize| p as int) =~= before.map_values(|p: usize| p as int).push(p as int));
            },
            None => {},
        }
        i = i + 1;
    }
    assert(all.take(i as int) =~= all);
    pos
}

/// What `nucleo_matcher::pattern::Pattern::match_list` keeps of a list of names for a
/// query (the pattern parsed with `Pattern::parse`, ignoring case, with smart
/// normalization): the names it scores, counted with their repetitions.
pub uninterp spec fn fuzzy_kept(names: Seq<Seq<char>>, query: Seq<char>) -> Multiset<Seq<char>>;

/// The query splits into no atoms: every word between spaces is empty.
pub open spec fn only_spaces(query: Seq<char>) -> bool {
    forall|i: int| 0 <= i < query.len() ==> query[i] == ' '
}

/// Ranks names against a search query with `nucleo_matcher`: `Pattern::parse`
/// (ignoring case, smart normalization), then `Pattern::match_list` with a `Matcher`
/// configured by `Config::DEFAULT.match_paths()`. Stated of it: the names returned are
/// those it keeps (named by `fuzzy_kept`, a function of the names and the query), each
/// taken from the given names; a query that splits into no atoms keeps every name in
/// its order. Left unsaid: the order of the kept names, which goes by scores whose
/// bonuses depend on the platform's path delimiters.
#[verifier::external_body]
fn fuzzy_rank(names: &Vec<String>, query: &str) -> (ranked: Vec<String>)
    ensures
        views_of(ranked@).to_multiset() == fuzzy_kept(views_of(names@), query@),
        views_of(ranked@).to_multiset().subset_of(views_of(names@).to_multiset()),
        only_spaces(query@) ==> views_of(ranked@) == views_of(names@),
{
    let mut matcher = nucleo_matcher::Matcher::new(nucleo_matcher::Config::DEFAULT.match_paths());
    nucleo_matcher::pattern::Pattern::parse(
        query,
        nucleo_matcher::pattern::CaseMatching::Ignore,
        nucleo_matcher::pattern::Normalization::Smart,
    ).match_list(names.iter(), &mut matcher).into_iter().map(|(name, _)| name.clone()).collect()
}

/// The positions of the mods a search query shows: all of them for an empty query;
/// otherwise, for each lowercased name the fuzzy matcher keeps (`fuzzy_kept`), in the
/// matcher's order, the first mod with that lowercased name.
pub fn search_mods(mods: &Vec<RemoteMod>, query: &str) -> (pos: Vec<usize>)
    ensures
        query@.len() == 0 ==> pos@.len() == mods@.len() && forall|i: int| 0 <= i < pos@.len() ==> #[trigger] pos@[i] == i,
        forall|i: int| 0 <= i < pos@.len() ==> #[trigger] pos@[i] < mods@.len(),
        query@.len() != 0 ==> forall|i: int|
            0 <= i < pos@.len() ==> is_first_occurrence(lowered_names(mods@), #[trigger] pos@[i] as int),
        query@.len() != 0 ==> exists|ranked: Seq<Seq<char>>|
            ranked.to_multiset() == fuzzy_kept(lowered_names(mods@), query@)
                && pos@.map_values(|p: usize| p as int) == positions_for(lowered_names(mods@), ranked),
        query@.len() != 0 && only_spaces(query@) ==> pos@.map_values(|p: usize| p as int)
            == positions_for(lowered_names(mods@), lowered_names(mods@)),
{
    if query.is_empty() {
        let mut pos: Vec<usize> = Vec::new();
        let mut i: usize = 0;
        while i < mods.len()
            invariant
                i <= mods.len(),
                pos@.len() == i,
                forall|j: int| 0 <= j < i ==> #[trigger] pos@[j] == j,
            decreases mods.len() - i,
        {
            pos.push(i);
            i = i + 1;
        }
        return pos;
    }
    let names = lowered_name_list(mods);
    let ranked = fuzzy_rank(&names, query);
    let pos = matching_positions(mods, &ranked);
    proof {
        lemma_positions_are_first_occurrences(lowered_names(mods@), views_of(ranked@));
        let r = views_of(ranked@);
        assert(r.to_multiset() == fuzzy_kept(lowered_names(mods@), query@));
        assert forall|i: int| 0 <= i < pos@.len() implies is_first_occurrence(lowered_names(mods@), #[trigger] pos@[i] as int) by {
            assert(pos@.map_values(|p: usize| p as int)[i] == pos@[i] as int);
        }
    }
    pos
}

} // verus!
