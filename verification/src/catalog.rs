use vstd::prelude::*;
use crate::order::{Named, sort_by_name_permuted, sorted_by_name};
use crate::text::{lowercase_of, push_char, to_lowercase};

verus! {

/// A mod as listed by a remote catalog (the Balatro mod index or Thunderstore).
#[derive(Debug, Default, Clone, PartialEq)]
pub struct RemoteMod {
    pub name: String,
    pub version: String,
    pub owner: String,
    pub categories: Vec<String>,
    pub repo: String,
    pub download_url: String,
    pub folder_name: String,
    pub identifier: String,
    pub id: String,
    pub description: String,
    pub source: String,
    pub package_url: String,
}

/// The source recorded for catalog entries that do not name one.
pub fn default_source() -> (source: String)
    ensures
        source@ == "bmi"@,
{
    String::from_str("bmi")
}

impl Named for RemoteMod {
    open spec fn name_view(&self) -> Seq<char> {
        self.name@
    }

    fn name_text(&self) -> (name: &String) {
        &self.name
    }
}

/// The directory, under the game's mod folder, that a remote mod is installed into:
/// its folder name when the catalog gives one, its identifier otherwise.
pub open spec fn install_dir_spec(remote: RemoteMod) -> Seq<char> {
    if remote.folder_name@.len() == 0 {
        remote.identifier@
    } else {
        remote.folder_name@
    }
}

pub fn install_dir(remote: &RemoteMod) -> (dir: String)
    ensures
        dir@ == install_dir_spec(*remote),
{
    if remote.folder_name.as_str().is_empty() {
        remote.identifier.clone()
    } else {
        remote.folder_name.clone()
    }
}

} // verus!

verus! {

/// The key under which the merged catalog identifies a mod: its lowercased owner
/// and its lowercased name, kept apart as a pair.
pub open spec fn merge_key_of(m: RemoteMod) -> (Seq<char>, Seq<char>) {
    (lowercase_of(m.owner@), lowercase_of(m.name@))
}

/// The merge key of a catalog entry: lowercased owner and lowercased name.
pub fn merge_key(m: &RemoteMod) -> (key: (String, String))
    ensures
        key@ == merge_key_of(*m),
{
    (to_lowercase(m.owner.as_str()), to_lowercase(m.name.as_str()))
}

/// Some entry of `s` has key `k`.
pub open spec fn has_key(s: Seq<RemoteMod>, k: (Seq<char>, Seq<char>)) -> bool {
    exists|i: int| 0 <= i < s.len() && #[trigger] merge_key_of(s[i]) == k
}

/// Some entry among the first `n` of `s` has key `k`.
pub open spec fn has_key_before(s: Seq<RemoteMod>, k: (Seq<char>, Seq<char>), n: int) -> bool {
    exists|i: int| 0 <= i < n && #[trigger] merge_key_of(s[i]) == k
}

/// `s[t]` is the last entry among the first `n` of `s` with its key.
pub open spec fn last_with_key_before(s: Seq<RemoteMod>, t: int, n: int) -> bool {
    &&& 0 <= t < n <= s.len()
    &&& forall|j: int| t < j < n ==> #[trigger] merge_key_of(s[j]) != merge_key_of(s[t])
}

/// `s[t]` is the last entry of `s` with its key.
pub open spec fn last_with_key(s: Seq<RemoteMod>, t: int) -> bool {
    last_with_key_before(s, t, s.len() as int)
}

/// `s[b]` is the first entry of `s` with its key.
pub open spec fn first_with_key(s: Seq<RemoteMod>, b: int) -> bool {
    &&& 0 <= b < s.len()
    &&& forall|j: int| 0 <= j < b ==> #[trigger] merge_key_of(s[j]) != merge_key_of(s[b])
}

/// `m` is what the merge keeps for its key: the last Thunderstore entry with that
/// key, or, when Thunderstore has none, the first index entry with that key.
pub open spec fn wins_merge(bmi: Seq<RemoteMod>, ts: Seq<RemoteMod>, m: RemoteMod) -> bool {
    ||| exists|t: int| last_with_key(ts, t) && ts[t] == m
    ||| !has_key(ts, merge_key_of(m)) && exists|b: int| first_with_key(bmi, b) && bmi[b] == m
}

/// No two entries of `s` share a key.
pub open spec fn keys_distinct(s: Seq<RemoteMod>) -> bool {
    forall|i: int, j: int|
        0 <= i < s.len() && 0 <= j < s.len() && i != j ==> merge_key_of(#[trigger] s[i])
            != merge_key_of(#[trigger] s[j])
}

/// `merged` is the merge of the index catalog `bmi` with the Thunderstore catalog
/// `ts`: one entry per key found in either, the Thunderstore entry winning a
/// collision, ordered by name.
pub open spec fn is_merge_of(bmi: Seq<RemoteMod>, ts: Seq<RemoteMod>, merged: Seq<RemoteMod>) -> bool {
    &&& keys_distinct(merged)
    &&& sorted_by_name(merged)
    &&& forall|i: int| 0 <= i < merged.len() ==> wins_merge(bmi, ts, #[trigger] merged[i])
    &&& forall|k: (Seq<char>, Seq<char>)|
        #![trigger has_key(bmi, k)]
        #![trigger has_key(ts, k)]
        has_key(bmi, k) || has_key(ts, k) ==> has_key(merged, k)
}

fn position_of_key(keys: &Vec<(String, String)>, key: &(String, String)) -> (res: Option<usize>)
    ensures
        res matches Some(p) ==> p < keys.len() && keys@[p as int]@ == key@,
        res is None ==> forall|i: int| 0 <= i < keys.len() ==> keys@[i]@ != key@,
{
    let mut i: usize = 0;
    while i < keys.len()
        invariant
            i <= keys.len(),
            forall|j: int| 0 <= j < i ==> keys@[j]@ != key@,
        decreases keys.len() - i,
    {
        if keys[i].0 == key.0 && keys[i].1 == key.1 {
            return Some(i);
        }
        i = i + 1;
    }
    None
}

/// Merges the mod index catalog with the Thunderstore catalog into one list.
///
/// On a collision (same owner and same name, compared after lowercasing) the
/// Thunderstore entry wins. Distinct mods sharing a name across different owners
/// are all kept. The result is ordered by name.
pub fn merge_catalogs(bmi: Vec<RemoteMod>, ts: Vec<RemoteMod>) -> (merged: Vec<RemoteMod>)
    ensures
        is_merge_of(bmi@, ts@, merged@),
{
    let ghost b = bmi@;
    let ghost t = ts@;
    let mut acc: Vec<RemoteMod> = Vec::new();
    let mut keys: Vec<(String, String)> = Vec::new();
    let ghost mut from_ts: Seq<bool> = Seq::empty();
    let ghost mut origin: Seq<int> = Seq::empty();
    for m in it: bmi
        invariant
            it.seq() == b,
            acc@.len() == keys@.len(),
            origin.len() == acc@.len(),
            forall|i: int| 0 <= i < acc@.len() ==> #[trigger] keys@[i]@ == merge_key_of(acc@[i]),
            keys_distinct(acc@),
            forall|i: int| 0 <= i < acc@.len() ==> first_with_key(b, #[trigger] origin[i]) && origin[i] < it.index() && b[origin[i]] == acc@[i],
            forall|j: int| 0 <= j < it.index() ==> has_key(acc@, #[trigger] merge_key_of(b[j])),
    {
        let ghost n = it.index();
        let key = merge_key(&m);
        match position_of_key(&keys, &key) {
            Some(p) => {
                assert(merge_key_of(acc@[p as int]) == merge_key_of(b[n]));
            },
            None => {
                proof {
                    assert forall|j: int| 0 <= j < n implies #[trigger] merge_key_of(b[j]) != merge_key_of(b[n]) by {
                        assert(has_key(acc@, merge_key_of(b[j])));
                        let w = choose|w: int| 0 <= w < acc@.len() && #[trigger] merge_key_of(acc@[w]) == merge_key_of(b[j]);
                        assert(keys@[w]@ == merge_key_of(acc@[w]));
                    }
                }
                let ghost old_acc = acc@;
                keys.push(key);
                acc.push(m);
                proof {
                    origin = origin.push(n);
                    assert forall|j: int| 0 <= j < n + 1 implies has_key(acc@, #[trigger] merge_key_of(b[j])) by {
                        if j == n {
                            assert(merge_key_of(acc@[n - n + old_acc.len()]) == merge_key_of(b[j]));
                        } else {
                            let w = choose|w: int| 0 <= w < old_acc.len() && #[trigger] merge_key_of(old_acc[w]) == merge_key_of(b[j]);
                            assert(acc@[w] == old_acc[w]);
                        }
                    }
                    assert forall|i: int, j: int|
                        0 <= i < acc@.len() && 0 <= j < acc@.len() && i != j implies merge_key_of(#[trigger] acc@[i])
                            != merge_key_of(#[trigger] acc@[j]) by {
                        if i == old_acc.len() {
                            assert(keys@[j]@ == merge_key_of(acc@[j]));
                        } else if j == old_acc.len() {
                            assert(keys@[i]@ == merge_key_of(acc@[i]));
                        } else {
                            assert(acc@[i] == old_acc[i] && acc@[j] == old_acc[j]);
                        }
                    }
                }
            },
        }
    }
    proof {
        from_ts = Seq::new(acc@.len(), |i: int| false);
    }
    for m in it: ts
        invariant
            it.seq() == t,
            acc@.len() == keys@.len(),
            origin.len() == acc@.len(),
            from_ts.len() == acc@.len(),
            forall|i: int| 0 <= i < acc@.len() ==> #[trigger] keys@[i]@ == merge_key_of(acc@[i]),
            keys_distinct(acc@),
            forall|i: int| 0 <= i < acc@.len() ==> (#[trigger] from_ts[i] ==> last_with_key_before(t, origin[i], it.index() as int) && t[origin[i]] == acc@[i]),
            forall|i: int| 0 <= i < acc@.len() ==> (!#[trigger] from_ts[i] ==> first_with_key(b, origin[i]) && b[origin[i]] == acc@[i] && !has_key_before(t, merge_key_of(acc@[i]), it.index() as int)),
            forall|j: int| 0 <= j < b.len() ==> has_key(acc@, #[trigger] merge_key_of(b[j])),
            forall|j: int| 0 <= j < it.index() ==> has_key(acc@, #[trigger] merge_key_of(t[j])),
    {
        let ghost n = it.index();
        assert(m == t[n]);
        let key = merge_key(&m);
        let ghost old_acc = acc@;
        let ghost old_from_ts = from_ts;
        let ghost old_origin = origin;
        let ghost k = merge_key_of(m);
        match position_of_key(&keys, &key) {
            Some(p) => {
                acc.set(p, m);
                proof {
                    let pi = p as int;
                    assert(keys@[pi]@ == merge_key_of(old_acc[pi]));
                    assert forall|i: int| 0 <= i < acc@.len() implies merge_key_of(#[trigger] acc@[i]) == merge_key_of(old_acc[i]) by {
                        if i != pi {
                            assert(acc@[i] == old_acc[i]);
                        }
                    }
                    origin = origin.update(pi, n);
                    from_ts = from_ts.update(pi, true);
                    assert forall|i: int, j: int|
                        0 <= i < acc@.len() && 0 <= j < acc@.len() && i != j implies merge_key_of(#[trigger] acc@[i])
                            != merge_key_of(#[trigger] acc@[j]) by {
                        assert(merge_key_of(acc@[i]) == merge_key_of(old_acc[i]));
                        assert(merge_key_of(acc@[j]) == merge_key_of(old_acc[j]));
                    }
                    assert forall|i: int| 0 <= i < acc@.len() implies #[trigger] keys@[i]@ == merge_key_of(acc@[i]) by {
                        assert(merge_key_of(acc@[i]) == merge_key_of(old_acc[i]));
                    }
                    assert forall|i: int| 0 <= i < acc@.len() && i != pi implies merge_key_of(#[trigger] acc@[i]) != k by {
                        assert(merge_key_of(acc@[i]) == merge_key_of(old_acc[i]));
                    }
                    assert forall|i: int| 0 <= i < acc@.len() && #[trigger] from_ts[i] implies last_with_key_before(t, origin[i], n + 1) && t[origin[i]] == acc@[i] by {
                        if i != pi {
                            assert(old_from_ts[i]);
                            assert(merge_key_of(t[origin[i]]) != k);
                        }
                    }
                    assert forall|i: int| 0 <= i < acc@.len() && !#[trigger] from_ts[i] implies first_with_key(b, origin[i]) && b[origin[i]] == acc@[i] && !has_key_before(t, merge_key_of(acc@[i]), n + 1) by {
                        assert(i != pi);
                        assert(!old_from_ts[i]);
                        assert(acc@[i] == old_acc[i]);
                        assert(merge_key_of(acc@[i]) != k);
                    }
                    assert forall|x: (Seq<char>, Seq<char>)| has_key(old_acc, x) implies has_key(acc@, x) by {
                        let w = choose|w: int| 0 <= w < old_acc.len() && #[trigger] merge_key_of(old_acc[w]) == x;
                        assert(merge_key_of(acc@[w]) == merge_key_of(old_acc[w]));
                    }
                    assert forall|j: int| 0 <= j < b.len() implies has_key(acc@, #[trigger] merge_key_of(b[j])) by {
                        assert(has_key(old_acc, merge_key_of(b[j])));
                    }
                    assert forall|j: int| 0 <= j < n + 1 implies has_key(acc@, #[trigger] merge_key_of(t[j])) by {
                        if j < n {
                            assert(has_key(old_acc, merge_key_of(t[j])));
                        } else {
                            assert(merge_key_of(acc@[pi]) == k);
                        }
                    }
                }
            },
            None => {
                keys.push(key);
                acc.push(m);
                proof {
                    let last = old_acc.len() as int;
                    origin = origin.push(n);
                    from_ts = from_ts.push(true);
                    assert forall|i: int| 0 <= i < last implies merge_key_of(#[trigger] old_acc[i]) != k by {
                        assert(keys@[i]@ == merge_key_of(old_acc[i]));
                    }
                    assert forall|i: int, j: int|
                        0 <= i < acc@.len() && 0 <= j < acc@.len() && i != j implies merge_key_of(#[trigger] acc@[i])
                            != merge_key_of(#[trigger] acc@[j]) by {
                        if i == last {
                            assert(merge_key_of(old_acc[j]) != k);
                        } else if j == last {
                            assert(merge_key_of(old_acc[i]) != k);
                        } else {
                            assert(acc@[i] == old_acc[i] && acc@[j] == old_acc[j]);
                        }
                    }
                    assert forall|i: int| 0 <= i < acc@.len() && #[trigger] from_ts[i] implies last_with_key_before(t, origin[i], n + 1) && t[origin[i]] == acc@[i] by {
                        if i != last {
                            assert(old_from_ts[i]);
                            assert(acc@[i] == old_acc[i]);
                            assert(merge_key_of(old_acc[i]) != k);
                        }
                    }
                    assert forall|i: int| 0 <= i < acc@.len() && !#[trigger] from_ts[i] implies first_with_key(b, origin[i]) && b[origin[i]] == acc@[i] && !has_key_before(t, merge_key_of(acc@[i]), n + 1) by {
                        assert(i != last);
                        assert(!old_from_ts[i]);
                        assert(acc@[i] == old_acc[i]);
                        assert(merge_key_of(old_acc[i]) != k);
                    }
                    assert forall|x: (Seq<char>, Seq<char>)| has_key(old_acc, x) implies has_key(acc@, x) by {
                        let w = choose|w: int| 0 <= w < old_acc.len() && #[trigger] merge_key_of(old_acc[w]) == x;
                        assert(acc@[w] == old_acc[w]);
                    }
                    assert forall|j: int| 0 <= j < b.len() implies has_key(acc@, #[trigger] merge_key_of(b[j])) by {
                        assert(has_key(old_acc, merge_key_of(b[j])));
                    }
                    assert forall|j: int| 0 <= j < n + 1 implies has_key(acc@, #[trigger] merge_key_of(t[j])) by {
                        if j < n {
                            assert(has_key(old_acc, merge_key_of(t[j])));
                        } else {
                            assert(merge_key_of(acc@[last]) == k);
                        }
                    }
                }
            },
        }
    }
    let ghost fin = acc@;
    let (sorted, Ghost(perm), Ghost(inv)) = sort_by_name_permuted(acc);
    proof {
        let o = sorted@;
        assert forall|i: int, j: int|
            0 <= i < o.len() && 0 <= j < o.len() && i != j implies merge_key_of(#[trigger] o[i])
                != merge_key_of(#[trigger] o[j]) by {
            assert(perm[i] != perm[j]);
            assert(o[i] == fin[perm[i]] && o[j] == fin[perm[j]]);
        }
        assert forall|i: int| 0 <= i < o.len() implies wins_merge(b, t, #[trigger] o[i]) by {
            let x = perm[i];
            assert(o[i] == fin[x]);
            if from_ts[x] {
                assert(last_with_key(t, origin[x]) && t[origin[x]] == o[i]);
            } else {
                assert(first_with_key(b, origin[x]) && b[origin[x]] == o[i]);
                assert(!has_key_before(t, merge_key_of(fin[x]), t.len() as int));
            }
        }
        assert forall|x: (Seq<char>, Seq<char>)| has_key(fin, x) implies has_key(o, x) by {
            let w = choose|w: int| 0 <= w < fin.len() && #[trigger] merge_key_of(fin[w]) == x;
            assert(o[inv[w]] == fin[w]);
        }
        assert forall|x: (Seq<char>, Seq<char>)| #![trigger has_key(b, x)] #![trigger has_key(t, x)]
            has_key(b, x) || has_key(t, x) implies has_key(o, x) by {
            if has_key(b, x) {
                let w = choose|w: int| 0 <= w < b.len() && #[trigger] merge_key_of(b[w]) == x;
                assert(has_key(fin, merge_key_of(b[w])));
            } else {
                let w = choose|w: int| 0 <= w < t.len() && #[trigger] merge_key_of(t[w]) == x;
                assert(has_key(fin, merge_key_of(t[w])));
            }
        }
    }
    sorted
}

} // verus!

verus! {

/// On a collision the Thunderstore entry wins: when `ts[t]` is the last Thunderstore
/// entry with its owner and name (compared lowercased), the merge holds that very
/// entry, and it is the only entry of the merge with that owner and name.
pub proof fn lemma_thunderstore_entry_wins(bmi: Seq<RemoteMod>, ts: Seq<RemoteMod>, merged: Seq<RemoteMod>, t: int)
    requires
        is_merge_of(bmi, ts, merged),
        last_with_key(ts, t),
    ensures
        exists|i: int| 0 <= i < merged.len() && merged[i] == ts[t],
        forall|i: int| 0 <= i < merged.len() && merge_key_of(#[trigger] merged[i]) == merge_key_of(ts[t]) ==> merged[i] == ts[t],
{
    let k = merge_key_of(ts[t]);
    assert(has_key(ts, k));
    assert forall|i: int| 0 <= i < merged.len() && merge_key_of(#[trigger] merged[i]) == k implies merged[i] == ts[t] by {
        assert(wins_merge(bmi, ts, merged[i]));
        if exists|u: int| last_with_key(ts, u) && ts[u] == merged[i] {
            let u = choose|u: int| last_with_key(ts, u) && ts[u] == merged[i];
            if u < t {
                assert(merge_key_of(ts[t]) != merge_key_of(ts[u]));
            } else if u > t {
                assert(merge_key_of(ts[u]) != merge_key_of(ts[t]));
            }
        }
    }
    assert(has_key(merged, k));
}

/// An index entry that Thunderstore does not list is kept; among index entries
/// sharing an owner and name, the first one is the one kept.
pub proof fn lemma_index_entry_kept(bmi: Seq<RemoteMod>, ts: Seq<RemoteMod>, merged: Seq<RemoteMod>, b: int)
    requires
        is_merge_of(bmi, ts, merged),
        first_with_key(bmi, b),
        !has_key(ts, merge_key_of(bmi[b])),
    ensures
        exists|i: int| 0 <= i < merged.len() && merged[i] == bmi[b],
        forall|i: int| 0 <= i < merged.len() && merge_key_of(#[trigger] merged[i]) == merge_key_of(bmi[b]) ==> merged[i] == bmi[b],
{
    let k = merge_key_of(bmi[b]);
    assert(has_key(bmi, k));
    assert forall|i: int| 0 <= i < merged.len() && merge_key_of(#[trigger] merged[i]) == k implies merged[i] == bmi[b] by {
        assert(wins_merge(bmi, ts, merged[i]));
        if exists|u: int| last_with_key(ts, u) && ts[u] == merged[i] {
            let u = choose|u: int| last_with_key(ts, u) && ts[u] == merged[i];
            assert(merge_key_of(ts[u]) == k);
        } else {
            let c = choose|c: int| first_with_key(bmi, c) && bmi[c] == merged[i];
            if c < b {
                assert(merge_key_of(bmi[c]) != merge_key_of(bmi[b]));
            } else if c > b {
                assert(merge_key_of(bmi[b]) != merge_key_of(bmi[c]));
            }
        }
    }
    assert(has_key(merged, k));
}

/// Mods that differ in owner or name (compared lowercased) are all kept: two input
/// entries with different keys stand at two different places of the merge.
pub proof fn lemma_distinct_mods_kept(bmi: Seq<RemoteMod>, ts: Seq<RemoteMod>, merged: Seq<RemoteMod>, x: RemoteMod, y: RemoteMod)
    requires
        is_merge_of(bmi, ts, merged),
        bmi.contains(x) || ts.contains(x),
        bmi.contains(y) || ts.contains(y),
        merge_key_of(x) != merge_key_of(y),
    ensures
        exists|i: int, j: int|
            0 <= i < merged.len() && 0 <= j < merged.len() && i != j
                && merge_key_of(#[trigger] merged[i]) == merge_key_of(x)
                && merge_key_of(#[trigger] merged[j]) == merge_key_of(y),
{
    let kx = merge_key_of(x);
    let ky = merge_key_of(y);
    if bmi.contains(x) {
        let w = choose|w: int| 0 <= w < bmi.len() && bmi[w] == x;
        assert(has_key(bmi, merge_key_of(bmi[w])));
    } else {
        let w = choose|w: int| 0 <= w < ts.len() && ts[w] == x;
        assert(has_key(ts, merge_key_of(ts[w])));
    }
    if bmi.contains(y) {
        let w = choose|w: int| 0 <= w < bmi.len() && bmi[w] == y;
        assert(has_key(bmi, merge_key_of(bmi[w])));
    } else {
        let w = choose|w: int| 0 <= w < ts.len() && ts[w] == y;
        assert(has_key(ts, merge_key_of(ts[w])));
    }
    let i = choose|i: int| 0 <= i < merged.len() && #[trigger] merge_key_of(merged[i]) == kx;
    let j = choose|j: int| 0 <= j < merged.len() && #[trigger] merge_key_of(merged[j]) == ky;
    assert(i != j);
}

/// Every entry of the merge comes from one of the two catalogs.
pub proof fn lemma_merged_entries_come_from_inputs(bmi: Seq<RemoteMod>, ts: Seq<RemoteMod>, merged: Seq<RemoteMod>, i: int)
    requires
        is_merge_of(bmi, ts, merged),
        0 <= i < merged.len(),
    ensures
        bmi.contains(merged[i]) || ts.contains(merged[i]),
{
    assert(wins_merge(bmi, ts, merged[i]));
    if exists|u: int| last_with_key(ts, u) && ts[u] == merged[i] {
        let u = choose|u: int| last_with_key(ts, u) && ts[u] == merged[i];
        assert(ts.contains(merged[i]));
    } else {
        let c = choose|c: int| first_with_key(bmi, c) && bmi[c] == merged[i];
        assert(bmi.contains(merged[i]));
    }
}

} // verus!

verus! {

/// One published version of a Thunderstore package.
#[derive(Debug, Default)]
pub struct TsVersion {
    pub version_number: String,
    pub description: String,
    pub download_url: String,
}

/// A package as the Thunderstore API lists it.
#[derive(Debug, Default)]
pub struct TsPackage {
    pub name: String,
    pub owner: String,
    pub package_url: String,
    pub categories: Vec<String>,
    pub is_deprecated: bool,
    pub versions: Vec<TsVersion>,
}

/// Thunderstore packages that are tools rather than mods, by lowercased name.
pub open spec fn is_blacklisted_package(lower_name: Seq<char>) -> bool {
    lower_name == "r2modman"@ || lower_name == "lovely"@
}

/// A package enters the catalog when it is not deprecated, not blacklisted, and has
/// at least one version.
pub open spec fn is_listed_package(p: TsPackage) -> bool {
    &&& !p.is_deprecated
    &&& !is_blacklisted_package(lowercase_of(p.name@))
    &&& p.versions@.len() > 0
}

/// The packages of a Thunderstore listing that enter the catalog, in order.
pub open spec fn listed_packages(packages: Seq<TsPackage>) -> Seq<TsPackage> {
    packages.filter(|p: TsPackage| is_listed_package(p))
}

/// `m` is the catalog entry for package `p`, described by its first (latest) version.
pub open spec fn is_entry_for_package(p: TsPackage, m: RemoteMod) -> bool {
    let v = p.versions@[0];
    &&& m.name == p.name
    &&& m.version == v.version_number
    &&& m.owner == p.owner
    &&& m.categories == p.categories
    &&& m.repo@.len() == 0
    &&& m.download_url == v.download_url
    &&& m.folder_name@ == p.owner@ + seq!['@'] + p.name@
    &&& m.identifier == p.name
    &&& m.id == p.name
    &&& m.description == v.description
    &&& m.source@ == "thunderstore"@
    &&& m.package_url == p.package_url
}

fn is_blacklisted(lower_name: &String) -> (res: bool)
    ensures
        res == is_blacklisted_package(lower_name@),
{
    let a = String::from_str("r2modman");
    let b = String::from_str("lovely");
    *lower_name == a || *lower_name == b
}

/// The catalog entries for the Thunderstore packages that are listed, in order.
pub fn thunderstore_mods(packages: Vec<TsPackage>) -> (mods: Vec<RemoteMod>)
    ensures
        mods@.len() == listed_packages(packages@).len(),
        forall|i: int|
            0 <= i < mods@.len() ==> is_entry_for_package(listed_packages(packages@)[i], #[trigger] mods@[i]),
{
    let ghost src = packages@;
    let mut mods: Vec<RemoteMod> = Vec::new();
    assert(src.take(0) =~= Seq::<TsPackage>::empty());
    assert(listed_packages(src.take(0)) =~= Seq::<TsPackage>::empty()) by {
        reveal_with_fuel(Seq::filter, 1);
    }
    for p in it: packages
        invariant
            it.seq() == src,
            mods@.len() == listed_packages(src.take(it.index() as int)).len(),
            forall|i: int|
                0 <= i < mods@.len() ==> is_entry_for_package(
                    listed_packages(src.take(it.index() as int))[i],
                    #[trigger] mods@[i],
                ),
    {
        let ghost n = it.index();
        assert(p == src[n]);
        assert(src.take(n + 1) =~= src.take(n).push(p));
        proof {
            src.take(n).lemma_filter_push(p, |p: TsPackage| is_listed_package(p));
        }
        let ghost pg = p;
        let TsPackage { name, owner, package_url, categories, is_deprecated, versions } = p;
        let lower = to_lowercase(name.as_str());
        assert(name == pg.name && is_deprecated == pg.is_deprecated && versions@ == pg.versions@);
        assert(lower@ == lowercase_of(pg.name@));
        if !is_deprecated && !is_blacklisted(&lower) && versions.len() > 0 {
            let mut versions = versions;
            let v = versions.swap_remove(0);
            let TsVersion { version_number, description, download_url } = v;
            let mut folder_name = owner.clone();
            push_char(&mut folder_name, '@');
            folder_name.append(name.as_str());
            let entry = RemoteMod {
                name: name.clone(),
                version: version_number,
                owner,
                categories,
                repo: String::new(),
                download_url,
                folder_name,
                identifier: name.clone(),
                id: name,
                description,
                source: String::from_str("thunderstore"),
                package_url,
            };
            proof {
                assert(is_listed_package(pg));
                assert(v == pg.versions@[0]);
                assert(entry.name == pg.name);
                assert(entry.version == v.version_number);
                assert(entry.owner == pg.owner);
                assert(entry.categories == pg.categories);
                assert(entry.folder_name@ == pg.owner@ + seq!['@'] + pg.name@);
                assert(entry.identifier == pg.name);
                assert(entry.source@ == "thunderstore"@);
                assert(is_entry_for_package(pg, entry));
            }
            let ghost old_mods = mods@;
            mods.push(entry);
            proof {
                assert forall|i: int| 0 <= i < mods@.len() implies is_entry_for_package(
                    listed_packages(src.take(n + 1))[i],
                    #[trigger] mods@[i],
                ) by {
                    if i < old_mods.len() {
                        assert(mods@[i] == old_mods[i]);
                    }
                }
            }
        } else {
            assert(!is_listed_package(pg));
        }
    }
    assert(src.take(src.len() as int) =~= src);
    mods
}

} // verus!
