//! Ordering entries by name, as `String`'s `Ord` orders texts.
use vstd::prelude::*;
use vstd::utf8::encode_utf8;
use crate::text::{lemma_bytes_le_reflexive, lemma_bytes_le_total, lemma_bytes_le_transitive, text_le, text_less_or_equal};

verus! {

/// Entries that carry a name to be ordered by.
pub trait Named {
    spec fn name_view(&self) -> Seq<char>;

    fn name_text(&self) -> (name: &String)
        ensures
            name@ == self.name_view(),
    ;
}

/// `s` is ordered by name, in `String`'s order.
pub open spec fn sorted_by_name<T: Named>(s: Seq<T>) -> bool {
    forall|i: int, j: int|
        0 <= i < j < s.len() ==> text_le((#[trigger] s[i]).name_view(), (#[trigger] s[j]).name_view())
}

/// `out[i] == src[perm[i]]`, where `perm` is a permutation of the positions of `src`
/// under which entries with equal names keep the order they had in `src`.
pub open spec fn is_stable_permutation<T: Named>(src: Seq<T>, out: Seq<T>, perm: Seq<int>) -> bool {
    &&& out.len() == src.len()
    &&& perm.len() == src.len()
    &&& forall|i: int| 0 <= i < out.len() ==> 0 <= #[trigger] perm[i] < src.len() && out[i] == src[perm[i]]
    &&& forall|i: int, j: int| 0 <= i < out.len() && 0 <= j < out.len() && i != j ==> #[trigger] perm[i] != #[trigger] perm[j]
    &&& forall|i: int, j: int|
        0 <= i < j < out.len() && (#[trigger] out[i]).name_view() == (#[trigger] out[j]).name_view() ==> perm[i] < perm[j]
}

/// `out` is `src` sorted by name, as a stable sort leaves it: in `String`'s order of
/// the names, entries with equal names in the order they had in `src`.
pub open spec fn is_stable_sort_by_name<T: Named>(src: Seq<T>, out: Seq<T>) -> bool {
    &&& sorted_by_name(out)
    &&& exists|perm: Seq<int>| is_stable_permutation(src, out, perm)
}

/// Sorts by name with insertion into a sorted prefix (after every entry whose name
/// is not greater, so that the sort is stable). Returns the sorted entries and,
/// as ghost values, the permutation taken (`out[i] == v[perm[i]]`) and its inverse.
pub fn sort_by_name_permuted<T: Named>(v: Vec<T>) -> (res: (Vec<T>, Ghost<Seq<int>>, Ghost<Seq<int>>))
    ensures
        res.0@.len() == v@.len(),
        sorted_by_name(res.0@),
        res.1@.len() == v@.len(),
        res.2@.len() == v@.len(),
        forall|i: int| 0 <= i < v@.len() ==> 0 <= #[trigger] res.1@[i] < v@.len() && res.0@[i] == v@[res.1@[i]],
        forall|b: int| 0 <= b < v@.len() ==> 0 <= #[trigger] res.2@[b] < v@.len() && res.1@[res.2@[b]] == b,
        forall|i: int, j: int| 0 <= i < v@.len() && 0 <= j < v@.len() && i != j ==> #[trigger] res.1@[i] != #[trigger] res.1@[j],
        is_stable_permutation(v@, res.0@, res.1@),
        res.0@.to_multiset() == v@.to_multiset(),
{
    let ghost src = v@;
    let mut out: Vec<T> = Vec::new();
    let ghost mut perm: Seq<int> = Seq::empty();
    let ghost mut inv: Seq<int> = Seq::empty();
    assert(src.take(0) =~= Seq::<T>::empty());
    for m in it: v
        invariant
            it.seq() == src,
            out@.len() == it.index(),
            perm.len() == it.index(),
            inv.len() == it.index(),
            sorted_by_name(out@),
            forall|i: int| 0 <= i < out@.len() ==> 0 <= #[trigger] perm[i] < it.index() && out@[i] == src[perm[i]],
            forall|b: int| 0 <= b < it.index() ==> 0 <= #[trigger] inv[b] < it.index() && perm[inv[b]] == b,
            forall|i: int, j: int| 0 <= i < perm.len() && 0 <= j < perm.len() && i != j ==> #[trigger] perm[i] != #[trigger] perm[j],
            forall|i: int, j: int|
                0 <= i < j < out@.len() && (#[trigger] out@[i]).name_view() == (#[trigger] out@[j]).name_view() ==> perm[i] < perm[j],
            out@.to_multiset() == src.take(it.index() as int).to_multiset(),
    {
        let ghost n = it.index();
        assert(m == src[n]);
        let mut pos: usize = 0;
        while pos < out.len() && text_less_or_equal(out[pos].name_text(), m.name_text())
            invariant
                pos <= out@.len(),
                forall|i: int| 0 <= i < pos ==> text_le(#[trigger] out@[i].name_view(), m.name_view()),
            decreases out@.len() - pos,
        {
            pos = pos + 1;
        }
        proof {
            if pos < out@.len() {
                assert(!text_le(out@[pos as int].name_view(), m.name_view()));
                lemma_bytes_le_total(encode_utf8(out@[pos as int].name_view()), encode_utf8(m.name_view()));
                assert forall|j: int| pos <= j < out@.len() implies text_le(m.name_view(), #[trigger] out@[j].name_view()) by {
                    if j > pos {
                        lemma_bytes_le_transitive(
                            encode_utf8(m.name_view()),
                            encode_utf8(out@[pos as int].name_view()),
                            encode_utf8(out@[j].name_view()),
                        );
                    }
                }
            }
            assert(src.take(n + 1) =~= src.take(n).push(m));
        }
        let ghost old_out = out@;
        out.insert(pos, m);
        proof {
            let p = pos as int;
            assert forall|i: int, j: int| 0 <= i < j < out@.len() implies text_le((#[trigger] out@[i]).name_view(), (#[trigger] out@[j]).name_view()) by {
                if i < p && j > p {
                    lemma_bytes_le_transitive(
                        encode_utf8(out@[i].name_view()),
                        encode_utf8(m.name_view()),
                        encode_utf8(out@[j].name_view()),
                    );
                } else if i < p && j < p {
                    assert(out@[i] == old_out[i] && out@[j] == old_out[j]);
                } else if i > p {
                    assert(out@[i] == old_out[i - 1] && out@[j] == old_out[j - 1]);
                } else if i < p {
                    assert(out@[i] == old_out[i] && out@[j] == m);
                } else {
                    assert(out@[i] == m && out@[j] == old_out[j - 1]);
                }
            }
            assert(out@ == old_out.insert(p, m));
            vstd::seq_lib::to_multiset_insert(old_out, p, m);
            vstd::seq_lib::to_multiset_build(src.take(n), m);
            let old_perm = perm;
            perm = perm.insert(p, n);
            let old_inv = inv;
            inv = Seq::new(n as nat + 1, |b: int| if b == n { p } else if old_inv[b] >= p { old_inv[b] + 1 } else { old_inv[b] });
            assert forall|i: int| 0 <= i < out@.len() implies 0 <= #[trigger] perm[i] < n + 1 && out@[i] == src[perm[i]] by {
                if i < p {
                    assert(perm[i] == old_perm[i]);
                } else if i > p {
                    assert(perm[i] == old_perm[i - 1]);
                }
            }
            assert forall|i: int, j: int| 0 <= i < perm.len() && 0 <= j < perm.len() && i != j implies #[trigger] perm[i] != #[trigger] perm[j] by {
                let oi = if i < p { i } else { i - 1 };
                let oj = if j < p { j } else { j - 1 };
                if i != p && j != p {
                    assert(perm[i] == old_perm[oi] && perm[j] == old_perm[oj]);
                } else if i == p {
                    assert(perm[j] == old_perm[oj]);
                } else {
                    assert(perm[i] == old_perm[oi]);
                }
            }
            assert forall|i: int, j: int|
                0 <= i < j < out@.len() && (#[trigger] out@[i]).name_view() == (#[trigger] out@[j]).name_view() implies perm[i] < perm[j] by {
                if i < p && j < p {
                    assert(perm[i] == old_perm[i] && perm[j] == old_perm[j]);
                    assert(out@[i] == old_out[i] && out@[j] == old_out[j]);
                } else if i > p {
                    assert(perm[i] == old_perm[i - 1] && perm[j] == old_perm[j - 1]);
                    assert(out@[i] == old_out[i - 1] && out@[j] == old_out[j - 1]);
                } else if i < p && j > p {
                    assert(perm[i] == old_perm[i] && perm[j] == old_perm[j - 1]);
                    assert(out@[i] == old_out[i] && out@[j] == old_out[j - 1]);
                } else if j == p {
                    assert(perm[i] == old_perm[i]);
                } else {
                    assert(out@[j] == old_out[j - 1]);
                    lemma_bytes_le_reflexive(encode_utf8(m.name_view()));
                    assert(!text_le(old_out[p].name_view(), m.name_view()));
                    if j - 1 > p {
                        assert(text_le(old_out[p].name_view(), old_out[j - 1].name_view()));
                    }
                }
            }
            assert forall|b: int| 0 <= b < n + 1 implies 0 <= #[trigger] inv[b] < n + 1 && perm[inv[b]] == b by {
                if b < n {
                    if old_inv[b] >= p {
                        assert(perm[old_inv[b] + 1] == old_perm[old_inv[b]]);
                    } else {
                        assert(perm[old_inv[b]] == old_perm[old_inv[b]]);
                    }
                }
            }
        }
    }
    proof {
        assert(src.take(src.len() as int) =~= src);
    }
    (out, Ghost(perm), Ghost(inv))
}

/// Sorts entries by name, in `String`'s order, keeping entries with equal names in
/// their order; the entries stay the same.
pub fn sort_by_name<T: Named>(mods: &mut Vec<T>)
    ensures
        sorted_by_name(final(mods)@),
        is_stable_sort_by_name(old(mods)@, final(mods)@),
        final(mods)@.to_multiset() == old(mods)@.to_multiset(),
{
    let mut v: Vec<T> = Vec::new();
    std::mem::swap(&mut v, mods);
    let (sorted, Ghost(perm), Ghost(_inv)) = sort_by_name_permuted(v);
    assert(is_stable_permutation(v@, sorted@, perm));
    *mods = sorted;
}


} // verus!
