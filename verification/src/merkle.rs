//! The Merkle root over a collection of 32-byte hashes: the hashes are put in
//! lexicographic order and folded pairwise with SHA-256 until one is left.
use vstd::prelude::*;
use vstd::relations::*;
use vstd::seq_lib::*;
use crate::crypto::{sha256_bytes, sha256_digest};

verus! {

/// Lexicographic order on byte strings; a proper prefix comes first.
pub open spec fn lex_le(a: Seq<u8>, b: Seq<u8>) -> bool
    decreases a.len(),
{
    if a.len() == 0 {
        true
    } else if b.len() == 0 {
        false
    } else if a[0] != b[0] {
        a[0] < b[0]
    } else {
        lex_le(a.drop_first(), b.drop_first())
    }
}

/// `lex_le` as a relation.
pub open spec fn lex_order() -> spec_fn(Seq<u8>, Seq<u8>) -> bool {
    |a: Seq<u8>, b: Seq<u8>| lex_le(a, b)
}

/// The byte strings of a sequence of hashes.
pub open spec fn hashes_view(hashes: Seq<crate::event::Hash>) -> Seq<Seq<u8>> {
    hashes.map_values(|h: crate::event::Hash| h@)
}

/// One step of the fold: element `k` is the digest of elements `2k` and
/// `2k + 1` joined; a last element without a partner is joined with itself.
pub open spec fn fold_level(level: Seq<Seq<u8>>) -> Seq<Seq<u8>> {
    Seq::new(
        ((level.len() + 1) / 2) as nat,
        |k: int|
            sha256_digest(
                level[2 * k] + (if 2 * k + 1 < level.len() {
                    level[2 * k + 1]
                } else {
                    level[2 * k]
                }),
            ),
    )
}

/// Folds a level that is not empty down to its single root.
pub open spec fn fold_root(level: Seq<Seq<u8>>) -> Seq<u8>
    decreases level.len(),
{
    if level.len() <= 1 {
        level[0]
    } else {
        fold_root(fold_level(level))
    }
}

/// The Merkle root of a collection of hashes, absent for the empty one.
pub open spec fn spec_merkle_root(leaves: Seq<Seq<u8>>) -> Option<Seq<u8>> {
    if leaves.len() == 0 {
        None
    } else {
        Some(fold_root(leaves.sort_by(lex_order())))
    }
}

proof fn lemma_lex_reflexive(a: Seq<u8>)
    ensures
        lex_le(a, a),
    decreases a.len(),
{
    if a.len() > 0 {
        lemma_lex_reflexive(a.drop_first());
    }
}

proof fn lemma_lex_antisymmetric(a: Seq<u8>, b: Seq<u8>)
    requires
        lex_le(a, b),
        lex_le(b, a),
    ensures
        a == b,
    decreases a.len(),
{
    if a.len() == 0 {
        assert(a =~= b);
    } else {
        lemma_lex_antisymmetric(a.drop_first(), b.drop_first());
        assert(a =~= seq![a[0]] + a.drop_first());
        assert(b =~= seq![b[0]] + b.drop_first());
    }
}

proof fn lemma_lex_transitive(a: Seq<u8>, b: Seq<u8>, c: Seq<u8>)
    requires
        lex_le(a, b),
        lex_le(b, c),
    ensures
        lex_le(a, c),
    decreases a.len(),
{
    if a.len() > 0 && a[0] == b[0] && b[0] == c[0] {
        lemma_lex_transitive(a.drop_first(), b.drop_first(), c.drop_first());
    }
}

proof fn lemma_lex_connected(a: Seq<u8>, b: Seq<u8>)
    ensures
        lex_le(a, b) || lex_le(b, a),
    decreases a.len(),
{
    if a.len() > 0 && b.len() > 0 && a[0] == b[0] {
        lemma_lex_connected(a.drop_first(), b.drop_first());
    }
}

/// The lexicographic order is a total order.
pub proof fn lemma_lex_total()
    ensures
        total_ordering(lex_order()),
{
    let r = lex_order();
    assert forall|x: Seq<u8>| #[trigger] r(x, x) by {
        lemma_lex_reflexive(x);
    }
    assert forall|x: Seq<u8>, y: Seq<u8>| #[trigger] r(x, y) && #[trigger] r(y, x) implies x
        == y by {
        lemma_lex_antisymmetric(x, y);
    }
    assert forall|x: Seq<u8>, y: Seq<u8>, z: Seq<u8>| #[trigger] r(x, y) && #[trigger] r(
        y,
        z,
    ) implies r(x, z) by {
        lemma_lex_transitive(x, y, z);
    }
    assert forall|x: Seq<u8>, y: Seq<u8>| #[trigger] r(x, y) || #[trigger] r(y, x) by {
        lemma_lex_connected(x, y);
    }
}

/// The root depends on which hashes are given and how often, not on their
/// order.
pub proof fn lemma_merkle_root_order_independent(a: Seq<Seq<u8>>, b: Seq<Seq<u8>>)
    requires
        a.to_multiset() == b.to_multiset(),
    ensures
        spec_merkle_root(a) == spec_merkle_root(b),
{
    lemma_lex_total();
    a.to_multiset_ensures();
    b.to_multiset_ensures();
    a.lemma_sort_by_ensures(lex_order());
    b.lemma_sort_by_ensures(lex_order());
    lemma_sorted_unique(a.sort_by(lex_order()), b.sort_by(lex_order()), lex_order());
}

/// Two collections without repetitions that hold the same hashes have the
/// same root.
pub proof fn lemma_merkle_root_of_same_set(a: Seq<Seq<u8>>, b: Seq<Seq<u8>>)
    requires
        a.no_duplicates(),
        b.no_duplicates(),
        a.to_set() == b.to_set(),
    ensures
        spec_merkle_root(a) == spec_merkle_root(b),
{
    a.to_multiset_ensures();
    b.to_multiset_ensures();
    a.lemma_multiset_has_no_duplicates();
    b.lemma_multiset_has_no_duplicates();
    assert forall|x: Seq<u8>| a.to_multiset().count(x) == b.to_multiset().count(x) by {
        assert(a.contains(x) <==> a.to_set().contains(x));
        assert(b.contains(x) <==> b.to_set().contains(x));
    }
    assert(a.to_multiset() =~= b.to_multiset());
    lemma_merkle_root_order_independent(a, b);
}

/// Whether `a` comes before `b` in lexicographic order, or is `b`.
pub fn hash_le(a: &crate::event::Hash, b: &crate::event::Hash) -> (le: bool)
    ensures
        le == lex_le(a@, b@),
{
    let mut i: usize = 0;
    assert(a@.subrange(0, 32) =~= a@);
    assert(b@.subrange(0, 32) =~= b@);
    while i < 32
        invariant
            i <= 32,
            lex_le(a@, b@) == lex_le(a@.subrange(i as int, 32), b@.subrange(i as int, 32)),
        decreases 32 - i,
    {
        let ghost ra = a@.subrange(i as int, 32);
        let ghost rb = b@.subrange(i as int, 32);
        proof {
            assert(ra[0] == a@[i as int]);
            assert(rb[0] == b@[i as int]);
            assert(ra.drop_first() =~= a@.subrange(i + 1, 32));
            assert(rb.drop_first() =~= b@.subrange(i + 1, 32));
        }
        if a[i] != b[i] {
            return a[i] < b[i];
        }
        i += 1;
    }
    true
}

/// The hashes of `v` in ascending lexicographic order.
pub fn sort_hashes(v: &Vec<crate::event::Hash>) -> (out: Vec<crate::event::Hash>)
    ensures
        sorted_by(hashes_view(out@), lex_order()),
        hashes_view(out@).to_multiset() == hashes_view(v@).to_multiset(),
{
    let mut out: Vec<crate::event::Hash> = Vec::with_capacity(v.len());
    let mut i: usize = 0;
    proof {
        assert(hashes_view(v@).subrange(0, 0) =~= hashes_view(out@));
    }
    while i < v.len()
        invariant
            i <= v@.len(),
            sorted_by(hashes_view(out@), lex_order()),
            hashes_view(out@).to_multiset() == hashes_view(v@).subrange(0, i as int).to_multiset(),
        decreases v@.len() - i,
    {
        let x = v[i];
        let mut p: usize = 0;
        while p < out.len() && hash_le(&out[p], &x)
            invariant
                p <= out@.len(),
                forall|k: int| 0 <= k < p ==> lex_le(#[trigger] hashes_view(out@)[k], x@),
            decreases out@.len() - p,
        {
            p += 1;
        }
        let ghost before = hashes_view(out@);
        out.insert(p, x);
        proof {
            let after = hashes_view(out@);
            assert(after =~= before.insert(p as int, x@));
            to_multiset_insert(before, p as int, x@);
            let upto = hashes_view(v@).subrange(0, i + 1);
            assert(upto =~= hashes_view(v@).subrange(0, i as int).push(x@));
            to_multiset_build(hashes_view(v@).subrange(0, i as int), x@);
            assert forall|a: int, b: int| 0 <= a < b < after.len() implies #[trigger] lex_order()(
                after[a],
                after[b],
            ) by {
                if b < p {
                    assert(lex_order()(before[a], before[b]));
                } else if b == p {
                    assert(lex_le(before[a], x@));
                } else if a == p {
                    lemma_lex_connected(before[p as int], x@);
                    if b - 1 > p {
                        assert(lex_order()(before[p as int], before[b - 1]));
                        lemma_lex_transitive(x@, before[p as int], before[b - 1]);
                    }
                } else if a < p {
                    assert(lex_order()(before[a], before[b - 1]));
                } else {
                    assert(lex_order()(before[a - 1], before[b - 1]));
                }
            }
        }
        i += 1;
    }
    assert(hashes_view(v@).subrange(0, i as int) =~= hashes_view(v@));
    out
}

/// SHA-256 of two hashes joined.
pub fn hash_pair(a: &crate::event::Hash, b: &crate::event::Hash) -> (out: crate::event::Hash)
    ensures
        out@ == sha256_digest(a@ + b@),
{
    let mut buf: Vec<u8> = Vec::with_capacity(64);
    buf.extend_from_slice(a.as_slice());
    buf.extend_from_slice(b.as_slice());
    assert(buf@ =~= a@ + b@);
    sha256_bytes(buf.as_slice())
}

/// The Merkle root of `leaves`: `None` exactly when there are none.
pub fn merkle_root(leaves: &Vec<crate::event::Hash>) -> (root: Option<crate::event::Hash>)
    ensures
        root.is_none() <==> leaves@.len() == 0,
        root.is_some() ==> Some(root.unwrap()@) == spec_merkle_root(hashes_view(leaves@)),
{
    if leaves.len() == 0 {
        return None;
    }
    let mut level = sort_hashes(leaves);
    proof {
        let lv = hashes_view(leaves@);
        let sv = hashes_view(level@);
        lemma_lex_total();
        lv.to_multiset_ensures();
        sv.to_multiset_ensures();
        lv.lemma_sort_by_ensures(lex_order());
        lemma_sorted_unique(sv, lv.sort_by(lex_order()), lex_order());
        assert(sv == lv.sort_by(lex_order()));
        assert(sv.len() == lv.len());
    }
    let ghost sorted = hashes_view(level@);
    while level.len() > 1
        invariant
            level@.len() >= 1,
            fold_root(hashes_view(level@)) == fold_root(sorted),
        decreases level@.len(),
    {
        let ghost cur = hashes_view(level@);
        let n = level.len();
        let mut next: Vec<crate::event::Hash> = Vec::new();
        let mut i: usize = 0;
        while i < n
            invariant
                n == level@.len(),
                n > 1,
                cur == hashes_view(level@),
                i <= n,
                i % 2 == 0 || i == n,
                next@.len() == (i + 1) / 2,
                forall|k: int| 0 <= k < next@.len() ==> (#[trigger] next@[k])@ == fold_level(cur)[k],
            decreases n - i,
        {
            let a = level[i];
            let b = if i + 1 < n {
                level[i + 1]
            } else {
                level[i]
            };
            let h = hash_pair(&a, &b);
            next.push(h);
            i = if i + 1 < n {
                i + 2
            } else {
                n
            };
        }
        proof {
            assert(hashes_view(next@) =~= fold_level(cur));
        }
        level = next;
    }
    Some(level[0])
}

} // verus!
