//! Merkle trees over transaction hashes, as blocks commit to them.
use vstd::arithmetic::power2::{lemma2_to64, lemma_pow2_unfold, pow2};
use vstd::prelude::*;

verus! {

/// The double SHA-256 of `data`, as `bitcoin`'s `sha256d::Hash::hash` returns it.
pub uninterp spec fn sha256d(data: Seq<u8>) -> Seq<u8>;

/// `bitcoin::hashes::sha256d::Hash::hash`: the 32 hash bytes in internal order.
/// They are a function of the input alone; which function is left to its name.
#[verifier::external_body]
pub(crate) fn hash_sha256d(data: &[u8]) -> (hash: [u8; 32])
    ensures
        hash@ == sha256d(data@),
{
    let hash: bitcoin::hashes::sha256d::Hash = bitcoin::hashes::Hash::hash(data);
    bitcoin::hashes::Hash::to_byte_array(hash)
}

/// The level above `level`: hashes taken in pairs, the last one paired with
/// itself where it has no partner.
pub open spec fn pair_up(level: Seq<Seq<u8>>) -> Seq<Seq<u8>> {
    Seq::new(
        (level.len() + 1) / 2,
        |i: int|
            sha256d(
                level[2 * i] + if 2 * i + 1 < level.len() {
                    level[2 * i + 1]
                } else {
                    level[2 * i]
                },
            ),
    )
}

/// The root of the tree whose lowest level is `level`.
pub open spec fn root(level: Seq<Seq<u8>>) -> Seq<u8>
    recommends
        level.len() > 0,
    decreases level.len(),
{
    if level.len() <= 1 {
        level[0]
    } else {
        root(pair_up(level))
    }
}

/// The siblings of the leftmost path, from the bottom up, in a tree whose lowest
/// level is one unknown hash followed by `others`.
pub open spec fn branch(others: Seq<Seq<u8>>) -> Seq<Seq<u8>>
    decreases others.len(),
{
    if others.len() == 0 {
        Seq::empty()
    } else {
        seq![others[0]] + branch(pair_up(others.drop_first()))
    }
}

/// The hash at the top of the path that starts at `hash` and meets `siblings`.
pub open spec fn climb(hash: Seq<u8>, siblings: Seq<Seq<u8>>) -> Seq<u8>
    decreases siblings.len(),
{
    if siblings.len() == 0 {
        hash
    } else {
        climb(sha256d(hash + siblings[0]), siblings.drop_first())
    }
}

/// Climbing the branch from any coinbase hash gives the root of the whole tree:
/// the branch alone is enough to compute every miner's merkle root.
pub proof fn branch_gives_the_root(coinbase: Seq<u8>, others: Seq<Seq<u8>>)
    ensures
        climb(coinbase, branch(others)) == root(seq![coinbase] + others),
    decreases others.len(),
{
    let whole = seq![coinbase] + others;
    if others.len() > 0 {
        let up = sha256d(coinbase + others[0]);
        let rest = pair_up(others.drop_first());
        branch_gives_the_root(up, rest);
        assert(branch(others).drop_first() =~= branch(rest));
        assert(pair_up(whole) =~= seq![up] + rest) by {
            assert forall|i: int| 0 < i < pair_up(whole).len() implies pair_up(whole)[i] == rest[i
                - 1] by {
                let o = others.drop_first();
                assert(whole[2 * i] == o[2 * (i - 1)]);
                if 2 * i + 1 < whole.len() {
                    assert(whole[2 * i + 1] == o[2 * (i - 1) + 1]);
                }
            }
        }
    }
}

/// A template without transactions has an empty branch, and then the coinbase
/// hash is the root.
pub proof fn empty_branch_is_the_coinbase(coinbase: Seq<u8>)
    ensures
        branch(Seq::empty()) == Seq::<Seq<u8>>::empty(),
        root(seq![coinbase]) == coinbase,
{
}

/// Climbing past one sibling hashes the two side by side, the climbing hash first, and a
/// path is climbed piece by piece.
pub proof fn climbing_goes_step_by_step(hash: Seq<u8>, sibling: Seq<u8>, a: Seq<Seq<u8>>, b: Seq<Seq<u8>>)
    ensures
        climb(hash, seq![sibling]) == sha256d(hash + sibling),
        climb(hash, a + b) == climb(climb(hash, a), b),
    decreases a.len(),
{
    reveal_with_fuel(climb, 2);
    assert(seq![sibling].drop_first() =~= Seq::empty());
    if a.len() == 0 {
        assert(a + b =~= b);
    } else {
        climbing_goes_step_by_step(sha256d(hash + a[0]), sibling, a.drop_first(), b);
        assert((a + b).drop_first() =~= a.drop_first() + b);
    }
}

/// A single hash is its own root, and any other level has the root of the level above
/// it: the hashes of neighbours side by side, where the last one stands beside itself
/// if it has no neighbour.
pub proof fn root_is_that_of_the_pairs(level: Seq<Seq<u8>>, above: Seq<Seq<u8>>)
    requires
        level.len() > 1,
        2 * above.len() == level.len() || 2 * above.len() == level.len() + 1,
        forall|i: int|
            0 <= i && 2 * i + 1 < level.len() ==> #[trigger] above[i] == sha256d(
                level[2 * i] + level[2 * i + 1],
            ),
        level.len() % 2 == 1 ==> above.last() == sha256d(level.last() + level.last()),
    ensures
        root(level) == root(above),
        root(seq![level[0]]) == level[0],
{
    assert(pair_up(level) =~= above);
}

/// The root over twice as many hashes is the hash of the roots of the two halves, where
/// a half is a power of two.
pub proof fn root_is_that_of_the_halves(a: Seq<Seq<u8>>, b: Seq<Seq<u8>>, depth: nat)
    requires
        a.len() == pow2(depth),
        b.len() == pow2(depth),
    ensures
        root(a + b) == sha256d(root(a) + root(b)),
    decreases depth,
{
    lemma2_to64();
    let all = a + b;
    reveal_with_fuel(root, 2);
    if depth == 0 {
        assert(pair_up(all)[0] == sha256d(a[0] + b[0]));
        assert(pair_up(all).len() == 1);
    } else {
        let less = (depth - 1) as nat;
        lemma_pow2_unfold(depth);
        vstd::arithmetic::power2::lemma_pow2_pos(less);
        root_is_that_of_the_halves(pair_up(a), pair_up(b), less);
        assert(root(a) == root(pair_up(a)));
        assert(root(b) == root(pair_up(b)));
        assert(root(all) == root(pair_up(all)));
        assert(pair_up(all) =~= pair_up(a) + pair_up(b)) by {
            let n = pair_up(a).len() as int;
            assert forall|i: int| 0 <= i < pair_up(all).len() implies pair_up(all)[i] == (pair_up(a)
                + pair_up(b))[i] by {
                if i < n {
                    assert(all[2 * i] == a[2 * i]);
                    assert(all[2 * i + 1] == a[2 * i + 1]);
                } else {
                    assert(all[2 * i] == b[2 * (i - n)]);
                    assert(all[2 * i + 1] == b[2 * (i - n) + 1]);
                }
            }
        }
    }
}

/// A branch has as many siblings as the number of the other transactions has binary
/// digits: none for none, and `digits` for at least `2^(digits - 1)` and fewer than
/// `2^digits`.
pub proof fn branch_len_is_logarithmic(others: Seq<Seq<u8>>)
    ensures
        pow2(branch(others).len()) / 2 <= others.len() < pow2(branch(others).len()),
    decreases others.len(),
{
    lemma2_to64();
    if others.len() > 0 {
        let above = pair_up(others.drop_first());
        let digits = branch(above).len();
        branch_len_is_logarithmic(above);
        assert(branch(others).len() == digits + 1);
        lemma_pow2_unfold(digits + 1);
        if digits > 0 {
            lemma_pow2_unfold(digits);
        }
    }
}

} // verus!
