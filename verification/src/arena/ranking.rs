//! Ranking of tournament participants: by match points, then by the sum of
//! their opponents' points, then by game win rate, all best first; ties keep
//! the order in which the participants were given.

use vstd::prelude::*;

verus! {

/// What a participant is ranked by: match points, Buchholz score (the sum
/// of its opponents' points), and games won out of games played.
#[derive(Clone, Copy, Debug, PartialEq, Eq, Structural)]
pub struct RankKey {
    pub score: u32,
    pub buchholz: u128,
    pub wins: usize,
    pub games: usize,
}

/// The win rate as a fraction: wins over games, or one half with no games.
pub open spec fn rate_num(k: RankKey) -> int {
    if k.games == 0 { 1 } else { k.wins as int }
}

/// The denominator of the win rate fraction.
pub open spec fn rate_den(k: RankKey) -> int {
    if k.games == 0 { 2 } else { k.games as int }
}

/// `a` has the higher win rate.
pub open spec fn rate_above(a: RankKey, b: RankKey) -> bool {
    rate_num(a) * rate_den(b) > rate_num(b) * rate_den(a)
}

/// `a` ranks strictly ahead of `b`: more points; or as many and a higher
/// Buchholz score; or both the same and a higher win rate.
pub open spec fn ahead(a: RankKey, b: RankKey) -> bool {
    ||| a.score > b.score
    ||| a.score == b.score && a.buchholz > b.buchholz
    ||| a.score == b.score && a.buchholz == b.buchholz && rate_above(a, b)
}

proof fn lemma_rate_trans(a: RankKey, b: RankKey, c: RankKey)
    ensures
        rate_above(a, b) && rate_above(b, c) ==> rate_above(a, c),
        !rate_above(b, a) && !rate_above(c, b) ==> !rate_above(c, a),
{
    let (na, da) = (rate_num(a), rate_den(a));
    let (nb, db) = (rate_num(b), rate_den(b));
    let (nc, dc) = (rate_num(c), rate_den(c));
    assert(da > 0 && db > 0 && dc > 0 && na >= 0 && nb >= 0 && nc >= 0);
    assert(na * db > nb * da && nb * dc > nc * db ==> na * dc > nc * da) by (nonlinear_arith)
        requires
            da > 0,
            db > 0,
            dc > 0,
            na >= 0,
            nb >= 0,
            nc >= 0,
    {
        if na * db > nb * da && nb * dc > nc * db {
            assert(na * db * dc > nb * da * dc);
            assert(nb * dc * da > nc * db * da);
            assert(na * dc * db > nc * da * db);
        }
    }
    assert(nb * da <= na * db && nc * db <= nb * dc ==> nc * da <= na * dc) by (nonlinear_arith)
        requires
            da > 0,
            db > 0,
            dc > 0,
            na >= 0,
            nb >= 0,
            nc >= 0,
    {
        if nb * da <= na * db && nc * db <= nb * dc {
            assert(nb * da * dc <= na * db * dc);
            assert(nc * db * da <= nb * dc * da);
            assert(nc * da * db <= na * dc * db);
        }
    }
}

/// Ranking ahead is a strict weak order: never reflexive, transitive, and
/// so is being tied or behind.
pub proof fn lemma_ahead_order(a: RankKey, b: RankKey, c: RankKey)
    ensures
        !ahead(a, a),
        ahead(a, b) ==> !ahead(b, a),
        ahead(a, b) && ahead(b, c) ==> ahead(a, c),
        !ahead(b, a) && !ahead(c, b) ==> !ahead(c, a),
{
    lemma_rate_trans(a, b, c);
    lemma_rate_trans(b, a, c);
    lemma_rate_trans(a, c, b);
}

/// Whether `a` ranks strictly ahead of `b`.
pub fn ranks_ahead(a: &RankKey, b: &RankKey) -> (r: bool)
    ensures
        r == ahead(*a, *b),
{
    if a.score != b.score {
        return a.score > b.score;
    }
    if a.buchholz != b.buchholz {
        return a.buchholz > b.buchholz;
    }
    let na: u128 = if a.games == 0 { 1 } else { a.wins as u128 };
    let da: u128 = if a.games == 0 { 2 } else { a.games as u128 };
    let nb: u128 = if b.games == 0 { 1 } else { b.wins as u128 };
    let db: u128 = if b.games == 0 { 2 } else { b.games as u128 };
    assert(na <= usize::MAX && da <= usize::MAX && nb <= usize::MAX && db <= usize::MAX);
    assert(na * db <= usize::MAX * usize::MAX) by (nonlinear_arith)
        requires
            na <= usize::MAX,
            db <= usize::MAX,
    ;
    assert(nb * da <= usize::MAX * usize::MAX) by (nonlinear_arith)
        requires
            nb <= usize::MAX,
            da <= usize::MAX,
    ;
    assert(usize::MAX * usize::MAX <= u128::MAX) by (nonlinear_arith)
        requires
            usize::MAX <= 0xffff_ffff_ffff_ffff,
    ;
    na * db > nb * da
}

/// `order` lists positions `0..n` once each, best ranked first, tied
/// positions in their given order.
pub open spec fn is_ranking(keys: Seq<RankKey>, order: Seq<usize>) -> bool {
    &&& order.len() == keys.len()
    &&& order.no_duplicates()
    &&& forall|i: int| 0 <= i < order.len() ==> (#[trigger] order[i] as int) < keys.len()
    &&& forall|i: int, j: int| 0 <= i < j < order.len() ==>
            !ahead(keys[#[trigger] order[j] as int], keys[#[trigger] order[i] as int])
    &&& forall|i: int, j: int| 0 <= i < j < order.len() && !ahead(keys[#[trigger] order[i] as int], keys[#[trigger] order[j] as int])
            ==> order[i] < order[j]
}

/// The first `k` positions, ranked.
spec fn ranks_prefix(keys: Seq<RankKey>, order: Seq<usize>, k: int) -> bool {
    &&& order.len() == k
    &&& order.no_duplicates()
    &&& forall|i: int| 0 <= i < order.len() ==> (#[trigger] order[i] as int) < k
    &&& forall|i: int, j: int| 0 <= i < j < order.len() ==>
            !ahead(keys[#[trigger] order[j] as int], keys[#[trigger] order[i] as int])
    &&& forall|i: int, j: int| 0 <= i < j < order.len() && !ahead(keys[#[trigger] order[i] as int], keys[#[trigger] order[j] as int])
            ==> order[i] < order[j]
}

/// Rank positions `0..n` of `keys`, best first; ties keep their order (a
/// stable sort).
pub fn rank_order(keys: &Vec<RankKey>) -> (r: Vec<usize>)
    ensures
        is_ranking(keys@, r@),
{
    let n = keys.len();
    let mut order: Vec<usize> = Vec::new();
    let mut k: usize = 0;
    while k < n
        invariant
            k <= n,
            n == keys@.len(),
            ranks_prefix(keys@, order@, k as int),
        decreases n - k,
    {
        // Find where k goes: after every entry it does not rank ahead of.
        let mut p: usize = order.len();
        while p > 0 && ranks_ahead(&keys[k], &keys[order[p - 1]])
            invariant
                p <= order@.len(),
                k < n,
                n == keys@.len(),
                ranks_prefix(keys@, order@, k as int),
                forall|q: int| p <= q < order@.len() ==> ahead(keys@[k as int], keys@[#[trigger] order@[q] as int]),
            decreases p,
        {
            p = p - 1;
        }
        let ghost before = order@;
        proof {
            if p > 0 {
                assert(!ahead(keys@[k as int], keys@[before[p - 1] as int]));
            }
        }
        order.insert(p, k);
        proof {
            let o = order@;
            let kk = keys@[k as int];
            assert(o == before.insert(p as int, k));
            assert forall|i: int| 0 <= i < o.len() implies (#[trigger] o[i] as int) < k + 1 by {
                if i < p { assert(o[i] == before[i]); } else if i > p { assert(o[i] == before[i - 1]); }
            }
            assert forall|i: int, j: int| 0 <= i < j < o.len() implies o[i] != o[j] by {
                if i < p && j > p {
                    assert(o[i] == before[i] && o[j] == before[j - 1]);
                } else if i < p && j < p {
                    assert(o[i] == before[i] && o[j] == before[j]);
                } else if i > p {
                    assert(o[i] == before[i - 1] && o[j] == before[j - 1]);
                } else if i == p {
                    assert(o[j] == before[j - 1]);
                } else {
                    assert(o[i] == before[i]);
                }
            }
            assert forall|i: int, j: int| 0 <= i < j < o.len() implies
                !ahead(keys@[#[trigger] o[j] as int], keys@[#[trigger] o[i] as int]) by {
                if i < p && j < p {
                    assert(o[i] == before[i] && o[j] == before[j]);
                } else if i > p {
                    assert(o[i] == before[i - 1] && o[j] == before[j - 1]);
                } else if i < p && j > p {
                    assert(o[i] == before[i] && o[j] == before[j - 1]);
                } else if i == p {
                    assert(o[j] == before[j - 1]);
                    lemma_ahead_order(kk, keys@[o[j] as int], kk);
                } else {
                    // j == p, i < p: before[i] is not behind before[p - 1], which k is not ahead of.
                    assert(o[i] == before[i]);
                    if i < p - 1 {
                        lemma_ahead_order(keys@[before[i] as int], keys@[before[p - 1] as int], kk);
                    }
                }
            }
            assert forall|i: int, j: int| 0 <= i < j < o.len() && !ahead(keys@[#[trigger] o[i] as int], keys@[#[trigger] o[j] as int])
                implies o[i] < o[j] by {
                if i < p && j < p {
                    assert(o[i] == before[i] && o[j] == before[j]);
                } else if i > p {
                    assert(o[i] == before[i - 1] && o[j] == before[j - 1]);
                } else if i < p && j > p {
                    assert(o[i] == before[i] && o[j] == before[j - 1]);
                } else if i == p {
                    assert(o[j] == before[j - 1]);
                    assert(ahead(kk, keys@[before[j - 1] as int]));
                } else {
                    assert(o[i] == before[i]);
                }
            }
        }
        k = k + 1;
    }
    order
}

} // verus!
