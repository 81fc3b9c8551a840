//! Selecting and ordering list positions from their fuzzy scores and ranks.

use vstd::prelude::*;

verus! {

/// The positions below `n` whose score is present and at least `floor`, in
/// ascending order.
pub open spec fn kept_positions(scores: Seq<Option<i64>>, floor: i64, n: int) -> Seq<usize>
    decreases n,
{
    if n <= 0 {
        seq![]
    } else {
        kept_positions(scores, floor, n - 1) + if scores[n - 1] matches Some(x) && x >= floor {
            seq![(n - 1) as usize]
        } else {
            seq![]
        }
    }
}

/// The positions of `ps` whose rank is `d`, in order.
pub open spec fn positions_at_rank(ps: Seq<usize>, ranks: Seq<usize>, d: nat) -> Seq<usize>
    decreases ps.len(),
{
    if ps.len() == 0 {
        seq![]
    } else {
        positions_at_rank(ps.drop_last(), ranks, d) + if ranks[ps.last() as int] == d {
            seq![ps.last()]
        } else {
            seq![]
        }
    }
}

/// The positions of `ps` with a rank below `n`, by rank, in order within a rank.
pub open spec fn positions_below(ps: Seq<usize>, ranks: Seq<usize>, n: nat) -> Seq<usize>
    decreases n,
{
    if n == 0 {
        seq![]
    } else {
        positions_below(ps, ranks, (n - 1) as nat) + positions_at_rank(ps, ranks, (n - 1) as nat)
    }
}

/// The ranked selection: the positions whose score is at least `floor`,
/// ordered by rank from 0 to `max_rank`, ties in position order.
pub open spec fn ranked_positions(scores: Seq<Option<i64>>, ranks: Seq<usize>, floor: i64, max_rank: nat) -> Seq<usize> {
    positions_below(kept_positions(scores, floor, scores.len() as int), ranks, max_rank + 1)
}

/// The positions whose score is at least `floor`, ordered by rank (ranks
/// from 0 to `max_rank`), ties in position order, as `ranked_positions`
/// describes.
pub fn rank_positions(scores: &Vec<Option<i64>>, ranks: &Vec<usize>, floor: i64, max_rank: usize) -> (r: Vec<usize>)
    requires
        ranks.len() == scores.len(),
    ensures
        r@ == ranked_positions(scores@, ranks@, floor, max_rank as nat),
        forall|j: int| 0 <= j < r.len() ==> #[trigger] r@[j] < scores.len(),
{
    let mut kept: Vec<usize> = Vec::new();
    let mut i: usize = 0;
    while i < scores.len()
        invariant
            i <= scores.len(),
            kept@ == kept_positions(scores@, floor, i as int),
            forall|j: int| 0 <= j < kept.len() ==> #[trigger] kept@[j] < i,
        decreases scores.len() - i,
    {
        let keep = match scores[i] {
            Some(x) => x >= floor,
            None => false,
        };
        if keep {
            kept.push(i);
        }
        i += 1;
    }
    let mut out: Vec<usize> = Vec::new();
    let mut d: usize = 0;
    loop
        invariant_except_break
            out@ == positions_below(kept@, ranks@, d as nat),
        invariant
            d <= max_rank,
            ranks.len() == scores.len(),
            kept@ == kept_positions(scores@, floor, scores.len() as int),
            forall|j: int| 0 <= j < kept.len() ==> #[trigger] kept@[j] < scores.len(),
            forall|j: int| 0 <= j < out.len() ==> #[trigger] out@[j] < scores.len(),
        ensures
            out@ == positions_below(kept@, ranks@, (max_rank + 1) as nat),
            forall|j: int| 0 <= j < out.len() ==> #[trigger] out@[j] < scores.len(),
        decreases max_rank - d,
    {
        let mut j: usize = 0;
        while j < kept.len()
            invariant
                j <= kept.len(),
                ranks.len() == scores.len(),
                forall|k: int| 0 <= k < kept.len() ==> #[trigger] kept@[k] < scores.len(),
                forall|k: int| 0 <= k < out.len() ==> #[trigger] out@[k] < scores.len(),
                out@ == positions_below(kept@, ranks@, d as nat) + positions_at_rank(
                    kept@.take(j as int),
                    ranks@,
                    d as nat,
                ),
            decreases kept.len() - j,
        {
            let ghost old_out = out@;
            let p = kept[j];
            if ranks[p] == d {
                out.push(p);
            }
            proof {
                let t = kept@.take(j + 1);
                assert(t.drop_last() =~= kept@.take(j as int));
                assert(t.last() == p);
                assert(out@ =~= old_out + if ranks@[p as int] == d as nat {
                    seq![p]
                } else {
                    seq![]
                });
            }
            j += 1;
        }
        proof {
            assert(kept@.take(j as int) =~= kept@);
        }
        if d == max_rank {
            break ;
        }
        d += 1;
    }
    out
}

} // verus!
