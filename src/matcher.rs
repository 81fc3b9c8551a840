//! Ranking channels against a query.

use vstd::prelude::*;
use crate::channel::{Channel, copy_channels};
use crate::ranking::{kept_positions, positions_at_rank, positions_below, rank_positions, ranked_positions};
use crate::text::{
    chars_of, edit_distance, levenshtein, lower_of, lowercase, skim_score_of, skim_scores,
    text_between, trim, trim_of,
};

verus! {

/// The lowest fuzzy score at which a channel is kept.
pub const MIN_SCORE: i64 = 51;

/// The form of a query that channels are compared with: trimmed, then lower-cased.
pub open spec fn normalized_query(query: Seq<char>) -> Seq<char> {
    lower_of(trim_of(query))
}

/// Whether the fuzzy matcher keeps channel `c` for the normalized query `q`.
pub open spec fn accepts(c: Channel, q: Seq<char>) -> bool {
    match skim_score_of(lower_of(c.name@), q) {
        Some(score) => score >= MIN_SCORE,
        None => false,
    }
}

/// The part of a channel's name that is ranked: its lower-cased name, cut to
/// the query's length.
pub open spec fn ranked_field(c: Channel, q: Seq<char>) -> Seq<char> {
    let l = lower_of(c.name@);
    if l.len() <= q.len() {
        l
    } else {
        l.take(q.len() as int)
    }
}

/// The rank of a kept channel: the edit distance between its ranked field and
/// the query; lower ranks come first.
pub open spec fn rank_key(c: Channel, q: Seq<char>) -> nat {
    levenshtein(ranked_field(c, q), q)
}

/// The channels of `s` that the matcher keeps, in order.
pub open spec fn accepted(s: Seq<Channel>, q: Seq<char>) -> Seq<Channel>
    decreases s.len(),
{
    if s.len() == 0 {
        seq![]
    } else {
        accepted(s.drop_last(), q) + if accepts(s.last(), q) {
            seq![s.last()]
        } else {
            seq![]
        }
    }
}

/// The channels of `s` with rank `d`, in order.
pub open spec fn with_rank(s: Seq<Channel>, q: Seq<char>, d: nat) -> Seq<Channel>
    decreases s.len(),
{
    if s.len() == 0 {
        seq![]
    } else {
        with_rank(s.drop_last(), q, d) + if rank_key(s.last(), q) == d {
            seq![s.last()]
        } else {
            seq![]
        }
    }
}

/// The channels of `s` with a rank below `n`, by rank, and in order within a rank.
pub open spec fn ranked_below(s: Seq<Channel>, q: Seq<char>, n: nat) -> Seq<Channel>
    decreases n,
{
    if n == 0 {
        seq![]
    } else {
        ranked_below(s, q, (n - 1) as nat) + with_rank(s, q, (n - 1) as nat)
    }
}

/// The result of a fuzzy search: every channel when the normalized query is
/// empty; otherwise the kept channels, closest first, ties in input order.
pub open spec fn fuzzy_result(s: Seq<Channel>, query: Seq<char>) -> Seq<Channel> {
    let q = normalized_query(query);
    if q.len() == 0 {
        s
    } else {
        ranked_below(accepted(s, q), q, q.len() + 1)
    }
}

/// An edit distance is at most the longer length.
pub proof fn lemma_levenshtein_bound(a: Seq<char>, b: Seq<char>)
    ensures
        levenshtein(a, b) <= if a.len() >= b.len() { a.len() } else { b.len() },
    decreases a.len() + b.len(),
{
    if a.len() > 0 && b.len() > 0 {
        lemma_levenshtein_bound(a.drop_last(), b.drop_last());
    }
}

/// A rank is at most the query's length.
pub proof fn lemma_rank_bound(c: Channel, q: Seq<char>)
    ensures
        rank_key(c, q) <= q.len(),
{
    lemma_levenshtein_bound(ranked_field(c, q), q);
}

/// Membership in the kept channels.
pub proof fn lemma_accepted_contains(s: Seq<Channel>, q: Seq<char>, x: Channel)
    ensures
        accepted(s, q).contains(x) <==> (s.contains(x) && accepts(x, q)),
    decreases s.len(),
{
    if s.len() > 0 {
        lemma_accepted_contains(s.drop_last(), q, x);
        assert(s =~= s.drop_last().push(s.last()));
        if s.contains(x) && !s.drop_last().contains(x) {
            let i = choose|i: int| 0 <= i < s.len() && s[i] == x;
            if i < s.len() - 1 {
                assert(s.drop_last()[i] == x);
            }
        }
        let tail = if accepts(s.last(), q) { seq![s.last()] } else { seq![] };
        let a = accepted(s.drop_last(), q);
        if (a + tail).contains(x) {
            let i = choose|i: int| 0 <= i < (a + tail).len() && (a + tail)[i] == x;
            if i < a.len() {
                assert(a[i] == x);
            }
        }
        if a.contains(x) {
            let i = choose|i: int| 0 <= i < a.len() && a[i] == x;
            assert((a + tail)[i] == x);
        }
        if s.drop_last().contains(x) {
            let i = choose|i: int| 0 <= i < s.drop_last().len() && s.drop_last()[i] == x;
            assert(s[i] == x);
        }
        if accepts(x, q) && x == s.last() {
            assert((a + tail)[a.len() as int] == x);
        }
        assert(s[s.len() - 1] == s.last());
    }
}

/// Membership in the channels of one rank.
pub proof fn lemma_with_rank_contains(s: Seq<Channel>, q: Seq<char>, d: nat, x: Channel)
    ensures
        with_rank(s, q, d).contains(x) <==> (s.contains(x) && rank_key(x, q) == d),
    decreases s.len(),
{
    if s.len() > 0 {
        lemma_with_rank_contains(s.drop_last(), q, d, x);
        let tail = if rank_key(s.last(), q) == d { seq![s.last()] } else { seq![] };
        let a = with_rank(s.drop_last(), q, d);
        if (a + tail).contains(x) {
            let i = choose|i: int| 0 <= i < (a + tail).len() && (a + tail)[i] == x;
            if i < a.len() {
                assert(a[i] == x);
            }
        }
        if a.contains(x) {
            let i = choose|i: int| 0 <= i < a.len() && a[i] == x;
            assert((a + tail)[i] == x);
        }
        if s.contains(x) {
            let i = choose|i: int| 0 <= i < s.len() && s[i] == x;
            if i < s.len() - 1 {
                assert(s.drop_last()[i] == x);
            }
        }
        if s.drop_last().contains(x) {
            let i = choose|i: int| 0 <= i < s.drop_last().len() && s.drop_last()[i] == x;
            assert(s[i] == x);
        }
        if rank_key(x, q) == d && x == s.last() {
            assert((a + tail)[a.len() as int] == x);
        }
        assert(s[s.len() - 1] == s.last());
    }
}

/// Membership in the channels ranked below `n`.
pub proof fn lemma_ranked_below_contains(s: Seq<Channel>, q: Seq<char>, n: nat, x: Channel)
    ensures
        ranked_below(s, q, n).contains(x) <==> (s.contains(x) && rank_key(x, q) < n),
    decreases n,
{
    if n > 0 {
        let m = (n - 1) as nat;
        lemma_ranked_below_contains(s, q, m, x);
        lemma_with_rank_contains(s, q, m, x);
        let a = ranked_below(s, q, m);
        let b = with_rank(s, q, m);
        if (a + b).contains(x) {
            let i = choose|i: int| 0 <= i < (a + b).len() && (a + b)[i] == x;
            if i < a.len() {
                assert(a[i] == x);
            } else {
                assert(b[i - a.len()] == x);
            }
        }
        if a.contains(x) {
            let i = choose|i: int| 0 <= i < a.len() && a[i] == x;
            assert((a + b)[i] == x);
        }
        if b.contains(x) {
            let i = choose|i: int| 0 <= i < b.len() && b[i] == x;
            assert((a + b)[a.len() + i] == x);
        }
    }
}

/// A channel is in a fuzzy search result exactly when it is in the searched
/// list and, for a non-empty normalized query, the matcher keeps it.
pub proof fn lemma_fuzzy_result_contains(s: Seq<Channel>, query: Seq<char>, x: Channel)
    ensures
        fuzzy_result(s, query).contains(x) <==> (s.contains(x) && (normalized_query(query).len()
            == 0 || accepts(x, normalized_query(query)))),
{
    let q = normalized_query(query);
    if q.len() > 0 {
        lemma_ranked_below_contains(accepted(s, q), q, q.len() + 1, x);
        lemma_accepted_contains(s, q, x);
        lemma_rank_bound(x, q);
    }
}

/// Searching a narrower list never adds a channel: when every channel of
/// `space` is in `full`, every channel that a search of `space` returns is
/// also returned by the same search of `full`.
pub proof fn narrowing_adds_no_channel(space: Seq<Channel>, full: Seq<Channel>, query: Seq<char>)
    requires
        forall|x: Channel| space.contains(x) ==> full.contains(x),
    ensures
        forall|x: Channel|
            fuzzy_result(space, query).contains(x) ==> fuzzy_result(full, query).contains(x),
{
    assert forall|x: Channel| fuzzy_result(space, query).contains(x) implies fuzzy_result(
        full,
        query,
    ).contains(x) by {
        lemma_fuzzy_result_contains(space, query, x);
        lemma_fuzzy_result_contains(full, query, x);
    }
}

} // verus!

verus! {

/// Ranks `channels` against `query`, as `fuzzy_result` describes: an empty
/// normalized query gives every channel unfiltered; otherwise the channels
/// that the fuzzy matcher scores at least `MIN_SCORE`, closest first, with
/// ties in input order.
pub fn fuzzy_search(channels: &Vec<Channel>, query: &str) -> (r: Vec<Channel>)
    ensures
        r@ == fuzzy_result(channels@, query@),
{
    let trimmed = trim(query);
    let q = lowercase(trimmed.as_str());
    let qc = chars_of(q.as_str());
    if qc.len() == 0 {
        return copy_channels(channels);
    }
    let mut lowered: Vec<String> = Vec::new();
    let mut n: usize = 0;
    while n < channels.len()
        invariant
            n <= channels.len(),
            lowered.len() == n,
            forall|j: int| 0 <= j < n ==> #[trigger] lowered@[j]@ == lower_of(channels@[j].name@),
        decreases channels.len() - n,
    {
        lowered.push(lowercase(channels[n].name.as_str()));
        n += 1;
    }
    let scores = skim_scores(&lowered, q.as_str());
    let mut ranks: Vec<usize> = Vec::new();
    let mut i: usize = 0;
    while i < channels.len()
        invariant
            i <= channels.len(),
            qc@ == q@,
            lowered.len() == channels.len(),
            forall|j: int| 0 <= j < lowered.len() ==> #[trigger] lowered@[j]@ == lower_of(channels@[j].name@),
            ranks.len() == i,
            forall|j: int| 0 <= j < i ==> #[trigger] ranks@[j] == rank_key(channels@[j], q@),
        decreases channels.len() - i,
    {
        let nc = chars_of(lowered[i].as_str());
        let field = if nc.len() <= qc.len() {
            text_between(&nc, 0, nc.len())
        } else {
            text_between(&nc, 0, qc.len())
        };
        proof {
            assert(nc@.subrange(0, nc@.len() as int) =~= nc@);
            assert(field@ == ranked_field(channels@[i as int], q@));
        }
        ranks.push(edit_distance(field.as_str(), q.as_str()));
        i += 1;
    }
    let positions = rank_positions(&scores, &ranks, MIN_SCORE, qc.len());
    let mut out: Vec<Channel> = Vec::new();
    let mut j: usize = 0;
    while j < positions.len()
        invariant
            j <= positions.len(),
            forall|k: int| 0 <= k < positions.len() ==> #[trigger] positions@[k] < channels.len(),
            out@ == at_positions(channels@, positions@.take(j as int)),
        decreases positions.len() - j,
    {
        out.push(channels[positions[j]].duplicate());
        proof {
            assert(positions@.take(j + 1) =~= positions@.take(j as int).push(positions@[j as int]));
            assert(out@ =~= at_positions(channels@, positions@.take(j + 1)));
        }
        j += 1;
    }
    proof {
        assert(positions@.take(j as int) =~= positions@);
        let len = channels@.len() as int;
        lemma_accepted_positions(channels@, q@, scores@, len);
        assert(channels@.take(len) =~= channels@);
        let kept = kept_positions(scores@, MIN_SCORE, len);
        lemma_kept_positions_bound(scores@, MIN_SCORE, len);
        lemma_ranked_positions(channels@, q@, ranks@, kept, (qc.len() + 1) as nat);
    }
    out
}

} // verus!

verus! {

/// The channels of `s` at the positions `ps`, in that order.
pub open spec fn at_positions(s: Seq<Channel>, ps: Seq<usize>) -> Seq<Channel> {
    ps.map_values(|p: usize| s[p as int])
}

/// Kept positions lie below the bound they were taken under.
pub proof fn lemma_kept_positions_bound(scores: Seq<Option<i64>>, floor: i64, n: int)
    ensures
        forall|j: int|
            0 <= j < kept_positions(scores, floor, n).len() ==> #[trigger] kept_positions(
                scores,
                floor,
                n,
            )[j] < n,
    decreases n,
{
    if n > 0 {
        lemma_kept_positions_bound(scores, floor, n - 1);
        let a = kept_positions(scores, floor, n - 1);
        let k = kept_positions(scores, floor, n);
        assert forall|j: int| 0 <= j < k.len() implies #[trigger] k[j] < n by {
            if j < a.len() {
                assert(k[j] == a[j]);
            }
        }
    }
}

/// The kept channels are the channels at the kept positions of their scores.
pub proof fn lemma_accepted_positions(s: Seq<Channel>, q: Seq<char>, scores: Seq<Option<i64>>, n: int)
    requires
        0 <= n <= s.len() <= usize::MAX,
        scores.len() == s.len(),
        forall|i: int| 0 <= i < s.len() ==> #[trigger] scores[i] == skim_score_of(lower_of(s[i].name@), q),
    ensures
        accepted(s.take(n), q) == at_positions(s, kept_positions(scores, MIN_SCORE, n)),
    decreases n,
{
    if n > 0 {
        lemma_accepted_positions(s, q, scores, n - 1);
        assert(s.take(n).drop_last() =~= s.take(n - 1));
        assert(s.take(n).last() == s[n - 1]);
        let a = kept_positions(scores, MIN_SCORE, n - 1);
        let tail = if scores[n - 1] matches Some(x) && x >= MIN_SCORE {
            seq![(n - 1) as usize]
        } else {
            seq![]
        };
        assert(((n - 1) as usize) as int == n - 1);
        assert(at_positions(s, a + tail) =~= at_positions(s, a) + at_positions(s, tail));
        if scores[n - 1] matches Some(x) && x >= MIN_SCORE {
            assert(at_positions(s, tail) =~= seq![s[n - 1]]);
        } else {
            assert(at_positions(s, tail) =~= Seq::<Channel>::empty());
        }
    } else {
        assert(s.take(0) =~= Seq::<Channel>::empty());
        assert(at_positions(s, seq![]) =~= Seq::<Channel>::empty());
    }
}

/// Taking the channels of one rank commutes with reading them at positions.
pub proof fn lemma_rank_positions(s: Seq<Channel>, q: Seq<char>, ranks: Seq<usize>, ps: Seq<usize>, d: nat)
    requires
        ranks.len() == s.len(),
        forall|i: int| 0 <= i < s.len() ==> #[trigger] ranks[i] == rank_key(s[i], q),
        forall|j: int| 0 <= j < ps.len() ==> #[trigger] ps[j] < s.len(),
    ensures
        with_rank(at_positions(s, ps), q, d) == at_positions(s, positions_at_rank(ps, ranks, d)),
    decreases ps.len(),
{
    if ps.len() == 0 {
        assert(at_positions(s, ps) =~= Seq::<Channel>::empty());
        assert(at_positions(s, seq![]) =~= Seq::<Channel>::empty());
    } else {
        let init = ps.drop_last();
        assert forall|j: int| 0 <= j < init.len() implies #[trigger] init[j] < s.len() by {
            assert(init[j] == ps[j]);
        }
        lemma_rank_positions(s, q, ranks, init, d);
        assert(at_positions(s, ps).drop_last() =~= at_positions(s, init));
        assert(ps.last() == ps[ps.len() - 1]);
        assert(at_positions(s, ps).last() == s[ps.last() as int]);
        let tail = if ranks[ps.last() as int] == d { seq![ps.last()] } else { seq![] };
        assert(at_positions(s, positions_at_rank(init, ranks, d) + tail) =~= at_positions(
            s,
            positions_at_rank(init, ranks, d),
        ) + at_positions(s, tail));
    }
}

/// Ordering by rank commutes with reading the channels at positions.
pub proof fn lemma_ranked_positions(s: Seq<Channel>, q: Seq<char>, ranks: Seq<usize>, ps: Seq<usize>, n: nat)
    requires
        ranks.len() == s.len(),
        forall|i: int| 0 <= i < s.len() ==> #[trigger] ranks[i] == rank_key(s[i], q),
        forall|j: int| 0 <= j < ps.len() ==> #[trigger] ps[j] < s.len(),
    ensures
        ranked_below(at_positions(s, ps), q, n) == at_positions(s, positions_below(ps, ranks, n)),
    decreases n,
{
    if n == 0 {
        assert(at_positions(s, seq![]) =~= Seq::<Channel>::empty());
    } else {
        let m = (n - 1) as nat;
        lemma_ranked_positions(s, q, ranks, ps, m);
        lemma_rank_positions(s, q, ranks, ps, m);
        assert(at_positions(s, positions_below(ps, ranks, m) + positions_at_rank(ps, ranks, m))
            =~= at_positions(s, positions_below(ps, ranks, m)) + at_positions(
            s,
            positions_at_rank(ps, ranks, m),
        ));
    }
}

} // verus!
