//! The tally engine: Borda count over ranked ballots.
//!
//! A ballot of length `m` gives the candidate at position `i` (position 0 is
//! the most preferred) a score of `m - 1 - i`; a candidate absent from the
//! ballot gets nothing from it. The winner is the candidate with the greatest
//! total over all ballots. A score tie is broken deterministically in favour
//! of the lexicographically smallest identifier. When there are no ballots,
//! or no ballot awards a single point, there is no winner.

use vstd::prelude::*;

use crate::order::lex_leq;
use crate::order::lex_leq_refl;
use crate::order::lex_leq_total;
use crate::order::lex_leq_trans;
use crate::order::str_lex_leq;

verus! {

/// Score that one ballot awards to candidate `c`: `m - 1 - i` when `c` first
/// occurs at position `i` of a ballot of length `m`, and 0 when `c` is absent.
pub open spec fn ballot_score(ballot: Seq<Seq<char>>, c: Seq<char>) -> nat
    decreases ballot.len(),
{
    if ballot.len() == 0 {
        0
    } else if ballot[0] == c {
        (ballot.len() - 1) as nat
    } else {
        ballot_score(ballot.drop_first(), c)
    }
}

/// Total score of candidate `c`: the sum of its scores over all ballots.
pub open spec fn total_score(ballots: Seq<Seq<Seq<char>>>, c: Seq<char>) -> nat
    decreases ballots.len(),
{
    if ballots.len() == 0 {
        0
    } else {
        total_score(ballots.drop_last(), c) + ballot_score(ballots.last(), c)
    }
}

/// What it means for `w` to be the tally's result over candidate set `cands`:
/// no winner exactly when no candidate scored a point, and otherwise the
/// candidate with the greatest total score, the lexicographically smallest
/// one when several share that score.
pub open spec fn is_borda_winner(
    cands: Seq<Seq<char>>,
    ballots: Seq<Seq<Seq<char>>>,
    w: Option<Seq<char>>,
) -> bool {
    match w {
        None => forall|c: Seq<char>| cands.contains(c) ==> total_score(ballots, c) == 0,
        Some(x) => {
            &&& cands.contains(x)
            &&& total_score(ballots, x) > 0
            &&& forall|c: Seq<char>|
                cands.contains(c) ==> total_score(ballots, c) <= total_score(ballots, x)
            &&& forall|c: Seq<char>|
                cands.contains(c) && total_score(ballots, c) == total_score(ballots, x)
                    ==> lex_leq(x, c)
        },
    }
}

/// When there are no ballots at all, the tally has no winner.
pub proof fn lemma_no_ballots_no_winner(
    cands: Seq<Seq<char>>,
    w: Option<Seq<char>>,
)
    requires
        is_borda_winner(cands, Seq::<Seq<Seq<char>>>::empty(), w),
    ensures
        w is None,
{
}

/// The tally's result is unique: the scoring rule together with the
/// lexicographic tie-break leaves no choice of winner.
pub proof fn lemma_winner_unique(
    cands: Seq<Seq<char>>,
    ballots: Seq<Seq<Seq<char>>>,
    w1: Option<Seq<char>>,
    w2: Option<Seq<char>>,
)
    requires
        is_borda_winner(cands, ballots, w1),
        is_borda_winner(cands, ballots, w2),
    ensures
        w1 == w2,
{
    match (w1, w2) {
        (None, None) => {},
        (None, Some(x)) => {
            assert(total_score(ballots, x) == 0);
        },
        (Some(x), None) => {
            assert(total_score(ballots, x) == 0);
        },
        (Some(x1), Some(x2)) => {
            assert(total_score(ballots, x1) == total_score(ballots, x2));
            crate::order::lex_leq_antisym(x1, x2);
        },
    }
}

/// Score of `c` in one ballot.
fn ballot_points(ballot: &Vec<String>, c: &String) -> (r: usize)
    ensures
        r as nat == ballot_score(ballot.deep_view(), c@),
{
    let m = ballot.len();
    let ghost bv = ballot.deep_view();
    let mut j: usize = 0;
    proof {
        assert(bv.skip(0) =~= bv);
    }
    while j < m
        invariant
            j <= m,
            m == bv.len(),
            bv == ballot.deep_view(),
            ballot_score(bv, c@) == ballot_score(bv.skip(j as int), c@),
        decreases m - j,
    {
        if ballot[j] == *c {
            assert(bv.skip(j as int)[0] == c@);
            return m - 1 - j;
        }
        proof {
            assert(bv.skip(j as int).drop_first() =~= bv.skip(j as int + 1));
        }
        j = j + 1;
    }
    0
}

/// Total score of `c` over all ballots.
fn candidate_total(ballots: &Vec<Vec<String>>, c: &String) -> (r: u128)
    ensures
        r as nat == total_score(ballots.deep_view(), c@),
        r <= ballots.len() * 0xffff_ffff_ffff_ffff,
{
    let n = ballots.len();
    let ghost bs = ballots.deep_view();
    let mut sum: u128 = 0;
    let mut k: usize = 0;
    proof {
        assert(bs.take(0) =~= Seq::<Seq<Seq<char>>>::empty());
    }
    while k < n
        invariant
            k <= n,
            n == bs.len(),
            bs == ballots.deep_view(),
            sum as nat == total_score(bs.take(k as int), c@),
            sum <= k * 0xffff_ffff_ffff_ffff,
        decreases n - k,
    {
        let p = ballot_points(&ballots[k], c);
        proof {
            assert(usize::MAX <= 0xffff_ffff_ffff_ffff);
            assert(sum + p <= (k + 1) * 0xffff_ffff_ffff_ffff_u128) by (nonlinear_arith)
                requires
                    sum <= k * 0xffff_ffff_ffff_ffff_u128,
                    p <= 0xffff_ffff_ffff_ffff_u128,
            ;
            assert((k + 1) * 0xffff_ffff_ffff_ffff_u128 <= 0xffff_ffff_ffff_ffff_u128
                * 0xffff_ffff_ffff_ffff_u128) by (nonlinear_arith)
                requires
                    k + 1 <= 0xffff_ffff_ffff_ffff_u128,
            ;
            assert(bs.take(k as int + 1).drop_last() =~= bs.take(k as int));
            assert(bs.take(k as int + 1).last() == bs[k as int]);
        }
        sum = sum + (p as u128);
        k = k + 1;
    }
    proof {
        assert(bs.take(n as int) =~= bs);
    }
    sum
}

/// Computes the tally's winner over the given candidates and ballots.
///
/// Scores every candidate, takes the maximum, and breaks score ties in
/// favour of the lexicographically smallest identifier; yields no winner
/// when no candidate earned a point.
pub fn compute_winner(candidates: &Vec<String>, ballots: &Vec<Vec<String>>) -> (r: Option<
    String,
>)
    ensures
        is_borda_winner(candidates.deep_view(), ballots.deep_view(), r.deep_view()),
{
    let ghost cv = candidates.deep_view();
    let ghost bs = ballots.deep_view();
    if candidates.len() == 0 {
        proof {
            assert forall|c: Seq<char>| cv.contains(c) implies total_score(bs, c) == 0 by {
                assert(false);
            }
        }
        return None;
    }
    let n = candidates.len();
    let mut best_i: usize = 0;
    let mut best_s: u128 = candidate_total(ballots, &candidates[0]);
    let mut i: usize = 1;
    proof {
        lex_leq_refl(cv[0]);
    }
    while i < n
        invariant
            1 <= i <= n,
            n == cv.len(),
            cv == candidates.deep_view(),
            bs == ballots.deep_view(),
            best_i < i,
            best_s as nat == total_score(bs, cv[best_i as int]),
            forall|j: int| 0 <= j < i ==> total_score(bs, cv[j]) <= best_s as nat,
            forall|j: int|
                0 <= j < i && total_score(bs, cv[j]) == best_s as nat
                    ==> lex_leq(cv[best_i as int], cv[j]),
        decreases n - i,
    {
        let s = candidate_total(ballots, &candidates[i]);
        if s > best_s {
            best_i = i;
            best_s = s;
            proof {
                lex_leq_refl(cv[i as int]);
            }
        } else if s == best_s {
            if str_lex_leq(candidates[i].as_str(), candidates[best_i].as_str()) {
                proof {
                    assert forall|j: int|
                        0 <= j < i + 1 && total_score(bs, cv[j]) == best_s as nat implies lex_leq(
                        cv[i as int],
                        cv[j],
                    ) by {
                        if j < i {
                            lex_leq_trans(cv[i as int], cv[best_i as int], cv[j]);
                        } else {
                            lex_leq_refl(cv[i as int]);
                        }
                    }
                }
                best_i = i;
            } else {
                proof {
                    lex_leq_total(cv[i as int], cv[best_i as int]);
                }
            }
        }
        i = i + 1;
    }
    if best_s == 0 {
        proof {
            assert forall|c: Seq<char>| cv.contains(c) implies total_score(bs, c) == 0 by {
                let j = choose|j: int| 0 <= j < cv.len() && cv[j] == c;
                assert(total_score(bs, cv[j]) <= best_s as nat);
            }
        }
        None
    } else {
        let w = candidates[best_i].clone();
        proof {
            assert(cv[best_i as int] == w@);
            assert(cv.contains(cv[best_i as int]));
            assert forall|c: Seq<char>| cv.contains(c) implies total_score(bs, c)
                <= total_score(bs, w@) by {
                let j = choose|j: int| 0 <= j < cv.len() && cv[j] == c;
                assert(total_score(bs, cv[j]) <= best_s as nat);
            }
            assert forall|c: Seq<char>|
                cv.contains(c) && total_score(bs, c) == total_score(bs, w@) implies lex_leq(
                w@,
                c,
            ) by {
                let j = choose|j: int| 0 <= j < cv.len() && cv[j] == c;
                assert(lex_leq(cv[best_i as int], cv[j]));
            }
        }
        Some(w)
    }
}

} // verus!
