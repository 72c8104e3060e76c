//! Ranking: contenders are scored by size and value against the days left to
//! expiration, and put in order of their scores.
use crate::amount::{floor_div, SCALE};
use crate::contender::{contender_views, Contender, ContenderView};
use crate::dates::{
    calc_time_difference, date_day_number, day_difference, day_number_of, time_difference,
};
use vstd::prelude::*;

verus! {

/// The days by which a score is divided: the days left, but never less than
/// one.
pub open spec fn days_floor(days: int) -> int {
    if days < 1 {
        1
    } else {
        days
    }
}

/// The score of a contender, in units: the mean size at the ask times the
/// value of the spread, per day left to expiration, rounded down to a unit.
pub open spec fn rank_value(avg_ask_size: int, arb_value: int, days: int) -> int {
    (avg_ask_size * arb_value) / (SCALE * days_floor(days))
}

/// Computes `rank_value` for a number of days left to expiration.
pub fn rank_score(avg_ask_size: i64, arb_value: i64, days: i64) -> (score: i128)
    ensures
        score == rank_value(avg_ask_size as int, arb_value as int, days as int),
{
    let floor: i64 = if days < 1 {
        1
    } else {
        days
    };
    assert(-0x4000_0000_0000_0000_0000_0000_0000_0000 <= avg_ask_size * arb_value
        <= 0x4000_0000_0000_0000_0000_0000_0000_0000) by (nonlinear_arith)
        requires
            -0x8000_0000_0000_0000 <= avg_ask_size <= 0x8000_0000_0000_0000,
            -0x8000_0000_0000_0000 <= arb_value <= 0x8000_0000_0000_0000,
    ;
    assert(0 < SCALE * floor <= 10_000 * 0x8000_0000_0000_0000) by (nonlinear_arith)
        requires
            1 <= floor <= 0x8000_0000_0000_0000,
            SCALE == 10_000,
    ;
    let weight: i128 = avg_ask_size as i128 * arb_value as i128;
    let divisor: i128 = SCALE as i128 * floor as i128;
    floor_div(weight, divisor)
}

/// The score of a contender that expires on `date`, seen from
/// `current_date`; both are date codes of days that exist.
pub fn calc_rank_value(avg_ask: i64, arb_val: i64, current_date: &str, date: &str) -> (score: i128)
    requires
        day_number_of(current_date@) is Some,
        day_number_of(date@) is Some,
    ensures
        score == rank_value(
            avg_ask as int,
            arb_val as int,
            time_difference(current_date@, date@),
        ),
{
    rank_score(avg_ask, arb_val, calc_time_difference(current_date, date))
}

/// The score of a contender that expires on `date`, seen from
/// `current_date`; nothing unless both are date codes of days that exist.
pub fn checked_rank_value(avg_ask: i64, arb_val: i64, current_date: &str, date: &str) -> (r: Option<
    i128,
>)
    ensures
        r is Some <==> day_number_of(current_date@) is Some && day_number_of(date@) is Some,
        r is Some ==> r->0 == rank_value(
            avg_ask as int,
            arb_val as int,
            time_difference(current_date@, date@),
        ),
{
    if date_day_number(current_date).is_some() && date_day_number(date).is_some() {
        Some(calc_rank_value(avg_ask, arb_val, current_date, date))
    } else {
        None
    }
}

/// The contender with its score as seen from `reference`.
pub open spec fn scored(c: ContenderView, reference: Seq<char>) -> ContenderView {
    ContenderView {
        rank_score: rank_value(
            c.avg_ask_size,
            c.arb_value,
            time_difference(reference, c.primary_expiration),
        ),
        ..c
    }
}

/// Each of the contenders with its score as seen from `reference`.
pub open spec fn all_scored(cs: Seq<ContenderView>, reference: Seq<char>) -> Seq<ContenderView> {
    Seq::new(cs.len(), |i: int| scored(cs[i], reference))
}

/// `ranked` with `c` put behind every contender whose score is at least its
/// own, and before the others.
pub open spec fn place(ranked: Seq<ContenderView>, c: ContenderView) -> Seq<ContenderView>
    decreases ranked.len(),
{
    if ranked.len() == 0 {
        seq![c]
    } else if ranked.last().rank_score >= c.rank_score {
        ranked.push(c)
    } else {
        place(ranked.drop_last(), c).push(ranked.last())
    }
}

/// The contenders from the highest score to the lowest; contenders of equal
/// score stay in the order in which they came.
pub open spec fn rank_order(cs: Seq<ContenderView>) -> Seq<ContenderView>
    decreases cs.len(),
{
    if cs.len() == 0 {
        Seq::empty()
    } else {
        place(rank_order(cs.drop_last()), cs.last())
    }
}

/// The reference date and every expiration are date codes of days that
/// exist.
pub open spec fn rankable(cs: Seq<ContenderView>, reference: Seq<char>) -> bool {
    &&& day_number_of(reference) is Some
    &&& forall|i: int| 0 <= i < cs.len() ==> day_number_of(#[trigger] cs[i].primary_expiration) is Some
}

/// How many of `n` ranked contenders a requested depth keeps.
pub open spec fn kept(depth: int, n: int) -> int {
    if depth < 0 {
        0
    } else if depth > n {
        n
    } else {
        depth
    }
}

/// The ranking: the contenders scored as seen from `reference`, in rank
/// order, cut to the requested depth.
pub open spec fn ranking(cs: Seq<ContenderView>, reference: Seq<char>, depth: int) -> Seq<
    ContenderView,
> {
    rank_order(all_scored(cs, reference)).take(kept(depth, cs.len() as int))
}

/// Each contender's score is at least that of every later one.
pub open spec fn is_ranked(cs: Seq<ContenderView>) -> bool {
    forall|i: int, j: int| 0 <= i < j < cs.len() ==> cs[i].rank_score >= cs[j].rank_score
}

/// Placing a contender adds one contender to the sequence.
pub proof fn lemma_place_len(ranked: Seq<ContenderView>, c: ContenderView)
    ensures
        place(ranked, c).len() == ranked.len() + 1,
    decreases ranked.len(),
{
    if ranked.len() > 0 && ranked.last().rank_score < c.rank_score {
        lemma_place_len(ranked.drop_last(), c);
    }
}

/// Rank order keeps the number of contenders.
pub proof fn lemma_rank_order_len(cs: Seq<ContenderView>)
    ensures
        rank_order(cs).len() == cs.len(),
    decreases cs.len(),
{
    if cs.len() > 0 {
        lemma_rank_order_len(cs.drop_last());
        lemma_place_len(rank_order(cs.drop_last()), cs.last());
    }
}

/// Placing a contender in a ranked sequence leaves it ranked, and holds the
/// contenders it held and the new one, each as often as before.
pub proof fn lemma_place(ranked: Seq<ContenderView>, c: ContenderView)
    requires
        is_ranked(ranked),
    ensures
        is_ranked(place(ranked, c)),
        place(ranked, c).to_multiset() == ranked.to_multiset().insert(c),
    decreases ranked.len(),
{
    broadcast use vstd::seq_lib::to_multiset_build;

    let out = place(ranked, c);
    if ranked.len() == 0 {
        assert(out =~= Seq::<ContenderView>::empty().push(c));
        assert(ranked =~= Seq::<ContenderView>::empty());
    } else if ranked.last().rank_score >= c.rank_score {
        assert forall|i: int, j: int| 0 <= i < j < out.len() implies out[i].rank_score
            >= out[j].rank_score by {
            if j == ranked.len() && i < ranked.len() - 1 {
                assert(ranked[i].rank_score >= ranked[ranked.len() - 1].rank_score);
            }
        }
    } else {
        let shorter = ranked.drop_last();
        let inner = place(shorter, c);
        assert(is_ranked(shorter)) by {
            assert forall|i: int, j: int| 0 <= i < j < shorter.len() implies shorter[i].rank_score
                >= shorter[j].rank_score by {
                assert(ranked[i].rank_score >= ranked[j].rank_score);
            }
        }
        lemma_place(shorter, c);
        lemma_place_len(shorter, c);
        assert(shorter.push(ranked.last()) =~= ranked);
        assert(out.to_multiset() =~= ranked.to_multiset().insert(c));
        lemma_place_floor(shorter, c, ranked.last().rank_score);
        assert forall|i: int, j: int| 0 <= i < j < out.len() implies out[i].rank_score
            >= out[j].rank_score by {
            if j == inner.len() {
                assert(out[i] == inner[i]);
            } else {
                assert(inner[i].rank_score >= inner[j].rank_score);
            }
        }
    }
}

/// Where every contender of a sequence and the new one score at least
/// `floor`, so does every contender after placing.
proof fn lemma_place_floor(ranked: Seq<ContenderView>, c: ContenderView, floor: int)
    requires
        c.rank_score >= floor,
        forall|i: int| 0 <= i < ranked.len() ==> ranked[i].rank_score >= floor,
    ensures
        forall|i: int| 0 <= i < place(ranked, c).len() ==> place(ranked, c)[i].rank_score >= floor,
    decreases ranked.len(),
{
    if ranked.len() > 0 && ranked.last().rank_score < c.rank_score {
        let shorter = ranked.drop_last();
        assert forall|i: int| 0 <= i < shorter.len() implies shorter[i].rank_score >= floor by {
            assert(ranked[i].rank_score >= floor);
        }
        lemma_place_floor(shorter, c, floor);
        lemma_place_len(shorter, c);
        assert(ranked[ranked.len() - 1].rank_score >= floor);
    }
}

/// Rank order runs from the highest score to the lowest, and holds the
/// contenders it was given, each as often as it was given.
pub proof fn lemma_rank_order(cs: Seq<ContenderView>)
    ensures
        is_ranked(rank_order(cs)),
        rank_order(cs).to_multiset() == cs.to_multiset(),
    decreases cs.len(),
{
    broadcast use vstd::seq_lib::to_multiset_build;

    if cs.len() > 0 {
        lemma_rank_order(cs.drop_last());
        lemma_place(rank_order(cs.drop_last()), cs.last());
        assert(cs.drop_last().push(cs.last()) =~= cs);
    } else {
        assert(cs =~= Seq::<ContenderView>::empty());
    }
}

/// Placing a contender leaves the contenders of every other score as they
/// were, and puts it last among those of its own score.
pub proof fn lemma_place_keeps_ties(ranked: Seq<ContenderView>, c: ContenderView, score: int)
    ensures
        place(ranked, c).filter(|x: ContenderView| x.rank_score == score) == if c.rank_score
            == score {
            ranked.filter(|x: ContenderView| x.rank_score == score).push(c)
        } else {
            ranked.filter(|x: ContenderView| x.rank_score == score)
        },
    decreases ranked.len(),
{
    reveal(Seq::filter);
    let same = |x: ContenderView| x.rank_score == score;
    if ranked.len() == 0 {
        assert(seq![c].drop_last() =~= ranked);
        assert(ranked.filter(same) =~= Seq::<ContenderView>::empty());
        assert(seq![c].filter(same) =~= if same(c) {
            Seq::<ContenderView>::empty().push(c)
        } else {
            Seq::<ContenderView>::empty()
        });
    } else if ranked.last().rank_score >= c.rank_score {
        assert(ranked.push(c).drop_last() =~= ranked);
    } else {
        let shorter = ranked.drop_last();
        lemma_place_keeps_ties(shorter, c, score);
        assert(place(shorter, c).push(ranked.last()).drop_last() =~= place(shorter, c));
    }
}

/// Rank order is stable: the contenders of any one score stand in rank order
/// as they stood before.
pub proof fn lemma_rank_order_stable(cs: Seq<ContenderView>, score: int)
    ensures
        rank_order(cs).filter(|x: ContenderView| x.rank_score == score) == cs.filter(
            |x: ContenderView| x.rank_score == score,
        ),
    decreases cs.len(),
{
    reveal(Seq::filter);
    if cs.len() > 0 {
        lemma_rank_order_stable(cs.drop_last(), score);
        lemma_place_keeps_ties(rank_order(cs.drop_last()), cs.last(), score);
    }
}

/// Where `c` goes among the ranked: before the contenders at `at` and after,
/// which score less, and behind the one before `at`, which does not.
proof fn lemma_place_position(ranked: Seq<ContenderView>, c: ContenderView, at: int)
    requires
        0 <= at <= ranked.len(),
        forall|k: int| at <= k < ranked.len() ==> ranked[k].rank_score < c.rank_score,
        at > 0 ==> ranked[at - 1].rank_score >= c.rank_score,
    ensures
        place(ranked, c) == ranked.insert(at, c),
    decreases ranked.len(),
{
    if ranked.len() == 0 {
        assert(seq![c] =~= ranked.insert(0, c));
    } else if at == ranked.len() {
        assert(ranked.push(c) =~= ranked.insert(at, c));
    } else {
        assert(ranked[ranked.len() - 1].rank_score < c.rank_score);
        let shorter = ranked.drop_last();
        lemma_place_position(shorter, c, at);
        assert(shorter.insert(at, c).push(ranked.last()) =~= ranked.insert(at, c));
    }
}

/// Puts a scored contender in its place among the ranked.
fn place_ranked(ranked: &mut Vec<Contender>, c: Contender)
    ensures
        contender_views(final(ranked)@) == place(contender_views(old(ranked)@), c@),
{
    let score: i128 = c.rank_score();
    let mut at: usize = ranked.len();
    while at > 0 && ranked[at - 1].rank_score() < score
        invariant
            at <= ranked.len(),
            ranked@ == old(ranked)@,
            score == c@.rank_score,
            forall|k: int|
                at <= k < ranked.len() ==> contender_views(ranked@)[k].rank_score < c@.rank_score,
        decreases at,
    {
        at -= 1;
    }
    proof {
        lemma_place_position(contender_views(ranked@), c@, at as int);
    }
    ranked.insert(at, c);
    assert(contender_views(ranked@) =~= contender_views(old(ranked)@).insert(at as int, c@));
}

/// Scores the contenders as seen from `reference_date`, ranks them from the
/// highest score down, equal scores in the order in which they came, and
/// keeps the first `depth` of them. Nothing is ranked unless the reference
/// date and every expiration are date codes of days that exist.
pub fn rank_contenders(contenders: Vec<Contender>, reference_date: &str, depth: i32) -> (r: Option<
    Vec<Contender>,
>)
    ensures
        r is Some <==> rankable(contender_views(contenders@), reference_date@),
        r is Some ==> contender_views(r->0@) == ranking(
            contender_views(contenders@),
            reference_date@,
            depth as int,
        ),
{
    let ghost all = contender_views(contenders@);
    let ghost goal = all_scored(all, reference_date@);
    let reference_day: i32 = match date_day_number(reference_date) {
        Some(day) => day,
        None => {
            return None;
        },
    };
    let mut pending = contenders;
    let mut ranked: Vec<Contender> = Vec::new();
    let mut done: usize = 0;
    let total: usize = pending.len();
    proof {
        assert(contender_views(pending@) =~= all.subrange(0, all.len() as int));
        assert(goal.take(0) =~= Seq::empty());
        assert(contender_views(ranked@) =~= Seq::empty());
    }
    while done < total
        invariant
            total == all.len(),
            done <= total,
            pending.len() == total - done,
            all == contender_views(contenders@),
            goal == all_scored(all, reference_date@),
            day_number_of(reference_date@) == Some(reference_day),
            contender_views(pending@) == all.subrange(done as int, all.len() as int),
            forall|i: int| 0 <= i < done ==> day_number_of(#[trigger] all[i].primary_expiration) is Some,
            contender_views(ranked@) == rank_order(goal.take(done as int)),
        decreases total - done,
    {
        let ghost waiting = pending@;
        let contender = pending.remove(0);
        proof {
            assert(contender_views(waiting)[0] == all[done as int]);
            assert(contender@ == all[done as int]);
            assert forall|k: int| 0 <= k < pending@.len() implies contender_views(pending@)[k]
                == all.subrange(done + 1, all.len() as int)[k] by {
                assert(pending@[k] == waiting[k + 1]);
                assert(contender_views(waiting)[k + 1] == all[done + k + 1]);
            }
            assert(contender_views(pending@) =~= all.subrange(done + 1, all.len() as int));
        }
        let target_day: i32 = match date_day_number(contender.primary_expiration().as_str()) {
            Some(day) => day,
            None => {
                return None;
            },
        };
        let days: i64 = day_difference(reference_day, target_day);
        let score: i128 = rank_score(contender.avg_ask_size(), contender.arb_value(), days);
        let contender = contender.with_rank_score(score);
        proof {
            assert(contender@ == goal[done as int]);
            assert(goal.take(done + 1).drop_last() =~= goal.take(done as int));
            assert(goal.take(done + 1).last() == goal[done as int]);
        }
        place_ranked(&mut ranked, contender);
        done += 1;
    }
    proof {
        assert(goal.take(done as int) =~= goal);
        lemma_rank_order_len(goal);
    }
    if depth <= 0 {
        ranked.truncate(0);
    } else {
        ranked.truncate(depth as usize);
    }
    proof {
        let full = rank_order(goal);
        let n = kept(depth as int, all.len() as int);
        assert(contender_views(ranked@) =~= full.take(n));
    }
    Some(ranked)
}

} // verus!
