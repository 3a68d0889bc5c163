//! Offset candidates in the order in which they are offered: the best score
//! first, and among equal scores the one that was found first.

use crate::score::Score;
use vstd::prelude::*;

verus! {

/// The most candidates that are offered.
pub const MAX_CANDIDATES: usize = 5;

/// Every candidate carries a proper score.
pub open spec fn all_scored(s: Seq<(i32, Score)>) -> bool {
    forall|i: int| 0 <= i < s.len() ==> (#[trigger] s[i]).1.wf()
}

/// No candidate scores above one that stands before it.
pub open spec fn descending(s: Seq<(i32, Score)>) -> bool {
    forall|i: int, j: int| 0 <= i < j < s.len() ==> !(#[trigger] s[j]).1.above((#[trigger] s[i]).1)
}

/// Tells the candidates whose score is level with `score`.
pub open spec fn scores_level_with(score: Score) -> spec_fn((i32, Score)) -> bool {
    |candidate: (i32, Score)| candidate.1.level(score)
}

/// `r` holds the candidates of `s` by descending score, and those of one score
/// in the order that they have in `s`.
pub open spec fn is_ranking(s: Seq<(i32, Score)>, r: Seq<(i32, Score)>) -> bool {
    &&& descending(r)
    &&& forall|score: Score|
        #![trigger scores_level_with(score)]
        score.wf() ==> r.filter(scores_level_with(score)) == s.filter(scores_level_with(score))
}

/// A ranked list with one more candidate, behind all that it is not above.
pub open spec fn rank_in(r: Seq<(i32, Score)>, c: (i32, Score)) -> Seq<(i32, Score)>
    decreases r.len(),
{
    if r.len() == 0 || !c.1.above(r.last().1) {
        r.push(c)
    } else {
        rank_in(r.drop_last(), c).push(r.last())
    }
}

/// The candidates by descending score, those of one score in the order given.
pub open spec fn ranked(s: Seq<(i32, Score)>) -> Seq<(i32, Score)>
    decreases s.len(),
{
    if s.len() == 0 {
        s
    } else {
        rank_in(ranked(s.drop_last()), s.last())
    }
}

/// The candidates that are offered.
pub open spec fn best(s: Seq<(i32, Score)>) -> Seq<(i32, Score)> {
    if s.len() <= MAX_CANDIDATES {
        ranked(s)
    } else {
        ranked(s).take(MAX_CANDIDATES as int)
    }
}

/// Of three scores, the first is not above the last if neither neighbour is
/// above the next.
pub proof fn lemma_above_is_transitive(x: Score, y: Score, z: Score)
    requires
        y.wf(),
        !x.above(y),
        !y.above(z),
    ensures
        !x.above(z),
{
    let (xm, xt) = (x.matches as int, x.total as int);
    let (ym, yt) = (y.matches as int, y.total as int);
    let (zm, zt) = (z.matches as int, z.total as int);
    assert(xm * zt <= zm * xt) by (nonlinear_arith)
        requires
            xm * yt <= ym * xt,
            ym * zt <= zm * yt,
            0 < yt,
            0 <= xt,
            0 <= zt,
    {
        assert((xm * yt) * zt <= (ym * xt) * zt);
        assert((ym * zt) * xt <= (zm * yt) * xt);
        assert((xm * zt) * yt == (xm * yt) * zt);
        assert((zm * xt) * yt == (zm * yt) * xt);
        assert((ym * xt) * zt == (ym * zt) * xt);
    }
}

/// Scores that are level with one another are not above one another.
proof fn lemma_level(x: Score, y: Score, z: Score)
    requires
        z.wf(),
        x.level(z),
        y.level(z),
    ensures
        x.level(y),
        !x.above(y),
{
    let (xm, xt) = (x.matches as int, x.total as int);
    let (ym, yt) = (y.matches as int, y.total as int);
    let (zm, zt) = (z.matches as int, z.total as int);
    assert(xm * yt == ym * xt) by (nonlinear_arith)
        requires
            xm * zt == zm * xt,
            ym * zt == zm * yt,
            0 < zt,
    {
        assert((xm * yt) * zt == (zm * xt) * yt);
        assert((ym * xt) * zt == (zm * yt) * xt);
        assert((zm * xt) * yt == (zm * yt) * xt);
    }
}

/// Ranking a candidate in keeps the length, the scores and the items.
proof fn lemma_rank_in_items(r: Seq<(i32, Score)>, c: (i32, Score))
    ensures
        rank_in(r, c).len() == r.len() + 1,
        rank_in(r, c).to_multiset() =~= r.to_multiset().insert(c),
        all_scored(r) && c.1.wf() ==> all_scored(rank_in(r, c)),
    decreases r.len(),
{
    broadcast use vstd::seq_lib::group_to_multiset_ensures;

    if r.len() > 0 && c.1.above(r.last().1) {
        lemma_rank_in_items(r.drop_last(), c);
        assert(r =~= r.drop_last().push(r.last()));
        assert(r.to_multiset() =~= r.drop_last().to_multiset().insert(r.last()));
        assert(rank_in(r, c).to_multiset() =~= rank_in(r.drop_last(), c).to_multiset().insert(
            r.last(),
        ));
        assert(all_scored(r) ==> all_scored(r.drop_last()));
    }
}

/// Every item of a list with one more candidate is that candidate or was in
/// the list.
proof fn lemma_rank_in_members(r: Seq<(i32, Score)>, c: (i32, Score), i: int)
    requires
        0 <= i < rank_in(r, c).len(),
    ensures
        rank_in(r, c)[i] == c || r.contains(rank_in(r, c)[i]),
    decreases r.len(),
{
    lemma_rank_in_items(r, c);
    if r.len() > 0 && c.1.above(r.last().1) {
        let rest = r.drop_last();
        lemma_rank_in_items(rest, c);
        if i < rank_in(rest, c).len() {
            lemma_rank_in_members(rest, c, i);
            if rank_in(rest, c)[i] != c {
                let k = rest.index_of(rank_in(rest, c)[i]);
                assert(r[k] == rank_in(r, c)[i]);
            }
        } else {
            assert(r[r.len() - 1] == rank_in(r, c)[i]);
        }
    } else if i < r.len() {
        assert(r[i] == rank_in(r, c)[i]);
    }
}

/// Ranking a candidate in keeps the order.
proof fn lemma_rank_in_descends(r: Seq<(i32, Score)>, c: (i32, Score))
    requires
        descending(r),
        all_scored(r),
        c.1.wf(),
    ensures
        descending(rank_in(r, c)),
    decreases r.len(),
{
    lemma_rank_in_items(r, c);
    let out = rank_in(r, c);
    if r.len() > 0 && c.1.above(r.last().1) {
        let rest = r.drop_last();
        lemma_rank_in_items(rest, c);
        lemma_rank_in_descends(rest, c);
        assert forall|i: int, j: int| 0 <= i < j < out.len() implies !(#[trigger] out[j]).1.above(
            (#[trigger] out[i]).1,
        ) by {
            if j == out.len() - 1 {
                lemma_rank_in_members(rest, c, i);
                if out[i] != c {
                    let k = rest.index_of(out[i]);
                    assert(r[k] == out[i]);
                    assert(r[r.len() - 1] == out[j]);
                } else {
                    lemma_above_is_asymmetric(c.1, r.last().1);
                }
            } else {
                assert(rank_in(rest, c)[i] == out[i]);
                assert(rank_in(rest, c)[j] == out[j]);
            }
        }
    } else {
        assert forall|i: int, j: int| 0 <= i < j < out.len() implies !(#[trigger] out[j]).1.above(
            (#[trigger] out[i]).1,
        ) by {
            if j == out.len() - 1 {
                if i < r.len() - 1 {
                    assert(!r[r.len() - 1].1.above(r[i].1));
                    lemma_above_is_transitive(c.1, r.last().1, r[i].1);
                }
            } else {
                assert(r[i] == out[i] && r[j] == out[j]);
            }
        }
    }
}

/// A score that is above another is not below it.
proof fn lemma_above_is_asymmetric(x: Score, y: Score)
    requires
        x.above(y),
    ensures
        !y.above(x),
{
}

/// Ranking a candidate in puts it behind all of its score.
proof fn lemma_rank_in_is_stable(r: Seq<(i32, Score)>, c: (i32, Score), score: Score)
    requires
        score.wf(),
    ensures
        rank_in(r, c).filter(scores_level_with(score)) == r.push(c).filter(
            scores_level_with(score),
        ),
    decreases r.len(),
{
    let p = scores_level_with(score);
    if r.len() > 0 && c.1.above(r.last().1) {
        let rest = r.drop_last();
        lemma_rank_in_is_stable(rest, c, score);
        lemma_filter_push(rank_in(rest, c), r.last(), p);
        lemma_filter_push(rest, c, p);
        lemma_filter_push(rest, r.last(), p);
        lemma_filter_push(r, c, p);
        assert(r =~= rest.push(r.last()));
        if p(c) && p(r.last()) {
            lemma_level(c.1, r.last().1, score);
        }
    }
}

/// What a filter keeps of a list with one more item.
proof fn lemma_filter_push(
    s: Seq<(i32, Score)>,
    c: (i32, Score),
    p: spec_fn((i32, Score)) -> bool,
)
    ensures
        s.push(c).filter(p) == if p(c) {
            s.filter(p).push(c)
        } else {
            s.filter(p)
        },
{
    reveal(Seq::filter);
    assert(s.push(c).drop_last() =~= s);
}

/// Offered candidates are those that were found, the best score first and those
/// of one score in the order in which they were found.
pub proof fn lemma_ranked(s: Seq<(i32, Score)>)
    requires
        all_scored(s),
    ensures
        is_ranking(s, ranked(s)),
        all_scored(ranked(s)),
        ranked(s).to_multiset() == s.to_multiset(),
        ranked(s).len() == s.len(),
    decreases s.len(),
{
    broadcast use vstd::seq_lib::group_to_multiset_ensures;

    if s.len() > 0 {
        let rest = s.drop_last();
        let c = s.last();
        lemma_ranked(rest);
        lemma_rank_in_items(ranked(rest), c);
        lemma_rank_in_descends(ranked(rest), c);
        assert(s =~= rest.push(c));
        assert forall|score: Score|
            #![trigger scores_level_with(score)]
            score.wf() implies ranked(s).filter(scores_level_with(score)) == s.filter(
            scores_level_with(score),
        ) by {
            let p = scores_level_with(score);
            lemma_rank_in_is_stable(ranked(rest), c, score);
            lemma_filter_push(ranked(rest), c, p);
            lemma_filter_push(rest, c, p);
        }
    }
}

/// A list has at least one item of the score of each of its items, and its last
/// item is the last of its score.
proof fn lemma_filter_last(s: Seq<(i32, Score)>, score: Score)
    requires
        s.len() > 0,
    ensures
        s.last().1.level(score) ==> {
            &&& s.filter(scores_level_with(score)).len() > 0
            &&& s.filter(scores_level_with(score)).last() == s.last()
            &&& s.filter(scores_level_with(score)).drop_last() == s.drop_last().filter(
                scores_level_with(score),
            )
        },
        !s.last().1.level(score) ==> s.filter(scores_level_with(score)) == s.drop_last().filter(
            scores_level_with(score),
        ),
{
    let p = scores_level_with(score);
    lemma_filter_push(s.drop_last(), s.last(), p);
    assert(s =~= s.drop_last().push(s.last()));
    assert(s.drop_last().filter(p).push(s.last()).drop_last() =~= s.drop_last().filter(p));
}

/// The last item of one ranking scores no higher than that of another ranking
/// of the same candidates.
proof fn lemma_last_is_lowest(r1: Seq<(i32, Score)>, r2: Seq<(i32, Score)>)
    requires
        r1.len() > 0,
        all_scored(r1),
        all_scored(r2),
        descending(r1),
        is_ranking(r1, r2),
    ensures
        r2.len() > 0,
        !r2.last().1.above(r1.last().1),
{
    let score = r1.last().1;
    let p = scores_level_with(score);
    lemma_filter_last(r1, score);
    assert(r2.filter(p).len() > 0);
    r2.lemma_filter_pred(p, 0);
    let item = r2.filter(p)[0];
    assert(p(item));
    lemma_filter_subset(r2, p, 0);
    let k = r2.index_of(item);
    if k < r2.len() - 1 {
        lemma_above_is_transitive(r2.last().1, r2[k].1, score);
    }
}

/// What a filter keeps was there.
proof fn lemma_filter_subset(
    s: Seq<(i32, Score)>,
    p: spec_fn((i32, Score)) -> bool,
    i: int,
)
    requires
        0 <= i < s.filter(p).len(),
    ensures
        s.contains(s.filter(p)[i]),
    decreases s.len(),
{
    reveal(Seq::filter);
    let rest = s.drop_last();
    if i < rest.filter(p).len() {
        lemma_filter_subset(rest, p, i);
        let k = rest.index_of(rest.filter(p)[i]);
        assert(s[k] == s.filter(p)[i]);
    } else {
        assert(s[s.len() - 1] == s.filter(p)[i]);
    }
}

/// There is one ranking of given candidates.
pub proof fn lemma_ranking_is_unique(
    s: Seq<(i32, Score)>,
    r1: Seq<(i32, Score)>,
    r2: Seq<(i32, Score)>,
)
    requires
        all_scored(r1),
        all_scored(r2),
        is_ranking(s, r1),
        is_ranking(s, r2),
    ensures
        r1 == r2,
    decreases r1.len(),
{
    assert(is_ranking(r1, r2)) by {
        assert forall|score: Score|
            #![trigger scores_level_with(score)]
            score.wf() implies r2.filter(scores_level_with(score)) == r1.filter(
            scores_level_with(score),
        ) by {}
    }
    assert(is_ranking(r2, r1)) by {
        assert forall|score: Score|
            #![trigger scores_level_with(score)]
            score.wf() implies r1.filter(scores_level_with(score)) == r2.filter(
            scores_level_with(score),
        ) by {}
    }
    if r1.len() == 0 {
        if r2.len() > 0 {
            lemma_last_is_lowest(r2, r1);
        }
        assert(r1 =~= r2);
    } else {
        lemma_last_is_lowest(r1, r2);
        lemma_last_is_lowest(r2, r1);
        let (l1, l2) = (r1.last(), r2.last());
        lemma_filter_last(r1, l1.1);
        lemma_filter_last(r2, l1.1);
        assert(l1 == l2);
        let (s1, s2) = (r1.drop_last(), r2.drop_last());
        assert(is_ranking(s1, s2)) by {
            assert forall|score: Score|
                #![trigger scores_level_with(score)]
                score.wf() implies s2.filter(scores_level_with(score)) == s1.filter(
                scores_level_with(score),
            ) by {
                lemma_filter_last(r1, score);
                lemma_filter_last(r2, score);
            }
        }
        assert(is_ranking(s1, s1));
        lemma_ranking_is_unique(s1, s1, s2);
        assert(r1 =~= s1.push(l1));
        assert(r2 =~= s2.push(l2));
    }
}

/// Puts one more candidate into a ranked list.
fn insert_candidate(r: &mut Vec<(i32, Score)>, c: (i32, Score))
    ensures
        final(r)@ == rank_in(old(r)@, c),
{
    let mut at: usize = r.len();
    let ghost list = r@;
    assert(list.take(at as int) =~= list);
    assert(list.skip(at as int) =~= Seq::empty());
    while at > 0 && c.1.is_above(&r[at - 1].1)
        invariant
            at <= r@.len(),
            r@ == list,
            rank_in(list, c) =~= rank_in(list.take(at as int), c) + list.skip(at as int),
        decreases at,
    {
        assert(list.take(at as int).drop_last() =~= list.take(at - 1));
        assert(list.take(at as int).last() == list[at - 1]);
        assert(list.skip(at - 1) =~= seq![list[at - 1]] + list.skip(at as int));
        at -= 1;
    }
    assert(list.insert(at as int, c) =~= list.take(at as int).push(c) + list.skip(at as int));
    r.insert(at, c);
}

/// Ranks the candidates and keeps those that are offered.
pub fn rank_candidates(candidates: &Vec<(i32, Score)>) -> (offered: Vec<(i32, Score)>)
    ensures
        offered@ == best(candidates@),
{
    let mut offered: Vec<(i32, Score)> = Vec::new();
    let mut i: usize = 0;
    assert(candidates@.take(0) =~= offered@);
    while i < candidates.len()
        invariant
            i <= candidates@.len(),
            offered@ == ranked(candidates@.take(i as int)),
            offered@.len() == i,
        decreases candidates@.len() - i,
    {
        proof {
            let next = candidates@.take(i + 1);
            assert(next.drop_last() =~= candidates@.take(i as int));
            assert(next.last() == candidates@[i as int]);
            lemma_rank_in_items(offered@, candidates@[i as int]);
        }
        insert_candidate(&mut offered, candidates[i]);
        i += 1;
    }
    assert(candidates@.take(i as int) =~= candidates@);
    offered.truncate(MAX_CANDIDATES);
    offered
}

} // verus!
