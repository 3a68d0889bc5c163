//! What suggestions mean: which offsets they are, what their scores are scores of,
//! in which order they stand and what is left out.

use crate::candidates::{
    agrees, common_alignments, has_offset, scored_offsets, search_range, signed_offset,
    size_fallback, suggested, with_alignments,
};
use crate::ranking::{all_scored, best, descending, lemma_ranked, rank_in, ranked};
use crate::score::{match_score, Score};
use crate::state::FileStateView;
use vstd::prelude::*;

verus! {

/// Of two listed candidates, the first has the greater ratio, or the same ratio
/// and the earlier place in the list.
pub open spec fn goes_before(s: Seq<(i32, Score)>, i: int, j: int) -> bool {
    let (x, y) = (s[i].1, s[j].1);
    ||| x.matches * y.total > y.matches * x.total
    ||| x.matches * y.total == y.matches * x.total && i < j
}

/// The distance of an offset, whichever file it is of.
pub open spec fn distance(offset: i32) -> int {
    if offset >= 0 {
        offset as int
    } else {
        -offset
    }
}

/// Where a candidate is ranked in: behind all that it is not above, before all
/// others.
proof fn lemma_rank_in_position(r: Seq<(i32, Score)>, c: (i32, Score)) -> (at: int)
    requires
        descending(r),
        all_scored(r),
        c.1.wf(),
    ensures
        0 <= at <= r.len(),
        rank_in(r, c) == r.insert(at, c),
        forall|k: int| 0 <= k < at ==> !c.1.above((#[trigger] r[k]).1),
        forall|k: int| at <= k < r.len() ==> c.1.above((#[trigger] r[k]).1),
    decreases r.len(),
{
    if r.len() == 0 || !c.1.above(r.last().1) {
        let at = r.len() as int;
        assert(r.push(c) =~= r.insert(at, c));
        assert forall|k: int| 0 <= k < at implies !c.1.above((#[trigger] r[k]).1) by {
            if k < r.len() - 1 {
                assert(!r[r.len() - 1].1.above(r[k].1));
                crate::ranking::lemma_above_is_transitive(c.1, r.last().1, r[k].1);
            }
        }
        at
    } else {
        let rest = r.drop_last();
        assert forall|i: int, j: int| 0 <= i < j < rest.len() implies !(
        #[trigger] rest[j]).1.above((#[trigger] rest[i]).1) by {
            assert(rest[i] == r[i] && rest[j] == r[j]);
        }
        assert(all_scored(rest));
        let at = lemma_rank_in_position(rest, c);
        assert(rest.insert(at, c).push(r.last()) =~= r.insert(at, c));
        assert forall|k: int| 0 <= k < at implies !c.1.above((#[trigger] r[k]).1) by {
            assert(rest[k] == r[k]);
        }
        assert forall|k: int| at <= k < r.len() implies c.1.above((#[trigger] r[k]).1) by {
            if k < rest.len() {
                assert(rest[k] == r[k]);
            }
        }
        at
    }
}

/// Ranked candidates are the given ones, each once, in their order.
proof fn lemma_ranked_places(s: Seq<(i32, Score)>) -> (p: Seq<int>)
    requires
        all_scored(s),
    ensures
        p.len() == s.len(),
        ranked(s).len() == s.len(),
        forall|k: int| 0 <= k < p.len() ==> 0 <= #[trigger] p[k] < s.len() && ranked(s)[k] == s[p[k]],
        forall|k: int, l: int|
            0 <= k < l < p.len() ==> goes_before(s, #[trigger] p[k], #[trigger] p[l]),
        forall|i: int| 0 <= i < s.len() ==> #[trigger] p.contains(i),
    decreases s.len(),
{
    if s.len() == 0 {
        Seq::empty()
    } else {
        let rest = s.drop_last();
        let n = rest.len() as int;
        let c = s.last();
        let p0 = lemma_ranked_places(rest);
        let r = ranked(rest);
        lemma_ranked(rest);
        let at = lemma_rank_in_position(r, c);
        let p = p0.insert(at, n);
        assert(ranked(s) == r.insert(at, c));
        assert forall|k: int| 0 <= k < p.len() implies 0 <= #[trigger] p[k] < s.len() && ranked(
            s,
        )[k] == s[p[k]] by {
            if k < at {
                assert(p[k] == p0[k]);
            } else if k > at {
                assert(p[k] == p0[k - 1]);
                assert(ranked(s)[k] == r[k - 1]);
            }
        }
        assert forall|k: int, l: int| 0 <= k < l < p.len() implies goes_before(
            s,
            #[trigger] p[k],
            #[trigger] p[l],
        ) by {
            if k == at {
                assert(p[l] == p0[l - 1]);
                assert(c.1.above(r[l - 1].1));
            } else if l == at {
                assert(p[k] == p0[k]);
                assert(!c.1.above(r[k].1));
            } else {
                let k0 = if k < at { k } else { k - 1 };
                let l0 = if l < at { l } else { l - 1 };
                assert(p[k] == p0[k0] && p[l] == p0[l0]);
                assert(goes_before(rest, p0[k0], p0[l0]));
            }
        }
        assert forall|i: int| 0 <= i < s.len() implies #[trigger] p.contains(i) by {
            if i == n {
                assert(p[at] == i);
            } else {
                assert(p0.contains(i));
                let k = p0.index_of(i);
                if k < at {
                    assert(p[k] == i);
                } else {
                    assert(p[k + 1] == i);
                }
            }
        }
        p
    }
}

/// `r` holds the candidates of `s` that stand at the places `p`: up to five, each
/// once, the greatest ratio first and equal ratios in the order given, and none
/// that is left out would go before one that is held.
pub open spec fn holds_the_first(
    s: Seq<(i32, Score)>,
    r: Seq<(i32, Score)>,
    p: Seq<int>,
) -> bool {
    &&& r.len() == if s.len() <= 5 { s.len() } else { 5 }
    &&& p.len() == r.len()
    &&& forall|k: int| 0 <= k < p.len() ==> 0 <= #[trigger] p[k] < s.len() && r[k] == s[p[k]]
    &&& forall|k: int, l: int|
        0 <= k < l < p.len() ==> goes_before(s, #[trigger] p[k], #[trigger] p[l])
    &&& forall|i: int, k: int|
        #![trigger s[i], p[k]]
        0 <= i < s.len() && !p.contains(i) && 0 <= k < p.len() ==> goes_before(s, p[k], i)
}

/// Of any candidates, those that go before all others are offered, in order: up to
/// five, the greatest ratio first, and of equal ratios the one found first.
pub proof fn law_the_first_five_are_offered(s: Seq<(i32, Score)>) -> (p: Seq<int>)
    requires
        forall|i: int|
            0 <= i < s.len() ==> (#[trigger] s[i]).1.matches <= s[i].1.total && 0 < s[i].1.total,
    ensures
        holds_the_first(s, best(s), p),
{
    let full = lemma_ranked_places(s);
    let n = if s.len() <= 5 { s.len() as int } else { 5 };
    let p = full.take(n);
    let r = best(s);
    assert(r =~= ranked(s).take(n));
    assert forall|i: int, k: int|
        #![trigger s[i], p[k]]
        0 <= i < s.len() && !p.contains(i) && 0 <= k < p.len() implies goes_before(s, p[k], i) by {
        assert(full.contains(i));
        let l = full.index_of(i);
        assert(l >= n) by {
            if l < n {
                assert(p[l] == i);
            }
        }
        assert(full[k] == p[k] && full[l] == i);
        assert(goes_before(s, full[k], full[l]));
    }
    p
}

/// The number of offsets that are tried, told from the lengths of the files.
pub open spec fn tried(
    len_a: int,
    len_b: int,
    search_window: int,
    offset_for_a: bool,
) -> int {
    let longer = if len_a >= len_b { len_a } else { len_b };
    let part = if longer > 1048576 { 131072 } else { longer };
    let skipped = if offset_for_a { len_a } else { len_b };
    let bound = if part <= skipped + 1 { part } else { skipped + 1 };
    if search_window <= bound { search_window } else { bound }
}

/// What is found among the first offsets: those at which anything agrees, in
/// order, each with its score.
proof fn lemma_found_offsets(data_a: Seq<u8>, data_b: Seq<u8>, offset_for_a: bool, n: int)
    requires
        0 <= n <= 1048576,
    ensures
        ({
            let found = scored_offsets(data_a, data_b, offset_for_a, n).filter(agrees());
            &&& forall|i: int|
                0 <= i < found.len() ==> {
                    let o = distance((#[trigger] found[i]).0);
                    &&& 0 <= o < n
                    &&& found[i].0 == if offset_for_a { o } else { -o }
                    &&& found[i].1 == match_score(data_a, data_b, o, offset_for_a)
                    &&& found[i].1.matches > 0
                }
            &&& forall|i: int, j: int|
                0 <= i < j < found.len() ==> distance((#[trigger] found[i]).0) < distance(
                    (#[trigger] found[j]).0,
                )
            &&& forall|o: int|
                #![trigger match_score(data_a, data_b, o, offset_for_a)]
                0 <= o < n && match_score(data_a, data_b, o, offset_for_a).matches > 0
                    ==> exists|i: int|
                    0 <= i < found.len() && distance((#[trigger] found[i]).0) == o
        }),
    decreases n,
{
    reveal(Seq::filter);
    let s = scored_offsets(data_a, data_b, offset_for_a, n);
    let found = s.filter(agrees());
    if n > 0 {
        lemma_found_offsets(data_a, data_b, offset_for_a, n - 1);
        let before = scored_offsets(data_a, data_b, offset_for_a, n - 1);
        let kept = before.filter(agrees());
        assert(s.drop_last() =~= before);
        let score = match_score(data_a, data_b, n - 1, offset_for_a);
        let c = (signed_offset(n - 1, offset_for_a), score);
        assert(s.last() == c);
        assert(distance(c.0) == n - 1);
        if score.matches > 0 {
            assert(found == kept.push(c));
        } else {
            assert(found == kept);
        }
        assert forall|i: int| 0 <= i < found.len() implies {
            let o = distance((#[trigger] found[i]).0);
            &&& 0 <= o < n
            &&& found[i].0 == if offset_for_a { o } else { -o }
            &&& found[i].1 == match_score(data_a, data_b, o, offset_for_a)
            &&& found[i].1.matches > 0
        } by {
            if i < kept.len() {
                assert(found[i] == kept[i]);
            }
        }
        assert forall|i: int, j: int| 0 <= i < j < found.len() implies distance(
            (#[trigger] found[i]).0,
        ) < distance((#[trigger] found[j]).0) by {
            assert(found[i] == kept[i]);
            if j < kept.len() {
                assert(found[j] == kept[j]);
            }
        }
        assert forall|o: int|
            #![trigger match_score(data_a, data_b, o, offset_for_a)]
            0 <= o < n && match_score(data_a, data_b, o, offset_for_a).matches > 0 implies exists|
            i: int,
        | 0 <= i < found.len() && distance((#[trigger] found[i]).0) == o by {
            if o == n - 1 {
                assert(found[kept.len() as int] == c);
            } else {
                let i = choose|i: int|
                    0 <= i < kept.len() && distance((#[trigger] kept[i]).0) == o;
                assert(found[i] == kept[i]);
            }
        }
    } else {
        assert(s =~= Seq::empty());
    }
}

/// Every suggestion carries the score of its own offset, which is not zero, and
/// its sign tells which file it is of; the offset is one of those tried. The one
/// exception is the difference in size, where nothing agrees at any of them.
pub proof fn law_suggestions_carry_their_scores(
    data_a: Seq<u8>,
    data_b: Seq<u8>,
    search_window: int,
    offset_for_a: bool,
    i: int,
)
    requires
        0 <= search_window,
        0 <= i < suggested(data_a, data_b, search_window, offset_for_a).len(),
        exists|o: int|
            0 <= o < tried(data_a.len() as int, data_b.len() as int, search_window, offset_for_a)
                && (#[trigger] match_score(data_a, data_b, o, offset_for_a)).matches > 0,
    ensures
        ({
            let (offset, score) = suggested(data_a, data_b, search_window, offset_for_a)[i];
            let o = if offset >= 0 { offset as int } else { -offset };
            &&& 0 <= o < tried(
                data_a.len() as int,
                data_b.len() as int,
                search_window,
                offset_for_a,
            )
            &&& offset_for_a ==> offset >= 0
            &&& !offset_for_a ==> offset <= 0
            &&& score == match_score(data_a, data_b, o, offset_for_a)
            &&& score.matches > 0
        }),
{
    lemma_suggested(data_a, data_b, search_window, offset_for_a);
}

/// Suggestions stand by descending score, those of one score by distance.
pub proof fn law_suggestions_are_in_order(
    data_a: Seq<u8>,
    data_b: Seq<u8>,
    search_window: int,
    offset_for_a: bool,
    i: int,
    j: int,
)
    requires
        0 <= search_window,
        0 <= i < j < suggested(data_a, data_b, search_window, offset_for_a).len(),
    ensures
        ({
            let s = suggested(data_a, data_b, search_window, offset_for_a);
            let (x, y) = (s[i].1, s[j].1);
            ||| x.matches * y.total > y.matches * x.total
            ||| x.matches * y.total == y.matches * x.total && distance(s[i].0) < distance(s[j].0)
        }),
{
    lemma_suggested(data_a, data_b, search_window, offset_for_a);
}

/// An offset that is tried and at which anything agrees is suggested, or five
/// others are which have a greater score, or the same and a shorter distance.
pub proof fn law_no_better_offset_is_left_out(
    data_a: Seq<u8>,
    data_b: Seq<u8>,
    search_window: int,
    offset_for_a: bool,
    o: int,
)
    requires
        0 <= search_window,
        0 <= o < tried(data_a.len() as int, data_b.len() as int, search_window, offset_for_a),
        match_score(data_a, data_b, o, offset_for_a).matches > 0,
    ensures
        ({
            let s = suggested(data_a, data_b, search_window, offset_for_a);
            let score = match_score(data_a, data_b, o, offset_for_a);
            ||| exists|i: int|
                0 <= i < s.len() && (#[trigger] s[i]).0 == (if offset_for_a { o } else { -o })
                    && s[i].1 == score
            ||| s.len() == 5 && forall|i: int|
                0 <= i < s.len() ==> {
                    let x = (#[trigger] s[i]).1;
                    ||| x.matches * score.total > score.matches * x.total
                    ||| x.matches * score.total == score.matches * x.total && distance(s[i].0) < o
                }
        }),
{
    lemma_suggested(data_a, data_b, search_window, offset_for_a);
    let s = suggested(data_a, data_b, search_window, offset_for_a);
    let n = tried(data_a.len() as int, data_b.len() as int, search_window, offset_for_a);
    let found = scored_offsets(data_a, data_b, offset_for_a, n).filter(agrees());
    let score = match_score(data_a, data_b, o, offset_for_a);
    lemma_found_offsets(data_a, data_b, offset_for_a, n);
    let at = choose|i: int| 0 <= i < found.len() && distance((#[trigger] found[i]).0) == o;
    let p = lemma_found_places(data_a, data_b, search_window, offset_for_a);
    assert(found[at].1 == score);
    if p.contains(at) {
        let k = p.index_of(at);
        assert(p[k] == at);
        assert(s[k] == found[at]);
    } else {
        if found.len() <= 5 {
            lemma_all_places(p, found.len() as int);
            assert(false);
        }
        assert forall|i: int| 0 <= i < s.len() implies {
            let x = (#[trigger] s[i]).1;
            ||| x.matches * score.total > score.matches * x.total
            ||| x.matches * score.total == score.matches * x.total && distance(s[i].0) < o
        } by {
            assert(s[i] == found[p[i]]);
            assert(goes_before(found, p[i], at));
        }
    }
}

/// As many different places as there are hold every place.
proof fn lemma_all_places(p: Seq<int>, n: int)
    requires
        p.len() == n,
        p.no_duplicates(),
        forall|k: int| 0 <= k < p.len() ==> 0 <= #[trigger] p[k] < n,
    ensures
        forall|i: int| 0 <= i < n ==> #[trigger] p.contains(i),
{
    let places = p.to_set();
    let all = vstd::set_lib::set_int_range(0, n);
    p.unique_seq_to_set();
    vstd::set_lib::lemma_int_range(0, n);
    assert(places.subset_of(all));
    vstd::set_lib::lemma_subset_equality(places, all);
    assert forall|i: int| 0 <= i < n implies #[trigger] p.contains(i) by {
        assert(all.contains(i));
        assert(places.contains(i));
    }
}

/// Where the suggestions stand among what was found.
proof fn lemma_found_places(
    data_a: Seq<u8>,
    data_b: Seq<u8>,
    search_window: int,
    offset_for_a: bool,
) -> (p: Seq<int>)
    requires
        0 <= search_window,
        exists|o: int|
            0 <= o < tried(data_a.len() as int, data_b.len() as int, search_window, offset_for_a)
                && (#[trigger] match_score(data_a, data_b, o, offset_for_a)).matches > 0,
    ensures
        ({
            let n = tried(data_a.len() as int, data_b.len() as int, search_window, offset_for_a);
            let found = scored_offsets(data_a, data_b, offset_for_a, n).filter(agrees());
            holds_the_first(
                found,
                suggested(data_a, data_b, search_window, offset_for_a),
                p,
            )
        }),
        p.no_duplicates(),
{
    let n = tried(data_a.len() as int, data_b.len() as int, search_window, offset_for_a);
    assert(n == search_range(data_a, data_b, search_window, offset_for_a));
    let all = scored_offsets(data_a, data_b, offset_for_a, n);
    let found = all.filter(agrees());
    crate::laws::lemma_found(data_a, data_b, offset_for_a, n);
    lemma_found_offsets(data_a, data_b, offset_for_a, n);
    assert(found.len() > 0) by {
        let o = choose|o: int|
            0 <= o < n && (#[trigger] match_score(data_a, data_b, o, offset_for_a)).matches > 0;
        assert(match_score(data_a, data_b, o, offset_for_a).matches > 0);
        let i = choose|i: int| 0 <= i < found.len() && distance((#[trigger] found[i]).0) == o;
    }
    let p = law_the_first_five_are_offered(found);
    assert forall|k: int, l: int| 0 <= k < l < p.len() implies p[k] != p[l] by {
        assert(goes_before(found, p[k], p[l]));
    }
    p
}

/// What the suggestions are.
proof fn lemma_suggested(
    data_a: Seq<u8>,
    data_b: Seq<u8>,
    search_window: int,
    offset_for_a: bool,
)
    requires
        0 <= search_window,
    ensures
        ({
            let n = tried(data_a.len() as int, data_b.len() as int, search_window, offset_for_a);
            let s = suggested(data_a, data_b, search_window, offset_for_a);
            let any = exists|o: int|
                0 <= o < n && (#[trigger] match_score(data_a, data_b, o, offset_for_a)).matches > 0;
            &&& !any ==> s.len() <= 1
            &&& any ==> forall|i: int|
                0 <= i < s.len() ==> {
                    let o = distance((#[trigger] s[i]).0);
                    &&& 0 <= o < n
                    &&& s[i].0 == if offset_for_a { o } else { -o }
                    &&& s[i].1 == match_score(data_a, data_b, o, offset_for_a)
                    &&& s[i].1.matches > 0
                }
            &&& any ==> forall|i: int, j: int|
                0 <= i < j < s.len() ==> {
                    let (x, y) = ((#[trigger] s[i]).1, (#[trigger] s[j]).1);
                    ||| x.matches * y.total > y.matches * x.total
                    ||| x.matches * y.total == y.matches * x.total && distance(s[i].0) < distance(
                        s[j].0,
                    )
                }
        }),
{
    let n = tried(data_a.len() as int, data_b.len() as int, search_window, offset_for_a);
    let s = suggested(data_a, data_b, search_window, offset_for_a);
    if exists|o: int|
        0 <= o < n && (#[trigger] match_score(data_a, data_b, o, offset_for_a)).matches > 0 {
        let found = scored_offsets(data_a, data_b, offset_for_a, n).filter(agrees());
        lemma_found_offsets(data_a, data_b, offset_for_a, n);
        let p = lemma_found_places(data_a, data_b, search_window, offset_for_a);
        assert forall|i: int, j: int| 0 <= i < j < s.len() implies {
            let (x, y) = ((#[trigger] s[i]).1, (#[trigger] s[j]).1);
            ||| x.matches * y.total > y.matches * x.total
            ||| x.matches * y.total == y.matches * x.total && distance(s[i].0) < distance(s[j].0)
        } by {
            assert(s[i] == found[p[i]] && s[j] == found[p[j]]);
            assert(goes_before(found, p[i], p[j]));
        }
        assert forall|i: int| 0 <= i < s.len() implies {
            let o = distance((#[trigger] s[i]).0);
            &&& 0 <= o < n
            &&& s[i].0 == if offset_for_a { o } else { -o }
            &&& s[i].1 == match_score(data_a, data_b, o, offset_for_a)
            &&& s[i].1.matches > 0
        } by {
            assert(s[i] == found[p[i]]);
        }
    } else {
        law_size_gap_is_suggested(data_a, data_b, search_window, offset_for_a);
    }
}

/// Where nothing agrees at any offset that is tried, the difference in length is
/// suggested, at half a score, if there is one; nothing else is. A difference that
/// is too large for an offset is cut down to the bits that an offset has, and is
/// suggested if what is left is positive.
pub proof fn law_size_gap_is_suggested(
    data_a: Seq<u8>,
    data_b: Seq<u8>,
    search_window: int,
    offset_for_a: bool,
)
    requires
        0 <= search_window,
        forall|o: int|
            0 <= o < tried(data_a.len() as int, data_b.len() as int, search_window, offset_for_a)
                ==> (#[trigger] match_score(data_a, data_b, o, offset_for_a)).matches == 0,
    ensures
        ({
            let s = suggested(data_a, data_b, search_window, offset_for_a);
            let gap = if data_a.len() >= data_b.len() {
                data_a.len() - data_b.len()
            } else {
                data_b.len() - data_a.len()
            };
            let kept = gap as usize as i32;
            &&& 0 <= gap <= i32::MAX ==> kept == gap
            &&& kept <= 0 ==> s.len() == 0
            &&& kept > 0 ==> {
                &&& s.len() == 1
                &&& s[0].0 == if offset_for_a { kept as int } else { -kept }
                &&& s[0].1.matches == 1 && s[0].1.total == 2
            }
        }),
{
    let n = tried(data_a.len() as int, data_b.len() as int, search_window, offset_for_a);
    assert(n == search_range(data_a, data_b, search_window, offset_for_a));
    let found = scored_offsets(data_a, data_b, offset_for_a, n).filter(agrees());
    lemma_found_offsets(data_a, data_b, offset_for_a, n);
    if found.len() > 0 {
        let o = distance(found[0].0);
        assert(match_score(data_a, data_b, o, offset_for_a).matches == 0);
    }
    let defaults = crate::candidates::default_candidates(data_a, data_b, offset_for_a);
    assert(all_scored(defaults));
    let p = law_the_first_five_are_offered(defaults);
    if defaults.len() == 1 {
        assert(0 <= p[0] < 1);
    }
}

/// Of readable files of different sizes, the offsets of the smaller one are tried,
/// as many as the sizes differ by and 4096 at most. Of files of one size, 1024
/// offsets of either are tried, and the first of what both give are offered, those
/// of file A first among equals.
pub proof fn law_sizes_decide_what_is_tried(state: FileStateView) -> (p: Seq<int>)
    requires
        state.file_a is Some,
        state.file_b is Some,
        state.file_a->0.content is Some,
        state.file_b->0.content is Some,
        state.file_a->0.size == state.file_a->0.content->0.len(),
        state.file_b->0.size == state.file_b->0.content->0.len(),
    ensures
        ({
            let data_a = state.file_a->0.content->0;
            let data_b = state.file_b->0.content->0;
            let gap = data_a.len() - data_b.len();
            &&& gap > 0 ==> state.all_suggested() == suggested(
                data_a,
                data_b,
                if gap <= 4096 { gap } else { 4096 },
                false,
            )
            &&& gap < 0 ==> state.all_suggested() == suggested(
                data_a,
                data_b,
                if -gap <= 4096 { -gap } else { 4096 },
                true,
            )
            &&& gap == 0 ==> holds_the_first(
                suggested(data_a, data_b, 1024, true) + suggested(data_a, data_b, 1024, false),
                state.all_suggested(),
                p,
            )
        }),
{
    let data_a = state.file_a->0.content->0;
    let data_b = state.file_b->0.content->0;
    let of_a = suggested(data_a, data_b, 1024, true);
    let of_b = suggested(data_a, data_b, 1024, false);
    crate::laws::law_suggestions(data_a, data_b, 1024, true);
    crate::laws::law_suggestions(data_a, data_b, 1024, false);
    assert(all_scored(of_a + of_b));
    law_the_first_five_are_offered(of_a + of_b)
}

/// Nothing is suggested unless both files are chosen and readable.
pub proof fn law_unreadable_files_give_no_suggestion(
    state: FileStateView,
    search_window: int,
    offset_for_a: bool,
)
    requires
        state.file_a is None || state.file_b is None || state.file_a->0.content is None
            || state.file_b->0.content is None,
    ensures
        state.suggested(search_window, offset_for_a).len() == 0,
        state.all_suggested().len() == 0,
{
    let none = Seq::<(i32, Score)>::empty();
    assert(none + none =~= none);
    law_the_first_five_are_offered(none);
}

/// A search of readable files is a search of their bytes.
pub proof fn law_the_bytes_are_searched(
    state: FileStateView,
    search_window: int,
    offset_for_a: bool,
)
    requires
        state.file_a is Some,
        state.file_b is Some,
        state.file_a->0.content is Some,
        state.file_b->0.content is Some,
    ensures
        state.suggested(search_window, offset_for_a) == suggested(
            state.file_a->0.content->0,
            state.file_b->0.content->0,
            search_window,
            offset_for_a,
        ),
{
}

/// A power of two from 1 to 1024.
pub open spec fn is_alignment(x: int) -> bool {
    ||| x == 1 || x == 2 || x == 4 || x == 8 || x == 16 || x == 32
    ||| x == 64 || x == 128 || x == 256 || x == 512 || x == 1024
}

/// One step of adding alignments.
proof fn lemma_alignment_step(
    candidates: Seq<(i32, Score)>,
    data_a: Seq<u8>,
    data_b: Seq<u8>,
    offset_for_a: bool,
    search_range: int,
    n: int,
)
    requires
        0 <= n <= 11,
    ensures
        ({
            let after = with_alignments(
                candidates,
                data_a,
                data_b,
                offset_for_a,
                search_range,
                n,
            );
            let top = if n == 0 { 0 } else { common_alignments()[n - 1] as int };
            &&& candidates.len() <= after.len()
            &&& forall|j: int| 0 <= j < candidates.len() ==> #[trigger] after[j] == candidates[j]
            &&& forall|j: int|
                candidates.len() <= j < after.len() ==> {
                    let x = distance((#[trigger] after[j]).0);
                    let score = match_score(data_a, data_b, x, offset_for_a);
                    &&& is_alignment(x) && x <= search_range && x <= top
                    &&& after[j].0 == if offset_for_a { x } else { -x }
                    &&& 20 * score.matches > score.total
                    &&& after[j].1.matches == 4 * score.matches
                    &&& after[j].1.total == 5 * score.total
                    &&& !has_offset(candidates, after[j].0)
                }
            &&& forall|i: int, j: int|
                candidates.len() <= i < j < after.len() ==> distance((#[trigger] after[i]).0)
                    < distance((#[trigger] after[j]).0)
            &&& forall|k: int|
                #![trigger common_alignments()[k]]
                0 <= k < n && common_alignments()[k] <= search_range && ({
                    let x = common_alignments()[k] as int;
                    let score = match_score(data_a, data_b, x, offset_for_a);
                    &&& 20 * score.matches > score.total
                    &&& !has_offset(candidates, signed_offset(x, offset_for_a))
                }) ==> exists|j: int|
                    candidates.len() <= j < after.len() && (#[trigger] after[j]).0
                        == signed_offset(common_alignments()[k] as int, offset_for_a)
        }),
    decreases n,
{
    if n > 0 {
        lemma_alignment_step(candidates, data_a, data_b, offset_for_a, search_range, n - 1);
        let before = with_alignments(
            candidates,
            data_a,
            data_b,
            offset_for_a,
            search_range,
            n - 1,
        );
        let after = with_alignments(candidates, data_a, data_b, offset_for_a, search_range, n);
        let x = common_alignments()[n - 1] as int;
        let c = signed_offset(x, offset_for_a);
        let score = match_score(data_a, data_b, x, offset_for_a);
        assert(score.total <= 256 && is_alignment(x) && distance(c) == x);
        lemma_score_is_small(data_a, data_b, x, offset_for_a);
        assert(n > 1 ==> common_alignments()[n - 2] < x);
        assert(!has_offset(candidates, c) ==> !has_offset(before, c)) by {
            if has_offset(before, c) && !has_offset(candidates, c) {
                let i = choose|i: int| 0 <= i < before.len() && (#[trigger] before[i]).0 == c;
                if i < candidates.len() {
                    assert(candidates[i].0 == c);
                } else {
                    assert(distance(before[i].0) < x);
                }
            }
        }
        assert(has_offset(candidates, c) ==> has_offset(before, c)) by {
            if has_offset(candidates, c) {
                let i = choose|i: int|
                    0 <= i < candidates.len() && (#[trigger] candidates[i]).0 == c;
                assert(before[i].0 == c);
            }
        }
        let added = x <= search_range && !has_offset(candidates, c) && 20 * score.matches
            > score.total;
        let item = (
            c,
            Score { matches: (4 * score.matches) as usize, total: (5 * score.total) as usize },
        );
        assert(after == if added { before.push(item) } else { before });
        assert forall|j: int| 0 <= j < candidates.len() implies #[trigger] after[j]
            == candidates[j] by {
            assert(after[j] == before[j]);
        }
        assert forall|j: int| candidates.len() <= j < after.len() implies {
            let y = distance((#[trigger] after[j]).0);
            let s = match_score(data_a, data_b, y, offset_for_a);
            &&& is_alignment(y) && y <= search_range && y <= x
            &&& after[j].0 == if offset_for_a { y } else { -y }
            &&& 20 * s.matches > s.total
            &&& after[j].1.matches == 4 * s.matches
            &&& after[j].1.total == 5 * s.total
            &&& !has_offset(candidates, after[j].0)
        } by {
            if j < before.len() {
                assert(after[j] == before[j]);
            } else {
                assert(after[j] == item);
            }
        }
        assert forall|i: int, j: int| candidates.len() <= i < j < after.len() implies distance(
            (#[trigger] after[i]).0,
        ) < distance((#[trigger] after[j]).0) by {
            assert(after[i] == before[i]);
            if j < before.len() {
                assert(after[j] == before[j]);
            } else {
                assert(after[j] == item);
                assert(distance(before[i].0) < x);
            }
        }
        assert forall|k: int|
            #![trigger common_alignments()[k]]
            0 <= k < n && common_alignments()[k] <= search_range && ({
                let y = common_alignments()[k] as int;
                let s = match_score(data_a, data_b, y, offset_for_a);
                &&& 20 * s.matches > s.total
                &&& !has_offset(candidates, signed_offset(y, offset_for_a))
            }) implies exists|j: int|
                candidates.len() <= j < after.len() && (#[trigger] after[j]).0 == signed_offset(
                    common_alignments()[k] as int,
                    offset_for_a,
                ) by {
            if k == n - 1 {
                assert(after[before.len() as int] == item);
            } else {
                let y = signed_offset(common_alignments()[k] as int, offset_for_a);
                let j = choose|j: int|
                    candidates.len() <= j < before.len() && (#[trigger] before[j]).0 == y;
                assert(after[j] == before[j]);
            }
        }
    }
}

/// A match score compares no more than 256 bytes, and no more of them agree.
proof fn lemma_score_is_small(data_a: Seq<u8>, data_b: Seq<u8>, offset: int, offset_for_a: bool)
    ensures
        match_score(data_a, data_b, offset, offset_for_a).total <= 256,
        match_score(data_a, data_b, offset, offset_for_a).matches <= 256,
{
    let (a, b) = crate::score::aligned(data_a, data_b, offset, offset_for_a);
    let n = crate::score::least(256, crate::score::overlap(a, b));
    if n > 0 {
        crate::score::lemma_count_equal_bound(a.take(n), b.take(n));
    }
}

/// Fallbacks come behind the candidates that are there. Behind these comes the
/// difference in length, at three tenths of a score, if the file whose head is
/// skipped is the longer one and what an offset can hold of the difference is
/// positive. Behind that come the powers of two from 1 to 1024,
/// in order, that are within the range, are not there yet, and at which more than
/// one byte in twenty agrees: each at four fifths of its own score.
pub proof fn law_fallbacks(
    candidates: Seq<(i32, Score)>,
    data_a: Seq<u8>,
    data_b: Seq<u8>,
    offset_for_a: bool,
    search_range: int,
)
    ensures
        ({
            let gap = if offset_for_a {
                data_a.len() - data_b.len()
            } else {
                data_b.len() - data_a.len()
            };
            let size = size_fallback(data_a, data_b, offset_for_a);
            let base = candidates + size;
            let after = with_alignments(
                base,
                data_a,
                data_b,
                offset_for_a,
                search_range,
                common_alignments().len() as int,
            );
            let kept = gap as usize as i32;
            &&& 0 <= gap <= i32::MAX ==> kept == gap
            &&& gap <= 0 || kept <= 0 ==> size.len() == 0
            &&& gap > 0 && kept > 0 ==> {
                &&& size.len() == 1
                &&& size[0].0 == if offset_for_a { kept as int } else { -kept }
                &&& size[0].1.matches == 3 && size[0].1.total == 10
            }
            &&& base.len() <= after.len()
            &&& forall|j: int| 0 <= j < base.len() ==> #[trigger] after[j] == base[j]
            &&& forall|j: int|
                base.len() <= j < after.len() ==> {
                    let x = distance((#[trigger] after[j]).0);
                    let score = match_score(data_a, data_b, x, offset_for_a);
                    &&& is_alignment(x) && x <= search_range
                    &&& after[j].0 == if offset_for_a { x } else { -x }
                    &&& 20 * score.matches > score.total
                    &&& after[j].1.matches == 4 * score.matches
                    &&& after[j].1.total == 5 * score.total
                    &&& forall|i: int| 0 <= i < base.len() ==> (#[trigger] base[i]).0 != after[j].0
                }
            &&& forall|i: int, j: int|
                base.len() <= i < j < after.len() ==> distance((#[trigger] after[i]).0) < distance(
                    (#[trigger] after[j]).0,
                )
            &&& forall|x: int|
                #![trigger match_score(data_a, data_b, x, offset_for_a)]
                is_alignment(x) && x <= search_range && 20 * match_score(
                    data_a,
                    data_b,
                    x,
                    offset_for_a,
                ).matches > match_score(data_a, data_b, x, offset_for_a).total ==> exists|j: int|
                    0 <= j < after.len() && (#[trigger] after[j]).0 == if offset_for_a {
                        x
                    } else {
                        -x
                    }
        }),
{
    let size = size_fallback(data_a, data_b, offset_for_a);
    let base = candidates + size;
    let after = with_alignments(
        base,
        data_a,
        data_b,
        offset_for_a,
        search_range,
        common_alignments().len() as int,
    );
    lemma_alignment_step(base, data_a, data_b, offset_for_a, search_range, 11);
    assert forall|x: int|
        #![trigger match_score(data_a, data_b, x, offset_for_a)]
        is_alignment(x) && x <= search_range && 20 * match_score(
            data_a,
            data_b,
            x,
            offset_for_a,
        ).matches > match_score(data_a, data_b, x, offset_for_a).total implies exists|j: int|
            0 <= j < after.len() && (#[trigger] after[j]).0 == if offset_for_a {
                x
            } else {
                -x
            } by {
        let s = common_alignments();
        assert(s[0] == 1 && s[1] == 2 && s[2] == 4 && s[3] == 8 && s[4] == 16 && s[5] == 32
            && s[6] == 64 && s[7] == 128 && s[8] == 256 && s[9] == 512 && s[10] == 1024);
        let k = choose|k: int| 0 <= k < 11 && #[trigger] s[k] == x;
        let c = signed_offset(x, offset_for_a);
        if has_offset(base, c) {
            let i = choose|i: int| 0 <= i < base.len() && (#[trigger] base[i]).0 == c;
            assert(after[i].0 == c);
        } else {
            assert(common_alignments()[k] == x);
            let j = choose|j: int|
                base.len() <= j < after.len() && (#[trigger] after[j]).0 == c;
            assert(after[j].0 == c);
        }
    }
}

} // verus!
