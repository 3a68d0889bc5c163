//! What holds of the library as a whole.

use crate::app::{applied_offsets, byte_diff};
use crate::candidates::{
    agrees, common_alignments, default_candidates, has_offset, scored_offsets, search_range,
    signed_offset, suggested, with_alignments, APPLIED_WINDOW, MAX_SIZE_DIFF_WINDOW,
    SAME_SIZE_WINDOW,
};
use crate::file::{FileSlot, FileView};
use crate::hexview::{
    can_lay_out, cell_at, differs, row_count, rows_show, total_places, HexCell, HexDisplayConfig,
    HexRow, MAX_DISPLAY_ROWS,
};
use crate::ranking::{
    all_scored, best, descending, is_ranking, lemma_ranked, lemma_ranking_is_unique, rank_in, ranked,
    MAX_CANDIDATES,
};
use crate::score::{
    advanced_match_score, aligned, count_equal, lemma_count_equal_bound, least, match_score,
    overlap, sampled, skipped_file, Score, SCORE_SAMPLE_SIZE,
};
use crate::state::{FileStateView, MAX_BYTES_PER_ROW, MIN_BYTES_PER_ROW};
use crate::text::{byte_text, digit_char, digits};
use crate::view::CentralView;
use std::path::PathBuf;
use vstd::prelude::*;

verus! {

/// All positions agree exactly if the sequences are the same.
proof fn lemma_count_equal_full(a: Seq<u8>, b: Seq<u8>)
    requires
        a.len() == b.len(),
    ensures
        count_equal(a, b) == a.len() <==> a == b,
    decreases a.len(),
{
    if a.len() == 0 {
        assert(a =~= b);
    } else {
        lemma_count_equal_full(a.drop_last(), b.drop_last());
        lemma_count_equal_bound(a.drop_last(), b.drop_last());
        assert(a =~= a.drop_last().push(a.last()));
        assert(b =~= b.drop_last().push(b.last()));
    }
}

/// No position agrees exactly if the sequences differ everywhere.
proof fn lemma_count_equal_none(a: Seq<u8>, b: Seq<u8>)
    requires
        a.len() == b.len(),
    ensures
        count_equal(a, b) == 0 <==> forall|i: int| 0 <= i < a.len() ==> a[i] != b[i],
    decreases a.len(),
{
    if a.len() > 0 {
        let (x, y) = (a.drop_last(), b.drop_last());
        lemma_count_equal_none(x, y);
        if count_equal(a, b) == 0 {
            assert forall|i: int| 0 <= i < a.len() implies a[i] != b[i] by {
                if i < x.len() {
                    assert(x[i] != y[i]);
                }
            }
        }
        if forall|i: int| 0 <= i < a.len() ==> a[i] != b[i] {
            assert forall|i: int| 0 <= i < x.len() implies x[i] != y[i] by {
                assert(a[i] != b[i]);
            }
            assert(a[a.len() - 1] != b[b.len() - 1]);
        }
    }
}

/// It does not matter which of two sequences comes first.
proof fn lemma_count_equal_symmetric(a: Seq<u8>, b: Seq<u8>)
    requires
        a.len() == b.len(),
    ensures
        count_equal(a, b) == count_equal(b, a),
    decreases a.len(),
{
    if a.len() > 0 {
        lemma_count_equal_symmetric(a.drop_last(), b.drop_last());
    }
}

/// A match score lies between zero and one. It is one exactly if there is
/// something to compare and all of it agrees, and zero exactly if none of it
/// does.
pub proof fn law_score_range(
    data_a: Seq<u8>,
    data_b: Seq<u8>,
    offset: int,
    offset_for_a: bool,
)
    requires
        0 <= offset <= skipped_file(data_a, data_b, offset_for_a).len(),
    ensures
        ({
            let score = match_score(data_a, data_b, offset, offset_for_a);
            let (a, b) = aligned(data_a, data_b, offset, offset_for_a);
            let n = least(SCORE_SAMPLE_SIZE as int, overlap(a, b));
            &&& score.wf()
            &&& score.matches == score.total <==> 0 < n && a.take(n) == b.take(n)
            &&& score.matches == 0 <==> forall|i: int| 0 <= i < n ==> a[i] != b[i]
        }),
{
    let (a, b) = aligned(data_a, data_b, offset, offset_for_a);
    let n = least(SCORE_SAMPLE_SIZE as int, overlap(a, b));
    let (x, y) = (a.take(n), b.take(n));
    lemma_count_equal_bound(x, y);
    lemma_count_equal_full(x, y);
    lemma_count_equal_none(x, y);
    if forall|i: int| 0 <= i < n ==> a[i] != b[i] {
        assert forall|i: int| 0 <= i < x.len() implies x[i] != y[i] by {
            assert(a[i] != b[i]);
        }
    }
    if forall|i: int| 0 <= i < x.len() ==> x[i] != y[i] {
        assert forall|i: int| 0 <= i < n implies a[i] != b[i] by {
            assert(x[i] != y[i]);
        }
    }
}

/// Moving file A of one pair scores like moving file B of the swapped pair.
pub proof fn law_score_is_symmetric(
    data_a: Seq<u8>,
    data_b: Seq<u8>,
    offset: int,
    offset_for_a: bool,
)
    requires
        0 <= offset <= skipped_file(data_a, data_b, offset_for_a).len(),
    ensures
        match_score(data_a, data_b, offset, offset_for_a) == match_score(
            data_b,
            data_a,
            offset,
            !offset_for_a,
        ),
{
    let (a, b) = aligned(data_a, data_b, offset, offset_for_a);
    let n = least(SCORE_SAMPLE_SIZE as int, overlap(a, b));
    lemma_count_equal_symmetric(a.take(n), b.take(n));
}

/// An advanced score over a plain window of the usual size is the match score.
pub proof fn law_advanced_score_generalises(
    data_a: Seq<u8>,
    data_b: Seq<u8>,
    offset: int,
    offset_for_a: bool,
)
    requires
        0 <= offset <= skipped_file(data_a, data_b, offset_for_a).len(),
    ensures
        advanced_match_score(
            data_a,
            data_b,
            offset,
            offset_for_a,
            SCORE_SAMPLE_SIZE as int,
            false,
        ) == match_score(data_a, data_b, offset, offset_for_a),
{
    let (a, b) = aligned(data_a, data_b, offset, offset_for_a);
    let n = least(SCORE_SAMPLE_SIZE as int, overlap(a, b));
    assert(sampled(a, 0, 1, n as nat) =~= a.take(n));
    assert(sampled(b, 0, 1, n as nat) =~= b.take(n));
}

/// At most [`MAX_CANDIDATES`] candidates are offered, by descending score; each
/// is one of those given, and none that is left out scores above one that is
/// offered.
pub proof fn law_best_are_offered(s: Seq<(i32, Score)>)
    requires
        all_scored(s),
    ensures
        best(s).len() == least(s.len() as int, MAX_CANDIDATES as int),
        all_scored(best(s)),
        descending(best(s)),
        forall|i: int| 0 <= i < best(s).len() ==> s.contains(#[trigger] best(s)[i]),
        forall|x: (i32, Score), i: int|
            #![trigger s.contains(x), best(s)[i]]
            s.contains(x) && !best(s).contains(x) && 0 <= i < best(s).len() ==> !x.1.above(
                best(s)[i].1,
            ),
        forall|x: (i32, Score)| #[trigger]
            s.contains(x) ==> !x.1.above(best(s)[0].1),
{
    lemma_ranked(s);
    let r = ranked(s);
    let out = best(s);
    assert forall|i: int| 0 <= i < out.len() implies s.contains(#[trigger] out[i]) by {
        assert(out[i] == r[i]);
        assert(r.contains(r[i]));
        lemma_same_members(r, s, r[i]);
    }
    assert forall|i: int| 0 <= i < out.len() implies (#[trigger] out[i]).1.wf() by {
        assert(out[i] == r[i]);
    }
    assert forall|x: (i32, Score), i: int|
        #![trigger s.contains(x), out[i]]
        s.contains(x) && !out.contains(x) && 0 <= i < out.len() implies !x.1.above(out[i].1) by {
        lemma_same_members(s, r, x);
        let k = r.index_of(x);
        assert(k >= out.len()) by {
            if k < out.len() {
                assert(out[k] == x);
            }
        }
        assert(out[i] == r[i]);
        assert(!r[k].1.above(r[i].1));
    }
    assert forall|x: (i32, Score)| #[trigger] s.contains(x) implies !x.1.above(out[0].1) by {
        lemma_same_members(s, r, x);
        let k = r.index_of(x);
        assert(out[0] == r[0]);
        if k > 0 {
            assert(!r[k].1.above(r[0].1));
        }
    }
}

/// Lists with the same items have the same members.
proof fn lemma_same_members(s: Seq<(i32, Score)>, t: Seq<(i32, Score)>, x: (i32, Score))
    requires
        s.to_multiset() == t.to_multiset(),
        s.contains(x),
    ensures
        t.contains(x),
{
    broadcast use vstd::seq_lib::group_to_multiset_ensures;

    assert(s.to_multiset().count(x) > 0);
    assert(t.to_multiset().count(x) > 0);
}

/// Any other way of ordering candidates by descending score that keeps those of
/// one score in the order given is the one that is used.
pub proof fn law_ranking_is_determined(s: Seq<(i32, Score)>, r: Seq<(i32, Score)>)
    requires
        all_scored(s),
        all_scored(r),
        is_ranking(s, r),
    ensures
        r == ranked(s),
{
    lemma_ranked(s);
    lemma_ranking_is_unique(s, r, ranked(s));
}

/// Scores within the bounds of a search are proper.
pub proof fn lemma_all_scored(data_a: Seq<u8>, data_b: Seq<u8>, offset_for_a: bool, n: int)
    requires
        0 <= n <= skipped_file(data_a, data_b, offset_for_a).len() + 1,
    ensures
        all_scored(scored_offsets(data_a, data_b, offset_for_a, n)),
{
    let s = scored_offsets(data_a, data_b, offset_for_a, n);
    assert forall|i: int| 0 <= i < s.len() implies (#[trigger] s[i]).1.wf() by {
        law_score_range(data_a, data_b, i, offset_for_a);
    }
}

/// What a filter keeps was there and passes it, and what was there and passes is
/// kept.
proof fn lemma_filter_members(s: Seq<(i32, Score)>)
    ensures
        forall|x: (i32, Score)| #[trigger]
            s.filter(agrees()).contains(x) <==> s.contains(x) && agrees()(x),
    decreases s.len(),
{
    reveal(Seq::filter);
    if s.len() > 0 {
        let rest = s.drop_last();
        let kept = rest.filter(agrees());
        lemma_filter_members(rest);
        assert forall|x: (i32, Score)| #[trigger]
            s.filter(agrees()).contains(x) <==> s.contains(x) && agrees()(x) by {
            if s.filter(agrees()).contains(x) {
                let k = s.filter(agrees()).index_of(x);
                if k < kept.len() {
                    assert(kept[k] == x);
                    assert(kept.contains(x));
                    let i = rest.index_of(x);
                    assert(s[i] == x);
                } else {
                    assert(s[s.len() - 1] == x);
                }
            }
            if s.contains(x) && agrees()(x) {
                let i = s.index_of(x);
                if i < rest.len() {
                    assert(rest[i] == x);
                    assert(rest.contains(x));
                    assert(kept.contains(x));
                    let k = kept.index_of(x);
                    assert(s.filter(agrees())[k] == x);
                } else {
                    assert(s.filter(agrees())[kept.len() as int] == x);
                }
            }
        }
    }
}

/// Candidates that were found are proper.
pub proof fn lemma_found(data_a: Seq<u8>, data_b: Seq<u8>, offset_for_a: bool, n: int)
    requires
        0 <= n <= skipped_file(data_a, data_b, offset_for_a).len() + 1,
    ensures
        ({
            let found = scored_offsets(data_a, data_b, offset_for_a, n).filter(agrees());
            &&& all_scored(found)
            &&& forall|i: int|
                0 <= i < found.len() ==> scored_offsets(data_a, data_b, offset_for_a, n).contains(
                    #[trigger] found[i],
                ) && found[i].1.matches > 0
        }),
{
    let s = scored_offsets(data_a, data_b, offset_for_a, n);
    let found = s.filter(agrees());
    lemma_all_scored(data_a, data_b, offset_for_a, n);
    lemma_filter_members(s);
    assert forall|i: int| 0 <= i < found.len() implies s.contains(#[trigger] found[i])
        && found[i].1.matches > 0 && found[i].1.wf() by {
        assert(found.contains(found[i]));
        let k = s.index_of(found[i]);
        assert(s[k].1.wf());
    }
}

/// At most five offsets are suggested, the best score first. Each is an offset
/// that was tried, with its score, which is not zero; or else nothing agreed
/// anywhere, and the difference in size is suggested.
pub proof fn law_suggestions(
    data_a: Seq<u8>,
    data_b: Seq<u8>,
    search_window: int,
    offset_for_a: bool,
)
    requires
        0 <= search_window,
    ensures
        ({
            let s = suggested(data_a, data_b, search_window, offset_for_a);
            let n = search_range(data_a, data_b, search_window, offset_for_a);
            let tried = scored_offsets(data_a, data_b, offset_for_a, n);
            &&& s.len() <= MAX_CANDIDATES
            &&& all_scored(s)
            &&& descending(s)
            &&& (forall|i: int|
                0 <= i < s.len() ==> tried.contains(#[trigger] s[i]) && s[i].1.matches > 0) || (
            s == default_candidates(data_a, data_b, offset_for_a) && forall|offset: int|
                0 <= offset < n ==> (#[trigger] match_score(
                    data_a,
                    data_b,
                    offset,
                    offset_for_a,
                )).matches == 0)
        }),
{
    let s = suggested(data_a, data_b, search_window, offset_for_a);
    let n = search_range(data_a, data_b, search_window, offset_for_a);
    let tried = scored_offsets(data_a, data_b, offset_for_a, n);
    let found = tried.filter(agrees());
    let defaults = default_candidates(data_a, data_b, offset_for_a);
    lemma_found(data_a, data_b, offset_for_a, n);
    if found.len() == 0 {
        law_best_are_offered(defaults);
        assert(ranked(defaults) =~= defaults) by {
            reveal_with_fuel(ranked, 2);
            reveal_with_fuel(rank_in, 2);
        }
        lemma_filter_members(tried);
        assert forall|offset: int| 0 <= offset < n implies (#[trigger] match_score(
            data_a,
            data_b,
            offset,
            offset_for_a,
        )).matches == 0 by {
            assert(tried.contains(tried[offset]));
            assert(!found.contains(tried[offset]));
        }
    } else {
        law_best_are_offered(found);
        assert forall|i: int| 0 <= i < s.len() implies tried.contains(#[trigger] s[i])
            && s[i].1.matches > 0 by {
            assert(found.contains(s[i]));
            let k = found.index_of(s[i]);
            assert(tried.contains(found[k]));
        }
    }
}

/// The first suggestion matches at least as well as every offset that was tried.
pub proof fn law_first_suggestion_is_best(
    data_a: Seq<u8>,
    data_b: Seq<u8>,
    search_window: int,
    offset_for_a: bool,
    offset: int,
)
    requires
        0 <= offset < search_range(data_a, data_b, search_window, offset_for_a),
        match_score(data_a, data_b, offset, offset_for_a).matches > 0,
    ensures
        suggested(data_a, data_b, search_window, offset_for_a).len() > 0,
        !match_score(data_a, data_b, offset, offset_for_a).above(
            suggested(data_a, data_b, search_window, offset_for_a)[0].1,
        ),
{
    let n = search_range(data_a, data_b, search_window, offset_for_a);
    let tried = scored_offsets(data_a, data_b, offset_for_a, n);
    let found = tried.filter(agrees());
    lemma_found(data_a, data_b, offset_for_a, n);
    lemma_filter_members(tried);
    assert(tried.contains(tried[offset]));
    assert(found.contains(tried[offset]));
    law_best_are_offered(found);
}

/// At most five offsets are suggested for two files, the best score first.
pub proof fn law_all_suggestions(state: FileStateView)
    requires
        state.wf(),
    ensures
        state.all_suggested().len() <= MAX_CANDIDATES,
        all_scored(state.all_suggested()),
        descending(state.all_suggested()),
{
    if let Some((data_a, data_b)) = state.contents() {
        match state.size_diff() {
            Some((diff, a_larger)) => {
                let window = least(diff as int, MAX_SIZE_DIFF_WINDOW as int);
                law_suggestions(data_a, data_b, window, !a_larger);
            },
            None => {
                let window = SAME_SIZE_WINDOW as int;
                let of_a = suggested(data_a, data_b, window, true);
                let of_b = suggested(data_a, data_b, window, false);
                law_suggestions(data_a, data_b, window, true);
                law_suggestions(data_a, data_b, window, false);
                assert(all_scored(of_a + of_b));
                law_best_are_offered(of_a + of_b);
            },
        }
    } else {
        let none = Seq::<(i32, Score)>::empty();
        assert(none + none =~= none);
        law_best_are_offered(none);
    }
}

/// A candidate that is not above the first of a ranked list leaves it first.
proof fn lemma_rank_in_keeps_first(r: Seq<(i32, Score)>, c: (i32, Score))
    requires
        r.len() > 0,
        !c.1.above(r[0].1),
    ensures
        rank_in(r, c).len() > 0,
        rank_in(r, c)[0] == r[0],
    decreases r.len(),
{
    if c.1.above(r.last().1) {
        assert(r.len() > 1);
        lemma_rank_in_keeps_first(r.drop_last(), c);
    }
}

/// The first of the candidates is ranked first, if none is above it.
proof fn lemma_first_stays_first(s: Seq<(i32, Score)>)
    requires
        s.len() > 0,
        forall|i: int| 0 <= i < s.len() ==> !(#[trigger] s[i]).1.above(s[0].1),
    ensures
        ranked(s).len() > 0,
        ranked(s)[0] == s[0],
    decreases s.len(),
{
    if s.len() == 1 {
        reveal_with_fuel(ranked, 2);
        assert(ranked(s) =~= s);
    } else {
        let rest = s.drop_last();
        assert forall|i: int| 0 <= i < rest.len() implies !(#[trigger] rest[i]).1.above(
            rest[0].1,
        ) by {
            assert(rest[i] == s[i]);
        }
        lemma_first_stays_first(rest);
        assert(!s[s.len() - 1].1.above(s[0].1));
        lemma_rank_in_keeps_first(ranked(rest), s.last());
    }
}

/// Nothing scores above a full match.
proof fn lemma_full_match_is_highest(x: Score, full: Score)
    requires
        x.wf(),
        full.matches == full.total,
    ensures
        !x.above(full),
{
    let (m, t, n) = (x.matches as int, x.total as int, full.total as int);
    assert(m * n <= n * t) by (nonlinear_arith)
        requires
            m <= t,
            0 <= n,
    ;
}

/// If the files match fully without being moved, that is suggested first.
pub proof fn law_unmoved_match_comes_first(
    data_a: Seq<u8>,
    data_b: Seq<u8>,
    search_window: int,
    offset_for_a: bool,
)
    requires
        0 < search_window,
        match_score(data_a, data_b, 0, offset_for_a).matches == match_score(
            data_a,
            data_b,
            0,
            offset_for_a,
        ).total,
    ensures
        suggested(data_a, data_b, search_window, offset_for_a).len() > 0,
        suggested(data_a, data_b, search_window, offset_for_a)[0] == (
            0i32,
            match_score(data_a, data_b, 0, offset_for_a),
        ),
{
    let n = search_range(data_a, data_b, search_window, offset_for_a);
    let tried = scored_offsets(data_a, data_b, offset_for_a, n);
    let found = tried.filter(agrees());
    law_score_range(data_a, data_b, 0, offset_for_a);
    lemma_found(data_a, data_b, offset_for_a, n);
    lemma_filter_keeps_first(tried);
    assert forall|i: int| 0 <= i < found.len() implies !(#[trigger] found[i]).1.above(
        found[0].1,
    ) by {
        lemma_full_match_is_highest(found[i].1, found[0].1);
    }
    lemma_first_stays_first(found);
    lemma_ranked(found);
}

/// A filter that the first item passes keeps it first.
proof fn lemma_filter_keeps_first(s: Seq<(i32, Score)>)
    requires
        s.len() > 0,
        agrees()(s[0]),
    ensures
        s.filter(agrees()).len() > 0,
        s.filter(agrees())[0] == s[0],
    decreases s.len(),
{
    reveal(Seq::filter);
    if s.len() > 1 {
        lemma_filter_keeps_first(s.drop_last());
    } else {
        assert(s.drop_last().filter(agrees()) =~= Seq::empty());
    }
}

/// For two files with the same bytes, not moving them at all is suggested first,
/// with a full score.
pub proof fn law_same_files_stay_unmoved(state: FileStateView)
    requires
        state.wf(),
        state.contents() matches Some((data_a, data_b)) && data_a == data_b && data_a.len() > 0,
    ensures
        state.all_suggested().len() > 0,
        state.all_suggested()[0].0 == 0,
        state.all_suggested()[0].1.matches == state.all_suggested()[0].1.total,
{
    if let Some((data_a, data_b)) = state.contents() {
        let window = SAME_SIZE_WINDOW as int;
        let of_a = suggested(data_a, data_b, window, true);
        let of_b = suggested(data_a, data_b, window, false);
        let n = least(SCORE_SAMPLE_SIZE as int, data_a.len() as int);
        assert(data_a.skip(0) =~= data_a);
        law_score_range(data_a, data_b, 0, true);
        law_score_range(data_a, data_b, 0, false);
        law_unmoved_match_comes_first(data_a, data_b, window, true);
        law_suggestions(data_a, data_b, window, true);
        law_suggestions(data_a, data_b, window, false);
        let s = of_a + of_b;
        assert forall|i: int| 0 <= i < s.len() implies !(#[trigger] s[i]).1.above(s[0].1) by {
            if i < of_a.len() {
                assert(of_a[i].1.wf());
            } else {
                assert(of_b[i - of_a.len()].1.wf());
            }
            lemma_full_match_is_highest(s[i].1, s[0].1);
        }
        lemma_first_stays_first(s);
        assert(all_scored(s));
        lemma_ranked(s);
    }
}

/// What a full match is not above is a full match.
proof fn lemma_level_with_full_match(full: Score, x: Score)
    requires
        full.wf(),
        full.matches == full.total,
        x.wf(),
        !full.above(x),
    ensures
        x.matches == x.total,
{
    let (m, t, n) = (x.matches as int, x.total as int, full.total as int);
    assert(t <= m) by (nonlinear_arith)
        requires
            n * t <= m * n,
            0 < n,
    ;
}

/// If the files match fully at an offset that is tried, a full match is suggested
/// first. Tried are, of files that differ in size, the offsets of the smaller one
/// up to the difference; of files of one size, the offsets of either.
pub proof fn law_full_match_is_suggested(state: FileStateView, offset: int, offset_for_a: bool)
    requires
        state.wf(),
        state.contents() matches Some((data_a, data_b)) && {
            let window = match state.size_diff() {
                Some((diff, _)) => least(diff as int, MAX_SIZE_DIFF_WINDOW as int),
                None => SAME_SIZE_WINDOW as int,
            };
            let score = match_score(data_a, data_b, offset, offset_for_a);
            &&& 0 <= offset < search_range(data_a, data_b, window, offset_for_a)
            &&& state.size_diff() matches Some((_, a_larger)) ==> offset_for_a == !a_larger
            &&& score.matches == score.total
        },
    ensures
        state.all_suggested().len() > 0,
        state.all_suggested()[0].1.matches == state.all_suggested()[0].1.total,
{
    if let Some((data_a, data_b)) = state.contents() {
        let score = match_score(data_a, data_b, offset, offset_for_a);
        law_all_suggestions(state);
        match state.size_diff() {
            Some((diff, a_larger)) => {
                let window = least(diff as int, MAX_SIZE_DIFF_WINDOW as int);
                law_score_range(data_a, data_b, offset, offset_for_a);
                law_first_suggestion_is_best(data_a, data_b, window, offset_for_a, offset);
                lemma_level_with_full_match(score, state.all_suggested()[0].1);
            },
            None => {
                let window = SAME_SIZE_WINDOW as int;
                let of_a = suggested(data_a, data_b, window, true);
                let of_b = suggested(data_a, data_b, window, false);
                let s = of_a + of_b;
                law_score_range(data_a, data_b, offset, offset_for_a);
                law_suggestions(data_a, data_b, window, true);
                law_suggestions(data_a, data_b, window, false);
                law_first_suggestion_is_best(data_a, data_b, window, offset_for_a, offset);
                let first = if offset_for_a {
                    of_a[0]
                } else {
                    of_b[0]
                };
                assert(s[if offset_for_a {
                    0
                } else {
                    of_a.len() as int
                }] == first);
                lemma_level_with_full_match(score, first.1);
                assert(all_scored(s));
                law_best_are_offered(s);
                assert(s.contains(first));
                lemma_level_with_full_match(first.1, state.all_suggested()[0].1);
            },
        }
    }
}

/// After an offset was applied, at most five offsets are suggested, the best
/// score first.
pub proof fn law_suggestions_after_applying(state: FileStateView)
    requires
        state.wf(),
    ensures
        state.size_diff() matches Some((_, a_larger)) ==> {
            &&& state.suggested(APPLIED_WINDOW as int, a_larger).len() <= MAX_CANDIDATES
            &&& all_scored(state.suggested(APPLIED_WINDOW as int, a_larger))
            &&& descending(state.suggested(APPLIED_WINDOW as int, a_larger))
        },
{
    if let (Some((_, a_larger)), Some((data_a, data_b))) = (state.size_diff(), state.contents()) {
        law_suggestions(data_a, data_b, APPLIED_WINDOW as int, a_larger);
    }
}

/// Applying a suggestion for files that differ in size puts side by side what its
/// score compared: the bytes that agree or differ there stand in one place of the
/// hex view.
pub proof fn law_applied_suggestion_lines_up(
    state: FileStateView,
    offset: int,
    offset_for_a: bool,
    highlight_diffs: bool,
    k: int,
)
    requires
        state.wf(),
        state.size_diff() is Some,
        0 <= offset <= i32::MAX,
        state.contents() matches Some((data_a, data_b)) && {
            let (a, b) = aligned(data_a, data_b, offset, offset_for_a);
            &&& offset <= skipped_file(data_a, data_b, offset_for_a).len()
            &&& 0 <= k < overlap(a, b)
        },
    ensures
        state.contents() matches Some((data_a, data_b)) && {
            let (a, b) = aligned(data_a, data_b, offset, offset_for_a);
            let moved = state.applied(state.lining_offset(signed_offset(offset, offset_for_a)));
            let (offset_a, offset_b) = (moved.offset_a as int, moved.offset_b as int);
            let place = k + offset;
            &&& cell_at(data_a, offset_a, highlight_diffs, data_b, offset_b, place)
                == HexCell::Byte { byte: a[k], is_diff: highlight_diffs && a[k] != b[k] }
            &&& cell_at(data_b, offset_b, highlight_diffs, data_a, offset_a, place)
                == HexCell::Byte { byte: b[k], is_diff: highlight_diffs && a[k] != b[k] }
        },
{
}

/// An offset that is not negative skips the head of the larger file: its bytes
/// from there on stand beside those of the smaller file from the start on, and
/// nothing of the smaller file stands beside the head. A negative offset skips
/// the head of the smaller file in the same way.
pub proof fn law_offset_skips_a_head(
    larger: Seq<u8>,
    smaller: Seq<u8>,
    offset: i32,
    a_larger: bool,
    highlight_diffs: bool,
    k: int,
)
    requires
        offset > i32::MIN,
        0 <= k,
    ensures
        ({
            let (offset_a, offset_b) = applied_offsets(offset, a_larger);
            let (down_larger, down_smaller) = if a_larger {
                (offset_a as int, offset_b as int)
            } else {
                (offset_b as int, offset_a as int)
            };
            let head = if offset >= 0 {
                offset as int
            } else {
                -offset
            };
            let (skipped, other, down_skipped, down_other) = if offset >= 0 {
                (larger, smaller, down_larger, down_smaller)
            } else {
                (smaller, larger, down_smaller, down_larger)
            };
            &&& k < head ==> cell_at(
                other,
                down_other,
                highlight_diffs,
                skipped,
                down_skipped,
                k,
            ) == HexCell::Placeholder
            &&& k < skipped.len() ==> (cell_at(
                skipped,
                down_skipped,
                highlight_diffs,
                other,
                down_other,
                k,
            ) matches HexCell::Byte { byte, .. } && byte == skipped[k])
            &&& k < other.len() ==> (cell_at(
                other,
                down_other,
                highlight_diffs,
                skipped,
                down_skipped,
                head + k,
            ) matches HexCell::Byte { byte, .. } && byte == other[k])
        }),
{
}

/// Applying a candidate moves one file at most, by the size of the offset.
pub proof fn law_one_file_is_moved(offset: i32, a_larger: bool)
    requires
        offset > i32::MIN,
    ensures
        applied_offsets(offset, a_larger).0 == 0 || applied_offsets(offset, a_larger).1 == 0,
        applied_offsets(offset, a_larger).0 + applied_offsets(offset, a_larger).1 == if offset
            >= 0 {
            offset as int
        } else {
            -offset
        },
{
}

/// Applying a candidate again changes nothing more.
pub proof fn law_applying_again_changes_nothing(state: FileStateView, offset: i32)
    ensures
        state.applied(offset).applied(offset) == state.applied(offset),
        state.applied(offset).contents() == state.contents(),
        state.applied(offset).size_diff() == state.size_diff(),
{
}

/// Two files differ nowhere exactly if they hold the same bytes.
pub proof fn law_no_difference_means_same(data_a: Seq<u8>, data_b: Seq<u8>)
    ensures
        (forall|i: int| 0 <= i ==> !#[trigger] differs(data_a, i, data_b, i)) <==> data_a
            == data_b,
{
    if forall|i: int| 0 <= i ==> !#[trigger] differs(data_a, i, data_b, i) {
        assert(!differs(data_a, data_a.len() as int, data_b, data_a.len() as int));
        assert forall|i: int| 0 <= i < data_a.len() implies data_a[i] == data_b[i] by {
            assert(!differs(data_a, i, data_b, i));
        }
        assert(data_a =~= data_b);
    }
}

/// The stored differences tell of each position that both files have whether it
/// is a difference, and do not depend on which file is called A.
pub proof fn law_stored_differences(data_a: Seq<u8>, data_b: Seq<u8>)
    ensures
        byte_diff(data_a, data_b).len() == overlap(data_a, data_b),
        forall|i: int|
            0 <= i < overlap(data_a, data_b) ==> #[trigger] byte_diff(data_a, data_b)[i]
                == differs(data_a, i, data_b, i),
        byte_diff(data_a, data_b) == byte_diff(data_b, data_a),
{
    assert(byte_diff(data_a, data_b) =~= byte_diff(data_b, data_a));
}

/// Where both files show a byte in one place, either both bytes are highlighted
/// or none is; both are exactly if they differ and highlighting is on.
pub proof fn law_highlights_are_paired(
    data_a: Seq<u8>,
    offset_a: int,
    data_b: Seq<u8>,
    offset_b: int,
    highlight_diffs: bool,
    i: int,
)
    requires
        0 <= offset_a <= i < offset_a + data_a.len(),
        0 <= offset_b <= i < offset_b + data_b.len(),
    ensures
        ({
            let (a, b) = (data_a[i - offset_a], data_b[i - offset_b]);
            let is_diff = highlight_diffs && a != b;
            &&& cell_at(data_a, offset_a, highlight_diffs, data_b, offset_b, i) == HexCell::Byte {
                byte: a,
                is_diff,
            }
            &&& cell_at(data_b, offset_b, highlight_diffs, data_a, offset_a, i) == HexCell::Byte {
                byte: b,
                is_diff,
            }
        }),
{
}

/// Of two files that are not moved, the bytes of the longer one behind the end
/// of the other are differences.
pub proof fn law_surplus_is_highlighted(data_a: Seq<u8>, data_b: Seq<u8>, i: int)
    requires
        data_b.len() <= i < data_a.len(),
    ensures
        cell_at(data_a, 0, true, data_b, 0, i) == (HexCell::Byte {
            byte: data_a[i],
            is_diff: true,
        }),
        cell_at(data_b, 0, true, data_a, 0, i) == HexCell::Missing,
{
}

/// A byte that stands beside a placeholder is held against the first byte of the
/// other file, if that has one.
pub proof fn law_bytes_beside_placeholders(
    data: Seq<u8>,
    offset: int,
    other: Seq<u8>,
    other_offset: int,
    i: int,
)
    requires
        0 <= offset <= i < offset + data.len(),
        i < other_offset,
        other.len() > 0,
    ensures
        cell_at(other, other_offset, true, data, offset, i) == HexCell::Placeholder,
        cell_at(data, offset, true, other, other_offset, i) == (HexCell::Byte {
            byte: data[i - offset],
            is_diff: data[i - offset] != other[0],
        }),
{
}

/// While highlighting is off, nothing is highlighted.
pub proof fn law_highlighting_can_be_off(
    data: Seq<u8>,
    offset: int,
    other: Seq<u8>,
    other_offset: int,
    i: int,
)
    ensures
        !(cell_at(data, offset, false, other, other_offset, i) matches HexCell::Byte {
            is_diff: true,
            ..
        }),
{
}

/// Every place of the hex view is shown in its row and column, as far as there
/// are rows for it, and there are no more than [`MAX_DISPLAY_ROWS`].
pub proof fn law_every_place_is_shown(
    rows: Seq<HexRow>,
    config: HexDisplayConfig,
    data_a: Seq<u8>,
    data_b: Seq<u8>,
    i: int,
)
    requires
        0 < config.bytes_per_row,
        rows_show(rows, config, data_a, data_b),
        0 <= i < total_places(config, data_a.len() as int, data_b.len() as int),
        i < MAX_DISPLAY_ROWS * config.bytes_per_row,
    ensures
        rows.len() <= MAX_DISPLAY_ROWS,
        ({
            let (row, column) = (
                i / config.bytes_per_row as int,
                i % config.bytes_per_row as int,
            );
            &&& 0 <= row < rows.len()
            &&& 0 <= column < rows[row].cells_a@.len()
            &&& 0 <= column < rows[row].cells_b@.len()
            &&& rows[row].cells_a@[column] == cell_at(
                data_a,
                config.offset_a as int,
                config.highlight_diffs,
                data_b,
                config.offset_b as int,
                i,
            )
            &&& rows[row].cells_b@[column] == cell_at(
                data_b,
                config.offset_b as int,
                config.highlight_diffs,
                data_a,
                config.offset_a as int,
                i,
            )
        }),
{
    let width = config.bytes_per_row as int;
    let total = total_places(config, data_a.len() as int, data_b.len() as int);
    let row = i / width;
    let column = i % width;
    let needed = (total + width - 1) / width;
    let rest = (total + width - 1) % width;
    vstd::arithmetic::div_mod::lemma_fundamental_div_mod(i, width);
    vstd::arithmetic::div_mod::lemma_fundamental_div_mod(total + width - 1, width);
    assert(0 <= row < needed) by (nonlinear_arith)
        requires
            i == width * row + column,
            0 <= column < width,
            total + width - 1 == width * needed + rest,
            0 <= rest < width,
            0 <= i < total,
    ;
    assert(row < MAX_DISPLAY_ROWS) by (nonlinear_arith)
        requires
            i == width * row + column,
            0 <= column,
            0 < width,
            i < MAX_DISPLAY_ROWS * width,
    ;
    assert(row * width == width * row) by (nonlinear_arith);
    assert(rows[row].shows(
        config,
        data_a,
        data_b,
        row * width,
        least(row * width + width, total),
    ));
}

/// Every row width that can be chosen lays out files of any size.
pub proof fn law_row_widths_fit(total: int, bytes_per_row: usize)
    requires
        0 <= total,
        MIN_BYTES_PER_ROW <= bytes_per_row <= MAX_BYTES_PER_ROW,
    ensures
        can_lay_out(total, bytes_per_row),
{
    let width = bytes_per_row as int;
    vstd::arithmetic::div_mod::lemma_div_pos_is_pos(total + width - 1, width);
    let count = row_count(total, width);
    assert(count * width <= 1000 * 32) by (nonlinear_arith)
        requires
            0 <= count <= 1000,
            0 <= width <= 32,
    ;
}

/// The sizes of the files agree with their bytes at first, and stay so as files
/// are chosen, their bytes arrive or become unreadable, and they are moved.
pub proof fn law_sizes_stay_true(
    state: FileStateView,
    slot: FileSlot,
    file: FileView,
    path: PathBuf,
    bytes: Seq<u8>,
    offset_a: usize,
    offset_b: usize,
)
    requires
        state.wf(),
        file.wf(),
        bytes.len() <= usize::MAX,
    ensures
        FileStateView::empty().wf(),
        FileView::unread(path).wf(),
        file.with_content(bytes).wf(),
        (FileView { content: None, ..file }).wf(),
        state.with_file(slot, file).wf(),
        state.with_offsets(offset_a, offset_b).wf(),
{
}

/// Bytes that have arrived are read back as they came, as long as they can be
/// read at all.
pub proof fn law_read_gives_back_what_arrived(file: FileView, bytes: Seq<u8>)
    requires
        file.content is Some,
        bytes.len() <= usize::MAX,
    ensures
        file.with_content(bytes).content == Some(bytes),
        file.with_content(bytes).size == bytes.len(),
        file.with_content(bytes).ready,
        file.with_content(bytes).path == file.path,
{
}

/// Choosing a file leaves the other slot and the offsets alone, and the files
/// are not compared before the bytes of the new one have arrived.
pub proof fn law_new_file_is_awaited(state: FileStateView, slot: FileSlot, path: PathBuf)
    ensures
        ({
            let after = state.with_file(slot, FileView::unread(path));
            let other = if slot == FileSlot::A {
                FileSlot::B
            } else {
                FileSlot::A
            };
            &&& after.file(slot) == Some(FileView::unread(path))
            &&& after.file(other) == state.file(other)
            &&& after.offset_a == state.offset_a && after.offset_b == state.offset_b
            &&& !after.both_ready()
            &&& after.central_view() != CentralView::Comparison
        }),
{
}

/// No two candidates have the same offset.
pub open spec fn distinct_offsets(s: Seq<(i32, Score)>) -> bool {
    forall|i: int, j: int| 0 <= i < j < s.len() ==> (#[trigger] s[i]).0 != (#[trigger] s[j]).0
}

/// Alignments come behind the candidates that are there, and repeat no offset. The
/// difference in size, which is added before them, may repeat one.
pub proof fn law_alignments_repeat_nothing(
    candidates: Seq<(i32, Score)>,
    data_a: Seq<u8>,
    data_b: Seq<u8>,
    offset_for_a: bool,
    search_range: int,
    n: int,
)
    requires
        0 <= n <= common_alignments().len(),
    ensures
        ({
            let after = with_alignments(
                candidates,
                data_a,
                data_b,
                offset_for_a,
                search_range,
                n,
            );
            &&& candidates.is_prefix_of(after)
            &&& distinct_offsets(candidates) ==> distinct_offsets(after)
        }),
    decreases n,
{
    if n > 0 {
        law_alignments_repeat_nothing(
            candidates,
            data_a,
            data_b,
            offset_for_a,
            search_range,
            n - 1,
        );
        let before = with_alignments(
            candidates,
            data_a,
            data_b,
            offset_for_a,
            search_range,
            n - 1,
        );
        let after = with_alignments(candidates, data_a, data_b, offset_for_a, search_range, n);
        if after != before {
            assert(candidates =~= after.take(candidates.len() as int));
            if distinct_offsets(before) {
                assert forall|i: int, j: int| 0 <= i < j < after.len() implies (
                #[trigger] after[i]).0 != (#[trigger] after[j]).0 by {
                    if j == after.len() - 1 {
                        assert(before[i] == after[i]);
                        assert(!has_offset(before, after[j].0));
                    } else {
                        assert(before[i] == after[i] && before[j] == after[j]);
                    }
                }
            }
        }
    }
}

/// A byte is written with two digits, its upper half first.
pub proof fn law_byte_text(byte: u8)
    ensures
        byte_text(byte) == seq![digit_char(byte as int / 16), digit_char(byte as int % 16)],
{
    reveal_with_fuel(digits, 2);
    assert(byte_text(byte) =~= seq![
        digit_char(byte as int / 16),
        digit_char(byte as int % 16),
    ]);
}

} // verus!
