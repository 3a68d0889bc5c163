//! What scores mean: the number of positions at which the files agree, among
//! those that are compared.

use crate::score::{
    advanced_match_score, aligned, context_score, count_equal, match_score, overlap, sampled, Score,
};
use vstd::prelude::*;

verus! {

/// The agreeing positions are counted one by one.
proof fn lemma_count_is_len(a: Seq<u8>, b: Seq<u8>)
    requires
        a.len() == b.len(),
    ensures
        Set::new(|i: int| 0 <= i < a.len() && a[i] == b[i]).finite(),
        count_equal(a, b) == Set::new(|i: int| 0 <= i < a.len() && a[i] == b[i]).len(),
    decreases a.len(),
{
    let all = Set::new(|i: int| 0 <= i < a.len() && a[i] == b[i]);
    if a.len() == 0 {
        assert(all =~= Set::empty());
    } else {
        let (x, y) = (a.drop_last(), b.drop_last());
        let before = Set::new(|i: int| 0 <= i < x.len() && x[i] == y[i]);
        lemma_count_is_len(x, y);
        if a.last() == b.last() {
            assert(all =~= before.insert(a.len() - 1));
        } else {
            assert(all =~= before);
        }
    }
}

/// A match score is the number of positions that agree over the number compared:
/// the first 256 that both files have, when the first `offset` bytes of one of
/// them are skipped. It is nothing out of one where there is no such position.
pub proof fn law_match_score_counts_agreement(
    data_a: Seq<u8>,
    data_b: Seq<u8>,
    offset: int,
    offset_for_a: bool,
)
    requires
        0 <= offset,
        offset_for_a ==> offset <= data_a.len(),
        !offset_for_a ==> offset <= data_b.len(),
    ensures
        ({
            let score = match_score(data_a, data_b, offset, offset_for_a);
            let from_a: int = if offset_for_a { offset } else { 0 };
            let from_b: int = if offset_for_a { 0 } else { offset };
            let rest_a = data_a.len() - from_a;
            let rest_b = data_b.len() - from_b;
            let common = if rest_a <= rest_b { rest_a } else { rest_b };
            let n = if common <= 256 { common } else { 256 };
            &&& n == 0 ==> score.matches == 0 && score.total == 1
            &&& n > 0 ==> score.total == n
            &&& n > 0 ==> score.matches == Set::new(
                |i: int| 0 <= i < n && data_a[from_a + i] == data_b[from_b + i],
            ).len()
        }),
{
    let from_a: int = if offset_for_a { offset } else { 0 };
    let from_b: int = if offset_for_a { 0 } else { offset };
    let (a, b) = aligned(data_a, data_b, offset, offset_for_a);
    let common = overlap(a, b);
    let n = if common <= 256 { common } else { 256 };
    let (x, y) = (a.take(n), b.take(n));
    lemma_count_is_len(x, y);
    assert(Set::new(|i: int| 0 <= i < x.len() && x[i] == y[i]) =~= Set::new(
        |i: int| 0 <= i < n && data_a[from_a + i] == data_b[from_b + i],
    ));
    crate::score::lemma_count_equal_bound(x, y);
}

/// An advanced score is the number of samples that agree over the number taken:
/// as many as the window has or the files have in common, `step` apart. Samples
/// are spread evenly over a common part of more than four windows, if that is
/// asked for, and stand side by side otherwise.
pub proof fn law_advanced_score_counts_agreement(
    data_a: Seq<u8>,
    data_b: Seq<u8>,
    offset: int,
    offset_for_a: bool,
    window_size: int,
    use_sampling: bool,
)
    requires
        0 <= offset,
        0 <= window_size,
        data_a.len() <= usize::MAX,
    ensures
        ({
            let score = advanced_match_score(
                data_a,
                data_b,
                offset,
                offset_for_a,
                window_size,
                use_sampling,
            );
            let from_a: int = if offset_for_a { offset } else { 0 };
            let from_b: int = if offset_for_a { 0 } else { offset };
            let rest_a = data_a.len() - from_a;
            let rest_b = data_b.len() - from_b;
            let common = if rest_a <= rest_b { rest_a } else { rest_b };
            let n = if window_size <= common { window_size } else { common };
            let step = if use_sampling && common > 4 * n { common / n } else { 1 };
            &&& n <= 0 ==> score.matches == 0 && score.total == 1
            &&& n > 0 ==> score.total == n
            &&& n > 0 ==> score.matches == Set::new(
                |k: int| 0 <= k < n && data_a[from_a + k * step] == data_b[from_b + k * step],
            ).len()
        }),
{
    let from_a: int = if offset_for_a { offset } else { 0 };
    let from_b: int = if offset_for_a { 0 } else { offset };
    let rest_a = data_a.len() - from_a;
    let rest_b = data_b.len() - from_b;
    let common = if rest_a <= rest_b { rest_a } else { rest_b };
    let n = if window_size <= common { window_size } else { common };
    let step = if use_sampling && common > 4 * n { common / n } else { 1 };
    if n > 0 {
        let (a, b) = aligned(data_a, data_b, offset, offset_for_a);
        let x = sampled(a, 0, step, n as nat);
        let y = sampled(b, 0, step, n as nat);
        lemma_count_is_len(x, y);
        crate::score::lemma_count_equal_bound(x, y);
        let rest = if step == 1 { 0 } else { common % n };
        if step != 1 {
            vstd::arithmetic::div_mod::lemma_fundamental_div_mod(common, n);
        }
        let want = Set::new(
            |k: int| 0 <= k < n && data_a[from_a + k * step] == data_b[from_b + k * step],
        );
        let have = Set::new(|i: int| 0 <= i < x.len() && x[i] == y[i]);
        assert forall|k: int| 0 <= k < n implies x[k] == data_a[from_a + k * step] && y[k]
            == data_b[from_b + k * step] by {
            assert(0 <= k * step < common) by (nonlinear_arith)
                requires
                    0 <= k < n,
                    step == 1 || (common == n * step + rest && 0 <= rest < n && common > 4 * n),
                    n <= common,
            ;
            assert(0 + k * step == k * step);
        }
        assert forall|k: int| have.contains(k) <==> want.contains(k) by {}
        assert(have =~= want);
    }
}

/// A context score is the number of positions that agree among the first and the
/// last 32 that the files have in common, over 64; nothing out of one where they
/// have fewer than 64 in common.
pub proof fn law_context_score_counts_agreement(
    data_a: Seq<u8>,
    data_b: Seq<u8>,
    offset: int,
    offset_for_a: bool,
)
    requires
        0 <= offset,
    ensures
        ({
            let score = context_score(data_a, data_b, offset, offset_for_a);
            let from_a: int = if offset_for_a { offset } else { 0 };
            let from_b: int = if offset_for_a { 0 } else { offset };
            let rest_a = data_a.len() - from_a;
            let rest_b = data_b.len() - from_b;
            let common = if rest_a <= rest_b { rest_a } else { rest_b };
            &&& common < 64 ==> score.matches == 0 && score.total == 1
            &&& common >= 64 ==> score.total == 64
            &&& common >= 64 ==> score.matches == Set::new(
                |i: int|
                    (0 <= i < 32 || common - 32 <= i < common) && data_a[from_a + i]
                        == data_b[from_b + i],
            ).len()
        }),
{
    let from_a: int = if offset_for_a { offset } else { 0 };
    let from_b: int = if offset_for_a { 0 } else { offset };
    let rest_a = data_a.len() - from_a;
    let rest_b = data_b.len() - from_b;
    let common = if rest_a <= rest_b { rest_a } else { rest_b };
    if common >= 64 {
        let (a, b) = aligned(data_a, data_b, offset, offset_for_a);
        let (x, y) = (a.take(32), b.take(32));
        let (u, v) = (a.subrange(common - 32, common), b.subrange(common - 32, common));
        lemma_count_is_len(x, y);
        lemma_count_is_len(u, v);
        crate::score::lemma_count_equal_bound(x, y);
        crate::score::lemma_count_equal_bound(u, v);
        let both = x + u;
        let other = y + v;
        lemma_count_equal_concat(x, y, u, v);
        lemma_count_is_len(both, other);
        let from = Set::new(|i: int| 0 <= i < both.len() && both[i] == other[i]);
        let want = Set::new(
            |i: int|
                (0 <= i < 32 || common - 32 <= i < common) && data_a[from_a + i] == data_b[from_b
                    + i],
        );
        let place = |i: int| if i < 32 { i } else { i - 32 + (common - 32) };
        assert forall|i: int, j: int| from.contains(i) && from.contains(j) && place(i) == place(
            j,
        ) implies i == j by {}
        assert(want =~= from.map(place)) by {
            assert forall|t: int| want.contains(t) implies from.map(place).contains(t) by {
                let i = if t < 32 { t } else { t - (common - 32) + 32 };
                assert(from.contains(i));
                assert(place(i) == t);
            }
            assert forall|t: int| from.map(place).contains(t) implies want.contains(t) by {
                let i = choose|i: int| from.contains(i) && place(i) == t;
                assert(from.contains(i));
            }
        }
        vstd::set_lib::lemma_map_size(from, want, place);
    }
}

/// The agreeing positions of a whole are those of its parts.
proof fn lemma_count_equal_concat(x: Seq<u8>, y: Seq<u8>, u: Seq<u8>, v: Seq<u8>)
    requires
        x.len() == y.len(),
        u.len() == v.len(),
    ensures
        count_equal(x + u, y + v) == count_equal(x, y) + count_equal(u, v),
    decreases u.len(),
{
    if u.len() == 0 {
        assert(x + u =~= x);
        assert(y + v =~= y);
    } else {
        lemma_count_equal_concat(x, y, u.drop_last(), v.drop_last());
        assert((x + u).drop_last() =~= x + u.drop_last());
        assert((y + v).drop_last() =~= y + v.drop_last());
    }
}

/// One score is above another exactly if its ratio is greater, and level with it
/// exactly if the ratios are equal; of two scores one is above the other or they
/// are level. A proper score is a ratio from nothing to one.
pub proof fn law_scores_compare_as_ratios(x: Score, y: Score)
    ensures
        x.wf() <==> 0 < x.total && x.matches <= x.total,
        x.above(y) <==> x.matches * y.total > y.matches * x.total,
        x.level(y) <==> x.matches * y.total == y.matches * x.total,
        x.above(y) || y.above(x) || x.level(y),
        x.above(y) ==> !y.above(x) && !x.level(y),
{
}

} // verus!
