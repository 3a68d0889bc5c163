//! How well two files match when one of them is moved against the other.

use crate::app::BinpareApp;
use vstd::prelude::*;
use vstd::slice::slice_subrange;

verus! {

/// The most bytes that a match score looks at.
pub const SCORE_SAMPLE_SIZE: usize = 256;

/// The bytes that a context score looks at, at either end.
pub const CONTEXT_SIZE: usize = 32;

/// The share of compared bytes that agree, as an exact ratio.
#[derive(Debug, Clone, Copy, PartialEq, Eq, Structural)]
pub struct Score {
    /// The bytes that agree.
    pub matches: usize,
    /// The bytes that were compared.
    pub total: usize,
}

impl Score {
    /// The ratio lies between zero and one.
    pub open spec fn wf(self) -> bool {
        self.matches <= self.total && 0 < self.total
    }

    /// The score of files that have nothing to compare.
    pub open spec fn zero() -> Score {
        Score { matches: 0, total: 1 }
    }

    /// The ratio is greater than that of `other`.
    pub open spec fn above(self, other: Score) -> bool {
        self.matches * other.total > other.matches * self.total
    }

    /// The ratio is that of `other`.
    pub open spec fn level(self, other: Score) -> bool {
        self.matches * other.total == other.matches * self.total
    }

    /// Whether the ratio is greater than that of `other`.
    pub fn is_above(&self, other: &Score) -> (above: bool)
        ensures
            above == self.above(*other),
    {
        let (m1, t1): (u128, u128) = (self.matches as u128, self.total as u128);
        let (m2, t2): (u128, u128) = (other.matches as u128, other.total as u128);
        assert(m1 * t2 <= 0xffff_ffff_ffff_ffff * 0xffff_ffff_ffff_ffff) by (nonlinear_arith)
            requires
                m1 <= 0xffff_ffff_ffff_ffff,
                t2 <= 0xffff_ffff_ffff_ffff,
        ;
        assert(m2 * t1 <= 0xffff_ffff_ffff_ffff * 0xffff_ffff_ffff_ffff) by (nonlinear_arith)
            requires
                m2 <= 0xffff_ffff_ffff_ffff,
                t1 <= 0xffff_ffff_ffff_ffff,
        ;
        m1 * t2 > m2 * t1
    }
}

/// The number of positions at which two sequences of one length agree.
pub open spec fn count_equal(a: Seq<u8>, b: Seq<u8>) -> nat
    recommends
        a.len() == b.len(),
    decreases a.len(),
{
    if a.len() == 0 {
        0
    } else {
        count_equal(a.drop_last(), b.drop_last()) + if a.last() == b.last() {
            1nat
        } else {
            0
        }
    }
}

/// The `n` bytes of `s` from `start` on that are `step` apart.
pub open spec fn sampled(s: Seq<u8>, start: int, step: int, n: nat) -> Seq<u8> {
    Seq::new(n, |k: int| s[start + k * step])
}

/// The file whose head is skipped.
pub open spec fn skipped_file(
    data_a: Seq<u8>,
    data_b: Seq<u8>,
    offset_for_a: bool,
) -> Seq<u8> {
    if offset_for_a {
        data_a
    } else {
        data_b
    }
}

/// The two files from where they are compared on: the head of one of them, of
/// `offset` bytes, is skipped.
pub open spec fn aligned(
    data_a: Seq<u8>,
    data_b: Seq<u8>,
    offset: int,
    offset_for_a: bool,
) -> (Seq<u8>, Seq<u8>) {
    if offset_for_a {
        (data_a.skip(offset), data_b)
    } else {
        (data_a, data_b.skip(offset))
    }
}

/// The number of positions that two sequences both have.
pub open spec fn overlap(a: Seq<u8>, b: Seq<u8>) -> int {
    if a.len() <= b.len() {
        a.len() as int
    } else {
        b.len() as int
    }
}

/// The smaller of two numbers.
pub open spec fn least(x: int, y: int) -> int {
    if x <= y {
        x
    } else {
        y
    }
}

/// The share of agreeing bytes among the first bytes that the two files have
/// in common, once the head of one of them is skipped.
pub open spec fn match_score(
    data_a: Seq<u8>,
    data_b: Seq<u8>,
    offset: int,
    offset_for_a: bool,
) -> Score {
    let (a, b) = aligned(data_a, data_b, offset, offset_for_a);
    let n = least(SCORE_SAMPLE_SIZE as int, overlap(a, b));
    if n == 0 {
        Score::zero()
    } else {
        Score { matches: count_equal(a.take(n), b.take(n)) as usize, total: n as usize }
    }
}

/// How far apart the samples of an advanced score are: evenly spread over the
/// common part if that is more than four windows long, else side by side.
pub open spec fn sample_step(len: int, n: int, use_sampling: bool) -> int {
    if use_sampling && len > 4 * n {
        len / n
    } else {
        1
    }
}

/// The share of agreeing bytes among up to `window_size` samples from what the
/// two files have in common, once the head of one of them is skipped.
pub open spec fn advanced_match_score(
    data_a: Seq<u8>,
    data_b: Seq<u8>,
    offset: int,
    offset_for_a: bool,
    window_size: int,
    use_sampling: bool,
) -> Score {
    let (a, b) = aligned(data_a, data_b, offset, offset_for_a);
    let len = overlap(a, b);
    let n = least(window_size, len);
    let step = sample_step(len, n, use_sampling);
    if offset >= skipped_file(data_a, data_b, offset_for_a).len() || n == 0 {
        Score::zero()
    } else {
        Score {
            matches: count_equal(
                sampled(a, 0, step, n as nat),
                sampled(b, 0, step, n as nat),
            ) as usize,
            total: n as usize,
        }
    }
}

/// The share of agreeing bytes at the two ends of what the files have in
/// common, once the head of one of them is skipped.
pub open spec fn context_score(
    data_a: Seq<u8>,
    data_b: Seq<u8>,
    offset: int,
    offset_for_a: bool,
) -> Score {
    let (a, b) = aligned(data_a, data_b, offset, offset_for_a);
    let len = overlap(a, b);
    let size = CONTEXT_SIZE as int;
    if offset >= skipped_file(data_a, data_b, offset_for_a).len() || len < 2 * size {
        Score::zero()
    } else {
        Score {
            matches: (count_equal(a.take(size), b.take(size)) + count_equal(
                a.subrange(len - size, len),
                b.subrange(len - size, len),
            )) as usize,
            total: (2 * CONTEXT_SIZE) as usize,
        }
    }
}

/// No more positions agree than there are.
pub proof fn lemma_count_equal_bound(a: Seq<u8>, b: Seq<u8>)
    ensures
        count_equal(a, b) <= a.len(),
    decreases a.len(),
{
    if a.len() > 0 {
        lemma_count_equal_bound(a.drop_last(), b.drop_last());
    }
}

/// Counts the samples at which two files agree.
fn count_sampled(a: &[u8], b: &[u8], start: usize, step: usize, n: usize) -> (count: usize)
    requires
        n > 0 ==> start + (n - 1) * step < a@.len(),
        n > 0 ==> start + (n - 1) * step < b@.len(),
    ensures
        count == count_equal(
            sampled(a@, start as int, step as int, n as nat),
            sampled(b@, start as int, step as int, n as nat),
        ),
        count <= n,
{
    let mut count: usize = 0;
    let mut at: usize = start;
    let mut k: usize = 0;
    while k < n
        invariant
            k <= n,
            n > 0 ==> start + (n - 1) * step < a@.len(),
            n > 0 ==> start + (n - 1) * step < b@.len(),
            k < n ==> at == start + k * step,
            count <= k,
            count == count_equal(
                sampled(a@, start as int, step as int, k as nat),
                sampled(b@, start as int, step as int, k as nat),
            ),
        decreases n - k,
    {
        assert(k * step <= (n - 1) * step) by (nonlinear_arith)
            requires
                k <= n - 1,
                0 <= step,
        ;
        proof {
            let next_a = sampled(a@, start as int, step as int, (k + 1) as nat);
            let next_b = sampled(b@, start as int, step as int, (k + 1) as nat);
            assert(next_a.drop_last() =~= sampled(a@, start as int, step as int, k as nat));
            assert(next_b.drop_last() =~= sampled(b@, start as int, step as int, k as nat));
        }
        if a[at] == b[at] {
            count += 1;
        }
        k += 1;
        if k < n {
            assert(k * step == (k - 1) * step + step) by (nonlinear_arith)
                requires
                    1 <= k,
            ;
            assert(k * step <= (n - 1) * step) by (nonlinear_arith)
                requires
                    k <= n - 1,
                    0 <= step,
            ;
            at += step;
        }
    }
    count
}

impl BinpareApp {
    /// The share of agreeing bytes, among at most [`SCORE_SAMPLE_SIZE`], when
    /// the first `offset` bytes of one file are skipped.
    pub fn calculate_match_score(
        &self,
        data_a: &[u8],
        data_b: &[u8],
        offset: usize,
        offset_for_a: bool,
    ) -> (score: Score)
        requires
            offset <= skipped_file(data_a@, data_b@, offset_for_a).len(),
        ensures
            score == match_score(data_a@, data_b@, offset as int, offset_for_a),
            score.wf(),
    {
        let (a, b) = skip_head(data_a, data_b, offset, offset_for_a);
        let len: usize = if a.len() <= b.len() {
            a.len()
        } else {
            b.len()
        };
        if len == 0 {
            return Score { matches: 0, total: 1 };
        }
        let n: usize = if len < SCORE_SAMPLE_SIZE {
            len
        } else {
            SCORE_SAMPLE_SIZE
        };
        proof {
            assert(sampled(a@, 0, 1, n as nat) =~= a@.take(n as int));
            assert(sampled(b@, 0, 1, n as nat) =~= b@.take(n as int));
        }
        Score { matches: count_sampled(a, b, 0, 1, n), total: n }
    }

    /// The share of agreeing bytes, among at most `window_size` samples, when
    /// the first `offset` bytes of one file are skipped.
    pub fn calculate_advanced_match_score(
        &self,
        data_a: &[u8],
        data_b: &[u8],
        offset: usize,
        offset_for_a: bool,
        window_size: usize,
        use_sampling: bool,
    ) -> (score: Score)
        requires
            use_sampling && offset < skipped_file(data_a@, data_b@, offset_for_a).len() ==> ({
                let (a, b) = aligned(data_a@, data_b@, offset as int, offset_for_a);
                4 * least(window_size as int, overlap(a, b)) <= usize::MAX
            }),
        ensures
            score == advanced_match_score(
                data_a@,
                data_b@,
                offset as int,
                offset_for_a,
                window_size as int,
                use_sampling,
            ),
            score.wf(),
    {
        let skipped: usize = if offset_for_a {
            data_a.len()
        } else {
            data_b.len()
        };
        if offset >= skipped {
            return Score { matches: 0, total: 1 };
        }
        let (a, b) = skip_head(data_a, data_b, offset, offset_for_a);
        let len: usize = if a.len() <= b.len() {
            a.len()
        } else {
            b.len()
        };
        let n: usize = if window_size < len {
            window_size
        } else {
            len
        };
        if n == 0 {
            return Score { matches: 0, total: 1 };
        }
        let step: usize = if use_sampling && len > n * 4 {
            len / n
        } else {
            1
        };
        assert((n - 1) * step < len) by {
            if step != 1 {
                let rest = len as int % n as int;
                vstd::arithmetic::div_mod::lemma_fundamental_div_mod(len as int, n as int);
                assert((n - 1) * step < len) by (nonlinear_arith)
                    requires
                        len == n * step + rest,
                        0 <= rest < n,
                        4 * n < len,
                ;
            }
        }
        Score { matches: count_sampled(a, b, 0, step, n), total: n }
    }

    /// The share of agreeing bytes at the two ends of the common part, when the
    /// first `offset` bytes of one file are skipped.
    pub fn calculate_context_score(
        &self,
        data_a: &[u8],
        data_b: &[u8],
        offset: usize,
        offset_for_a: bool,
    ) -> (score: Score)
        ensures
            score == context_score(data_a@, data_b@, offset as int, offset_for_a),
            score.wf(),
    {
        let skipped: usize = if offset_for_a {
            data_a.len()
        } else {
            data_b.len()
        };
        if offset >= skipped {
            return Score { matches: 0, total: 1 };
        }
        let (a, b) = skip_head(data_a, data_b, offset, offset_for_a);
        let len: usize = if a.len() <= b.len() {
            a.len()
        } else {
            b.len()
        };
        if len < CONTEXT_SIZE * 2 {
            return Score { matches: 0, total: 1 };
        }
        let back_start: usize = len - CONTEXT_SIZE;
        proof {
            let size = CONTEXT_SIZE as int;
            let back = back_start as int;
            assert(sampled(a@, 0, 1, size as nat) =~= a@.take(size));
            assert(sampled(b@, 0, 1, size as nat) =~= b@.take(size));
            assert(sampled(a@, back, 1, size as nat) =~= a@.subrange(back, len as int));
            assert(sampled(b@, back, 1, size as nat) =~= b@.subrange(back, len as int));
        }
        let front_matches: usize = count_sampled(a, b, 0, 1, CONTEXT_SIZE);
        let back_matches: usize = count_sampled(a, b, back_start, 1, CONTEXT_SIZE);
        Score { matches: front_matches + back_matches, total: CONTEXT_SIZE * 2 }
    }
}

/// The two files without the head of one of them.
fn skip_head<'a>(
    data_a: &'a [u8],
    data_b: &'a [u8],
    offset: usize,
    offset_for_a: bool,
) -> (parts: (&'a [u8], &'a [u8]))
    requires
        offset <= skipped_file(data_a@, data_b@, offset_for_a).len(),
    ensures
        (parts.0@, parts.1@) == aligned(data_a@, data_b@, offset as int, offset_for_a),
{
    if offset_for_a {
        (slice_subrange(data_a, offset, data_a.len()), data_b)
    } else {
        (data_a, slice_subrange(data_b, offset, data_b.len()))
    }
}

} // verus!
