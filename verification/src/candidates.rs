//! Offsets at which the two files look alike, found by sliding one file along
//! the other.

use crate::app::BinpareApp;
use crate::ranking::{best, rank_candidates};
use crate::score::{least, match_score, skipped_file, Score};
use crate::state::FileStateView;
use vstd::prelude::*;

verus! {

/// Above this size, only the first part of a file is searched.
pub const LARGE_FILE_THRESHOLD: usize = 1048576;

/// The part of a large file that is searched.
pub const LARGE_FILE_CHUNK: usize = 131072;

/// The most offsets that are tried for files of different sizes.
pub const MAX_SIZE_DIFF_WINDOW: usize = 4096;

/// The offsets that are tried in either direction for files of one size.
pub const SAME_SIZE_WINDOW: usize = 1024;

/// The offsets that are tried after an offset was applied.
pub const APPLIED_WINDOW: usize = 2048;

/// The length of the longer file.
pub open spec fn longest(data_a: Seq<u8>, data_b: Seq<u8>) -> int {
    if data_a.len() >= data_b.len() {
        data_a.len() as int
    } else {
        data_b.len() as int
    }
}

/// How many offsets are tried: as many as asked for, but no more than the longer
/// file has bytes, or than the searched part of a large file has. An offset past
/// the end of the file whose head is skipped leaves nothing to compare, so that
/// none is tried.
pub open spec fn search_range(
    data_a: Seq<u8>,
    data_b: Seq<u8>,
    search_window: int,
    offset_for_a: bool,
) -> int {
    let max = longest(data_a, data_b);
    let searched = if max > LARGE_FILE_THRESHOLD {
        LARGE_FILE_CHUNK as int
    } else {
        max
    };
    least(
        least(search_window, searched),
        skipped_file(data_a, data_b, offset_for_a).len() + 1int,
    )
}

/// How an offset is written: those of file A count up, those of file B down.
pub open spec fn signed_offset(offset: int, offset_for_a: bool) -> i32 {
    if offset_for_a {
        offset as i32
    } else {
        (-offset) as i32
    }
}

/// The first `n` offsets with their scores.
pub open spec fn scored_offsets(
    data_a: Seq<u8>,
    data_b: Seq<u8>,
    offset_for_a: bool,
    n: int,
) -> Seq<(i32, Score)> {
    Seq::new(
        n as nat,
        |offset: int|
            (
                signed_offset(offset, offset_for_a),
                match_score(data_a, data_b, offset, offset_for_a),
            ),
    )
}

/// Tells the candidates at which anything agrees.
pub open spec fn agrees() -> spec_fn((i32, Score)) -> bool {
    |candidate: (i32, Score)| candidate.1.matches > 0
}

/// By how many bytes the lengths of the files differ.
pub open spec fn length_gap(data_a: Seq<u8>, data_b: Seq<u8>) -> usize {
    if data_a.len() >= data_b.len() {
        (data_a.len() - data_b.len()) as usize
    } else {
        (data_b.len() - data_a.len()) as usize
    }
}

/// What is suggested where nothing agrees: the difference in size, if it is one.
pub open spec fn default_candidates(
    data_a: Seq<u8>,
    data_b: Seq<u8>,
    offset_for_a: bool,
) -> Seq<(i32, Score)> {
    let gap = length_gap(data_a, data_b) as i32;
    if gap > 0 {
        seq![(signed_offset(gap as int, offset_for_a), Score { matches: 1, total: 2 })]
    } else {
        Seq::empty()
    }
}

/// The offsets that are suggested for moving one of the files.
pub open spec fn suggested(
    data_a: Seq<u8>,
    data_b: Seq<u8>,
    search_window: int,
    offset_for_a: bool,
) -> Seq<(i32, Score)> {
    let n = search_range(data_a, data_b, search_window, offset_for_a);
    let found = scored_offsets(data_a, data_b, offset_for_a, n).filter(agrees());
    best(
        if found.len() == 0 {
            default_candidates(data_a, data_b, offset_for_a)
        } else {
            found
        },
    )
}

impl FileStateView {
    /// The offsets that are suggested for moving one of the files; none unless
    /// both can be read.
    pub open spec fn suggested(
        self,
        search_window: int,
        offset_for_a: bool,
    ) -> Seq<(i32, Score)> {
        match self.contents() {
            Some((data_a, data_b)) => suggested(data_a, data_b, search_window, offset_for_a),
            None => Seq::empty(),
        }
    }

    /// The offsets that are suggested for the files: of files that differ in
    /// size the head of the smaller one is skipped, up to the difference; of files
    /// of one size that of either.
    pub open spec fn all_suggested(self) -> Seq<(i32, Score)> {
        match self.size_diff() {
            Some((diff, a_larger)) => self.suggested(
                least(diff as int, MAX_SIZE_DIFF_WINDOW as int),
                !a_larger,
            ),
            None => best(
                self.suggested(SAME_SIZE_WINDOW as int, true) + self.suggested(
                    SAME_SIZE_WINDOW as int,
                    false,
                ),
            ),
        }
    }
}

/// Offsets by which data is commonly aligned.
pub open spec fn common_alignments() -> Seq<usize> {
    seq![1, 2, 4, 8, 16, 32, 64, 128, 256, 512, 1024]
}

/// An offset is among the candidates.
pub open spec fn has_offset(candidates: Seq<(i32, Score)>, offset: i32) -> bool {
    exists|i: int| 0 <= i < candidates.len() && (#[trigger] candidates[i]).0 == offset
}

/// The difference in size as a candidate, if the file that is moved is the
/// longer one.
pub open spec fn size_fallback(
    data_a: Seq<u8>,
    data_b: Seq<u8>,
    offset_for_a: bool,
) -> Seq<(i32, Score)> {
    let gap = length_gap(data_a, data_b) as i32;
    let longer = if offset_for_a {
        data_a.len() > data_b.len()
    } else {
        data_b.len() > data_a.len()
    };
    if gap > 0 && longer {
        seq![(signed_offset(gap as int, offset_for_a), Score { matches: 3, total: 10 })]
    } else {
        Seq::empty()
    }
}

/// The candidates with one alignment added, at four fifths of its score, if it
/// is within the searched range, not there yet, and more than one byte in twenty
/// agrees.
pub open spec fn with_alignment(
    candidates: Seq<(i32, Score)>,
    data_a: Seq<u8>,
    data_b: Seq<u8>,
    offset_for_a: bool,
    search_range: int,
    alignment: int,
) -> Seq<(i32, Score)> {
    let offset = signed_offset(alignment, offset_for_a);
    let score = match_score(data_a, data_b, alignment, offset_for_a);
    if alignment <= search_range && !has_offset(candidates, offset) && 20 * score.matches
        > score.total {
        candidates.push(
            (
                offset,
                Score { matches: (4 * score.matches) as usize, total: (5 * score.total) as usize },
            ),
        )
    } else {
        candidates
    }
}

/// The candidates with the first `n` of the common alignments added.
pub open spec fn with_alignments(
    candidates: Seq<(i32, Score)>,
    data_a: Seq<u8>,
    data_b: Seq<u8>,
    offset_for_a: bool,
    search_range: int,
    n: int,
) -> Seq<(i32, Score)>
    decreases n,
{
    if n <= 0 {
        candidates
    } else {
        with_alignment(
            with_alignments(candidates, data_a, data_b, offset_for_a, search_range, n - 1),
            data_a,
            data_b,
            offset_for_a,
            search_range,
            common_alignments()[n - 1] as int,
        )
    }
}

/// An offset as it is written.
fn write_offset(offset: usize, offset_for_a: bool) -> (written: i32)
    requires
        offset <= i32::MAX,
    ensures
        written == signed_offset(offset as int, offset_for_a),
{
    let value: i32 = offset as i32;
    if offset_for_a {
        value
    } else {
        -value
    }
}

/// By how many bytes the lengths of the files differ.
fn gap_between(data_a: &[u8], data_b: &[u8]) -> (gap: usize)
    ensures
        gap == length_gap(data_a@, data_b@),
{
    if data_a.len() >= data_b.len() {
        data_a.len() - data_b.len()
    } else {
        data_b.len() - data_a.len()
    }
}

/// Whether an offset is among the candidates.
fn contains_offset(candidates: &Vec<(i32, Score)>, offset: i32) -> (found: bool)
    ensures
        found == has_offset(candidates@, offset),
{
    let mut i: usize = 0;
    while i < candidates.len()
        invariant
            i <= candidates@.len(),
            forall|j: int| 0 <= j < i ==> (#[trigger] candidates@[j]).0 != offset,
        decreases candidates@.len() - i,
    {
        if candidates[i].0 == offset {
            assert(candidates@[i as int].0 == offset);
            return true;
        }
        i += 1;
    }
    false
}

impl BinpareApp {
    /// The best offsets, among the first `search_window`, at which the files
    /// look alike: of file A if `offset_for_a` holds, else of file B.
    pub fn suggest_offset_candidates(
        &self,
        search_window: usize,
        offset_for_a: bool,
    ) -> (candidates: Vec<(i32, Score)>)
        ensures
            candidates@ == self.file_state@.suggested(search_window as int, offset_for_a),
    {
        let (data_a, data_b) = match self.file_state.contents() {
            Some((a, b)) => (a.as_slice(), b.as_slice()),
            None => {
                return Vec::new();
            },
        };
        let max: usize = if data_a.len() >= data_b.len() {
            data_a.len()
        } else {
            data_b.len()
        };
        let chunk_size: usize = if max > LARGE_FILE_THRESHOLD {
            LARGE_FILE_CHUNK
        } else {
            max
        };
        let window: usize = if search_window < chunk_size {
            search_window
        } else {
            chunk_size
        };
        let skipped: usize = if offset_for_a {
            data_a.len()
        } else {
            data_b.len()
        };
        let n: usize = if window <= skipped {
            window
        } else {
            skipped + 1
        };
        let mut candidates: Vec<(i32, Score)> = Vec::new();
        let mut offset: usize = 0;
        proof {
            reveal(Seq::filter);
            assert(scored_offsets(data_a@, data_b@, offset_for_a, 0).filter(agrees())
                =~= candidates@);
        }
        while offset < n
            invariant
                offset <= n,
                n <= LARGE_FILE_THRESHOLD,
                n <= skipped_file(data_a@, data_b@, offset_for_a).len() + 1,
                candidates@ == scored_offsets(
                    data_a@,
                    data_b@,
                    offset_for_a,
                    offset as int,
                ).filter(agrees()),
            decreases n - offset,
        {
            let score = self.calculate_match_score(data_a, data_b, offset, offset_for_a);
            proof {
                reveal(Seq::filter);
                let next = scored_offsets(data_a@, data_b@, offset_for_a, offset + 1);
                assert(next.drop_last() =~= scored_offsets(
                    data_a@,
                    data_b@,
                    offset_for_a,
                    offset as int,
                ));
            }
            if score.matches > 0 {
                candidates.push((write_offset(offset, offset_for_a), score));
            }
            offset += 1;
        }
        if candidates.len() == 0 {
            let gap: i32 = gap_between(data_a, data_b) as i32;
            if gap > 0 {
                let default_offset: i32 = if offset_for_a {
                    gap
                } else {
                    -gap
                };
                candidates.push((default_offset, Score { matches: 1, total: 2 }));
            }
            assert(candidates@ =~= default_candidates(data_a@, data_b@, offset_for_a));
        }
        rank_candidates(&candidates)
    }

    /// Suggests offsets for the files, once both have arrived and unless that
    /// was done already.
    pub fn suggest_offset_if_needed(&mut self)
        ensures
            !old(self).suggestion_due() ==> *final(self) == *old(self),
            old(self).suggestion_due() ==> {
                &&& final(self).ui_state.offset_candidates@ == old(
                    self,
                ).file_state@.all_suggested()
                &&& final(self).ui_state.offset_candidates_calculated
            },
            final(self).file_state == old(self).file_state,
            final(self).diff_state == old(self).diff_state,
            final(self).ui_state.bytes_per_row == old(self).ui_state.bytes_per_row,
            final(self).ui_state.dialog_slot == old(self).ui_state.dialog_slot,
    {
        if self.ui_state.offset_candidates_calculated {
            return;
        }
        if !self.file_state.both_files_ready() {
            return;
        }
        let candidates = match self.file_state.get_size_diff() {
            Some((diff, a_larger)) => {
                let window: usize = if diff < MAX_SIZE_DIFF_WINDOW {
                    diff
                } else {
                    MAX_SIZE_DIFF_WINDOW
                };
                self.suggest_offset_candidates(window, !a_larger)
            },
            None => {
                let mut all_candidates = self.suggest_offset_candidates(SAME_SIZE_WINDOW, true);
                let mut candidates_b = self.suggest_offset_candidates(SAME_SIZE_WINDOW, false);
                all_candidates.append(&mut candidates_b);
                rank_candidates(&all_candidates)
            },
        };
        self.ui_state.offset_candidates = candidates;
        self.ui_state.offset_candidates_calculated = true;
    }

    /// Adds candidates that are worth a try where the search gave too few: the
    /// difference in size, and offsets by which data is commonly aligned.
    pub fn add_fallback_candidates(
        &self,
        candidates: &mut Vec<(i32, Score)>,
        data_a: &[u8],
        data_b: &[u8],
        offset_for_a: bool,
        search_range: usize,
    )
        requires
            forall|k: int|
                #![trigger common_alignments()[k]]
                0 <= k < common_alignments().len() && common_alignments()[k] <= search_range
                    && !has_offset(
                    old(candidates)@ + size_fallback(data_a@, data_b@, offset_for_a),
                    signed_offset(common_alignments()[k] as int, offset_for_a),
                ) ==> common_alignments()[k] <= skipped_file(data_a@, data_b@, offset_for_a).len(),
        ensures
            final(candidates)@ == with_alignments(
                old(candidates)@ + size_fallback(data_a@, data_b@, offset_for_a),
                data_a@,
                data_b@,
                offset_for_a,
                search_range as int,
                common_alignments().len() as int,
            ),
    {
        let gap: i32 = gap_between(data_a, data_b) as i32;
        let skipped: usize = if offset_for_a {
            data_a.len()
        } else {
            data_b.len()
        };
        let other: usize = if offset_for_a {
            data_b.len()
        } else {
            data_a.len()
        };
        if gap > 0 && skipped > other {
            let fallback_offset: i32 = if offset_for_a {
                gap
            } else {
                -gap
            };
            candidates.push((fallback_offset, Score { matches: 3, total: 10 }));
        }
        let ghost base = old(candidates)@ + size_fallback(data_a@, data_b@, offset_for_a);
        assert(candidates@ =~= base);
        let alignments: [usize; 11] = [1, 2, 4, 8, 16, 32, 64, 128, 256, 512, 1024];
        assert(alignments@ =~= common_alignments());
        let mut k: usize = 0;
        while k < 11
            invariant
                k <= 11,
                alignments@ == common_alignments(),
                common_alignments().len() == 11,
                base.len() <= candidates@.len(),
                base =~= candidates@.take(base.len() as int),
                candidates@ == with_alignments(
                    base,
                    data_a@,
                    data_b@,
                    offset_for_a,
                    search_range as int,
                    k as int,
                ),
                forall|j: int|
                    #![trigger common_alignments()[j]]
                    0 <= j < common_alignments().len() && common_alignments()[j] <= search_range
                        && !has_offset(
                        base,
                        signed_offset(common_alignments()[j] as int, offset_for_a),
                    ) ==> common_alignments()[j] <= skipped_file(
                        data_a@,
                        data_b@,
                        offset_for_a,
                    ).len(),
            decreases 11 - k,
        {
            let alignment: usize = alignments[k];
            assert(alignment == common_alignments()[k as int]);
            assert(!has_offset(candidates@, signed_offset(alignment as int, offset_for_a))
                ==> !has_offset(base, signed_offset(alignment as int, offset_for_a))) by {
                if has_offset(base, signed_offset(alignment as int, offset_for_a)) {
                    let i = choose|i: int|
                        0 <= i < base.len() && (#[trigger] base[i]).0 == signed_offset(
                            alignment as int,
                            offset_for_a,
                        );
                    assert(base[i] == candidates@[i]);
                }
            }
            let ghost before = candidates@;
            self.add_alignment(
                candidates,
                data_a,
                data_b,
                offset_for_a,
                search_range,
                alignment,
            );
            assert(candidates@.take(base.len() as int) =~= before.take(base.len() as int));
            k += 1;
        }
    }

    /// Adds an alignment to the candidates, if it is worth a try.
    fn add_alignment(
        &self,
        candidates: &mut Vec<(i32, Score)>,
        data_a: &[u8],
        data_b: &[u8],
        offset_for_a: bool,
        search_range: usize,
        alignment: usize,
    )
        requires
            alignment <= i32::MAX,
            alignment <= search_range && !has_offset(
                old(candidates)@,
                signed_offset(alignment as int, offset_for_a),
            ) ==> alignment <= skipped_file(data_a@, data_b@, offset_for_a).len(),
        ensures
            final(candidates)@ == with_alignment(
                old(candidates)@,
                data_a@,
                data_b@,
                offset_for_a,
                search_range as int,
                alignment as int,
            ),
    {
        if alignment > search_range {
            return;
        }
        let test_offset: i32 = write_offset(alignment, offset_for_a);
        if contains_offset(candidates, test_offset) {
            return;
        }
        let score = self.calculate_match_score(data_a, data_b, alignment, offset_for_a);
        if score.matches * 20 > score.total {
            let lowered = Score { matches: score.matches * 4, total: score.total * 5 };
            candidates.push((test_offset, lowered));
        }
    }
}

} // verus!
