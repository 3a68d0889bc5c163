//! What the state of a comparison means.

use crate::app::{byte_diff, BinpareApp, MAX_FILE_SIZE};
use crate::candidates::{
    APPLIED_WINDOW, LARGE_FILE_CHUNK, LARGE_FILE_THRESHOLD, MAX_SIZE_DIFF_WINDOW, SAME_SIZE_WINDOW,
};
use crate::file::{FileSlot, FileView};
use crate::hexview::{differs, MAX_DISPLAY_ROWS};
use crate::ranking::MAX_CANDIDATES;
use crate::score::{CONTEXT_SIZE, SCORE_SAMPLE_SIZE};
use crate::state::{
    FileStateView, DEFAULT_BYTES_PER_ROW, MAX_BYTES_PER_ROW, MIN_BYTES_PER_ROW,
};
use std::path::PathBuf;
use vstd::prelude::*;

verus! {

/// The difference in size is told for chosen files whose sizes differ, and only
/// for these: by how many bytes, and that file A is the larger exactly if it is.
pub proof fn law_size_difference(state: FileStateView)
    ensures
        state.file_a is None || state.file_b is None ==> state.size_diff() is None,
        state.file_a is Some && state.file_b is Some ==> {
            let (size_a, size_b) = (state.file_a->0.size, state.file_b->0.size);
            &&& state.size_diff() is None <==> size_a == size_b
            &&& state.size_diff() matches Some((diff, a_larger)) ==> {
                &&& a_larger <==> size_a > size_b
                &&& a_larger ==> size_b + diff == size_a
                &&& !a_larger ==> size_a + diff == size_b
            }
        },
{
}

/// Swapping the files keeps the difference in size and swaps which is the larger.
pub proof fn law_size_difference_of_swapped_files(state: FileStateView)
    ensures
        ({
            let swapped = FileStateView { file_a: state.file_b, file_b: state.file_a, ..state };
            &&& state.size_diff() is None <==> swapped.size_diff() is None
            &&& state.size_diff() matches Some((diff, a_larger)) ==> swapped.size_diff() == Some(
                (diff, !a_larger),
            )
        }),
{
}

/// A slot holds what was put into it last; the other slot and the offsets stay as
/// they were, and so do the files when the offsets change.
pub proof fn law_slots_and_offsets(
    state: FileStateView,
    file: FileView,
    offset_a: usize,
    offset_b: usize,
)
    ensures
        state.file(FileSlot::A) == state.file_a,
        state.file(FileSlot::B) == state.file_b,
        ({
            let after = state.with_file(FileSlot::A, file);
            &&& after.file_a == Some(file) && after.file_b == state.file_b
            &&& after.offset_a == state.offset_a && after.offset_b == state.offset_b
        }),
        ({
            let after = state.with_file(FileSlot::B, file);
            &&& after.file_b == Some(file) && after.file_a == state.file_a
            &&& after.offset_a == state.offset_a && after.offset_b == state.offset_b
        }),
        ({
            let after = state.with_offsets(offset_a, offset_b);
            &&& after.offset_a == offset_a && after.offset_b == offset_b
            &&& after.file_a == state.file_a && after.file_b == state.file_b
        }),
        FileStateView::empty().file_a is None && FileStateView::empty().file_b is None,
        FileStateView::empty().offset_a == 0 && FileStateView::empty().offset_b == 0,
{
}

/// Both files are ready exactly if both are chosen and have arrived, and their
/// bytes are those of file A and of file B, where both are chosen and readable.
pub proof fn law_readiness_and_contents(state: FileStateView)
    ensures
        state.both_ready() <==> {
            &&& state.file_a is Some && state.file_a->0.ready
            &&& state.file_b is Some && state.file_b->0.ready
        },
        state.contents() is Some <==> {
            &&& state.file_a is Some && state.file_a->0.content is Some
            &&& state.file_b is Some && state.file_b->0.content is Some
        },
        state.contents() matches Some((data_a, data_b)) ==> state.file_a->0.content == Some(data_a)
            && state.file_b->0.content == Some(data_b),
{
}

/// Nothing has arrived of a file that was just chosen; once its bytes have, it is
/// ready, and its size is their number, whether they can be read or not.
pub proof fn law_arrival(path: PathBuf, file: FileView, bytes: Seq<u8>)
    requires
        bytes.len() <= usize::MAX,
    ensures
        ({
            let fresh = FileView::unread(path);
            &&& fresh.path == path && !fresh.ready && fresh.size == 0
            &&& fresh.content matches Some(none) && none.len() == 0
        }),
        ({
            let after = file.with_content(bytes);
            &&& after.path == file.path && after.ready && after.size == bytes.len()
            &&& file.content is Some ==> after.content == Some(bytes)
            &&& file.content is None ==> after.content is None
        }),
{
}

/// The size of a file is right if it is the number of its bytes, as far as these
/// can be read, and nothing before they have arrived; sizes are right in a
/// comparison if those of the chosen files are.
pub proof fn law_right_sizes(file: FileView, state: FileStateView)
    ensures
        file.wf() <==> {
            &&& file.content is Some ==> file.size == file.content->0.len()
            &&& file.ready || file.size == 0
        },
        state.wf() <==> {
            &&& state.file_a is Some ==> state.file_a->0.wf()
            &&& state.file_b is Some ==> state.file_b->0.wf()
        },
{
}

/// Applying an offset moves files of different sizes only. One that is not negative
/// moves the smaller file down by it and the larger one to the start; a negative
/// one moves the larger file down and the smaller one to the start.
pub proof fn law_applied_offset_moves_the_files(state: FileStateView, offset: i32)
    ensures
        ({
            let after = state.applied(offset);
            &&& after.file_a == state.file_a && after.file_b == state.file_b
            &&& state.file_a is None || state.file_b is None ==> after == state
            &&& state.file_a is Some && state.file_b is Some ==> {
                let (size_a, size_b) = (state.file_a->0.size, state.file_b->0.size);
                &&& size_a == size_b ==> after == state
                &&& size_a > size_b && offset >= 0 ==> after.offset_a == 0 && after.offset_b
                    == offset
                &&& size_a < size_b && offset >= 0 ==> after.offset_a == offset && after.offset_b
                    == 0
                &&& size_a > size_b && offset < 0 ==> after.offset_a == -offset && after.offset_b
                    == 0
                &&& size_a < size_b && offset < 0 ==> after.offset_a == 0 && after.offset_b
                    == -offset
            }
        }),
{
}

/// Two files differ at an index where both have a byte exactly if the bytes are not
/// the same, and elsewhere exactly if the files are not of one length. What is
/// stored tells of each index that both have whether their bytes are not the same.
pub proof fn law_differences(data_a: Seq<u8>, data_b: Seq<u8>, i: int)
    requires
        0 <= i,
    ensures
        i < data_a.len() && i < data_b.len() ==> (differs(data_a, i, data_b, i) <==> data_a[i]
            != data_b[i]),
        i >= data_a.len() || i >= data_b.len() ==> (differs(data_a, i, data_b, i) <==> data_a.len()
            != data_b.len()),
        data_a.len() <= data_b.len() ==> byte_diff(data_a, data_b).len() == data_a.len(),
        data_b.len() <= data_a.len() ==> byte_diff(data_a, data_b).len() == data_b.len(),
        i < data_a.len() && i < data_b.len() ==> (byte_diff(data_a, data_b)[i] <==> data_a[i]
            != data_b[i]),
{
}

/// Stored differences that are current tell of each index that both files have
/// whether their bytes are not the same; where a file cannot be read, they are what
/// they were before.
pub proof fn law_stored_differences_are_of_the_files(
    app: BinpareApp,
    before: Option<Seq<bool>>,
    i: int,
)
    requires
        app.diff_is_current(before),
        0 <= i,
    ensures
        app.diff_state.diff_seq() == match app.diff_state.diff {
            Some(diff) => Some(diff@),
            None => None,
        },
        ({
            let (file_a, file_b) = (app.file_state@.file_a, app.file_state@.file_b);
            let readable = file_a is Some && file_b is Some && file_a->0.content is Some
                && file_b->0.content is Some;
            let (data_a, data_b) = (file_a->0.content->0, file_b->0.content->0);
            &&& readable ==> app.diff_state.diff is Some
            &&& readable && i < data_a.len() && i < data_b.len() ==> {
                &&& i < app.diff_state.diff->0@.len()
                &&& app.diff_state.diff->0@[i] <==> data_a[i] != data_b[i]
            }
            &&& readable && (i >= data_a.len() || i >= data_b.len()) ==> i
                >= app.diff_state.diff->0@.len()
            &&& !readable ==> app.diff_state.diff_seq() == before
        }),
{
}

/// What a fresh comparison is, when suggestions are due, and how the files are laid
/// out.
pub proof fn law_comparison_state(app: BinpareApp)
    ensures
        app.is_initial() ==> {
            &&& app.file_state@.file_a is None && app.file_state@.file_b is None
            &&& app.file_state@.offset_a == 0 && app.file_state@.offset_b == 0
            &&& app.diff_state.diff is None && app.diff_state.diff_highlight
            &&& app.ui_state.bytes_per_row == 16
            &&& app.ui_state.offset_candidates@.len() == 0
            &&& !app.ui_state.offset_candidates_calculated
            &&& app.ui_state.dialog_slot is None
        },
        app.suggestion_due() <==> {
            &&& !app.ui_state.offset_candidates_calculated
            &&& app.file_state@.file_a is Some && app.file_state@.file_a->0.ready
            &&& app.file_state@.file_b is Some && app.file_state@.file_b->0.ready
        },
        app.display_config().bytes_per_row == app.ui_state.bytes_per_row,
        app.display_config().offset_a == app.file_state@.offset_a,
        app.display_config().offset_b == app.file_state@.offset_b,
        app.display_config().highlight_diffs == app.diff_state.diff_highlight,
{
}

/// The limits of a comparison: files of up to 10 MiB, rows of 8 to 32 bytes and 16
/// at first, a thousand rows, five suggestions, and how much is searched and
/// compared for these.
pub proof fn law_limits()
    ensures
        MAX_FILE_SIZE == 10 * 1024 * 1024,
        MIN_BYTES_PER_ROW == 8 && DEFAULT_BYTES_PER_ROW == 16 && MAX_BYTES_PER_ROW == 32,
        MAX_DISPLAY_ROWS == 1000,
        MAX_CANDIDATES == 5,
        LARGE_FILE_THRESHOLD == 1024 * 1024 && LARGE_FILE_CHUNK == 128 * 1024,
        MAX_SIZE_DIFF_WINDOW == 4096 && SAME_SIZE_WINDOW == 1024 && APPLIED_WINDOW == 2048,
        SCORE_SAMPLE_SIZE == 256 && CONTEXT_SIZE == 32,
{
}

} // verus!
