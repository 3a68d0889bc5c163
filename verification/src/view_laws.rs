//! What the views mean: where each byte of a file is shown, and how.

use crate::file::FileSlot;
use crate::hexview::{
    ascii_text, can_lay_out, can_show, cells, file_rows_show, row_count, rows_show, total_places,
    FileRow, HexCell, HexDisplayConfig, HexRow,
};
use crate::score::Score;
use crate::state::FileStateView;
use crate::text::decimal;
use crate::text_laws::{
    all_digits, law_address_denotes_the_position, law_byte_text_denotes_the_byte,
    law_decimal_denotes_the_number, value_of,
};
use crate::view::{lines_up, offers, size_text, title_text, CentralView, SizeDifference, Suggestion};
use vstd::prelude::*;

verus! {

/// What a file shows in a place: nothing of it before its start or behind its end,
/// and between these the byte that is there. The byte is highlighted, if that is
/// asked for, where the byte of the other file in the same place is another one.
/// Before the start of the other file the first byte of that stands for it; where
/// that has no byte at all, or has ended, a difference in length counts.
pub proof fn law_cells_show_the_bytes(
    data: Seq<u8>,
    offset: int,
    highlight_diffs: bool,
    other: Seq<u8>,
    other_offset: int,
    start: int,
    end: int,
    i: int,
)
    requires
        0 <= offset,
        0 <= other_offset,
        start <= i < end,
    ensures
        ({
            let shown = cells(data, offset, highlight_diffs, other, other_offset, start, end);
            let cell = shown[i - start];
            &&& shown.len() == end - start
            &&& i < offset ==> cell == HexCell::Placeholder
            &&& i >= offset + data.len() ==> cell == HexCell::Missing
            &&& offset <= i < offset + data.len() ==> {
                &&& cell matches HexCell::Byte { byte, is_diff }
                &&& byte == data[i - offset]
                &&& !highlight_diffs ==> !is_diff
                &&& highlight_diffs && other_offset <= i < other_offset + other.len() ==> (is_diff
                    <==> byte != other[i - other_offset])
                &&& highlight_diffs && i < other_offset && other.len() > 0 ==> (is_diff <==> byte
                    != other[0])
                &&& highlight_diffs && (i >= other_offset + other.len() || other.len() == 0) ==> (
                is_diff <==> data.len() != other.len())
            }
        }),
{
}

/// The character that a file shows in a place: a hyphen before its start, a blank
/// behind its end, and between these the byte that is there, as itself if it is a
/// printable character of ASCII, else as a dot.
pub proof fn law_ascii_shows_the_bytes(
    data: Seq<u8>,
    offset: int,
    start: int,
    end: int,
    i: int,
)
    requires
        0 <= offset,
        start <= i < end,
    ensures
        ({
            let shown = ascii_text(data, offset, start, end);
            let c = shown[i - start];
            &&& shown.len() == end - start
            &&& i < offset ==> c == '-'
            &&& i >= offset + data.len() ==> c == ' '
            &&& offset <= i < offset + data.len() && 0x20 <= data[i - offset] <= 0x7e ==> c as int
                == data[i - offset] as int
            &&& offset <= i < offset + data.len() && !(0x20 <= data[i - offset] <= 0x7e) ==> c
                == '.'
        }),
{
}

/// No place is shown where there is none.
pub proof fn law_empty_stretch_shows_nothing(
    data: Seq<u8>,
    offset: int,
    highlight_diffs: bool,
    other: Seq<u8>,
    other_offset: int,
    start: int,
    end: int,
)
    requires
        end <= start,
    ensures
        cells(data, offset, highlight_diffs, other, other_offset, start, end).len() == 0,
        ascii_text(data, offset, start, end).len() == 0,
{
}

/// What a place is written as: two hexadecimal digits that denote its byte, or two
/// hyphens where the file has none.
pub proof fn law_cell_text(cell: HexCell)
    ensures
        cell.text().len() == 2,
        cell matches HexCell::Byte { byte, .. } ==> all_digits(cell.text(), 16) && value_of(
            cell.text(),
            16,
        ) == byte,
        !(cell is Byte) ==> cell.text()[0] == '-' && cell.text()[1] == '-',
{
    reveal_strlit("--");
    if let HexCell::Byte { byte, .. } = cell {
        law_byte_text_denotes_the_byte(byte);
    }
}

/// A row shows its places of both files, each with the bytes of that file moved
/// down by its offset, and its address denotes where it starts.
pub proof fn law_row_shows_both_files(
    row: HexRow,
    config: HexDisplayConfig,
    data_a: Seq<u8>,
    data_b: Seq<u8>,
    start: int,
    end: int,
    i: int,
)
    requires
        row.shows(config, data_a, data_b, start, end),
        0 <= start <= i < end,
    ensures
        all_digits(row.address@, 16) && value_of(row.address@, 16) == start,
        row.address@.len() >= 8,
        row.cells_a@.len() == end - start && row.cells_b@.len() == end - start,
        row.ascii_a@.len() == end - start && row.ascii_b@.len() == end - start,
        config.offset_a <= i < config.offset_a + data_a.len() ==> {
            &&& row.cells_a@[i - start] matches HexCell::Byte { byte, .. }
            &&& byte == data_a[i - config.offset_a]
        },
        config.offset_b <= i < config.offset_b + data_b.len() ==> {
            &&& row.cells_b@[i - start] matches HexCell::Byte { byte, .. }
            &&& byte == data_b[i - config.offset_b]
        },
        ({
            let a = cells(
                data_a,
                config.offset_a as int,
                config.highlight_diffs,
                data_b,
                config.offset_b as int,
                start,
                end,
            );
            let b = cells(
                data_b,
                config.offset_b as int,
                config.highlight_diffs,
                data_a,
                config.offset_a as int,
                start,
                end,
            );
            &&& row.cells_a@[i - start] == a[i - start]
            &&& row.cells_b@[i - start] == b[i - start]
            &&& row.ascii_a@[i - start] == ascii_text(data_a, config.offset_a as int, start, end)[i
                - start]
            &&& row.ascii_b@[i - start] == ascii_text(data_b, config.offset_b as int, start, end)[i
                - start]
        }),
{
    law_address_denotes_the_position(start);
}

/// A place lies in the row and column that its number gives.
proof fn lemma_row_and_column(i: int, width: int, total: int)
    requires
        0 < width,
        0 <= i < total,
        i < 1000 * width,
    ensures
        0 <= i / width < row_count(total, width),
        0 <= i % width < width,
        i == (i / width) * width + i % width,
{
    let needed = (total + width - 1) / width;
    let rest = (total + width - 1) % width;
    let (row, column) = (i / width, i % width);
    vstd::arithmetic::div_mod::lemma_fundamental_div_mod(i, width);
    vstd::arithmetic::div_mod::lemma_fundamental_div_mod(total + width - 1, width);
    assert(0 <= row < needed) by (nonlinear_arith)
        requires
            i == width * row + column,
            0 <= column < width,
            total + width - 1 == width * needed + rest,
            0 <= rest < width,
            0 <= i < total,
    ;
    assert(row < 1000) by (nonlinear_arith)
        requires
            i == width * row + column,
            0 <= column,
            0 < width,
            i < 1000 * width,
    ;
    assert(row * width == width * row) by (nonlinear_arith);
}

/// No row starts behind the last place.
proof fn lemma_rows_are_needed(total: int, width: int, row: int)
    requires
        0 < width,
        0 <= total,
        0 <= row < row_count(total, width),
    ensures
        0 <= row * width < total,
        row < 1000,
{
    let needed = (total + width - 1) / width;
    let rest = (total + width - 1) % width;
    vstd::arithmetic::div_mod::lemma_fundamental_div_mod(total + width - 1, width);
    assert(0 <= row * width < total) by (nonlinear_arith)
        requires
            0 <= row < needed,
            total + width - 1 == width * needed + rest,
            0 <= rest < width,
    ;
}

/// Every byte of either file is shown, in the row and column of its place: its
/// index moved down by the offset of the file. It is highlighted, if that is asked
/// for, where the byte of the other file in that place is another one; the first
/// byte of the other file stands for what is before its start, and a difference in
/// length for what is behind its end. Beside it stands its character. Only places
/// behind the first thousand rows are not shown.
pub proof fn law_every_byte_of_both_files_is_shown(
    rows: Seq<HexRow>,
    config: HexDisplayConfig,
    data_a: Seq<u8>,
    data_b: Seq<u8>,
    of_a: bool,
    j: int,
)
    requires
        0 < config.bytes_per_row,
        rows_show(rows, config, data_a, data_b),
        0 <= j < (if of_a { data_a.len() } else { data_b.len() }),
        j + (if of_a { config.offset_a } else { config.offset_b }) < 1000 * config.bytes_per_row,
    ensures
        ({
            let (data, offset, other, other_offset) = if of_a {
                (data_a, config.offset_a as int, data_b, config.offset_b as int)
            } else {
                (data_b, config.offset_b as int, data_a, config.offset_a as int)
            };
            let place = offset + j;
            let row = place / config.bytes_per_row as int;
            let column = place % config.bytes_per_row as int;
            let shown = if of_a { rows[row].cells_a@ } else { rows[row].cells_b@ };
            let ascii = if of_a { rows[row].ascii_a@ } else { rows[row].ascii_b@ };
            &&& 0 <= row < rows.len()
            &&& 0 <= column < shown.len()
            &&& column < ascii.len()
            &&& value_of(rows[row].address@, 16) + column == place
            &&& shown[column] matches HexCell::Byte { byte, is_diff }
            &&& byte == data[j]
            &&& !config.highlight_diffs ==> !is_diff
            &&& config.highlight_diffs && other_offset <= place < other_offset + other.len() ==> (
            is_diff <==> data[j] != other[place - other_offset])
            &&& config.highlight_diffs && place < other_offset && other.len() > 0 ==> (is_diff
                <==> data[j] != other[0])
            &&& config.highlight_diffs && (place >= other_offset + other.len() || other.len() == 0)
                ==> (is_diff <==> data_a.len() != data_b.len())
            &&& 0x20 <= data[j] <= 0x7e ==> ascii[column] as int == data[j] as int
            &&& !(0x20 <= data[j] <= 0x7e) ==> ascii[column] == '.'
        }),
{
    let width = config.bytes_per_row as int;
    let total = total_places(config, data_a.len() as int, data_b.len() as int);
    let offset = if of_a { config.offset_a as int } else { config.offset_b as int };
    let place = offset + j;
    lemma_row_and_column(place, width, total);
    let row = place / width;
    let start = row * width;
    let end = crate::score::least(start + width, total);
    assert(rows[row].shows(config, data_a, data_b, start, end));
    law_row_shows_both_files(rows[row], config, data_a, data_b, start, end, place);
}

/// Where one file has no byte, the places that the other takes up show so: a
/// placeholder and a hyphen before the start of the file, a missing byte and a
/// blank behind its end.
pub proof fn law_places_without_a_byte(
    rows: Seq<HexRow>,
    config: HexDisplayConfig,
    data_a: Seq<u8>,
    data_b: Seq<u8>,
    of_a: bool,
    i: int,
)
    requires
        0 < config.bytes_per_row,
        rows_show(rows, config, data_a, data_b),
        0 <= i < 1000 * config.bytes_per_row,
        i < config.offset_a + data_a.len() || i < config.offset_b + data_b.len(),
    ensures
        ({
            let (data, offset) = if of_a {
                (data_a, config.offset_a as int)
            } else {
                (data_b, config.offset_b as int)
            };
            let row = i / config.bytes_per_row as int;
            let column = i % config.bytes_per_row as int;
            let shown = if of_a { rows[row].cells_a@ } else { rows[row].cells_b@ };
            let ascii = if of_a { rows[row].ascii_a@ } else { rows[row].ascii_b@ };
            &&& 0 <= row < rows.len()
            &&& 0 <= column < shown.len()
            &&& column < ascii.len()
            &&& i < offset ==> shown[column] == HexCell::Placeholder && ascii[column] == '-'
            &&& i >= offset + data.len() ==> shown[column] == HexCell::Missing && ascii[column]
                == ' '
        }),
{
    let width = config.bytes_per_row as int;
    let total = total_places(config, data_a.len() as int, data_b.len() as int);
    lemma_row_and_column(i, width, total);
    let row = i / width;
    let start = row * width;
    let end = crate::score::least(start + width, total);
    assert(rows[row].shows(config, data_a, data_b, start, end));
    law_row_shows_both_files(rows[row], config, data_a, data_b, start, end, i);
}

/// No more than a thousand rows are shown, none of which is empty: each starts a
/// row width behind the one before, and holds the places up to the next row, or up
/// to the end of both files.
pub proof fn law_rows_of_both_files(
    rows: Seq<HexRow>,
    config: HexDisplayConfig,
    data_a: Seq<u8>,
    data_b: Seq<u8>,
    r: int,
)
    requires
        0 < config.bytes_per_row,
        rows_show(rows, config, data_a, data_b),
        0 <= r < rows.len(),
    ensures
        ({
            let start = r * config.bytes_per_row;
            let end_a = config.offset_a + data_a.len();
            let end_b = config.offset_b + data_b.len();
            let end = if end_a >= end_b { end_a } else { end_b };
            let len = if end - start <= config.bytes_per_row {
                end - start
            } else {
                config.bytes_per_row as int
            };
            &&& r < 1000
            &&& 0 < len
            &&& value_of(rows[r].address@, 16) == start
            &&& all_digits(rows[r].address@, 16)
            &&& rows[r].address@.len() >= 8
            &&& rows[r].cells_a@.len() == len && rows[r].cells_b@.len() == len
            &&& rows[r].ascii_a@.len() == len && rows[r].ascii_b@.len() == len
        }),
{
    let width = config.bytes_per_row as int;
    let total = total_places(config, data_a.len() as int, data_b.len() as int);
    lemma_rows_are_needed(total, width, r);
    let start = r * width;
    let end = crate::score::least(start + width, total);
    assert(rows[r].shows(config, data_a, data_b, start, end));
    law_row_shows_both_files(rows[r], config, data_a, data_b, start, end, start);
}

/// Every byte of a file that is shown alone stands in the row and column of its
/// index, not highlighted, with its character in the same column. Only what is
/// behind the first thousand rows is not shown.
pub proof fn law_every_byte_of_one_file_is_shown(
    rows: Seq<FileRow>,
    bytes_per_row: usize,
    data: Seq<u8>,
    i: int,
)
    requires
        0 < bytes_per_row,
        file_rows_show(rows, bytes_per_row, data),
        0 <= i < data.len(),
        i < 1000 * bytes_per_row,
    ensures
        ({
            let row = i / bytes_per_row as int;
            let column = i % bytes_per_row as int;
            &&& 0 <= row < rows.len()
            &&& 0 <= column < rows[row].cells@.len()
            &&& column < rows[row].ascii@.len()
            &&& value_of(rows[row].address@, 16) + column == i
            &&& rows[row].cells@[column] == HexCell::Byte { byte: data[i], is_diff: false }
            &&& 0x20 <= data[i] <= 0x7e ==> rows[row].ascii@[column] as int == data[i] as int
            &&& !(0x20 <= data[i] <= 0x7e) ==> rows[row].ascii@[column] == '.'
        }),
{
    let width = bytes_per_row as int;
    lemma_row_and_column(i, width, data.len() as int);
    let row = i / width;
    let start = row * width;
    let end = crate::score::least(start + width, data.len() as int);
    law_address_denotes_the_position(start);
    assert(rows[row].shows(data, start, end));
    assert(start + (i - start) == i);
}

/// No more than a thousand rows of one file are shown, none of which is empty: each
/// starts a row width behind the one before, and holds the bytes up to the next
/// row, or up to the end.
pub proof fn law_rows_of_one_file(
    rows: Seq<FileRow>,
    bytes_per_row: usize,
    data: Seq<u8>,
    r: int,
)
    requires
        0 < bytes_per_row,
        file_rows_show(rows, bytes_per_row, data),
        0 <= r < rows.len(),
    ensures
        ({
            let start = r * bytes_per_row;
            let len = if data.len() - start <= bytes_per_row {
                data.len() - start
            } else {
                bytes_per_row as int
            };
            &&& r < 1000
            &&& 0 < len
            &&& value_of(rows[r].address@, 16) == start
            &&& all_digits(rows[r].address@, 16)
            &&& rows[r].address@.len() >= 8
            &&& rows[r].cells@.len() == len
            &&& rows[r].ascii@.len() == len
        }),
{
    let width = bytes_per_row as int;
    lemma_rows_are_needed(data.len() as int, width, r);
    let start = r * width;
    law_address_denotes_the_position(start);
    assert(rows[r].shows(data, start, crate::score::least(start + width, data.len() as int)));
}

/// A number of places can be shown in rows of every width that can be chosen, and
/// in rows of any other width if the end of the last row can be counted. Two files
/// can be shown if, besides, their ends can be counted.
pub proof fn law_countable_files_can_be_shown(config: HexDisplayConfig, len_a: int, len_b: int)
    requires
        0 <= len_a,
        0 <= len_b,
        0 < config.bytes_per_row,
        config.bytes_per_row <= 32 || {
            &&& len_a + config.offset_a + config.bytes_per_row <= usize::MAX
            &&& len_b + config.offset_b + config.bytes_per_row <= usize::MAX
        },
    ensures
        len_a + config.offset_a <= usize::MAX && len_b + config.offset_b <= usize::MAX ==> can_show(
            config,
            len_a,
            len_b,
        ),
        can_lay_out(len_a, config.bytes_per_row),
{
    lemma_rows_can_be_counted(total_places(config, len_a, len_b), config.bytes_per_row as int);
    lemma_rows_can_be_counted(len_a, config.bytes_per_row as int);
}

/// The last row ends less than a row behind the last place, and a thousand rows
/// behind the first place at most.
proof fn lemma_rows_can_be_counted(total: int, width: int)
    requires
        0 <= total,
        0 < width,
    ensures
        row_count(total, width) * width <= total + width - 1,
        width <= 32 ==> row_count(total, width) * width <= 32000,
{
    let needed = (total + width - 1) / width;
    let count = row_count(total, width);
    vstd::arithmetic::div_mod::lemma_fundamental_div_mod(total + width - 1, width);
    vstd::arithmetic::div_mod::lemma_div_pos_is_pos(total + width - 1, width);
    let rest = (total + width - 1) % width;
    assert(count * width <= total + width - 1) by (nonlinear_arith)
        requires
            count <= needed,
            0 < width,
            total + width - 1 == width * needed + rest,
            0 <= rest,
    ;
    if width <= 32 {
        assert(count * width <= 32000) by (nonlinear_arith)
            requires
                0 <= count <= 1000,
                0 <= width <= 32,
        ;
    }
}

/// Which view is up: both files once both have arrived; else file A, if it is
/// chosen, else file B, each alone once it has arrived and as loading before; the
/// welcome only where no file is chosen.
pub proof fn law_view_follows_the_files(state: FileStateView)
    ensures
        state.central_view() == CentralView::Comparison <==> {
            &&& state.file_a is Some && state.file_a->0.ready
            &&& state.file_b is Some && state.file_b->0.ready
        },
        state.central_view() == CentralView::SingleFile(FileSlot::A) <==> {
            &&& state.file_a is Some && state.file_a->0.ready
            &&& state.file_b is None || !state.file_b->0.ready
        },
        state.central_view() == CentralView::Loading(FileSlot::A) <==> state.file_a is Some
            && !state.file_a->0.ready,
        state.central_view() == CentralView::SingleFile(FileSlot::B) <==> state.file_a is None
            && state.file_b is Some && state.file_b->0.ready,
        state.central_view() == CentralView::Loading(FileSlot::B) <==> state.file_a is None
            && state.file_b is Some && !state.file_b->0.ready,
        state.central_view() == CentralView::Welcome <==> state.file_a is None && state.file_b
            is None,
{
}

/// A size is told by a number that denotes it, and a file by its letter.
pub proof fn law_sizes_and_titles_in_words(size: usize)
    ensures
        exists|number: Seq<char>|
            size_text(size) == "Size: "@ + number + " bytes"@ && all_digits(number, 10)
                && #[trigger] value_of(number, 10) == size,
        title_text(FileSlot::A) == "File A: "@,
        title_text(FileSlot::B) == "File B: "@,
{
    law_decimal_denotes_the_number(size as int);
    let number = decimal(size as int);
    assert(value_of(number, 10) == size);
}

/// The header tells the difference in size of the chosen files by a number that
/// denotes it, and names the larger file first.
pub proof fn law_header_tells_the_difference(
    shown: SizeDifference,
    state: FileStateView,
    diff: usize,
    a_larger: bool,
)
    requires
        state.file_a is Some,
        state.file_b is Some,
        state.size_diff() == Some((diff, a_larger)),
        shown.states(diff, a_larger),
    ensures
        ({
            let (size_a, size_b) = (state.file_a->0.size, state.file_b->0.size);
            &&& size_a > size_b ==> shown.order@ == "A > B"@
            &&& size_a < size_b ==> shown.order@ == "B > A"@
            &&& size_a != size_b
            &&& exists|number: Seq<char>|
                shown.bytes@ == number + " bytes"@ && all_digits(number, 10) && #[trigger] value_of(
                    number,
                    10,
                ) == if size_a > size_b { size_a - size_b } else { size_b - size_a }
        }),
{
    law_decimal_denotes_the_number(diff as int);
    let number = decimal(diff as int);
    assert(value_of(number, 10) == diff);
}

/// The header offers every candidate, in order, with its own offset and score, and
/// a button that names the offset. What the button applies is the offset, or the
/// offset with the other sign where file B is the larger and there is such an
/// offset.
pub proof fn law_header_offers_every_candidate(
    suggestions: Seq<Suggestion>,
    candidates: Seq<(i32, Score)>,
    state: FileStateView,
    i: int,
)
    requires
        offers(suggestions, candidates),
        lines_up(suggestions, state),
        0 <= i < candidates.len(),
    ensures
        suggestions.len() == candidates.len(),
        suggestions[i].offset == candidates[i].0,
        suggestions[i].score == candidates[i].1,
        suggestions[i].button@ == "Apply "@ + decimal(candidates[i].0 as int),
        suggestions[i].applied == if state.file_a is Some && state.file_b is Some
            && state.file_a->0.size < state.file_b->0.size && candidates[i].0 != i32::MIN {
            -candidates[i].0
        } else {
            candidates[i].0 as int
        },
{
}

} // verus!
