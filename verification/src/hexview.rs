//! The hex view: the files in rows of bytes, side by side, each moved down by
//! its offset.

use crate::app::BinpareApp;
use crate::score::least;
use crate::text::{address_text, byte_text, format_address, format_byte};
use vstd::prelude::*;
use vstd::string::StringExecFns;

verus! {

/// The most rows that are shown.
pub const MAX_DISPLAY_ROWS: usize = 1000;

/// One place in a row of the hex view.
#[derive(Debug, Clone, Copy, PartialEq, Eq, Structural)]
pub enum HexCell {
    /// The place lies before the start of the file, which is moved down.
    Placeholder,
    /// A byte of the file.
    Byte {
        byte: u8,
        /// Whether it is highlighted as a difference.
        is_diff: bool,
    },
    /// The place lies behind the end of the file.
    Missing,
}

impl HexCell {
    /// What is written in the place.
    pub open spec fn text(self) -> Seq<char> {
        match self {
            HexCell::Byte { byte, .. } => byte_text(byte),
            _ => "--"@,
        }
    }

    /// What is written in the place.
    pub fn label(&self) -> (label: String)
        ensures
            label@ == self.text(),
    {
        match self {
            HexCell::Byte { byte, .. } => format_byte(*byte),
            _ => String::from_str("--"),
        }
    }
}

/// How the files are laid out.
#[derive(Debug, Clone, Copy)]
pub struct HexDisplayConfig {
    pub bytes_per_row: usize,
    pub offset_a: usize,
    pub offset_b: usize,
    pub highlight_diffs: bool,
}

/// A row of the hex view of one file.
#[derive(Debug)]
pub struct FileRow {
    pub address: String,
    pub cells: Vec<HexCell>,
    pub ascii: String,
}

/// A row of the hex view of two files.
#[derive(Debug)]
pub struct HexRow {
    pub address: String,
    pub cells_a: Vec<HexCell>,
    pub ascii_a: String,
    pub cells_b: Vec<HexCell>,
    pub ascii_b: String,
}

/// A byte of one file is a difference if the byte that it is held against is
/// another one. Where either file has ended, a difference in size is a
/// difference.
pub open spec fn differs(data: Seq<u8>, index: int, other: Seq<u8>, other_index: int) -> bool {
    if index < data.len() && other_index < other.len() {
        data[index] != other[other_index]
    } else {
        data.len() != other.len()
    }
}

/// The place in the other file that a place in the hex view is held against; the
/// places before its start are held against its first byte.
pub open spec fn counterpart(i: int, other_offset: int) -> int {
    if i < other_offset {
        0
    } else {
        i - other_offset
    }
}

/// What a file shows in a place of the hex view.
pub open spec fn cell_at(
    data: Seq<u8>,
    offset: int,
    highlight_diffs: bool,
    other: Seq<u8>,
    other_offset: int,
    i: int,
) -> HexCell {
    if i < offset {
        HexCell::Placeholder
    } else if i - offset < data.len() {
        HexCell::Byte {
            byte: data[i - offset],
            is_diff: highlight_diffs && differs(
                data,
                i - offset,
                other,
                counterpart(i, other_offset),
            ),
        }
    } else {
        HexCell::Missing
    }
}

/// What a file shows in the places from `start` to `end`.
pub open spec fn cells(
    data: Seq<u8>,
    offset: int,
    highlight_diffs: bool,
    other: Seq<u8>,
    other_offset: int,
    start: int,
    end: int,
) -> Seq<HexCell> {
    Seq::new(
        places(start, end),
        |k: int| cell_at(data, offset, highlight_diffs, other, other_offset, start + k),
    )
}

/// The number of places from `start` to `end`.
pub open spec fn places(start: int, end: int) -> nat {
    if start < end {
        (end - start) as nat
    } else {
        0
    }
}

/// A byte as a character: itself if it is a blank or visible, else a dot.
pub open spec fn ascii_char(byte: u8) -> char {
    if 0x20 <= byte <= 0x7e {
        byte as char
    } else {
        '.'
    }
}

/// The character that a file shows in a place of the hex view.
pub open spec fn ascii_at(data: Seq<u8>, offset: int, i: int) -> char {
    if i < offset {
        '-'
    } else if i - offset < data.len() {
        ascii_char(data[i - offset])
    } else {
        ' '
    }
}

/// The characters that a file shows in the places from `start` to `end`.
pub open spec fn ascii_text(data: Seq<u8>, offset: int, start: int, end: int) -> Seq<char> {
    Seq::new(places(start, end), |k: int| ascii_at(data, offset, start + k))
}

/// The number of places that the files take up, each moved down by its offset.
pub open spec fn total_places(config: HexDisplayConfig, len_a: int, len_b: int) -> int {
    if len_a + config.offset_a >= len_b + config.offset_b {
        len_a + config.offset_a
    } else {
        len_b + config.offset_b
    }
}

/// The number of rows in which a number of places are shown.
pub open spec fn row_count(total: int, bytes_per_row: int) -> int {
    least((total + bytes_per_row - 1) / bytes_per_row, MAX_DISPLAY_ROWS as int)
}

impl HexRow {
    /// The row shows the places from `start` to `end`.
    pub open spec fn shows(
        self,
        config: HexDisplayConfig,
        data_a: Seq<u8>,
        data_b: Seq<u8>,
        start: int,
        end: int,
    ) -> bool {
        &&& self.address@ == address_text(start)
        &&& self.cells_a@ == cells(
            data_a,
            config.offset_a as int,
            config.highlight_diffs,
            data_b,
            config.offset_b as int,
            start,
            end,
        )
        &&& self.ascii_a@ == ascii_text(data_a, config.offset_a as int, start, end)
        &&& self.cells_b@ == cells(
            data_b,
            config.offset_b as int,
            config.highlight_diffs,
            data_a,
            config.offset_a as int,
            start,
            end,
        )
        &&& self.ascii_b@ == ascii_text(data_b, config.offset_b as int, start, end)
    }
}

impl FileRow {
    /// The row shows the bytes from `start` to `end`.
    pub open spec fn shows(self, data: Seq<u8>, start: int, end: int) -> bool {
        &&& self.address@ == address_text(start)
        &&& self.cells@ == Seq::new(
            places(start, end),
            |k: int| HexCell::Byte { byte: data[start + k], is_diff: false },
        )
        &&& self.ascii@ == Seq::new(places(start, end), |k: int| ascii_char(data[start + k]))
    }
}

/// The rows show the two files from the start on.
pub open spec fn rows_show(
    rows: Seq<HexRow>,
    config: HexDisplayConfig,
    data_a: Seq<u8>,
    data_b: Seq<u8>,
) -> bool {
    let total = total_places(config, data_a.len() as int, data_b.len() as int);
    let width = config.bytes_per_row as int;
    &&& rows.len() == row_count(total, width)
    &&& forall|r: int|
        0 <= r < rows.len() ==> (#[trigger] rows[r]).shows(
            config,
            data_a,
            data_b,
            r * width,
            least(r * width + width, total),
        )
}

/// The rows show a file from the start on.
pub open spec fn file_rows_show(rows: Seq<FileRow>, bytes_per_row: usize, data: Seq<u8>) -> bool {
    let width = bytes_per_row as int;
    &&& rows.len() == row_count(data.len() as int, width)
    &&& forall|r: int|
        0 <= r < rows.len() ==> (#[trigger] rows[r]).shows(
            data,
            r * width,
            least(r * width + width, data.len() as int),
        )
}

/// A number of places can be laid out in rows of some width: the rows are not
/// empty, and where the last of them ends can be counted.
pub open spec fn can_lay_out(total: int, bytes_per_row: usize) -> bool {
    &&& 0 < bytes_per_row
    &&& row_count(total, bytes_per_row as int) * bytes_per_row <= usize::MAX
}

/// The two files can be laid out: their ends can be counted, and so can the rows.
pub open spec fn can_show(config: HexDisplayConfig, len_a: int, len_b: int) -> bool {
    &&& len_a + config.offset_a <= usize::MAX
    &&& len_b + config.offset_b <= usize::MAX
    &&& can_lay_out(total_places(config, len_a, len_b), config.bytes_per_row)
}

/// The number of rows in which a number of places are shown.
fn count_rows(total: usize, bytes_per_row: usize) -> (rows: usize)
    requires
        0 < bytes_per_row,
    ensures
        rows == row_count(total as int, bytes_per_row as int),
{
    let full: usize = total / bytes_per_row;
    let rest: usize = total % bytes_per_row;
    proof {
        let (t, w) = (total as int, bytes_per_row as int);
        vstd::arithmetic::div_mod::lemma_fundamental_div_mod(t, w);
        let q = full as int;
        if rest == 0 {
            vstd::arithmetic::div_mod::lemma_fundamental_div_mod_converse(
                t + w - 1,
                w,
                q,
                w - 1,
            );
        } else {
            assert(w * (q + 1) == w * q + w) by (nonlinear_arith);
            vstd::arithmetic::div_mod::lemma_fundamental_div_mod_converse(
                t + w - 1,
                w,
                q + 1,
                rest - 1,
            );
        }
    }
    if full >= MAX_DISPLAY_ROWS {
        MAX_DISPLAY_ROWS
    } else if rest == 0 {
        full
    } else {
        full + 1
    }
}

/// A byte as a character.
fn show_byte(byte: u8) -> (c: char)
    ensures
        c == ascii_char(byte),
{
    if 0x20 <= byte && byte <= 0x7e {
        byte as char
    } else {
        '.'
    }
}

/// Whether a byte of one file is a difference.
fn is_difference(data: &[u8], index: usize, other: &[u8], other_index: usize) -> (differ: bool)
    ensures
        differ == differs(data@, index as int, other@, other_index as int),
{
    if index < data.len() && other_index < other.len() {
        data[index] != other[other_index]
    } else {
        data.len() != other.len()
    }
}

impl BinpareApp {
    /// Whether the files differ at an index: in their bytes, or, where one of
    /// them has ended, in their sizes.
    pub fn is_diff_at_index(&self, data_a: &[u8], data_b: &[u8], index: usize) -> (differ: bool)
        ensures
            differ == differs(data_a@, index as int, data_b@, index as int),
    {
        is_difference(data_a, index, data_b, index)
    }

    /// What a file shows in the places from `start` to `end`.
    pub fn render_file_data(
        &self,
        data: &[u8],
        offset: usize,
        highlight_diffs: bool,
        other_data: &[u8],
        other_offset: usize,
        start: usize,
        end: usize,
    ) -> (shown: Vec<HexCell>)
        ensures
            shown@ == cells(
                data@,
                offset as int,
                highlight_diffs,
                other_data@,
                other_offset as int,
                start as int,
                end as int,
            ),
    {
        let mut shown: Vec<HexCell> = Vec::new();
        let mut i: usize = start;
        while i < end
            invariant
                start <= i,
                start < end ==> i <= end,
                start >= end ==> i == start,
                shown@ =~= cells(
                    data@,
                    offset as int,
                    highlight_diffs,
                    other_data@,
                    other_offset as int,
                    start as int,
                    i as int,
                ),
            decreases end - i,
        {
            if i < offset {
                shown.push(HexCell::Placeholder);
            } else if i - offset < data.len() {
                let other_index: usize = i.saturating_sub(other_offset);
                let is_diff: bool = highlight_diffs && is_difference(
                    data,
                    i - offset,
                    other_data,
                    other_index,
                );
                shown.push(HexCell::Byte { byte: data[i - offset], is_diff });
            } else {
                shown.push(HexCell::Missing);
            }
            i += 1;
        }
        shown
    }

    /// The characters that a file shows in the places from `start` to `end`.
    pub fn render_ascii_data(
        &self,
        data: &[u8],
        offset: usize,
        start: usize,
        end: usize,
    ) -> (ascii: String)
        ensures
            ascii@ == ascii_text(data@, offset as int, start as int, end as int),
    {
        let mut ascii = String::new();
        let mut i: usize = start;
        assert(ascii@ =~= ascii_text(data@, offset as int, start as int, i as int));
        while i < end
            invariant
                start <= i,
                start < end ==> i <= end,
                start >= end ==> i == start,
                ascii@ =~= ascii_text(data@, offset as int, start as int, i as int),
            decreases end - i,
        {
            if i < offset {
                ascii.push('-');
            } else if i - offset < data.len() {
                ascii.push(show_byte(data[i - offset]));
            } else {
                ascii.push(' ');
            }
            i += 1;
        }
        ascii
    }

    /// A row of the hex view of two files.
    pub fn render_hex_row(
        &self,
        config: &HexDisplayConfig,
        data_a: &[u8],
        data_b: &[u8],
        start: usize,
        end: usize,
    ) -> (row: HexRow)
        ensures
            row.shows(*config, data_a@, data_b@, start as int, end as int),
    {
        HexRow {
            address: format_address(start),
            cells_a: self.render_file_data(
                data_a,
                config.offset_a,
                config.highlight_diffs,
                data_b,
                config.offset_b,
                start,
                end,
            ),
            ascii_a: self.render_ascii_data(data_a, config.offset_a, start, end),
            cells_b: self.render_file_data(
                data_b,
                config.offset_b,
                config.highlight_diffs,
                data_a,
                config.offset_a,
                start,
                end,
            ),
            ascii_b: self.render_ascii_data(data_b, config.offset_b, start, end),
        }
    }

    /// How the files are laid out.
    pub open spec fn display_config(self) -> HexDisplayConfig {
        HexDisplayConfig {
            bytes_per_row: self.ui_state.bytes_per_row,
            offset_a: self.file_state@.offset_a,
            offset_b: self.file_state@.offset_b,
            highlight_diffs: self.diff_state.diff_highlight,
        }
    }

    /// The rows of the hex view of two files.
    pub fn render_hex_rows(&self, data_a: &[u8], data_b: &[u8]) -> (rows: Vec<HexRow>)
        requires
            can_show(self.display_config(), data_a@.len() as int, data_b@.len() as int),
        ensures
            rows_show(rows@, self.display_config(), data_a@, data_b@),
    {
        let (offset_a, offset_b): (usize, usize) = self.file_state.offsets();
        let config = HexDisplayConfig {
            bytes_per_row: self.ui_state.bytes_per_row,
            offset_a,
            offset_b,
            highlight_diffs: self.diff_state.diff_highlight,
        };
        let total_len_a: usize = data_a.len() + config.offset_a;
        let total_len_b: usize = data_b.len() + config.offset_b;
        let max_total_len: usize = if total_len_a >= total_len_b {
            total_len_a
        } else {
            total_len_b
        };
        let count: usize = count_rows(max_total_len, config.bytes_per_row);
        let mut rows: Vec<HexRow> = Vec::new();
        let mut row: usize = 0;
        let mut start: usize = 0;
        let ghost width = config.bytes_per_row as int;
        while row < count
            invariant
                row <= count,
                rows@.len() == row,
                width == config.bytes_per_row,
                start == row * width,
                count * width <= usize::MAX,
                max_total_len == total_places(config, data_a@.len() as int, data_b@.len() as int),
                forall|r: int|
                    0 <= r < row ==> (#[trigger] rows@[r]).shows(
                        config,
                        data_a@,
                        data_b@,
                        r * width,
                        least(r * width + width, max_total_len as int),
                    ),
            decreases count - row,
        {
            assert(row * width + width <= count * width) by (nonlinear_arith)
                requires
                    row + 1 <= count,
                    0 <= width,
            ;
            assert((row + 1) * width == row * width + width) by (nonlinear_arith);
            let next: usize = start + config.bytes_per_row;
            let end: usize = if next < max_total_len {
                next
            } else {
                max_total_len
            };
            rows.push(self.render_hex_row(&config, data_a, data_b, start, end));
            start = next;
            row += 1;
        }
        rows
    }

    /// The rows of the hex view of one file.
    pub fn render_single_file_data(&self, data: &[u8]) -> (rows: Vec<FileRow>)
        requires
            can_lay_out(data@.len() as int, self.ui_state.bytes_per_row),
        ensures
            file_rows_show(rows@, self.ui_state.bytes_per_row, data@),
    {
        let bytes_per_row: usize = self.ui_state.bytes_per_row;
        let count: usize = count_rows(data.len(), bytes_per_row);
        let mut rows: Vec<FileRow> = Vec::new();
        let mut row: usize = 0;
        let mut start: usize = 0;
        let ghost width = bytes_per_row as int;
        while row < count
            invariant
                row <= count,
                rows@.len() == row,
                width == bytes_per_row,
                start == row * width,
                count * width <= usize::MAX,
                forall|r: int|
                    0 <= r < row ==> (#[trigger] rows@[r]).shows(
                        data@,
                        r * width,
                        least(r * width + width, data@.len() as int),
                    ),
            decreases count - row,
        {
            assert(row * width + width <= count * width) by (nonlinear_arith)
                requires
                    row + 1 <= count,
                    0 <= width,
            ;
            assert((row + 1) * width == row * width + width) by (nonlinear_arith);
            let next: usize = start + bytes_per_row;
            let end: usize = if next < data.len() {
                next
            } else {
                data.len()
            };
            rows.push(render_file_row(data, start, end));
            start = next;
            row += 1;
        }
        rows
    }
}

/// A row of the hex view of one file.
fn render_file_row(data: &[u8], start: usize, end: usize) -> (row: FileRow)
    requires
        end <= data@.len(),
    ensures
        row.shows(data@, start as int, end as int),
{
    let mut shown: Vec<HexCell> = Vec::new();
    let mut ascii = String::new();
    let mut i: usize = start;
    while i < end
        invariant
            start <= i,
            start < end ==> i <= end,
            start >= end ==> i == start,
            end <= data@.len(),
            shown@ =~= Seq::new(
                places(start as int, i as int),
                |k: int| HexCell::Byte { byte: data@[start + k], is_diff: false },
            ),
            ascii@ =~= Seq::new(
                places(start as int, i as int),
                |k: int| ascii_char(data@[start + k]),
            ),
        decreases end - i,
    {
        shown.push(HexCell::Byte { byte: data[i], is_diff: false });
        ascii.push(show_byte(data[i]));
        i += 1;
    }
    FileRow { address: format_address(start), cells: shown, ascii }
}

} // verus!
