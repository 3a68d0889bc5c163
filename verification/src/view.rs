//! What the window shows: which view is up, and what stands around the hex view.

use crate::app::BinpareApp;
use crate::file::{FileSlot, LoadedFile};
use crate::hexview::{can_lay_out, can_show, file_rows_show, rows_show, FileRow, HexRow};
use crate::score::Score;
use crate::state::FileStateView;
use crate::text::{decimal, push_digits, push_signed};
use vstd::prelude::*;
use vstd::string::StringExecFns;

verus! {

/// Which view fills the window.
#[derive(Debug, Clone, Copy, PartialEq, Eq, Structural)]
pub enum CentralView {
    /// Both files, side by side.
    Comparison,
    /// One file.
    SingleFile(FileSlot),
    /// One file is chosen, and its bytes have not arrived.
    Loading(FileSlot),
    /// No file is chosen.
    Welcome,
}

impl FileStateView {
    /// The view for the files: both of them once both have arrived; before that,
    /// file A as far as it has come, or file B where no file A is chosen.
    pub open spec fn central_view(self) -> CentralView {
        if self.both_ready() {
            CentralView::Comparison
        } else if let Some(a) = self.file_a {
            if a.ready {
                CentralView::SingleFile(FileSlot::A)
            } else {
                CentralView::Loading(FileSlot::A)
            }
        } else if let Some(b) = self.file_b {
            if b.ready {
                CentralView::SingleFile(FileSlot::B)
            } else {
                CentralView::Loading(FileSlot::B)
            }
        } else {
            CentralView::Welcome
        }
    }
}

/// A file as it is shown alone.
#[derive(Debug)]
pub struct SingleFileView {
    /// Which file it is.
    pub title: String,
    pub size: String,
    /// The rows of its hex view, unless its bytes cannot be read.
    pub rows: Option<Vec<FileRow>>,
}

/// A suggested offset, with what stands on the button that applies it.
#[derive(Debug)]
pub struct Suggestion {
    pub button: String,
    pub offset: i32,
    pub score: Score,
    /// What the button hands to [`BinpareApp::apply_offset_candidate`] so that
    /// what the score compared stands side by side.
    pub applied: i32,
}

/// What is shown of files that differ in size.
#[derive(Debug)]
pub struct SizeDifference {
    pub bytes: String,
    /// Which file is the larger one.
    pub order: String,
}

/// What stands above the hex view of two files.
#[derive(Debug)]
pub struct FileInfoHeader {
    pub size_a: String,
    pub size_b: String,
    /// The files differ in size.
    pub difference: Option<SizeDifference>,
    /// The suggested offsets, for files of different sizes and of one size alike.
    /// Applying one moves files of different sizes only: files of one size stay
    /// where they are.
    pub suggestions: Vec<Suggestion>,
}

/// The size of a file in words.
pub open spec fn size_text(size: usize) -> Seq<char> {
    "Size: "@ + decimal(size as int) + " bytes"@
}

/// Which file it is.
pub open spec fn title_text(slot: FileSlot) -> Seq<char> {
    match slot {
        FileSlot::A => "File A: "@,
        FileSlot::B => "File B: "@,
    }
}

/// The suggestions are the candidates, each with its button.
pub open spec fn offers(suggestions: Seq<Suggestion>, candidates: Seq<(i32, Score)>) -> bool {
    &&& suggestions.len() == candidates.len()
    &&& forall|i: int|
        0 <= i < suggestions.len() ==> {
            &&& (#[trigger] suggestions[i]).button@ == "Apply "@ + decimal(candidates[i].0 as int)
            &&& suggestions[i].offset == candidates[i].0
            &&& suggestions[i].score == candidates[i].1
        }
}

/// Each suggestion is applied by the offset that lines up what its score compared.
pub open spec fn lines_up(suggestions: Seq<Suggestion>, state: FileStateView) -> bool {
    forall|i: int|
        0 <= i < suggestions.len() ==> (#[trigger] suggestions[i]).applied == state.lining_offset(
            suggestions[i].offset,
        )
}

impl SizeDifference {
    /// Says by how many bytes the files differ and which is larger.
    pub open spec fn states(self, diff: usize, a_larger: bool) -> bool {
        &&& self.bytes@ == decimal(diff as int) + " bytes"@
        &&& self.order@ == if a_larger {
            "A > B"@
        } else {
            "B > A"@
        }
    }
}

/// The size of a file in words.
fn size_label(size: usize) -> (label: String)
    ensures
        label@ == size_text(size),
{
    let mut label = String::from_str("Size: ");
    push_digits(&mut label, size, 10);
    label.append(" bytes");
    label
}

impl BinpareApp {
    /// Which view fills the window.
    pub fn central_view(&self) -> (view: CentralView)
        ensures
            view == self.file_state@.central_view(),
    {
        if self.file_state.both_files_ready() {
            CentralView::Comparison
        } else if let Some(file) = self.file_state.get_file(FileSlot::A) {
            if file.is_ready() {
                CentralView::SingleFile(FileSlot::A)
            } else {
                CentralView::Loading(FileSlot::A)
            }
        } else if let Some(file) = self.file_state.get_file(FileSlot::B) {
            if file.is_ready() {
                CentralView::SingleFile(FileSlot::B)
            } else {
                CentralView::Loading(FileSlot::B)
            }
        } else {
            CentralView::Welcome
        }
    }

    /// A file as it is shown alone.
    pub fn render_single_file_view(
        &self,
        file: &LoadedFile,
        slot: FileSlot,
    ) -> (view: SingleFileView)
        requires
            file@.content matches Some(data) ==> can_lay_out(
                data.len() as int,
                self.ui_state.bytes_per_row,
            ),
        ensures
            view.title@ == title_text(slot),
            view.size@ == size_text(file@.size),
            file@.content is None ==> view.rows is None,
            file@.content matches Some(data) ==> {
                &&& view.rows matches Some(rows)
                &&& file_rows_show(rows@, self.ui_state.bytes_per_row, data)
            },
    {
        let title = match slot {
            FileSlot::A => String::from_str("File A: "),
            FileSlot::B => String::from_str("File B: "),
        };
        let rows = match file.data().lock() {
            Some(data) => Some(self.render_single_file_data(data.as_slice())),
            None => None,
        };
        SingleFileView { title, size: size_label(file.size()), rows }
    }

    /// Gets the comparison of the two files ready to be shown: whether both are
    /// chosen. Offsets are suggested first, unless that was done already.
    pub fn render_comparison_view(&mut self) -> (both: bool)
        ensures
            both == (old(self).file_state@.file_a is Some && old(self).file_state@.file_b is Some),
            !old(self).suggestion_due() ==> *final(self) == *old(self),
            old(self).suggestion_due() ==> {
                &&& final(self).ui_state.offset_candidates@ == old(
                    self,
                ).file_state@.all_suggested()
                &&& final(self).ui_state.offset_candidates_calculated
            },
            final(self).file_state == old(self).file_state,
            final(self).diff_state == old(self).diff_state,
            final(self).ui_state.bytes_per_row == old(self).ui_state.bytes_per_row,
            final(self).ui_state.dialog_slot == old(self).ui_state.dialog_slot,
    {
        let both: bool = self.file_state.get_file(FileSlot::A).is_some()
            && self.file_state.get_file(FileSlot::B).is_some();
        if both && !self.ui_state.offset_candidates_calculated {
            self.suggest_offset_if_needed();
        }
        both
    }

    /// What stands above the hex view of two files.
    pub fn render_file_info_header(
        &self,
        file_a: &LoadedFile,
        file_b: &LoadedFile,
    ) -> (header: FileInfoHeader)
        ensures
            header.size_a@ == size_text(file_a@.size),
            header.size_b@ == size_text(file_b@.size),
            self.file_state@.size_diff() is None ==> header.difference is None,
            self.file_state@.size_diff() matches Some((diff, a_larger)) ==> {
                &&& header.difference matches Some(difference)
                &&& difference.states(diff, a_larger)
            },
            offers(header.suggestions@, self.ui_state.offset_candidates@),
            lines_up(header.suggestions@, self.file_state@),
    {
        let difference = match self.file_state.get_size_diff() {
            Some((diff, a_larger)) => {
                let mut bytes = String::new();
                push_digits(&mut bytes, diff, 10);
                bytes.append(" bytes");
                assert(bytes@ =~= decimal(diff as int) + " bytes"@);
                let order = if a_larger {
                    String::from_str("A > B")
                } else {
                    String::from_str("B > A")
                };
                Some(SizeDifference { bytes, order })
            },
            None => None,
        };
        FileInfoHeader {
            size_a: size_label(file_a.size()),
            size_b: size_label(file_b.size()),
            difference,
            suggestions: self.offer_candidates(),
        }
    }

    /// The suggested offsets, each with its button.
    fn offer_candidates(&self) -> (suggestions: Vec<Suggestion>)
        ensures
            offers(suggestions@, self.ui_state.offset_candidates@),
            lines_up(suggestions@, self.file_state@),
    {
        let b_larger: bool = match self.file_state.get_size_diff() {
            Some((_, a_larger)) => !a_larger,
            None => false,
        };
        let candidates = &self.ui_state.offset_candidates;
        let mut suggestions: Vec<Suggestion> = Vec::new();
        let mut i: usize = 0;
        while i < candidates.len()
            invariant
                i <= candidates@.len(),
                b_larger == (self.file_state@.size_diff() matches Some((_, false))),
                offers(suggestions@, candidates@.take(i as int)),
                lines_up(suggestions@, self.file_state@),
            decreases candidates@.len() - i,
        {
            let (offset, score) = candidates[i];
            let mut button = String::from_str("Apply ");
            push_signed(&mut button, offset);
            let ghost before = suggestions@;
            let applied: i32 = if b_larger && offset != i32::MIN {
                -offset
            } else {
                offset
            };
            suggestions.push(Suggestion { button, offset, score, applied });
            assert(lines_up(suggestions@, self.file_state@)) by {
                assert forall|k: int| 0 <= k < suggestions@.len() implies (
                #[trigger] suggestions@[k]).applied == self.file_state@.lining_offset(
                    suggestions@[k].offset,
                ) by {
                    if k < i {
                        assert(suggestions@[k] == before[k]);
                    }
                }
            }
            assert(offers(suggestions@, candidates@.take(i + 1))) by {
                assert forall|k: int| 0 <= k < suggestions@.len() implies {
                    &&& (#[trigger] suggestions@[k]).button@ == "Apply "@ + decimal(
                        candidates@.take(i + 1)[k].0 as int,
                    )
                    &&& suggestions@[k].offset == candidates@.take(i + 1)[k].0
                    &&& suggestions@[k].score == candidates@.take(i + 1)[k].1
                } by {
                    if k < i {
                        assert(suggestions@[k] == before[k]);
                        assert(candidates@.take(i as int)[k] == candidates@[k]);
                    }
                }
            }
            i += 1;
        }
        assert(candidates@.take(i as int) =~= candidates@);
        suggestions
    }

    /// How far the files are moved, in words.
    pub fn current_offsets_label(&self) -> (label: String)
        ensures
            label@ == "Current offsets: A="@ + decimal(self.file_state@.offset_a as int)
                + ", B="@ + decimal(self.file_state@.offset_b as int),
    {
        let (offset_a, offset_b): (usize, usize) = self.file_state.offsets();
        let mut label = String::from_str("Current offsets: A=");
        push_digits(&mut label, offset_a, 10);
        label.append(", B=");
        push_digits(&mut label, offset_b, 10);
        label
    }

    /// The rows of the hex view of the two files, unless these cannot be read.
    pub fn render_combined_hex_data_with_offset(&self) -> (rows: Option<Vec<HexRow>>)
        requires
            self.file_state@.contents() matches Some((data_a, data_b)) ==> can_show(
                self.display_config(),
                data_a.len() as int,
                data_b.len() as int,
            ),
        ensures
            self.file_state@.contents() is None ==> rows is None,
            self.file_state@.contents() matches Some((data_a, data_b)) ==> {
                &&& rows matches Some(shown)
                &&& rows_show(shown@, self.display_config(), data_a, data_b)
            },
    {
        match self.file_state.contents() {
            Some((data_a, data_b)) => Some(
                self.render_hex_rows(data_a.as_slice(), data_b.as_slice()),
            ),
            None => None,
        }
    }
}

} // verus!
