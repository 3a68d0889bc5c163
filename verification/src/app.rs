//! The comparison as a whole: choosing files, comparing their bytes and moving
//! them against each other.

use crate::candidates::{APPLIED_WINDOW, LARGE_FILE_THRESHOLD};
use crate::error::BinpareError;
use crate::file::{FileSlot, FileView, LoadedFile};
use crate::score::{overlap, Score};
use crate::state::{DiffState, FileState, FileStateView, UIState};
use std::path::PathBuf;
use vstd::prelude::*;

verus! {

/// The largest file that is loaded, in bytes.
pub const MAX_FILE_SIZE: usize = LARGE_FILE_THRESHOLD * 10;

/// For each position that both files have, whether their bytes differ.
pub open spec fn byte_diff(data_a: Seq<u8>, data_b: Seq<u8>) -> Seq<bool> {
    Seq::new(overlap(data_a, data_b) as nat, |i: int| data_a[i] != data_b[i])
}

/// Where the files are moved to by an offset. An offset that is not negative
/// moves the smaller file down, past the head of the larger one; a negative one
/// moves the larger file down.
pub open spec fn applied_offsets(offset: i32, a_larger: bool) -> (usize, usize) {
    if offset >= 0 {
        if a_larger {
            (0, offset as usize)
        } else {
            (offset as usize, 0)
        }
    } else {
        if a_larger {
            ((-offset) as usize, 0)
        } else {
            (0, (-offset) as usize)
        }
    }
}

impl FileStateView {
    /// The offset by which a candidate is applied so that what its score compared
    /// stands side by side. Candidates that skip the head of file A are written
    /// with one sign and those of file B with the other, whereas an offset is
    /// applied by which file is the larger; so the sign changes if that is B.
    pub open spec fn lining_offset(self, candidate: i32) -> i32 {
        match self.size_diff() {
            Some((_, false)) => if candidate == i32::MIN {
                candidate
            } else {
                (-candidate) as i32
            },
            _ => candidate,
        }
    }

    /// The files moved by an offset; files of one size stay where they are.
    pub open spec fn applied(self, offset: i32) -> FileStateView {
        match self.size_diff() {
            Some((_, a_larger)) => {
                let (offset_a, offset_b) = applied_offsets(offset, a_larger);
                self.with_offsets(offset_a, offset_b)
            },
            None => self,
        }
    }
}

/// A comparison of two files in all its state.
#[derive(Debug)]
pub struct BinpareApp {
    pub file_state: FileState,
    pub diff_state: DiffState,
    pub ui_state: UIState,
}

impl BinpareApp {
    /// No file is chosen and nothing is compared or suggested.
    pub open spec fn is_initial(self) -> bool {
        &&& self.file_state@ == FileStateView::empty()
        &&& self.diff_state.diff is None
        &&& self.diff_state.diff_highlight
        &&& self.ui_state.is_initial()
    }

    /// Both files have arrived, and no offsets have been suggested for them.
    pub open spec fn suggestion_due(self) -> bool {
        !self.ui_state.offset_candidates_calculated && self.file_state@.both_ready()
    }

    /// The stored differences are those of the files; as far as these cannot be
    /// read, the stored differences are `before`.
    pub open spec fn diff_is_current(self, before: Option<Seq<bool>>) -> bool {
        self.diff_state.diff_seq() == match self.file_state@.contents() {
            Some((data_a, data_b)) => Some(byte_diff(data_a, data_b)),
            None => before,
        }
    }
}

impl Default for BinpareApp {
    fn default() -> (app: Self)
        ensures
            app.is_initial(),
    {
        BinpareApp {
            file_state: FileState::default(),
            diff_state: DiffState::default(),
            ui_state: UIState::default(),
        }
    }
}

impl BinpareApp {
    /// No file is chosen and nothing is compared or suggested.
    pub fn new() -> (app: Self)
        ensures
            app.is_initial(),
    {
        Self::default()
    }

    /// Waits for a file dialog that was opened for a slot, in place of one that
    /// is still open.
    pub fn load_file(&mut self, slot: FileSlot)
        ensures
            final(self).ui_state == (UIState { dialog_slot: Some(slot), ..old(self).ui_state }),
            final(self).file_state == old(self).file_state,
            final(self).diff_state == old(self).diff_state,
    {
        self.ui_state.dialog_slot = Some(slot);
    }

    /// Takes what the open file dialog has answered, if it has: the path that was
    /// chosen, if one was. Gives back the file that is to be loaded, and the slot
    /// that it is for.
    pub fn handle_file_dialog(
        &mut self,
        answer: Option<Option<PathBuf>>,
    ) -> (chosen: Option<(FileSlot, PathBuf)>)
        ensures
            chosen == (match (old(self).ui_state.dialog_slot, answer) {
                (Some(slot), Some(Some(path))) => Some((slot, path)),
                _ => None,
            }),
            final(self).ui_state == (UIState {
                dialog_slot: if answer is Some {
                    None
                } else {
                    old(self).ui_state.dialog_slot
                },
                ..old(self).ui_state
            }),
            final(self).file_state == old(self).file_state,
            final(self).diff_state == old(self).diff_state,
    {
        match (self.ui_state.dialog_slot, answer) {
            (Some(slot), Some(path)) => {
                self.ui_state.dialog_slot = None;
                match path {
                    Some(path) => Some((slot, path)),
                    None => None,
                }
            },
            _ => None,
        }
    }

    /// Chooses a file whose size has been looked up. Its bytes are to be read
    /// and handed to [`BinpareApp::load_file_async`].
    pub fn load_file_from_path(
        &mut self,
        slot: FileSlot,
        path: PathBuf,
        metadata: std::io::Result<u64>,
    ) -> (result: Result<(), BinpareError>)
        ensures
            result == (match metadata {
                Err(_) => Err(BinpareError::IoError),
                Ok(len) => if len > MAX_FILE_SIZE {
                    Err(BinpareError::FileTooLarge)
                } else {
                    Ok(())
                },
            }),
            result is Err ==> *final(self) == *old(self),
            result is Ok ==> {
                &&& final(self).file_state@ == old(self).file_state@.with_file(
                    slot,
                    FileView::unread(path),
                )
                &&& final(self).ui_state.offset_candidates@ == Seq::<(i32, Score)>::empty()
                &&& !final(self).ui_state.offset_candidates_calculated
            },
            final(self).diff_state == old(self).diff_state,
            final(self).ui_state.bytes_per_row == old(self).ui_state.bytes_per_row,
            final(self).ui_state.dialog_slot == old(self).ui_state.dialog_slot,
    {
        let len: u64 = match metadata {
            Ok(len) => len,
            Err(error) => {
                return Err(BinpareError::from(error));
            },
        };
        if len > MAX_FILE_SIZE as u64 {
            return Err(BinpareError::FileTooLarge);
        }
        self.file_state.set_file(slot, LoadedFile::new(path));
        self.ui_state.offset_candidates_calculated = false;
        self.ui_state.offset_candidates.clear();
        Ok(())
    }

    /// Records what reading a file has given.
    pub fn load_file_async(
        file: &mut LoadedFile,
        read: std::io::Result<Vec<u8>>,
    ) -> (result: Result<(), BinpareError>)
        ensures
            match read {
                Ok(data) => result == Ok::<(), BinpareError>(()) && final(file)@ == old(
                    file,
                )@.with_content(data@),
                Err(_) => result == Err::<(), BinpareError>(BinpareError::IoError) && final(file)@
                    == old(file)@,
            },
    {
        match read {
            Ok(data) => {
                file.set_data(data);
                Ok(())
            },
            Err(error) => Err(BinpareError::from(error)),
        }
    }

    /// Compares the files and suggests offsets, once both have arrived.
    pub fn check_and_calculate_diff(&mut self)
        ensures
            !old(self).file_state@.both_ready() ==> *final(self) == *old(self),
            old(self).file_state@.both_ready() ==> final(self).diff_is_current(
                old(self).diff_state.diff_seq(),
            ),
            old(self).suggestion_due() ==> {
                &&& final(self).ui_state.offset_candidates@ == old(
                    self,
                ).file_state@.all_suggested()
                &&& final(self).ui_state.offset_candidates_calculated
            },
            !old(self).suggestion_due() ==> final(self).ui_state == old(self).ui_state,
            final(self).file_state == old(self).file_state,
            final(self).diff_state.diff_highlight == old(self).diff_state.diff_highlight,
            final(self).ui_state.bytes_per_row == old(self).ui_state.bytes_per_row,
            final(self).ui_state.dialog_slot == old(self).ui_state.dialog_slot,
    {
        if self.file_state.both_files_ready() {
            self.calculate_diff();
            self.suggest_offset_if_needed();
        }
    }

    /// Compares the files byte by byte, as far as both go.
    pub fn calculate_diff(&mut self)
        ensures
            final(self).diff_is_current(old(self).diff_state.diff_seq()),
            final(self).file_state == old(self).file_state,
            final(self).diff_state.diff_highlight == old(self).diff_state.diff_highlight,
            final(self).ui_state == old(self).ui_state,
    {
        if let Some((data_a, data_b)) = self.file_state.contents() {
            let min_len: usize = if data_a.len() <= data_b.len() {
                data_a.len()
            } else {
                data_b.len()
            };
            let mut diff: Vec<bool> = Vec::new();
            let mut i: usize = 0;
            while i < min_len
                invariant
                    i <= min_len,
                    min_len == overlap(data_a@, data_b@),
                    diff@ == byte_diff(data_a@, data_b@).take(i as int),
                decreases min_len - i,
            {
                diff.push(data_a[i] != data_b[i]);
                i += 1;
                assert(diff@ =~= byte_diff(data_a@, data_b@).take(i as int));
            }
            assert(diff@ =~= byte_diff(data_a@, data_b@));
            self.diff_state.diff = Some(diff);
        }
    }

    /// Moves the files by a suggested offset, compares them again and suggests
    /// further offsets. Nothing happens to files of one size, nor when the files
    /// stand there already.
    pub fn apply_offset_candidate(&mut self, offset: i32)
        requires
            old(self).file_state@.size_diff() is Some ==> offset > i32::MIN,
        ensures
            final(self).file_state@ == old(self).file_state@.applied(offset),
            final(self).file_state@ == old(self).file_state@ ==> *final(self) == *old(self),
            final(self).file_state@ != old(self).file_state@ ==> {
                &&& old(self).file_state@.size_diff() matches Some((_, a_larger))
                &&& final(self).ui_state.offset_candidates@ == old(self).file_state@.suggested(
                    APPLIED_WINDOW as int,
                    a_larger,
                )
                &&& !final(self).ui_state.offset_candidates_calculated
                &&& final(self).diff_is_current(None)
            },
            final(self).diff_state.diff_highlight == old(self).diff_state.diff_highlight,
            final(self).ui_state.bytes_per_row == old(self).ui_state.bytes_per_row,
            final(self).ui_state.dialog_slot == old(self).ui_state.dialog_slot,
    {
        if let Some((_, a_larger)) = self.file_state.get_size_diff() {
            let (new_offset_a, new_offset_b): (usize, usize) = if offset >= 0 {
                if a_larger {
                    (0, offset as usize)
                } else {
                    (offset as usize, 0)
                }
            } else {
                let abs_offset: usize = (-offset) as usize;
                if a_larger {
                    (abs_offset, 0)
                } else {
                    (0, abs_offset)
                }
            };
            let (offset_a, offset_b): (usize, usize) = self.file_state.offsets();
            if offset_a == new_offset_a && offset_b == new_offset_b {
                return;
            }
            self.file_state.set_offsets(new_offset_a, new_offset_b);
            self.diff_state.diff = None;
            self.calculate_diff();
            self.ui_state.offset_candidates_calculated = false;
            self.ui_state.offset_candidates = self.suggest_offset_candidates(
                APPLIED_WINDOW,
                a_larger,
            );
        }
    }
}

} // verus!
