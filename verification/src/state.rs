//! The state of a comparison: the two files with their display offsets, the
//! byte differences, and what the window shows.

use crate::file::{FileSlot, FileView, LoadedFile};
use crate::score::Score;
use vstd::prelude::*;

verus! {

/// The number of bytes in a row of the hex view at first.
pub const DEFAULT_BYTES_PER_ROW: usize = 16;

/// The fewest bytes that a row of the hex view can be set to.
pub const MIN_BYTES_PER_ROW: usize = 8;

/// The most bytes that a row of the hex view can be set to.
pub const MAX_BYTES_PER_ROW: usize = 32;

/// What a [`FileState`] stands for.
#[verifier::ext_equal]
pub struct FileStateView {
    pub file_a: Option<FileView>,
    pub file_b: Option<FileView>,
    /// How far file A is moved down in the hex view, in bytes.
    pub offset_a: usize,
    /// How far file B is moved down in the hex view, in bytes.
    pub offset_b: usize,
}

impl FileStateView {
    /// No file is chosen, and nothing is moved.
    pub open spec fn empty() -> FileStateView {
        FileStateView { file_a: None, file_b: None, offset_a: 0, offset_b: 0 }
    }

    /// The sizes of both files agree with their bytes.
    pub open spec fn wf(self) -> bool {
        &&& self.file_a matches Some(a) ==> a.wf()
        &&& self.file_b matches Some(b) ==> b.wf()
    }

    /// The file in a slot.
    pub open spec fn file(self, slot: FileSlot) -> Option<FileView> {
        match slot {
            FileSlot::A => self.file_a,
            FileSlot::B => self.file_b,
        }
    }

    /// The state with another file in a slot.
    pub open spec fn with_file(self, slot: FileSlot, file: FileView) -> FileStateView {
        match slot {
            FileSlot::A => FileStateView { file_a: Some(file), ..self },
            FileSlot::B => FileStateView { file_b: Some(file), ..self },
        }
    }

    /// The state with other display offsets.
    pub open spec fn with_offsets(self, offset_a: usize, offset_b: usize) -> FileStateView {
        FileStateView { offset_a, offset_b, ..self }
    }

    /// Both files are chosen and their bytes have arrived.
    pub open spec fn both_ready(self) -> bool {
        &&& self.file_a matches Some(a) && a.ready
        &&& self.file_b matches Some(b) && b.ready
    }

    /// By how many bytes the sizes of the two files differ, and whether file A
    /// is the larger one; nothing unless both are chosen and differ in size.
    pub open spec fn size_diff(self) -> Option<(usize, bool)> {
        match (self.file_a, self.file_b) {
            (Some(a), Some(b)) => if a.size > b.size {
                Some(((a.size - b.size) as usize, true))
            } else if a.size < b.size {
                Some(((b.size - a.size) as usize, false))
            } else {
                None
            },
            _ => None,
        }
    }

    /// The bytes of both files; nothing unless both are chosen and readable.
    pub open spec fn contents(self) -> Option<(Seq<u8>, Seq<u8>)> {
        match (self.file_a, self.file_b) {
            (Some(a), Some(b)) => match (a.content, b.content) {
                (Some(data_a), Some(data_b)) => Some((data_a, data_b)),
                _ => None,
            },
            _ => None,
        }
    }
}

/// The two compared files and how far each is moved in the hex view.
#[derive(Debug)]
pub struct FileState {
    file_a: Option<LoadedFile>,
    file_b: Option<LoadedFile>,
    offset_a: usize,
    offset_b: usize,
}

impl View for FileState {
    type V = FileStateView;

    closed spec fn view(&self) -> FileStateView {
        FileStateView {
            file_a: match self.file_a {
                Some(file) => Some(file@),
                None => None,
            },
            file_b: match self.file_b {
                Some(file) => Some(file@),
                None => None,
            },
            offset_a: self.offset_a,
            offset_b: self.offset_b,
        }
    }
}

impl Default for FileState {
    fn default() -> (state: Self)
        ensures
            state@ == FileStateView::empty(),
    {
        FileState { file_a: None, file_b: None, offset_a: 0, offset_b: 0 }
    }
}

impl FileState {
    /// No file is chosen, and nothing is moved.
    pub fn new() -> (state: Self)
        ensures
            state@ == FileStateView::empty(),
    {
        Self::default()
    }

    /// Puts a file into a slot, in place of what was there.
    pub fn set_file(&mut self, slot: FileSlot, file: LoadedFile)
        ensures
            final(self)@ == old(self)@.with_file(slot, file@),
    {
        match slot {
            FileSlot::A => self.file_a = Some(file),
            FileSlot::B => self.file_b = Some(file),
        }
    }

    /// The file in a slot.
    pub fn get_file(&self, slot: FileSlot) -> (file: Option<&LoadedFile>)
        ensures
            self@.file(slot) is None ==> file is None,
            self@.file(slot) matches Some(view) ==> file matches Some(f) && f@ == view,
    {
        match slot {
            FileSlot::A => self.file_a.as_ref(),
            FileSlot::B => self.file_b.as_ref(),
        }
    }

    /// The file in a slot, to change it.
    pub fn get_file_mut(&mut self, slot: FileSlot) -> (file: Option<&mut LoadedFile>)
        ensures
            old(self)@.file(slot) is None ==> file is None && final(self)@ == old(self)@,
            old(self)@.file(slot) matches Some(view) ==> {
                &&& file matches Some(f)
                &&& f@ == view
                &&& final(self)@ == old(self)@.with_file(slot, final(f)@)
            },
    {
        match slot {
            FileSlot::A => self.file_a.as_mut(),
            FileSlot::B => self.file_b.as_mut(),
        }
    }

    /// Whether both files are chosen and their bytes have arrived.
    pub fn both_files_ready(&self) -> (ready: bool)
        ensures
            ready == self@.both_ready(),
    {
        match (&self.file_a, &self.file_b) {
            (Some(a), Some(b)) => a.is_ready() && b.is_ready(),
            _ => false,
        }
    }

    /// By how many bytes the sizes differ, and whether file A is the larger.
    pub fn get_size_diff(&self) -> (diff: Option<(usize, bool)>)
        ensures
            diff == self@.size_diff(),
            self@.wf(),
    {
        let size_a: Option<usize> = match &self.file_a {
            Some(file) => Some(file.size()),
            None => None,
        };
        let size_b: Option<usize> = match &self.file_b {
            Some(file) => Some(file.size()),
            None => None,
        };
        match (size_a, size_b) {
            (Some(a), Some(b)) => if a == b {
                None
            } else if a > b {
                Some((a - b, true))
            } else {
                Some((b - a, false))
            },
            _ => None,
        }
    }

    /// The bytes of both files, as far as they are chosen and readable.
    pub fn contents(&self) -> (contents: Option<(&Vec<u8>, &Vec<u8>)>)
        ensures
            self@.wf(),
            self@.contents() is None ==> contents is None,
            self@.contents() matches Some((data_a, data_b)) ==> {
                &&& contents matches Some((a, b))
                &&& a@ == data_a
                &&& b@ == data_b
            },
    {
        let data_a = match &self.file_a {
            Some(file) => file.data().lock(),
            None => None,
        };
        let data_b = match &self.file_b {
            Some(file) => file.data().lock(),
            None => None,
        };
        match (data_a, data_b) {
            (Some(a), Some(b)) => Some((a, b)),
            _ => None,
        }
    }

    /// Moves the two files in the hex view.
    pub fn set_offsets(&mut self, offset_a: usize, offset_b: usize)
        ensures
            final(self)@ == old(self)@.with_offsets(offset_a, offset_b),
    {
        self.offset_a = offset_a;
        self.offset_b = offset_b;
    }

    /// How far file A and file B are moved.
    pub fn offsets(&self) -> (offsets: (usize, usize))
        ensures
            offsets == (self@.offset_a, self@.offset_b),
    {
        (self.offset_a, self.offset_b)
    }

    /// Moves both files back to the start.
    pub fn reset_offsets(&mut self)
        ensures
            final(self)@ == old(self)@.with_offsets(0, 0),
    {
        self.offset_a = 0;
        self.offset_b = 0;
    }
}

/// The byte differences between the two files.
#[derive(Debug)]
pub struct DiffState {
    /// For each position that both files have, whether their bytes differ.
    pub diff: Option<Vec<bool>>,
    /// Whether differing bytes are highlighted.
    pub diff_highlight: bool,
}

impl DiffState {
    /// The differences as a sequence.
    pub open spec fn diff_seq(self) -> Option<Seq<bool>> {
        match self.diff {
            Some(diff) => Some(diff@),
            None => None,
        }
    }
}

impl Default for DiffState {
    fn default() -> (state: Self)
        ensures
            state.diff is None,
            state.diff_highlight,
    {
        DiffState { diff: None, diff_highlight: true }
    }
}

impl DiffState {
    /// Nothing has been compared yet, and differences are highlighted.
    pub fn new() -> (state: Self)
        ensures
            state.diff is None,
            state.diff_highlight,
    {
        Self::default()
    }
}

/// What the window shows, and what it waits for.
#[derive(Debug)]
pub struct UIState {
    /// The number of bytes in a row of the hex view.
    pub bytes_per_row: usize,
    /// Suggested offsets with their scores, the best first.
    pub offset_candidates: Vec<(i32, Score)>,
    /// Whether the suggestions are those for the current files.
    pub offset_candidates_calculated: bool,
    /// The slot that a file dialog is open for which has not been answered.
    pub dialog_slot: Option<FileSlot>,
}

impl UIState {
    /// Nothing is suggested and no dialog is open.
    pub open spec fn is_initial(self) -> bool {
        &&& self.bytes_per_row == DEFAULT_BYTES_PER_ROW
        &&& self.offset_candidates@ == Seq::<(i32, Score)>::empty()
        &&& !self.offset_candidates_calculated
        &&& self.dialog_slot is None
    }
}

impl Default for UIState {
    fn default() -> (state: Self)
        ensures
            state.is_initial(),
    {
        UIState {
            bytes_per_row: DEFAULT_BYTES_PER_ROW,
            offset_candidates: Vec::new(),
            offset_candidates_calculated: false,
            dialog_slot: None,
        }
    }
}

} // verus!
