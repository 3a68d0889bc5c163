use binpare::app::{BinpareApp, MAX_FILE_SIZE};
use binpare::error::BinpareError;
use binpare::file::{FileSlot, LoadedFile};
use binpare::state::{DiffState, FileState, DEFAULT_BYTES_PER_ROW};
use binpare::view::CentralView;
use std::io;
use std::path::PathBuf;

fn not_found() -> io::Error {
    io::Error::new(io::ErrorKind::NotFound, "gone")
}

fn ready_file(name: &str, bytes: &[u8]) -> LoadedFile {
    let mut file = LoadedFile::new(PathBuf::from(name));
    file.set_data(bytes.to_vec());
    file
}

#[test]
fn new_file_is_unread() {
    let file = LoadedFile::new(PathBuf::from("dir/a.bin"));
    assert_eq!(file.path(), &PathBuf::from("dir/a.bin"));
    assert!(!file.is_ready());
    assert_eq!(file.size(), 0);
    assert_eq!(file.with_data(|data| data.len()), Some(0));
    assert_eq!(file.data().lock(), Some(&Vec::new()));
}

#[test]
fn read_gives_back_what_arrived() {
    let file = ready_file("a", &[1, 2, 3]);
    assert!(file.is_ready());
    assert_eq!(file.size(), 3);
    assert_eq!(file.with_data(|data| data.to_vec()), Some(vec![1, 2, 3]));
    assert_eq!(file.data().lock(), Some(&vec![1, 2, 3]));
}

#[test]
fn later_bytes_replace_earlier_ones() {
    let mut file = ready_file("a", &[1, 2, 3]);
    file.set_data(vec![9]);
    assert_eq!(file.size(), 1);
    assert_eq!(file.with_data(|data| data.to_vec()), Some(vec![9]));
}

#[test]
fn unreadable_bytes_stay_unreadable() {
    let mut file = ready_file("a", &[1, 2, 3]);
    file.poison_data();
    assert_eq!(file.with_data(|data| data.len()), None);
    assert!(file.is_ready());
    assert_eq!(file.size(), 3);
    file.set_data(vec![1, 2, 3, 4]);
    assert_eq!(file.with_data(|data| data.len()), None);
    assert_eq!(file.data().lock(), None);
    assert_eq!(file.size(), 4);
}

#[test]
fn arrival_is_recorded_for_unreadable_bytes() {
    let mut file = LoadedFile::new(PathBuf::from("a"));
    file.poison_data();
    assert!(!file.is_ready());
    file.set_data(vec![7, 7]);
    assert!(file.is_ready());
    assert_eq!(file.size(), 2);
}

#[test]
fn slots_are_independent() {
    let mut state = FileState::new();
    assert!(state.get_file(FileSlot::A).is_none());
    assert!(state.get_file(FileSlot::B).is_none());
    state.set_file(FileSlot::B, ready_file("b", &[1]));
    assert!(state.get_file(FileSlot::A).is_none());
    assert_eq!(state.get_file(FileSlot::B).unwrap().size(), 1);
    state.set_file(FileSlot::A, ready_file("a", &[1, 2]));
    assert_eq!(state.get_file(FileSlot::A).unwrap().size(), 2);
    assert_eq!(state.get_file(FileSlot::B).unwrap().path(), &PathBuf::from("b"));
    state.get_file_mut(FileSlot::B).unwrap().set_data(vec![1, 2, 3]);
    assert_eq!(state.get_file(FileSlot::B).unwrap().size(), 3);
    assert_eq!(state.get_file(FileSlot::A).unwrap().size(), 2);
}

#[test]
fn both_files_must_have_arrived() {
    let mut state = FileState::new();
    assert!(!state.both_files_ready());
    state.set_file(FileSlot::A, ready_file("a", &[]));
    assert!(!state.both_files_ready());
    state.set_file(FileSlot::B, LoadedFile::new(PathBuf::from("b")));
    assert!(!state.both_files_ready());
    state.get_file_mut(FileSlot::B).unwrap().set_data(Vec::new());
    assert!(state.both_files_ready());
}

#[test]
fn size_difference_names_the_larger_file() {
    let mut state = FileState::new();
    assert_eq!(state.get_size_diff(), None);
    state.set_file(FileSlot::A, ready_file("a", &[0; 5]));
    assert_eq!(state.get_size_diff(), None);
    state.set_file(FileSlot::B, ready_file("b", &[0; 5]));
    assert_eq!(state.get_size_diff(), None);
    state.set_file(FileSlot::B, ready_file("b", &[0; 3]));
    assert_eq!(state.get_size_diff(), Some((2, true)));
    state.set_file(FileSlot::A, LoadedFile::new(PathBuf::from("a")));
    assert_eq!(state.get_size_diff(), Some((3, false)));
}

#[test]
fn offsets_are_kept_and_reset() {
    let mut state = FileState::new();
    assert_eq!(state.offsets(), (0, 0));
    state.set_offsets(7, 3);
    assert_eq!(state.offsets(), (7, 3));
    state.reset_offsets();
    assert_eq!(state.offsets(), (0, 0));
}

#[test]
fn a_fresh_comparison_is_empty() {
    let app = BinpareApp::new();
    assert!(app.file_state.get_file(FileSlot::A).is_none());
    assert!(app.diff_state.diff.is_none());
    assert!(app.diff_state.diff_highlight);
    assert!(DiffState::new().diff_highlight);
    assert_eq!(app.ui_state.bytes_per_row, DEFAULT_BYTES_PER_ROW);
    assert_eq!(app.ui_state.bytes_per_row, 16);
    assert!(app.ui_state.offset_candidates.is_empty());
    assert!(!app.ui_state.offset_candidates_calculated);
    assert_eq!(app.ui_state.dialog_slot, None);
    assert_eq!(app.central_view(), CentralView::Welcome);
}

#[test]
fn files_over_ten_megabytes_are_refused() {
    let mut app = BinpareApp::new();
    assert_eq!(MAX_FILE_SIZE, 10485760);
    assert_eq!(
        app.load_file_from_path(FileSlot::A, PathBuf::from("a"), Ok(10485761)),
        Err(BinpareError::FileTooLarge)
    );
    assert_eq!(
        app.load_file_from_path(FileSlot::A, PathBuf::from("a"), Ok(0x1_0000_0000)),
        Err(BinpareError::FileTooLarge)
    );
    assert!(app.file_state.get_file(FileSlot::A).is_none());
    assert_eq!(
        app.load_file_from_path(FileSlot::A, PathBuf::from("a"), Ok(10485760)),
        Ok(())
    );
    assert!(app.file_state.get_file(FileSlot::A).is_some());
}

#[test]
fn missing_files_are_refused() {
    let mut app = BinpareApp::new();
    assert_eq!(
        app.load_file_from_path(FileSlot::B, PathBuf::from("b"), Err(not_found())),
        Err(BinpareError::IoError)
    );
    assert!(app.file_state.get_file(FileSlot::B).is_none());
    assert_eq!(BinpareError::from(not_found()), BinpareError::IoError);
}

#[test]
fn a_file_that_cannot_be_read_stays_unready() {
    let mut file = LoadedFile::new(PathBuf::from("a"));
    assert_eq!(
        BinpareApp::load_file_async(&mut file, Err(not_found())),
        Err(BinpareError::IoError)
    );
    assert!(!file.is_ready());
    assert_eq!(BinpareApp::load_file_async(&mut file, Ok(vec![5])), Ok(()));
    assert!(file.is_ready());
    assert_eq!(file.size(), 1);
}

#[test]
fn choosing_a_file_drops_the_suggestions() {
    let mut app = BinpareApp::new();
    app.file_state.set_file(FileSlot::A, ready_file("a", &[1, 2]));
    app.file_state.set_file(FileSlot::B, ready_file("b", &[1, 2]));
    app.file_state.set_offsets(4, 0);
    app.check_and_calculate_diff();
    assert!(app.ui_state.offset_candidates_calculated);
    assert!(!app.ui_state.offset_candidates.is_empty());
    app.load_file_from_path(FileSlot::B, PathBuf::from("c"), Ok(2)).unwrap();
    assert!(!app.ui_state.offset_candidates_calculated);
    assert!(app.ui_state.offset_candidates.is_empty());
    assert_eq!(app.file_state.offsets(), (4, 0));
    assert_eq!(app.diff_state.diff, Some(vec![false, false]));
    assert_eq!(app.file_state.get_file(FileSlot::A).unwrap().path(), &PathBuf::from("a"));
    assert_eq!(app.file_state.get_file(FileSlot::B).unwrap().path(), &PathBuf::from("c"));
    assert_eq!(app.central_view(), CentralView::SingleFile(FileSlot::A));
}

#[test]
fn the_last_dialog_gets_the_answer() {
    let mut app = BinpareApp::new();
    assert_eq!(app.handle_file_dialog(Some(Some(PathBuf::from("x")))), None);
    app.load_file(FileSlot::A);
    app.load_file(FileSlot::B);
    assert_eq!(app.handle_file_dialog(None), None);
    assert_eq!(app.ui_state.dialog_slot, Some(FileSlot::B));
    assert_eq!(
        app.handle_file_dialog(Some(Some(PathBuf::from("x")))),
        Some((FileSlot::B, PathBuf::from("x")))
    );
    assert_eq!(app.ui_state.dialog_slot, None);
}

#[test]
fn a_cancelled_dialog_loads_nothing() {
    let mut app = BinpareApp::new();
    app.load_file(FileSlot::A);
    assert_eq!(app.handle_file_dialog(Some(None)), None);
    assert_eq!(app.ui_state.dialog_slot, None);
    assert!(app.file_state.get_file(FileSlot::A).is_none());
}

#[test]
fn the_view_follows_the_files() {
    let mut app = BinpareApp::new();
    app.file_state.set_file(FileSlot::B, LoadedFile::new(PathBuf::from("b")));
    assert_eq!(app.central_view(), CentralView::Loading(FileSlot::B));
    app.file_state.get_file_mut(FileSlot::B).unwrap().set_data(vec![1]);
    assert_eq!(app.central_view(), CentralView::SingleFile(FileSlot::B));
    app.file_state.set_file(FileSlot::A, LoadedFile::new(PathBuf::from("a")));
    assert_eq!(app.central_view(), CentralView::Loading(FileSlot::A));
    app.file_state.get_file_mut(FileSlot::A).unwrap().set_data(vec![1]);
    assert_eq!(app.central_view(), CentralView::Comparison);
}
