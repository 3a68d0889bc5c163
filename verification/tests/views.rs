use binpare::app::BinpareApp;
use binpare::file::{FileSlot, LoadedFile};
use binpare::hexview::HexCell;
use binpare::score::Score;
use binpare::text::{format_address, format_byte, push_digits, push_signed};
use std::path::PathBuf;

fn file(bytes: &[u8]) -> LoadedFile {
    let mut file = LoadedFile::new(PathBuf::from("f"));
    file.set_data(bytes.to_vec());
    file
}

fn compare(a: &[u8], b: &[u8]) -> BinpareApp {
    let mut app = BinpareApp::new();
    app.file_state.set_file(FileSlot::A, file(a));
    app.file_state.set_file(FileSlot::B, file(b));
    app
}

fn plain(byte: u8) -> HexCell {
    HexCell::Byte { byte, is_diff: false }
}

fn diff(byte: u8) -> HexCell {
    HexCell::Byte { byte, is_diff: true }
}

#[test]
fn numbers_are_written() {
    assert_eq!(format_byte(0), "00");
    assert_eq!(format_byte(0x0a), "0A");
    assert_eq!(format_byte(0xff), "FF");
    assert_eq!(format_address(0), "00000000");
    assert_eq!(format_address(0x1f0), "000001F0");
    assert_eq!(format_address(0x89abcdef), "89ABCDEF");
    let mut text = String::from("n=");
    push_digits(&mut text, 1020, 10);
    assert_eq!(text, "n=1020");
    let mut text = String::new();
    push_signed(&mut text, -45);
    push_signed(&mut text, 0);
    push_signed(&mut text, i32::MIN);
    assert_eq!(text, "-450-2147483648");
}

#[test]
fn every_byte_is_written_as_the_formatter_does() {
    for byte in 0..=255u8 {
        assert_eq!(format_byte(byte), format!("{:02X}", byte));
    }
    for n in [0usize, 15, 16, 4095, 65536, 0xffff_ffff] {
        assert_eq!(format_address(n), format!("{:08X}", n));
    }
}

#[test]
fn long_addresses_are_not_cut() {
    assert_eq!(format_address(usize::MAX), format!("{:08X}", usize::MAX));
}

#[test]
fn size_differences_are_differences() {
    let app = BinpareApp::new();
    assert!(!app.is_diff_at_index(&[1, 2], &[1, 3, 4], 0));
    assert!(app.is_diff_at_index(&[1, 2], &[1, 3, 4], 1));
    assert!(app.is_diff_at_index(&[1, 2], &[1, 3, 4], 2));
    assert!(app.is_diff_at_index(&[1, 2], &[1, 3, 4], 9));
    assert!(!app.is_diff_at_index(&[1, 2], &[1, 3], 2));
}

#[test]
fn a_row_shows_both_files() {
    let mut app = compare(b"AB\x00", b"AC\x00~!");
    app.ui_state.bytes_per_row = 8;
    let rows = app.render_combined_hex_data_with_offset().unwrap();
    assert_eq!(rows.len(), 1);
    assert_eq!(rows[0].address, "00000000");
    assert_eq!(
        rows[0].cells_a,
        vec![plain(0x41), diff(0x42), plain(0), HexCell::Missing, HexCell::Missing]
    );
    assert_eq!(
        rows[0].cells_b,
        vec![plain(0x41), diff(0x43), plain(0), diff(0x7e), diff(0x21)]
    );
    assert_eq!(rows[0].ascii_a, "AB.  ");
    assert_eq!(rows[0].ascii_b, "AC.~!");
}

#[test]
fn highlighting_can_be_off() {
    let mut app = compare(b"AB", b"AC!");
    app.diff_state.diff_highlight = false;
    let rows = app.render_combined_hex_data_with_offset().unwrap();
    assert_eq!(rows[0].cells_a, vec![plain(0x41), plain(0x42), HexCell::Missing]);
    assert_eq!(rows[0].cells_b, vec![plain(0x41), plain(0x43), plain(0x21)]);
}

#[test]
fn moved_files_start_with_placeholders() {
    let mut app = compare(b"abc", b"xabc");
    app.file_state.set_offsets(1, 0);
    let rows = app.render_combined_hex_data_with_offset().unwrap();
    assert_eq!(
        rows[0].cells_a,
        vec![HexCell::Placeholder, plain(0x61), plain(0x62), plain(0x63)]
    );
    assert_eq!(
        rows[0].cells_b,
        vec![diff(0x78), plain(0x61), plain(0x62), plain(0x63)]
    );
    assert_eq!(rows[0].ascii_a, "-abc");
    assert_eq!(rows[0].ascii_b, "xabc");
}

#[test]
fn bytes_beside_placeholders_are_held_against_the_first_byte() {
    let app = BinpareApp::new();
    let shown = app.render_file_data(b"aba", 0, true, b"aba", 2, 0, 3);
    assert_eq!(shown, vec![plain(0x61), diff(0x62), plain(0x61)]);
    assert_eq!(app.render_file_data(&[1, 2], 0, true, &[9, 2], 1, 0, 1), vec![diff(1)]);
    assert_eq!(app.render_file_data(&[1, 2, 3], 0, true, &[1, 2], 1, 0, 1), vec![plain(1)]);
    let shown = app.render_file_data(b"aba", 2, true, b"aba", 0, 3, 6);
    assert_eq!(shown, vec![plain(0x62), plain(0x61), HexCell::Missing]);
    assert!(app.render_file_data(b"aba", 0, true, b"aba", 0, 3, 2).is_empty());
}

#[test]
fn cells_are_labelled() {
    assert_eq!(HexCell::Placeholder.label(), "--");
    assert_eq!(HexCell::Missing.label(), "--");
    assert_eq!(diff(0xc).label(), "0C");
}

#[test]
fn only_visible_characters_are_shown() {
    let app = BinpareApp::new();
    let data = [0x1f, 0x20, 0x21, 0x7e, 0x7f, 0xff];
    assert_eq!(app.render_ascii_data(&data, 1, 0, 8), "-. !~.. ");
}

#[test]
fn places_are_broken_into_rows() {
    let mut app = compare(&[1; 20], &[1; 9]);
    app.ui_state.bytes_per_row = 8;
    app.file_state.set_offsets(0, 12);
    let rows = app.render_combined_hex_data_with_offset().unwrap();
    assert_eq!(rows.len(), 3);
    assert_eq!(rows[1].address, "00000008");
    assert_eq!(rows[2].address, "00000010");
    assert_eq!(rows[1].cells_a.len(), 8);
    assert_eq!(rows[2].cells_a.len(), 5);
    assert_eq!(rows[1].cells_b[3], HexCell::Placeholder);
    assert_eq!(rows[1].cells_b[4], plain(1));
    assert_eq!(rows[2].cells_a[3], plain(1));
    assert_eq!(rows[2].cells_a[4], HexCell::Missing);
}

#[test]
fn no_more_than_a_thousand_rows_are_shown() {
    let app = compare(&[0; 16001], &[0; 10]);
    assert_eq!(app.render_combined_hex_data_with_offset().unwrap().len(), 1000);
    assert_eq!(app.render_single_file_data(&[0; 15985]).len(), 1000);
    assert_eq!(app.render_single_file_data(&[0; 15984]).len(), 999);
    assert!(app.render_single_file_data(&[]).is_empty());
}

#[test]
fn one_file_is_shown_alone() {
    let mut app = BinpareApp::new();
    app.ui_state.bytes_per_row = 8;
    let view = app.render_single_file_view(&file(b"123456789\n"), FileSlot::B);
    assert_eq!(view.title, "File B: ");
    assert_eq!(view.size, "Size: 10 bytes");
    let rows = view.rows.unwrap();
    assert_eq!(rows.len(), 2);
    assert_eq!(rows[1].address, "00000008");
    assert_eq!(rows[1].cells, vec![plain(0x39), plain(0x0a)]);
    assert_eq!(rows[1].ascii, "9.");

    let mut lost = file(b"12");
    lost.poison_data();
    let view = app.render_single_file_view(&lost, FileSlot::A);
    assert_eq!(view.title, "File A: ");
    assert_eq!(view.size, "Size: 2 bytes");
    assert!(view.rows.is_none());
}

#[test]
fn the_header_tells_the_difference_in_size() {
    let mut app = compare(&[0; 12], &[0; 7]);
    app.ui_state.offset_candidates = vec![
        (-3, Score { matches: 1, total: 2 }),
        (4, Score { matches: 1, total: 4 }),
    ];
    let header = app.render_file_info_header(
        app.file_state.get_file(FileSlot::A).unwrap(),
        app.file_state.get_file(FileSlot::B).unwrap(),
    );
    assert_eq!(header.size_a, "Size: 12 bytes");
    assert_eq!(header.size_b, "Size: 7 bytes");
    let difference = header.difference.unwrap();
    assert_eq!(difference.bytes, "5 bytes");
    assert_eq!(difference.order, "A > B");
    assert_eq!(header.suggestions.len(), 2);
    assert_eq!(header.suggestions[0].button, "Apply -3");
    assert_eq!(header.suggestions[0].offset, -3);
    assert_eq!(header.suggestions[0].applied, -3);
    assert_eq!(header.suggestions[1].button, "Apply 4");
    assert_eq!(header.suggestions[1].score, Score { matches: 1, total: 4 });

    let app = compare(&[0; 7], &[0; 12]);
    let header = app.render_file_info_header(
        app.file_state.get_file(FileSlot::A).unwrap(),
        app.file_state.get_file(FileSlot::B).unwrap(),
    );
    assert_eq!(header.difference.unwrap().order, "B > A");

    let app = compare(&[0; 7], &[1; 7]);
    let header = app.render_file_info_header(
        app.file_state.get_file(FileSlot::A).unwrap(),
        app.file_state.get_file(FileSlot::B).unwrap(),
    );
    assert!(header.difference.is_none());
    assert!(header.suggestions.is_empty());
}

#[test]
fn suggestions_for_files_of_one_size_are_presented() {
    let a: Vec<u8> = (0..20).collect();
    let b: Vec<u8> = (3..23).collect();
    let mut app = compare(&a, &b);
    app.suggest_offset_if_needed();
    let header = app.render_file_info_header(
        app.file_state.get_file(FileSlot::A).unwrap(),
        app.file_state.get_file(FileSlot::B).unwrap(),
    );
    assert!(header.difference.is_none());
    assert_eq!(header.suggestions.len(), 1);
    assert_eq!(header.suggestions[0].button, "Apply 3");
    assert_eq!(header.suggestions[0].offset, 3);
    assert_eq!(header.suggestions[0].score, Score { matches: 17, total: 17 });
    assert_eq!(header.suggestions[0].applied, 3);
}

#[test]
fn applied_suggestions_line_up_where_b_is_larger() {
    let mut app = compare(&[9, 1, 2], &[1, 2, 5, 6]);
    app.ui_state.offset_candidates = app.suggest_offset_candidates(2, true);
    assert_eq!(app.ui_state.offset_candidates, vec![(1, Score { matches: 2, total: 2 })]);
    let header = app.render_file_info_header(
        app.file_state.get_file(FileSlot::A).unwrap(),
        app.file_state.get_file(FileSlot::B).unwrap(),
    );
    assert_eq!(header.suggestions[0].button, "Apply 1");
    assert_eq!(header.suggestions[0].applied, -1);
    app.apply_offset_candidate(header.suggestions[0].applied);
    assert_eq!(app.file_state.offsets(), (0, 1));
    let rows = app.render_combined_hex_data_with_offset().unwrap();
    assert_eq!(rows[0].cells_a[1..3], [plain(1), plain(2)]);
    assert_eq!(rows[0].cells_b[1..3], [plain(1), plain(2)]);
}

#[test]
fn the_offsets_are_told() {
    let mut app = BinpareApp::new();
    app.file_state.set_offsets(12, 0);
    assert_eq!(app.current_offsets_label(), "Current offsets: A=12, B=0");
}

#[test]
fn a_comparison_needs_both_files() {
    let mut app = BinpareApp::new();
    app.file_state.set_file(FileSlot::A, file(&[1]));
    assert!(!app.render_comparison_view());
    app.file_state.set_file(FileSlot::B, file(&[1]));
    assert!(app.render_comparison_view());
    assert!(app.ui_state.offset_candidates_calculated);
    assert_eq!(app.ui_state.offset_candidates.len(), 2);
}
