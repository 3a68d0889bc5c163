use binpare::app::BinpareApp;
use binpare::file::{FileSlot, LoadedFile};
use binpare::ranking::rank_candidates;
use binpare::score::Score;
use std::path::PathBuf;

fn score(matches: usize, total: usize) -> Score {
    Score { matches, total }
}

fn compare(a: &[u8], b: &[u8]) -> BinpareApp {
    let mut app = BinpareApp::new();
    let mut file_a = LoadedFile::new(PathBuf::from("a"));
    file_a.set_data(a.to_vec());
    let mut file_b = LoadedFile::new(PathBuf::from("b"));
    file_b.set_data(b.to_vec());
    app.file_state.set_file(FileSlot::A, file_a);
    app.file_state.set_file(FileSlot::B, file_b);
    app
}

#[test]
fn score_counts_agreeing_bytes() {
    let app = BinpareApp::new();
    assert_eq!(app.calculate_match_score(&[1, 2, 3], &[1, 9, 3, 4], 0, true), score(2, 3));
    assert_eq!(app.calculate_match_score(&[1, 2, 3], &[2, 3], 1, true), score(2, 2));
    assert_eq!(app.calculate_match_score(&[2, 3], &[1, 2, 3], 1, false), score(2, 2));
    assert_eq!(app.calculate_match_score(&[1, 2], &[3, 4], 0, false), score(0, 2));
}

#[test]
fn score_of_nothing_is_zero() {
    let app = BinpareApp::new();
    assert_eq!(app.calculate_match_score(&[1, 2, 3], &[1], 3, true), score(0, 1));
    assert_eq!(app.calculate_match_score(&[], &[1], 0, true), score(0, 1));
}

#[test]
fn score_looks_at_the_first_bytes_only() {
    let app = BinpareApp::new();
    let a = vec![1u8; 300];
    let mut b = vec![1u8; 300];
    b[255] = 0;
    b[256] = 0;
    assert_eq!(app.calculate_match_score(&a, &b, 0, true), score(255, 256));
}

#[test]
fn score_does_not_depend_on_the_order_of_the_files() {
    let app = BinpareApp::new();
    let (a, b) = ([1, 2, 3, 4, 5], [9, 3, 9, 5]);
    assert_eq!(app.calculate_match_score(&a, &b, 1, true), score(2, 4));
    assert_eq!(app.calculate_match_score(&b, &a, 1, false), score(2, 4));
}

#[test]
fn advanced_score_spreads_its_samples() {
    let app = BinpareApp::new();
    let a = vec![0u8; 100];
    let mut b = vec![1u8; 100];
    for i in 0..5 {
        b[i * 10] = 0;
    }
    assert_eq!(app.calculate_advanced_match_score(&a, &b, 0, true, 10, true), score(5, 10));
    assert_eq!(app.calculate_advanced_match_score(&a, &b, 0, true, 10, false), score(1, 10));
    assert_eq!(app.calculate_advanced_match_score(&a, &b, 0, true, 25, true), score(3, 25));
}

#[test]
fn advanced_score_of_nothing_is_zero() {
    let app = BinpareApp::new();
    let (a, b) = ([1u8, 2], [1u8, 2, 3]);
    assert_eq!(app.calculate_advanced_match_score(&a, &b, 2, true, 10, false), score(0, 1));
    assert_eq!(app.calculate_advanced_match_score(&a, &b, 3, false, 10, true), score(0, 1));
    assert_eq!(app.calculate_advanced_match_score(&a, &b, 0, true, 0, false), score(0, 1));
    assert_eq!(app.calculate_advanced_match_score(&[], &b, 0, false, 5, false), score(0, 1));
}

#[test]
fn advanced_score_generalises_the_match_score() {
    let app = BinpareApp::new();
    let a: Vec<u8> = (0..600).map(|i| (i % 7) as u8).collect();
    let b: Vec<u8> = (0..500).map(|i| (i % 5) as u8).collect();
    for offset in [0usize, 1, 13, 499, 500] {
        assert_eq!(
            app.calculate_advanced_match_score(&a, &b, offset, false, 256, false),
            app.calculate_match_score(&a, &b, offset, false)
        );
    }
}

#[test]
fn context_score_looks_at_both_ends() {
    let app = BinpareApp::new();
    let a = vec![0u8; 100];
    let mut b = vec![0u8; 100];
    b[0] = 1;
    b[31] = 1;
    b[32] = 1;
    b[67] = 1;
    b[99] = 1;
    assert_eq!(app.calculate_context_score(&a, &b, 0, true), score(61, 64));
    assert_eq!(app.calculate_context_score(&a, &b, 37, false), score(0, 1));
    assert_eq!(app.calculate_context_score(&a, &b, 100, true), score(0, 1));
    assert_eq!(app.calculate_context_score(&a[..63], &b, 0, false), score(0, 1));
    assert_eq!(app.calculate_context_score(&a[..64], &b, 0, true), score(61, 64));
}

#[test]
fn scores_compare_as_ratios() {
    assert!(score(2, 3).is_above(&score(1, 2)));
    assert!(!score(1, 2).is_above(&score(2, 4)));
    assert!(!score(2, 4).is_above(&score(1, 2)));
    assert!(score(usize::MAX, usize::MAX).is_above(&score(usize::MAX - 1, usize::MAX)));
}

#[test]
fn candidates_are_ranked_and_cut() {
    let given = vec![
        (1, score(1, 4)),
        (2, score(1, 2)),
        (3, score(2, 8)),
        (4, score(1, 1)),
        (5, score(2, 4)),
        (6, score(1, 8)),
        (7, score(3, 3)),
    ];
    assert_eq!(
        rank_candidates(&given),
        vec![
            (4, score(1, 1)),
            (7, score(3, 3)),
            (2, score(1, 2)),
            (5, score(2, 4)),
            (1, score(1, 4)),
        ]
    );
    assert_eq!(rank_candidates(&Vec::new()), Vec::new());
}

#[test]
fn shifted_content_of_one_size_is_found() {
    let a: Vec<u8> = (0..20).collect();
    let b: Vec<u8> = (3..23).collect();
    let mut app = compare(&a, &b);
    app.suggest_offset_if_needed();
    assert!(app.ui_state.offset_candidates_calculated);
    assert_eq!(app.ui_state.offset_candidates, vec![(3, score(17, 17))]);

    let mut app = compare(&b, &a);
    app.suggest_offset_if_needed();
    assert_eq!(app.ui_state.offset_candidates, vec![(-3, score(17, 17))]);
}

#[test]
fn same_files_stay_unmoved() {
    let data: Vec<u8> = (0..10).collect();
    let mut app = compare(&data, &data);
    app.suggest_offset_if_needed();
    assert_eq!(app.ui_state.offset_candidates, vec![(0, score(10, 10)), (0, score(10, 10))]);
}

#[test]
fn repeated_patterns_give_five_candidates_at_most() {
    let data = [1u8, 2, 1, 2, 1, 2, 1, 2];
    let mut app = compare(&data, &data);
    app.suggest_offset_if_needed();
    assert_eq!(
        app.ui_state.offset_candidates,
        vec![
            (0, score(8, 8)),
            (2, score(6, 6)),
            (4, score(4, 4)),
            (6, score(2, 2)),
            (0, score(8, 8)),
        ]
    );
}

#[test]
fn the_smaller_file_is_searched() {
    let a: Vec<u8> = (0..10).collect();
    let b = [7u8, 0, 1, 2, 3, 4, 5, 6];
    let mut app = compare(&a, &b);
    app.suggest_offset_if_needed();
    assert_eq!(app.ui_state.offset_candidates, vec![(-1, score(7, 7))]);

    let mut app = compare(&b, &a);
    app.suggest_offset_if_needed();
    assert_eq!(app.ui_state.offset_candidates, vec![(1, score(7, 7))]);
}

#[test]
fn the_difference_in_size_is_suggested_by_default() {
    let mut app = compare(&[1, 1, 1], &[2]);
    app.suggest_offset_if_needed();
    assert_eq!(app.ui_state.offset_candidates, vec![(-2, score(1, 2))]);
    let mut app = compare(&[2], &[1, 1, 1]);
    app.suggest_offset_if_needed();
    assert_eq!(app.ui_state.offset_candidates, vec![(2, score(1, 2))]);
    let mut app = compare(&[1], &[2]);
    app.suggest_offset_if_needed();
    assert!(app.ui_state.offset_candidates.is_empty());
    assert!(app.ui_state.offset_candidates_calculated);
}

#[test]
fn files_of_very_different_size_are_searched() {
    let mut app = compare(&[7; 5], &[7]);
    app.suggest_offset_if_needed();
    assert!(app.ui_state.offset_candidates_calculated);
    assert_eq!(app.ui_state.offset_candidates, vec![(0, score(1, 1))]);

    let mut app = compare(&[1; 10], &[0; 100]);
    app.check_and_calculate_diff();
    assert_eq!(app.ui_state.offset_candidates, vec![(90, score(1, 2))]);

    let mut a = vec![9u8; 100];
    a[0] = 3;
    let mut app = compare(&a, &[0, 1, 2, 3]);
    app.suggest_offset_if_needed();
    assert_eq!(app.ui_state.offset_candidates, vec![(-3, score(1, 1))]);

    let mut app = compare(&[], &[1, 2]);
    app.suggest_offset_if_needed();
    assert_eq!(app.ui_state.offset_candidates, vec![(2, score(1, 2))]);
}

#[test]
fn a_search_ends_with_its_window() {
    let mut a = vec![0u8; 50];
    a[10] = 1;
    let app = compare(&a, &[1]);
    assert_eq!(app.suggest_offset_candidates(10, true), vec![(49, score(1, 2))]);
    assert_eq!(app.suggest_offset_candidates(11, true), vec![(10, score(1, 1))]);
}

#[test]
fn large_files_are_searched_in_part() {
    let mut a = vec![0u8; 1048577];
    a[131072] = 1;
    let app = compare(&a, &[1]);
    assert_eq!(app.suggest_offset_candidates(200000, true), vec![(1048576, score(1, 2))]);
    a[131071] = 1;
    let app = compare(&a, &[1]);
    assert_eq!(app.suggest_offset_candidates(200000, true), vec![(131071, score(1, 1))]);
}

#[test]
fn nothing_is_suggested_before_both_files_arrive() {
    let mut app = BinpareApp::new();
    app.suggest_offset_if_needed();
    assert!(!app.ui_state.offset_candidates_calculated);
    assert!(app.suggest_offset_candidates(10, true).is_empty());
    app.file_state.set_file(FileSlot::A, LoadedFile::new(PathBuf::from("a")));
    app.check_and_calculate_diff();
    assert!(app.diff_state.diff.is_none());
}

#[test]
fn unreadable_files_give_nothing() {
    let mut app = compare(&[1, 2], &[1, 2]);
    app.file_state.get_file_mut(FileSlot::B).unwrap().poison_data();
    app.check_and_calculate_diff();
    assert!(app.diff_state.diff.is_none());
    assert!(app.ui_state.offset_candidates.is_empty());
    assert!(app.ui_state.offset_candidates_calculated);
    assert!(app.render_combined_hex_data_with_offset().is_none());
}

#[test]
fn suggestions_are_made_once() {
    let mut app = compare(&[1, 2], &[1, 2]);
    app.ui_state.offset_candidates_calculated = true;
    app.suggest_offset_if_needed();
    assert!(app.ui_state.offset_candidates.is_empty());
}

#[test]
fn fallbacks_add_common_alignments() {
    let app = BinpareApp::new();
    let a = vec![0u8; 40];
    let b = vec![0u8; 32];
    let mut candidates = vec![(2, score(1, 9))];
    app.add_fallback_candidates(&mut candidates, &a, &b, true, 20);
    assert_eq!(
        candidates,
        vec![
            (2, score(1, 9)),
            (8, score(3, 10)),
            (1, score(128, 160)),
            (4, score(128, 160)),
            (16, score(96, 120)),
        ]
    );
}

#[test]
fn fallbacks_need_one_byte_in_twenty() {
    let app = BinpareApp::new();
    let a = vec![0u8; 41];
    let mut b = vec![1u8; 40];
    b[0] = 0;
    b[5] = 0;
    let mut candidates = Vec::new();
    app.add_fallback_candidates(&mut candidates, &a, &b, true, 1);
    assert_eq!(candidates, vec![(1, score(3, 10))]);
    let mut candidates = Vec::new();
    app.add_fallback_candidates(&mut candidates, &b, &b, true, 0);
    assert!(candidates.is_empty());
    b[6] = 0;
    let a = vec![0u8; 40];
    let mut candidates = Vec::new();
    app.add_fallback_candidates(&mut candidates, &a, &b, false, 1);
    assert_eq!(candidates, vec![(-1, score(8, 195))]);
}

#[test]
fn applied_offsets_line_up_what_was_scored() {
    let a: Vec<u8> = (0..10).collect();
    let b = [7u8, 0, 1, 2, 3, 4, 5, 6];
    let mut app = compare(&a, &b);
    app.suggest_offset_if_needed();
    let offset = app.ui_state.offset_candidates[0].0;
    app.apply_offset_candidate(offset);
    assert_eq!(app.file_state.offsets(), (1, 0));
    assert_eq!(
        app.diff_state.diff,
        Some(vec![true, true, true, true, true, true, true, true])
    );
    assert!(!app.ui_state.offset_candidates_calculated);
    assert_eq!(app.ui_state.offset_candidates, vec![(7, score(1, 3))]);
}

#[test]
fn offsets_skip_the_head_of_a_file() {
    let mut app = compare(&[0; 5], &[0; 3]);
    app.apply_offset_candidate(2);
    assert_eq!(app.file_state.offsets(), (0, 2));
    app.apply_offset_candidate(-2);
    assert_eq!(app.file_state.offsets(), (2, 0));
    let mut app = compare(&[0; 3], &[0; 5]);
    app.apply_offset_candidate(2);
    assert_eq!(app.file_state.offsets(), (2, 0));
    app.apply_offset_candidate(-2);
    assert_eq!(app.file_state.offsets(), (0, 2));
}

#[test]
fn applying_again_changes_nothing() {
    let mut app = compare(&[0; 5], &[0; 3]);
    app.apply_offset_candidate(1);
    app.diff_state.diff = None;
    app.ui_state.offset_candidates.clear();
    app.apply_offset_candidate(1);
    assert!(app.diff_state.diff.is_none());
    assert!(app.ui_state.offset_candidates.is_empty());
    assert_eq!(app.file_state.offsets(), (0, 1));
}

#[test]
fn files_of_one_size_are_not_moved() {
    let mut app = compare(&[0; 5], &[0; 5]);
    app.apply_offset_candidate(3);
    assert_eq!(app.file_state.offsets(), (0, 0));
    assert!(app.diff_state.diff.is_none());
}

#[test]
fn differences_go_as_far_as_both_files() {
    let mut app = compare(&[1, 2, 3, 4], &[1, 9, 3]);
    app.check_and_calculate_diff();
    assert_eq!(app.diff_state.diff, Some(vec![false, true, false]));
    let mut app = compare(&[], &[1]);
    app.calculate_diff();
    assert_eq!(app.diff_state.diff, Some(Vec::new()));
}
