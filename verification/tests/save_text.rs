use snake::game::GameState;
use snake::save::{format_save, parse_field, parse_save};

fn by_std(text: &str) -> Vec<usize> {
    text.split_whitespace().map(|num| num.parse().unwrap_or(0)).collect()
}

#[test]
fn a_text_without_a_field_has_no_number() {
    assert_eq!(parse_save(b""), Vec::<usize>::new());
    assert_eq!(parse_save(b" \n\t "), Vec::<usize>::new());
}

#[test]
fn any_whitespace_separates_and_a_run_of_it_is_one_gap() {
    assert_eq!(parse_save(b"5 9 3 7 1\n"), vec![5, 9, 3, 7, 1]);
    assert_eq!(parse_save(b"5\t9\n3\r\n7\x0b1\x0c"), vec![5, 9, 3, 7, 1]);
    assert_eq!(parse_save(b"  5   9 \n\n 3 7 1  "), vec![5, 9, 3, 7, 1]);
    let g = GameState::new(&parse_save(b"5 9 3 7 1\n"));
    assert_eq!(g.prev_score_no_wrap_around, 5);
    assert_eq!(g.high_score_no_wrap_around, 9);
    assert_eq!(g.prev_score_wrap_around, 3);
    assert_eq!(g.high_score_wrap_around, 7);
    assert!(g.wrap_around);
}

#[test]
fn an_empty_save_starts_with_zero_scores_on_a_bounded_board() {
    let g = GameState::new(&parse_save(b""));
    assert_eq!(g.prev_score_no_wrap_around, 0);
    assert_eq!(g.high_score_no_wrap_around, 0);
    assert_eq!(g.prev_score_wrap_around, 0);
    assert_eq!(g.high_score_wrap_around, 0);
    assert!(!g.wrap_around);
    assert!(!g.game_over);
}

#[test]
fn five_numbers_are_read_in_order() {
    assert_eq!(parse_save(b"1 2 3 4 1"), vec![1, 2, 3, 4, 1]);
    assert_eq!(parse_save(b"12 340 5 60000 0"), vec![12, 340, 5, 60000, 0]);
    let g = GameState::new(&parse_save(b"12 340 5 60000 1"));
    assert_eq!(g.prev_score_no_wrap_around, 12);
    assert_eq!(g.high_score_no_wrap_around, 340);
    assert_eq!(g.prev_score_wrap_around, 5);
    assert_eq!(g.high_score_wrap_around, 60000);
    assert!(g.wrap_around);
}

#[test]
fn a_field_that_is_no_number_counts_as_zero() {
    assert_eq!(parse_save(b"x 5 -3 +7 007"), vec![0, 5, 0, 7, 7]);
    assert_eq!(parse_save(b"1  2"), vec![1, 2]);
    assert_eq!(parse_save(b" 4 "), vec![4]);
    assert_eq!(parse_save(b"3\n"), vec![3]);
    assert_eq!(parse_save(b"3,4 5"), vec![0, 5]);
    assert_eq!(parse_save(b"+ ++1 1+ 1.5 0x10"), vec![0, 0, 0, 0, 0]);
}

#[test]
fn a_number_too_large_counts_as_zero() {
    let max = usize::MAX.to_string();
    assert_eq!(parse_field(&max.clone().into_bytes()), usize::MAX);
    let mut above = max.clone().into_bytes();
    let last = above.len() - 1;
    above[last] += 1;
    assert_eq!(parse_field(&above), 0);
    let mut longer = max.into_bytes();
    longer.push(b'0');
    assert_eq!(parse_field(&longer), 0);
    assert_eq!(parse_field(&b"99999999999999999999999999999999999999999".to_vec()), 0);
    assert_eq!(parse_field(&b"00000000000000000000000000000000000000042".to_vec()), 42);
}

#[test]
fn reading_agrees_with_the_standard_parser() {
    let texts = [
        "", " ", "0", "0 0 0 0 0", "1 2 3", "10 20 30 40 1 99", "a b c", "+5 -5 5+", "  7", "7  ",
        "18446744073709551615 18446744073709551616", "4294967295 4294967296", "0009 9000",
        "1\t2", "12 3four 5", "+", "+0", "é 3", "5 9 3 7 1\n", "\n", "1\r\n2\x0b3\x0c4", " \t 8 \t ",
    ];
    for text in texts.iter() {
        assert_eq!(parse_save(text.as_bytes()), by_std(text));
    }
}

#[test]
fn numbers_are_written_with_one_space_between() {
    assert_eq!(format_save(&vec![1, 2, 7, 7, 1]), b"1 2 7 7 1".to_vec());
    assert_eq!(format_save(&vec![0, 10, 105, 9, 0]), b"0 10 105 9 0".to_vec());
    assert_eq!(format_save(&vec![42]), b"42".to_vec());
    assert_eq!(format_save(&Vec::new()), Vec::<u8>::new());
    assert_eq!(format_save(&vec![usize::MAX, 0]), format!("{} 0", usize::MAX).into_bytes());
}

#[test]
fn what_is_written_is_read_back() {
    let lists: Vec<Vec<usize>> = vec![
        Vec::new(),
        vec![0],
        vec![0, 0, 0, 0, 0],
        vec![3, 9, 2, 2, 1],
        vec![usize::MAX, 1, 10, 100, 1000, 999],
    ];
    for list in lists.iter() {
        assert_eq!(&parse_save(&format_save(list)), list);
    }
}

#[test]
fn a_session_ends_with_what_the_next_one_starts_from() {
    let mut g = GameState::new(&parse_save(b"4 9 3 3 1"));
    let text = format_save(&g.quit_event());
    assert_eq!(text, b"4 9 3 3 1".to_vec());
    let next = GameState::new(&parse_save(&text));
    assert_eq!(next.prev_score_no_wrap_around, 4);
    assert_eq!(next.high_score_no_wrap_around, 9);
    assert_eq!(next.prev_score_wrap_around, 3);
    assert_eq!(next.high_score_wrap_around, 3);
    assert!(next.wrap_around);
}
