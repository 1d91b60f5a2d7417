use tetris::highscores::{
    line_to_slice, load_highscores_and_lines, save_highscores_and_lines, slice_to_string,
    update_and_maybe_save, update_vec, NB_HIGHSCORES,
};

#[test]
fn update_vec_fills_a_list_that_is_not_full() {
    let mut v: Vec<u32> = Vec::new();
    assert!(update_vec(&mut v, 30));
    assert_eq!(v, vec![30]);
    assert!(update_vec(&mut v, 10));
    assert_eq!(v, vec![10, 30]);
    assert!(update_vec(&mut v, 20));
    assert_eq!(v, vec![10, 20, 30]);
    assert!(update_vec(&mut v, 0));
    assert_eq!(v, vec![0, 10, 20, 30]);
    assert!(update_vec(&mut v, 20));
    assert_eq!(v, vec![0, 10, 20, 20, 30]);
    assert_eq!(v.len(), NB_HIGHSCORES);
}

#[test]
fn update_vec_full_list_takes_strict_improvement() {
    let mut v = vec![10, 20, 30, 40, 50];
    assert!(update_vec(&mut v, 11));
    assert_eq!(v, vec![11, 20, 30, 40, 50]);
    assert!(update_vec(&mut v, 35));
    assert_eq!(v, vec![20, 30, 35, 40, 50]);
    assert!(update_vec(&mut v, u32::MAX));
    assert_eq!(v, vec![30, 35, 40, 50, u32::MAX]);
}

#[test]
fn update_vec_full_list_refuses_equal_and_lower() {
    let mut v = vec![10, 20, 30, 40, 50];
    assert!(!update_vec(&mut v, 10));
    assert_eq!(v, vec![10, 20, 30, 40, 50]);
    assert!(!update_vec(&mut v, 9));
    assert_eq!(v, vec![10, 20, 30, 40, 50]);
    assert!(!update_vec(&mut v, 0));
    assert_eq!(v, vec![10, 20, 30, 40, 50]);
    let mut zeros = vec![0, 0, 0, 0, 0];
    assert!(!update_vec(&mut zeros, 0));
    assert_eq!(zeros, vec![0, 0, 0, 0, 0]);
    assert!(update_vec(&mut zeros, 1));
    assert_eq!(zeros, vec![0, 0, 0, 0, 1]);
}

#[test]
fn slice_to_string_writes_decimals() {
    assert_eq!(slice_to_string(&[]), "");
    assert_eq!(slice_to_string(&[0]), "0");
    assert_eq!(slice_to_string(&[7, 10, 4294967295]), "7 10 4294967295");
    assert_eq!(slice_to_string(&[100, 20, 3]), "100 20 3");
}

#[test]
fn save_writes_two_lines() {
    assert_eq!(save_highscores_and_lines(&[10, 20, 30], &[1, 2, 3]), "10 20 30\n1 2 3\n");
    assert_eq!(save_highscores_and_lines(&[], &[]), "\n\n");
    assert_eq!(save_highscores_and_lines(&[5], &[]), "5\n\n");
}

#[test]
fn line_to_slice_reads_numbers() {
    assert_eq!(line_to_slice(""), Some(vec![]));
    assert_eq!(line_to_slice("0"), Some(vec![0]));
    assert_eq!(line_to_slice("1 2 3"), Some(vec![1, 2, 3]));
    assert_eq!(line_to_slice("5 5 4294967295"), Some(vec![5, 5, 4294967295]));
    assert_eq!(line_to_slice("+7 007 8"), Some(vec![7, 7, 8]));
    assert_eq!(line_to_slice("1 2 3 4 5"), Some(vec![1, 2, 3, 4, 5]));
}

#[test]
fn line_to_slice_rejects_malformed_lines() {
    for line in [
        " ",
        "1 ",
        " 1",
        "1  2",
        "a",
        "1 b 3",
        "-1",
        "+",
        "++1",
        "1+",
        "4294967296",
        "99999999999999999999999",
        "1\n",
        "1\t2",
        "1 2 3 4 5 6",
        "3 2 1",
        "1 3 2",
        "\u{663}",
        "1 \u{e9}",
    ] {
        assert_eq!(line_to_slice(line), None, "{:?}", line);
    }
}

#[test]
fn load_reads_two_lines() {
    assert_eq!(
        load_highscores_and_lines("10 20 30\n1 2 3\n"),
        Some((vec![10, 20, 30], vec![1, 2, 3]))
    );
    assert_eq!(
        load_highscores_and_lines("10 20 30\n1 2 3"),
        Some((vec![10, 20, 30], vec![1, 2, 3]))
    );
    assert_eq!(load_highscores_and_lines("\n\n"), Some((vec![], vec![])));
    assert_eq!(load_highscores_and_lines("\n"), Some((vec![], vec![])));
    assert_eq!(load_highscores_and_lines("7\n\n"), Some((vec![7], vec![])));
    assert_eq!(load_highscores_and_lines("\n0 0"), Some((vec![], vec![0, 0])));
}

#[test]
fn load_rejects_other_texts() {
    for content in [
        "",
        "1 2 3",
        "1 2 3\n4 5 6\n7",
        "1\n2\n\n",
        "\n\n\n",
        "1 2 3\n4 5 x\n",
        "x\n1\n",
        "1 2 3\r\n4 5 6\r\n",
        "3 2 1\n1 2 3\n",
        "1 2 3\n1 2 3 4 5 6\n",
        "1 2 3 \n1\n",
        "\u{e9}\n1\n",
    ] {
        assert_eq!(load_highscores_and_lines(content), None, "{:?}", content);
    }
}

#[test]
fn save_then_load_gives_the_lists_back() {
    let cases: [(&[u32], &[u32]); 4] = [
        (&[], &[]),
        (&[0], &[0]),
        (&[1, 10, 100, 1000, 4294967295], &[0, 0, 9, 10, 11]),
        (&[42], &[1, 2]),
    ];
    for (scores, lines) in cases {
        let text = save_highscores_and_lines(scores, lines);
        assert_eq!(load_highscores_and_lines(&text), Some((scores.to_vec(), lines.to_vec())));
    }
}

#[test]
fn update_without_history_saves_the_game() {
    let update = update_and_maybe_save(None, 12, 3);
    assert!(update.new_highscore);
    assert!(update.new_lines);
    assert_eq!(update.to_save, Some(String::from("12\n3\n")));
    let update = update_and_maybe_save(Some("no ledger here"), 0, 0);
    assert!(update.new_highscore);
    assert!(update.new_lines);
    assert_eq!(update.to_save, Some(String::from("0\n0\n")));
}

#[test]
fn update_enters_lists_that_are_not_full() {
    let update = update_and_maybe_save(Some("10 20 30\n1 2 3\n"), 5, 0);
    assert!(update.new_highscore);
    assert!(update.new_lines);
    assert_eq!(update.to_save, Some(String::from("5 10 20 30\n0 1 2 3\n")));
}

#[test]
fn update_full_lists_without_improvement_writes_nothing() {
    let update = update_and_maybe_save(Some("10 20 30 40 50\n1 2 3 4 5\n"), 5, 0);
    assert!(!update.new_highscore);
    assert!(!update.new_lines);
    assert_eq!(update.to_save, None);
    let update = update_and_maybe_save(Some("10 20 30 40 50\n1 2 3 4 5\n"), 10, 1);
    assert!(!update.new_highscore);
    assert!(!update.new_lines);
    assert_eq!(update.to_save, None);
}

#[test]
fn update_judges_score_and_lines_apart() {
    let update = update_and_maybe_save(Some("10 20 30 40 50\n1 2 3 4 5\n"), 25, 1);
    assert!(update.new_highscore);
    assert!(!update.new_lines);
    assert_eq!(update.to_save, Some(String::from("20 25 30 40 50\n1 2 3 4 5\n")));
    let update = update_and_maybe_save(Some("10 20 30 40 50\n1 2 3 4 5\n"), 10, 9);
    assert!(!update.new_highscore);
    assert!(update.new_lines);
    assert_eq!(update.to_save, Some(String::from("10 20 30 40 50\n2 3 4 5 9\n")));
}
