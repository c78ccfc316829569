use tetris::application::savegame::{NewHighScore, SavableHighScore, Savegame};

fn names(s: &Savegame) -> Vec<(String, u32)> {
    s.high_scores.iter().map(|e| e.view()).collect()
}

#[test]
fn should_not_update_high_scores_if_score_too_low() {
    let mut scores = Savegame { high_scores: [
        SavableHighScore::new("1st", 500),
        SavableHighScore::new("2nd", 400),
        SavableHighScore::new("3rd", 300),
        SavableHighScore::new("4th", 200),
        SavableHighScore::new("5th", 100),
    ]};

    let original_scores = scores.clone();

    scores.add_score(&NewHighScore("6th".to_string(), 50));

    assert_eq!(scores, original_scores)
}

#[test]
fn should_update_high_scores_in_correct_place_and_push_lower_scores_down() {
    let mut scores = Savegame { high_scores: [
        SavableHighScore::new("1st", 500),
        SavableHighScore::new("2nd", 400),
        SavableHighScore::new("3rd", 300),
        SavableHighScore::new("4th", 200),
        SavableHighScore::new("5th", 100),
    ]};

    let expected_scores = Savegame { high_scores: [
        SavableHighScore::new("1st", 500),
        SavableHighScore::new("2nd", 400),
        SavableHighScore::new("2.5th", 350),
        SavableHighScore::new("3rd", 300),
        SavableHighScore::new("4th", 200),
    ]};

    scores.add_score(&NewHighScore("2.5th".to_string(), 350));

    assert_eq!(scores, expected_scores)
}

#[test]
fn new_savegame_holds_the_default_table() {
    let s = Savegame::new();
    assert_eq!(
        names(&s),
        vec![
            ("BETTY".to_string(), 100_000),
            ("TOMMY".to_string(), 50_000),
            ("CILLA".to_string(), 20_000),
            ("LANA ".to_string(), 10_000),
            ("MAX  ".to_string(), 1_000),
        ]
    );
}

#[test]
fn names_are_cut_to_five_bytes_and_padded_with_spaces() {
    assert_eq!(SavableHighScore::new("LONGNAME", 7).name, *b"LONGN");
    assert_eq!(SavableHighScore::new("AB", 7).name, *b"AB   ");
    assert_eq!(SavableHighScore::new("", 7).name, *b"     ");
    assert_eq!(SavableHighScore::new("AB", 7).view(), ("AB   ".to_string(), 7));
}

#[test]
fn a_best_score_goes_to_the_top_and_the_last_entry_leaves() {
    let mut s = Savegame::new();
    s.add_score(&NewHighScore("ZED".to_string(), 200_000));
    assert_eq!(
        names(&s),
        vec![
            ("ZED  ".to_string(), 200_000),
            ("BETTY".to_string(), 100_000),
            ("TOMMY".to_string(), 50_000),
            ("CILLA".to_string(), 20_000),
            ("LANA ".to_string(), 10_000),
        ]
    );
}

#[test]
fn a_score_just_above_the_last_replaces_it() {
    let mut s = Savegame::new();
    s.add_score(&NewHighScore("AMY".to_string(), 1_001));
    assert_eq!(names(&s)[4], ("AMY  ".to_string(), 1_001));
    assert_eq!(names(&s)[3], ("LANA ".to_string(), 10_000));
}

#[test]
fn an_equal_score_goes_below_the_entry_it_ties() {
    let mut s = Savegame::new();
    s.add_score(&NewHighScore("TIE".to_string(), 50_000));
    assert_eq!(names(&s)[1], ("TOMMY".to_string(), 50_000));
    assert_eq!(names(&s)[2], ("TIE  ".to_string(), 50_000));
    assert_eq!(names(&s)[4], ("LANA ".to_string(), 10_000));
}

#[test]
fn a_score_equal_to_the_last_does_not_enter() {
    let mut s = Savegame::new();
    let before = s.clone();
    s.add_score(&NewHighScore("LOW".to_string(), 1_000));
    assert_eq!(s, before);
}

#[test]
fn the_table_stays_best_first_over_many_entries() {
    let mut s = Savegame::new();
    for (i, score) in [5u32, 150_000, 30_000, 30_000, 999_999, 0, 12_345].iter().enumerate() {
        s.add_score(&NewHighScore(format!("P{}", i), *score));
        let scores: Vec<u32> = s.high_scores.iter().map(|e| e.score).collect();
        for w in scores.windows(2) {
            assert!(w[0] >= w[1]);
        }
    }
    assert_eq!(s.high_scores[0].score, 999_999);
    assert_eq!(s.high_scores[4].score, 30_000);
}

#[test]
fn a_non_ascii_name_keeps_its_bytes() {
    let e = SavableHighScore::new("Zoë", 3);
    assert_eq!(e.name, [b'Z', b'o', 0xC3, 0xAB, b' ']);
    assert_eq!(e.view(), ("Zoë ".to_string(), 3));
}

#[test]
fn an_entry_debugs_as_its_name_and_score() {
    let e = SavableHighScore::new("BETTY", 100_000);
    assert_eq!(e.debug_text(), format!("{:?}", ("BETTY".to_string(), 100_000u32)));
    assert_eq!(e.debug_text(), "(\"BETTY\", 100000)");
    assert_eq!(SavableHighScore::new("MAX", 1_000).debug_text(), "(\"MAX  \", 1000)");
}
