use tetris::application::savegame::{SavableHighScore, Savegame};
use tetris::application::tetris::{screen_after, ScreenKind};
use tetris::input::{Button, KeyRepeater, KeysRepeater};
use tetris::screens::highscorescreen::{row_y, HighScoreEvent, HighScoreScreen, RowContent, ScoreRow};
use tetris::screens::loadscreen::LoadScreen;
use tetris::screens::titlescreen::TitleScreen;
use tetris::screens::transitions::{GameOver, Loaded, StartGame, Transition};

fn table() -> Savegame {
    Savegame { high_scores: [
        SavableHighScore::new("AAA", 500),
        SavableHighScore::new("BBB", 400),
        SavableHighScore::new("CCC", 300),
        SavableHighScore::new("DDD", 200),
        SavableHighScore::new("EEE", 100),
    ]}
}

fn press_n(s: &mut HighScoreScreen, b: Button, n: usize) {
    for _ in 0..n {
        assert!(s.press(b).is_none());
    }
}

#[test]
fn repeaters_give_the_first_then_the_later_delay() {
    let mut k = KeysRepeater::new(vec![
        KeyRepeater::new(Button::Left, 300, 100),
        KeyRepeater::new(Button::Right, 300, 100),
    ]);
    assert_eq!(k.queue_repeat(Button::Left), Some(300));
    assert_eq!(k.queue_repeat(Button::Left), Some(100));
    assert_eq!(k.queue_repeat(Button::Left), Some(100));
    assert_eq!(k.queue_repeat(Button::Right), Some(300));
    assert_eq!(k.queue_repeat(Button::Up), None);
    assert!(k.cancel_repeat(Button::Left));
    assert!(!k.cancel_repeat(Button::Up));
    assert_eq!(k.queue_repeat(Button::Left), Some(300));
    assert_eq!(k.queue_repeat(Button::Right), Some(100));
}

#[test]
fn a_later_repeater_for_the_same_key_wins() {
    let mut k = KeysRepeater::new(vec![
        KeyRepeater::new(Button::Down, 300, 100),
        KeyRepeater::new(Button::Down, 60, 30),
    ]);
    assert_eq!(k.queue_repeat(Button::Down), Some(60));
    assert_eq!(k.queue_repeat(Button::Down), Some(30));
}

#[test]
fn a_new_repeater_has_no_repeat_pending() {
    let r = KeyRepeater::new(Button::A, 5, 6);
    assert_eq!((r.key, r.initial_repeat_ms, r.subsequent_repeat_ms, r.repeating), (Button::A, 5, 6, false));
}

#[test]
fn the_title_menu_toggles_and_chooses() {
    let mut t = TitleScreen::new();
    assert_eq!(t.cursor_y(), 32);
    assert_eq!(t.press(Button::Start), Some(Transition::StartGame(StartGame())));
    assert_eq!(t.press(Button::Down), None);
    assert_eq!(t.cursor_y(), 16);
    assert_eq!(t.press(Button::Start), Some(Transition::GameOver(GameOver { score: 0 })));
    assert_eq!(t.press(Button::Up), None);
    assert_eq!(t.cursor_y(), 32);
    assert_eq!(t.press(Button::A), None);
    assert_eq!(t.cursor_y(), 32);
}

#[test]
fn screens_follow_transitions() {
    assert_eq!(screen_after(&Transition::Loaded(Loaded())), ScreenKind::Title);
    assert_eq!(screen_after(&Transition::StartGame(StartGame())), ScreenKind::Game);
    assert_eq!(screen_after(&Transition::GameOver(GameOver { score: 1234 })), ScreenKind::Title);
    assert_eq!(LoadScreen.on_tick(), Transition::Loaded(Loaded()));
}

#[test]
fn the_letter_wheel_wraps_through_a_space() {
    let mut s = HighScoreScreen::new(table(), 350);
    assert_eq!(s.entry_text(), "A");
    press_n(&mut s, Button::Left, 1);
    assert_eq!(s.entry_text(), " ");
    press_n(&mut s, Button::Left, 1);
    assert_eq!(s.entry_text(), "Z");
    press_n(&mut s, Button::Right, 1);
    assert_eq!(s.entry_text(), " ");
    press_n(&mut s, Button::Right, 1);
    assert_eq!(s.entry_text(), "A");
    press_n(&mut s, Button::Right, 2);
    assert_eq!(s.entry_text(), "C");
    press_n(&mut s, Button::Left, 1);
    assert_eq!(s.entry_text(), "B");
}

#[test]
fn a_space_ends_the_name() {
    let mut s = HighScoreScreen::new(table(), 350);
    press_n(&mut s, Button::Right, 1);
    press_n(&mut s, Button::A, 1);
    press_n(&mut s, Button::Right, 1);
    press_n(&mut s, Button::B, 1);
    assert_eq!(s.entry_text(), "BCC");
    press_n(&mut s, Button::Right, 24);
    assert_eq!(s.entry_text(), "BC ");
    match s.press(Button::A) {
        Some(HighScoreEvent::NewHighScore(n)) => {
            assert_eq!(n.0, "BC");
            assert_eq!(n.1, 350);
        }
        _ => panic!("no name entered"),
    }
    assert_eq!(s.entry_text(), "BC");
    assert!(s.press(Button::A).is_none());
    assert_eq!(s.entry_text(), "BC");
}

#[test]
fn the_fifth_letter_ends_the_name() {
    let mut s = HighScoreScreen::new(table(), 999);
    press_n(&mut s, Button::A, 4);
    assert_eq!(s.entry_text(), "AAAAA");
    match s.press(Button::B) {
        Some(HighScoreEvent::NewHighScore(n)) => assert_eq!((n.0.as_str(), n.1), ("AAAAA", 999)),
        _ => panic!("no name entered"),
    }
    assert_eq!(s.entry_text(), "AAAAA");
}

#[test]
fn start_leaves_the_high_scores() {
    let mut s = HighScoreScreen::new(table(), 0);
    assert!(matches!(s.press(Button::Start), Some(HighScoreEvent::Loaded(Loaded()))));
}

#[test]
fn the_new_score_is_shown_in_its_place() {
    let s = HighScoreScreen::new(table(), 350);
    assert_eq!(
        s.rows(),
        vec![
            ScoreRow { slot: 0, content: RowContent::Saved(0) },
            ScoreRow { slot: 1, content: RowContent::Saved(1) },
            ScoreRow { slot: 2, content: RowContent::NewScore },
            ScoreRow { slot: 3, content: RowContent::Saved(2) },
            ScoreRow { slot: 4, content: RowContent::Saved(3) },
        ]
    );
    let low = HighScoreScreen::new(table(), 100);
    assert_eq!(
        low.rows(),
        (0..5).map(|i| ScoreRow { slot: i, content: RowContent::Saved(i) }).collect::<Vec<_>>()
    );
    let top = HighScoreScreen::new(table(), 501);
    assert_eq!(top.rows()[0], ScoreRow { slot: 0, content: RowContent::NewScore });
    assert_eq!(top.rows()[4], ScoreRow { slot: 4, content: RowContent::Saved(3) });
}

#[test]
fn held_letters_repeat() {
    let mut s = HighScoreScreen::new(table(), 0);
    assert_eq!(s.key_pressed(Button::Right), Some(300));
    assert_eq!(s.key_pressed(Button::Right), Some(100));
    assert_eq!(s.key_pressed(Button::Down), None);
    assert!(s.key_released(Button::Right));
    assert_eq!(s.key_pressed(Button::Right), Some(300));
}

#[test]
fn table_lines_are_sixteen_pixels_apart() {
    assert_eq!(row_y(0), 120);
    assert_eq!(row_y(4), 56);
}

#[test]
fn twenty_seven_rights_bring_the_letter_back() {
    let mut s = HighScoreScreen::new(table(), 350);
    press_n(&mut s, Button::Right, 3);
    assert_eq!(s.entry_text(), "D");
    press_n(&mut s, Button::Right, 27);
    assert_eq!(s.entry_text(), "D");
    press_n(&mut s, Button::Right, 23);
    assert_eq!(s.entry_text(), " ");
    press_n(&mut s, Button::Right, 27);
    assert_eq!(s.entry_text(), " ");
}
