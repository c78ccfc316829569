use tetris::game::block::Block;
use tetris::game::tetromino::{Rotation, Tetromino};
use tetris::input::Button;
use tetris::screens::gamescreen::{
    block_pixel, drop_time, listen_to_press, preview_pixels, pulse_frame, Action, GameScreen,
    MoveEffect, SpawnEffect,
};

/// Moves the falling piece sideways by `dx` (after turning it once if asked)
/// and drops it until it lands.
fn drop_piece(g: &mut GameScreen, turn: bool, dx: i32) -> u32 {
    if turn {
        assert_eq!(g.attempt_move_with(Action::RotateClockwise, Tetromino::O), MoveEffect::Nothing);
    }
    for _ in 0..dx.abs() {
        let a = if dx < 0 { Action::Left } else { Action::Right };
        assert_eq!(g.attempt_move_with(a, Tetromino::O), MoveEffect::Nothing);
    }
    let mut downs = 0;
    loop {
        match g.attempt_move_with(Action::Down, Tetromino::O) {
            MoveEffect::RestartDropTimer { .. } => downs += 1,
            MoveEffect::PieceLocked => return downs,
            MoveEffect::Nothing => panic!("a drop does nothing"),
        }
    }
}

/// Looks for full rows, clears them and brings in the next piece; returns the
/// full rows and their flashing time.
fn settle(g: &mut GameScreen, fresh: Tetromino) -> (Vec<usize>, u64, SpawnEffect) {
    let lines = g.check_for_lines();
    let delay = g.remove_lines(lines.clone());
    g.clear_lines();
    let spawn = g.next_tetromino_please_with(fresh);
    (lines, delay, spawn)
}

fn filled(g: &GameScreen) -> usize {
    g.well().iter().map(|row| row.iter().filter(|b| b.is_some()).count()).sum()
}

#[test]
fn a_new_game_starts_empty_at_the_spawn_point() {
    let g = GameScreen::with_tetrominoes(Tetromino::T, Tetromino::I);
    assert_eq!(g.well().len(), 20);
    assert!(g.well().iter().all(|row| row.len() == 10 && row.iter().all(|b| b.is_none())));
    assert_eq!(g.next_piece(), Tetromino::I);
    assert_eq!(g.held_piece(), None);
    assert!(!g.is_game_over());
    assert_eq!((g.score(), g.lines(), g.level()), (0, 0, 1));
    let (b, cells) = g.current_piece().unwrap();
    assert_eq!(b, Block::PaleBlue);
    assert_eq!(cells, [(4, 18), (4, 19), (3, 18), (5, 18)]);
}

#[test]
fn a_random_game_starts_at_the_spawn_point() {
    let g = GameScreen::new();
    assert!(g.current_piece().is_some());
    assert_eq!((g.score(), g.lines(), g.level()), (0, 0, 1));
}

#[test]
fn moves_stop_at_the_walls() {
    let mut g = GameScreen::with_tetrominoes(Tetromino::O, Tetromino::O);
    for _ in 0..4 {
        assert_eq!(g.attempt_move_with(Action::Left, Tetromino::O), MoveEffect::Nothing);
    }
    let at_wall = g.current_piece().unwrap().1;
    assert_eq!(at_wall[0], (0, 19));
    g.attempt_move_with(Action::Left, Tetromino::O);
    assert_eq!(g.current_piece().unwrap().1, at_wall);
    for _ in 0..20 {
        g.attempt_move_with(Action::Right, Tetromino::O);
    }
    assert_eq!(g.current_piece().unwrap().1[2], (9, 19));
}

#[test]
fn a_move_and_its_opposite_give_the_piece_back() {
    let mut g = GameScreen::with_tetrominoes(Tetromino::L, Tetromino::O);
    let start = g.current_piece().unwrap().1;
    g.attempt_move_with(Action::Left, Tetromino::O);
    assert_ne!(g.current_piece().unwrap().1, start);
    g.attempt_move_with(Action::Right, Tetromino::O);
    assert_eq!(g.current_piece().unwrap().1, start);
    g.attempt_move_with(Action::RotateClockwise, Tetromino::O);
    assert_eq!(g.current_piece().unwrap().1, [(4, 18), (5, 18), (6, 18), (4, 17)]);
    g.attempt_move_with(Action::RotateAnticlockwise, Tetromino::O);
    assert_eq!(g.current_piece().unwrap().1, start);
}

#[test]
fn holding_takes_the_next_piece_then_swaps() {
    let mut g = GameScreen::with_tetrominoes(Tetromino::T, Tetromino::I);
    assert_eq!(g.attempt_move_with(Action::HoldTetromino, Tetromino::L), MoveEffect::Nothing);
    assert_eq!(g.held_piece(), Some(Tetromino::T));
    assert_eq!(g.next_piece(), Tetromino::L);
    assert_eq!(g.current_piece().unwrap().0, Block::Pink);
    g.attempt_move_with(Action::HoldTetromino, Tetromino::Z);
    assert_eq!(g.held_piece(), Some(Tetromino::I));
    assert_eq!(g.next_piece(), Tetromino::L);
    assert_eq!(g.current_piece().unwrap().0, Block::PaleBlue);
}

#[test]
fn a_random_hold_draws_a_next_piece() {
    let mut g = GameScreen::with_tetrominoes(Tetromino::T, Tetromino::I);
    assert_eq!(g.attempt_move(Action::HoldTetromino), MoveEffect::Nothing);
    assert_eq!(g.held_piece(), Some(Tetromino::T));
    assert_eq!(g.current_piece().unwrap().0, Block::Pink);
}

#[test]
fn a_landed_piece_fills_its_cells() {
    let mut g = GameScreen::with_tetrominoes(Tetromino::O, Tetromino::T);
    assert_eq!(drop_piece(&mut g, false, -4), 18);
    assert_eq!(g.well()[0][0], Some(Block::Gold));
    assert_eq!(g.well()[0][1], Some(Block::Gold));
    assert_eq!(g.well()[1][0], Some(Block::Gold));
    assert_eq!(g.well()[1][1], Some(Block::Gold));
    assert_eq!(filled(&g), 4);
    let (lines, delay, spawn) = settle(&mut g, Tetromino::S);
    assert!(lines.is_empty());
    assert_eq!(delay, 0);
    assert_eq!(spawn, SpawnEffect::Spawned { drop_delay_ms: 1000 });
    assert_eq!(g.current_piece().unwrap().0, Block::PaleBlue);
    assert_eq!(g.next_piece(), Tetromino::S);
}

#[test]
fn a_drop_restarts_the_timer_with_the_level_delay() {
    let mut g = GameScreen::with_tetrominoes(Tetromino::O, Tetromino::O);
    assert_eq!(
        g.attempt_move_with(Action::Down, Tetromino::O),
        MoveEffect::RestartDropTimer { delay_ms: 1000 }
    );
}

#[test]
fn two_full_rows_are_cleared_and_scored() {
    let mut g = GameScreen::with_tetrominoes(Tetromino::O, Tetromino::O);
    for dx in [-4, -2, 0, 2] {
        drop_piece(&mut g, false, dx);
        settle(&mut g, Tetromino::O);
    }
    drop_piece(&mut g, false, 4);
    assert_eq!(g.check_for_lines(), vec![0, 1]);
    assert_eq!(g.remove_lines(vec![0, 1]), 800);
    assert!(g.current_piece().is_none());
    assert_eq!(g.attempt_move_with(Action::Left, Tetromino::O), MoveEffect::Nothing);
    assert_eq!(g.lines_being_removed(), &vec![0, 1]);
    assert!(g.can_clear_lines());
    g.clear_lines();
    assert_eq!(filled(&g), 0);
    assert_eq!((g.lines(), g.score(), g.level()), (2, 200, 1));
    assert!(g.lines_being_removed().is_empty());
    assert!(g.check_for_lines().is_empty());
}

#[test]
fn four_rows_at_once_score_the_most() {
    let mut g = GameScreen::with_tetrominoes(Tetromino::I, Tetromino::I);
    for dx in -4..5 {
        drop_piece(&mut g, false, dx);
        settle(&mut g, Tetromino::I);
    }
    drop_piece(&mut g, false, 5);
    let lines = g.check_for_lines();
    assert_eq!(lines, vec![0, 1, 2, 3]);
    assert_eq!(g.remove_lines(lines), 1500);
    g.clear_lines();
    assert_eq!((g.lines(), g.score(), g.level()), (4, 2400, 1));
    assert_eq!(filled(&g), 0);
}

#[test]
fn a_single_row_drops_the_rows_above() {
    let mut g = GameScreen::with_tetrominoes(Tetromino::I, Tetromino::I);
    drop_piece(&mut g, true, -3);
    settle(&mut g, Tetromino::O);
    drop_piece(&mut g, true, 1);
    settle(&mut g, Tetromino::O);
    drop_piece(&mut g, false, 4);
    let lines = g.check_for_lines();
    assert_eq!(lines, vec![0]);
    assert_eq!(g.remove_lines(lines), 500);
    g.clear_lines();
    assert_eq!((g.lines(), g.score()), (1, 80));
    assert_eq!(filled(&g), 2);
    assert_eq!(g.well()[0][8], Some(Block::Gold));
    assert_eq!(g.well()[0][9], Some(Block::Gold));
    assert_eq!(g.well()[1][8], None);
}

#[test]
fn ten_lines_raise_the_level_and_the_points() {
    let mut g = GameScreen::with_tetrominoes(Tetromino::O, Tetromino::O);
    let mut last_spawn = SpawnEffect::Spawned { drop_delay_ms: 0 };
    for _ in 0..6 {
        for dx in [-4, -2, 0, 2, 4] {
            drop_piece(&mut g, false, dx);
            let (_, _, spawn) = settle(&mut g, Tetromino::O);
            last_spawn = spawn;
        }
        if g.lines() == 10 {
            assert_eq!((g.score(), g.level()), (1000, 2));
            assert_eq!(last_spawn, SpawnEffect::Spawned { drop_delay_ms: 750 });
        }
    }
    assert_eq!((g.lines(), g.score(), g.level()), (12, 1300, 2));
}

#[test]
fn the_game_ends_when_the_next_piece_does_not_fit() {
    let mut g = GameScreen::with_tetrominoes(Tetromino::O, Tetromino::O);
    let mut pieces = 0;
    loop {
        drop_piece(&mut g, false, 0);
        pieces += 1;
        let (_, _, spawn) = settle(&mut g, Tetromino::O);
        if let SpawnEffect::GameOver { delay_ms } = spawn {
            assert_eq!(delay_ms, 2000);
            break;
        }
        assert!(pieces < 20);
    }
    assert_eq!(pieces, 10);
    assert!(g.is_game_over());
    assert_eq!(filled(&g), 40);
}

#[test]
fn drop_times_by_level() {
    let expected = [
        (0, 60),
        (1, 1000),
        (2, 750),
        (3, 500),
        (4, 400),
        (5, 325),
        (6, 250),
        (7, 200),
        (8, 150),
        (9, 125),
        (10, 100),
        (11, 80),
        (12, 60),
        (99, 60),
    ];
    for (level, ms) in expected {
        assert_eq!(drop_time(level), ms);
    }
}

#[test]
fn buttons_map_to_actions() {
    assert_eq!(listen_to_press(Button::Left), Some(Action::Left));
    assert_eq!(listen_to_press(Button::Right), Some(Action::Right));
    assert_eq!(listen_to_press(Button::Down), Some(Action::Down));
    assert_eq!(listen_to_press(Button::A), Some(Action::RotateClockwise));
    assert_eq!(listen_to_press(Button::B), Some(Action::RotateAnticlockwise));
    assert_eq!(listen_to_press(Button::Y), Some(Action::HoldTetromino));
    assert_eq!(listen_to_press(Button::Up), None);
    assert_eq!(listen_to_press(Button::Start), None);
}

#[test]
fn held_keys_repeat_on_the_game_screen() {
    let mut g = GameScreen::with_tetrominoes(Tetromino::O, Tetromino::O);
    assert_eq!(g.key_pressed(Button::Left), Some(200));
    assert_eq!(g.key_pressed(Button::Left), Some(60));
    assert_eq!(g.key_pressed(Button::Down), Some(60));
    assert_eq!(g.key_pressed(Button::A), None);
    assert!(g.key_released(Button::Left));
    assert!(!g.key_released(Button::A));
    assert_eq!(g.key_pressed(Button::Left), Some(200));
}

#[test]
fn pixels_of_well_squares_and_previews() {
    assert_eq!(block_pixel(0, 0), (120, 24));
    assert_eq!(block_pixel(9, 19), (192, 176));
    assert_eq!(
        preview_pixels(Tetromino::O, 80, 128),
        [(76, 132), (76, 124), (84, 132), (84, 124)]
    );
    assert_eq!(
        preview_pixels(Tetromino::I, 80, 64),
        [(80, 76), (80, 68), (80, 60), (80, 52)]
    );
}

#[test]
fn rows_being_removed_flash_through_the_frames() {
    assert_eq!(pulse_frame(0), "pulse_1");
    assert_eq!(pulse_frame(74), "pulse_1");
    assert_eq!(pulse_frame(75), "pulse_2");
    assert_eq!(pulse_frame(150), "pulse_3");
    assert_eq!(pulse_frame(225), "pulse_4");
    assert_eq!(pulse_frame(300), "pulse_3");
    assert_eq!(pulse_frame(375), "pulse_2");
    assert_eq!(pulse_frame(450), "pulse_1");
}

#[test]
fn marked_rows_are_removed_last_listed_first() {
    let mut g = GameScreen::with_tetrominoes(Tetromino::O, Tetromino::O);
    drop_piece(&mut g, false, -4);
    assert!(g.check_for_lines().is_empty());
    assert_eq!(g.remove_lines(vec![1, 0]), 800);
    assert_eq!(g.lines_being_removed(), &vec![1, 0]);
    assert!(g.can_clear_lines());
    g.clear_lines();
    assert_eq!((g.lines(), g.score()), (2, 200));
    assert_eq!(filled(&g), 2);
    assert_eq!(g.well()[0][0], Some(Block::Gold));
    assert_eq!(g.well()[0][1], Some(Block::Gold));
    assert_eq!(g.well()[1][0], None);
    assert_eq!(g.well().len(), 20);
}

#[test]
fn rows_out_of_reach_cannot_be_cleared() {
    let mut g = GameScreen::with_tetrominoes(Tetromino::O, Tetromino::O);
    g.remove_lines(vec![19, 19]);
    assert!(!g.can_clear_lines());
    g.remove_lines(vec![19, 18]);
    assert!(!g.can_clear_lines());
    g.remove_lines(vec![18, 19]);
    assert!(g.can_clear_lines());
}
