use tetris::game::block::{sprite, Block};
use tetris::game::tetromino::{
    anti_clockwise, block, clockwise, next_tetromino, positions, tetromino_from_index, Rotation,
    Tetromino,
};

const ALL: [Tetromino; 7] = [
    Tetromino::L,
    Tetromino::R,
    Tetromino::T,
    Tetromino::S,
    Tetromino::Z,
    Tetromino::O,
    Tetromino::I,
];
const ROTATIONS: [Rotation; 4] = [Rotation::UP, Rotation::RIGHT, Rotation::DOWN, Rotation::LEFT];

#[test]
fn positions_are_offsets_from_the_origin() {
    assert_eq!(
        positions(&Tetromino::L, &Rotation::UP, &(4, 19)),
        [(4, 19), (4, 18), (4, 17), (5, 17)]
    );
    assert_eq!(
        positions(&Tetromino::T, &Rotation::LEFT, &(0, 0)),
        [(0, -1), (-1, -1), (0, 0), (0, -2)]
    );
    assert_eq!(
        positions(&Tetromino::I, &Rotation::RIGHT, &(3, 5)),
        [(2, 4), (3, 4), (4, 4), (5, 4)]
    );
    assert_eq!(
        positions(&Tetromino::R, &Rotation::DOWN, &(-2, 10)),
        [(-2, 9), (-2, 8), (-2, 7), (-1, 9)]
    );
}

#[test]
fn every_piece_covers_four_distinct_cells() {
    for t in ALL.iter() {
        for r in ROTATIONS.iter() {
            let cells = positions(t, r, &(0, 0));
            for i in 0..4 {
                for j in (i + 1)..4 {
                    assert_ne!(cells[i], cells[j]);
                }
                assert!(cells[i].0 >= -1 && cells[i].0 <= 2);
                assert!(cells[i].1 >= -3 && cells[i].1 <= 0);
            }
        }
    }
}

#[test]
fn moving_the_origin_moves_every_cell() {
    for t in ALL.iter() {
        for r in ROTATIONS.iter() {
            let a = positions(t, r, &(1, 2));
            let b = positions(t, r, &(4, -3));
            for k in 0..4 {
                assert_eq!((a[k].0 + 3, a[k].1 - 5), b[k]);
            }
        }
    }
}

#[test]
fn half_turn_symmetric_pieces() {
    for t in [Tetromino::S, Tetromino::Z, Tetromino::I, Tetromino::O].iter() {
        for r in ROTATIONS.iter() {
            let half = clockwise(&clockwise(r));
            assert_eq!(positions(t, r, &(0, 0)), positions(t, &half, &(0, 0)));
        }
    }
    assert_eq!(
        positions(&Tetromino::O, &Rotation::UP, &(0, 0)),
        positions(&Tetromino::O, &Rotation::RIGHT, &(0, 0))
    );
}

#[test]
fn rotations_cycle() {
    assert!(matches!(clockwise(&Rotation::UP), Rotation::RIGHT));
    assert!(matches!(clockwise(&Rotation::LEFT), Rotation::UP));
    assert!(matches!(anti_clockwise(&Rotation::UP), Rotation::LEFT));
    assert!(matches!(anti_clockwise(&Rotation::RIGHT), Rotation::UP));
    for r in ROTATIONS.iter() {
        assert_eq!(anti_clockwise(&clockwise(r)), *r);
        assert_eq!(clockwise(&anti_clockwise(r)), *r);
        assert_eq!(clockwise(&clockwise(&clockwise(&clockwise(r)))), *r);
    }
}

#[test]
fn each_piece_has_its_own_colour() {
    assert_eq!(block(&Tetromino::L), Block::Orange);
    assert_eq!(block(&Tetromino::R), Block::DarkBlue);
    assert_eq!(block(&Tetromino::T), Block::PaleBlue);
    assert_eq!(block(&Tetromino::S), Block::Green);
    assert_eq!(block(&Tetromino::Z), Block::Purple);
    assert_eq!(block(&Tetromino::O), Block::Gold);
    assert_eq!(block(&Tetromino::I), Block::Pink);
    for i in 0..7 {
        for j in (i + 1)..7 {
            assert_ne!(block(&ALL[i]), block(&ALL[j]));
        }
    }
}

#[test]
fn sprites_are_named_after_colours() {
    assert_eq!(sprite(&Block::Purple), "purple");
    assert_eq!(sprite(&Block::Orange), "orange");
    assert_eq!(sprite(&Block::Green), "green");
    assert_eq!(sprite(&Block::PaleBlue), "pale_blue");
    assert_eq!(sprite(&Block::Gold), "gold");
    assert_eq!(sprite(&Block::DarkBlue), "dark_blue");
    assert_eq!(sprite(&Block::Pink), "pink");
}

#[test]
fn random_numbers_select_pieces_in_order() {
    for i in 0..7 {
        assert_eq!(tetromino_from_index(i as i32), ALL[i]);
    }
}

#[test]
fn random_pieces_include_more_than_one_kind() {
    let mut seen = std::collections::HashSet::new();
    for _ in 0..500 {
        seen.insert(format!("{:?}", next_tetromino()));
    }
    assert!(seen.len() > 1);
}

#[test]
fn a_clockwise_turn_turns_the_cells_a_quarter() {
    for t in ALL.iter() {
        for r in ROTATIONS.iter() {
            let before = positions(t, r, &(0, 0));
            let after = positions(t, &clockwise(r), &(0, 0));
            let turned: Vec<(i32, i32)> = before.iter().map(|&(x, y)| (y, -x)).collect();
            let dx = after.iter().map(|c| c.0).min().unwrap() - turned.iter().map(|c| c.0).min().unwrap();
            let dy = after.iter().map(|c| c.1).min().unwrap() - turned.iter().map(|c| c.1).min().unwrap();
            let mut moved: Vec<(i32, i32)> = turned.iter().map(|&(x, y)| (x + dx, y + dy)).collect();
            let mut expected = after.to_vec();
            moved.sort();
            expected.sort();
            assert_eq!(moved, expected);
        }
    }
}
