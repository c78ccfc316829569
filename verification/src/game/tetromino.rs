use vstd::prelude::*;

use crate::game::block::Block;

verus! {

/// The seven falling pieces.
#[derive(Copy, Clone, Debug, PartialEq, Eq, Structural)]
pub enum Tetromino {
    L,
    R,
    T,
    S,
    Z,
    O,
    I,
}

/// The four orientations of a piece.
#[allow(non_camel_case_types)]
#[derive(Copy, Clone, Debug, PartialEq, Eq, Structural)]
pub enum Rotation {
    UP,
    RIGHT,
    DOWN,
    LEFT,
}

/// The piece drawn for the random number `i` (which lies in `0..7`).
pub open spec fn tetromino_at(i: int) -> Tetromino {
    if i == 0 {
        Tetromino::L
    } else if i == 1 {
        Tetromino::R
    } else if i == 2 {
        Tetromino::T
    } else if i == 3 {
        Tetromino::S
    } else if i == 4 {
        Tetromino::Z
    } else if i == 5 {
        Tetromino::O
    } else {
        Tetromino::I
    }
}

/// A uniformly drawn integer of `low..high`, from `rand::random_range`.
/// The contract claims only that the value lies in the half-open range,
/// which is what `rand` documents; which value comes is left open.
#[verifier::external_body]
fn random_in_range(low: i32, high: i32) -> (r: i32)
    requires
        low < high,
    ensures
        low <= r < high,
{
    rand::random_range(low..high)
}

/// The piece that the random number `i` selects.
pub fn tetromino_from_index(i: i32) -> (t: Tetromino)
    requires
        0 <= i < 7,
    ensures
        t == tetromino_at(i as int),
{
    match i {
        0 => Tetromino::L,
        1 => Tetromino::R,
        2 => Tetromino::T,
        3 => Tetromino::S,
        4 => Tetromino::Z,
        5 => Tetromino::O,
        _ => Tetromino::I,
    }
}

/// Draws the next piece at random, each of the seven with the same chance.
pub fn next_tetromino() -> (t: Tetromino)
    ensures
        exists|i: int| 0 <= i < 7 && t == tetromino_at(i),
{
    let i = random_in_range(0, 7);
    tetromino_from_index(i)
}

/// The colour in which a piece is drawn.
pub open spec fn block_of(t: Tetromino) -> Block {
    match t {
        Tetromino::L => Block::Orange,
        Tetromino::R => Block::DarkBlue,
        Tetromino::T => Block::PaleBlue,
        Tetromino::S => Block::Green,
        Tetromino::Z => Block::Purple,
        Tetromino::O => Block::Gold,
        Tetromino::I => Block::Pink,
    }
}

/// The colour of the blocks of a piece.
pub fn block(tetronimo: &Tetromino) -> (b: Block)
    ensures
        b == block_of(*tetronimo),
{
    match tetronimo {
        Tetromino::L => Block::Orange,
        Tetromino::R => Block::DarkBlue,
        Tetromino::T => Block::PaleBlue,
        Tetromino::S => Block::Green,
        Tetromino::Z => Block::Purple,
        Tetromino::O => Block::Gold,
        Tetromino::I => Block::Pink,
    }
}

/// The four cells of a piece in an orientation, as offsets from its origin
/// (x to the right, y upwards).
pub open spec fn shape(t: Tetromino, r: Rotation) -> Seq<(int, int)> {
    match t {
        Tetromino::L => match r {
            Rotation::UP => seq![(0, 0), (0, -1), (0, -2), (1, -2)],
            Rotation::RIGHT => seq![(0, -1), (1, -1), (2, -1), (0, -2)],
            Rotation::DOWN => seq![(1, -1), (1, -2), (1, -3), (0, -1)],
            Rotation::LEFT => seq![(-1, -2), (0, -2), (1, -2), (1, -1)],
        },
        Tetromino::R => match r {
            Rotation::UP => seq![(1, 0), (1, -1), (1, -2), (0, -2)],
            Rotation::RIGHT => seq![(0, -1), (0, -2), (1, -2), (2, -2)],
            Rotation::DOWN => seq![(0, -1), (0, -2), (0, -3), (1, -1)],
            Rotation::LEFT => seq![(-1, -1), (0, -1), (1, -1), (1, -2)],
        },
        Tetromino::S => match r {
            Rotation::UP | Rotation::DOWN => seq![(0, 0), (0, -1), (1, -1), (1, -2)],
            Rotation::RIGHT | Rotation::LEFT => seq![(1, -1), (2, -1), (1, -2), (0, -2)],
        },
        Tetromino::Z => match r {
            Rotation::UP | Rotation::DOWN => seq![(1, 0), (1, -1), (0, -1), (0, -2)],
            Rotation::RIGHT | Rotation::LEFT => seq![(-1, -1), (0, -1), (0, -2), (1, -2)],
        },
        Tetromino::T => match r {
            Rotation::UP => seq![(0, -1), (0, 0), (-1, -1), (1, -1)],
            Rotation::RIGHT => seq![(0, -1), (0, 0), (1, -1), (0, -2)],
            Rotation::DOWN => seq![(0, -1), (1, -1), (-1, -1), (0, -2)],
            Rotation::LEFT => seq![(0, -1), (-1, -1), (0, 0), (0, -2)],
        },
        Tetromino::I => match r {
            Rotation::UP | Rotation::DOWN => seq![(0, 0), (0, -1), (0, -2), (0, -3)],
            Rotation::RIGHT | Rotation::LEFT => seq![(-1, -1), (0, -1), (1, -1), (2, -1)],
        },
        Tetromino::O => seq![(0, 0), (0, -1), (1, 0), (1, -1)],
    }
}

/// The cell `k` of a piece whose origin stands at `(px, py)`.
pub open spec fn placed_cell(t: Tetromino, r: Rotation, px: int, py: int, k: int) -> (int, int) {
    (shape(t, r)[k].0 + px, shape(t, r)[k].1 + py)
}

/// Every cell of the piece placed at `(px, py)` has coordinates that fit in an `i32`.
pub open spec fn placement_fits_i32(t: Tetromino, r: Rotation, px: int, py: int) -> bool {
    forall|k: int|
        0 <= k < 4 ==> i32::MIN <= #[trigger] placed_cell(t, r, px, py, k).0 <= i32::MAX
            && i32::MIN <= placed_cell(t, r, px, py, k).1 <= i32::MAX
}

/// The cells that the piece `tetromino` in orientation `rotation` covers
/// when its origin stands at `origin`.
pub fn positions(tetromino: &Tetromino, rotation: &Rotation, origin: &(i32, i32)) -> (cells: [(
    i32,
    i32,
); 4])
    requires
        placement_fits_i32(*tetromino, *rotation, origin.0 as int, origin.1 as int),
    ensures
        forall|k: int|
            0 <= k < 4 ==> (cells[k].0 as int, cells[k].1 as int) == #[trigger] placed_cell(
                *tetromino,
                *rotation,
                origin.0 as int,
                origin.1 as int,
                k,
            ),
{
    let (px, py) = *origin;
    let offsets: [(i32, i32); 4] = match tetromino {
        Tetromino::L => {
            match rotation {
                Rotation::UP => [(0, 0), (0, -1), (0, -2), (1, -2)],
                Rotation::RIGHT => [(0, -1), (1, -1), (2, -1), (0, -2)],
                Rotation::DOWN => [(1, -1), (1, -2), (1, -3), (0, -1)],
                Rotation::LEFT => [(-1, -2), (0, -2), (1, -2), (1, -1)],
            }
        },
        Tetromino::R => {
            match rotation {
                Rotation::UP => [(1, 0), (1, -1), (1, -2), (0, -2)],
                Rotation::RIGHT => [(0, -1), (0, -2), (1, -2), (2, -2)],
                Rotation::DOWN => [(0, -1), (0, -2), (0, -3), (1, -1)],
                Rotation::LEFT => [(-1, -1), (0, -1), (1, -1), (1, -2)],
            }
        },
        Tetromino::S => {
            match rotation {
                Rotation::UP | Rotation::DOWN => [(0, 0), (0, -1), (1, -1), (1, -2)],
                Rotation::RIGHT | Rotation::LEFT => [(1, -1), (2, -1), (1, -2), (0, -2)],
            }
        },
        Tetromino::Z => {
            match rotation {
                Rotation::UP | Rotation::DOWN => [(1, 0), (1, -1), (0, -1), (0, -2)],
                Rotation::RIGHT | Rotation::LEFT => [(-1, -1), (0, -1), (0, -2), (1, -2)],
            }
        },
        Tetromino::T => {
            match rotation {
                Rotation::UP => [(0, -1), (0, 0), (-1, -1), (1, -1)],
                Rotation::RIGHT => [(0, -1), (0, 0), (1, -1), (0, -2)],
                Rotation::DOWN => [(0, -1), (1, -1), (-1, -1), (0, -2)],
                Rotation::LEFT => [(0, -1), (-1, -1), (0, -0), (0, -2)],
            }
        },
        Tetromino::I => {
            match rotation {
                Rotation::UP | Rotation::DOWN => [(0, 0), (0, -1), (0, -2), (0, -3)],
                Rotation::RIGHT | Rotation::LEFT => [(-1, -1), (0, -1), (1, -1), (2, -1)],
            }
        },
        Tetromino::O => [(0, 0), (0, -1), (1, 0), (1, -1)],
    };
    assert(forall|k: int|
        0 <= k < 4 ==> offsets[k].0 as int == shape(*tetromino, *rotation)[k].0
            && offsets[k].1 as int == shape(*tetromino, *rotation)[k].1);
    assert(placed_cell(*tetromino, *rotation, px as int, py as int, 0).0 == offsets[0].0 + px);
    assert(placed_cell(*tetromino, *rotation, px as int, py as int, 1).0 == offsets[1].0 + px);
    assert(placed_cell(*tetromino, *rotation, px as int, py as int, 2).0 == offsets[2].0 + px);
    assert(placed_cell(*tetromino, *rotation, px as int, py as int, 3).0 == offsets[3].0 + px);
    [
        (offsets[0].0 + px, offsets[0].1 + py),
        (offsets[1].0 + px, offsets[1].1 + py),
        (offsets[2].0 + px, offsets[2].1 + py),
        (offsets[3].0 + px, offsets[3].1 + py),
    ]
}

/// The orientation reached by a quarter turn clockwise.
pub open spec fn turned_clockwise(r: Rotation) -> Rotation {
    match r {
        Rotation::UP => Rotation::RIGHT,
        Rotation::RIGHT => Rotation::DOWN,
        Rotation::DOWN => Rotation::LEFT,
        Rotation::LEFT => Rotation::UP,
    }
}

/// The orientation reached by a quarter turn anticlockwise.
pub open spec fn turned_anticlockwise(r: Rotation) -> Rotation {
    match r {
        Rotation::UP => Rotation::LEFT,
        Rotation::RIGHT => Rotation::UP,
        Rotation::DOWN => Rotation::RIGHT,
        Rotation::LEFT => Rotation::DOWN,
    }
}

/// Turns an orientation a quarter clockwise.
pub fn clockwise(rotation: &Rotation) -> (r: Rotation)
    ensures
        r == turned_clockwise(*rotation),
{
    match rotation {
        Rotation::UP => Rotation::RIGHT,
        Rotation::RIGHT => Rotation::DOWN,
        Rotation::DOWN => Rotation::LEFT,
        Rotation::LEFT => Rotation::UP,
    }
}

/// Turns an orientation a quarter anticlockwise.
pub fn anti_clockwise(rotation: &Rotation) -> (r: Rotation)
    ensures
        r == turned_anticlockwise(*rotation),
{
    match rotation {
        Rotation::UP => Rotation::LEFT,
        Rotation::RIGHT => Rotation::UP,
        Rotation::DOWN => Rotation::RIGHT,
        Rotation::LEFT => Rotation::DOWN,
    }
}

/// A quarter turn anticlockwise undoes a quarter turn clockwise, and the other way round.
pub proof fn lemma_turns_undo_each_other(r: Rotation)
    ensures
        turned_anticlockwise(turned_clockwise(r)) == r,
        turned_clockwise(turned_anticlockwise(r)) == r,
{
}

/// Four quarter turns in the same direction bring a piece back to its orientation.
pub proof fn lemma_four_turns_are_identity(r: Rotation)
    ensures
        turned_clockwise(turned_clockwise(turned_clockwise(turned_clockwise(r)))) == r,
        turned_anticlockwise(turned_anticlockwise(turned_anticlockwise(turned_anticlockwise(r))))
            == r,
{
}

/// Every cell of a piece lies at most one column left and two columns right
/// of its origin, and at most three rows below it and never above it.
pub proof fn lemma_shape_bounds(t: Tetromino, r: Rotation)
    ensures
        shape(t, r).len() == 4,
        forall|k: int|
            0 <= k < 4 ==> -1 <= #[trigger] shape(t, r)[k].0 <= 2 && -3 <= shape(t, r)[k].1 <= 0,
{
}

/// The cells `cells` turned a quarter turn clockwise, `(x, y)` going to
/// `(y, -x)`, and moved by `(dx, dy)`.
pub open spec fn quarter_turned(cells: Seq<(int, int)>, dx: int, dy: int) -> Seq<(int, int)> {
    cells.map_values(|c: (int, int)| (c.1 + dx, -c.0 + dy))
}

/// The cell `c` is one of the four cells `s`.
pub open spec fn among_four(s: Seq<(int, int)>, c: (int, int)) -> bool {
    s[0] == c || s[1] == c || s[2] == c || s[3] == c
}

/// The four cells `a` and the four cells `b` are the same cells, in any order.
pub open spec fn same_four_cells(a: Seq<(int, int)>, b: Seq<(int, int)>) -> bool {
    &&& a.len() == 4 && b.len() == 4
    &&& among_four(b, a[0]) && among_four(b, a[1]) && among_four(b, a[2]) && among_four(b, a[3])
    &&& among_four(a, b[0]) && among_four(a, b[1]) && among_four(a, b[2]) && among_four(a, b[3])
}

/// The move that lines up a piece's cells turned a quarter turn with its
/// cells in the next orientation clockwise.
spec fn turn_offset(t: Tetromino, r: Rotation) -> (int, int) {
    match t {
        Tetromino::L | Tetromino::R => (2, -1),
        Tetromino::S => match r {
            Rotation::UP | Rotation::DOWN => (2, -1),
            Rotation::RIGHT | Rotation::LEFT => (2, 0),
        },
        Tetromino::Z => match r {
            Rotation::UP | Rotation::DOWN => (1, -1),
            Rotation::RIGHT | Rotation::LEFT => (2, -1),
        },
        Tetromino::T => (1, -1),
        Tetromino::I => match r {
            Rotation::UP | Rotation::DOWN => (2, -1),
            Rotation::RIGHT | Rotation::LEFT => (1, -1),
        },
        Tetromino::O => (1, 0),
    }
}

/// The next orientation clockwise of a piece covers its cells turned a
/// quarter turn clockwise, up to a move.
pub proof fn lemma_clockwise_is_quarter_turn(t: Tetromino, r: Rotation)
    ensures
        exists|dx: int, dy: int|
            same_four_cells(
                #[trigger] quarter_turned(shape(t, r), dx, dy),
                shape(t, turned_clockwise(r)),
            ),
{
    let (dx, dy) = turn_offset(t, r);
    let turned = quarter_turned(shape(t, r), dx, dy);
    assert(turned =~= seq![
        (shape(t, r)[0].1 + dx, -shape(t, r)[0].0 + dy),
        (shape(t, r)[1].1 + dx, -shape(t, r)[1].0 + dy),
        (shape(t, r)[2].1 + dx, -shape(t, r)[2].0 + dy),
        (shape(t, r)[3].1 + dx, -shape(t, r)[3].0 + dy),
    ]);
    assert(same_four_cells(turned, shape(t, turned_clockwise(r))));
}

/// The cells `cells` moved by `(dx, dy)`.
pub open spec fn translated(cells: Seq<(int, int)>, dx: int, dy: int) -> Seq<(int, int)> {
    cells.map_values(|c: (int, int)| (c.0 + dx, c.1 + dy))
}

/// The cells `cells` mirrored left to right about the column line `x = 1/2`.
pub open spec fn mirrored(cells: Seq<(int, int)>) -> Seq<(int, int)> {
    cells.map_values(|c: (int, int)| (1 - c.0, c.1))
}

/// The orientation seen in a mirror: left and right swap.
pub open spec fn mirrored_rotation(r: Rotation) -> Rotation {
    match r {
        Rotation::UP => Rotation::UP,
        Rotation::RIGHT => Rotation::LEFT,
        Rotation::DOWN => Rotation::DOWN,
        Rotation::LEFT => Rotation::RIGHT,
    }
}

/// S is Z seen in a mirror, and L is R seen in a mirror, in every orientation.
pub proof fn lemma_mirror_pieces(r: Rotation)
    ensures
        same_four_cells(mirrored(shape(Tetromino::Z, r)), shape(Tetromino::S, mirrored_rotation(r))),
        same_four_cells(mirrored(shape(Tetromino::S, r)), shape(Tetromino::Z, mirrored_rotation(r))),
        same_four_cells(mirrored(shape(Tetromino::L, r)), shape(Tetromino::R, mirrored_rotation(r))),
        same_four_cells(mirrored(shape(Tetromino::R, r)), shape(Tetromino::L, mirrored_rotation(r))),
{
    let z = shape(Tetromino::Z, r);
    let s = shape(Tetromino::S, r);
    let l = shape(Tetromino::L, r);
    let rr = shape(Tetromino::R, r);
    assert(mirrored(z) =~= seq![(1 - z[0].0, z[0].1), (1 - z[1].0, z[1].1), (1 - z[2].0, z[2].1), (1 - z[3].0, z[3].1)]);
    assert(mirrored(s) =~= seq![(1 - s[0].0, s[0].1), (1 - s[1].0, s[1].1), (1 - s[2].0, s[2].1), (1 - s[3].0, s[3].1)]);
    assert(mirrored(l) =~= seq![(1 - l[0].0, l[0].1), (1 - l[1].0, l[1].1), (1 - l[2].0, l[2].1), (1 - l[3].0, l[3].1)]);
    assert(mirrored(rr) =~= seq![(1 - rr[0].0, rr[0].1), (1 - rr[1].0, rr[1].1), (1 - rr[2].0, rr[2].1), (1 - rr[3].0, rr[3].1)]);
}

/// Two different pieces never cover the same cells, whatever their
/// orientations and however one is moved.
#[verifier::spinoff_prover]
#[verifier::rlimit(100)]
pub proof fn lemma_pieces_differ(t1: Tetromino, r1: Rotation, t2: Tetromino, r2: Rotation, dx: int, dy: int)
    requires
        t1 != t2,
    ensures
        !same_four_cells(translated(shape(t1, r1), dx, dy), shape(t2, r2)),
{
    let a = shape(t1, r1);
    let b = shape(t2, r2);
    assert(translated(a, dx, dy) =~= seq![
        (a[0].0 + dx, a[0].1 + dy),
        (a[1].0 + dx, a[1].1 + dy),
        (a[2].0 + dx, a[2].1 + dy),
        (a[3].0 + dx, a[3].1 + dy),
    ]);
}

/// Every piece, in every orientation, covers four different cells.
pub proof fn lemma_shape_cells_distinct(t: Tetromino, r: Rotation)
    ensures
        shape(t, r).len() == 4,
        forall|i: int, j: int|
            0 <= i < j < 4 ==> #[trigger] shape(t, r)[i] != #[trigger] shape(t, r)[j],
{
}

/// The pieces S, Z, I and O look the same after a half turn: they have only
/// two orientations (O only one).
pub proof fn lemma_half_turn_symmetry(t: Tetromino, r: Rotation)
    requires
        t == Tetromino::S || t == Tetromino::Z || t == Tetromino::I || t == Tetromino::O,
    ensures
        shape(t, turned_clockwise(turned_clockwise(r))) == shape(t, r),
{
}

/// The square piece O looks the same in every orientation.
pub proof fn lemma_square_is_rotation_invariant(r1: Rotation, r2: Rotation)
    ensures
        shape(Tetromino::O, r1) == shape(Tetromino::O, r2),
{
}

/// Each piece has a colour of its own.
pub proof fn lemma_colours_distinct(t1: Tetromino, t2: Tetromino)
    requires
        t1 != t2,
    ensures
        block_of(t1) != block_of(t2),
{
}

/// Moving a piece's origin moves each of its cells by the same amount.
pub proof fn lemma_placement_translates(
    t: Tetromino,
    r: Rotation,
    px: int,
    py: int,
    dx: int,
    dy: int,
    k: int,
)
    requires
        0 <= k < 4,
    ensures
        placed_cell(t, r, px + dx, py + dy, k) == (
            placed_cell(t, r, px, py, k).0 + dx,
            placed_cell(t, r, px, py, k).1 + dy,
        ),
{
}

} // verus!
