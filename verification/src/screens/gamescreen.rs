use vstd::prelude::*;

use crate::game::block::Block;
use crate::game::tetromino::{
    Rotation,
    Tetromino,
    anti_clockwise,
    block,
    block_of,
    clockwise,
    lemma_shape_bounds,
    next_tetromino,
    placed_cell,
    positions,
    shape,
    turned_anticlockwise,
    turned_clockwise,
};
use crate::input::{
    Button,
    KeyRepeater,
    KeysRepeater,
    after_key_press,
    after_key_release,
    repeater_map,
};

verus! {

/// Number of columns of the well.
pub const WELL_WIDTH: usize = 10;

/// Number of rows of the well.
pub const WELL_HEIGHT: usize = 20;

/// What a player can ask of the falling piece.
#[derive(Copy, Clone, Debug, PartialEq, Eq, Structural)]
pub enum Action {
    Left,
    Right,
    Down,
    RotateClockwise,
    RotateAnticlockwise,
    HoldTetromino,
}

/// What the caller must do after a move: nothing; cancel the drop timer and
/// schedule the next drop after `delay_ms`; or cancel the drop timer and look
/// for full lines, the piece having landed.
#[derive(Copy, Clone, Debug, PartialEq, Eq, Structural)]
pub enum MoveEffect {
    Nothing,
    RestartDropTimer { delay_ms: u64 },
    PieceLocked,
}

/// What the caller must do after a new piece was asked for: schedule its
/// first drop, or end the game after `delay_ms`.
#[derive(Copy, Clone, Debug, PartialEq, Eq, Structural)]
pub enum SpawnEffect {
    Spawned { drop_delay_ms: u64 },
    GameOver { delay_ms: u64 },
}

/// The state of a game as the contracts see it. `well[y][x]` is the square in
/// row `y` (counted from the bottom) and column `x`.
#[verifier::ext_equal]
pub struct GameModel {
    pub well: Seq<Seq<Option<Block>>>,
    pub tetromino: Tetromino,
    pub next_tetromino: Tetromino,
    pub held_tetromino: Option<Tetromino>,
    pub lines_being_removed: Seq<usize>,
    pub game_over: bool,
    pub position: (i32, i32),
    pub rotation: Rotation,
    pub keys: Map<Button, KeyRepeater>,
    pub score: u32,
    pub lines: u32,
    pub level: u32,
}

/// A well of `WELL_HEIGHT` rows of `WELL_WIDTH` squares.
pub open spec fn well_shaped(well: Seq<Seq<Option<Block>>>) -> bool {
    &&& well.len() == WELL_HEIGHT
    &&& forall|y: int| 0 <= y < WELL_HEIGHT ==> #[trigger] well[y].len() == WELL_WIDTH
}

/// The square `(x, y)` lies inside the well.
pub open spec fn in_well(x: int, y: int) -> bool {
    0 <= x < WELL_WIDTH && 0 <= y < WELL_HEIGHT
}

/// Every cell of the piece placed at `(px, py)` lies inside the well.
pub open spec fn piece_in_well(t: Tetromino, r: Rotation, px: int, py: int) -> bool {
    forall|k: int|
        0 <= k < 4 ==> in_well(
            #[trigger] placed_cell(t, r, px, py, k).0,
            placed_cell(t, r, px, py, k).1,
        )
}

/// A piece may occupy the square `(x, y)`: it is not left or right of the
/// well, not below it, and empty.
pub open spec fn cell_available(well: Seq<Seq<Option<Block>>>, x: int, y: int) -> bool {
    0 <= x < WELL_WIDTH && 0 <= y && well[y][x] is None
}

/// Every cell of the piece placed at `(px, py)` is available.
pub open spec fn piece_fits(
    well: Seq<Seq<Option<Block>>>,
    t: Tetromino,
    r: Rotation,
    px: int,
    py: int,
) -> bool {
    forall|k: int|
        0 <= k < 4 ==> cell_available(
            well,
            #[trigger] placed_cell(t, r, px, py, k).0,
            placed_cell(t, r, px, py, k).1,
        )
}

/// Row indices that can be removed together: increasing, inside the well,
/// and at most four of them.
pub open spec fn removable_rows(rows: Seq<usize>) -> bool {
    &&& rows.len() <= 4
    &&& forall|i: int, j: int| 0 <= i < j < rows.len() ==> rows[i] < rows[j]
    &&& forall|i: int| 0 <= i < rows.len() ==> #[trigger] rows[i] < WELL_HEIGHT
}

impl GameModel {
    /// The invariant of a game: the well keeps its size, the falling piece
    /// lies inside it and never above the spawn row, at most four rows are
    /// marked for removal, and the level follows from the lines cleared.
    pub open spec fn wf(self) -> bool {
        &&& well_shaped(self.well)
        &&& self.position.1 <= 19
        &&& piece_in_well(
            self.tetromino,
            self.rotation,
            self.position.0 as int,
            self.position.1 as int,
        )
        &&& self.lines_being_removed.len() <= 4
        &&& self.level == self.lines / 10 + 1
    }
}

/// Milliseconds between two drops of the falling piece at a level.
pub open spec fn drop_delay(level: u32) -> u64 {
    if level == 1 {
        1000
    } else if level == 2 {
        750
    } else if level == 3 {
        500
    } else if level == 4 {
        400
    } else if level == 5 {
        325
    } else if level == 6 {
        250
    } else if level == 7 {
        200
    } else if level == 8 {
        150
    } else if level == 9 {
        125
    } else if level == 10 {
        100
    } else if level == 11 {
        80
    } else {
        60
    }
}

/// The action a button asks for, if any.
pub open spec fn button_action(button: Button) -> Option<Action> {
    match button {
        Button::Left => Some(Action::Left),
        Button::Right => Some(Action::Right),
        Button::Down => Some(Action::Down),
        Button::A => Some(Action::RotateClockwise),
        Button::B => Some(Action::RotateAnticlockwise),
        Button::Y => Some(Action::HoldTetromino),
        _ => None,
    }
}

/// The piece, orientation and origin that an action would lead to.
pub open spec fn candidate(m: GameModel, action: Action) -> (Tetromino, Rotation, int, int) {
    let x = m.position.0 as int;
    let y = m.position.1 as int;
    match action {
        Action::Left => (m.tetromino, m.rotation, x - 1, y),
        Action::Right => (m.tetromino, m.rotation, x + 1, y),
        Action::Down => (m.tetromino, m.rotation, x, y - 1),
        Action::RotateClockwise => (m.tetromino, turned_clockwise(m.rotation), x, y),
        Action::RotateAnticlockwise => (m.tetromino, turned_anticlockwise(m.rotation), x, y),
        Action::HoldTetromino => (
            match m.held_tetromino {
                Some(h) => h,
                None => m.next_tetromino,
            },
            m.rotation,
            x,
            y,
        ),
    }
}

/// The first `n` cells of the piece placed at `(px, py)` include `(x, y)`.
pub open spec fn covers(t: Tetromino, r: Rotation, px: int, py: int, n: int, x: int, y: int) -> bool {
    exists|k: int| 0 <= k < n && placed_cell(t, r, px, py, k) == (x, y)
}

/// The well with the first `n` cells of the piece placed at `(px, py)`
/// filled with the piece's colour.
pub open spec fn fill_cells(
    well: Seq<Seq<Option<Block>>>,
    t: Tetromino,
    r: Rotation,
    px: int,
    py: int,
    n: int,
) -> Seq<Seq<Option<Block>>> {
    Seq::new(
        well.len(),
        |y: int|
            Seq::new(
                well[y].len(),
                |x: int|
                    if covers(t, r, px, py, n, x, y) {
                        Some(block_of(t))
                    } else {
                        well[y][x]
                    },
            ),
    )
}

/// The well after the falling piece has landed: its four cells take its colour.
pub open spec fn locked_well(m: GameModel) -> Seq<Seq<Option<Block>>> {
    fill_cells(m.well, m.tetromino, m.rotation, m.position.0 as int, m.position.1 as int, 4)
}

/// The game after `action`, and what the caller must do. `fresh` is the piece
/// that becomes the next piece when the falling one goes to an empty hold.
pub open spec fn after_move(m: GameModel, action: Action, fresh: Tetromino) -> (
    GameModel,
    MoveEffect,
) {
    if m.lines_being_removed.len() > 0 {
        (m, MoveEffect::Nothing)
    } else {
        let (t, r, x, y) = candidate(m, action);
        if piece_fits(m.well, t, r, x, y) {
            if action == Action::HoldTetromino {
                match m.held_tetromino {
                    Some(h) => (
                        GameModel { tetromino: h, held_tetromino: Some(m.tetromino), ..m },
                        MoveEffect::Nothing,
                    ),
                    None => (
                        GameModel {
                            tetromino: m.next_tetromino,
                            next_tetromino: fresh,
                            held_tetromino: Some(m.tetromino),
                            ..m
                        },
                        MoveEffect::Nothing,
                    ),
                }
            } else {
                (
                    GameModel { position: (x as i32, y as i32), rotation: r, ..m },
                    if action == Action::Down {
                        MoveEffect::RestartDropTimer { delay_ms: drop_delay(m.level) }
                    } else {
                        MoveEffect::Nothing
                    },
                )
            }
        } else if action == Action::Down {
            (GameModel { well: locked_well(m), ..m }, MoveEffect::PieceLocked)
        } else {
            (m, MoveEffect::Nothing)
        }
    }
}

/// The move puts the falling piece in the empty hold, so that a new next
/// piece must be drawn.
pub open spec fn needs_fresh_piece(m: GameModel, action: Action) -> bool {
    &&& m.lines_being_removed.len() == 0
    &&& action == Action::HoldTetromino
    &&& m.held_tetromino is None
    &&& piece_fits(
        m.well,
        m.next_tetromino,
        m.rotation,
        m.position.0 as int,
        m.position.1 as int,
    )
}


/// Every square of the row is filled.
pub open spec fn row_full(row: Seq<Option<Block>>) -> bool {
    forall|x: int| 0 <= x < row.len() ==> #[trigger] row[x] is Some
}

/// The indices, in increasing order, of the full rows among the first `n` rows.
pub open spec fn full_rows(well: Seq<Seq<Option<Block>>>, n: int) -> Seq<usize>
    decreases n,
{
    if n <= 0 {
        seq![]
    } else {
        full_rows(well, n - 1) + if row_full(well[n - 1]) {
            seq![(n - 1) as usize]
        } else {
            seq![]
        }
    }
}

/// Milliseconds during which `n` full rows flash before they are removed.
pub open spec fn removal_delay(n: int) -> u64 {
    if n == 0 {
        0
    } else if n == 1 {
        500
    } else if n == 2 {
        800
    } else if n == 3 {
        1000
    } else {
        1500
    }
}

/// Points for clearing `n` rows at once, before the level bonus.
pub open spec fn line_points(n: int) -> int {
    if n == 0 {
        0
    } else if n == 1 {
        40
    } else if n == 2 {
        100
    } else if n == 3 {
        300
    } else {
        1200
    }
}

/// The rows of `well` from index `lo` upwards that are not listed in `lines`,
/// in their order.
pub open spec fn kept_rows(well: Seq<Seq<Option<Block>>>, lines: Seq<usize>, lo: int) -> Seq<
    Seq<Option<Block>>,
>
    decreases well.len() - lo,
{
    if lo >= well.len() || lo < 0 {
        seq![]
    } else {
        (if listed(lines, lo) {
            seq![]
        } else {
            seq![well[lo]]
        }) + kept_rows(well, lines, lo + 1)
    }
}

/// Row `i` is one of `lines`.
pub open spec fn listed(lines: Seq<usize>, i: int) -> bool {
    exists|j: int| 0 <= j < lines.len() && lines[j] == i
}

/// A row of empty squares.
pub open spec fn empty_row_spec() -> Seq<Option<Block>> {
    Seq::new(WELL_WIDTH as nat, |x: int| None::<Block>)
}

/// The rows `lines` can be removed one after another, the last listed
/// first: each index lies inside the well as it stands when its turn comes.
pub open spec fn removable_in_turn(lines: Seq<usize>) -> bool {
    forall|k: int| 0 <= k < lines.len() ==> #[trigger] lines[k] + (lines.len() - 1 - k) < WELL_HEIGHT
}

/// The well with the rows `lines` removed one after another, the last listed
/// first, each index counting in the well as it stands at its turn.
pub open spec fn removed_rows(well: Seq<Seq<Option<Block>>>, lines: Seq<usize>) -> Seq<
    Seq<Option<Block>>,
>
    decreases lines.len(),
{
    if lines.len() == 0 {
        well
    } else {
        removed_rows(well, lines.drop_first()).remove(lines[0] as int)
    }
}

/// The well once the rows `lines` are removed, the last listed first: the
/// other rows drop down in their order and empty rows fill the top.
pub open spec fn cleared_well(well: Seq<Seq<Option<Block>>>, lines: Seq<usize>) -> Seq<
    Seq<Option<Block>>,
> {
    let kept = removed_rows(well, lines);
    kept + Seq::new((WELL_HEIGHT - kept.len()) as nat, |i: int| empty_row_spec())
}

/// The counters of lines and score do not overflow when the rows being removed are cleared.
pub open spec fn can_clear(m: GameModel) -> bool {
    &&& m.lines + m.lines_being_removed.len() <= u32::MAX
    &&& m.score + line_points(m.lines_being_removed.len() as int) * (m.level + 1) <= u32::MAX
}

/// The game once the rows being removed are cleared: they leave the well,
/// the lines count grows by their number, the score grows by their points
/// times one more than the level before, and the level follows the lines.
pub open spec fn after_clear(m: GameModel) -> GameModel {
    let n = m.lines_being_removed.len() as int;
    let lines = m.lines + n;
    GameModel {
        well: cleared_well(m.well, m.lines_being_removed),
        lines_being_removed: seq![],
        lines: lines as u32,
        score: (m.score + line_points(n) * (m.level + 1)) as u32,
        level: (lines / 10 + 1) as u32,
        ..m
    }
}

/// The next piece fits at the spawn point.
pub open spec fn spawn_fits(m: GameModel) -> bool {
    piece_fits(m.well, m.next_tetromino, Rotation::UP, 4, 19)
}

/// The game once a new piece is asked for: the next piece enters at the
/// spawn point and `fresh` becomes the next piece; or, where it does not fit,
/// the game is over.
pub open spec fn after_spawn(m: GameModel, fresh: Tetromino) -> (GameModel, SpawnEffect) {
    if spawn_fits(m) {
        (
            GameModel {
                position: (4i32, 19i32),
                rotation: Rotation::UP,
                tetromino: m.next_tetromino,
                next_tetromino: fresh,
                ..m
            },
            SpawnEffect::Spawned { drop_delay_ms: drop_delay(m.level) },
        )
    } else {
        (GameModel { game_over: true, ..m }, SpawnEffect::GameOver { delay_ms: 2000 })
    }
}

/// The full rows are listed in increasing order, each inside the first `n` rows.
pub proof fn lemma_full_rows_ordered(well: Seq<Seq<Option<Block>>>, n: int)
    requires
        n <= WELL_HEIGHT,
    ensures
        full_rows(well, n).len() <= if n < 0 {
            0
        } else {
            n
        },
        forall|i: int, j: int|
            0 <= i < j < full_rows(well, n).len() ==> full_rows(well, n)[i] < full_rows(
                well,
                n,
            )[j],
        forall|i: int|
            0 <= i < full_rows(well, n).len() ==> (#[trigger] full_rows(well, n)[i] as int) < n
                && full_rows(well, n)[i] as int >= 0,
    decreases n,
{
    if n > 0 {
        lemma_full_rows_ordered(well, n - 1);
        let prev = full_rows(well, n - 1);
        let cur = full_rows(well, n);
        assert forall|i: int, j: int| 0 <= i < j < cur.len() implies cur[i] < cur[j] by {
            if j < prev.len() {
                assert(cur[i] == prev[i] && cur[j] == prev[j]);
            } else {
                assert(cur[i] == prev[i]);
                assert(prev[i] < n - 1);
                assert(cur[j] == (n - 1) as usize);
            }
        }
    }
}

proof fn lemma_kept_rows_len(well: Seq<Seq<Option<Block>>>, lines: Seq<usize>, lo: int)
    requires
        0 <= lo <= well.len(),
    ensures
        kept_rows(well, lines, lo).len() <= well.len() - lo,
    decreases well.len() - lo,
{
    if lo < well.len() {
        lemma_kept_rows_len(well, lines, lo + 1);
    }
}

proof fn lemma_kept_rows_width(well: Seq<Seq<Option<Block>>>, lines: Seq<usize>, lo: int)
    requires
        0 <= lo <= well.len(),
        forall|y: int| 0 <= y < well.len() ==> #[trigger] well[y].len() == WELL_WIDTH,
    ensures
        forall|i: int|
            0 <= i < kept_rows(well, lines, lo).len() ==> #[trigger] kept_rows(well, lines, lo)[i].len()
                == WELL_WIDTH,
    decreases well.len() - lo,
{
    if lo < well.len() {
        lemma_kept_rows_width(well, lines, lo + 1);
        let head: Seq<Seq<Option<Block>>> = if listed(lines, lo) {
            seq![]
        } else {
            seq![well[lo]]
        };
        assert(kept_rows(well, lines, lo) == head + kept_rows(well, lines, lo + 1));
    }
}

/// Where no row of `[a, c)` is listed, the kept rows from `a` are the rows
/// of `[a, c)` followed by the kept rows from `c`.
proof fn lemma_kept_rows_split(well: Seq<Seq<Option<Block>>>, lines: Seq<usize>, a: int, c: int)
    requires
        0 <= a <= c <= well.len(),
        forall|i: int| a <= i < c ==> !#[trigger] listed(lines, i),
    ensures
        kept_rows(well, lines, a) == well.subrange(a, c) + kept_rows(well, lines, c),
    decreases c - a,
{
    if a < c {
        lemma_kept_rows_split(well, lines, a + 1, c);
        assert(well.subrange(a, c) =~= seq![well[a]] + well.subrange(a + 1, c));
        assert(kept_rows(well, lines, a) == seq![well[a]] + kept_rows(well, lines, a + 1));
    } else {
        assert(well.subrange(a, c) =~= Seq::<Seq<Option<Block>>>::empty());
    }
}


/// The row index below which no listed row has been removed yet once the
/// rows `rows[k..]` are removed, the highest first.
pub open spec fn removal_bound(rows: Seq<usize>, k: int) -> int {
    if k >= rows.len() {
        WELL_HEIGHT as int
    } else {
        rows[k] as int
    }
}

/// The well once the rows `rows[k..]` are removed, the highest first.
pub open spec fn removal_stage(w0: Seq<Seq<Option<Block>>>, rows: Seq<usize>, k: int) -> Seq<
    Seq<Option<Block>>,
> {
    w0.subrange(0, removal_bound(rows, k)) + kept_rows(w0, rows, removal_bound(rows, k))
}

/// Removing the row `rows[k - 1]` from the well where `rows[k..]` are
/// removed gives the well where `rows[k - 1..]` are removed.
proof fn lemma_removal_step(w0: Seq<Seq<Option<Block>>>, rows: Seq<usize>, k: int)
    requires
        removable_rows(rows),
        well_shaped(w0),
        0 < k <= rows.len(),
    ensures
        rows[k - 1] < removal_stage(w0, rows, k).len(),
        removal_stage(w0, rows, k).remove(rows[k - 1] as int) == removal_stage(w0, rows, k - 1),
{
    let c = removal_bound(rows, k);
    let index = rows[k - 1] as int;
    assert(index < c);
    assert forall|i: int| index + 1 <= i < c implies !#[trigger] listed(rows, i) by {
        if listed(rows, i) {
            let j = choose|j: int| 0 <= j < rows.len() && rows[j] == i;
            if j < k - 1 {
                assert(rows[j] <= rows[k - 1]);
            } else if j > k - 1 {
                assert(rows[k] <= rows[j]);
            }
        }
    }
    lemma_kept_rows_split(w0, rows, index + 1, c);
    assert(listed(rows, index));
    assert(kept_rows(w0, rows, index) == seq![] + kept_rows(w0, rows, index + 1));
    assert(w0.subrange(0, c) =~= w0.subrange(0, index) + seq![w0[index]] + w0.subrange(
        index + 1,
        c,
    ));
    assert(removal_stage(w0, rows, k).remove(index) =~= removal_stage(w0, rows, k - 1));
}

/// With every listed row removed, the well is the kept rows.
proof fn lemma_removal_done(w0: Seq<Seq<Option<Block>>>, rows: Seq<usize>)
    requires
        removable_rows(rows),
        well_shaped(w0),
    ensures
        removal_stage(w0, rows, 0) == kept_rows(w0, rows, 0),
{
    let c = removal_bound(rows, 0);
    assert forall|i: int| 0 <= i < c implies !#[trigger] listed(rows, i) by {
        if listed(rows, i) {
            let j = choose|j: int| 0 <= j < rows.len() && rows[j] == i;
            if j > 0 {
                assert(rows[0] <= rows[j]);
            }
        }
    }
    lemma_kept_rows_split(w0, rows, 0, c);
    assert(w0.subrange(0, 0) =~= Seq::<Seq<Option<Block>>>::empty());
    assert(removal_stage(w0, rows, 0) =~= kept_rows(w0, rows, 0));
}

/// Removing rows in turn from a full-size well leaves one row fewer for each,
/// all of the well's width.
proof fn lemma_removed_rows_shape(w0: Seq<Seq<Option<Block>>>, lines: Seq<usize>)
    requires
        well_shaped(w0),
        removable_in_turn(lines),
    ensures
        removed_rows(w0, lines).len() == WELL_HEIGHT - lines.len(),
        forall|y: int|
            0 <= y < removed_rows(w0, lines).len() ==> #[trigger] removed_rows(w0, lines)[y].len()
                == WELL_WIDTH,
    decreases lines.len(),
{
    if lines.len() > 0 {
        let rest = lines.drop_first();
        assert forall|k: int| 0 <= k < rest.len() implies #[trigger] rest[k] + (rest.len() - 1 - k)
            < WELL_HEIGHT by {
            assert(rest[k] == lines[k + 1]);
        }
        lemma_removed_rows_shape(w0, rest);
        assert(lines[0] + (lines.len() - 1 - 0) < WELL_HEIGHT);
        let r = removed_rows(w0, rest);
        assert forall|y: int| 0 <= y < r.remove(lines[0] as int).len() implies #[trigger] r.remove(
            lines[0] as int,
        )[y].len() == WELL_WIDTH by {
            if y < lines[0] {
                assert(r.remove(lines[0] as int)[y] == r[y]);
            } else {
                assert(r.remove(lines[0] as int)[y] == r[y + 1]);
            }
        }
    }
}

/// A removable run of rows, removed in turn from the last, leaves the rows
/// below `rows[k]` and the kept rows above it.
proof fn lemma_removed_suffix(w0: Seq<Seq<Option<Block>>>, rows: Seq<usize>, k: int)
    requires
        removable_rows(rows),
        well_shaped(w0),
        0 <= k <= rows.len(),
    ensures
        removed_rows(w0, rows.subrange(k, rows.len() as int)) == removal_stage(w0, rows, k),
    decreases rows.len() - k,
{
    let n = rows.len() as int;
    if k == n {
        assert(rows.subrange(k, n) =~= Seq::<usize>::empty());
        assert(kept_rows(w0, rows, WELL_HEIGHT as int) =~= Seq::<Seq<Option<Block>>>::empty());
        assert(removal_stage(w0, rows, k) =~= w0);
    } else {
        lemma_removed_suffix(w0, rows, k + 1);
        assert(rows.subrange(k, n).drop_first() =~= rows.subrange(k + 1, n));
        lemma_removal_step(w0, rows, k + 1);
    }
}

/// Rows that are increasing and inside the well can be removed in turn, and
/// removing them leaves exactly the other rows, in order.
pub proof fn lemma_removed_rows_are_kept(w0: Seq<Seq<Option<Block>>>, rows: Seq<usize>)
    requires
        removable_rows(rows),
        well_shaped(w0),
    ensures
        removable_in_turn(rows),
        removed_rows(w0, rows) == kept_rows(w0, rows, 0),
{
    assert forall|k: int| 0 <= k < rows.len() implies #[trigger] rows[k] + (rows.len() - 1 - k)
        < WELL_HEIGHT by {
        lemma_ascending_room(rows, k);
    }
    lemma_removed_suffix(w0, rows, 0);
    assert(rows.subrange(0, rows.len() as int) =~= rows);
    lemma_removal_done(w0, rows);
}

/// In an increasing run of rows inside the well, row `rows[k]` leaves room
/// above it for the rows listed after it.
proof fn lemma_ascending_room(rows: Seq<usize>, k: int)
    requires
        removable_rows(rows),
        0 <= k < rows.len(),
    ensures
        rows[k] + (rows.len() - 1 - k) < WELL_HEIGHT,
    decreases rows.len() - k,
{
    if k < rows.len() - 1 {
        lemma_ascending_room(rows, k + 1);
        assert(rows[k] < rows[k + 1]);
    }
}

/// Clearing `n` rows at once scores 40, 100, 300 or 1200 points for one to
/// four rows, times one more than the level before the clear; the lines
/// count grows by `n`.
pub proof fn lemma_clear_scores_by_rows(m: GameModel)
    requires
        m.wf(),
        can_clear(m),
    ensures
        after_clear(m).lines == m.lines + m.lines_being_removed.len(),
        m.lines_being_removed.len() == 0 ==> after_clear(m).score == m.score,
        m.lines_being_removed.len() == 1 ==> after_clear(m).score == m.score + 40 * (m.level + 1),
        m.lines_being_removed.len() == 2 ==> after_clear(m).score == m.score + 100 * (m.level + 1),
        m.lines_being_removed.len() == 3 ==> after_clear(m).score == m.score + 300 * (m.level + 1),
        m.lines_being_removed.len() == 4 ==> after_clear(m).score == m.score + 1200 * (m.level + 1),
{
}

/// More rows cleared at once score more, at any level.
pub proof fn lemma_more_rows_score_more(m1: GameModel, m2: GameModel)
    requires
        m1.wf(),
        m2.wf(),
        can_clear(m1),
        can_clear(m2),
        m1.level == m2.level,
        m1.score == m2.score,
        m1.lines_being_removed.len() < m2.lines_being_removed.len(),
    ensures
        after_clear(m1).score < after_clear(m2).score,
{
    let l = m1.level + 1;
    assert(0 * l < 40 * l && 40 * l < 100 * l && 100 * l < 300 * l && 300 * l < 1200 * l)
        by (nonlinear_arith)
        requires
            l >= 1,
    ;
}

/// The full-row check lists exactly the rows in which every square, of the
/// ten columns, is filled.
pub proof fn lemma_full_rows_are_the_full_rows(well: Seq<Seq<Option<Block>>>)
    requires
        well_shaped(well),
    ensures
        forall|y: int|
            #![trigger well[y]]
            0 <= y < WELL_HEIGHT ==> ((exists|j: int|
                0 <= j < full_rows(well, WELL_HEIGHT as int).len() && full_rows(
                    well,
                    WELL_HEIGHT as int,
                )[j] == y) <==> (forall|x: int| 0 <= x < WELL_WIDTH ==> #[trigger] well[y][x] is Some)),
{
    lemma_full_rows_complete(well, WELL_HEIGHT as int);
    lemma_full_rows_sound(well, WELL_HEIGHT as int);
    let f = full_rows(well, WELL_HEIGHT as int);
    assert forall|y: int| #![trigger well[y]] 0 <= y < WELL_HEIGHT implies ((exists|j: int|
        0 <= j < f.len() && f[j] == y) <==> (forall|x: int|
        0 <= x < WELL_WIDTH ==> #[trigger] well[y][x] is Some)) by {
        assert(well[y].len() == WELL_WIDTH);
        if exists|j: int| 0 <= j < f.len() && f[j] == y {
            let j = choose|j: int| 0 <= j < f.len() && f[j] == y;
            assert(row_full(well[f[j] as int]));
        }
        if forall|x: int| 0 <= x < WELL_WIDTH ==> #[trigger] well[y][x] is Some {
            assert(row_full(well[y]));
            assert(listed(f, y));
        }
    }
}

proof fn lemma_full_rows_sound(well: Seq<Seq<Option<Block>>>, n: int)
    requires
        n <= WELL_HEIGHT,
    ensures
        forall|j: int|
            0 <= j < full_rows(well, n).len() ==> row_full(well[#[trigger] full_rows(well, n)[j] as int]),
    decreases n,
{
    lemma_full_rows_ordered(well, n);
    if n > 0 {
        lemma_full_rows_sound(well, n - 1);
        let prev = full_rows(well, n - 1);
        let cur = full_rows(well, n);
        assert forall|j: int| 0 <= j < cur.len() implies row_full(well[#[trigger] cur[j] as int]) by {
            if j < prev.len() {
                assert(cur[j] == prev[j]);
            } else {
                assert(cur[j] == (n - 1) as usize);
            }
        }
    }
}

/// A soft drop that goes through restarts the drop timer with the delay of
/// the current level: the same delay that a piece entering at that level
/// gets, 1000 ms at level 1 and 750 ms at level 2.
pub proof fn lemma_soft_drop_keeps_the_level_pace(
    m: GameModel,
    fresh: Tetromino,
    other: GameModel,
    other_fresh: Tetromino,
)
    requires
        m.lines_being_removed.len() == 0,
        piece_fits(
            m.well,
            m.tetromino,
            m.rotation,
            m.position.0 as int,
            m.position.1 as int - 1,
        ),
        spawn_fits(other),
        other.level == m.level,
    ensures
        (after_spawn(other, other_fresh).1 matches SpawnEffect::Spawned { drop_delay_ms: d }
            && after_move(m, Action::Down, fresh).1 == (MoveEffect::RestartDropTimer { delay_ms: d })),
        m.level == 1 ==> after_move(m, Action::Down, fresh).1 == (MoveEffect::RestartDropTimer {
            delay_ms: 1000,
        }),
        m.level == 2 ==> after_move(m, Action::Down, fresh).1 == (MoveEffect::RestartDropTimer {
            delay_ms: 750,
        }),
{
}

/// The drop delay shrinks level by level to 60 ms from level 12 on.
pub proof fn lemma_drop_delay_shrinks(a: u32, b: u32)
    requires
        1 <= a < b,
    ensures
        drop_delay(a) >= drop_delay(b),
        a < 12 ==> drop_delay(a) > drop_delay(b),
        drop_delay(1) == 1000,
        b >= 12 ==> drop_delay(b) == 60,
{
}

/// The opposite of a sideways move or a rotation.
pub open spec fn opposite(action: Action) -> Action {
    match action {
        Action::Left => Action::Right,
        Action::Right => Action::Left,
        Action::RotateClockwise => Action::RotateAnticlockwise,
        Action::RotateAnticlockwise => Action::RotateClockwise,
        _ => action,
    }
}

/// A sideways move or a rotation that goes through, of a falling piece that
/// still fits where it stands, is undone by the opposite move.
pub proof fn lemma_opposite_move_undoes(m: GameModel, action: Action, fresh: Tetromino)
    requires
        m.wf(),
        action == Action::Left || action == Action::Right || action == Action::RotateClockwise
            || action == Action::RotateAnticlockwise,
        m.lines_being_removed.len() == 0,
        piece_fits(m.well, m.tetromino, m.rotation, m.position.0 as int, m.position.1 as int),
        piece_fits(
            m.well,
            candidate(m, action).0,
            candidate(m, action).1,
            candidate(m, action).2,
            candidate(m, action).3,
        ),
    ensures
        after_move(after_move(m, action, fresh).0, opposite(action), fresh).0 == m,
{
    crate::game::tetromino::lemma_turns_undo_each_other(m.rotation);
    lemma_origin_bounds(m.tetromino, m.rotation, m.position.0 as int, m.position.1 as int);
    let m1 = after_move(m, action, fresh).0;
    assert(candidate(m1, opposite(action)) == (
        m.tetromino,
        m.rotation,
        m.position.0 as int,
        m.position.1 as int,
    ));
    let m2 = after_move(m1, opposite(action), fresh).0;
    assert(m2.position == m.position);
    assert(m2 =~= m);
}

/// Swapping the falling piece with a held one twice gives the game back, as
/// long as both pieces fit where the falling piece stands.
pub proof fn lemma_hold_twice_restores(m: GameModel, fresh: Tetromino)
    requires
        m.lines_being_removed.len() == 0,
        m.held_tetromino is Some,
        piece_fits(m.well, m.tetromino, m.rotation, m.position.0 as int, m.position.1 as int),
    ensures
        after_move(after_move(m, Action::HoldTetromino, fresh).0, Action::HoldTetromino, fresh).0
            == m,
{
    let m1 = after_move(m, Action::HoldTetromino, fresh).0;
    let (t, r, x, y) = candidate(m, Action::HoldTetromino);
    if piece_fits(m.well, t, r, x, y) {
        assert(after_move(m1, Action::HoldTetromino, fresh).0 =~= m);
    }
}

/// Clearing rows never lowers the lines count, the score or the level.
pub proof fn lemma_clear_never_lowers_counters(m: GameModel)
    requires
        m.wf(),
        can_clear(m),
    ensures
        after_clear(m).lines >= m.lines,
        after_clear(m).score >= m.score,
        after_clear(m).level >= m.level,
        after_clear(m).level == after_clear(m).lines / 10 + 1,
{
    let n = m.lines_being_removed.len() as int;
    assert(line_points(n) * (m.level + 1) >= 0) by (nonlinear_arith)
        requires
            line_points(n) >= 0,
            m.level >= 0,
    ;
    assert((m.lines + n) / 10 >= m.lines / 10) by (nonlinear_arith)
        requires
            n >= 0,
            m.lines >= 0,
    ;
}

proof fn lemma_kept_rows_members(well: Seq<Seq<Option<Block>>>, lines: Seq<usize>, lo: int)
    requires
        0 <= lo <= well.len(),
    ensures
        forall|i: int|
            0 <= i < kept_rows(well, lines, lo).len() ==> exists|j: int|
                lo <= j < well.len() && !listed(lines, j) && #[trigger] kept_rows(well, lines, lo)[i]
                    == well[j],
    decreases well.len() - lo,
{
    if lo < well.len() {
        lemma_kept_rows_members(well, lines, lo + 1);
        let rest = kept_rows(well, lines, lo + 1);
        let cur = kept_rows(well, lines, lo);
        if listed(lines, lo) {
            assert(cur =~= rest);
            assert forall|i: int| 0 <= i < cur.len() implies exists|j: int|
                lo <= j < well.len() && !listed(lines, j) && #[trigger] cur[i] == well[j] by {
                assert(cur[i] == rest[i]);
            }
        } else {
            assert(cur =~= seq![well[lo]] + rest);
            assert forall|i: int| 0 <= i < cur.len() implies exists|j: int|
                lo <= j < well.len() && !listed(lines, j) && #[trigger] cur[i] == well[j] by {
                if i == 0 {
                    assert(cur[0] == well[lo]);
                } else {
                    assert(cur[i] == rest[i - 1]);
                }
            }
        }
    }
}

proof fn lemma_full_rows_complete(well: Seq<Seq<Option<Block>>>, n: int)
    requires
        0 <= n <= WELL_HEIGHT,
    ensures
        forall|j: int| 0 <= j < n && row_full(well[j]) ==> #[trigger] listed(full_rows(well, n), j),
    decreases n,
{
    if n > 0 {
        lemma_full_rows_complete(well, n - 1);
        let prev = full_rows(well, n - 1);
        let cur = full_rows(well, n);
        assert forall|j: int| 0 <= j < n && row_full(well[j]) implies #[trigger] listed(cur, j) by {
            if j < n - 1 {
                assert(listed(prev, j));
                let k = choose|k: int| 0 <= k < prev.len() && prev[k] == j;
                assert(cur[k] == prev[k]);
            } else {
                assert(cur[prev.len() as int] == j);
            }
        }
    }
}

/// Once the full rows found by the check are cleared, no row of the well is full.
pub proof fn lemma_no_full_row_after_clear(m: GameModel)
    requires
        m.wf(),
        m.lines_being_removed == full_rows(m.well, WELL_HEIGHT as int),
    ensures
        forall|y: int| 0 <= y < WELL_HEIGHT ==> !row_full(#[trigger] after_clear(m).well[y]),
{
    let rows = m.lines_being_removed;
    lemma_full_rows_ordered(m.well, WELL_HEIGHT as int);
    lemma_removed_rows_are_kept(m.well, rows);
    let kept = kept_rows(m.well, rows, 0);
    lemma_kept_rows_len(m.well, rows, 0);
    lemma_kept_rows_members(m.well, rows, 0);
    lemma_full_rows_complete(m.well, WELL_HEIGHT as int);
    let w = after_clear(m).well;
    assert forall|y: int| 0 <= y < WELL_HEIGHT implies !row_full(#[trigger] w[y]) by {
        if y < kept.len() {
            assert(w[y] == kept[y]);
            let j = choose|j: int| 0 <= j < m.well.len() && !listed(rows, j) && kept[y] == m.well[j];
            assert(!row_full(m.well[j]));
        } else {
            assert(w[y] == empty_row_spec());
            assert(w[y][0] is None);
        }
    }
}

/// The screen position of the square `(x, y)` of the well.
pub open spec fn block_position(x: int, y: int) -> (int, int) {
    (x * 8 + 120, y * 8 + 24)
}

/// The screen position of the square `(x, y)` of the well.
pub fn block_pixel(x: i32, y: i32) -> (p: (i32, i32))
    requires
        i32::MIN <= x * 8 <= i32::MAX,
        i32::MIN <= y * 8 <= i32::MAX,
        i32::MIN <= block_position(x as int, y as int).0 <= i32::MAX,
        i32::MIN <= block_position(x as int, y as int).1 <= i32::MAX,
    ensures
        (p.0 as int, p.1 as int) == block_position(x as int, y as int),
{
    (x * 8 + 120, y * 8 + 24)
}

/// The smaller of two integers.
pub open spec fn min_int(a: int, b: int) -> int {
    if a <= b {
        a
    } else {
        b
    }
}

/// The larger of two integers.
pub open spec fn max_int(a: int, b: int) -> int {
    if a >= b {
        a
    } else {
        b
    }
}

/// Four times the sum of the least and greatest column of a piece standing up:
/// the column of its centre, in pixels.
pub open spec fn preview_center_x(t: Tetromino) -> int {
    let s = shape(t, Rotation::UP);
    (max_int(max_int(max_int(s[0].0, s[1].0), s[2].0), s[3].0) + min_int(
        min_int(min_int(s[0].0, s[1].0), s[2].0),
        s[3].0,
    )) * 4
}

/// Four times the sum of the least and greatest row of a piece standing up:
/// the row of its centre, in pixels.
pub open spec fn preview_center_y(t: Tetromino) -> int {
    let s = shape(t, Rotation::UP);
    (max_int(max_int(max_int(s[0].1, s[1].1), s[2].1), s[3].1) + min_int(
        min_int(min_int(s[0].1, s[1].1), s[2].1),
        s[3].1,
    )) * 4
}

/// The screen position of cell `k` of a piece shown standing up and centred
/// on `(sx, sy)`, as for the next and held pieces.
pub open spec fn preview_position(t: Tetromino, sx: int, sy: int, k: int) -> (int, int) {
    let s = shape(t, Rotation::UP);
    (s[k].0 * 8 + sx - preview_center_x(t), s[k].1 * 8 + sy - preview_center_y(t))
}

/// The screen positions of the cells of a piece centred on `(sx, sy)`, and
/// the sums on the way to them, fit in an `i32`.
pub open spec fn preview_fits_i32(t: Tetromino, sx: int, sy: int) -> bool {
    forall|k: int|
        0 <= k < 4 ==> {
            let s = shape(t, Rotation::UP);
            &&& i32::MIN <= s[k].0 * 8 + sx <= i32::MAX
            &&& i32::MIN <= s[k].1 * 8 + sy <= i32::MAX
            &&& i32::MIN <= #[trigger] preview_position(t, sx, sy, k).0 <= i32::MAX
            &&& i32::MIN <= preview_position(t, sx, sy, k).1 <= i32::MAX
        }
}

/// The screen positions of the cells of a piece shown standing up and
/// centred on `(sx, sy)`.
pub fn preview_pixels(tetromino: Tetromino, sx: i32, sy: i32) -> (pixels: [(i32, i32); 4])
    requires
        preview_fits_i32(tetromino, sx as int, sy as int),
    ensures
        forall|k: int|
            0 <= k < 4 ==> (pixels[k].0 as int, pixels[k].1 as int) == #[trigger] preview_position(
                tetromino,
                sx as int,
                sy as int,
                k,
            ),
{
    let ghost s = shape(tetromino, Rotation::UP);
    proof {
        lemma_shape_bounds(tetromino, Rotation::UP);
    }
    let origin: (i32, i32) = (0, 0);
    let cells = positions(&tetromino, &Rotation::UP, &origin);
    assert forall|k: int| 0 <= k < 4 implies cells[k].0 == s[k].0 && cells[k].1 == s[k].1 by {
        assert((cells[k].0 as int, cells[k].1 as int) == placed_cell(
            tetromino,
            Rotation::UP,
            origin.0 as int,
            origin.1 as int,
            k,
        ));
    }
    let min_x = min_i32(min_i32(min_i32(cells[0].0, cells[1].0), cells[2].0), cells[3].0);
    let max_x = max_i32(max_i32(max_i32(cells[0].0, cells[1].0), cells[2].0), cells[3].0);
    let min_y = min_i32(min_i32(min_i32(cells[0].1, cells[1].1), cells[2].1), cells[3].1);
    let max_y = max_i32(max_i32(max_i32(cells[0].1, cells[1].1), cells[2].1), cells[3].1);
    let center_x = (max_x + min_x) * 4;
    let center_y = (max_y + min_y) * 4;
    assert(center_x == preview_center_x(tetromino));
    assert(center_y == preview_center_y(tetromino));
    let mut pixels: [(i32, i32); 4] = [(0, 0), (0, 0), (0, 0), (0, 0)];
    for k in 0..4
        invariant
            preview_fits_i32(tetromino, sx as int, sy as int),
            s == shape(tetromino, Rotation::UP),
            center_x == preview_center_x(tetromino),
            center_y == preview_center_y(tetromino),
            forall|j: int| 0 <= j < 4 ==> cells[j].0 == s[j].0 && cells[j].1 == s[j].1,
            forall|j: int|
                0 <= j < k ==> (pixels[j].0 as int, pixels[j].1 as int) == #[trigger] preview_position(
                    tetromino,
                    sx as int,
                    sy as int,
                    j,
                ),
    {
        assert(i32::MIN <= preview_position(tetromino, sx as int, sy as int, k as int).0 <= i32::MAX);
        let x = cells[k].0 * 8 + sx - center_x;
        let y = cells[k].1 * 8 + sy - center_y;
        pixels[k] = (x, y);
    }
    pixels
}

/// The smaller of two numbers.
fn min_i32(a: i32, b: i32) -> (m: i32)
    ensures
        m == min_int(a as int, b as int),
{
    if a <= b {
        a
    } else {
        b
    }
}

/// The larger of two numbers.
fn max_i32(a: i32, b: i32) -> (m: i32)
    ensures
        m == max_int(a as int, b as int),
{
    if a >= b {
        a
    } else {
        b
    }
}

/// The sprite of frame `i` of the flashing of rows being removed.
pub open spec fn pulse_name(i: int) -> Seq<char> {
    if i == 0 {
        "pulse_1"@
    } else if i == 1 {
        "pulse_2"@
    } else if i == 2 {
        "pulse_3"@
    } else if i == 3 {
        "pulse_4"@
    } else if i == 4 {
        "pulse_3"@
    } else {
        "pulse_2"@
    }
}

/// The sprite that rows being removed show at the time `now_ms` (milliseconds
/// since the epoch): the frames cycle every 75 ms.
pub fn pulse_frame(now_ms: u128) -> (name: &'static str)
    ensures
        name@ == pulse_name(((now_ms / 75) % 6) as int),
{
    match (now_ms / 75) % 6 {
        0 => "pulse_1",
        1 => "pulse_2",
        2 => "pulse_3",
        3 => "pulse_4",
        4 => "pulse_3",
        _ => "pulse_2",
    }
}

/// The game screen: the well, the falling, next and held pieces, the rows
/// waiting to be removed, and the score.
pub struct GameScreen {
    well: Vec<Vec<Option<Block>>>,
    tetromino: Tetromino,
    next_tetromino: Tetromino,
    held_tetromino: Option<Tetromino>,
    lines_being_removed: Vec<usize>,
    game_over: bool,
    position: (i32, i32),
    rotation: Rotation,
    key_repeater: KeysRepeater,
    score: u32,
    lines: u32,
    level: u32,
}

/// The rows of a well of vectors, as sequences.
pub open spec fn rows_view(well: Seq<Vec<Option<Block>>>) -> Seq<Seq<Option<Block>>> {
    well.map_values(|row: Vec<Option<Block>>| row@)
}

impl View for GameScreen {
    type V = GameModel;

    closed spec fn view(&self) -> GameModel {
        GameModel {
            well: rows_view(self.well@),
            tetromino: self.tetromino,
            next_tetromino: self.next_tetromino,
            held_tetromino: self.held_tetromino,
            lines_being_removed: self.lines_being_removed@,
            game_over: self.game_over,
            position: self.position,
            rotation: self.rotation,
            keys: self.key_repeater@,
            score: self.score,
            lines: self.lines,
            level: self.level,
        }
    }
}

/// A row of empty squares.
fn empty_row() -> (row: Vec<Option<Block>>)
    ensures
        row@ == Seq::new(WELL_WIDTH as nat, |x: int| None::<Block>),
{
    let mut row: Vec<Option<Block>> = Vec::new();
    for i in 0..WELL_WIDTH
        invariant
            row@ == Seq::new(i as nat, |x: int| None::<Block>),
    {
        row.push(None);
    }
    row
}

/// Milliseconds between two drops of the falling piece at `level`.
pub fn drop_time(level: u32) -> (ms: u64)
    ensures
        ms == drop_delay(level),
{
    match level {
        1 => 1_000,
        2 => 750,
        3 => 500,
        4 => 400,
        5 => 325,
        6 => 250,
        7 => 200,
        8 => 150,
        9 => 125,
        10 => 100,
        11 => 80,
        _ => 60,
    }
}

/// The action that a press of `button` asks for on the game screen.
pub fn listen_to_press(button: Button) -> (action: Option<Action>)
    ensures
        action == button_action(button),
{
    match button {
        Button::Left => Some(Action::Left),
        Button::Right => Some(Action::Right),
        Button::Down => Some(Action::Down),
        Button::A => Some(Action::RotateClockwise),
        Button::B => Some(Action::RotateAnticlockwise),
        Button::Y => Some(Action::HoldTetromino),
        _ => None,
    }
}

/// The origin of a piece whose cells all lie in the well is at most two
/// columns outside it and not below it.
proof fn lemma_origin_bounds(t: Tetromino, r: Rotation, px: int, py: int)
    requires
        piece_in_well(t, r, px, py),
    ensures
        -2 <= px <= 10,
        0 <= py,
{
    lemma_shape_bounds(t, r);
    assert(in_well(placed_cell(t, r, px, py, 0).0, placed_cell(t, r, px, py, 0).1));
}

/// A piece placed not above the spawn row that fits lies inside the well.
proof fn lemma_fits_in_well(well: Seq<Seq<Option<Block>>>, t: Tetromino, r: Rotation, px: int, py: int)
    requires
        piece_fits(well, t, r, px, py),
        py <= 19,
    ensures
        piece_in_well(t, r, px, py),
{
    lemma_shape_bounds(t, r);
    assert forall|k: int| 0 <= k < 4 implies in_well(
        #[trigger] placed_cell(t, r, px, py, k).0,
        placed_cell(t, r, px, py, k).1,
    ) by {
        assert(cell_available(
            well,
            placed_cell(t, r, px, py, k).0,
            placed_cell(t, r, px, py, k).1,
        ));
    }
}

/// A piece whose origin is near the well has cells whose coordinates fit in an `i32`.
proof fn lemma_near_fits_i32(t: Tetromino, r: Rotation, px: int, py: int)
    requires
        -3 <= px <= 11,
        -1 <= py <= 19,
    ensures
        crate::game::tetromino::placement_fits_i32(t, r, px, py),
        forall|k: int| 0 <= k < 4 ==> #[trigger] placed_cell(t, r, px, py, k).1 <= py,
{
    lemma_shape_bounds(t, r);
}


/// Sets the square `(x, y)` of a well.
fn set_cell(well: &mut Vec<Vec<Option<Block>>>, x: usize, y: usize, v: Option<Block>)
    requires
        y < old(well)@.len(),
        x < old(well)@[y as int]@.len(),
    ensures
        rows_view(final(well)@) == rows_view(old(well)@).update(
            y as int,
            rows_view(old(well)@)[y as int].update(x as int, v),
        ),
{
    well[y][x] = v;
    proof {
        assert(rows_view(well@) =~= rows_view(old(well)@).update(
            y as int,
            rows_view(old(well)@)[y as int].update(x as int, v),
        ));
    }
}

/// Fills the four cells of the piece placed at `origin` with its colour.
fn fill_piece(well: &mut Vec<Vec<Option<Block>>>, t: Tetromino, r: Rotation, origin: (i32, i32))
    requires
        well_shaped(rows_view(old(well)@)),
        piece_in_well(t, r, origin.0 as int, origin.1 as int),
        origin.1 <= 19,
    ensures
        well_shaped(rows_view(final(well)@)),
        rows_view(final(well)@) == fill_cells(
            rows_view(old(well)@),
            t,
            r,
            origin.0 as int,
            origin.1 as int,
            4,
        ),
{
    let ghost w0 = rows_view(well@);
    let ghost px = origin.0 as int;
    let ghost py = origin.1 as int;
    proof {
        lemma_origin_bounds(t, r, px, py);
        lemma_near_fits_i32(t, r, px, py);
        assert(fill_cells(w0, t, r, px, py, 0) =~~= w0);
    }
    let cells = positions(&t, &r, &origin);
    let b = block(&t);
    for i in 0..4
        invariant
            px == origin.0 as int,
            py == origin.1 as int,
            well_shaped(w0),
            piece_in_well(t, r, px, py),
            b == block_of(t),
            forall|k: int|
                0 <= k < 4 ==> (cells[k].0 as int, cells[k].1 as int) == #[trigger] placed_cell(
                    t,
                    r,
                    px,
                    py,
                    k,
                ),
            rows_view(well@) == fill_cells(w0, t, r, px, py, i as int),
    {
        let (x, y) = cells[i];
        proof {
            assert(in_well(placed_cell(t, r, px, py, i as int).0, placed_cell(t, r, px, py, i as int).1));
        }
        proof {
            assert(rows_view(well@).len() == well@.len());
            assert(rows_view(well@)[y as int] == well@[y as int]@);
            assert(fill_cells(w0, t, r, px, py, i as int)[y as int].len() == w0[y as int].len());
        }
        set_cell(well, x as usize, y as usize, Some(b));
        proof {
            let after = fill_cells(w0, t, r, px, py, i + 1);
            assert forall|yy: int, xx: int|
                0 <= yy < WELL_HEIGHT && 0 <= xx < WELL_WIDTH implies #[trigger] rows_view(
                well@,
            )[yy][xx] == after[yy][xx] by {
                if placed_cell(t, r, px, py, i as int) == (xx, yy) {
                    assert(covers(t, r, px, py, i + 1, xx, yy));
                } else {
                    if covers(t, r, px, py, i + 1, xx, yy) {
                        let k = choose|k: int|
                            0 <= k < i + 1 && placed_cell(t, r, px, py, k) == (xx, yy);
                        assert(covers(t, r, px, py, i as int, xx, yy));
                    }
                    if covers(t, r, px, py, i as int, xx, yy) {
                        let k = choose|k: int|
                            0 <= k < i && placed_cell(t, r, px, py, k) == (xx, yy);
                        assert(covers(t, r, px, py, i + 1, xx, yy));
                    }
                }
            }
            assert(rows_view(well@) =~~= after);
        }
    }
}

impl GameScreen {
    /// The invariant of the key repeater that the screen holds.
    pub closed spec fn keys_wf(&self) -> bool {
        self.key_repeater.wf()
    }

    /// The screen's invariant.
    pub open spec fn wf(&self) -> bool {
        self@.wf() && self.keys_wf()
    }

    /// A new game whose falling piece is `first` and whose next piece is
    /// `second`: an empty well, the piece at the spawn point, no score.
    pub fn with_tetrominoes(first: Tetromino, second: Tetromino) -> (g: GameScreen)
        ensures
            g.wf(),
            g@.well == Seq::new(
                WELL_HEIGHT as nat,
                |y: int| Seq::new(WELL_WIDTH as nat, |x: int| None::<Block>),
            ),
            g@.tetromino == first,
            g@.next_tetromino == second,
            g@.held_tetromino is None,
            g@.lines_being_removed.len() == 0,
            !g@.game_over,
            g@.position == (4i32, 19i32),
            g@.rotation == Rotation::UP,
            g@.keys == repeater_map(
                seq![
                    KeyRepeater { key: Button::Left, initial_repeat_ms: 200, subsequent_repeat_ms: 60, repeating: false },
                    KeyRepeater { key: Button::Right, initial_repeat_ms: 200, subsequent_repeat_ms: 60, repeating: false },
                    KeyRepeater { key: Button::Down, initial_repeat_ms: 60, subsequent_repeat_ms: 60, repeating: false },
                ],
            ),
            g@.score == 0,
            g@.lines == 0,
            g@.level == 1,
    {
        let mut well: Vec<Vec<Option<Block>>> = Vec::new();
        for i in 0..WELL_HEIGHT
            invariant
                rows_view(well@) == Seq::new(
                    i as nat,
                    |y: int| Seq::new(WELL_WIDTH as nat, |x: int| None::<Block>),
                ),
        {
            let row = empty_row();
            proof {
                assert(rows_view(well@.push(row)) == rows_view(well@).push(row@));
            }
            well.push(row);
        }
        let mut repeaters: Vec<KeyRepeater> = Vec::new();
        repeaters.push(KeyRepeater::new(Button::Left, 200, 60));
        repeaters.push(KeyRepeater::new(Button::Right, 200, 60));
        repeaters.push(KeyRepeater::new(Button::Down, 60, 60));
        let key_repeater = KeysRepeater::new(repeaters);
        proof {
            lemma_shape_bounds(first, Rotation::UP);
            assert(repeaters@ == seq![
                KeyRepeater { key: Button::Left, initial_repeat_ms: 200, subsequent_repeat_ms: 60, repeating: false },
                KeyRepeater { key: Button::Right, initial_repeat_ms: 200, subsequent_repeat_ms: 60, repeating: false },
                KeyRepeater { key: Button::Down, initial_repeat_ms: 60, subsequent_repeat_ms: 60, repeating: false },
            ]);
        }
        GameScreen {
            well,
            tetromino: first,
            next_tetromino: second,
            held_tetromino: None,
            lines_being_removed: Vec::new(),
            game_over: false,
            position: (4, 19),
            rotation: Rotation::UP,
            key_repeater,
            score: 0,
            lines: 0,
            level: 1,
        }
    }

    /// A new game whose falling and next pieces are drawn at random.
    pub fn new() -> (g: GameScreen)
        ensures
            g.wf(),
            g@.well == Seq::new(
                WELL_HEIGHT as nat,
                |y: int| Seq::new(WELL_WIDTH as nat, |x: int| None::<Block>),
            ),
            g@.held_tetromino is None,
            g@.keys == repeater_map(
                seq![
                    KeyRepeater { key: Button::Left, initial_repeat_ms: 200, subsequent_repeat_ms: 60, repeating: false },
                    KeyRepeater { key: Button::Right, initial_repeat_ms: 200, subsequent_repeat_ms: 60, repeating: false },
                    KeyRepeater { key: Button::Down, initial_repeat_ms: 60, subsequent_repeat_ms: 60, repeating: false },
                ],
            ),
            g@.lines_being_removed.len() == 0,
            !g@.game_over,
            g@.position == (4i32, 19i32),
            g@.rotation == Rotation::UP,
            g@.score == 0,
            g@.lines == 0,
            g@.level == 1,
    {
        let first = next_tetromino();
        let second = next_tetromino();
        Self::with_tetrominoes(first, second)
    }
    /// Whether the falling piece may occupy the square `cell`.
    fn is_available(&self, cell: (i32, i32)) -> (b: bool)
        requires
            well_shaped(self@.well),
            cell.1 < WELL_HEIGHT,
        ensures
            b == cell_available(self@.well, cell.0 as int, cell.1 as int),
    {
        let (x, y) = cell;
        x >= 0 && x < 10 && y >= 0 && self.well[y as usize][x as usize].is_none()
    }

    /// Whether the piece `t` in orientation `r` fits with its origin at `(x, y)`.
    fn piece_available(&self, t: Tetromino, r: Rotation, x: i32, y: i32) -> (b: bool)
        requires
            well_shaped(self@.well),
            -3 <= x <= 11,
            -1 <= y <= 19,
        ensures
            b == piece_fits(self@.well, t, r, x as int, y as int),
    {
        proof {
            lemma_near_fits_i32(t, r, x as int, y as int);
        }
        let origin = (x, y);
        let cells = positions(&t, &r, &origin);
        assert(forall|k: int|
            0 <= k < 4 ==> (cells[k].0 as int, cells[k].1 as int) == #[trigger] placed_cell(
                t,
                r,
                x as int,
                y as int,
                k,
            ));
        for i in 0..4
            invariant
                well_shaped(self@.well),
                -1 <= y <= 19,
                forall|k: int|
                    0 <= k < 4 ==> (cells[k].0 as int, cells[k].1 as int) == #[trigger] placed_cell(
                        t,
                        r,
                        x as int,
                        y as int,
                        k,
                    ),
                forall|k: int| 0 <= k < 4 ==> #[trigger] placed_cell(t, r, x as int, y as int, k).1 <= y,
                forall|k: int|
                    0 <= k < i ==> cell_available(
                        self@.well,
                        #[trigger] placed_cell(t, r, x as int, y as int, k).0,
                        placed_cell(t, r, x as int, y as int, k).1,
                    ),
        {
            assert(placed_cell(t, r, x as int, y as int, i as int).1 <= y);
            if !self.is_available(cells[i]) {
                return false;
            }
        }
        true
    }

    /// Whether `action` puts the falling piece in the empty hold.
    fn needs_fresh_piece(&self, action: Action) -> (b: bool)
        requires
            self.wf(),
        ensures
            b == needs_fresh_piece(self@, action),
    {
        proof {
            lemma_origin_bounds(self.tetromino, self.rotation, self.position.0 as int, self.position.1 as int);
        }
        self.lines_being_removed.len() == 0 && action == Action::HoldTetromino
            && self.held_tetromino.is_none() && self.piece_available(
            self.next_tetromino,
            self.rotation,
            self.position.0,
            self.position.1,
        )
    }

    /// The falling piece lands: its cells take its colour in the well.
    fn set_tetromino(&mut self)
        requires
            old(self).wf(),
        ensures
            final(self).wf(),
            final(self)@ == (GameModel { well: locked_well(old(self)@), ..old(self)@ }),
    {
        fill_piece(&mut self.well, self.tetromino, self.rotation, self.position);
    }

    /// Carries out `action`; `fresh` becomes the next piece when the falling
    /// piece goes to an empty hold.
    pub fn attempt_move_with(&mut self, action: Action, fresh: Tetromino) -> (e: MoveEffect)
        requires
            old(self).wf(),
        ensures
            final(self).wf(),
            (final(self)@, e) == after_move(old(self)@, action, fresh),
    {
        if !self.lines_being_removed.is_empty() {
            return MoveEffect::Nothing;
        }
        proof {
            lemma_origin_bounds(self.tetromino, self.rotation, self.position.0 as int, self.position.1 as int);
        }
        let (mut x, mut y) = self.position;
        let mut rotation = self.rotation;
        let mut tetromino = self.tetromino;
        match action {
            Action::Left => x = x - 1,
            Action::Right => x = x + 1,
            Action::Down => y = y - 1,
            Action::RotateClockwise => rotation = clockwise(&rotation),
            Action::RotateAnticlockwise => rotation = anti_clockwise(&rotation),
            Action::HoldTetromino => {
                tetromino = match self.held_tetromino {
                    Some(h) => h,
                    None => self.next_tetromino,
                }
            },
        }
        assert(candidate(self@, action) == (tetromino, rotation, x as int, y as int));
        if self.piece_available(tetromino, rotation, x, y) {
            proof {
                lemma_fits_in_well(self@.well, tetromino, rotation, x as int, y as int);
            }
            if action == Action::HoldTetromino {
                let current = self.tetromino;
                match self.held_tetromino {
                    Some(held) => {
                        self.tetromino = held;
                        self.held_tetromino = Some(current);
                    },
                    None => {
                        self.tetromino = self.next_tetromino;
                        self.next_tetromino = fresh;
                        self.held_tetromino = Some(current);
                    },
                }
                MoveEffect::Nothing
            } else {
                self.position = (x, y);
                self.rotation = rotation;
                if action == Action::Down {
                    MoveEffect::RestartDropTimer { delay_ms: drop_time(self.level) }
                } else {
                    MoveEffect::Nothing
                }
            }
        } else if action == Action::Down {
            self.set_tetromino();
            MoveEffect::PieceLocked
        } else {
            MoveEffect::Nothing
        }
    }

    /// Carries out `action`. When the falling piece goes to an empty hold, the
    /// next piece takes its place and a new next piece is drawn at random.
    pub fn attempt_move(&mut self, action: Action) -> (e: MoveEffect)
        requires
            old(self).wf(),
        ensures
            final(self).wf(),
            exists|fresh: Tetromino| (final(self)@, e) == after_move(old(self)@, action, fresh),
            !needs_fresh_piece(old(self)@, action) ==> (final(self)@, e) == after_move(
                old(self)@,
                action,
                old(self)@.next_tetromino,
            ),
    {
        let fresh = if self.needs_fresh_piece(action) {
            next_tetromino()
        } else {
            self.next_tetromino
        };
        self.attempt_move_with(action, fresh)
    }
    /// The indices, in increasing order, of the full rows of the well.
    pub fn check_for_lines(&self) -> (lines: Vec<usize>)
        requires
            self.wf(),
        ensures
            lines@ == full_rows(self@.well, WELL_HEIGHT as int),
    {
        let mut lines_to_remove: Vec<usize> = Vec::new();
        let n = self.well.len();
        assert(n == WELL_HEIGHT);
        for index in 0..n
            invariant
                n == self.well@.len(),
                self@.well == rows_view(self.well@),
                lines_to_remove@ == full_rows(self@.well, index as int),
        {
            let row = &self.well[index];
            let mut full = true;
            for x in 0..row.len()
                invariant
                    full == (forall|j: int| 0 <= j < x ==> #[trigger] row@[j] is Some),
            {
                if row[x].is_none() {
                    full = false;
                }
            }
            assert(self@.well[index as int] == row@);
            if full {
                lines_to_remove.push(index);
            }
            assert(full_rows(self@.well, index + 1) == full_rows(self@.well, index as int) + if row_full(
                self@.well[index as int],
            ) {
                seq![index]
            } else {
                seq![]
            });
        }
        lines_to_remove
    }

    /// Marks the rows `lines` for removal; the result is how long they flash
    /// before the caller asks for them to be cleared.
    pub fn remove_lines(&mut self, lines: Vec<usize>) -> (delay_ms: u64)
        requires
            old(self).wf(),
            lines@.len() <= 4,
        ensures
            final(self).wf(),
            final(self)@ == (GameModel { lines_being_removed: lines@, ..old(self)@ }),
            delay_ms == removal_delay(lines@.len() as int),
    {
        self.lines_being_removed = lines;
        match self.lines_being_removed.len() {
            0 => 0,
            1 => 500,
            2 => 800,
            3 => 1000,
            _ => 1500,
        }
    }

    /// Whether the rows marked for removal can be removed in turn and
    /// clearing them keeps the lines count and the score within a `u32`.
    pub fn can_clear_lines(&self) -> (ok: bool)
        requires
            self.wf(),
        ensures
            ok == (can_clear(self@) && removable_in_turn(self@.lines_being_removed)),
    {
        let n = self.lines_being_removed.len();
        let mut in_turn = true;
        for k in 0..n
            invariant
                n == self.lines_being_removed@.len(),
                n <= 4,
                in_turn == forall|j: int|
                    0 <= j < k ==> #[trigger] self.lines_being_removed@[j] + (n - 1 - j)
                        < WELL_HEIGHT,
        {
            if self.lines_being_removed[k] >= WELL_HEIGHT - (n - 1 - k) {
                in_turn = false;
            }
        }
        in_turn && self.counters_fit()
    }

    fn counters_fit(&self) -> (ok: bool)
        requires
            self.wf(),
        ensures
            ok == can_clear(self@),
    {
        let n = self.lines_being_removed.len();
        let points: u64 = match n {
            0 => 0,
            1 => 40,
            2 => 100,
            3 => 300,
            _ => 1200,
        };
        let lines = self.lines as u64 + n as u64;
        let gained = points * (self.level as u64 + 1);
        let score = self.score as u64 + gained;
        lines <= u32::MAX as u64 && score <= u32::MAX as u64
    }

    /// Removes the rows marked for removal and counts them in the lines, the
    /// score and the level.
    pub fn clear_lines(&mut self)
        requires
            old(self).wf(),
            can_clear(old(self)@),
            removable_in_turn(old(self)@.lines_being_removed),
        ensures
            final(self).wf(),
            final(self)@ == after_clear(old(self)@),
    {
        let ghost m = self@;
        let n = self.lines_being_removed.len();
        self.lines = self.lines + n as u32;
        let points: u32 = match n {
            0 => 0,
            1 => 40,
            2 => 100,
            3 => 300,
            _ => 1200,
        };
        assert(points == line_points(n as int));
        self.score = self.score + points * (self.level + 1);
        self.level = self.lines / 10 + 1;
        let ghost m1 = self@;
        let ghost w0 = m.well;
        let ghost rows = m.lines_being_removed;
        let mut k = n;
        proof {
            assert(rows.subrange(n as int, n as int) =~= Seq::<usize>::empty());
        }
        while k > 0
            invariant
                k <= n,
                self@ == (GameModel { well: rows_view(self.well@), ..m1 }),
                self.keys_wf(),
                n == rows.len(),
                rows == self.lines_being_removed@,
                removable_in_turn(rows),
                well_shaped(w0),
                rows_view(self.well@) == removed_rows(w0, rows.subrange(k as int, n as int)),
            decreases k,
        {
            let ghost done = rows.subrange(k as int, n as int);
            k = k - 1;
            let index = self.lines_being_removed[k];
            let ghost before = self.well@;
            proof {
                assert forall|j: int| 0 <= j < done.len() implies #[trigger] done[j] + (done.len() - 1
                    - j) < WELL_HEIGHT by {
                    assert(done[j] == rows[k + 1 + j]);
                }
                lemma_removed_rows_shape(w0, done);
                assert(rows[k as int] + (n - 1 - k) < WELL_HEIGHT);
                assert(rows_view(before).len() == before.len());
                assert(rows.subrange(k as int, n as int).drop_first() =~= done);
            }
            self.well.remove(index);
            proof {
                assert(rows_view(self.well@) =~= rows_view(before).remove(index as int));
            }
        }
        proof {
            assert(rows.subrange(0, n as int) =~= rows);
            lemma_removed_rows_shape(w0, rows);
        }
        let ghost kept = removed_rows(w0, rows);
        while self.well.len() < WELL_HEIGHT
            invariant
                kept.len() <= WELL_HEIGHT,
                self@ == (GameModel { well: rows_view(self.well@), ..m1 }),
                self.keys_wf(),
                kept.len() <= self.well@.len() <= WELL_HEIGHT,
                rows_view(self.well@) == kept + Seq::new(
                    (self.well@.len() - kept.len()) as nat,
                    |i: int| empty_row_spec(),
                ),
            decreases WELL_HEIGHT - self.well@.len(),
        {
            let row = empty_row();
            let ghost before = self.well@;
            self.well.push(row);
            proof {
                assert(rows_view(self.well@) =~= rows_view(before).push(row@));
                assert(rows_view(self.well@) =~= kept + Seq::new(
                    (self.well@.len() - kept.len()) as nat,
                    |i: int| empty_row_spec(),
                ));
            }
        }
        self.lines_being_removed.clear();
        proof {
            assert(rows_view(self.well@) =~= cleared_well(w0, rows));
            let w = rows_view(self.well@);
            assert forall|y: int| 0 <= y < WELL_HEIGHT implies #[trigger] w[y].len() == WELL_WIDTH by {
                if y < kept.len() {
                    assert(w[y] == kept[y]);
                } else {
                    assert(w[y] == empty_row_spec());
                }
            }
            let a = after_clear(m);
            assert(self@.well =~= a.well);
            assert(self@.lines_being_removed =~= a.lines_being_removed);
            assert(self@.lines == a.lines);
            assert(self@.score == a.score);
            assert(self@.level == a.level);
            assert(self@ =~= after_clear(m));
        }
    }

    /// Brings in the next piece with `fresh` as the new next piece, or ends
    /// the game where the next piece does not fit at the spawn point.
    pub fn next_tetromino_please_with(&mut self, fresh: Tetromino) -> (e: SpawnEffect)
        requires
            old(self).wf(),
        ensures
            final(self).wf(),
            (final(self)@, e) == after_spawn(old(self)@, fresh),
    {
        let new_tetromino = self.next_tetromino;
        if self.piece_available(new_tetromino, Rotation::UP, 4, 19) {
            proof {
                lemma_fits_in_well(self@.well, new_tetromino, Rotation::UP, 4, 19);
            }
            self.position = (4, 19);
            self.rotation = Rotation::UP;
            self.tetromino = new_tetromino;
            self.next_tetromino = fresh;
            SpawnEffect::Spawned { drop_delay_ms: drop_time(self.level) }
        } else {
            self.game_over = true;
            SpawnEffect::GameOver { delay_ms: 2000 }
        }
    }

    /// Brings in the next piece and draws a new next piece at random, or
    /// ends the game where the next piece does not fit at the spawn point.
    pub fn next_tetromino_please(&mut self) -> (e: SpawnEffect)
        requires
            old(self).wf(),
        ensures
            final(self).wf(),
            exists|fresh: Tetromino| (final(self)@, e) == after_spawn(old(self)@, fresh),
            !spawn_fits(old(self)@) ==> (final(self)@, e) == after_spawn(
                old(self)@,
                old(self)@.next_tetromino,
            ),
    {
        let fresh = if self.piece_available(self.next_tetromino, Rotation::UP, 4, 19) {
            next_tetromino()
        } else {
            self.next_tetromino
        };
        self.next_tetromino_please_with(fresh)
    }
    /// A press of `button` for the held-key repeats; see `KeysRepeater::queue_repeat`.
    pub fn key_pressed(&mut self, button: Button) -> (delay_ms: Option<u64>)
        requires
            old(self).wf(),
        ensures
            final(self).wf(),
            final(self)@ == (GameModel { keys: final(self)@.keys, ..old(self)@ }),
            (final(self)@.keys, delay_ms) == after_key_press(old(self)@.keys, button),
    {
        self.key_repeater.queue_repeat(button)
    }

    /// A release of `button` for the held-key repeats; see `KeysRepeater::cancel_repeat`.
    pub fn key_released(&mut self, button: Button) -> (known: bool)
        requires
            old(self).wf(),
        ensures
            final(self).wf(),
            final(self)@ == (GameModel { keys: final(self)@.keys, ..old(self)@ }),
            (final(self)@.keys, known) == after_key_release(old(self)@.keys, button),
    {
        self.key_repeater.cancel_repeat(button)
    }

    /// The rows of the well, bottom first.
    pub fn well(&self) -> (rows: &Vec<Vec<Option<Block>>>)
        ensures
            rows_view(rows@) == self@.well,
    {
        &self.well
    }

    /// The falling piece's colour and cells, or `None` while rows are being
    /// removed (the piece is then not drawn).
    pub fn current_piece(&self) -> (piece: Option<(Block, [(i32, i32); 4])>)
        requires
            self.wf(),
        ensures
            self@.lines_being_removed.len() > 0 ==> piece is None,
            self@.lines_being_removed.len() == 0 ==> (piece matches Some((b, cells)) && b
                == block_of(self@.tetromino) && forall|k: int|
                0 <= k < 4 ==> (cells[k].0 as int, cells[k].1 as int) == #[trigger] placed_cell(
                    self@.tetromino,
                    self@.rotation,
                    self@.position.0 as int,
                    self@.position.1 as int,
                    k,
                )),
    {
        if !self.lines_being_removed.is_empty() {
            return None;
        }
        proof {
            lemma_origin_bounds(self.tetromino, self.rotation, self.position.0 as int, self.position.1 as int);
            lemma_near_fits_i32(self.tetromino, self.rotation, self.position.0 as int, self.position.1 as int);
        }
        let b = block(&self.tetromino);
        let cells = positions(&self.tetromino, &self.rotation, &self.position);
        Some((b, cells))
    }

    /// The next piece.
    pub fn next_piece(&self) -> (t: Tetromino)
        ensures
            t == self@.next_tetromino,
    {
        self.next_tetromino
    }

    /// The held piece, if any.
    pub fn held_piece(&self) -> (t: Option<Tetromino>)
        ensures
            t == self@.held_tetromino,
    {
        self.held_tetromino
    }

    /// The rows flashing before they are removed.
    pub fn lines_being_removed(&self) -> (rows: &Vec<usize>)
        ensures
            rows@ == self@.lines_being_removed,
    {
        &self.lines_being_removed
    }

    /// Whether the game is over.
    pub fn is_game_over(&self) -> (over: bool)
        ensures
            over == self@.game_over,
    {
        self.game_over
    }

    /// The score.
    pub fn score(&self) -> (score: u32)
        ensures
            score == self@.score,
    {
        self.score
    }

    /// The number of rows cleared.
    pub fn lines(&self) -> (lines: u32)
        ensures
            lines == self@.lines,
    {
        self.lines
    }

    /// The level.
    pub fn level(&self) -> (level: u32)
        ensures
            level == self@.level,
    {
        self.level
    }
}

} // verus!
