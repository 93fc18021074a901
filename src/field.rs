//! The walled playfield, piece positions, collision and line clearing.
use crate::block::{BlockColor, BlockShape, NONE, WALL};
use vstd::prelude::*;

verus! {

/// Columns: 11 playable, 2 side walls, 2 reserved.
pub const FIELD_WIDTH: usize = 15;

/// Rows: 20 playable, 1 floor, 1 reserved.
pub const FIELD_HEIGHT: usize = 22;

/// The grid, indexed `[row][column]`; row 0 is the top.
pub type Field = [[BlockColor; 15]; 22];

/// The top-left corner of a piece's 4x4 box, in grid coordinates.
#[derive(Clone, Copy, Debug, PartialEq, Eq, Structural)]
pub struct Position {
    pub x: usize,
    pub y: usize,
}

impl Position {
    /// The spawn anchor.
    pub open spec fn spawn() -> Position {
        Position { x: 5, y: 0 }
    }

    /// The spawn anchor, `(5, 0)`.
    pub fn init() -> (r: Position)
        ensures
            r == Position::spawn(),
    {
        Position { x: 5, y: 0 }
    }
}

/// Cell `(y, x)` of the shape is filled and lands on a non-empty grid cell that
/// lies within the grid's allocated bounds.
pub open spec fn cell_collides(f: Field, pos: Position, b: BlockShape, y: int, x: int) -> bool {
    &&& pos.y + y < FIELD_HEIGHT
    &&& pos.x + x < FIELD_WIDTH
    &&& b[y][x] != NONE
    &&& f[pos.y + y][pos.x + x] != NONE
}

/// Some filled cell of the shape overlaps a non-empty grid cell; cells outside
/// the grid's bounds are not looked at.
pub open spec fn collides(f: Field, pos: Position, b: BlockShape) -> bool {
    exists|y: int, x: int| 0 <= y < 4 && 0 <= x < 4 && #[trigger] cell_collides(f, pos, b, y, x)
}

/// Every filled cell of the shape lies within the grid's bounds.
pub open spec fn in_field(pos: Position, b: BlockShape) -> bool {
    forall|y: int, x: int|
        0 <= y < 4 && 0 <= x < 4 && #[trigger] b[y][x] != NONE ==> pos.y + y < FIELD_HEIGHT && pos.x
            + x < FIELD_WIDTH
}

/// Whether the shape at `pos` overlaps a non-empty cell of the grid.
pub fn is_collision(field: &Field, pos: &Position, block: &BlockShape) -> (r: bool)
    ensures
        r == collides(*field, *pos, *block),
{
    let mut y: usize = 0;
    while y < 4
        invariant
            0 <= y <= 4,
            forall|yy: int, xx: int|
                0 <= yy < y && 0 <= xx < 4 ==> !#[trigger] cell_collides(*field, *pos, *block, yy, xx),
        decreases 4 - y,
    {
        let mut x: usize = 0;
        while x < 4
            invariant
                0 <= y < 4,
                0 <= x <= 4,
                forall|yy: int, xx: int|
                    0 <= yy < y && 0 <= xx < 4 ==> !#[trigger] cell_collides(*field, *pos, *block, yy, xx),
                forall|xx: int| 0 <= xx < x ==> !#[trigger] cell_collides(*field, *pos, *block, y as int, xx),
            decreases 4 - x,
        {
            if pos.y < FIELD_HEIGHT - y && pos.x < FIELD_WIDTH - x {
                if block[y][x] != NONE && field[y + pos.y][x + pos.x] != NONE {
                    assert(cell_collides(*field, *pos, *block, y as int, x as int));
                    return true;
                }
            }
            x += 1;
        }
        y += 1;
    }
    false
}

/// Where the piece would come to rest: the lowest row below `pos.y` reached by
/// one-row steps that stay collision-free, probing no further than the grid's height.
pub open spec fn is_drop_target(f: Field, pos: Position, b: BlockShape, r: Position) -> bool {
    &&& r.x == pos.x
    &&& pos.y <= r.y
    &&& r.y <= if pos.y < FIELD_HEIGHT { FIELD_HEIGHT as int } else { pos.y as int }
    &&& forall|y: int|
        pos.y < y <= r.y ==> !#[trigger] collides(f, Position { x: pos.x, y: y as usize }, b)
    &&& r.y >= FIELD_HEIGHT || collides(f, Position { x: pos.x, y: (r.y + 1) as usize }, b)
}

/// Whether the piece can move one row down from `pos` without leaving the
/// grid's height or colliding.
fn can_step_down(field: &Field, pos: &Position, block: &BlockShape) -> (r: bool)
    ensures
        r == (pos.y < FIELD_HEIGHT && !collides(
            *field,
            Position { x: pos.x, y: (pos.y + 1) as usize },
            *block,
        )),
{
    pos.y < FIELD_HEIGHT && !is_collision(field, &Position { x: pos.x, y: pos.y + 1 }, block)
}

/// The position the piece would land at if dropped straight down.
pub fn ghost_pos(field: &Field, pos: &Position, block: &BlockShape) -> (r: Position)
    ensures
        is_drop_target(*field, *pos, *block, r),
{
    let mut g = *pos;
    while can_step_down(field, &g, block)
        invariant
            g.x == pos.x,
            pos.y <= g.y,
            g.y <= if pos.y < FIELD_HEIGHT { FIELD_HEIGHT as int } else { pos.y as int },
            forall|y: int|
                pos.y < y <= g.y ==> !#[trigger] collides(
                    *field,
                    Position { x: pos.x, y: y as usize },
                    *block,
                ),
        decreases FIELD_HEIGHT - g.y,
    {
        g.y = g.y + 1;
    }
    g
}

/// Every playable column of the row (2 to 12, between the side walls) is non-empty.
pub open spec fn row_full(row: [BlockColor; 15]) -> bool {
    forall|x: int| 2 <= x < 13 ==> #[trigger] row[x] != NONE
}

/// The rows among `0 .. n` that are not full, top to bottom.
pub open spec fn kept_rows(f: Field, n: int) -> Seq<[BlockColor; 15]>
    decreases n,
{
    if n <= 0 {
        seq![]
    } else if row_full(f[n - 1]) {
        kept_rows(f, n - 1)
    } else {
        kept_rows(f, n - 1).push(f[n - 1])
    }
}

/// The number of full rows among `0 .. n`.
pub open spec fn full_rows(f: Field, n: int) -> int
    decreases n,
{
    if n <= 0 {
        0
    } else if row_full(f[n - 1]) {
        full_rows(f, n - 1) + 1
    } else {
        full_rows(f, n - 1)
    }
}

/// An empty playable row: side walls in columns 1 and 13, nothing else.
pub open spec fn spec_empty_row() -> [BlockColor; 15] {
    [NONE, WALL, NONE, NONE, NONE, NONE, NONE, NONE, NONE, NONE, NONE, NONE, NONE, WALL, NONE]
}

/// An empty playable row: side walls in columns 1 and 13, nothing else.
pub fn empty_row() -> (r: [BlockColor; 15])
    ensures
        r == spec_empty_row(),
{
    [NONE, WALL, NONE, NONE, NONE, NONE, NONE, NONE, NONE, NONE, NONE, NONE, NONE, WALL, NONE]
}

/// Whether every playable column of the row is non-empty.
fn row_is_full(row: &[BlockColor; 15]) -> (r: bool)
    ensures
        r == row_full(*row),
{
    let mut x: usize = 2;
    while x < FIELD_WIDTH - 2
        invariant
            2 <= x <= 13,
            forall|xx: int| 2 <= xx < x ==> #[trigger] row[xx] != NONE,
        decreases 13 - x,
    {
        if row[x] == NONE {
            return false;
        }
        x += 1;
    }
    true
}

/// The playable rows are `0 ..= 19`: in `after` they are `before`'s rows that
/// are not full, in order and moved to the bottom, under as many empty rows as
/// were full; the floor row 20 and row 21 stay.
pub open spec fn rows_cleared(before: Field, after: Field) -> bool {
    let k = kept_rows(before, 20);
    let top = 20 - k.len();
    forall|y: int|
        0 <= y < 22 ==> #[trigger] after[y] == if y >= 20 {
            before[y]
        } else if y < top {
            spec_empty_row()
        } else {
            k[y - top]
        }
}

/// Each row of `0 .. n` is either kept or full.
pub proof fn lemma_kept_full_split(f: Field, n: int)
    requires
        0 <= n,
    ensures
        kept_rows(f, n).len() + full_rows(f, n) == n,
    decreases n,
{
    if n > 0 {
        lemma_kept_full_split(f, n - 1);
    }
}

/// Removes the full playable rows, moving the rows above each one down and
/// refilling the top with empty rows, and returns how many were removed.
pub fn erase_line(field: &mut Field) -> (count: usize)
    ensures
        rows_cleared(*old(field), *final(field)),
        count == full_rows(*old(field), 20),
{
    let ghost before = *field;
    let mut count: usize = 0;
    let mut y: usize = 0;
    while y < FIELD_HEIGHT - 2
        invariant
            0 <= y <= 20,
            count == full_rows(before, y as int),
            kept_rows(before, y as int).len() + count == y,
            forall|r: int|
                0 <= r < 22 ==> #[trigger] field[r] == if r >= y {
                    before[r]
                } else if r < y - kept_rows(before, y as int).len() {
                    spec_empty_row()
                } else {
                    kept_rows(before, y as int)[r - (y - kept_rows(before, y as int).len())]
                },
        decreases 20 - y,
    {
        let can_erase = row_is_full(&field[y]);
        assert(can_erase == row_full(before[y as int]));
        let ghost pre = *field;
        let ghost k = kept_rows(before, y as int);
        if can_erase {
            count = count + 1;
            let mut y2: usize = y;
            while y2 >= 1
                invariant
                    0 <= y2 <= y,
                    y < 20,
                    forall|r: int|
                        0 <= r < 22 ==> #[trigger] field[r] == if r <= y2 || r > y {
                            pre[r]
                        } else {
                            pre[r - 1]
                        },
                decreases y2,
            {
                field[y2] = field[y2 - 1];
                y2 = y2 - 1;
            }
            field[0] = empty_row();
            assert(kept_rows(before, y + 1) == k);
        } else {
            assert(kept_rows(before, y + 1) == k.push(before[y as int]));
        }
        y += 1;
    }
    count
}

/// Collision symmetry: for a shape whose filled cells all lie within the grid,
/// a collision is exactly a filled shape cell over a non-empty grid cell; an
/// empty shape never collides.
pub proof fn lemma_collision_symmetry(f: Field, pos: Position, b: BlockShape)
    ensures
        in_field(pos, b) ==> (collides(f, pos, b) <==> exists|y: int, x: int|
            0 <= y < 4 && 0 <= x < 4 && #[trigger] b[y][x] != NONE && f[pos.y + y][pos.x + x]
                != NONE),
        (forall|y: int, x: int| 0 <= y < 4 && 0 <= x < 4 ==> #[trigger] b[y][x] == NONE) ==> !collides(
            f,
            pos,
            b,
        ),
{
    if in_field(pos, b) {
        if exists|y: int, x: int|
            0 <= y < 4 && 0 <= x < 4 && #[trigger] b[y][x] != NONE && f[pos.y + y][pos.x + x]
                != NONE {
            let (y, x) = choose|y: int, x: int|
                0 <= y < 4 && 0 <= x < 4 && #[trigger] b[y][x] != NONE && f[pos.y + y][pos.x + x]
                    != NONE;
            assert(cell_collides(f, pos, b, y, x));
        }
    }
}

/// Without full rows before `r`, the kept rows below `n <= r` are rows `0 .. n`
/// themselves; past the only full row `r`, they are the rows around it.
proof fn lemma_kept_around_one_full(f: Field, r: int, n: int)
    requires
        0 <= r <= 19,
        0 <= n <= 20,
        row_full(f[r]),
        forall|y: int| 0 <= y < 20 && y != r ==> !#[trigger] row_full(f[y]),
    ensures
        n <= r ==> kept_rows(f, n) =~= f@.subrange(0, n),
        n <= r ==> full_rows(f, n) == 0,
        n > r ==> kept_rows(f, n) =~= f@.subrange(0, r) + f@.subrange(r + 1, n),
        n > r ==> full_rows(f, n) == 1,
    decreases n,
{
    if n > 0 {
        lemma_kept_around_one_full(f, r, n - 1);
    }
}

/// Line-clear correctness: when row `r` is the only full playable row, one row is
/// cleared, every row above `r` moves down by one (row 0 becomes an empty row),
/// and the rows below `r` are untouched.
pub proof fn lemma_single_row_clear(f: Field, g: Field, r: int)
    requires
        0 <= r <= 19,
        row_full(f[r]),
        forall|y: int| 0 <= y < 20 && y != r ==> !#[trigger] row_full(f[y]),
        rows_cleared(f, g),
    ensures
        full_rows(f, 20) == 1,
        g[0] == spec_empty_row(),
        forall|y: int| 1 <= y <= r ==> #[trigger] g[y] == f[y - 1],
        forall|y: int| r < y < 22 ==> #[trigger] g[y] == f[y],
{
    lemma_kept_around_one_full(f, r, 20);
    let k = kept_rows(f, 20);
    assert(k.len() == 19);
    assert(g[0] == spec_empty_row());
    assert forall|y: int| 1 <= y <= r implies #[trigger] g[y] == f[y - 1] by {
        assert(g[y] == k[y - 1]);
    }
    assert forall|y: int| r < y < 22 implies #[trigger] g[y] == f[y] by {
        if y < 20 {
            assert(g[y] == k[y - 1]);
        } else {
            assert(g[y] == f[y]);
        }
    }
}

/// Rows outside `a .. a + 4` that are not full leave at most four full rows.
proof fn lemma_full_rows_in_band(f: Field, n: int, a: int)
    requires
        0 <= n,
        forall|y: int| 0 <= y < n && (y < a || y >= a + 4) ==> !#[trigger] row_full(f[y]),
    ensures
        full_rows(f, n) <= if n <= a {
            0
        } else if n >= a + 4 {
            4
        } else {
            n - a
        },
    decreases n,
{
    if n > 0 {
        lemma_full_rows_in_band(f, n - 1, a);
    }
}

/// A field whose playable rows outside the four rows from `a` are not full has at
/// most four full playable rows.
pub proof fn lemma_at_most_four_full(f: Field, a: int)
    requires
        forall|y: int| 0 <= y < 20 && (y < a || y >= a + 4) ==> !#[trigger] row_full(f[y]),
    ensures
        full_rows(f, 20) <= 4,
{
    lemma_full_rows_in_band(f, 20, a);
}

} // verus!
