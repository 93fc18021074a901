//! The game aggregate and the operations a driver invokes on it.
use crate::block::{
    block_shape, gen_block_7, is_bag, is_catalog_shape, is_kind_bag, kind_shapes,
    lemma_kind_bag_shapes, lemma_ordered_kinds_bag, rotate_shape_left, rotate_shape_right,
    rotated_left, rotated_right, spec_block_shape, BlockShape, GHOST, NONE, WALL,
};
use crate::field::{
    collides, erase_line, full_rows, ghost_pos, is_collision, lemma_at_most_four_full, row_full,
    is_drop_target, rows_cleared, Field, Position, FIELD_HEIGHT, FIELD_WIDTH,
};
use std::collections::VecDeque;
use vstd::prelude::*;

verus! {

/// How many upcoming pieces the preview shows.
pub const NEXT_LENGTH: usize = 3;

/// Points for clearing `n` lines in one lock: 0, 1, 5, 25, 100 for 0 to 4 lines;
/// a single lock clears at most four, and anything beyond scores as four.
pub open spec fn line_score(n: int) -> int {
    if n <= 0 {
        0
    } else if n == 1 {
        1
    } else if n == 2 {
        5
    } else if n == 3 {
        25
    } else {
        100
    }
}

/// Points for clearing `lines` lines in one lock.
pub fn score_for_lines(lines: usize) -> (r: usize)
    ensures
        r == line_score(lines as int),
{
    if lines == 0 {
        0
    } else if lines == 1 {
        1
    } else if lines == 2 {
        5
    } else if lines == 3 {
        25
    } else {
        100
    }
}

/// The grid a session starts with: side walls in columns 1 and 13 down to the
/// floor, a floor in row 20 between them, everything else empty.
pub open spec fn start_cell(y: int, x: int) -> usize {
    if (y <= 20 && (x == 1 || x == 13)) || (y == 20 && 1 <= x <= 13) {
        WALL
    } else {
        NONE
    }
}

/// The grid a session starts with.
pub fn start_field() -> (f: Field)
    ensures
        forall|y: int, x: int| 0 <= y < 22 && 0 <= x < 15 ==> #[trigger] f[y][x] == start_cell(y, x),
{
    let mut f: Field = [[NONE, NONE, NONE, NONE, NONE, NONE, NONE, NONE, NONE, NONE, NONE, NONE, NONE, NONE, NONE]; 22];
    let mut y: usize = 0;
    while y < 22
        invariant
            0 <= y <= 22,
            forall|yy: int, x: int| 0 <= yy < y && 0 <= x < 15 ==> #[trigger] f[yy][x] == start_cell(yy, x),
        decreases 22 - y,
    {
        let mut x: usize = 0;
        while x < 15
            invariant
                0 <= y < 22,
                0 <= x <= 15,
                forall|yy: int, xx: int| 0 <= yy < y && 0 <= xx < 15 ==> #[trigger] f[yy][xx] == start_cell(yy, xx),
                forall|xx: int| 0 <= xx < x ==> #[trigger] f[y as int][xx] == start_cell(y as int, xx),
            decreases 15 - x,
        {
            f[y][x] = if (y <= 20 && (x == 1 || x == 13)) || (y == 20 && 1 <= x && x <= 13) {
                WALL
            } else {
                NONE
            };
            x += 1;
        }
        y += 1;
    }
    f
}

/// The whole state of one session.
pub struct Game {
    pub field: Field,
    pub pos: Position,
    pub block: BlockShape,
    pub hold: Option<BlockShape>,
    /// The hold slot has been used since the current piece spawned.
    pub holded: bool,
    /// The upcoming pieces, front first.
    pub next: VecDeque<BlockShape>,
    /// The rest of the bag that refills `next`.
    pub next_buf: VecDeque<BlockShape>,
    pub score: usize,
    pub line: usize,
}

/// The supply is made of whole bags: `next` is seven pieces; its first
/// `buf.len()` pieces end one bag and the rest of it, followed by `buf`, is the
/// next bag.
pub open spec fn supply_ok(next: Seq<BlockShape>, buf: Seq<BlockShape>) -> bool {
    &&& next.len() == 7
    &&& buf.len() <= 7
    &&& is_bag(next.subrange(buf.len() as int, 7) + buf)
    &&& exists|b: Seq<BlockShape>|
        is_bag(b) && next.subrange(0, buf.len() as int) == b.subrange(7 - buf.len(), 7)
}

impl Game {
    /// The supply is made of whole bags.
    pub open spec fn wf(&self) -> bool {
        supply_ok(self.next@, self.next_buf@)
    }
}

/// Where the supply refills from: the buffer, or `fresh` once the buffer is empty.
pub open spec fn refill_source(buf: Seq<BlockShape>, fresh: Seq<usize>) -> Seq<BlockShape> {
    if buf.len() == 0 {
        kind_shapes(fresh)
    } else {
        buf
    }
}

/// `new` is `old` after the front of the next queue became the current piece at
/// the spawn anchor and the queue was refilled (from `fresh` if the buffer was
/// empty); `r` reports a collision at the anchor.
pub open spec fn spawned(old: Game, new: Game, fresh: Seq<usize>, r: Result<(), ()>) -> bool {
    let src = refill_source(old.next_buf@, fresh);
    &&& new.pos == Position::spawn()
    &&& new.block == old.next@[0]
    &&& new.next@ == old.next@.drop_first().push(src[0])
    &&& new.next_buf@ == src.drop_first()
    &&& new.field == old.field
    &&& new.hold == old.hold
    &&& new.holded == old.holded
    &&& new.score == old.score
    &&& new.line == old.line
    &&& (r is Ok <==> !collides(new.field, new.pos, new.block))
}

/// Taking a piece from a well-formed supply keeps it well formed.
proof fn lemma_supply_step(next: Seq<BlockShape>, buf: Seq<BlockShape>, src: Seq<BlockShape>)
    requires
        supply_ok(next, buf),
        buf.len() > 0 ==> src == buf,
        buf.len() == 0 ==> is_bag(src),
    ensures
        supply_ok(next.drop_first().push(src[0]), src.drop_first()),
{
    let n2 = next.drop_first().push(src[0]);
    let b2 = src.drop_first();
    let j = buf.len() as int;
    if j > 0 {
        assert(n2.subrange(j - 1, 7) + b2 =~= next.subrange(j, 7) + buf);
        let b = choose|b: Seq<BlockShape>|
            is_bag(b) && next.subrange(0, j) == b.subrange(7 - j, 7);
        assert(n2.subrange(0, j - 1) =~= b.subrange(7 - (j - 1), 7)) by {
            assert forall|i: int| 0 <= i < j - 1 implies #[trigger] n2.subrange(0, j - 1)[i]
                == b.subrange(7 - (j - 1), 7)[i] by {
                assert(next.subrange(0, j)[i + 1] == b.subrange(7 - j, 7)[i + 1]);
            }
        }
    } else {
        assert(next.subrange(0, 7) + buf =~= next);
        assert(n2.subrange(6, 7) + b2 =~= src);
        assert(n2.subrange(0, 6) =~= next.subrange(7 - 6, 7));
    }
}

/// Makes the front of the next queue the current piece at the spawn anchor and
/// refills the queue from the buffer.
fn take_next(game: &mut Game) -> (r: Result<(), ()>)
    requires
        old(game).next@.len() > 0,
        old(game).next_buf@.len() > 0,
    ensures
        spawned(*old(game), *final(game), seq![], r),
{
    game.pos = Position::init();
    match game.next.pop_front() {
        Some(b) => {
            game.block = b;
        },
        None => {},
    }
    match game.next_buf.pop_front() {
        Some(b) => {
            game.next.push_back(b);
        },
        None => {},
    }
    if is_collision(&game.field, &game.pos, &game.block) {
        Err(())
    } else {
        Ok(())
    }
}

/// The shapes of a bag of kinds, as a queue.
fn bag_queue(bag: &[usize; 7]) -> (q: VecDeque<BlockShape>)
    requires
        is_kind_bag(bag@),
    ensures
        q@ == kind_shapes(bag@),
{
    let mut q: VecDeque<BlockShape> = VecDeque::new();
    let mut i: usize = 0;
    while i < 7
        invariant
            0 <= i <= 7,
            is_kind_bag(bag@),
            q@ == kind_shapes(bag@).subrange(0, i as int),
        decreases 7 - i,
    {
        q.push_back(block_shape(bag[i]));
        assert(q@ =~= kind_shapes(bag@).subrange(0, i + 1));
        i += 1;
    }
    assert(q@ =~= kind_shapes(bag@));
    q
}

/// Spawns the next piece, taking `fresh` as the new buffer if the buffer is
/// empty; fails when the new piece collides at the spawn anchor.
pub fn spawn_block_with(game: &mut Game, fresh: [usize; 7]) -> (r: Result<(), ()>)
    requires
        old(game).wf(),
        is_kind_bag(fresh@),
    ensures
        spawned(*old(game), *final(game), fresh@, r),
        final(game).wf(),
{
    let ghost g0 = *game;
    if game.next_buf.len() == 0 {
        game.next_buf = bag_queue(&fresh);
    }
    proof {
        lemma_kind_bag_shapes(fresh@);
        lemma_supply_step(g0.next@, g0.next_buf@, refill_source(g0.next_buf@, fresh@));
    }
    let r = take_next(game);
    r
}

/// Spawns the next piece, shuffling a new bag into the buffer if it is empty;
/// fails when the new piece collides at the spawn anchor.
pub fn spawn_block(game: &mut Game) -> (r: Result<(), ()>)
    requires
        old(game).wf(),
    ensures
        exists|fresh: Seq<usize>| is_kind_bag(fresh) && spawned(*old(game), *final(game), fresh, r),
        final(game).wf(),
{
    let fresh = if game.next_buf.len() == 0 {
        gen_block_7()
    } else {
        proof {
            lemma_ordered_kinds_bag();
        }
        [0, 1, 2, 3, 4, 5, 6]
    };
    proof {
        assert(fresh@ =~= seq![0usize, 1, 2, 3, 4, 5, 6] || is_kind_bag(fresh@));
    }
    spawn_block_with(game, fresh)
}

impl Game {
    /// A session whose supply starts with the bags `first` and `second`; the
    /// first piece of `first` is already drawn.
    pub fn from_bags(first: [usize; 7], second: [usize; 7]) -> (g: Game)
        requires
            is_kind_bag(first@),
            is_kind_bag(second@),
        ensures
            g.wf(),
            forall|y: int, x: int|
                0 <= y < 22 && 0 <= x < 15 ==> #[trigger] g.field[y][x] == start_cell(y, x),
            g.pos == Position::spawn(),
            g.block == spec_block_shape(first[0] as int),
            g.next@ == kind_shapes(first@).drop_first().push(spec_block_shape(second[0] as int)),
            g.next_buf@ == kind_shapes(second@).drop_first(),
            g.hold is None,
            !g.holded,
            g.score == 0,
            g.line == 0,
    {
        let mut game = Game {
            field: start_field(),
            pos: Position::init(),
            block: block_shape(first[0]),
            hold: None,
            holded: false,
            next: bag_queue(&first),
            next_buf: bag_queue(&second),
            score: 0,
            line: 0,
        };
        proof {
            lemma_kind_bag_shapes(first@);
            lemma_kind_bag_shapes(second@);
            assert(game.next@.subrange(7, 7) + game.next_buf@ =~= game.next_buf@);
            assert(game.next@.subrange(0, 7) =~= game.next@);
        }
        let _ = spawn_block_with(&mut game, second);
        game
    }

    /// A new session: a bordered empty grid, two freshly shuffled bags with the
    /// first piece drawn, an empty hold slot, and no score or lines.
    pub fn new() -> (g: Game)
        ensures
            g.wf(),
            forall|y: int, x: int|
                0 <= y < 22 && 0 <= x < 15 ==> #[trigger] g.field[y][x] == start_cell(y, x),
            g.pos == Position::spawn(),
            is_catalog_shape(g.block),
            exists|b1: Seq<usize>, b2: Seq<usize>|
                {
                    &&& is_kind_bag(b1)
                    &&& is_kind_bag(b2)
                    &&& g.block == spec_block_shape(b1[0] as int)
                    &&& g.next@ == kind_shapes(b1).drop_first().push(spec_block_shape(b2[0] as int))
                    &&& g.next_buf@ == kind_shapes(b2).drop_first()
                },
            g.hold is None,
            !g.holded,
            g.score == 0,
            g.line == 0,
    {
        let first = gen_block_7();
        let second = gen_block_7();
        let g = Game::from_bags(first, second);
        assert(is_kind_bag(first@) && is_kind_bag(second@));
        g
    }
}

/// The value of grid cell `(y, x)` after the shape at `pos` is written into `f`.
pub open spec fn lock_cell(f: Field, pos: Position, b: BlockShape, y: int, x: int) -> usize {
    let dy = y - pos.y;
    let dx = x - pos.x;
    if 0 <= dy < 4 && 0 <= dx < 4 && b[dy][dx] != NONE {
        b[dy][dx]
    } else {
        f[y][x]
    }
}

/// `after` is `before` with every filled cell of the shape at `pos` that lies
/// within the grid written in.
pub open spec fn locked_into(before: Field, pos: Position, b: BlockShape, after: Field) -> bool {
    forall|y: int, x: int|
        0 <= y < 22 && 0 <= x < 15 ==> #[trigger] after[y][x] == lock_cell(before, pos, b, y, x)
}

/// Cell `(r, c)` while the cells of the shape before `(y, x)` in row-major order
/// have been written in.
spec fn partly_locked(
    f: Field,
    pos: Position,
    b: BlockShape,
    y: int,
    x: int,
    r: int,
    c: int,
) -> usize {
    let dy = r - pos.y;
    let dx = c - pos.x;
    if 0 <= dy < 4 && 0 <= dx < 4 && b[dy][dx] != NONE && (dy < y || (dy == y && dx < x)) {
        b[dy][dx]
    } else {
        f[r][c]
    }
}

/// Writes the current piece into the grid; cells outside the grid are skipped.
pub fn fix_block(game: &mut Game)
    ensures
        locked_into(old(game).field, old(game).pos, old(game).block, final(game).field),
        *final(game) == (Game { field: final(game).field, ..*old(game) }),
{
    let ghost before = game.field;
    let pos = game.pos;
    let block = game.block;
    let mut y: usize = 0;
    while y < 4
        invariant
            0 <= y <= 4,
            pos == old(game).pos,
            block == old(game).block,
            before == old(game).field,
            *game == (Game { field: game.field, ..*old(game) }),
            forall|r: int, c: int|
                0 <= r < 22 && 0 <= c < 15 ==> #[trigger] game.field[r][c] == partly_locked(
                    before,
                    pos,
                    block,
                    y as int,
                    0,
                    r,
                    c,
                ),
        decreases 4 - y,
    {
        let mut x: usize = 0;
        while x < 4
            invariant
                0 <= y < 4,
                0 <= x <= 4,
                pos == old(game).pos,
                block == old(game).block,
                before == old(game).field,
                    *game == (Game { field: game.field, ..*old(game) }),
                forall|r: int, c: int|
                    0 <= r < 22 && 0 <= c < 15 ==> #[trigger] game.field[r][c] == partly_locked(
                        before,
                        pos,
                        block,
                        y as int,
                        x as int,
                        r,
                        c,
                    ),
            decreases 4 - x,
        {
            if block[y][x] != NONE && pos.y < FIELD_HEIGHT - y && pos.x < FIELD_WIDTH - x {
                game.field[y + pos.y][x + pos.x] = block[y][x];
            }
            x += 1;
        }
        y += 1;
    }
}

/// `new` is `old` after the current piece was locked into the grid, the full rows
/// were cleared and scored, and the next piece was spawned (from the buffer, or
/// from some fresh bag); on success the hold slot is usable again.
pub open spec fn landed(old: Game, new: Game, r: Result<(), ()>) -> bool {
    exists|locked: Field, fresh: Seq<usize>|
        {
            &&& locked_into(old.field, old.pos, old.block, locked)
            &&& rows_cleared(locked, new.field)
            &&& is_kind_bag(fresh)
            &&& new.score == old.score + line_score(full_rows(locked, 20))
            &&& new.line == old.line + full_rows(locked, 20)
            &&& spawned(
                (Game { field: new.field, score: new.score, line: new.line, ..old }),
                (Game { holded: old.holded, ..new }),
                fresh,
                r,
            )
            &&& new.holded == if r is Ok {
                false
            } else {
                old.holded
            }
        }
}

/// Locks the current piece, clears and scores full rows, and spawns the next
/// piece; fails when that piece collides at the spawn anchor.
pub fn landing(game: &mut Game) -> (r: Result<(), ()>)
    requires
        old(game).wf(),
        old(game).score <= usize::MAX - 100,
        old(game).line <= usize::MAX - 20,
    ensures
        landed(*old(game), *final(game), r),
        final(game).wf(),
{
    fix_block(game);
    let ghost locked = game.field;
    let line = erase_line(&mut game.field);
    proof {
        crate::field::lemma_kept_full_split(locked, 20);
    }
    game.score = game.score + score_for_lines(line);
    game.line = game.line + line;
    let ghost mid = *game;
    let r = spawn_block(game);
    let ghost fresh = choose|fresh: Seq<usize>| is_kind_bag(fresh) && spawned(mid, *game, fresh, r);
    match r {
        Ok(()) => {
            game.holded = false;
            assert(spawned(mid, (Game { holded: mid.holded, ..*game }), fresh, r));
            Ok(())
        },
        Err(()) => {
            assert(spawned(mid, (Game { holded: mid.holded, ..*game }), fresh, r));
            Err(())
        },
    }
}

/// What `hold` does: nothing once the slot was used for the current piece;
/// else the current piece goes to the slot, and the held piece comes back at
/// the spawn anchor, or, with an empty slot, the next piece spawns (whether that
/// spawn collides is not reported).
pub open spec fn hold_post(old: Game, new: Game) -> bool {
    if old.holded {
        new == old
    } else {
        &&& new.holded
        &&& new.hold == Some(old.block)
        &&& match old.hold {
            Some(h) => new == (Game {
                block: h,
                pos: Position::spawn(),
                hold: Some(old.block),
                holded: true,
                ..old
            }),
            None => exists|fresh: Seq<usize>, r: Result<(), ()>|
                is_kind_bag(fresh) && spawned(
                    (Game { hold: Some(old.block), ..old }),
                    (Game { holded: false, ..new }),
                    fresh,
                    r,
                ),
        }
    }
}

/// Puts the current piece in the hold slot, at most once per piece.
pub fn hold(game: &mut Game)
    requires
        old(game).wf(),
    ensures
        hold_post(*old(game), *final(game)),
        final(game).wf(),
{
    if game.holded {
        return ;
    }
    match game.hold {
        Some(h) => {
            game.hold = Some(game.block);
            game.block = h;
            game.pos = Position::init();
        },
        None => {
            game.hold = Some(game.block);
            let ghost mid = *game;
            let r = spawn_block(game);
            let ghost fresh = choose|fresh: Seq<usize>|
                is_kind_bag(fresh) && spawned(mid, *game, fresh, r);
            assert(spawned(mid, (Game { holded: false, ..*game }), fresh, r));
        },
    }
    game.holded = true;
}

/// Moves the current piece to `new_pos` if it collides with nothing there;
/// otherwise leaves the game as it is.
pub fn move_block(game: &mut Game, new_pos: Position)
    requires
        old(game).wf(),
    ensures
        *final(game) == if !collides(old(game).field, new_pos, old(game).block) {
            (Game { pos: new_pos, ..*old(game) })
        } else {
            *old(game)
        },
        final(game).wf(),
{
    if !is_collision(&game.field, &new_pos, &game.block) {
        game.pos = new_pos;
    }
}

/// Drops the current piece straight down as far as it goes.
pub fn hard_drop(game: &mut Game)
    requires
        old(game).wf(),
    ensures
        exists|t: Position|
            {
                &&& is_drop_target(old(game).field, old(game).pos, old(game).block, t)
                &&& *final(game) == if !collides(old(game).field, t, old(game).block) {
                    (Game { pos: t, ..*old(game) })
                } else {
                    *old(game)
                }
            },
        final(game).wf(),
{
    let target = ghost_pos(&game.field, &game.pos, &game.block);
    move_block(game, target);
}

/// The one-cell correction tried `i`-th after a rotation collides: up, right,
/// down, left; a coordinate already at 0 (or at its largest value) stays put.
pub open spec fn kick(pos: Position, i: int) -> Position {
    if i == 0 {
        Position { x: pos.x, y: if pos.y > 0 { (pos.y - 1) as usize } else { pos.y } }
    } else if i == 1 {
        Position { x: if pos.x < usize::MAX { (pos.x + 1) as usize } else { pos.x }, y: pos.y }
    } else if i == 2 {
        Position { x: pos.x, y: if pos.y < usize::MAX { (pos.y + 1) as usize } else { pos.y } }
    } else {
        Position { x: if pos.x > 0 { (pos.x - 1) as usize } else { pos.x }, y: pos.y }
    }
}

/// The first correction, in the order up, right, down, left, at which the shape
/// collides with nothing.
pub open spec fn first_kick(f: Field, pos: Position, b: BlockShape) -> Option<Position> {
    if !collides(f, kick(pos, 0), b) {
        Some(kick(pos, 0))
    } else if !collides(f, kick(pos, 1), b) {
        Some(kick(pos, 1))
    } else if !collides(f, kick(pos, 2), b) {
        Some(kick(pos, 2))
    } else if !collides(f, kick(pos, 3), b) {
        Some(kick(pos, 3))
    } else {
        None
    }
}

/// The position of the first one-cell correction at which the rotated shape
/// collides with nothing, or `Err` if there is none.
pub fn super_rotation(field: &Field, pos: &Position, block: &BlockShape) -> (r: Result<Position, ()>)
    ensures
        r == match first_kick(*field, *pos, *block) {
            Some(p) => Ok::<Position, ()>(p),
            None => Err(()),
        },
{
    let up = Position { x: pos.x, y: if pos.y > 0 { pos.y - 1 } else { pos.y } };
    let right = Position { x: if pos.x < usize::MAX { pos.x + 1 } else { pos.x }, y: pos.y };
    let down = Position { x: pos.x, y: if pos.y < usize::MAX { pos.y + 1 } else { pos.y } };
    let left = Position { x: if pos.x > 0 { pos.x - 1 } else { pos.x }, y: pos.y };
    if !is_collision(field, &up, block) {
        Ok(up)
    } else if !is_collision(field, &right, block) {
        Ok(right)
    } else if !is_collision(field, &down, block) {
        Ok(down)
    } else if !is_collision(field, &left, block) {
        Ok(left)
    } else {
        Err(())
    }
}

/// The game after trying to replace the current piece by `s`: in place if it
/// collides with nothing there, else at the first correction where it does not,
/// else unchanged.
pub open spec fn rotated_game(g: Game, s: BlockShape) -> Game {
    if !collides(g.field, g.pos, s) {
        Game { block: s, ..g }
    } else {
        match first_kick(g.field, g.pos, s) {
            Some(p) => Game { block: s, pos: p, ..g },
            None => g,
        }
    }
}

/// Turns the current piece a quarter clockwise, with one-cell corrections.
pub fn rotate_right(game: &mut Game)
    requires
        old(game).wf(),
    ensures
        *final(game) == rotated_game(*old(game), rotated_right(old(game).block)),
        final(game).wf(),
{
    let new_shape = rotate_shape_right(&game.block);
    if !is_collision(&game.field, &game.pos, &new_shape) {
        game.block = new_shape;
    } else {
        match super_rotation(&game.field, &game.pos, &new_shape) {
            Ok(new_pos) => {
                game.pos = new_pos;
                game.block = new_shape;
            },
            Err(()) => {},
        }
    }
}

/// Turns the current piece a quarter counter-clockwise, with one-cell corrections.
pub fn rotate_left(game: &mut Game)
    requires
        old(game).wf(),
    ensures
        *final(game) == rotated_game(*old(game), rotated_left(old(game).block)),
        final(game).wf(),
{
    let new_shape = rotate_shape_left(&game.block);
    if !is_collision(&game.field, &game.pos, &new_shape) {
        game.block = new_shape;
    } else {
        match super_rotation(&game.field, &game.pos, &new_shape) {
            Ok(new_pos) => {
                game.pos = new_pos;
                game.block = new_shape;
            },
            Err(()) => {},
        }
    }
}

/// One spawn, from the buffer or from some fresh bag.
pub open spec fn spawn_step(old: Game, new: Game) -> bool {
    exists|fresh: Seq<usize>, r: Result<(), ()>| is_kind_bag(fresh) && spawned(old, new, fresh, r)
}

/// At a bag boundary (the buffer empty, or still a whole bag) the next queue is
/// one whole bag.
pub proof fn lemma_aligned_next_is_bag(next: Seq<BlockShape>, buf: Seq<BlockShape>)
    requires
        supply_ok(next, buf),
        buf.len() == 0 || buf.len() == 7,
    ensures
        is_bag(next),
{
    if buf.len() == 0 {
        assert(next.subrange(0, 7) + buf =~= next);
    } else {
        let b = choose|b: Seq<BlockShape>| is_bag(b) && next.subrange(0, 7) == b.subrange(0, 7);
        assert(next =~= next.subrange(0, 7));
        assert(b =~= b.subrange(0, 7));
    }
}

/// After `k` spawns the first `7 - k` queued pieces are those that were queued
/// `k` places further back before them.
proof fn lemma_draw_prefix(gs: Seq<Game>, k: int)
    requires
        0 <= k < gs.len(),
        k <= 7,
        gs[0].next@.len() == 7,
        forall|i: int| 0 <= i < k ==> #[trigger] spawn_step(gs[i], gs[i + 1]),
    ensures
        gs[k].next@.len() == 7,
        gs[k].next@.subrange(0, 7 - k) =~= gs[0].next@.subrange(k, 7),
    decreases k,
{
    if k > 0 {
        lemma_draw_prefix(gs, k - 1);
        let j = k - 1;
        assert(spawn_step(gs[j], gs[j + 1]));
        assert(j + 1 == k);
        let (fresh, r) = choose|fresh: Seq<usize>, r: Result<(), ()>|
            is_kind_bag(fresh) && #[trigger] spawned(gs[k - 1], gs[k], fresh, r);
        assert forall|i: int| 0 <= i < 7 - k implies #[trigger] gs[k].next@[i] == gs[0].next@[k
            + i] by {
            assert(gs[k].next@[i] == gs[k - 1].next@[i + 1]);
            assert(gs[k - 1].next@.subrange(0, 7 - (k - 1))[i + 1] == gs[0].next@.subrange(
                k - 1,
                7,
            )[i + 1]);
        }
    }
}

/// Bag fairness: starting at a bag boundary, the next seven spawns draw each of
/// the seven pieces exactly once.
pub proof fn lemma_bag_fairness(gs: Seq<Game>)
    requires
        gs.len() == 8,
        supply_ok(gs[0].next@, gs[0].next_buf@),
        gs[0].next_buf@.len() == 0 || gs[0].next_buf@.len() == 7,
        forall|i: int| 0 <= i < 7 ==> #[trigger] spawn_step(gs[i], gs[i + 1]),
    ensures
        is_bag(Seq::new(7, |i: int| gs[i + 1].block)),
{
    lemma_aligned_next_is_bag(gs[0].next@, gs[0].next_buf@);
    assert forall|i: int| 0 <= i < 7 implies #[trigger] gs[i + 1].block == gs[0].next@[i] by {
        lemma_draw_prefix(gs, i);
        assert(spawn_step(gs[i], gs[i + 1]));
        assert(gs[i].next@.subrange(0, 7 - i)[0] == gs[0].next@.subrange(i, 7)[0]);
    }
    assert(Seq::new(7, |i: int| gs[i + 1].block) =~= gs[0].next@);
}

/// Scoring: a lock adds 0, 1, 5, 25 or 100 points for 0 to 4 cleared rows, and
/// adds the number of rows it cleared to the line count.
pub proof fn lemma_lock_scoring(old: Game, new: Game, r: Result<(), ()>)
    requires
        landed(old, new, r),
    ensures
        line_score(0) == 0,
        line_score(1) == 1,
        line_score(2) == 5,
        line_score(3) == 25,
        line_score(4) == 100,
        exists|locked: Field|
            {
                &&& locked_into(old.field, old.pos, old.block, locked)
                &&& rows_cleared(locked, new.field)
                &&& new.line - old.line == full_rows(locked, 20)
                &&& new.score - old.score == line_score(full_rows(locked, 20))
            },
{
}

/// A lock into a field without full playable rows leaves at most four, since a
/// piece spans four rows: one lock clears at most four lines.
pub proof fn lemma_lock_clears_at_most_four(f: Field, pos: Position, b: BlockShape, locked: Field)
    requires
        forall|y: int| 0 <= y < 20 ==> !#[trigger] row_full(f[y]),
        locked_into(f, pos, b, locked),
    ensures
        full_rows(locked, 20) <= 4,
{
    let a = pos.y as int;
    assert forall|y: int| 0 <= y < 20 && (y < a || y >= a + 4) implies !#[trigger] row_full(
        locked[y],
    ) by {
        assert(!row_full(f[y]));
        let x = choose|x: int| 2 <= x < 13 && !(#[trigger] f[y][x] != NONE);
        assert(locked[y][x] == lock_cell(f, pos, b, y, x));
    }
    lemma_at_most_four_full(locked, a);
}

/// Hold idempotence: a second `hold` before any lock changes nothing, while the
/// first one, when the slot was usable, does change the game.
pub proof fn lemma_hold_idempotent(g0: Game, g1: Game, g2: Game)
    requires
        hold_post(g0, g1),
        hold_post(g1, g2),
    ensures
        g2 == g1,
        !g0.holded ==> g1 != g0,
{
}

/// Rotation fallback order: when the rotated shape collides in place but not one
/// row up, the piece moves up, whatever the other corrections would allow.
pub proof fn lemma_rotation_prefers_up(g: Game, s: BlockShape)
    requires
        collides(g.field, g.pos, s),
        !collides(g.field, kick(g.pos, 0), s),
    ensures
        rotated_game(g, s) == (Game { block: s, pos: kick(g.pos, 0), ..g }),
{
}

/// Cell `(y, x)` lies under a filled cell of the shape at `pos`.
pub open spec fn covers(pos: Position, b: BlockShape, y: int, x: int) -> bool {
    let dy = y - pos.y;
    let dx = x - pos.x;
    0 <= dy < 4 && 0 <= dx < 4 && b[dy][dx] != NONE
}

/// Cell `(y, x)` after the shape at `pos` is painted over `f` within the grid,
/// in the shape's colours or, for a ghost, as `GHOST`.
pub open spec fn painted_cell(
    f: Field,
    pos: Position,
    b: BlockShape,
    ghost: bool,
    y: int,
    x: int,
) -> usize {
    if covers(pos, b, y, x) {
        if ghost {
            GHOST
        } else {
            b[y - pos.y][x - pos.x]
        }
    } else {
        f[y][x]
    }
}

/// Cell `(r, c)` while the cells of the shape before `(y, x)` in row-major order
/// have been painted.
spec fn partly_painted(
    f: Field,
    pos: Position,
    b: BlockShape,
    ghost: bool,
    y: int,
    x: int,
    r: int,
    c: int,
) -> usize {
    let dy = r - pos.y;
    let dx = c - pos.x;
    if covers(pos, b, r, c) && (dy < y || (dy == y && dx < x)) {
        painted_cell(f, pos, b, ghost, r, c)
    } else {
        f[r][c]
    }
}

/// Paints the filled cells of the shape at `pos` that lie within the grid.
fn paint(field: &mut Field, pos: &Position, block: &BlockShape, ghost: bool)
    ensures
        forall|y: int, x: int|
            0 <= y < 22 && 0 <= x < 15 ==> #[trigger] final(field)[y][x] == painted_cell(
                *old(field),
                *pos,
                *block,
                ghost,
                y,
                x,
            ),
{
    let ghost before = *field;
    let mut y: usize = 0;
    while y < 4
        invariant
            0 <= y <= 4,
            before == *old(field),
            forall|r: int, c: int|
                0 <= r < 22 && 0 <= c < 15 ==> #[trigger] field[r][c] == partly_painted(
                    before,
                    *pos,
                    *block,
                    ghost,
                    y as int,
                    0,
                    r,
                    c,
                ),
        decreases 4 - y,
    {
        let mut x: usize = 0;
        while x < 4
            invariant
                0 <= y < 4,
                0 <= x <= 4,
                before == *old(field),
                forall|r: int, c: int|
                    0 <= r < 22 && 0 <= c < 15 ==> #[trigger] field[r][c] == partly_painted(
                        before,
                        *pos,
                        *block,
                        ghost,
                        y as int,
                        x as int,
                        r,
                        c,
                    ),
            decreases 4 - x,
        {
            if block[y][x] != NONE && pos.y < FIELD_HEIGHT - y && pos.x < FIELD_WIDTH - x {
                field[y + pos.y][x + pos.x] = if ghost {
                    GHOST
                } else {
                    block[y][x]
                };
            }
            x += 1;
        }
        y += 1;
    }
}

impl Game {
    /// The grid as shown: the current piece over its ghost (where a hard drop
    /// would take it) over the locked cells.
    pub fn snapshot(&self) -> (r: Field)
        ensures
            exists|t: Position|
                {
                    &&& is_drop_target(self.field, self.pos, self.block, t)
                    &&& forall|y: int, x: int|
                        0 <= y < 22 && 0 <= x < 15 ==> #[trigger] r[y][x] == if covers(
                            self.pos,
                            self.block,
                            y,
                            x,
                        ) {
                            self.block[y - self.pos.y][x - self.pos.x]
                        } else {
                            painted_cell(self.field, t, self.block, true, y, x)
                        }
                },
    {
        let mut r = self.field;
        let target = ghost_pos(&self.field, &self.pos, &self.block);
        paint(&mut r, &target, &self.block, true);
        let ghost shown = r;
        paint(&mut r, &self.pos, &self.block, false);
        assert forall|y: int, x: int| 0 <= y < 22 && 0 <= x < 15 implies #[trigger] r[y][x]
            == if covers(self.pos, self.block, y, x) {
            self.block[y - self.pos.y][x - self.pos.x]
        } else {
            painted_cell(self.field, target, self.block, true, y, x)
        } by {
            assert(r[y][x] == painted_cell(shown, self.pos, self.block, false, y, x));
            assert(shown[y][x] == painted_cell(self.field, target, self.block, true, y, x));
        }
        r
    }

    /// The first `NEXT_LENGTH` pieces of the next queue, front first.
    pub fn preview(&self) -> (r: Vec<BlockShape>)
        ensures
            r@ == self.next@.subrange(
                0,
                if self.next@.len() < NEXT_LENGTH {
                    self.next@.len() as int
                } else {
                    NEXT_LENGTH as int
                },
            ),
    {
        let n = if self.next.len() < NEXT_LENGTH {
            self.next.len()
        } else {
            NEXT_LENGTH
        };
        let mut r: Vec<BlockShape> = Vec::new();
        let mut i: usize = 0;
        while i < n
            invariant
                0 <= i <= n,
                n <= self.next@.len(),
                r@ == self.next@.subrange(0, i as int),
            decreases n - i,
        {
            r.push(self.next[i]);
            assert(r@ =~= self.next@.subrange(0, i + 1));
            i += 1;
        }
        r
    }
}

} // verus!
