//! Piece catalog: cell colours, the seven shapes, rotation and shuffled bags.
use vstd::prelude::*;

verus! {

/// The tag stored in a grid or shape cell.
pub type BlockColor = usize;

pub const NONE: BlockColor = 0;

pub const I: BlockColor = 1;

pub const O: BlockColor = 2;

pub const S: BlockColor = 3;

pub const Z: BlockColor = 4;

pub const J: BlockColor = 5;

pub const L: BlockColor = 6;

pub const T: BlockColor = 7;

pub const WALL: BlockColor = 8;

pub const GHOST: BlockColor = 9;

/// Number of distinct piece kinds; a kind is an index below this.
pub const BLOCK_KINDS: usize = 7;

/// A piece as a 4x4 matrix of cells, indexed `[row][column]`.
pub type BlockShape = [[BlockColor; 4]; 4];

/// The canonical shape of piece kind `k` (I, O, S, Z, J, L, T in that order).
pub open spec fn spec_block_shape(k: int) -> BlockShape {
    if k == 0 {
        [[0, 0, 0, 0], [0, 0, 0, 0], [I, I, I, I], [0, 0, 0, 0]]
    } else if k == 1 {
        [[0, 0, 0, 0], [0, O, O, 0], [0, O, O, 0], [0, 0, 0, 0]]
    } else if k == 2 {
        [[0, 0, 0, 0], [0, S, S, 0], [S, S, 0, 0], [0, 0, 0, 0]]
    } else if k == 3 {
        [[0, 0, 0, 0], [Z, Z, 0, 0], [0, Z, Z, 0], [0, 0, 0, 0]]
    } else if k == 4 {
        [[0, 0, 0, 0], [J, 0, 0, 0], [J, J, J, 0], [0, 0, 0, 0]]
    } else if k == 5 {
        [[0, 0, 0, 0], [0, 0, L, 0], [L, L, L, 0], [0, 0, 0, 0]]
    } else {
        [[0, 0, 0, 0], [0, T, 0, 0], [T, T, T, 0], [0, 0, 0, 0]]
    }
}

/// The canonical shape of piece kind `kind`.
pub fn block_shape(kind: usize) -> (r: BlockShape)
    requires
        kind < BLOCK_KINDS,
    ensures
        r == spec_block_shape(kind as int),
{
    if kind == 0 {
        [[0, 0, 0, 0], [0, 0, 0, 0], [I, I, I, I], [0, 0, 0, 0]]
    } else if kind == 1 {
        [[0, 0, 0, 0], [0, O, O, 0], [0, O, O, 0], [0, 0, 0, 0]]
    } else if kind == 2 {
        [[0, 0, 0, 0], [0, S, S, 0], [S, S, 0, 0], [0, 0, 0, 0]]
    } else if kind == 3 {
        [[0, 0, 0, 0], [Z, Z, 0, 0], [0, Z, Z, 0], [0, 0, 0, 0]]
    } else if kind == 4 {
        [[0, 0, 0, 0], [J, 0, 0, 0], [J, J, J, 0], [0, 0, 0, 0]]
    } else if kind == 5 {
        [[0, 0, 0, 0], [0, 0, L, 0], [L, L, L, 0], [0, 0, 0, 0]]
    } else {
        [[0, 0, 0, 0], [0, T, 0, 0], [T, T, T, 0], [0, 0, 0, 0]]
    }
}

/// Every canonical shape carries its own colour, `kind + 1`, in cell `[2][1]`,
/// so different kinds have different shapes.
pub proof fn lemma_block_shapes_distinct(a: int, b: int)
    requires
        0 <= a < 7,
        0 <= b < 7,
        a != b,
    ensures
        spec_block_shape(a) != spec_block_shape(b),
{
    assert(spec_block_shape(a)[2][1] == a + 1);
    assert(spec_block_shape(b)[2][1] == b + 1);
}

/// `s` turned a quarter clockwise: cell `[y][x]` comes from `s[3 - x][y]`.
pub open spec fn rotated_right(s: BlockShape) -> BlockShape {
    [
        [s[3][0], s[2][0], s[1][0], s[0][0]],
        [s[3][1], s[2][1], s[1][1], s[0][1]],
        [s[3][2], s[2][2], s[1][2], s[0][2]],
        [s[3][3], s[2][3], s[1][3], s[0][3]],
    ]
}

/// `s` turned a quarter counter-clockwise: cell `[3 - x][y]` comes from `s[y][x]`.
pub open spec fn rotated_left(s: BlockShape) -> BlockShape {
    [
        [s[0][3], s[1][3], s[2][3], s[3][3]],
        [s[0][2], s[1][2], s[2][2], s[3][2]],
        [s[0][1], s[1][1], s[2][1], s[3][1]],
        [s[0][0], s[1][0], s[2][0], s[3][0]],
    ]
}

/// The shape turned a quarter clockwise.
pub fn rotate_shape_right(s: &BlockShape) -> (r: BlockShape)
    ensures
        r == rotated_right(*s),
        forall|y: int, x: int| 0 <= y < 4 && 0 <= x < 4 ==> r[y][x] == s[3 - x][y],
{
    [
        [s[3][0], s[2][0], s[1][0], s[0][0]],
        [s[3][1], s[2][1], s[1][1], s[0][1]],
        [s[3][2], s[2][2], s[1][2], s[0][2]],
        [s[3][3], s[2][3], s[1][3], s[0][3]],
    ]
}

/// The shape turned a quarter counter-clockwise.
pub fn rotate_shape_left(s: &BlockShape) -> (r: BlockShape)
    ensures
        r == rotated_left(*s),
        forall|y: int, x: int| 0 <= y < 4 && 0 <= x < 4 ==> r[3 - x][y] == s[y][x],
{
    [
        [s[0][3], s[1][3], s[2][3], s[3][3]],
        [s[0][2], s[1][2], s[2][2], s[3][2]],
        [s[0][1], s[1][1], s[2][1], s[3][1]],
        [s[0][0], s[1][0], s[2][0], s[3][0]],
    ]
}

/// `p` maps the indices below `n` one to one onto themselves.
pub open spec fn is_index_bijection(p: Seq<int>, n: int) -> bool {
    &&& p.len() == n
    &&& forall|i: int| 0 <= i < n ==> 0 <= #[trigger] p[i] < n
    &&& forall|i: int, j: int| 0 <= i < j < n ==> p[i] != p[j]
    &&& forall|k: int| 0 <= k < n ==> #[trigger] p.contains(k)
}

/// `r` holds the items of `s`, each exactly once, in some order: item `i` of `r`
/// is item `p[i]` of `s` for a bijection `p` of the indices.
pub open spec fn is_reordering(r: Seq<usize>, s: Seq<usize>) -> bool {
    &&& r.len() == s.len()
    &&& exists|p: Seq<int>|
        is_index_bijection(p, s.len() as int) && forall|i: int|
            0 <= i < s.len() ==> #[trigger] r[i] == s[p[i]]
}

/// Relies on rand's `SliceRandom::shuffle`, driven by `rand::thread_rng`: it only
/// swaps items of the slice, so the result is a reordering of `kinds`.
#[verifier::external_body]
fn shuffle_kinds(kinds: [usize; 7]) -> (r: [usize; 7])
    ensures
        is_reordering(r@, kinds@),
{
    let mut r = kinds;
    rand::seq::SliceRandom::shuffle(&mut r[..], &mut rand::thread_rng());
    r
}

/// A bag of kinds: each of the seven kinds exactly once, in some order.
pub open spec fn is_kind_bag(b: Seq<usize>) -> bool {
    &&& b.len() == 7
    &&& forall|i: int| 0 <= i < 7 ==> #[trigger] b[i] < 7
    &&& forall|i: int, j: int| 0 <= i < j < 7 ==> b[i] != b[j]
    &&& forall|k: usize| k < 7 ==> #[trigger] b.contains(k)
}

/// A bag of shapes: each of the seven canonical shapes exactly once, in some order.
pub open spec fn is_bag(s: Seq<BlockShape>) -> bool {
    &&& s.len() == 7
    &&& forall|i: int| 0 <= i < 7 ==> is_catalog_shape(#[trigger] s[i])
    &&& forall|i: int, j: int| 0 <= i < j < 7 ==> s[i] != s[j]
    &&& forall|k: int| 0 <= k < 7 ==> #[trigger] s.contains(spec_block_shape(k))
}

/// One of the seven canonical shapes.
pub open spec fn is_catalog_shape(s: BlockShape) -> bool {
    exists|k: int| 0 <= k < 7 && s == spec_block_shape(k)
}

/// The shapes of the kinds in `b`, in the same order.
pub open spec fn kind_shapes(b: Seq<usize>) -> Seq<BlockShape> {
    b.map_values(|k: usize| spec_block_shape(k as int))
}

/// The kinds in order, as a bag.
pub proof fn lemma_ordered_kinds_bag()
    ensures
        is_kind_bag(seq![0usize, 1, 2, 3, 4, 5, 6]),
{
    let b = seq![0usize, 1, 2, 3, 4, 5, 6];
    assert forall|k: usize| k < 7 implies #[trigger] b.contains(k) by {
        assert(b[k as int] == k);
    }
}

/// The shapes of a bag of kinds form a bag of shapes.
pub proof fn lemma_kind_bag_shapes(b: Seq<usize>)
    requires
        is_kind_bag(b),
    ensures
        is_bag(kind_shapes(b)),
{
    let s = kind_shapes(b);
    assert forall|i: int| 0 <= i < 7 implies is_catalog_shape(#[trigger] s[i]) by {
        assert(b[i] < 7);
    }
    assert forall|i: int, j: int| 0 <= i < j < 7 implies s[i] != s[j] by {
        assert(b[i] < 7 && b[j] < 7);
        lemma_block_shapes_distinct(b[i] as int, b[j] as int);
    }
    assert forall|k: int| 0 <= k < 7 implies #[trigger] s.contains(spec_block_shape(k)) by {
        assert(b.contains(k as usize));
        let i = choose|i: int| 0 <= i < b.len() && b[i] == k as usize;
        assert(s[i] == spec_block_shape(k));
    }
}

/// A freshly shuffled bag of the seven kinds.
pub fn gen_block_7() -> (r: [usize; 7])
    ensures
        is_kind_bag(r@),
{
    let ordered: [usize; 7] = [0, 1, 2, 3, 4, 5, 6];
    let r = shuffle_kinds(ordered);
    proof {
        let p = choose|p: Seq<int>|
            is_index_bijection(p, 7) && forall|i: int| 0 <= i < 7 ==> #[trigger] r@[i] == ordered@[p[i]];
        assert forall|i: int| 0 <= i < 7 implies r@[i] == p[i] by {
            assert(0 <= p[i] < 7);
            assert(ordered@[p[i]] == p[i]);
        }
        assert forall|k: usize| k < 7 implies #[trigger] r@.contains(k) by {
            assert(p.contains(k as int));
            let i = choose|i: int| 0 <= i < p.len() && p[i] == k as int;
            assert(r@[i] == ordered@[p[i]]);
        }
    }
    r
}

} // verus!
