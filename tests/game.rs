use tetris::block::{
    block_shape, gen_block_7, rotate_shape_left, rotate_shape_right, BlockShape, I, NONE, T, WALL,
};
use tetris::field::{empty_row, erase_line, ghost_pos, is_collision, Field, Position, FIELD_HEIGHT};
use tetris::game::{
    fix_block, hard_drop, hold, landing, move_block, rotate_left, rotate_right, score_for_lines,
    spawn_block, spawn_block_with, start_field, super_rotation, Game,
};

const ORDERED: [usize; 7] = [0, 1, 2, 3, 4, 5, 6];

fn ordered_game() -> Game {
    Game::from_bags(ORDERED, [6, 5, 4, 3, 2, 1, 0])
}

fn vertical_i() -> BlockShape {
    rotate_shape_right(&block_shape(0))
}

/// Fills the playable columns of `row` except `gap`.
fn fill_row_except(field: &mut Field, row: usize, gap: usize) {
    for x in 2..13 {
        if x != gap {
            field[row][x] = T;
        }
    }
}

#[test]
fn start_field_has_walls_and_floor() {
    let f = start_field();
    for y in 0..=20 {
        assert_eq!(f[y][1], WALL);
        assert_eq!(f[y][13], WALL);
        assert_eq!(f[y][0], NONE);
        assert_eq!(f[y][14], NONE);
    }
    for x in 1..=13 {
        assert_eq!(f[20][x], WALL);
    }
    for y in 0..20 {
        for x in 2..13 {
            assert_eq!(f[y][x], NONE);
        }
    }
    assert!(f[21].iter().all(|&c| c == NONE));
}

#[test]
fn spawn_i_piece_on_empty_grid() {
    let f = start_field();
    assert!(!is_collision(&f, &Position::init(), &block_shape(0)));
    let g = ordered_game();
    assert_eq!(g.pos, Position { x: 5, y: 0 });
    assert_eq!(g.block, block_shape(0));
    assert!(!g.holded);
    assert_eq!(g.hold, None);
    assert_eq!(g.score, 0);
    assert_eq!(g.line, 0);
}

#[test]
fn from_bags_draws_first_piece() {
    let g = ordered_game();
    let next: Vec<BlockShape> = g.next.iter().copied().collect();
    let expected: Vec<BlockShape> = vec![1, 2, 3, 4, 5, 6, 6].into_iter().map(block_shape).collect();
    assert_eq!(next, expected);
    let buf: Vec<BlockShape> = g.next_buf.iter().copied().collect();
    let expected_buf: Vec<BlockShape> = vec![5, 4, 3, 2, 1, 0].into_iter().map(block_shape).collect();
    assert_eq!(buf, expected_buf);
}

#[test]
fn new_game_is_fresh() {
    let g = Game::new();
    assert_eq!(g.next.len(), 7);
    assert_eq!(g.next_buf.len(), 6);
    assert_eq!(g.pos, Position::init());
    assert_eq!(g.score, 0);
    assert_eq!(g.line, 0);
    assert!(g.hold.is_none());
    assert_eq!(g.field, start_field());
}

#[test]
fn bag_fairness_over_seven_spawns() {
    let mut g = Game::from_bags([3, 1, 4, 0, 5, 2, 6], [2, 0, 1, 6, 5, 4, 3]);
    // Run through the first bag so the next seven draws start on a boundary.
    for _ in 0..6 {
        assert!(spawn_block_with(&mut g, ORDERED).is_ok());
    }
    assert_eq!(g.next_buf.len(), 0);
    let mut drawn = Vec::new();
    for _ in 0..7 {
        assert!(spawn_block_with(&mut g, [6, 4, 2, 0, 1, 3, 5]).is_ok());
        drawn.push(g.block);
    }
    let expected: Vec<BlockShape> = vec![2, 0, 1, 6, 5, 4, 3].into_iter().map(block_shape).collect();
    assert_eq!(drawn, expected);
    for k in 0..7 {
        assert_eq!(drawn.iter().filter(|&&s| s == block_shape(k)).count(), 1);
    }
    assert_eq!(g.next_buf.len(), 0);
}

#[test]
fn spawn_block_keeps_seven_queued() {
    let mut g = Game::new();
    for _ in 0..20 {
        assert!(spawn_block(&mut g).is_ok());
        assert_eq!(g.next.len(), 7);
        assert!(g.next_buf.len() < 7);
    }
}

#[test]
fn shuffled_bags_are_permutations_and_vary() {
    let mut saw_other_order = false;
    for _ in 0..50 {
        let bag = gen_block_7();
        let mut sorted = bag;
        sorted.sort();
        assert_eq!(sorted, ORDERED);
        if bag != ORDERED {
            saw_other_order = true;
        }
    }
    assert!(saw_other_order);
}

#[test]
fn spawn_fails_when_anchor_is_blocked() {
    let mut g = ordered_game();
    g.field[2][6] = T;
    assert_eq!(spawn_block_with(&mut g, ORDERED), Err(()));
    assert_eq!(g.block, block_shape(1));
    assert_eq!(g.pos, Position::init());
}

#[test]
fn collision_only_on_filled_overlap() {
    let mut f = start_field();
    let pos = Position { x: 5, y: 5 };
    let i = block_shape(0);
    assert!(!is_collision(&f, &pos, &i));
    f[6][6] = T;
    assert!(!is_collision(&f, &pos, &i));
    f[7][6] = T;
    assert!(is_collision(&f, &pos, &i));
    let empty: BlockShape = [[NONE; 4]; 4];
    f[5][5] = T;
    assert!(!is_collision(&f, &pos, &empty));
    assert!(is_collision(&f, &Position { x: 0, y: 0 }, &i));
    assert!(is_collision(&f, &Position { x: 0, y: 18 }, &i));
}

#[test]
fn collision_ignores_cells_beyond_grid() {
    let f = start_field();
    assert!(!is_collision(&f, &Position { x: 13, y: 21 }, &block_shape(0)));
}

#[test]
fn ghost_lands_on_floor() {
    let f = start_field();
    let g = ghost_pos(&f, &Position::init(), &block_shape(0));
    assert_eq!(g, Position { x: 5, y: 17 });
}

#[test]
fn ghost_stops_above_stack() {
    let mut f = start_field();
    f[12][7] = T;
    let g = ghost_pos(&f, &Position::init(), &block_shape(0));
    assert_eq!(g, Position { x: 5, y: 9 });
}

#[test]
fn ghost_without_floor_stops_at_grid_height() {
    let f: Field = [[NONE; 15]; 22];
    let g = ghost_pos(&f, &Position::init(), &block_shape(0));
    assert_eq!(g, Position { x: 5, y: FIELD_HEIGHT });
}

#[test]
fn hard_drop_moves_to_ghost() {
    let mut g = ordered_game();
    hard_drop(&mut g);
    assert_eq!(g.pos, Position { x: 5, y: 17 });
}

#[test]
fn move_into_wall_is_rejected() {
    let mut g = ordered_game();
    move_block(&mut g, Position { x: 4, y: 0 });
    assert_eq!(g.pos, Position { x: 4, y: 0 });
    move_block(&mut g, Position { x: 3, y: 0 });
    assert_eq!(g.pos, Position { x: 3, y: 0 });
    move_block(&mut g, Position { x: 2, y: 0 });
    assert_eq!(g.pos, Position { x: 2, y: 0 });
    move_block(&mut g, Position { x: 1, y: 0 });
    assert_eq!(g.pos, Position { x: 2, y: 0 });
    move_block(&mut g, Position { x: 2, y: 1 });
    assert_eq!(g.pos, Position { x: 2, y: 1 });
}

#[test]
fn collision_free_move_beyond_grid_is_accepted() {
    let mut g = ordered_game();
    move_block(&mut g, Position { x: 40, y: 0 });
    assert_eq!(g.pos, Position { x: 40, y: 0 });
}

#[test]
fn fix_block_skips_cells_beyond_grid() {
    let mut g = ordered_game();
    g.pos = Position { x: 13, y: 5 };
    fix_block(&mut g);
    assert_eq!(g.field[7][13], I);
    assert_eq!(g.field[7][14], I);
    assert_eq!(g.field[7][12], NONE);
}

#[test]
fn fix_block_writes_filled_cells_only() {
    let mut g = ordered_game();
    g.field[1][5] = T;
    fix_block(&mut g);
    for x in 5..9 {
        assert_eq!(g.field[2][x], I);
    }
    assert_eq!(g.field[1][5], T);
    assert_eq!(g.field[3][5], NONE);
}

#[test]
fn erase_single_full_row_shifts_rows_above() {
    let mut f = start_field();
    fill_row_except(&mut f, 19, 100);
    f[18][4] = T;
    f[17][6] = T;
    f[5][9] = T;
    let before = f;
    assert_eq!(erase_line(&mut f), 1);
    assert_eq!(f[19], before[18]);
    for y in 1..=19 {
        assert_eq!(f[y], before[y - 1]);
    }
    assert_eq!(f[0], empty_row());
    assert_eq!(f[20], before[20]);
    assert_eq!(f[21], before[21]);
}

#[test]
fn erase_middle_row_leaves_rows_below() {
    let mut f = start_field();
    fill_row_except(&mut f, 10, 100);
    f[15][3] = T;
    f[9][3] = T;
    let before = f;
    assert_eq!(erase_line(&mut f), 1);
    assert_eq!(f[10], before[9]);
    for y in 11..22 {
        assert_eq!(f[y], before[y]);
    }
}

#[test]
fn erase_nothing_when_no_row_full() {
    let mut f = start_field();
    fill_row_except(&mut f, 19, 7);
    let before = f;
    assert_eq!(erase_line(&mut f), 0);
    assert_eq!(f, before);
}

#[test]
fn erase_two_separate_rows() {
    let mut f = start_field();
    fill_row_except(&mut f, 19, 100);
    fill_row_except(&mut f, 17, 100);
    f[18][2] = T;
    f[16][12] = T;
    let before = f;
    assert_eq!(erase_line(&mut f), 2);
    assert_eq!(f[19], before[18]);
    assert_eq!(f[18], before[16]);
    assert_eq!(f[17], before[15]);
}

#[test]
fn score_table_values() {
    assert_eq!(score_for_lines(0), 0);
    assert_eq!(score_for_lines(1), 1);
    assert_eq!(score_for_lines(2), 5);
    assert_eq!(score_for_lines(3), 25);
    assert_eq!(score_for_lines(4), 100);
}

#[test]
fn lock_completing_one_row() {
    let mut g = ordered_game();
    fill_row_except(&mut g.field, 19, 7);
    g.block = vertical_i();
    g.pos = Position { x: 6, y: 16 };
    let mut probe = g.field;
    for y in 16..20 {
        probe[y][7] = I;
    }
    assert_eq!(erase_line(&mut probe), 1);
    assert_eq!(landing(&mut g), Ok(()));
    assert_eq!(g.score, 1);
    assert_eq!(g.line, 1);
    assert_eq!(g.field[19][7], I);
    assert_eq!(g.field[19][2], NONE);
    assert_eq!(g.block, block_shape(1));
}

#[test]
fn lock_completing_four_rows() {
    let mut g = ordered_game();
    for y in 16..20 {
        fill_row_except(&mut g.field, y, 12);
    }
    g.score = 7;
    g.line = 3;
    g.block = vertical_i();
    g.pos = Position { x: 11, y: 16 };
    assert_eq!(landing(&mut g), Ok(()));
    assert_eq!(g.score, 107);
    assert_eq!(g.line, 7);
    assert_eq!(g.field, start_field());
}

#[test]
fn lock_without_clear_scores_nothing() {
    let mut g = ordered_game();
    hard_drop(&mut g);
    assert_eq!(landing(&mut g), Ok(()));
    assert_eq!(g.score, 0);
    assert_eq!(g.line, 0);
    for x in 5..9 {
        assert_eq!(g.field[19][x], I);
    }
}

#[test]
fn landing_resets_hold_use() {
    let mut g = ordered_game();
    hold(&mut g);
    assert!(g.holded);
    hard_drop(&mut g);
    assert_eq!(landing(&mut g), Ok(()));
    assert!(!g.holded);
}

#[test]
fn landing_reports_game_over() {
    let mut g = ordered_game();
    g.field[2][7] = T;
    g.holded = true;
    g.pos = Position { x: 5, y: 10 };
    assert_eq!(landing(&mut g), Err(()));
    assert!(g.holded);
    assert_eq!(g.block, block_shape(1));
}

#[test]
fn hold_twice_is_noop_second_time() {
    let mut g = ordered_game();
    let first = g.block;
    hold(&mut g);
    assert_eq!(g.hold, Some(first));
    assert!(g.holded);
    assert_eq!(g.block, block_shape(1));
    let block = g.block;
    let next: Vec<BlockShape> = g.next.iter().copied().collect();
    let pos = g.pos;
    hold(&mut g);
    assert_eq!(g.hold, Some(first));
    assert_eq!(g.block, block);
    assert_eq!(g.pos, pos);
    assert_eq!(g.next.iter().copied().collect::<Vec<_>>(), next);
}

#[test]
fn hold_swaps_with_held_piece() {
    let mut g = ordered_game();
    g.hold = Some(block_shape(6));
    g.pos = Position { x: 7, y: 9 };
    hold(&mut g);
    assert_eq!(g.block, block_shape(6));
    assert_eq!(g.hold, Some(block_shape(0)));
    assert_eq!(g.pos, Position::init());
    assert_eq!(g.next.len(), 7);
    assert_eq!(g.next[0], block_shape(1));
}

#[test]
fn rotation_in_place() {
    let mut g = ordered_game();
    g.pos = Position { x: 5, y: 5 };
    rotate_right(&mut g);
    assert_eq!(g.block, vertical_i());
    assert_eq!(g.pos, Position { x: 5, y: 5 });
    rotate_left(&mut g);
    assert_eq!(g.block, block_shape(0));
}

#[test]
fn rotate_left_turns_counter_clockwise() {
    let t = block_shape(6);
    let l = rotate_shape_left(&t);
    assert_eq!(l, [[0, 0, 0, 0], [0, 0, T, 0], [0, T, T, 0], [0, 0, T, 0]]);
    assert_eq!(rotate_shape_right(&l), t);
}

#[test]
fn rotate_right_kicks_off_left_wall() {
    let mut g = ordered_game();
    g.block = vertical_i();
    g.pos = Position { x: 1, y: 5 };
    rotate_right(&mut g);
    assert_eq!(g.pos, Position { x: 2, y: 5 });
    assert_eq!(g.block, rotate_shape_right(&vertical_i()));
}

#[test]
fn rotation_prefers_up_kick() {
    let mut g = ordered_game();
    g.block = vertical_i();
    g.pos = Position { x: 5, y: 5 };
    g.field[6][5] = T;
    let rotated = rotate_shape_right(&vertical_i());
    assert_eq!(super_rotation(&g.field, &g.pos, &rotated), Ok(Position { x: 5, y: 4 }));
    rotate_right(&mut g);
    assert_eq!(g.pos, Position { x: 5, y: 4 });
    assert_eq!(g.block, rotated);
}

#[test]
fn rotation_rejected_when_no_kick_fits() {
    let mut g = ordered_game();
    g.block = vertical_i();
    g.pos = Position { x: 5, y: 5 };
    for y in 4..9 {
        for x in 4..10 {
            if x != 6 {
                g.field[y][x] = T;
            }
        }
    }
    let rotated = rotate_shape_right(&vertical_i());
    assert_eq!(super_rotation(&g.field, &g.pos, &rotated), Err(()));
    rotate_right(&mut g);
    assert_eq!(g.pos, Position { x: 5, y: 5 });
    assert_eq!(g.block, vertical_i());
}

#[test]
fn snapshot_shows_piece_over_ghost() {
    let g = ordered_game();
    let shown = g.snapshot();
    for x in 5..9 {
        assert_eq!(shown[2][x], I);
        assert_eq!(shown[19][x], tetris::block::GHOST);
    }
    assert_eq!(shown[3][5], NONE);
    assert_eq!(shown[19][4], NONE);
    assert_eq!(g.field, start_field());
}

#[test]
fn snapshot_piece_hides_its_ghost() {
    let mut g = ordered_game();
    hard_drop(&mut g);
    let shown = g.snapshot();
    for x in 5..9 {
        assert_eq!(shown[19][x], I);
    }
}

#[test]
fn preview_shows_three_next() {
    let g = ordered_game();
    assert_eq!(g.preview(), vec![block_shape(1), block_shape(2), block_shape(3)]);
}

#[test]
fn hold_into_empty_slot_does_not_report_blocked_spawn() {
    let mut g = ordered_game();
    g.field[1][6] = T;
    hold(&mut g);
    assert_eq!(g.hold, Some(block_shape(0)));
    assert_eq!(g.block, block_shape(1));
    assert!(g.holded);
    assert!(is_collision(&g.field, &g.pos, &g.block));
}

#[test]
fn erase_full_top_row() {
    let mut f = start_field();
    fill_row_except(&mut f, 0, 100);
    f[5][4] = T;
    let before = f;
    assert_eq!(erase_line(&mut f), 1);
    assert_eq!(f[0], empty_row());
    for y in 1..22 {
        assert_eq!(f[y], before[y]);
    }
}

#[test]
fn erase_row_one_takes_row_zero() {
    let mut f = start_field();
    f[0][3] = T;
    fill_row_except(&mut f, 1, 100);
    f[2][8] = T;
    let before = f;
    assert_eq!(erase_line(&mut f), 1);
    assert_eq!(f[1], before[0]);
    assert_eq!(f[0], empty_row());
    assert_eq!(f[2], before[2]);
}

#[test]
fn erase_refills_top_with_empty_rows() {
    let mut f = start_field();
    fill_row_except(&mut f, 0, 100);
    fill_row_except(&mut f, 1, 100);
    fill_row_except(&mut f, 10, 100);
    f[9][4] = T;
    let before = f;
    assert_eq!(erase_line(&mut f), 3);
    for y in 0..3 {
        assert_eq!(f[y], empty_row());
    }
    for y in 3..=9 {
        assert_eq!(f[y], before[y - 1]);
    }
    assert_eq!(f[10], before[9]);
    for y in 11..22 {
        assert_eq!(f[y], before[y]);
    }
    assert_eq!(f, {
        let mut expected = start_field();
        expected[10][4] = T;
        expected
    });
}

#[test]
fn lock_completing_top_row_scores() {
    let mut g = ordered_game();
    fill_row_except(&mut g.field, 0, 11);
    g.block = vertical_i();
    g.pos = Position { x: 10, y: 0 };
    g.field[4][11] = T;
    assert_eq!(landing(&mut g), Ok(()));
    assert_eq!(g.score, 1);
    assert_eq!(g.line, 1);
    assert_eq!(g.field[0], empty_row());
}
