use unictris::game::{
    gravity_due, level_at, Board, Game, Intent, Move, Tetromino, BOARD_HEIGHT, BOARD_WIDTH,
};
use unictris::layout::centered_column;
use unictris::shape::Shape;

fn game_with(kind: u8, orientation: u8, x: u8, y: u8) -> Game {
    let mut g = Game::default();
    g.tetromino = Tetromino { x, y, orientation, shape: Shape::new(kind) };
    g
}

fn grid(b: &Board) -> Vec<Vec<u8>> {
    (0..BOARD_HEIGHT).map(|y| (0..BOARD_WIDTH).map(|x| b.get(x, y)).collect()).collect()
}

fn cells_of(t: &Tetromino) -> Vec<(u8, u8)> {
    t.shape.coor(t.orientation).iter().map(|&(cx, cy)| (cx + t.x, cy + t.y)).collect()
}

#[test]
fn new_game_is_empty_at_level_one() {
    let g = Game::default();
    assert!(grid(&g.board).iter().all(|row| row.iter().all(|&v| v == 0)));
    assert_eq!(g.score, 0);
    assert_eq!(g.level(), 1);
    assert!(!g.paused);
    assert_eq!(g.tetromino.y, 0);
}

#[test]
fn new_pieces_fit_at_the_top() {
    let mut rng = rand::rng();
    for _ in 0..2000 {
        let t = Tetromino::new(&mut rng);
        assert_eq!(t.y, 0);
        assert!(t.orientation < 4);
        assert!(t.shape.kind() < 7);
        let (w, _) = t.shape.dim(t.orientation);
        assert!(t.x + w <= BOARD_WIDTH);
    }
}

#[test]
fn left_stops_at_the_left_wall() {
    let mut g = game_with(3, 0, 0, 0);
    let before = grid(&g.board);
    assert!(!g.try_move(Move::Left));
    assert_eq!(g.tetromino.x, 0);
    assert_eq!(grid(&g.board), before);
    let mut g = game_with(3, 0, 1, 0);
    assert!(g.try_move(Move::Left));
    assert_eq!(g.tetromino.x, 0);
}

#[test]
fn right_stops_at_the_right_wall() {
    let mut g = game_with(3, 0, 6, 0);
    assert!(g.try_move(Move::Right));
    assert_eq!(g.tetromino.x, 7);
    assert!(!g.try_move(Move::Right));
    assert_eq!(g.tetromino.x, 7);
    let (w, _) = g.tetromino.shape.dim(g.tetromino.orientation);
    assert_eq!(g.tetromino.x + w, BOARD_WIDTH);
}

#[test]
fn rotation_at_the_wall_kicks_left() {
    let mut g = game_with(5, 0, 9, 0);
    assert!(g.try_move(Move::Rotate));
    assert_eq!(g.tetromino.orientation, 1);
    assert_eq!(g.tetromino.x, 6);
    for x in 6..10 {
        assert_eq!(g.board.get(x, 0), 6);
    }
    assert_eq!(g.board.get(5, 0), 0);
}

#[test]
fn a_move_paints_the_new_cells_and_clears_the_old() {
    let mut g = game_with(4, 0, 2, 0);
    assert!(g.try_move(Move::Down));
    let first = cells_of(&g.tetromino);
    for &(x, y) in &first {
        assert_eq!(g.board.get(x, y), 5);
    }
    assert!(g.try_move(Move::Right));
    let second = cells_of(&g.tetromino);
    for &(x, y) in &second {
        assert_eq!(g.board.get(x, y), 5);
    }
    for &(x, y) in &first {
        if !second.contains(&(x, y)) {
            assert_eq!(g.board.get(x, y), 0);
        }
    }
    let painted = grid(&g.board).iter().flatten().filter(|&&v| v != 0).count();
    assert_eq!(painted, 4);
}

#[test]
fn a_blocked_move_changes_nothing() {
    let mut g = game_with(2, 0, 0, 0);
    g.board.set(2, 1, 7);
    let before = grid(&g.board);
    assert!(!g.try_move(Move::Right));
    assert_eq!(g.tetromino.x, 0);
    assert_eq!(grid(&g.board), before);
}

#[test]
fn piece_falls_to_the_floor_and_stops() {
    let mut g = game_with(3, 0, 3, 0);
    let (_, h) = g.tetromino.shape.dim(0);
    for i in 0..19 {
        let moved = g.try_move(Move::Down);
        assert_eq!(moved, g.tetromino.y + h <= BOARD_HEIGHT && i < 18);
    }
    assert_eq!(g.tetromino.y, BOARD_HEIGHT - h);
    assert_eq!(g.tetromino.y, 18);
    assert_eq!(g.board.get(3, 18), 4);
    assert_eq!(g.board.get(4, 18), 4);
    assert_eq!(g.board.get(5, 18), 4);
    assert_eq!(g.board.get(5, 19), 4);
}

#[test]
fn filled_row_detection() {
    let mut b = Board::default();
    for x in 0..9 {
        b.set(x, 19, 1);
    }
    assert!(!b.is_filled(19));
    b.set(9, 19, 3);
    assert!(b.is_filled(19));
    assert!(!b.is_filled(18));
}

#[test]
fn wipe_moves_rows_above_down() {
    let mut b = Board::default();
    b.set(0, 0, 1);
    b.set(1, 3, 2);
    b.set(2, 4, 3);
    b.set(3, 5, 4);
    b.set(4, 6, 5);
    let before = grid(&b);
    b.wipe(5);
    let after = grid(&b);
    assert_eq!(after[0], vec![0u8; 10]);
    for y in 1..=5 {
        assert_eq!(after[y], before[y - 1]);
    }
    for y in 6..20 {
        assert_eq!(after[y], before[y]);
    }
    let mut top = Board::default();
    top.set(5, 0, 2);
    top.wipe(0);
    assert_eq!(grid(&top), grid(&Board::default()));
}

#[test]
fn locking_clears_the_completed_bottom_row() {
    let mut g = game_with(5, 1, 0, 0);
    for x in 4..10 {
        g.board.set(x, 19, 1);
    }
    while g.try_move(Move::Down) {}
    assert_eq!(g.tetromino.y, 19);
    assert!(g.board.is_filled(19));
    let row18 = grid(&g.board)[18].clone();
    g.wipe_filled_rows();
    assert_eq!(g.score, 1);
    assert_eq!(grid(&g.board)[19], row18);
    assert!(grid(&g.board).iter().all(|row| row.iter().all(|&v| v == 0)));
    assert_eq!(g.tetromino.y, 0);
}

#[test]
fn two_filled_rows_are_both_cleared() {
    let mut g = game_with(2, 0, 0, 0);
    for y in 18..20 {
        for x in 2..10 {
            g.board.set(x, y, 1);
        }
    }
    while g.try_move(Move::Down) {}
    g.wipe_filled_rows();
    assert_eq!(g.score, 2);
    assert!(grid(&g.board).iter().all(|row| row.iter().all(|&v| v == 0)));
}

#[test]
fn rows_with_a_gap_between_are_cleared_in_order() {
    let mut g = game_with(5, 0, 0, 0);
    for x in 1..10 {
        g.board.set(x, 17, 1);
        g.board.set(x, 19, 2);
    }
    for x in 1..9 {
        g.board.set(x, 18, 3);
    }
    while g.try_move(Move::Down) {}
    assert_eq!(g.tetromino.y, 16);
    let before = grid(&g.board);
    g.wipe_filled_rows();
    assert_eq!(g.score, 2);
    let after = grid(&g.board);
    assert_eq!(after[19], before[18]);
    assert_eq!(after[18], before[16]);
    for y in 0..18 {
        assert_eq!(after[y], vec![0u8; 10]);
    }
}

#[test]
fn hard_drop_locks_and_clears() {
    let mut g = game_with(5, 1, 0, 0);
    for x in 4..10 {
        g.board.set(x, 19, 1);
    }
    g.apply(Intent::HardDrop);
    assert_eq!(g.score, 1);
    assert!(grid(&g.board).iter().all(|row| row.iter().all(|&v| v == 0)));
    assert_eq!(g.tetromino.y, 0);
}

#[test]
fn game_over_when_the_piece_cannot_leave_the_top() {
    let mut g = game_with(5, 1, 0, 0);
    for x in 0..4 {
        g.board.set(x, 1, 7);
    }
    let before = grid(&g.board);
    for _ in 0..29 {
        assert!(g.do_tick());
    }
    assert!(!g.do_tick());
    assert_eq!(grid(&g.board), before);
    assert_eq!(g.score, 0);
    assert_eq!(g.tetromino.y, 0);
    assert_eq!(g.tetromino.x, 0);
}

#[test]
fn a_landed_piece_below_the_top_locks_and_play_goes_on() {
    let mut g = game_with(5, 1, 0, 0);
    for x in 4..10 {
        g.board.set(x, 19, 1);
    }
    while g.try_move(Move::Down) {}
    g.tick = 29;
    assert!(g.do_tick());
    assert_eq!(g.score, 1);
    assert_eq!(g.tetromino.y, 0);
}

#[test]
fn gravity_moves_the_piece_on_drop_ticks() {
    let mut g = game_with(3, 0, 3, 0);
    for _ in 0..29 {
        assert!(g.do_tick());
        assert_eq!(g.tetromino.y, 0);
    }
    assert!(g.do_tick());
    assert_eq!(g.tetromino.y, 1);
}

#[test]
fn paused_game_does_not_tick() {
    let mut g = game_with(3, 0, 3, 0);
    g.apply(Intent::TogglePause);
    assert!(g.paused);
    for _ in 0..100 {
        assert!(g.do_tick());
    }
    assert_eq!(g.tick, 0);
    assert_eq!(g.tetromino.y, 0);
    g.apply(Intent::TogglePause);
    assert!(!g.paused);
}

#[test]
fn tick_counter_wraps() {
    let mut g = game_with(3, 0, 3, 0);
    g.tick = u64::MAX - 1;
    assert!(g.do_tick());
    assert_eq!(g.tick, 0);
}

#[test]
fn player_moves_through_apply() {
    let mut g = game_with(3, 0, 3, 0);
    g.apply(Intent::MoveLeft);
    assert_eq!(g.tetromino.x, 2);
    g.apply(Intent::MoveRight);
    g.apply(Intent::MoveRight);
    assert_eq!(g.tetromino.x, 4);
    g.apply(Intent::MoveDown);
    assert_eq!(g.tetromino.y, 1);
    g.apply(Intent::Rotate);
    assert_eq!(g.tetromino.orientation, 1);
}

#[test]
fn level_rises_every_six_thousand_ticks() {
    assert_eq!(level_at(0), 1);
    assert_eq!(level_at(5999), 1);
    assert_eq!(level_at(6000), 2);
    assert_eq!(level_at(12000), 3);
    let mut g = Game::default();
    g.tick = 6000;
    assert_eq!(g.level(), 2);
}

#[test]
fn gravity_acts_more_often_at_higher_levels() {
    assert!(gravity_due(0));
    assert!(!gravity_due(1));
    assert!(gravity_due(30));
    assert!(gravity_due(6001));
    assert!(!gravity_due(6002));
    for level in 1..40u64 {
        let start = (level - 1) * 6000;
        let n = (start..start + 30).filter(|&t| gravity_due(t)).count() as u64;
        assert_eq!(n, level.min(30));
    }
    for t in 29 * 6000..29 * 6000 + 100 {
        assert!(gravity_due(t));
    }
}

#[test]
fn text_is_centred_right_of_the_field() {
    assert_eq!(centered_column(80, 14), 45);
    assert_eq!(centered_column(39, 14), 25);
    assert_eq!(centered_column(30, 14), 25);
}

#[test]
fn spawn_places_the_drawn_piece_at_the_top() {
    let t = Tetromino::spawn(3, 1, 8);
    assert_eq!(t.shape.kind(), 3);
    assert_eq!(t.orientation, 1);
    assert_eq!(t.x, 8);
    assert_eq!(t.y, 0);
    let bar = Tetromino::spawn(5, 0, 9);
    assert_eq!((bar.shape.kind(), bar.orientation, bar.x, bar.y), (5, 0, 9, 0));
}

#[test]
fn spawn_columns_counts_where_the_box_fits() {
    assert_eq!(Tetromino::spawn_columns(&Shape::new(3), 0), 8);
    assert_eq!(Tetromino::spawn_columns(&Shape::new(3), 1), 9);
    assert_eq!(Tetromino::spawn_columns(&Shape::new(5), 0), 10);
    assert_eq!(Tetromino::spawn_columns(&Shape::new(5), 1), 7);
    assert_eq!(Tetromino::spawn_columns(&Shape::new(2), 2), 9);
}

#[test]
fn new_pieces_reach_every_column_that_fits() {
    let mut rng = rand::rng();
    let mut seen = [false; 10];
    for _ in 0..5000 {
        let t = Tetromino::new(&mut rng);
        seen[t.x as usize] = true;
    }
    assert!(seen.iter().all(|&b| b));
}
