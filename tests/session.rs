use tetris::board::{Tets, TILES_HIGH, TILES_WIDE};
use tetris::game::{decrement, line_clear_points, Game, Key, TimerState};
use tetris::tet::{Point, TetType};

const ORDER: [TetType; 7] = [TetType::I, TetType::J, TetType::L, TetType::O, TetType::S, TetType::T, TetType::Z];
const HOLD_ORDER: [TetType; 7] = [TetType::T, TetType::I, TetType::O, TetType::J, TetType::L, TetType::S, TetType::Z];
const O_FIRST: [TetType; 7] = [TetType::O, TetType::I, TetType::J, TetType::L, TetType::S, TetType::T, TetType::Z];

const FRAME: u64 = 16_667;

fn snapshot(t: &Tets) -> Vec<Vec<Option<TetType>>> {
    (0..TILES_HIGH as i8)
        .map(|r| (0..TILES_WIDE as i8).map(|c| *t.at(r, c)).collect())
        .collect()
}

#[test]
fn decrement_counts_down_to_done() {
    assert_eq!(decrement(100, 30), TimerState::Ticking(70));
    assert_eq!(decrement(30, 30), TimerState::Done);
    assert_eq!(decrement(10, 30), TimerState::Done);
    assert_eq!(decrement(0, 0), TimerState::Done);
}

#[test]
fn line_clear_points_table() {
    assert_eq!(line_clear_points(3, 2), 900);
    assert_eq!(line_clear_points(1, 1), 100);
    assert_eq!(line_clear_points(2, 3), 1000);
    assert_eq!(line_clear_points(20, 4), 16000);
    assert_eq!(line_clear_points(5, 0), 0);
    assert_eq!(line_clear_points(5, 5), 0);
}

#[test]
fn fresh_session() {
    let g = Game::from_batch(HOLD_ORDER);
    assert!(g.has_tet());
    assert!(!g.is_dead());
    assert_eq!(g.current_tet().tet_type, TetType::T);
    assert_eq!(g.current_tet().pos, Point::new(3, 0));
    assert_eq!(g.next_type(), TetType::I);
    assert_eq!(g.held_tet(), None);
    assert_eq!(g.score(), 0);
    assert_eq!(g.lines(), 0);
    assert_eq!(g.level(), 1);
    assert!(snapshot(g.tets()).iter().all(|r| r.iter().all(|c| c.is_none())));
}

#[test]
fn hard_drop_to_lock() {
    let mut g = Game::from_batch(ORDER);
    let spawned = g.current_tet();
    assert_eq!(spawned.tet_type, TetType::I);
    let spawn_row = (spawned.pos.y + spawned.blocks[0].y) as u64;
    assert_eq!(spawn_row, 1);
    g.key_down_with(Key::HardDrop, false, ORDER);
    assert_eq!(g.score(), 2 * (19 - spawn_row));
    assert_eq!(g.score(), 36);
    let board = snapshot(g.tets());
    for c in 0..TILES_WIDE {
        let expected = if (3..=6).contains(&c) { Some(TetType::I) } else { None };
        assert_eq!(board[19][c], expected);
    }
    assert!(!g.has_tet());
    g.update_with(FRAME, ORDER);
    assert!(g.has_tet());
    assert_eq!(g.current_tet().tet_type, TetType::J);
    assert_eq!(g.current_tet().pos, Point::new(3, 0));
}

#[test]
fn hold_swap() {
    let mut g = Game::from_batch(HOLD_ORDER);
    assert_eq!(g.current_tet().tet_type, TetType::T);
    g.key_down_with(Key::Hold, false, ORDER);
    assert_eq!(g.held_tet(), Some(TetType::T));
    assert_eq!(g.current_tet().tet_type, TetType::I);
    assert_eq!(g.current_tet().pos, Point::new(3, 0));
    assert_eq!(g.next_type(), TetType::O);
    let current = g.current_tet();
    g.key_down_with(Key::Hold, false, ORDER);
    assert_eq!(g.held_tet(), Some(TetType::T));
    assert_eq!(g.current_tet().tet_type, current.tet_type);
    assert_eq!(g.current_tet().pos, current.pos);
    assert_eq!(g.current_tet().blocks, current.blocks);
    assert_eq!(g.next_type(), TetType::O);
    assert_eq!(g.score(), 0);
}

#[test]
fn hold_again_after_next_spawn() {
    let mut g = Game::from_batch(HOLD_ORDER);
    g.key_down_with(Key::Hold, false, ORDER);
    g.key_down_with(Key::HardDrop, false, ORDER);
    g.update_with(FRAME, ORDER);
    assert_eq!(g.current_tet().tet_type, TetType::O);
    g.key_down_with(Key::Hold, false, ORDER);
    assert_eq!(g.held_tet(), Some(TetType::O));
    assert_eq!(g.current_tet().tet_type, TetType::T);
    assert_eq!(g.next_type(), TetType::J);
}

#[test]
fn game_over_when_spawn_is_blocked() {
    let mut g = Game::from_batch(O_FIRST);
    let mut rounds = 0;
    loop {
        rounds += 1;
        assert!(rounds < 200);
        if g.has_tet() {
            g.key_down_with(Key::HardDrop, false, O_FIRST);
        } else {
            let before = snapshot(g.tets());
            g.update_with(FRAME, O_FIRST);
            if g.is_dead() {
                assert!(!g.has_tet());
                assert_eq!(snapshot(g.tets()), before);
                break;
            }
        }
    }
    let board = snapshot(g.tets());
    g.update_with(FRAME, O_FIRST);
    g.key_down_with(Key::HardDrop, false, O_FIRST);
    g.key_down_with(Key::Left, false, O_FIRST);
    assert!(g.is_dead());
    assert_eq!(snapshot(g.tets()), board);
}

#[test]
fn prepared_board_with_blocked_spawn_is_over() {
    let mut t = Tets::default();
    t.set(1, 4, TetType::Z);
    let g = Game::from_board(t, ORDER);
    assert!(g.is_dead());
    assert!(!g.has_tet());
    assert_eq!(snapshot(g.tets()), snapshot(&t));
}

#[test]
fn restart_only_when_dead() {
    let mut t = Tets::default();
    t.set(1, 4, TetType::Z);
    let mut g = Game::from_board(t, ORDER);
    assert!(g.is_dead());
    g.key_down_with(Key::Restart, false, HOLD_ORDER);
    assert!(!g.is_dead());
    assert!(g.has_tet());
    assert_eq!(g.current_tet().tet_type, TetType::T);
    assert!(snapshot(g.tets()).iter().all(|r| r.iter().all(|c| c.is_none())));
    let pos = g.current_tet().pos;
    g.key_down_with(Key::Restart, false, ORDER);
    assert_eq!(g.current_tet().tet_type, TetType::T);
    assert_eq!(g.current_tet().pos, pos);
}

fn board_with_gap(rows: &[i8], gap: &[i8]) -> Tets {
    let mut t = Tets::default();
    for &r in rows {
        for c in 0..TILES_WIDE as i8 {
            if !gap.contains(&c) {
                t.set(r, c, TetType::L);
            }
        }
    }
    t
}

#[test]
fn double_clear_scores_by_level() {
    let t = board_with_gap(&[18, 19], &[3, 4]);
    let mut g = Game::from_board(t, O_FIRST);
    assert_eq!(g.level(), 1);
    g.key_down_with(Key::HardDrop, false, O_FIRST);
    assert_eq!(g.lines(), 2);
    assert_eq!(g.score(), 2 * 18 + 300);
    assert!(snapshot(g.tets()).iter().all(|r| r.iter().all(|c| c.is_none())));
}

#[test]
fn double_clear_higher_up() {
    let mut t = board_with_gap(&[16, 17], &[3, 4]);
    for c in 0..9 {
        t.set(18, c, TetType::J);
        t.set(19, c, TetType::J);
    }
    let below = snapshot(&t);
    let mut g = Game::from_board(t, O_FIRST);
    g.key_down_with(Key::HardDrop, false, O_FIRST);
    assert_eq!(g.lines(), 2);
    assert_eq!(g.score(), 2 * 16 + 300);
    let after = snapshot(g.tets());
    assert_eq!(after[18], below[18]);
    assert_eq!(after[19], below[19]);
    for r in 0..18 {
        assert!(after[r].iter().all(|c| c.is_none()));
    }
}

#[test]
fn single_clear_with_i_piece() {
    let t = board_with_gap(&[19], &[3, 4, 5, 6]);
    let mut g = Game::from_board(t, ORDER);
    g.key_down_with(Key::HardDrop, false, ORDER);
    assert_eq!(g.lines(), 1);
    assert_eq!(g.score(), 2 * 18 + 100);
}

#[test]
fn gravity_moves_one_row_per_interval() {
    let mut g = Game::from_batch(ORDER);
    g.update_with(999_999, ORDER);
    assert_eq!(g.current_tet().pos.y, 0);
    g.update_with(1, ORDER);
    assert_eq!(g.current_tet().pos.y, 1);
    assert_eq!(g.score(), 0);
}

#[test]
fn soft_drop_falls_at_once_and_scores() {
    let mut g = Game::from_batch(ORDER);
    g.key_down_with(Key::SoftDrop, false, ORDER);
    g.update_with(FRAME, ORDER);
    assert_eq!(g.current_tet().pos.y, 1);
    assert_eq!(g.score(), 1);
    g.update_with(100_000, ORDER);
    assert_eq!(g.current_tet().pos.y, 2);
    assert_eq!(g.score(), 2);
    g.key_up_event(Key::SoftDrop);
    // the interval armed during soft drop still runs out; after it gravity is normal again
    g.update_with(99_999, ORDER);
    assert_eq!(g.current_tet().pos.y, 2);
    g.update_with(1, ORDER);
    assert_eq!(g.current_tet().pos.y, 3);
    assert_eq!(g.score(), 2);
    g.update_with(999_999, ORDER);
    assert_eq!(g.current_tet().pos.y, 3);
    g.update_with(1, ORDER);
    assert_eq!(g.current_tet().pos.y, 4);
}

#[test]
fn held_move_repeats() {
    let mut g = Game::from_batch(HOLD_ORDER);
    g.key_down_with(Key::Left, false, ORDER);
    assert_eq!(g.current_tet().pos.x, 2);
    g.key_down_with(Key::Left, true, ORDER);
    assert_eq!(g.current_tet().pos.x, 2);
    g.update_with(299_999, ORDER);
    assert_eq!(g.current_tet().pos.x, 2);
    g.update_with(1, ORDER);
    assert_eq!(g.current_tet().pos.x, 1);
    g.update_with(70_000, ORDER);
    assert_eq!(g.current_tet().pos.x, 0);
    g.update_with(70_000, ORDER);
    assert_eq!(g.current_tet().pos.x, 0);
    g.key_up_event(Key::Left);
    g.key_down_with(Key::Right, false, ORDER);
    assert_eq!(g.current_tet().pos.x, 1);
    g.key_up_event(Key::Left);
    g.update_with(300_000, ORDER);
    assert_eq!(g.current_tet().pos.x, 2);
    g.key_up_event(Key::Right);
    g.update_with(300_000, ORDER);
    assert_eq!(g.current_tet().pos.x, 2);
}

#[test]
fn lock_delay_after_landing() {
    let mut g = Game::from_batch(ORDER);
    g.key_down_with(Key::SoftDrop, false, ORDER);
    g.update_with(FRAME, ORDER);
    while g.current_tet().pos.y < 18 {
        g.update_with(100_000, ORDER);
    }
    assert!(g.has_tet());
    g.key_up_event(Key::SoftDrop);
    // resting on the floor: the lock delay of half a second runs
    g.update_with(400_000, ORDER);
    assert!(g.has_tet());
    g.update_with(100_000, ORDER);
    assert!(!g.has_tet());
    assert_eq!(*g.tets().at(19, 3), Some(TetType::I));
}

#[test]
fn rotation_keys_turn_the_piece() {
    let mut g = Game::from_batch(HOLD_ORDER);
    g.key_down_with(Key::RotateCw, false, ORDER);
    assert_eq!(g.current_tet().blocks, [Point::new(2, 1), Point::new(1, 0), Point::new(1, 1), Point::new(1, 2)]);
    g.key_down_with(Key::RotateCcw, false, ORDER);
    assert_eq!(g.current_tet().blocks, TetType::T.blocks());
}

#[test]
fn preview_shows_landing_spot() {
    let g = Game::from_batch(HOLD_ORDER);
    let p = g.preview_tet();
    assert_eq!(p.pos, Point::new(3, 18));
    assert_eq!(g.current_tet().pos, Point::new(3, 0));
}

#[test]
fn first_seven_pieces_form_a_bag() {
    let mut g = Game::new();
    let mut seen = vec![g.current_tet().tet_type];
    for _ in 0..6 {
        g.key_down_event(Key::HardDrop, false);
        g.update(FRAME);
        assert!(g.has_tet());
        seen.push(g.current_tet().tet_type);
    }
    for t in ORDER.iter() {
        assert_eq!(seen.iter().filter(|x| *x == t).count(), 1);
    }
}

#[test]
fn queue_refills_after_seven_spawns() {
    let mut g = Game::from_batch(ORDER);
    for _ in 0..6 {
        g.key_down_with(Key::HardDrop, false, O_FIRST);
        g.update_with(FRAME, O_FIRST);
    }
    assert_eq!(g.current_tet().tet_type, TetType::Z);
    assert_eq!(g.next_type(), TetType::O);
}
