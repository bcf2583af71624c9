use tetris::board::Tets;
use tetris::tet::{Point, Rot, RotationDir, Tet, TetType};

const ALL: [TetType; 7] = [TetType::I, TetType::J, TetType::L, TetType::O, TetType::S, TetType::T, TetType::Z];

fn pts(v: &[(i8, i8)]) -> Vec<Point> {
    v.iter().map(|&(x, y)| Point::new(x, y)).collect()
}

#[test]
fn spawn_blocks_of_each_type() {
    assert_eq!(TetType::I.blocks().to_vec(), pts(&[(0, 1), (1, 1), (2, 1), (3, 1)]));
    assert_eq!(TetType::J.blocks().to_vec(), pts(&[(0, 0), (0, 1), (1, 1), (2, 1)]));
    assert_eq!(TetType::L.blocks().to_vec(), pts(&[(0, 1), (1, 1), (2, 1), (2, 0)]));
    assert_eq!(TetType::O.blocks().to_vec(), pts(&[(0, 0), (0, 1), (1, 0), (1, 1)]));
    assert_eq!(TetType::S.blocks().to_vec(), pts(&[(0, 1), (1, 1), (1, 0), (2, 0)]));
    assert_eq!(TetType::T.blocks().to_vec(), pts(&[(1, 0), (0, 1), (1, 1), (2, 1)]));
    assert_eq!(TetType::Z.blocks().to_vec(), pts(&[(0, 0), (1, 0), (1, 1), (2, 1)]));
}

#[test]
fn batch_holds_each_type_once() {
    for _ in 0..50 {
        let b = TetType::batch();
        for t in ALL.iter() {
            assert_eq!(b.iter().filter(|x| *x == t).count(), 1);
        }
    }
}

#[test]
fn batch_is_shuffled() {
    let any_moved = (0..40).any(|_| TetType::batch() != ALL);
    assert!(any_moved);
}

#[test]
fn rot_cycles() {
    let mut r = Rot::Zero;
    r.c();
    assert_eq!(r, Rot::R);
    r.c();
    assert_eq!(r, Rot::Two);
    r.c();
    assert_eq!(r, Rot::L);
    r.c();
    assert_eq!(r, Rot::Zero);
    r.cc();
    assert_eq!(r, Rot::L);
    r.cc();
    assert_eq!(r, Rot::Two);
}

#[test]
fn new_piece() {
    let t = Tet::new(TetType::S, Point::new(3, 0));
    assert_eq!(t.tet_type, TetType::S);
    assert_eq!(t.pos, Point::new(3, 0));
    assert_eq!(t.blocks, TetType::S.blocks());
    assert_eq!(t.rot, Rot::Zero);
}

#[test]
fn fall_until_floor() {
    let board = Tets::default();
    let mut t = Tet::new(TetType::T, Point::new(3, 0));
    let mut steps = 0;
    while t.fall(&board) {
        steps += 1;
    }
    assert_eq!(steps, 18);
    assert_eq!(t.pos, Point::new(3, 18));
    assert!(t.at_bottom(&board));
    let before = t;
    assert!(!t.fall(&board));
    assert_eq!(t.pos, before.pos);
}

#[test]
fn fall_stops_on_stack() {
    let mut board = Tets::default();
    board.set(10, 4, TetType::Z);
    let mut t = Tet::new(TetType::T, Point::new(3, 0));
    while t.fall(&board) {}
    // the T's lowest middle block sits right above the occupied cell
    assert_eq!(t.pos, Point::new(3, 8));
    assert!(t.at_bottom(&board));
}

#[test]
fn moves_stop_at_walls() {
    let board = Tets::default();
    let mut t = Tet::new(TetType::T, Point::new(3, 0));
    let mut left = 0;
    while t.move_left(&board) {
        left += 1;
    }
    assert_eq!(left, 3);
    assert_eq!(t.pos.x, 0);
    let mut right = 0;
    while t.move_right(&board) {
        right += 1;
    }
    assert_eq!(right, 7);
    assert_eq!(t.pos.x, 7);
}

#[test]
fn moves_stop_at_blocks() {
    let mut board = Tets::default();
    board.set(1, 2, TetType::I);
    board.set(1, 7, TetType::I);
    let mut t = Tet::new(TetType::T, Point::new(3, 0));
    assert!(!t.move_left(&board));
    assert_eq!(t.pos.x, 3);
    assert!(t.move_right(&board));
    assert!(!t.move_right(&board));
    assert_eq!(t.pos.x, 4);
}

#[test]
fn rotate_clockwise_t() {
    let board = Tets::default();
    let mut t = Tet::new(TetType::T, Point::new(3, 5));
    assert!(t.rotate(RotationDir::Clockwise, &board));
    assert_eq!(t.blocks.to_vec(), pts(&[(2, 1), (1, 0), (1, 1), (1, 2)]));
    assert_eq!(t.pos, Point::new(3, 5));
    assert_eq!(t.rot, Rot::R);
}

#[test]
fn rotate_counter_clockwise_t() {
    let board = Tets::default();
    let mut t = Tet::new(TetType::T, Point::new(3, 5));
    assert!(t.rotate(RotationDir::CounterClockwise, &board));
    assert_eq!(t.blocks.to_vec(), pts(&[(0, 1), (1, 2), (1, 1), (1, 0)]));
    assert_eq!(t.pos, Point::new(3, 5));
    assert_eq!(t.rot, Rot::L);
}

#[test]
fn four_turns_restore_every_piece() {
    let board = Tets::default();
    for kind in ALL.iter() {
        for dir in [RotationDir::Clockwise, RotationDir::CounterClockwise].iter() {
            let start = Tet::new(*kind, Point::new(3, 5));
            let mut t = start;
            for _ in 0..4 {
                assert!(t.rotate(*dir, &board));
                assert_eq!(t.pos, start.pos);
            }
            assert_eq!(t.blocks, start.blocks);
            assert_eq!(t.rot, start.rot);
        }
    }
}

#[test]
fn o_piece_never_turns() {
    let mut board = Tets::default();
    for c in 0..10 {
        for r in 0..20 {
            board.set(r, c, TetType::Z);
        }
    }
    let mut t = Tet::new(TetType::O, Point::new(3, 5));
    let before = t;
    assert!(t.rotate(RotationDir::Clockwise, &board));
    assert!(t.rotate(RotationDir::CounterClockwise, &board));
    assert_eq!(t.blocks, before.blocks);
    assert_eq!(t.pos, before.pos);
    assert_eq!(t.rot, before.rot);
}

#[test]
fn i_piece_kicks_off_the_left_wall() {
    let board = Tets::default();
    let mut t = Tet::new(TetType::I, Point::new(0, 5));
    assert!(t.rotate(RotationDir::Clockwise, &board));
    assert_eq!(t.blocks.to_vec(), pts(&[(2, 0), (2, 1), (2, 2), (2, 3)]));
    assert!(t.move_left(&board));
    assert!(t.move_left(&board));
    assert!(!t.move_left(&board));
    assert_eq!(t.pos, Point::new(-2, 5));
    // the untranslated turn would leave the grid; the third candidate (+2, 0) fits
    assert!(t.rotate(RotationDir::Clockwise, &board));
    assert_eq!(t.blocks.to_vec(), pts(&[(3, 2), (2, 2), (1, 2), (0, 2)]));
    assert_eq!(t.pos, Point::new(0, 5));
    assert_eq!(t.rot, Rot::Two);
}

#[test]
fn t_piece_kicks_off_the_right_wall() {
    let board = Tets::default();
    let mut t = Tet::new(TetType::T, Point::new(3, 5));
    assert!(t.rotate(RotationDir::CounterClockwise, &board));
    // orientation L: blocks in columns 0 and 1 of the pivot square
    while t.move_right(&board) {}
    assert_eq!(t.pos.x, 8);
    // turning back to Zero needs column 10: the candidate (-1, 0) is taken
    assert!(t.rotate(RotationDir::Clockwise, &board));
    assert_eq!(t.pos, Point::new(7, 5));
    assert_eq!(t.rot, Rot::Zero);
    assert_eq!(t.blocks, TetType::T.blocks());
}

#[test]
fn blocked_rotation_changes_nothing() {
    let mut board = Tets::default();
    for r in 0..20 {
        for c in 0..10 {
            if !(r == 19 && (3..=6).contains(&c)) {
                board.set(r, c, TetType::L);
            }
        }
    }
    let mut t = Tet::new(TetType::I, Point::new(3, 18));
    let before = t;
    assert!(!t.rotate(RotationDir::Clockwise, &board));
    assert!(!t.rotate(RotationDir::CounterClockwise, &board));
    assert_eq!(t.blocks, before.blocks);
    assert_eq!(t.pos, before.pos);
    assert_eq!(t.rot, before.rot);
}
