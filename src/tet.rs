use vstd::prelude::*;

use rand::seq::SliceRandom;

use crate::board::{grid_cell, Grid, Tets, TILES_HIGH, TILES_WIDE};

verus! {

broadcast use vstd::array::group_array_axioms;

/// The seven piece shapes; also what an occupied board cell holds.
#[derive(Clone, Copy, PartialEq, Eq, Structural, Hash, Debug)]
pub enum TetType {
    I,
    J,
    L,
    O,
    S,
    T,
    Z,
}

/// A pair of grid coordinates: `x` is the column, `y` the row (downward).
#[derive(Clone, Copy, PartialEq, Eq, Structural, Debug)]
pub struct Point {
    pub x: i8,
    pub y: i8,
}

impl Point {
    pub fn new(x: i8, y: i8) -> (r: Point)
        ensures
            r == (Point { x, y }),
    {
        Point { x, y }
    }
}

/// The seven types, each once.
pub open spec fn all_types() -> Seq<TetType> {
    seq![TetType::I, TetType::J, TetType::L, TetType::O, TetType::S, TetType::T, TetType::Z]
}

/// A permutation of the seven types.
pub open spec fn is_bag(s: Seq<TetType>) -> bool {
    s.to_multiset() == all_types().to_multiset()
}

/// Side of the square that a shape turns in.
pub open spec fn pivot(t: TetType) -> int {
    if t == TetType::I {
        4
    } else {
        3
    }
}

/// A quarter turn clockwise inside an `n`-by-`n` square.
pub open spec fn cw(p: Point, n: int) -> Point {
    Point { x: (n - 1 - p.y) as i8, y: p.x }
}

/// A quarter turn counter-clockwise inside an `n`-by-`n` square.
pub open spec fn ccw(p: Point, n: int) -> Point {
    Point { x: p.y, y: (n - 1 - p.x) as i8 }
}

pub open spec fn in_box(p: Point, n: int) -> bool {
    0 <= p.x < n && 0 <= p.y < n
}

pub open spec fn all_in_box(s: Seq<Point>, n: int) -> bool {
    forall|i: int| 0 <= i < s.len() ==> in_box(#[trigger] s[i], n)
}

/// The block offsets of a shape after `turns` clockwise quarter turns.
pub open spec fn shape(t: TetType, turns: nat) -> Seq<Point>
    decreases turns,
{
    if turns == 0 {
        t.base()
    } else {
        shape(t, (turns - 1) as nat).map_values(|p: Point| cw(p, pivot(t)))
    }
}

impl TetType {
    /// Block offsets in the spawn orientation.
    pub open spec fn base_blocks(self) -> [Point; 4] {
        match self {
            TetType::I => [Point { x: 0, y: 1 }, Point { x: 1, y: 1 }, Point { x: 2, y: 1 }, Point { x: 3, y: 1 }],
            TetType::J => [Point { x: 0, y: 0 }, Point { x: 0, y: 1 }, Point { x: 1, y: 1 }, Point { x: 2, y: 1 }],
            TetType::L => [Point { x: 0, y: 1 }, Point { x: 1, y: 1 }, Point { x: 2, y: 1 }, Point { x: 2, y: 0 }],
            TetType::O => [Point { x: 0, y: 0 }, Point { x: 0, y: 1 }, Point { x: 1, y: 0 }, Point { x: 1, y: 1 }],
            TetType::S => [Point { x: 0, y: 1 }, Point { x: 1, y: 1 }, Point { x: 1, y: 0 }, Point { x: 2, y: 0 }],
            TetType::T => [Point { x: 1, y: 0 }, Point { x: 0, y: 1 }, Point { x: 1, y: 1 }, Point { x: 2, y: 1 }],
            TetType::Z => [Point { x: 0, y: 0 }, Point { x: 1, y: 0 }, Point { x: 1, y: 1 }, Point { x: 2, y: 1 }],
        }
    }

    /// Block offsets in the spawn orientation, as a sequence.
    pub open spec fn base(self) -> Seq<Point> {
        self.base_blocks()@
    }

    pub fn blocks(&self) -> (r: [Point; 4])
        ensures
            r == self.base_blocks(),
    {
        let r = match self {
            TetType::I => [Point::new(0, 1), Point::new(1, 1), Point::new(2, 1), Point::new(3, 1)],
            TetType::J => [Point::new(0, 0), Point::new(0, 1), Point::new(1, 1), Point::new(2, 1)],
            TetType::L => [Point::new(0, 1), Point::new(1, 1), Point::new(2, 1), Point::new(2, 0)],
            TetType::O => [Point::new(0, 0), Point::new(0, 1), Point::new(1, 0), Point::new(1, 1)],
            TetType::S => [Point::new(0, 1), Point::new(1, 1), Point::new(1, 0), Point::new(2, 0)],
            TetType::T => [Point::new(1, 0), Point::new(0, 1), Point::new(1, 1), Point::new(2, 1)],
            TetType::Z => [Point::new(0, 0), Point::new(1, 0), Point::new(1, 1), Point::new(2, 1)],
        };
        r
    }

    /// A fresh bag: the seven types in a random order.
    pub fn batch() -> (r: [TetType; 7])
        ensures
            is_bag(r@),
    {
        let mut batch = [
            TetType::I,
            TetType::J,
            TetType::L,
            TetType::O,
            TetType::S,
            TetType::T,
            TetType::Z,
        ];
        assert(batch@ =~= all_types());
        shuffle(&mut batch);
        batch
    }
}

/// Relies on rand's `SliceRandom::shuffle` (driven by `thread_rng`), which
/// only swaps elements of the slice: the result holds the same items.
#[verifier::external_body]
fn shuffle(batch: &mut [TetType; 7])
    ensures
        final(batch)@.to_multiset() == old(batch)@.to_multiset(),
{
    batch.shuffle(&mut rand::thread_rng());
}

/// Every bag holds each of the seven types exactly once, so any seven draws
/// that start at a refill take each type once.
pub proof fn lemma_bag_has_each_type_once(s: Seq<TetType>)
    requires
        is_bag(s),
    ensures
        s.len() == 7,
        forall|t: TetType| #[trigger] s.to_multiset().count(t) == 1,
{
    broadcast use vstd::seq_lib::group_to_multiset_ensures;

    let all = all_types();
    assert(all.len() == 7);
    assert(all.no_duplicates());
    all.lemma_multiset_has_no_duplicates();
    assert(s.len() == s.to_multiset().len());
    assert(all.len() == all.to_multiset().len());
    assert forall|t: TetType| #[trigger] s.to_multiset().count(t) == 1 by {
        let k: int = match t {
            TetType::I => 0,
            TetType::J => 1,
            TetType::L => 2,
            TetType::O => 3,
            TetType::S => 4,
            TetType::T => 5,
            TetType::Z => 6,
        };
        assert(all[k] == t);
        assert(all.contains(t));
    }
}

#[derive(Clone, Copy, PartialEq, Eq, Structural, Debug)]
pub enum RotationDir {
    Clockwise,
    CounterClockwise,
}

/// The four orientations of a piece, in clockwise order.
#[derive(Clone, Copy, PartialEq, Eq, Structural, Debug)]
pub enum Rot {
    Zero,
    R,
    Two,
    L,
}

impl Rot {
    /// Position of the orientation in the clockwise cycle.
    pub open spec fn index(self) -> nat {
        match self {
            Rot::Zero => 0,
            Rot::R => 1,
            Rot::Two => 2,
            Rot::L => 3,
        }
    }

    /// The orientation after one quarter turn in the given direction.
    pub open spec fn turned(self, dir: RotationDir) -> Rot {
        match dir {
            RotationDir::Clockwise => match self {
                Rot::Zero => Rot::R,
                Rot::R => Rot::Two,
                Rot::Two => Rot::L,
                Rot::L => Rot::Zero,
            },
            RotationDir::CounterClockwise => match self {
                Rot::Zero => Rot::L,
                Rot::R => Rot::Zero,
                Rot::Two => Rot::R,
                Rot::L => Rot::Two,
            },
        }
    }

    pub fn c(&mut self)
        ensures
            *final(self) == old(self).turned(RotationDir::Clockwise),
            final(self).index() == (old(self).index() + 1) % 4,
    {
        *self = match self {
            Rot::Zero => Rot::R,
            Rot::R => Rot::Two,
            Rot::Two => Rot::L,
            Rot::L => Rot::Zero,
        };
    }

    pub fn cc(&mut self)
        ensures
            *final(self) == old(self).turned(RotationDir::CounterClockwise),
            final(self).index() == (old(self).index() + 3) % 4,
    {
        *self = match self {
            Rot::Zero => Rot::L,
            Rot::R => Rot::Zero,
            Rot::Two => Rot::R,
            Rot::L => Rot::Two,
        };
    }
}

/// The five candidate translations tried, in order, when a piece in
/// orientation `rot` turns in direction `dir`; the I piece has its own table.
pub open spec fn kicks(dir: RotationDir, is_i: bool, rot: Rot) -> Seq<(int, int)> {
    match dir {
        RotationDir::Clockwise => if is_i {
            match rot {
                Rot::Zero => seq![(0, 0), (-2, 0), (1, 0), (-2, 1), (1, -2)],
                Rot::R => seq![(0, 0), (-1, 0), (2, 0), (-1, -2), (2, 1)],
                Rot::Two => seq![(0, 0), (2, 0), (-1, 0), (2, -1), (-1, 2)],
                Rot::L => seq![(0, 0), (1, 0), (-2, 0), (1, 2), (-2, -1)],
            }
        } else {
            match rot {
                Rot::Zero => seq![(0, 0), (-1, 0), (-1, -1), (0, 2), (-1, 2)],
                Rot::R => seq![(0, 0), (1, 0), (1, 1), (0, -2), (1, -2)],
                Rot::Two => seq![(0, 0), (1, 0), (1, -1), (0, 2), (1, 2)],
                Rot::L => seq![(0, 0), (-1, 0), (-1, 1), (0, -2), (-1, -2)],
            }
        },
        RotationDir::CounterClockwise => if is_i {
            match rot {
                Rot::Zero => seq![(0, 0), (-1, 0), (2, 0), (-1, -2), (2, 1)],
                Rot::R => seq![(0, 0), (-2, 0), (1, 0), (-2, 1), (1, -2)],
                Rot::Two => seq![(0, 0), (1, 0), (-2, 0), (1, 2), (-2, -1)],
                Rot::L => seq![(0, 0), (2, 0), (-1, 0), (2, -1), (-1, 2)],
            }
        } else {
            match rot {
                Rot::Zero => seq![(0, 0), (1, 0), (1, -1), (0, 2), (1, 2)],
                Rot::R => seq![(0, 0), (-1, 0), (-1, 1), (0, -2), (1, -2)],
                Rot::Two => seq![(0, 0), (-1, 0), (-1, -1), (0, 2), (-1, 2)],
                Rot::L => seq![(0, 0), (1, 0), (1, 1), (0, -2), (1, -2)],
            }
        },
    }
}

fn kick_row(dir: &RotationDir, is_i: bool, rot: Rot) -> (r: [(i8, i8); 5])
    ensures
        r@.map_values(|k: (i8, i8)| (k.0 as int, k.1 as int)) == kicks(*dir, is_i, rot),
{
    let r = match dir {
        RotationDir::Clockwise => if is_i {
            match rot {
                Rot::Zero => [(0, 0), (-2, 0), (1, 0), (-2, 1), (1, -2)],
                Rot::R => [(0, 0), (-1, 0), (2, 0), (-1, -2), (2, 1)],
                Rot::Two => [(0, 0), (2, 0), (-1, 0), (2, -1), (-1, 2)],
                Rot::L => [(0, 0), (1, 0), (-2, 0), (1, 2), (-2, -1)],
            }
        } else {
            match rot {
                Rot::Zero => [(0, 0), (-1, 0), (-1, -1), (0, 2), (-1, 2)],
                Rot::R => [(0, 0), (1, 0), (1, 1), (0, -2), (1, -2)],
                Rot::Two => [(0, 0), (1, 0), (1, -1), (0, 2), (1, 2)],
                Rot::L => [(0, 0), (-1, 0), (-1, 1), (0, -2), (-1, -2)],
            }
        },
        RotationDir::CounterClockwise => if is_i {
            match rot {
                Rot::Zero => [(0, 0), (-1, 0), (2, 0), (-1, -2), (2, 1)],
                Rot::R => [(0, 0), (-2, 0), (1, 0), (-2, 1), (1, -2)],
                Rot::Two => [(0, 0), (1, 0), (-2, 0), (1, 2), (-2, -1)],
                Rot::L => [(0, 0), (2, 0), (-1, 0), (2, -1), (-1, 2)],
            }
        } else {
            match rot {
                Rot::Zero => [(0, 0), (1, 0), (1, -1), (0, 2), (1, 2)],
                Rot::R => [(0, 0), (-1, 0), (-1, 1), (0, -2), (1, -2)],
                Rot::Two => [(0, 0), (-1, 0), (-1, -1), (0, 2), (-1, 2)],
                Rot::L => [(0, 0), (1, 0), (1, 1), (0, -2), (1, -2)],
            }
        },
    };
    assert(r@.map_values(|k: (i8, i8)| (k.0 as int, k.1 as int)) =~= kicks(*dir, is_i, rot));
    r
}

/// A quarter turn of one block offset inside an `n`-by-`n` square.
pub open spec fn turn(p: Point, dir: RotationDir, n: int) -> Point {
    match dir {
        RotationDir::Clockwise => cw(p, n),
        RotationDir::CounterClockwise => ccw(p, n),
    }
}

/// The four block offsets after a quarter turn.
pub open spec fn turn_blocks(b: [Point; 4], dir: RotationDir, n: int) -> [Point; 4] {
    [turn(b[0], dir, n), turn(b[1], dir, n), turn(b[2], dir, n), turn(b[3], dir, n)]
}

/// Column `x`, row `y` lies within the side walls, above the floor, and is
/// not occupied. Rows above the top of the grid are free.
pub open spec fn cell_free(board: Grid, x: int, y: int) -> bool {
    0 <= x < TILES_WIDE && y < TILES_HIGH && grid_cell(board, y, x) is None
}

/// Every block, placed at `pos` and moved by `(dx, dy)`, lands on a free cell.
pub open spec fn fits_at(board: Grid, blocks: Seq<Point>, pos: Point, dx: int, dy: int) -> bool {
    forall|i: int|
        0 <= i < blocks.len() ==> cell_free(
            board,
            pos.x + (#[trigger] blocks[i]).x + dx,
            pos.y + blocks[i].y + dy,
        )
}

/// A piece: its shape, the offsets of its four blocks, the anchor that the
/// offsets are relative to, and its orientation.
#[derive(Clone, Copy, Debug)]
pub struct Tet {
    pub tet_type: TetType,
    pub blocks: [Point; 4],
    pub pos: Point,
    pub rot: Rot,
}

impl Tet {
    /// The blocks are those of the shape in the piece's orientation.
    pub open spec fn wf(&self) -> bool {
        self.blocks@ == shape(self.tet_type, self.rot.index())
    }

    /// The piece with its anchor moved by `(dx, dy)`.
    pub open spec fn moved(self, dx: int, dy: int) -> Tet {
        Tet { pos: Point { x: (self.pos.x + dx) as i8, y: (self.pos.y + dy) as i8 }, ..self }
    }

    /// Moving the piece by `(dx, dy)` puts every block on a free cell.
    pub open spec fn can_move(self, board: Grid, dx: int, dy: int) -> bool {
        fits_at(board, self.blocks@, self.pos, dx, dy)
    }

    /// Every block of the piece is on a free cell.
    pub open spec fn fits(self, board: Grid) -> bool {
        self.can_move(board, 0, 0)
    }

    /// The candidates for a turn from the piece's current orientation.
    pub open spec fn kick_table(self, dir: RotationDir) -> Seq<(int, int)> {
        kicks(dir, self.tet_type == TetType::I, self.rot)
    }

    /// Candidate `k` of the kick table takes the turned blocks to free cells,
    /// with the anchor still representable.
    pub open spec fn kick_fits(self, dir: RotationDir, board: Grid, k: int) -> bool {
        let d = self.kick_table(dir)[k];
        &&& fits_at(board, turn_blocks(self.blocks, dir, pivot(self.tet_type))@, self.pos, d.0, d.1)
        &&& self.pos.y + d.1 >= i8::MIN
    }

    /// The first candidate, from `k` on, that fits.
    pub open spec fn first_kick(self, dir: RotationDir, board: Grid, k: int) -> Option<int>
        decreases 5 - k,
    {
        if k >= 5 || k < 0 {
            None
        } else if self.kick_fits(dir, board, k) {
            Some(k)
        } else {
            self.first_kick(dir, board, k + 1)
        }
    }

    /// Whether a quarter turn in direction `dir` succeeds.
    pub open spec fn can_rotate(self, dir: RotationDir, board: Grid) -> bool {
        self.tet_type == TetType::O || self.first_kick(dir, board, 0) is Some
    }

    /// The piece after an attempt to turn it in direction `dir`: unchanged
    /// for the O piece or when no candidate fits, otherwise turned and moved
    /// by the first candidate that fits.
    pub open spec fn rotated(self, dir: RotationDir, board: Grid) -> Tet {
        if self.tet_type == TetType::O {
            self
        } else {
            match self.first_kick(dir, board, 0) {
                Some(k) => Tet {
                    tet_type: self.tet_type,
                    blocks: turn_blocks(self.blocks, dir, pivot(self.tet_type)),
                    pos: Point {
                        x: (self.pos.x + self.kick_table(dir)[k].0) as i8,
                        y: (self.pos.y + self.kick_table(dir)[k].1) as i8,
                    },
                    rot: self.rot.turned(dir),
                },
                None => self,
            }
        }
    }

    /// The piece after `n` successive attempts to turn it in direction `dir`.
    pub open spec fn rotated_times(self, dir: RotationDir, board: Grid, n: nat) -> Tet
        decreases n,
    {
        if n == 0 {
            self
        } else {
            self.rotated_times(dir, board, (n - 1) as nat).rotated(dir, board)
        }
    }

    pub fn new(tet_type: TetType, pos: Point) -> (r: Self)
        ensures
            r == (Tet { tet_type, blocks: tet_type.base_blocks(), pos, rot: Rot::Zero }),
            r.wf(),
    {
        Self { tet_type, pos, blocks: tet_type.blocks(), rot: Rot::Zero }
    }

    pub fn at_bottom(&self, tets: &Tets) -> (r: bool)
        requires
            self.wf(),
        ensures
            r == !self.can_move(tets@, 0, 1),
    {
        proof {
            lemma_shape_in_box(self.tet_type, self.rot.index());
        }
        !room_for(tets, &self.blocks, self.pos, 0, 1)
    }

    pub fn fall(&mut self, tets: &Tets) -> (r: bool)
        requires
            old(self).wf(),
        ensures
            r == old(self).can_move(tets@, 0, 1),
            *final(self) == if r {
                old(self).moved(0, 1)
            } else {
                *old(self)
            },
            final(self).wf(),
    {
        proof {
            lemma_shape_in_box(self.tet_type, self.rot.index());
        }
        if !room_for(tets, &self.blocks, self.pos, 0, 1) {
            return false;
        }
        assert(in_box(self.blocks@[0], 4));
        self.pos.y = self.pos.y + 1;
        true
    }

    pub fn move_left(&mut self, tets: &Tets) -> (r: bool)
        requires
            old(self).wf(),
        ensures
            r == old(self).can_move(tets@, -1, 0),
            *final(self) == if r {
                old(self).moved(-1, 0)
            } else {
                *old(self)
            },
            final(self).wf(),
    {
        proof {
            lemma_shape_in_box(self.tet_type, self.rot.index());
        }
        if !room_for(tets, &self.blocks, self.pos, -1, 0) {
            return false;
        }
        assert(in_box(self.blocks@[0], 4));
        self.pos.x = self.pos.x - 1;
        true
    }

    pub fn move_right(&mut self, tets: &Tets) -> (r: bool)
        requires
            old(self).wf(),
        ensures
            r == old(self).can_move(tets@, 1, 0),
            *final(self) == if r {
                old(self).moved(1, 0)
            } else {
                *old(self)
            },
            final(self).wf(),
    {
        proof {
            lemma_shape_in_box(self.tet_type, self.rot.index());
        }
        if !room_for(tets, &self.blocks, self.pos, 1, 0) {
            return false;
        }
        assert(in_box(self.blocks@[0], 4));
        self.pos.x = self.pos.x + 1;
        true
    }

    /// The blocks turned by a quarter turn around the shape's pivot square.
    fn rotate_blocks(&self, dir: &RotationDir) -> (r: [Point; 4])
        requires
            all_in_box(self.blocks@, pivot(self.tet_type)),
        ensures
            r == turn_blocks(self.blocks, *dir, pivot(self.tet_type)),
    {
        let n: i8 = match self.tet_type {
            TetType::I => 4,
            _ => 3,
        };
        let b = self.blocks;
        assert(in_box(b@[0], n as int) && in_box(b@[1], n as int) && in_box(b@[2], n as int)
            && in_box(b@[3], n as int));
        match dir {
            RotationDir::Clockwise => [
                Point::new(n - 1 - b[0].y, b[0].x),
                Point::new(n - 1 - b[1].y, b[1].x),
                Point::new(n - 1 - b[2].y, b[2].x),
                Point::new(n - 1 - b[3].y, b[3].x),
            ],
            RotationDir::CounterClockwise => [
                Point::new(b[0].y, n - 1 - b[0].x),
                Point::new(b[1].y, n - 1 - b[1].x),
                Point::new(b[2].y, n - 1 - b[2].x),
                Point::new(b[3].y, n - 1 - b[3].x),
            ],
        }
    }

    pub fn rotate(&mut self, dir: RotationDir, tets: &Tets) -> (r: bool)
        requires
            old(self).wf(),
        ensures
            r == old(self).can_rotate(dir, tets@),
            *final(self) == old(self).rotated(dir, tets@),
            final(self).wf(),
            old(self).tet_type == TetType::O ==> r && *final(self) == *old(self),
    {
        if let TetType::O = self.tet_type {
            return true;
        }
        proof {
            lemma_shape_in_box(self.tet_type, self.rot.index());
            lemma_turn_keeps_shape(self.tet_type, self.rot, dir);
        }
        let moved_blocks = self.rotate_blocks(&dir);
        assert(all_in_box(moved_blocks@, 4));
        let tests = kick_row(&dir, self.tet_type == TetType::I, self.rot);
        let ghost start = *self;
        let mut k: usize = 0;
        while k < 5
            invariant
                k <= 5,
                *self == start,
                start == *old(self),
                start.wf(),
                start.tet_type != TetType::O,
                moved_blocks == turn_blocks(start.blocks, dir, pivot(start.tet_type)),
                all_in_box(moved_blocks@, 4),
                tests@.map_values(|d: (i8, i8)| (d.0 as int, d.1 as int)) == start.kick_table(dir),
                start.first_kick(dir, tets@, 0) == start.first_kick(dir, tets@, k as int),
            decreases 5 - k,
        {
            let (dx, dy) = tests[k];
            assert(tests@.map_values(|d: (i8, i8)| (d.0 as int, d.1 as int))[k as int] == (
            dx as int, dy as int));
            if self.pos.y as i16 + dy as i16 >= i8::MIN as i16 && room_for(
                tets,
                &moved_blocks,
                self.pos,
                dx,
                dy,
            ) {
                self.blocks = moved_blocks;
                self.pos.x = self.pos.x + dx;
                self.pos.y = self.pos.y + dy;
                match dir {
                    RotationDir::Clockwise => self.rot.c(),
                    RotationDir::CounterClockwise => self.rot.cc(),
                }
                proof {
                    lemma_turn_keeps_shape(start.tet_type, start.rot, dir);
                }
                return true;
            }
            k += 1;
        }
        false
    }
}

/// A move that `can_move` allows leaves the piece on free cells.
pub proof fn lemma_moved_fits(t: Tet, board: Grid, dx: int, dy: int)
    requires
        t.wf(),
        t.can_move(board, dx, dy),
        -1 <= dx <= 1,
        0 <= dy <= 1,
    ensures
        t.moved(dx, dy).fits(board),
        t.moved(dx, dy).wf(),
{
    lemma_shape_in_box(t.tet_type, t.rot.index());
    assert(in_box(t.blocks@[0], 4));
    assert(t.blocks@[0] == t.blocks[0]);
}

/// A turn keeps a piece that fits on free cells, and keeps it well formed.
pub proof fn lemma_rotated_fits(t: Tet, dir: RotationDir, board: Grid)
    requires
        t.wf(),
        t.fits(board),
    ensures
        t.rotated(dir, board).fits(board),
        t.rotated(dir, board).wf(),
{
    if t.tet_type != TetType::O {
        lemma_shape_in_box(t.tet_type, t.rot.index());
        lemma_turn_keeps_shape(t.tet_type, t.rot, dir);
        lemma_shape_in_box(t.tet_type, t.rot.turned(dir).index());
        match t.first_kick(dir, board, 0) {
            Some(k) => {
                lemma_first_kick_fits(t, dir, board, 0);
                let nb = turn_blocks(t.blocks, dir, pivot(t.tet_type));
                assert(in_box(nb@[0], 4));
            },
            None => {},
        }
    }
}

proof fn lemma_first_kick_fits(t: Tet, dir: RotationDir, board: Grid, k: int)
    ensures
        t.first_kick(dir, board, k) matches Some(j) ==> t.kick_fits(dir, board, j) && 0 <= j < 5,
    decreases 5 - k,
{
    if 0 <= k < 5 && !t.kick_fits(dir, board, k) {
        lemma_first_kick_fits(t, dir, board, k + 1);
    }
}

/// Four quarter turns in the same direction, none of which needs a kick
/// (the untranslated candidate fits each time), give back the same piece:
/// the same block offsets, orientation and position.
pub proof fn lemma_four_turns_restore(t: Tet, dir: RotationDir, board: Grid)
    requires
        t.wf(),
        forall|j: nat| j < 4 ==> #[trigger] t.rotated_times(dir, board, j).kick_fits(dir, board, 0),
    ensures
        t.rotated_times(dir, board, 4) == t,
{
    if t.tet_type == TetType::O {
        lemma_o_turns_unchanged(t, dir, board, 4);
    } else {
        lemma_kick_free_turns(t, dir, board, 4);
        let t4 = t.rotated_times(dir, board, 4);
        let r1 = t.rot.turned(dir);
        let r2 = r1.turned(dir);
        let r3 = r2.turned(dir);
        assert(rot_after(t.rot, dir, 0) == t.rot);
        assert(rot_after(t.rot, dir, 1) == r1);
        assert(rot_after(t.rot, dir, 2) == r2);
        assert(rot_after(t.rot, dir, 3) == r3);
        assert(t4.rot == r3.turned(dir));
        assert(t4.rot == t.rot);
        assert(t4.blocks =~= t.blocks);
    }
}

/// The orientation after `n` quarter turns in direction `dir`.
pub open spec fn rot_after(r: Rot, dir: RotationDir, n: nat) -> Rot
    decreases n,
{
    if n == 0 {
        r
    } else {
        rot_after(r, dir, (n - 1) as nat).turned(dir)
    }
}

proof fn lemma_o_turns_unchanged(t: Tet, dir: RotationDir, board: Grid, n: nat)
    requires
        t.tet_type == TetType::O,
    ensures
        t.rotated_times(dir, board, n) == t,
    decreases n,
{
    if n > 0 {
        lemma_o_turns_unchanged(t, dir, board, (n - 1) as nat);
    }
}

proof fn lemma_kick_free_turns(t: Tet, dir: RotationDir, board: Grid, n: nat)
    requires
        t.wf(),
        t.tet_type != TetType::O,
        n <= 4,
        forall|j: nat| j < 4 ==> #[trigger] t.rotated_times(dir, board, j).kick_fits(dir, board, 0),
    ensures
        t.rotated_times(dir, board, n).wf(),
        t.rotated_times(dir, board, n).pos == t.pos,
        t.rotated_times(dir, board, n).tet_type == t.tet_type,
        t.rotated_times(dir, board, n).rot == rot_after(t.rot, dir, n),
    decreases n,
{
    if n > 0 {
        let m = (n - 1) as nat;
        lemma_kick_free_turns(t, dir, board, m);
        let tm = t.rotated_times(dir, board, m);
        assert(tm.kick_fits(dir, board, 0));
        lemma_kick_free_turn(tm, dir, board);
    }
}

/// A turn whose untranslated candidate fits keeps the anchor, turns the
/// orientation and keeps the blocks in step with it.
proof fn lemma_kick_free_turn(t: Tet, dir: RotationDir, board: Grid)
    requires
        t.wf(),
        t.tet_type != TetType::O,
        t.kick_fits(dir, board, 0),
    ensures
        t.rotated(dir, board).wf(),
        t.rotated(dir, board).pos == t.pos,
        t.rotated(dir, board).rot == t.rot.turned(dir),
        t.rotated(dir, board).tet_type == t.tet_type,
{
    assert(t.first_kick(dir, board, 0) == Some(0int));
    lemma_turn_keeps_shape(t.tet_type, t.rot, dir);
}

/// Whether every block of `blocks`, placed at `pos` and moved by `(dx, dy)`,
/// lands on a free cell.
fn room_for(tets: &Tets, blocks: &[Point; 4], pos: Point, dx: i8, dy: i8) -> (r: bool)
    requires
        all_in_box(blocks@, 4),
        -2 <= dx <= 2,
        -2 <= dy <= 2,
    ensures
        r == fits_at(tets@, blocks@, pos, dx as int, dy as int),
{
    let mut i: usize = 0;
    while i < 4
        invariant
            i <= 4,
            all_in_box(blocks@, 4),
            -2 <= dx <= 2,
            -2 <= dy <= 2,
            forall|j: int|
                0 <= j < i ==> cell_free(
                    tets@,
                    pos.x + (#[trigger] blocks@[j]).x + dx,
                    pos.y + blocks@[j].y + dy,
                ),
        decreases 4 - i,
    {
        let b = blocks[i];
        assert(in_box(blocks@[i as int], 4));
        let x: i16 = pos.x as i16 + b.x as i16 + dx as i16;
        let y: i16 = pos.y as i16 + b.y as i16 + dy as i16;
        if x < 0 || x >= TILES_WIDE as i16 || y >= TILES_HIGH as i16 {
            return false;
        }
        if y >= 0 && tets.at(y as i8, x as i8).is_some() {
            return false;
        }
        i += 1;
    }
    true
}

/// Every orientation of a shape stays inside its pivot square.
pub(crate) proof fn lemma_shape_in_box(t: TetType, turns: nat)
    ensures
        shape(t, turns).len() == 4,
        all_in_box(shape(t, turns), pivot(t)),
        all_in_box(shape(t, turns), 4),
    decreases turns,
{
    if turns > 0 {
        lemma_shape_in_box(t, (turns - 1) as nat);
    }
}

/// Four clockwise quarter turns bring every shape back.
proof fn lemma_shape_period(t: TetType)
    ensures
        shape(t, 4) == shape(t, 0),
{
    let n = pivot(t);
    lemma_shape_in_box(t, 0);
    let s0 = shape(t, 0);
    let s1 = shape(t, 1);
    let s2 = shape(t, 2);
    let s3 = shape(t, 3);
    let s4 = shape(t, 4);
    assert forall|i: int| 0 <= i < 4 implies #[trigger] s4[i] == s0[i] by {
        assert(s1[i] == cw(s0[i], n));
        assert(s2[i] == cw(s1[i], n));
        assert(s3[i] == cw(s2[i], n));
        assert(s4[i] == cw(s3[i], n));
    }
    assert(s4 =~= s0);
}

/// A quarter turn of a piece in orientation `rot` gives the shape of the
/// orientation it turns to.
proof fn lemma_turn_keeps_shape(t: TetType, rot: Rot, dir: RotationDir)
    ensures
        forall|b: [Point; 4]|
            b@ == shape(t, rot.index()) ==> (#[trigger] turn_blocks(b, dir, pivot(t)))@ == shape(
                t,
                rot.turned(dir).index(),
            ),
{
    let n = pivot(t);
    let r = rot.index();
    lemma_shape_period(t);
    lemma_shape_in_box(t, r);
    lemma_shape_in_box(t, 3);
    assert forall|b: [Point; 4]| b@ == shape(t, r) implies (#[trigger] turn_blocks(
        b,
        dir,
        n,
    ))@ == shape(t, rot.turned(dir).index()) by {
        let nb = turn_blocks(b, dir, n);
        let target = shape(t, rot.turned(dir).index());
        match dir {
            RotationDir::Clockwise => {
                let s = shape(t, r + 1);
                assert forall|i: int| 0 <= i < 4 implies #[trigger] nb@[i] == s[i] by {
                    assert(b@[i] == b[i]);
                }
                assert(nb@ =~= s);
                if r == 3 {
                    assert(s == shape(t, 4));
                }
            },
            RotationDir::CounterClockwise => {
                let prev: nat = if r == 0 {
                    3
                } else {
                    (r - 1) as nat
                };
                let sp = shape(t, prev);
                lemma_shape_in_box(t, prev);
                assert(shape(t, prev + 1) == sp.map_values(|p: Point| cw(p, n)));
                if r == 0 {
                    assert(shape(t, prev + 1) == shape(t, 4));
                }
                assert forall|i: int| 0 <= i < 4 implies #[trigger] nb@[i] == sp[i] by {
                    assert(b@[i] == b[i]);
                    assert(in_box(sp[i], n));
                    assert(b[i] == cw(sp[i], n));
                }
                assert(nb@ =~= sp);
            },
        }
    }
}

} // verus!
