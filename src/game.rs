use vstd::prelude::*;

use crate::board::{blank_row, grid_set, grid_wf, row_is_full, Grid};
pub use crate::board::{Tets, TILES_HIGH, TILES_WIDE};
use crate::tet::{
    is_bag, lemma_moved_fits, lemma_rotated_fits, lemma_shape_in_box, Point, Rot, RotationDir, Tet,
    TetType,
};

verus! {

broadcast use vstd::array::group_array_axioms;

/// Column of the anchor of a newly spawned piece.
pub const SPAWN_X: i8 = 3;

/// Row of the anchor of a newly spawned piece.
pub const SPAWN_Y: i8 = 0;

// All durations are in microseconds.
/// Fall timer of the first piece of a game.
pub const NORMAL_INTERVAL: u64 = 1_000_000;

/// Grace period once a piece rests on the stack or the floor.
pub const LOCK_DELAY: u64 = 500_000;

/// Fall interval while soft drop is held.
pub const SOFT_DROP_INTERVAL: u64 = 100_000;

/// Wait between a lock and the next spawn.
pub const SPAWN_INTERVAL: u64 = 0;

/// Delay before a held horizontal move starts repeating.
pub const MOVE_WAIT: u64 = 300_000;

/// Interval between repeated horizontal moves.
pub const MOVE_INTERVAL: u64 = 70_000;

/// Highest level.
pub const MAX_LEVEL: u64 = 20;

#[derive(Clone, Copy, PartialEq, Eq, Structural, Debug)]
pub enum FallMode {
    Normal,
    SoftDrop,
}

/// The direction of a held horizontal move.
#[derive(Clone, Copy, PartialEq, Eq, Structural, Debug)]
pub enum Moving {
    Left,
    Right,
    /// No horizontal move is held.
    Still,
}

#[derive(Clone, Copy, PartialEq, Eq, Structural, Debug)]
pub enum GameState {
    Playing,
    Dead,
}

/// What a countdown timer shows after time has passed.
#[derive(Clone, Copy, PartialEq, Eq, Structural, Debug)]
pub enum TimerState {
    Ticking(u64),
    Done,
}

/// Counts `rhs` off the timer `lhs`: done once nothing is left.
pub fn decrement(lhs: u64, rhs: u64) -> (r: TimerState)
    ensures
        r == (if lhs <= rhs {
            TimerState::Done
        } else {
            TimerState::Ticking((lhs - rhs) as u64)
        }),
{
    if lhs < rhs || lhs - rhs == 0 {
        TimerState::Done
    } else {
        TimerState::Ticking(lhs - rhs)
    }
}

/// Level reached after clearing `lines` rows.
pub open spec fn level_for(lines: u64) -> u64 {
    if lines / 10 + 1 < MAX_LEVEL {
        (lines / 10 + 1) as u64
    } else {
        MAX_LEVEL
    }
}

/// Points for clearing `clears` rows at once at level `level`.
pub open spec fn line_points(level: u64, clears: u64) -> u64 {
    match clears {
        1 => (level * 100) as u64,
        2 => (level * 300) as u64,
        3 => (level * 500) as u64,
        4 => (level * 800) as u64,
        _ => 0,
    }
}

/// Fall interval of each level: the time per row is
/// `(0.8 - (level - 1) * 0.007) ^ (level - 1)` seconds, in whole milliseconds.
pub open spec fn normal_interval(level: u64) -> u64 {
    match level {
        0 => 1_239_000,
        1 => 1_000_000,
        2 => 793_000,
        3 => 617_000,
        4 => 472_000,
        5 => 355_000,
        6 => 262_000,
        7 => 189_000,
        8 => 134_000,
        9 => 93_000,
        10 => 64_000,
        11 => 42_000,
        12 => 28_000,
        13 => 18_000,
        14 => 11_000,
        15 => 7_000,
        16 => 4_000,
        17 => 2_000,
        18 => 1_000,
        _ => 0,
    }
}

/// Points for clearing `clears` rows at once at level `level`.
pub fn line_clear_points(level: u64, clears: u64) -> (r: u64)
    requires
        level <= u64::MAX / 800,
    ensures
        r == line_points(level, clears),
{
    match clears {
        1 => level * 100,
        2 => level * 300,
        3 => level * 500,
        4 => level * 800,
        _ => 0,
    }
}

fn normal_interval_at(level: u64) -> (r: u64)
    ensures
        r == normal_interval(level),
{
    match level {
        0 => 1_239_000,
        1 => 1_000_000,
        2 => 793_000,
        3 => 617_000,
        4 => 472_000,
        5 => 355_000,
        6 => 262_000,
        7 => 189_000,
        8 => 134_000,
        9 => 93_000,
        10 => 64_000,
        11 => 42_000,
        12 => 28_000,
        13 => 18_000,
        14 => 11_000,
        15 => 7_000,
        16 => 4_000,
        17 => 2_000,
        18 => 1_000,
        _ => 0,
    }
}

/// A piece of type `t` as it spawns.
pub open spec fn spawn_piece(t: TetType) -> Tet {
    Tet { tet_type: t, blocks: t.base_blocks(), pos: Point { x: SPAWN_X, y: SPAWN_Y }, rot: Rot::Zero }
}

/// The grid with the first `n` blocks of the piece written in; blocks
/// outside the grid are left out.
pub open spec fn stamp(g: Grid, t: Tet, n: int) -> Grid
    decreases n,
{
    if n <= 0 {
        g
    } else {
        let prev = stamp(g, t, n - 1);
        let b = t.blocks[n - 1];
        let x = t.pos.x + b.x;
        let y = t.pos.y + b.y;
        if 0 <= y < TILES_HIGH && 0 <= x < TILES_WIDE {
            grid_set(prev, y, x, t.tet_type)
        } else {
            prev
        }
    }
}

/// Number of full rows of a grid.
pub open spec fn full_rows(g: Grid) -> nat
    decreases g.len(),
{
    if g.len() == 0 {
        0
    } else {
        full_rows(g.drop_last()) + if row_is_full(g.last()) {
            1nat
        } else {
            0nat
        }
    }
}

/// The rows of a grid that are not full, in order.
pub open spec fn kept_rows(g: Grid) -> Grid
    decreases g.len(),
{
    if g.len() == 0 {
        g
    } else if row_is_full(g.last()) {
        kept_rows(g.drop_last())
    } else {
        kept_rows(g.drop_last()).push(g.last())
    }
}

/// The grid with every full row removed and as many blank rows added on top.
pub open spec fn collapsed(g: Grid) -> Grid {
    Seq::new(full_rows(g), |i: int| blank_row()) + kept_rows(g)
}

proof fn lemma_full_kept_len(g: Grid)
    ensures
        full_rows(g) + kept_rows(g).len() == g.len(),
    decreases g.len(),
{
    if g.len() > 0 {
        lemma_full_kept_len(g.drop_last());
    }
}

proof fn lemma_kept_rows_wide(g: Grid)
    requires
        forall|r: int| 0 <= r < g.len() ==> (#[trigger] g[r]).len() == TILES_WIDE,
    ensures
        forall|r: int| 0 <= r < kept_rows(g).len() ==> (#[trigger] kept_rows(g)[r]).len() == TILES_WIDE,
    decreases g.len(),
{
    if g.len() > 0 {
        let d = g.drop_last();
        assert forall|r: int| 0 <= r < d.len() implies (#[trigger] d[r]).len() == TILES_WIDE by {
            assert(d[r] == g[r]);
        }
        lemma_kept_rows_wide(d);
        assert(g.last() == g[g.len() - 1]);
        let k = kept_rows(g);
        let kd = kept_rows(d);
        assert forall|r: int| 0 <= r < k.len() implies (#[trigger] k[r]).len() == TILES_WIDE by {
            if !row_is_full(g.last()) {
                assert(k == kd.push(g.last()));
                if r < kd.len() {
                    assert(k[r] == kd[r]);
                }
            }
        }
    }
}

/// Clearing the full rows of a well-formed grid gives a well-formed grid.
proof fn lemma_collapsed_wf(g: Grid)
    requires
        grid_wf(g),
    ensures
        grid_wf(collapsed(g)),
{
    lemma_full_kept_len(g);
    lemma_kept_rows_wide(g);
    let c = collapsed(g);
    let f = full_rows(g) as int;
    assert forall|r: int| 0 <= r < TILES_HIGH implies (#[trigger] c[r]).len() == TILES_WIDE by {
        if r >= f {
            assert(c[r] == kept_rows(g)[r - f]);
        }
    }
}

proof fn lemma_stamp_wf(g: Grid, t: Tet, n: int)
    requires
        grid_wf(g),
    ensures
        grid_wf(stamp(g, t, n)),
    decreases n,
{
    if n > 0 {
        lemma_stamp_wf(g, t, n - 1);
    }
}

/// Writes the blocks of `t` into the grid.
fn stamp_piece(tets: &mut Tets, t: &Tet)
    ensures
        final(tets)@ == stamp(old(tets)@, *t, 4),
{
    let mut i: usize = 0;
    while i < 4
        invariant
            i <= 4,
            tets@ == stamp(old(tets)@, *t, i as int),
        decreases 4 - i,
    {
        let b = t.blocks[i];
        let y: i16 = t.pos.y as i16 + b.y as i16;
        let x: i16 = t.pos.x as i16 + b.x as i16;
        if 0 <= y && y < TILES_HIGH as i16 && 0 <= x && x < TILES_WIDE as i16 {
            tets.set(y as i8, x as i8, t.tet_type);
        }
        i += 1;
    }
}

/// Clears every full row, top to bottom, and counts them.
fn clear_full_rows(tets: &mut Tets) -> (clears: u64)
    requires
        grid_wf(old(tets)@),
    ensures
        final(tets)@ == collapsed(old(tets)@),
        clears == full_rows(old(tets)@),
{
    let ghost g = tets@;
    let mut clears: u64 = 0;
    let mut row: usize = 0;
    proof {
        assert(g.subrange(0, 0) =~= Seq::<Seq<Option<TetType>>>::empty());
        assert(collapsed(g.subrange(0, 0)) =~= Seq::<Seq<Option<TetType>>>::empty());
        assert(tets@ =~= collapsed(g.subrange(0, 0)) + g.subrange(0, TILES_HIGH as int));
    }
    while row < TILES_HIGH
        invariant
            row <= TILES_HIGH,
            grid_wf(g),
            tets@ == collapsed(g.subrange(0, row as int)) + g.subrange(row as int, TILES_HIGH as int),
            clears == full_rows(g.subrange(0, row as int)),
            clears <= row,
        decreases TILES_HIGH - row,
    {
        let ghost p = g.subrange(0, row as int);
        let ghost p1 = g.subrange(0, row as int + 1);
        let ghost rest = g.subrange(row as int + 1, TILES_HIGH as int);
        proof {
            lemma_full_kept_len(p);
            assert(p1.drop_last() =~= p);
            assert(p1.last() == g[row as int]);
            assert(collapsed(p).len() == row);
            assert(tets@[row as int] == g[row as int]);
        }
        if tets.row_full(row as i8) {
            let ghost cur = tets@;
            tets.clear(row as i8);
            clears += 1;
            proof {
                assert(cur.subrange(0, row as int) =~= collapsed(p));
                assert(cur.subrange(row as int + 1, TILES_HIGH as int) =~= rest);
                assert(collapsed(p1) =~= seq![blank_row()] + collapsed(p));
            }
        } else {
            proof {
                assert(collapsed(p1) =~= collapsed(p).push(g[row as int]));
            }
        }
        proof {
            assert(tets@ =~= collapsed(p1) + rest);
        }
        row += 1;
    }
    proof {
        assert(g.subrange(0, TILES_HIGH as int) =~= g);
        assert(tets@ =~= collapsed(g));
    }
    clears
}

/// Where a piece comes to rest when it falls straight down. (A piece with
/// its anchor below the floor cannot fall in any case.)
pub open spec fn landed(t: Tet, g: Grid) -> Tet
    decreases TILES_HIGH - t.pos.y,
{
    if t.pos.y < TILES_HIGH && t.can_move(g, 0, 1) {
        landed(t.moved(0, 1), g)
    } else {
        t
    }
}

/// The discrete inputs of a session.
#[derive(Clone, Copy, PartialEq, Eq, Structural, Debug)]
pub enum Key {
    Left,
    Right,
    RotateCw,
    RotateCcw,
    HardDrop,
    SoftDrop,
    Hold,
    Restart,
}

/// The model of a game session.
#[verifier::ext_equal]
pub struct GameView {
    pub state: GameState,
    pub score: u64,
    pub lines: u64,
    pub board: Grid,
    pub current: Tet,
    pub has_tet: bool,
    pub next_batch: Seq<TetType>,
    pub next_tet: usize,
    pub held: Option<TetType>,
    pub already_held: bool,
    pub fall_timer: u64,
    pub fall_mode: FallMode,
    pub spawn_timer: u64,
    pub move_timer: u64,
    pub moving: Moving,
}

impl GameView {
    /// The invariant of every reachable session.
    pub open spec fn wf(self) -> bool {
        &&& grid_wf(self.board)
        &&& self.current.wf()
        &&& self.next_tet < 7
        &&& is_bag(self.next_batch)
        &&& self.state == GameState::Dead ==> !self.has_tet
        &&& self.has_tet ==> self.current.fits(self.board)
    }

    /// A fresh session that draws from `batch`, its first piece active.
    pub open spec fn initial(batch: Seq<TetType>) -> GameView {
        GameView {
            state: GameState::Playing,
            score: 0,
            lines: 0,
            board: Seq::new(TILES_HIGH as nat, |i: int| blank_row()),
            current: spawn_piece(batch[0]),
            has_tet: true,
            next_batch: batch,
            next_tet: 1,
            held: None,
            already_held: false,
            fall_timer: NORMAL_INTERVAL,
            fall_mode: FallMode::Normal,
            spawn_timer: SPAWN_INTERVAL,
            move_timer: MOVE_WAIT,
            moving: Moving::Still,
        }
    }

    pub open spec fn level(self) -> u64 {
        level_for(self.lines)
    }

    pub open spec fn fall_interval(self) -> u64 {
        match self.fall_mode {
            FallMode::Normal => normal_interval(self.level()),
            FallMode::SoftDrop => SOFT_DROP_INTERVAL,
        }
    }

    /// The type that the queue hands out next.
    pub open spec fn upcoming(self) -> TetType {
        self.next_batch[self.next_tet as int]
    }

    /// A piece of type `t` put at the spawn position; the game ends if it
    /// does not fit.
    pub open spec fn spawned(self, t: TetType) -> GameView {
        let piece = spawn_piece(t);
        if piece.fits(self.board) {
            GameView { current: piece, has_tet: true, ..self }
        } else {
            GameView { current: piece, has_tet: false, state: GameState::Dead, ..self }
        }
    }

    /// The queue moved on by one; a finished bag is replaced by `fresh`.
    pub open spec fn queue_advanced(self, fresh: Seq<TetType>) -> GameView {
        let n = ((self.next_tet + 1) % 7) as usize;
        GameView {
            next_tet: n,
            next_batch: if n == 0 {
                fresh
            } else {
                self.next_batch
            },
            ..self
        }
    }

    /// The active piece merged into the board, full rows cleared and scored
    /// at the level before the clear.
    pub open spec fn locked(self) -> GameView {
        let merged = stamp(self.board, self.current, 4);
        let clears = full_rows(merged) as u64;
        GameView {
            board: collapsed(merged),
            score: self.score.saturating_add(line_points(self.level(), clears)),
            lines: self.lines.saturating_add(clears),
            has_tet: false,
            spawn_timer: SPAWN_INTERVAL,
            ..self
        }
    }

    /// The active piece dropped as far as it goes, two points per row, then
    /// locked; the fall timer restarts at the interval of the new level.
    pub open spec fn hard_dropped(self) -> GameView {
        let t = landed(self.current, self.board);
        let dropped = GameView {
            current: t,
            score: self.score.saturating_add((2 * (t.pos.y - self.current.pos.y)) as u64),
            ..self
        };
        let g = dropped.locked();
        GameView { fall_timer: g.fall_interval(), ..g }
    }

    /// The active piece moved one column by `dx` if there is room; if it then
    /// rests on the stack or the floor, the lock delay restarts.
    pub open spec fn shifted(self, dx: int) -> GameView {
        if self.current.can_move(self.board, dx, 0) {
            let t = self.current.moved(dx, 0);
            GameView {
                current: t,
                fall_timer: if !t.can_move(self.board, 0, 1) {
                    LOCK_DELAY
                } else {
                    self.fall_timer
                },
                ..self
            }
        } else {
            self
        }
    }

    /// The active piece turned in direction `dir` if it can be; if it then
    /// rests on the stack or the floor, the lock delay restarts.
    pub open spec fn turned(self, dir: RotationDir) -> GameView {
        if self.current.can_rotate(dir, self.board) {
            let t = self.current.rotated(dir, self.board);
            GameView {
                current: t,
                fall_timer: if !t.can_move(self.board, 0, 1) {
                    LOCK_DELAY
                } else {
                    self.fall_timer
                },
                ..self
            }
        } else {
            self
        }
    }

    /// The active piece goes to the hold slot; the piece held before, or else
    /// the next one of the queue, spawns.
    pub open spec fn held_swap(self, fresh: Seq<TetType>) -> GameView {
        let g = GameView { already_held: true, held: Some(self.current.tet_type), ..self };
        match self.held {
            Some(h) => g.spawned(h),
            None => g.spawned(self.upcoming()).queue_advanced(fresh),
        }
    }

    /// Gravity while a piece is active: once the fall timer runs out, a point
    /// if soft drop is on, then the piece falls a row or, if it cannot, locks.
    pub open spec fn gravity(self, delta: u64) -> GameView {
        if self.fall_timer > delta {
            GameView { fall_timer: (self.fall_timer - delta) as u64, ..self }
        } else {
            let g = if self.fall_mode == FallMode::SoftDrop {
                GameView { score: self.score.saturating_add(1), ..self }
            } else {
                self
            };
            if g.current.can_move(g.board, 0, 1) {
                let t = g.current.moved(0, 1);
                GameView {
                    current: t,
                    fall_timer: if !t.can_move(g.board, 0, 1) {
                        LOCK_DELAY
                    } else {
                        g.fall_interval()
                    },
                    ..g
                }
            } else {
                g.locked()
            }
        }
    }

    /// Waiting for a spawn: once the spawn timer runs out the next piece of
    /// the queue spawns and the hold slot may be used again.
    pub open spec fn spawn_phase(self, delta: u64, fresh: Seq<TetType>) -> GameView {
        if self.spawn_timer > delta {
            GameView { spawn_timer: (self.spawn_timer - delta) as u64, ..self }
        } else {
            let g = self.spawned(self.upcoming()).queue_advanced(fresh);
            GameView { already_held: false, spawn_timer: SPAWN_INTERVAL, ..g }
        }
    }

    /// Auto-repeat of a held horizontal move.
    pub open spec fn repeat_phase(self, delta: u64) -> GameView {
        if self.moving == Moving::Still {
            self
        } else if self.move_timer > delta {
            GameView { move_timer: (self.move_timer - delta) as u64, ..self }
        } else {
            let g = if !self.has_tet {
                self
            } else if self.moving == Moving::Left {
                self.shifted(-1)
            } else {
                self.shifted(1)
            };
            GameView { move_timer: MOVE_INTERVAL, ..g }
        }
    }

    /// One tick of `delta` microseconds.
    pub open spec fn updated(self, delta: u64, fresh: Seq<TetType>) -> GameView {
        if self.state == GameState::Dead {
            self
        } else {
            let g = if self.has_tet {
                self.gravity(delta)
            } else {
                self.spawn_phase(delta, fresh)
            };
            g.repeat_phase(delta)
        }
    }

    /// A key press; `repeat` marks a press repeated by the keyboard. Moves,
    /// turns, hard drop and hold need an active piece; a finished game only
    /// answers to restart.
    pub open spec fn pressed(self, key: Key, repeat: bool, fresh: Seq<TetType>) -> GameView {
        if self.state == GameState::Dead {
            if key == Key::Restart {
                GameView::initial(fresh)
            } else {
                self
            }
        } else {
            match key {
                Key::Left => if self.has_tet && !repeat && self.moving != Moving::Left {
                    GameView { moving: Moving::Left, move_timer: MOVE_WAIT, ..self }.shifted(-1)
                } else {
                    self
                },
                Key::Right => if self.has_tet && !repeat && self.moving != Moving::Right {
                    GameView { moving: Moving::Right, move_timer: MOVE_WAIT, ..self }.shifted(1)
                } else {
                    self
                },
                Key::RotateCw => if self.has_tet {
                    self.turned(RotationDir::Clockwise)
                } else {
                    self
                },
                Key::RotateCcw => if self.has_tet {
                    self.turned(RotationDir::CounterClockwise)
                } else {
                    self
                },
                Key::HardDrop => if self.has_tet {
                    self.hard_dropped()
                } else {
                    self
                },
                Key::SoftDrop => if !repeat {
                    GameView { fall_mode: FallMode::SoftDrop, fall_timer: 0, ..self }
                } else {
                    self
                },
                Key::Hold => if self.has_tet && !self.already_held {
                    self.held_swap(fresh)
                } else {
                    self
                },
                Key::Restart => self,
            }
        }
    }

    /// A key release.
    pub open spec fn released(self, key: Key) -> GameView {
        match key {
            Key::SoftDrop => GameView { fall_mode: FallMode::Normal, ..self },
            Key::Left => if self.moving == Moving::Left {
                GameView { moving: Moving::Still, ..self }
            } else {
                self
            },
            Key::Right => if self.moving == Moving::Right {
                GameView { moving: Moving::Still, ..self }
            } else {
                self
            },
            _ => self,
        }
    }
}

/// Locking scores the rows that the piece completes at the level from
/// before the lock: level times 100, 300, 500 or 800 for one to four rows,
/// whichever rows they are; two rows at level 3 give exactly 900 points.
pub proof fn lemma_lock_score(g: GameView)
    requires
        g.score + line_points(g.level(), full_rows(stamp(g.board, g.current, 4)) as u64) <= u64::MAX,
        g.lines + full_rows(stamp(g.board, g.current, 4)) <= u64::MAX,
    ensures
        g.locked().score == g.score + line_points(g.level(), full_rows(stamp(g.board, g.current, 4)) as u64),
        g.locked().lines == g.lines + full_rows(stamp(g.board, g.current, 4)),
        full_rows(stamp(g.board, g.current, 4)) == 2 && g.level() == 3 ==> g.locked().score == g.score + 900,
{
}

/// The queue after `k` draws, a used-up bag being replaced by `fresh`.
pub open spec fn queue_after(g: GameView, fresh: Seq<TetType>, k: nat) -> GameView
    decreases k,
{
    if k == 0 {
        g
    } else {
        queue_after(g, fresh, (k - 1) as nat).queue_advanced(fresh)
    }
}

/// From a bag boundary, the next seven draws hand out the items of the bag
/// in order, so that they hold each of the seven types exactly once.
pub proof fn lemma_bag_window(g: GameView, fresh: Seq<TetType>, k: nat)
    requires
        g.wf(),
        g.next_tet == 0,
        k < 7,
    ensures
        queue_after(g, fresh, k).next_batch == g.next_batch,
        queue_after(g, fresh, k).next_tet == k,
        queue_after(g, fresh, k).upcoming() == g.next_batch[k as int],
        forall|t: TetType| #[trigger] g.next_batch.to_multiset().count(t) == 1,
    decreases k,
{
    crate::tet::lemma_bag_has_each_type_once(g.next_batch);
    if k > 0 {
        lemma_bag_window(g, fresh, (k - 1) as nat);
    }
}

/// In every reachable state the blocks of the active piece lie within the
/// side walls and above the floor, on cells that the board leaves empty.
pub proof fn lemma_active_piece_in_bounds(g: GameView)
    requires
        g.wf(),
    ensures
        g.has_tet ==> forall|i: int|
            0 <= i < 4 ==> {
                let x = g.current.pos.x + (#[trigger] g.current.blocks[i]).x;
                let y = g.current.pos.y + g.current.blocks[i].y;
                &&& 0 <= x < TILES_WIDE
                &&& y < TILES_HIGH
                &&& (0 <= y ==> g.board[y][x] is None)
            },
{
    if g.has_tet {
        assert forall|i: int| 0 <= i < 4 implies {
            let x = g.current.pos.x + (#[trigger] g.current.blocks[i]).x;
            let y = g.current.pos.y + g.current.blocks[i].y;
            &&& 0 <= x < TILES_WIDE
            &&& y < TILES_HIGH
            &&& (0 <= y ==> g.board[y][x] is None)
        } by {
            assert(g.current.blocks@[i] == g.current.blocks[i]);
        }
    }
}

/// A game session: the board, the active piece, the queue, the held piece,
/// the score and the timers.
pub struct Game {
    state: GameState,
    score: u64,
    lines: u64,
    tets: Tets,
    current_tet: Tet,
    has_tet: bool,
    next_batch: [TetType; 7],
    next_tet: usize,
    held_tet: Option<TetType>,
    already_held: bool,
    fall_timer: u64,
    fall_mode: FallMode,
    spawn_timer: u64,
    move_timer: u64,
    moving: Moving,
}

impl View for Game {
    type V = GameView;

    closed spec fn view(&self) -> GameView {
        GameView {
            state: self.state,
            score: self.score,
            lines: self.lines,
            board: self.tets@,
            current: self.current_tet,
            has_tet: self.has_tet,
            next_batch: self.next_batch@,
            next_tet: self.next_tet,
            held: self.held_tet,
            already_held: self.already_held,
            fall_timer: self.fall_timer,
            fall_mode: self.fall_mode,
            spawn_timer: self.spawn_timer,
            move_timer: self.move_timer,
            moving: self.moving,
        }
    }
}

impl Game {
    pub open spec fn wf(&self) -> bool {
        self@.wf()
    }

    /// A new session that draws its pieces from `batch` until it is used up.
    pub fn from_batch(batch: [TetType; 7]) -> (r: Self)
        requires
            is_bag(batch@),
        ensures
            r@ == GameView::initial(batch@),
            r.wf(),
    {
        let tets = Tets::default();
        let r = Self {
            state: GameState::Playing,
            score: 0,
            lines: 0,
            tets,
            current_tet: Tet::new(batch[0], Point::new(SPAWN_X, SPAWN_Y)),
            has_tet: true,
            next_batch: batch,
            next_tet: 1,
            held_tet: None,
            already_held: false,
            fall_timer: NORMAL_INTERVAL,
            fall_mode: FallMode::Normal,
            spawn_timer: SPAWN_INTERVAL,
            move_timer: MOVE_WAIT,
            moving: Moving::Still,
        };
        proof {
            tets.lemma_view_wf();
            lemma_shape_in_box(batch[0], 0);
        }
        assert(r@ =~= GameView::initial(batch@));
        r
    }

    /// A new session on a prepared board, drawing its pieces from `batch`;
    /// the first piece spawns as any other, ending the game if it does not fit.
    pub fn from_board(tets: Tets, batch: [TetType; 7]) -> (r: Self)
        requires
            is_bag(batch@),
        ensures
            r@ == (GameView { board: tets@, ..GameView::initial(batch@) }).spawned(batch@[0]),
            r.wf(),
    {
        let mut r = Self::from_batch(batch);
        r.has_tet = false;
        r.tets = tets;
        proof {
            tets.lemma_view_wf();
        }
        r.spawn_tet(batch[0]);
        assert(r@ =~= (GameView { board: tets@, ..GameView::initial(batch@) }).spawned(batch@[0]));
        r
    }

    /// A new session with a freshly shuffled bag.
    pub fn new() -> (r: Self)
        ensures
            r.wf(),
            is_bag(r@.next_batch),
            r@ == GameView::initial(r@.next_batch),
    {
        Self::from_batch(TetType::batch())
    }

    pub fn level(&self) -> (r: u64)
        ensures
            r == self@.level(),
    {
        if self.lines / 10 + 1 < MAX_LEVEL {
            self.lines / 10 + 1
        } else {
            MAX_LEVEL
        }
    }

    fn fall_interval(&self) -> (r: u64)
        ensures
            r == self@.fall_interval(),
    {
        match self.fall_mode {
            FallMode::Normal => normal_interval_at(self.level()),
            FallMode::SoftDrop => SOFT_DROP_INTERVAL,
        }
    }

    /// Puts a piece of type `tet_type` at the spawn position; if it overlaps
    /// the stack the game is over.
    fn spawn_tet(&mut self, tet_type: TetType)
        requires
            old(self).wf(),
            old(self)@.state == GameState::Playing,
        ensures
            final(self)@ == old(self)@.spawned(tet_type),
            final(self).wf(),
    {
        self.current_tet = Tet::new(tet_type, Point::new(SPAWN_X, SPAWN_Y));
        proof {
            lemma_shape_in_box(tet_type, 0);
        }
        let mut fits = true;
        let mut i: usize = 0;
        while i < 4
            invariant
                i <= 4,
                self.current_tet == spawn_piece(tet_type),
                fits == (forall|j: int|
                    0 <= j < i ==> crate::tet::cell_free(
                        self.tets@,
                        SPAWN_X + (#[trigger] self.current_tet.blocks@[j]).x,
                        SPAWN_Y + self.current_tet.blocks@[j].y,
                    )),
                crate::tet::all_in_box(self.current_tet.blocks@, 4),
            decreases 4 - i,
        {
            let block = self.current_tet.blocks[i];
            assert(crate::tet::in_box(self.current_tet.blocks@[i as int], 4));
            if self.tets.at(self.current_tet.pos.y + block.y, self.current_tet.pos.x + block.x).is_some() {
                fits = false;
            }
            i += 1;
        }
        assert(self.current_tet.blocks@.len() == 4);
        assert(fits == self.current_tet.fits(self.tets@));
        if fits {
            self.has_tet = true;
        } else {
            self.state = GameState::Dead;
            self.has_tet = false;
        }
        assert(self@ =~= old(self)@.spawned(tet_type));
    }

    /// Moves the queue on; a used-up bag is replaced by `fresh`.
    fn advance_queue(&mut self, fresh: [TetType; 7])
        requires
            old(self).wf(),
            is_bag(fresh@),
        ensures
            final(self)@ == old(self)@.queue_advanced(fresh@),
            final(self).wf(),
    {
        self.next_tet = (self.next_tet + 1) % 7;
        if self.next_tet == 0 {
            self.next_batch = fresh;
        }
        assert(self@ =~= old(self)@.queue_advanced(fresh@));
    }

    /// Locks the active piece into the board, clears full rows and scores them.
    fn new_tet(&mut self)
        requires
            old(self).wf(),
        ensures
            final(self)@ == old(self)@.locked(),
            final(self).wf(),
    {
        let piece = self.current_tet;
        stamp_piece(&mut self.tets, &piece);
        proof {
            lemma_stamp_wf(old(self)@.board, piece, 4);
            lemma_collapsed_wf(self.tets@);
        }
        let clears = clear_full_rows(&mut self.tets);
        if clears > 0 {
            self.add_score(clears);
            // Lines are added after the score, so that the score uses the
            // level from before the clear.
            self.lines = self.lines.saturating_add(clears);
        }
        self.has_tet = false;
        self.spawn_timer = SPAWN_INTERVAL;
        assert(self@ =~= old(self)@.locked());
    }

    /// Where the active piece would land if dropped; the session is unchanged.
    pub fn preview_tet(&self) -> (r: Tet)
        requires
            self.wf(),
        ensures
            r == landed(self@.current, self@.board),
    {
        let mut preview_tet = self.current_tet;
        loop
            invariant
                preview_tet.wf(),
                landed(preview_tet, self.tets@) == landed(self.current_tet, self.tets@),
            decreases i8::MAX - preview_tet.pos.y,
        {
            let ghost before = preview_tet;
            proof {
                lemma_shape_in_box(before.tet_type, before.rot.index());
                assert(crate::tet::in_box(before.blocks@[0], 4));
            }
            if !preview_tet.fall(&self.tets) {
                return preview_tet;
            }
        }
    }

    /// Drops the active piece as far as it goes, two points per row, and
    /// locks it at once.
    fn hard_drop(&mut self)
        requires
            old(self).wf(),
            old(self)@.has_tet,
        ensures
            final(self)@ == old(self)@.hard_dropped(),
            final(self).wf(),
    {
        let ghost start = self.current_tet;
        loop
            invariant
                self.wf(),
                self@.has_tet,
                self@ == (GameView {
                    current: self.current_tet,
                    score: old(self)@.score.saturating_add(
                        (2 * (self.current_tet.pos.y - start.pos.y)) as u64,
                    ),
                    ..old(self)@
                }),
                self.current_tet.pos.y >= start.pos.y,
                landed(self.current_tet, self.tets@) == landed(start, self.tets@),
            ensures
                !self.current_tet.can_move(self.tets@, 0, 1),
            decreases i8::MAX - self.current_tet.pos.y,
        {
            let ghost before = self.current_tet;
            proof {
                lemma_shape_in_box(before.tet_type, before.rot.index());
                assert(crate::tet::in_box(before.blocks@[0], 4));
            }
            if !self.current_tet.fall(&self.tets) {
                break;
            }
            proof {
                lemma_moved_fits(before, self.tets@, 0, 1);
            }
            self.score = self.score.saturating_add(2);
            assert(self@ =~= GameView {
                current: self.current_tet,
                score: old(self)@.score.saturating_add((2 * (self.current_tet.pos.y - start.pos.y)) as u64),
                ..old(self)@
            });
        }
        self.new_tet();
        self.fall_timer = self.fall_interval();
        assert(self@ =~= old(self)@.hard_dropped());
    }

    /// Moves the active piece one column (left if `left`), re-arming the lock
    /// delay if it then rests on something.
    fn shift(&mut self, left: bool)
        requires
            old(self).wf(),
            old(self)@.has_tet,
        ensures
            final(self)@ == old(self)@.shifted(if left { -1 } else { 1 }),
            final(self).wf(),
    {
        let moved = if left {
            self.current_tet.move_left(&self.tets)
        } else {
            self.current_tet.move_right(&self.tets)
        };
        proof {
            if moved {
                lemma_moved_fits(old(self)@.current, self.tets@, if left { -1 } else { 1 }, 0);
            }
        }
        if moved && self.current_tet.at_bottom(&self.tets) {
            self.fall_timer = LOCK_DELAY;
        }
        assert(self@ =~= old(self)@.shifted(if left { -1 } else { 1 }));
    }

    /// Turns the active piece, re-arming the lock delay if it then rests on
    /// something.
    fn turn(&mut self, dir: RotationDir)
        requires
            old(self).wf(),
            old(self)@.has_tet,
        ensures
            final(self)@ == old(self)@.turned(dir),
            final(self).wf(),
    {
        proof {
            lemma_rotated_fits(self.current_tet, dir, self.tets@);
        }
        let rotated = self.current_tet.rotate(dir, &self.tets);
        if rotated && self.current_tet.at_bottom(&self.tets) {
            self.fall_timer = LOCK_DELAY;
        }
        assert(self@ =~= old(self)@.turned(dir));
    }

    /// Starts a fresh session drawing from `fresh`.
    fn restart(&mut self, fresh: [TetType; 7])
        requires
            is_bag(fresh@),
        ensures
            final(self)@ == GameView::initial(fresh@),
            final(self).wf(),
    {
        *self = Self::from_batch(fresh);
    }

    /// Advances the session by `delta` microseconds; `fresh` becomes the bag
    /// if the current one runs out.
    pub fn update_with(&mut self, delta: u64, fresh: [TetType; 7])
        requires
            old(self).wf(),
            is_bag(fresh@),
        ensures
            final(self)@ == old(self)@.updated(delta, fresh@),
            final(self).wf(),
    {
        if let GameState::Dead = self.state {
            return;
        }
        if self.has_tet {
            match decrement(self.fall_timer, delta) {
                TimerState::Ticking(time) => self.fall_timer = time,
                TimerState::Done => {
                    if let FallMode::SoftDrop = self.fall_mode {
                        self.score = self.score.saturating_add(1);
                    }
                    let ghost before = self.current_tet;
                    if !self.current_tet.fall(&self.tets) {
                        self.new_tet();
                    } else {
                        proof {
                            lemma_moved_fits(before, self.tets@, 0, 1);
                        }
                        self.fall_timer = if self.current_tet.at_bottom(&self.tets) {
                            LOCK_DELAY
                        } else {
                            self.fall_interval()
                        };
                    }
                },
            };
        } else {
            self.spawn_timer = match decrement(self.spawn_timer, delta) {
                TimerState::Ticking(time) => time,
                TimerState::Done => {
                    let next = self.next_batch[self.next_tet];
                    self.spawn_tet(next);
                    self.advance_queue(fresh);
                    self.already_held = false;
                    SPAWN_INTERVAL
                },
            };
        }
        let ghost mid = self@;
        assert(mid =~= if old(self)@.has_tet {
            old(self)@.gravity(delta)
        } else {
            old(self)@.spawn_phase(delta, fresh@)
        });
        match self.moving {
            Moving::Still => (),
            Moving::Left | Moving::Right => {
                self.move_timer = match decrement(self.move_timer, delta) {
                    TimerState::Ticking(time) => time,
                    TimerState::Done => {
                        if self.has_tet {
                            match self.moving {
                                Moving::Left => self.shift(true),
                                _ => self.shift(false),
                            }
                        }
                        MOVE_INTERVAL
                    },
                };
            },
        }
        assert(self@ =~= mid.repeat_phase(delta));
    }

    /// Advances the session by `delta` microseconds, shuffling a new bag in
    /// case the current one runs out.
    pub fn update(&mut self, delta: u64)
        requires
            old(self).wf(),
        ensures
            exists|fresh: Seq<TetType>| #[trigger] is_bag(fresh) && final(self)@ == old(self)@.updated(delta, fresh),
            final(self).wf(),
    {
        let fresh = TetType::batch();
        self.update_with(delta, fresh);
        assert(is_bag(fresh@));
    }

    /// Handles a key press; `fresh` is used if the press restarts the game or
    /// uses up the bag.
    pub fn key_down_with(&mut self, key: Key, repeat: bool, fresh: [TetType; 7])
        requires
            old(self).wf(),
            is_bag(fresh@),
        ensures
            final(self)@ == old(self)@.pressed(key, repeat, fresh@),
            final(self).wf(),
    {
        if let GameState::Dead = self.state {
            if let Key::Restart = key {
                self.restart(fresh);
            }
            return;
        }
        match key {
            Key::Left => {
                if self.has_tet && !repeat {
                    if let Moving::Left = self.moving {
                        return;
                    }
                    self.moving = Moving::Left;
                    self.move_timer = MOVE_WAIT;
                    self.shift(true);
                }
            },
            Key::Right => {
                if self.has_tet && !repeat {
                    if let Moving::Right = self.moving {
                        return;
                    }
                    self.moving = Moving::Right;
                    self.move_timer = MOVE_WAIT;
                    self.shift(false);
                }
            },
            Key::RotateCw => {
                if self.has_tet {
                    self.turn(RotationDir::Clockwise);
                }
            },
            Key::RotateCcw => {
                if self.has_tet {
                    self.turn(RotationDir::CounterClockwise);
                }
            },
            Key::HardDrop => {
                if self.has_tet {
                    self.hard_drop();
                }
            },
            Key::SoftDrop => {
                if !repeat {
                    self.fall_mode = FallMode::SoftDrop;
                    self.fall_timer = 0;
                }
            },
            Key::Hold => {
                if self.has_tet && !self.already_held {
                    self.already_held = true;
                    let current_type = self.current_tet.tet_type;
                    if let Some(held_tet) = self.held_tet {
                        self.held_tet = Some(current_type);
                        self.spawn_tet(held_tet);
                    } else {
                        self.held_tet = Some(current_type);
                        let next = self.next_batch[self.next_tet];
                        self.spawn_tet(next);
                        self.advance_queue(fresh);
                    }
                }
            },
            Key::Restart => {},
        }
        assert(self@ =~= old(self)@.pressed(key, repeat, fresh@));
    }

    /// Handles a key press, shuffling a new bag in case the press restarts
    /// the game or uses up the bag.
    pub fn key_down_event(&mut self, key: Key, repeat: bool)
        requires
            old(self).wf(),
        ensures
            exists|fresh: Seq<TetType>|
                #[trigger] is_bag(fresh) && final(self)@ == old(self)@.pressed(key, repeat, fresh),
            final(self).wf(),
    {
        let fresh = TetType::batch();
        self.key_down_with(key, repeat, fresh);
        assert(is_bag(fresh@));
    }

    /// Handles a key release.
    pub fn key_up_event(&mut self, key: Key)
        requires
            old(self).wf(),
        ensures
            final(self)@ == old(self)@.released(key),
            final(self).wf(),
    {
        match key {
            Key::SoftDrop => self.fall_mode = FallMode::Normal,
            Key::Left => {
                if let Moving::Left = self.moving {
                    self.moving = Moving::Still;
                }
            },
            Key::Right => {
                if let Moving::Right = self.moving {
                    self.moving = Moving::Still;
                }
            },
            _ => {},
        }
        assert(self@ =~= old(self)@.released(key));
    }

    /// The board of locked blocks.
    pub fn tets(&self) -> (r: &Tets)
        ensures
            r@ == self@.board,
    {
        &self.tets
    }

    /// The active piece (meaningful while `has_tet`).
    pub fn current_tet(&self) -> (r: Tet)
        ensures
            r == self@.current,
    {
        self.current_tet
    }

    pub fn has_tet(&self) -> (r: bool)
        ensures
            r == self@.has_tet,
    {
        self.has_tet
    }

    pub fn held_tet(&self) -> (r: Option<TetType>)
        ensures
            r == self@.held,
    {
        self.held_tet
    }

    /// The type that spawns next.
    pub fn next_type(&self) -> (r: TetType)
        requires
            self.wf(),
        ensures
            r == self@.upcoming(),
    {
        self.next_batch[self.next_tet]
    }

    pub fn score(&self) -> (r: u64)
        ensures
            r == self@.score,
    {
        self.score
    }

    pub fn lines(&self) -> (r: u64)
        ensures
            r == self@.lines,
    {
        self.lines
    }

    pub fn is_dead(&self) -> (r: bool)
        ensures
            r == (self@.state == GameState::Dead),
    {
        match self.state {
            GameState::Dead => true,
            GameState::Playing => false,
        }
    }

    fn add_score(&mut self, line_clears: u64)
        ensures
            final(self)@ == (GameView {
                score: old(self)@.score.saturating_add(line_points(old(self)@.level(), line_clears)),
                ..old(self)@
            }),
    {
        let points = line_clear_points(self.level(), line_clears);
        self.score = self.score.saturating_add(points);
        assert(self@ =~= GameView {
            score: old(self)@.score.saturating_add(line_points(old(self)@.level(), line_clears)),
            ..old(self)@
        });
    }
}

} // verus!
