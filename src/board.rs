use vstd::prelude::*;

use crate::tet::TetType;

verus! {

broadcast use vstd::array::group_array_axioms;

/// Number of columns of the playfield.
pub const TILES_WIDE: usize = 10;

/// Number of rows of the playfield; row 0 is the top.
pub const TILES_HIGH: usize = 20;

/// One row of the playfield, indexed by column.
pub type Row = [Option<TetType>; TILES_WIDE];

/// The model of a board: its rows, top first, each a sequence of cells.
pub type Grid = Seq<Seq<Option<TetType>>>;

/// A grid of the playfield's dimensions.
pub open spec fn grid_wf(g: Grid) -> bool {
    &&& g.len() == TILES_HIGH
    &&& forall|r: int| 0 <= r < TILES_HIGH ==> (#[trigger] g[r]).len() == TILES_WIDE
}

/// The content of a cell; empty for any position outside the grid.
pub open spec fn grid_cell(g: Grid, row: int, col: int) -> Option<TetType> {
    if 0 <= row < TILES_HIGH && 0 <= col < TILES_WIDE {
        g[row][col]
    } else {
        None
    }
}

/// A row with no block in it.
pub open spec fn blank_row() -> Seq<Option<TetType>> {
    Seq::new(TILES_WIDE as nat, |c: int| None)
}

/// Every column of the row holds a block.
pub open spec fn row_is_full(row: Seq<Option<TetType>>) -> bool {
    forall|c: int| 0 <= c < TILES_WIDE ==> (#[trigger] row[c]) is Some
}

/// The grid with one cell set to `val`.
pub open spec fn grid_set(g: Grid, row: int, col: int, val: TetType) -> Grid {
    g.update(row, g[row].update(col, Some(val)))
}

/// The grid with row `row` removed, the rows above it moved down by one and
/// a blank row on top.
pub open spec fn grid_clear(g: Grid, row: int) -> Grid {
    seq![blank_row()] + g.subrange(0, row) + g.subrange(row + 1, g.len() as int)
}

/// Clearing row `row` leaves a blank top row, moves every row above `row`
/// down by exactly one (row `row` now holds what row `row - 1` held) and
/// keeps every row below it.
pub proof fn lemma_clear_shifts_rows(g: Grid, row: int)
    requires
        grid_wf(g),
        0 <= row < TILES_HIGH,
    ensures
        grid_wf(grid_clear(g, row)),
        grid_clear(g, row)[0] == blank_row(),
        forall|k: int| 1 <= k <= row ==> #[trigger] grid_clear(g, row)[k] == g[k - 1],
        forall|k: int| row < k < TILES_HIGH ==> #[trigger] grid_clear(g, row)[k] == g[k],
{
    let c = grid_clear(g, row);
    assert forall|k: int| 0 <= k < TILES_HIGH implies (#[trigger] c[k]).len() == TILES_WIDE by {
        if k == 0 {
            assert(c[k] == blank_row());
        } else if k <= row {
            assert(c[k] == g[k - 1]);
        } else {
            assert(c[k] == g[k]);
        }
    }
}

/// The fixed-size grid of locked blocks.
#[derive(Clone, Copy, PartialEq, Eq, Debug)]
pub struct Tets {
    tets: [Row; TILES_HIGH],
}

impl View for Tets {
    type V = Grid;

    closed spec fn view(&self) -> Grid {
        self.tets@.map_values(|r: Row| r@)
    }
}

impl Tets {
    /// The view always has the playfield's dimensions.
    pub proof fn lemma_view_wf(&self)
        ensures
            grid_wf(self@),
    {
    }

    pub fn at(&self, row: i8, col: i8) -> (r: &Option<TetType>)
        ensures
            *r == grid_cell(self@, row as int, col as int),
    {
        if 0 <= row && (row as usize) < TILES_HIGH && 0 <= col && (col as usize) < TILES_WIDE {
            &self.tets[row as usize][col as usize]
        } else {
            &None
        }
    }

    pub fn set(&mut self, row: i8, col: i8, val: TetType)
        requires
            0 <= row < TILES_HIGH,
            0 <= col < TILES_WIDE,
        ensures
            final(self)@ == grid_set(old(self)@, row as int, col as int, val),
    {
        let mut line = self.tets[row as usize];
        line[col as usize] = Some(val);
        self.tets[row as usize] = line;
        assert(self@ =~= grid_set(old(self)@, row as int, col as int, val));
    }

    pub fn row_full(&self, row: i8) -> (r: bool)
        requires
            0 <= row < TILES_HIGH,
        ensures
            r == row_is_full(self@[row as int]),
    {
        let line = &self.tets[row as usize];
        assert(self@[row as int] == line@);
        let mut c: usize = 0;
        while c < TILES_WIDE
            invariant
                c <= TILES_WIDE,
                0 <= row < TILES_HIGH,
                self@[row as int] == line@,
                forall|k: int| 0 <= k < c ==> (#[trigger] line@[k]) is Some,
            decreases TILES_WIDE - c,
        {
            if line[c].is_none() {
                return false;
            }
            c += 1;
        }
        true
    }

    /// Removes a row: every row above it moves down by one and the top row
    /// becomes empty.
    pub fn clear(&mut self, row: i8)
        requires
            0 <= row < TILES_HIGH,
        ensures
            final(self)@ == grid_clear(old(self)@, row as int),
    {
        let ghost g = self.tets@;
        let mut r: usize = row as usize;
        while r > 0
            invariant
                r <= row < TILES_HIGH,
                self.tets@.len() == TILES_HIGH,
                forall|k: int| 0 <= k <= r ==> #[trigger] self.tets@[k] == g[k],
                forall|k: int| r < k <= row ==> #[trigger] self.tets@[k] == g[k - 1],
                forall|k: int| row < k < TILES_HIGH ==> #[trigger] self.tets@[k] == g[k],
            decreases r,
        {
            self.tets[r] = self.tets[r - 1];
            r -= 1;
        }
        let blank: Row = [None; TILES_WIDE];
        self.tets[0] = blank;
        assert(blank@ =~= blank_row());
        assert(self@ =~= grid_clear(old(self)@, row as int));
    }

    /// The rows of the grid, top first.
    pub fn iter(&self) -> (r: std::slice::Iter<'_, Row>)
        ensures
            vstd::std_specs::slice::into_iter_elts(r).map_values(|row: Row| row@) == self@,
    {
        let r = self.tets.iter();
        assert(self.tets@.as_ref().unref() =~= self.tets@);
        r
    }
}

impl Default for Tets {
    fn default() -> (r: Tets)
        ensures
            r@ == Seq::new(TILES_HIGH as nat, |i: int| blank_row()),
    {
        let blank: Row = [None; TILES_WIDE];
        let grid: [Row; TILES_HIGH] = [blank; TILES_HIGH];
        assert(grid == vstd::array::spec_array_fill_for_copy_type::<Row, TILES_HIGH>(blank));
        let r = Tets { tets: grid };
        assert(blank@ =~= blank_row());
        assert(r@ =~= Seq::new(TILES_HIGH as nat, |i: int| blank_row()));
        r
    }
}

} // verus!
