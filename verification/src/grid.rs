use vstd::prelude::*;

verus! {

/// Error returned by the validating constructor when the given rows do not
/// all share one common length.
#[derive(Debug, Clone)]
pub struct UnequalColumnsError;

/// A 2D grid of values, stored densely in row-major order. Uses a coordinate
/// system where the row index increases going down and the column index
/// increases to the right.
#[derive(Debug)]
pub struct Grid<T> {
    grid: Vec<Vec<T>>,
}

impl<T> View for Grid<T> {
    type V = Seq<Seq<T>>;

    closed spec fn view(&self) -> Seq<Seq<T>> {
        Seq::new(self.grid@.len(), |i: int| self.grid@[i]@)
    }
}

/// The number of rows of a grid value.
pub open spec fn grid_rows<T>(g: Seq<Seq<T>>) -> int {
    g.len() as int
}

/// The number of columns of a grid value: the length of its first row, or 0
/// if it has no rows.
pub open spec fn grid_cols<T>(g: Seq<Seq<T>>) -> int {
    if g.len() == 0 {
        0
    } else {
        g[0].len() as int
    }
}

/// The grid value denoted by a sequence of row vectors.
pub open spec fn rows_view<T>(rows: Seq<Vec<T>>) -> Seq<Seq<T>> {
    Seq::new(rows.len(), |i: int| rows[i]@)
}

/// Rectangularity: every row has the same length as the first one.
pub open spec fn rectangular<T>(g: Seq<Seq<T>>) -> bool {
    forall|i: int| 0 <= i < g.len() ==> #[trigger] g[i].len() == grid_cols(g)
}

/// The transpose of a grid value: row `c` of the result is column `c` of `g`.
pub open spec fn transposed<T>(g: Seq<Seq<T>>) -> Seq<Seq<T>> {
    Seq::new(grid_cols(g) as nat, |c: int| Seq::new(g.len(), |r: int| g[r][c]))
}

/// A grid value with every row reversed (mirrored left-right).
pub open spec fn flipped<T>(g: Seq<Seq<T>>) -> Seq<Seq<T>> {
    Seq::new(g.len(), |r: int| g[r].reverse())
}

/// A square grid value rotated 90 degrees clockwise: row `i` of the result is
/// column `i` of `g` read bottom-up. Both dimensions of the result are taken
/// from the row count of `g`.
pub open spec fn rotated<T>(g: Seq<Seq<T>>) -> Seq<Seq<T>> {
    Seq::new(g.len(), |i: int| Seq::new(g.len(), |j: int| g[g.len() - 1 - j][i]))
}

/// Law: reversing every row twice returns a grid value to its original cells,
/// so `Grid::flip_y` is an involution.
pub proof fn lemma_flip_flip_identity<T>(g: Seq<Seq<T>>)
    ensures
        flipped(flipped(g)) == g,
{
    assert forall|r: int| 0 <= r < g.len() implies #[trigger] flipped(flipped(g))[r] == g[r] by {
        assert(flipped(flipped(g))[r] == g[r].reverse().reverse());
        assert(g[r].reverse().reverse() =~= g[r]);
    }
    assert(flipped(flipped(g)) =~= g);
}

/// Law: rotating a rectangular square grid value 90 degrees clockwise four
/// times returns it to its original cells, so four calls of `Grid::rotate`
/// restore a square grid.
pub proof fn lemma_rotate_four_identity<T>(g: Seq<Seq<T>>)
    requires
        rectangular(g),
        grid_cols(g) == g.len(),
    ensures
        rotated(rotated(rotated(rotated(g)))) == g,
{
    let n = g.len() as int;
    let r1 = rotated(g);
    let r2 = rotated(r1);
    let r3 = rotated(r2);
    let r4 = rotated(r3);
    assert forall|i: int| 0 <= i < n implies #[trigger] r4[i] == g[i] by {
        assert(g[i].len() == n);
        assert forall|j: int| 0 <= j < n implies #[trigger] r4[i][j] == g[i][j] by {
            assert(r4[i][j] == r3[n - 1 - j][i]);
            assert(r3[n - 1 - j][i] == r2[n - 1 - i][n - 1 - j]);
            assert(r2[n - 1 - i][n - 1 - j] == r1[j][n - 1 - i]);
            assert(r1[j][n - 1 - i] == g[i][j]);
        }
        assert(r4[i] =~= g[i]);
    }
    assert(r4 =~= g);
}

/// How many row pairs a fold at `row` combines: rows above the fold line are
/// paired with rows below it until either side runs out.
pub open spec fn fold_pair_count(row: int, len: int) -> int {
    if row >= len {
        0
    } else if row <= len - row - 1 {
        row
    } else {
        len - row - 1
    }
}

/// Whether `(row, col)` is an in-bounds coordinate of `g`.
pub open spec fn in_bounds<T>(g: Seq<Seq<T>>, row: usize, col: usize) -> bool {
    row < grid_rows(g) && col < grid_cols(g)
}

/// All coordinates to the left of `(row, col)` in its row, left to right;
/// empty when `(row, col)` is out of bounds.
pub open spec fn row_left_seq<T>(g: Seq<Seq<T>>, row: usize, col: usize) -> Seq<(usize, usize)> {
    if !in_bounds(g, row, col) {
        Seq::empty()
    } else {
        Seq::new(col as nat, |i: int| (row, i as usize))
    }
}

/// All coordinates to the right of `(row, col)` in its row, left to right;
/// empty when `(row, col)` is out of bounds.
pub open spec fn row_right_seq<T>(g: Seq<Seq<T>>, row: usize, col: usize) -> Seq<(usize, usize)> {
    if !in_bounds(g, row, col) {
        Seq::empty()
    } else {
        Seq::new((grid_cols(g) - col - 1) as nat, |i: int| (row, (col + 1 + i) as usize))
    }
}

/// All coordinates above `(row, col)` in its column, top to bottom; empty
/// when `(row, col)` is out of bounds.
pub open spec fn col_up_seq<T>(g: Seq<Seq<T>>, row: usize, col: usize) -> Seq<(usize, usize)> {
    if !in_bounds(g, row, col) {
        Seq::empty()
    } else {
        Seq::new(row as nat, |i: int| (i as usize, col))
    }
}

/// All coordinates below `(row, col)` in its column, top to bottom; empty
/// when `(row, col)` is out of bounds.
pub open spec fn col_down_seq<T>(g: Seq<Seq<T>>, row: usize, col: usize) -> Seq<(usize, usize)> {
    if !in_bounds(g, row, col) {
        Seq::empty()
    } else {
        Seq::new((grid_rows(g) - row - 1) as nat, |i: int| ((row + 1 + i) as usize, col))
    }
}

/// The immediate left then right neighbor of `(row, col)`, each present only
/// if in bounds; empty when `(row, col)` itself is out of bounds.
pub open spec fn row_neighbors_seq<T>(g: Seq<Seq<T>>, row: usize, col: usize) -> Seq<
    (usize, usize),
> {
    if !in_bounds(g, row, col) {
        Seq::empty()
    } else {
        (if col > 0 {
            seq![(row, (col - 1) as usize)]
        } else {
            Seq::empty()
        }) + (if col + 1 < grid_cols(g) {
            seq![(row, (col + 1) as usize)]
        } else {
            Seq::empty()
        })
    }
}

/// The immediate up then down neighbor of `(row, col)`, each present only if
/// in bounds; empty when `(row, col)` itself is out of bounds.
pub open spec fn col_neighbors_seq<T>(g: Seq<Seq<T>>, row: usize, col: usize) -> Seq<
    (usize, usize),
> {
    if !in_bounds(g, row, col) {
        Seq::empty()
    } else {
        (if row > 0 {
            seq![((row - 1) as usize, col)]
        } else {
            Seq::empty()
        }) + (if row + 1 < grid_rows(g) {
            seq![((row + 1) as usize, col)]
        } else {
            Seq::empty()
        })
    }
}

/// The up-left, up-right, down-left and down-right neighbors of `(row, col)`,
/// in that order, each present only if both of its component directions are
/// in bounds; empty when `(row, col)` itself is out of bounds.
pub open spec fn diag_neighbors_seq<T>(g: Seq<Seq<T>>, row: usize, col: usize) -> Seq<
    (usize, usize),
> {
    if !in_bounds(g, row, col) {
        Seq::empty()
    } else {
        (if row > 0 && col > 0 {
            seq![((row - 1) as usize, (col - 1) as usize)]
        } else {
            Seq::empty()
        }) + (if row > 0 && col + 1 < grid_cols(g) {
            seq![((row - 1) as usize, (col + 1) as usize)]
        } else {
            Seq::empty()
        }) + (if row + 1 < grid_rows(g) && col > 0 {
            seq![((row + 1) as usize, (col - 1) as usize)]
        } else {
            Seq::empty()
        }) + (if row + 1 < grid_rows(g) && col + 1 < grid_cols(g) {
            seq![((row + 1) as usize, (col + 1) as usize)]
        } else {
            Seq::empty()
        })
    }
}

/// The full Moore neighborhood of `(row, col)`: its row neighbors, then its
/// column neighbors, then its diagonal neighbors.
pub open spec fn neighbors_seq<T>(g: Seq<Seq<T>>, row: usize, col: usize) -> Seq<(usize, usize)> {
    row_neighbors_seq(g, row, col) + col_neighbors_seq(g, row, col) + diag_neighbors_seq(
        g,
        row,
        col,
    )
}

/// Law: every coordinate that an adjacency query returns is in bounds, for
/// any coordinate asked about.
pub proof fn lemma_adjacency_in_bounds<T>(g: Seq<Seq<T>>, row: usize, col: usize)
    ensures
        forall|k: int|
            0 <= k < row_left_seq(g, row, col).len() ==> in_bounds(
                g,
                (#[trigger] row_left_seq(g, row, col)[k]).0,
                row_left_seq(g, row, col)[k].1,
            ),
        forall|k: int|
            0 <= k < row_right_seq(g, row, col).len() ==> in_bounds(
                g,
                (#[trigger] row_right_seq(g, row, col)[k]).0,
                row_right_seq(g, row, col)[k].1,
            ),
        forall|k: int|
            0 <= k < col_up_seq(g, row, col).len() ==> in_bounds(
                g,
                (#[trigger] col_up_seq(g, row, col)[k]).0,
                col_up_seq(g, row, col)[k].1,
            ),
        forall|k: int|
            0 <= k < col_down_seq(g, row, col).len() ==> in_bounds(
                g,
                (#[trigger] col_down_seq(g, row, col)[k]).0,
                col_down_seq(g, row, col)[k].1,
            ),
        forall|k: int|
            0 <= k < neighbors_seq(g, row, col).len() ==> in_bounds(
                g,
                (#[trigger] neighbors_seq(g, row, col)[k]).0,
                neighbors_seq(g, row, col)[k].1,
            ),
{
}

impl<T> Grid<T> {
    /// Every operation that reads the grid geometrically assumes this
    /// invariant; the unchecked constructor and `insert_row` may break it.
    pub open spec fn wf(&self) -> bool {
        rectangular(self@)
    }

    /// The number of rows.
    pub fn rows_len(&self) -> (r: usize)
        ensures
            r == grid_rows(self@),
    {
        self.grid.len()
    }

    /// The number of columns.
    pub fn cols_len(&self) -> (r: usize)
        ensures
            r == grid_cols(self@),
    {
        match self.grid.len() {
            0 => 0,
            _ => self.grid[0].len(),
        }
    }

    /// Initialize a 2D grid with `rows` number of rows and `cols` number of
    /// columns, filling each cell with a clone of `value`.
    pub fn init(rows: usize, cols: usize, value: T) -> (g: Grid<T>) where T: Clone
        ensures
            grid_rows(g@) == rows,
            rows > 0 ==> grid_cols(g@) == cols,
            rows == 0 ==> grid_cols(g@) == 0,
            g.wf(),
            forall|i: int| 0 <= i < rows ==> #[trigger] g@[i].len() == cols,
            forall|i: int, j: int|
                0 <= i < rows && 0 <= j < cols ==> cloned(value, #[trigger] g@[i][j]),
    {
        let mut grid: Vec<Vec<T>> = Vec::with_capacity(rows);
        for _r in 0..rows
            invariant
                grid@.len() == _r,
                forall|i: int| 0 <= i < _r ==> #[trigger] grid@[i]@.len() == cols,
                forall|i: int, j: int|
                    0 <= i < _r && 0 <= j < cols ==> cloned(value, #[trigger] grid@[i]@[j]),
        {
            let mut row: Vec<T> = Vec::with_capacity(cols);
            for _c in 0..cols
                invariant
                    row@.len() == _c,
                    forall|j: int| 0 <= j < _c ==> cloned(value, #[trigger] row@[j]),
            {
                row.push(value.clone());
            }
            grid.push(row);
        }
        Grid { grid }
    }

    /// Initialize a grid from a 2D vector, validating that all rows share one
    /// common length. Returns `UnequalColumnsError` when two rows differ in
    /// length; otherwise the row data is taken over unchanged.
    pub fn from_2d(grid: Vec<Vec<T>>) -> (r: Result<Grid<T>, UnequalColumnsError>)
        ensures
            r is Ok <==> rectangular(rows_view(grid@)),
            r matches Ok(g) ==> g@ == rows_view(grid@) && g.wf(),
    {
        let mut i: usize = 1;
        while i < grid.len()
            invariant
                1 <= i,
                forall|k: int| 0 <= k < i && k < grid@.len()
                    ==> #[trigger] grid@[k]@.len() == grid@[0]@.len(),
            decreases grid@.len() - i,
        {
            if grid[i].len() != grid[0].len() {
                proof {
                    assert(rows_view(grid@)[i as int].len() != grid_cols(rows_view(grid@)));
                }
                return Err(UnequalColumnsError);
            }
            i += 1;
        }
        let g = Grid { grid };
        proof {
            assert(g@ =~= rows_view(grid@));
        }
        Ok(g)
    }

    /// Initialize a grid from a 2D vector without validating rectangularity.
    /// The caller asserts that the rows share one length; geometric queries on
    /// a non-rectangular grid give no guarantees.
    pub fn from_2d_unchecked(grid: Vec<Vec<T>>) -> (g: Grid<T>)
        ensures
            g@ == rows_view(grid@),
    {
        let g = Grid { grid };
        proof {
            assert(g@ =~= rows_view(grid@));
        }
        g
    }

    /// Insert a row at `idx`, shifting subsequent rows down. The new row's
    /// length is not validated, so this can break rectangularity.
    pub fn insert_row(&mut self, idx: usize, row: Vec<T>)
        requires
            idx <= old(self)@.len(),
        ensures
            final(self)@ == old(self)@.insert(idx as int, row@),
    {
        self.grid.insert(idx, row);
        proof {
            assert(self@ =~= old(self)@.insert(idx as int, row@));
        }
    }

    /// Discard all rows at or beyond index `size`; a no-op if the grid
    /// already has at most `size` rows.
    pub fn truncate_rows(&mut self, size: usize)
        ensures
            size <= old(self)@.len() ==> final(self)@ == old(self)@.subrange(0, size as int),
            size > old(self)@.len() ==> final(self)@ == old(self)@,
    {
        self.grid.truncate(size);
        proof {
            if size <= old(self)@.len() {
                assert(self@ =~= old(self)@.subrange(0, size as int));
            } else {
                assert(self@ =~= old(self)@);
            }
        }
    }

    /// The row at index `idx`.
    pub fn row(&self, idx: usize) -> (r: &Vec<T>)
        requires
            idx < self@.len(),
        ensures
            r@ == self@[idx as int],
    {
        &self.grid[idx]
    }

    /// The cell at coordinate `(row, col)`.
    pub fn get(&self, row: usize, col: usize) -> (r: &T)
        requires
            row < self@.len(),
            col < self@[row as int].len(),
        ensures
            *r == self@[row as int][col as int],
    {
        &self.grid[row][col]
    }

    /// Overwrite the cell at coordinate `(row, col)` with `value`.
    pub fn set(&mut self, row: usize, col: usize, value: T)
        requires
            row < old(self)@.len(),
            col < old(self)@[row as int].len(),
        ensures
            final(self)@ == old(self)@.update(
                row as int,
                old(self)@[row as int].update(col as int, value),
            ),
    {
        self.grid[row][col] = value;
        proof {
            assert(self@ =~= old(self)@.update(
                row as int,
                old(self)@[row as int].update(col as int, value),
            ));
        }
    }

    /// Returns a new grid with the row and column dimensions swapped, such
    /// that `result[c][r] == self[r][c]` for all in-bounds `(r, c)`. A grid
    /// with no rows or no columns transposes to the empty grid.
    pub fn transpose(&self) -> (g: Grid<T>) where T: Copy
        requires
            self.wf(),
        ensures
            g@ == transposed(self@),
            g.wf(),
            grid_rows(g@) == grid_cols(self@),
            grid_cols(self@) > 0 ==> grid_cols(g@) == grid_rows(self@),
            forall|r: int, c: int|
                0 <= r < grid_rows(self@) && 0 <= c < grid_cols(self@) ==> g@[c][r]
                    == self@[r][c],
    {
        let rows = self.rows_len();
        let cols = self.cols_len();
        let mut grid: Vec<Vec<T>> = Vec::with_capacity(cols);
        for c in 0..cols
            invariant
                self.wf(),
                rows == grid_rows(self@),
                cols == grid_cols(self@),
                grid@.len() == c,
                forall|x: int| 0 <= x < c ==> #[trigger] grid@[x]@ == transposed(self@)[x],
        {
            let mut row: Vec<T> = Vec::with_capacity(rows);
            for r in 0..rows
                invariant
                    self.wf(),
                    rows == grid_rows(self@),
                    cols == grid_cols(self@),
                    c < cols,
                    row@.len() == r,
                    forall|x: int| 0 <= x < r ==> #[trigger] row@[x] == self@[x][c as int],
            {
                proof {
                    assert(self@[r as int].len() == cols);
                }
                row.push(self.grid[r][c]);
            }
            proof {
                assert(row@ =~= transposed(self@)[c as int]);
            }
            grid.push(row);
        }
        let g = Grid { grid };
        proof {
            assert(g@ =~= transposed(self@));
        }
        g
    }

    /// Rotate a square grid 90 degrees clockwise in place: row `i` becomes
    /// the former column `i` read from the bottom row up.
    pub fn rotate(&mut self) where T: Copy
        requires
            old(self).wf(),
            grid_rows(old(self)@) == grid_cols(old(self)@),
        ensures
            final(self)@ == rotated(old(self)@),
            final(self).wf(),
            grid_rows(final(self)@) == grid_rows(old(self)@),
            grid_cols(final(self)@) == grid_cols(old(self)@),
    {
        let n = self.grid.len();
        let mut temp: Vec<Vec<T>> = Vec::with_capacity(n);
        for column in 0..n
            invariant
                self == old(self),
                self.wf(),
                n == grid_rows(self@) == grid_cols(self@),
                temp@.len() == column,
                forall|x: int| 0 <= x < column ==> #[trigger] temp@[x]@ == rotated(self@)[x],
        {
            let mut t: Vec<T> = Vec::with_capacity(n);
            let mut r = n;
            while r > 0
                invariant
                    self == old(self),
                    self.wf(),
                    n == grid_rows(self@) == grid_cols(self@),
                    column < n,
                    r <= n,
                    t@.len() == n - r,
                    forall|x: int|
                        0 <= x < n - r ==> #[trigger] t@[x] == self@[n - 1 - x][column as int],
                decreases r,
            {
                r -= 1;
                proof {
                    assert(self@[r as int].len() == n);
                }
                t.push(self.grid[r][column]);
            }
            proof {
                assert(t@ =~= rotated(self@)[column as int]);
            }
            temp.push(t);
        }
        self.grid = temp;
        proof {
            assert(self@ =~= rotated(old(self)@));
        }
    }

    /// Reverse the element order within every row in place, mirroring the
    /// grid left-right.
    pub fn flip_y(&mut self)
        ensures
            final(self)@ == flipped(old(self)@),
    {
        let rows = self.grid.len();
        for i in 0..rows
            invariant
                self@.len() == rows == old(self)@.len(),
                forall|k: int| 0 <= k < i ==> #[trigger] self@[k] == flipped(old(self)@)[k],
                forall|k: int| i <= k < rows ==> #[trigger] self@[k] == old(self)@[k],
        {
            let ghost pre = self@;
            let mut row = self.grid.remove(i);
            let ghost orig = row@;
            let mut rev: Vec<T> = Vec::with_capacity(row.len());
            while row.len() > 0
                invariant
                    rev@.len() + row@.len() == orig.len(),
                    row@ == orig.subrange(0, row@.len() as int),
                    forall|j: int|
                        0 <= j < rev@.len() ==> #[trigger] rev@[j] == orig[orig.len() - 1 - j],
                decreases row@.len(),
            {
                let v = row.pop().unwrap();
                rev.push(v);
            }
            proof {
                assert(orig == pre[i as int]);
                assert(pre[i as int] == old(self)@[i as int]);
                assert(rev@ =~= orig.reverse());
            }
            self.grid.insert(i, rev);
            proof {
                assert(self@[i as int] == rev@);
                assert forall|k: int| 0 <= k < i + 1 implies #[trigger] self@[k] == flipped(
                    old(self)@,
                )[k] by {
                    if k < i {
                        assert(self@[k] == pre[k]);
                        assert(pre[k] == flipped(old(self)@)[k]);
                    } else {
                        assert(self@[k] == rev@);
                    }
                }
                assert forall|k: int| i + 1 <= k < rows implies #[trigger] self@[k] == old(
                    self,
                )@[k] by {
                    assert(self@[k] == pre[k]);
                    assert(pre[k] == old(self)@[k]);
                }
            }
        }
        proof {
            assert(self@ =~= flipped(old(self)@));
        }
    }

    /// Returns all the coordinates to the left of `(row, col)` in its row,
    /// left to right, or an empty vector when `(row, col)` is out of bounds.
    pub fn row_left_coords(&self, row: usize, col: usize) -> (r: Vec<(usize, usize)>)
        ensures
            r@ == row_left_seq(self@, row, col),
            !in_bounds(self@, row, col) ==> r@ == Seq::<(usize, usize)>::empty(),
    {
        let mut n: Vec<(usize, usize)> = Vec::new();
        if row >= self.rows_len() || col >= self.cols_len() {
            proof {
                assert(n@ =~= row_left_seq(self@, row, col));
            }
            return n;
        }
        for i in 0..col
            invariant
                in_bounds(self@, row, col),
                n@.len() == i,
                forall|k: int| 0 <= k < i ==> #[trigger] n@[k] == (row, k as usize),
        {
            n.push((row, i));
        }
        proof {
            assert(n@ =~= row_left_seq(self@, row, col));
        }
        n
    }

    /// Returns all the coordinates to the right of `(row, col)` in its row,
    /// left to right, or an empty vector when `(row, col)` is out of bounds.
    pub fn row_right_coords(&self, row: usize, col: usize) -> (r: Vec<(usize, usize)>)
        ensures
            r@ == row_right_seq(self@, row, col),
            !in_bounds(self@, row, col) ==> r@ == Seq::<(usize, usize)>::empty(),
    {
        let mut n: Vec<(usize, usize)> = Vec::new();
        let cols = self.cols_len();
        if row >= self.rows_len() || col >= cols {
            proof {
                assert(n@ =~= row_right_seq(self@, row, col));
            }
            return n;
        }
        for i in col + 1..cols
            invariant
                in_bounds(self@, row, col),
                cols == grid_cols(self@),
                n@.len() == i - col - 1,
                forall|k: int| 0 <= k < n@.len() ==> #[trigger] n@[k] == (
                    row,
                    (col + 1 + k) as usize,
                ),
        {
            n.push((row, i));
        }
        proof {
            assert(n@ =~= row_right_seq(self@, row, col));
        }
        n
    }

    /// Returns all the coordinates above `(row, col)` in its column, top to
    /// bottom, or an empty vector when `(row, col)` is out of bounds.
    pub fn col_up_coords(&self, row: usize, col: usize) -> (r: Vec<(usize, usize)>)
        ensures
            r@ == col_up_seq(self@, row, col),
            !in_bounds(self@, row, col) ==> r@ == Seq::<(usize, usize)>::empty(),
    {
        let mut n: Vec<(usize, usize)> = Vec::new();
        if row >= self.rows_len() || col >= self.cols_len() {
            proof {
                assert(n@ =~= col_up_seq(self@, row, col));
            }
            return n;
        }
        for i in 0..row
            invariant
                in_bounds(self@, row, col),
                n@.len() == i,
                forall|k: int| 0 <= k < i ==> #[trigger] n@[k] == (k as usize, col),
        {
            n.push((i, col));
        }
        proof {
            assert(n@ =~= col_up_seq(self@, row, col));
        }
        n
    }

    /// Returns all the coordinates below `(row, col)` in its column, top to
    /// bottom, or an empty vector when `(row, col)` is out of bounds.
    pub fn col_down_coords(&self, row: usize, col: usize) -> (r: Vec<(usize, usize)>)
        ensures
            r@ == col_down_seq(self@, row, col),
            !in_bounds(self@, row, col) ==> r@ == Seq::<(usize, usize)>::empty(),
    {
        let mut n: Vec<(usize, usize)> = Vec::new();
        let rows = self.rows_len();
        if row >= rows || col >= self.cols_len() {
            proof {
                assert(n@ =~= col_down_seq(self@, row, col));
            }
            return n;
        }
        for i in row + 1..rows
            invariant
                in_bounds(self@, row, col),
                rows == grid_rows(self@),
                n@.len() == i - row - 1,
                forall|k: int| 0 <= k < n@.len() ==> #[trigger] n@[k] == (
                    (row + 1 + k) as usize,
                    col,
                ),
        {
            n.push((i, col));
        }
        proof {
            assert(n@ =~= col_down_seq(self@, row, col));
        }
        n
    }

    /// Returns the coordinates immediately to the left and right of
    /// `(row, col)`, in that order, each only if in bounds; empty when
    /// `(row, col)` itself is out of bounds.
    pub fn row_neighbors(&self, row: usize, col: usize) -> (r: Vec<(usize, usize)>)
        ensures
            r@ == row_neighbors_seq(self@, row, col),
            !in_bounds(self@, row, col) ==> r@ == Seq::<(usize, usize)>::empty(),
    {
        let mut n: Vec<(usize, usize)> = Vec::new();
        if row >= self.rows_len() || col >= self.cols_len() {
            proof {
                assert(n@ =~= row_neighbors_seq(self@, row, col));
            }
            return n;
        }
        if col > 0 {
            n.push((row, col - 1));
        }
        if col + 1 < self.cols_len() {
            n.push((row, col + 1));
        }
        proof {
            assert(n@ =~= row_neighbors_seq(self@, row, col));
        }
        n
    }

    /// Returns the coordinates immediately above and below `(row, col)`, in
    /// that order, each only if in bounds; empty when `(row, col)` itself is
    /// out of bounds.
    pub fn col_neighbors(&self, row: usize, col: usize) -> (r: Vec<(usize, usize)>)
        ensures
            r@ == col_neighbors_seq(self@, row, col),
            !in_bounds(self@, row, col) ==> r@ == Seq::<(usize, usize)>::empty(),
    {
        let mut n: Vec<(usize, usize)> = Vec::new();
        if row >= self.rows_len() || col >= self.cols_len() {
            proof {
                assert(n@ =~= col_neighbors_seq(self@, row, col));
            }
            return n;
        }
        if row > 0 {
            n.push((row - 1, col));
        }
        if row + 1 < self.rows_len() {
            n.push((row + 1, col));
        }
        proof {
            assert(n@ =~= col_neighbors_seq(self@, row, col));
        }
        n
    }

    /// Returns the up-left, up-right, down-left and down-right neighbors of
    /// `(row, col)`, in that order, each only if both component directions
    /// are in bounds; empty when `(row, col)` itself is out of bounds.
    pub fn diag_neighbors(&self, row: usize, col: usize) -> (r: Vec<(usize, usize)>)
        ensures
            r@ == diag_neighbors_seq(self@, row, col),
            !in_bounds(self@, row, col) ==> r@ == Seq::<(usize, usize)>::empty(),
    {
        let mut n: Vec<(usize, usize)> = Vec::new();
        if row >= self.rows_len() || col >= self.cols_len() {
            proof {
                assert(n@ =~= diag_neighbors_seq(self@, row, col));
            }
            return n;
        }
        let cols = self.cols_len();
        if row > 0 {
            if col > 0 {
                n.push((row - 1, col - 1));
            }
            if col + 1 < cols {
                n.push((row - 1, col + 1));
            }
        }
        if row + 1 < self.rows_len() {
            if col > 0 {
                n.push((row + 1, col - 1));
            }
            if col + 1 < cols {
                n.push((row + 1, col + 1));
            }
        }
        proof {
            assert(n@ =~= diag_neighbors_seq(self@, row, col));
        }
        n
    }

    /// Returns all valid coordinates surrounding `(row, col)`: its row
    /// neighbors, then its column neighbors, then its diagonal neighbors;
    /// empty when `(row, col)` itself is out of bounds.
    pub fn neighbors(&self, row: usize, col: usize) -> (r: Vec<(usize, usize)>)
        ensures
            r@ == neighbors_seq(self@, row, col),
            !in_bounds(self@, row, col) ==> r@ == Seq::<(usize, usize)>::empty(),
    {
        let mut n = self.row_neighbors(row, col);
        let mut c = self.col_neighbors(row, col);
        let mut d = self.diag_neighbors(row, col);
        n.append(&mut c);
        n.append(&mut d);
        proof {
            if !in_bounds(self@, row, col) {
                assert(n@ =~= Seq::<(usize, usize)>::empty());
            }
        }
        n
    }

    /// Fold the grid "up" at `row`: row `row - 1` is combined with row
    /// `row + 1`, row `row - 2` with row `row + 2`, and so on, mirroring
    /// across the fold line, until either side runs out of rows. Each pair of
    /// cells is combined column by column as `combine(new_cell, old_cell)`,
    /// writing the result to the `new` position above the fold line. All rows
    /// at or past `row` are then discarded; returns the resulting row count.
    pub fn fold_at_row<F: Fn(&T, &T) -> T>(&mut self, row: usize, combine: F) -> (r: usize)
        requires
            old(self).wf(),
            forall|a: &T, b: &T| #[trigger] call_requires(combine, (a, b)),
        ensures
            r == grid_rows(final(self)@),
            grid_rows(final(self)@) == if row as int <= grid_rows(old(self)@) {
                row as int
            } else {
                grid_rows(old(self)@)
            },
            forall|i: int|
                0 <= i < grid_rows(final(self)@) && !(row - fold_pair_count(
                    row as int,
                    grid_rows(old(self)@),
                ) <= i < row) ==> final(self)@[i] == old(self)@[i],
            forall|i: int|
                row - fold_pair_count(row as int, grid_rows(old(self)@)) <= i < row
                    ==> #[trigger] final(self)@[i].len() == old(self)@[i].len(),
            forall|i: int, x: int|
                row - fold_pair_count(row as int, grid_rows(old(self)@)) <= i < row && 0 <= x
                    < grid_cols(old(self)@) ==> call_ensures(
                    combine,
                    (&old(self)@[i][x], &old(self)@[2 * row - i][x]),
                    #[trigger] final(self)@[i][x],
                ),
            final(self).wf(),
    {
        let rows = self.grid.len();
        if row >= rows {
            return rows;
        }
        let cols = self.cols_len();
        let below = rows - row - 1;
        let pairs = if row < below {
            row
        } else {
            below
        };
        for k in 0..pairs
            invariant
                old(self).wf(),
                self@.len() == rows == old(self)@.len(),
                cols == grid_cols(old(self)@),
                row < rows,
                pairs == fold_pair_count(row as int, rows as int),
                pairs <= row,
                forall|a: &T, b: &T| #[trigger] call_requires(combine, (a, b)),
                forall|i: int|
                    0 <= i < rows && !(row - k <= i < row) ==> self@[i] == old(self)@[i],
                forall|i: int|
                    row - k <= i < row ==> #[trigger] self@[i].len() == old(self)@[i].len(),
                forall|i: int, x: int|
                    row - k <= i < row && 0 <= x < cols ==> call_ensures(
                        combine,
                        (&old(self)@[i][x], &old(self)@[2 * row - i][x]),
                        #[trigger] self@[i][x],
                    ),
        {
            let target = row - 1 - k;
            let source = row + 1 + k;
            proof {
                assert(self@[target as int] == old(self)@[target as int]);
                assert(self@[source as int] == old(self)@[source as int]);
                assert(old(self)@[target as int].len() == cols);
                assert(old(self)@[source as int].len() == cols);
            }
            let mut new_row: Vec<T> = Vec::with_capacity(cols);
            for x in 0..cols
                invariant
                    forall|a: &T, b: &T| #[trigger] call_requires(combine, (a, b)),
                    self@.len() == rows,
                    target < row < rows,
                    source < rows,
                    self@[target as int] == old(self)@[target as int],
                    self@[source as int] == old(self)@[source as int],
                    old(self)@[target as int].len() == cols,
                    old(self)@[source as int].len() == cols,
                    new_row@.len() == x,
                    forall|j: int|
                        0 <= j < x ==> call_ensures(
                            combine,
                            (&old(self)@[target as int][j], &old(self)@[source as int][j]),
                            #[trigger] new_row@[j],
                        ),
            {
                let v = combine(&self.grid[target][x], &self.grid[source][x]);
                new_row.push(v);
            }
            let ghost pre = self@;
            self.grid[target] = new_row;
            proof {
                assert(self@[target as int] == new_row@);
                assert(source == 2 * row - target);
                assert forall|i: int| 0 <= i < rows && !(row - (k + 1) <= i < row) implies self@[i]
                    == old(self)@[i] by {
                    assert(self@[i] == pre[i]);
                    assert(pre[i] == old(self)@[i]);
                }
                assert forall|i: int| row - (k + 1) <= i < row implies #[trigger] self@[i].len()
                    == old(self)@[i].len() by {
                    if i == target {
                        assert(self@[i] == new_row@);
                    } else {
                        assert(self@[i] == pre[i]);
                        assert(pre[i].len() == old(self)@[i].len());
                    }
                }
                assert forall|i: int, x: int|
                    row - (k + 1) <= i < row && 0 <= x < cols implies call_ensures(
                    combine,
                    (&old(self)@[i][x], &old(self)@[2 * row - i][x]),
                    #[trigger] self@[i][x],
                ) by {
                    if i == target {
                        assert(self@[i] == new_row@);
                        assert(call_ensures(
                            combine,
                            (&old(self)@[target as int][x], &old(self)@[source as int][x]),
                            new_row@[x],
                        ));
                    } else {
                        assert(self@[i] == pre[i]);
                        assert(call_ensures(
                            combine,
                            (&old(self)@[i][x], &old(self)@[2 * row - i][x]),
                            pre[i][x],
                        ));
                    }
                }
            }
        }
        let ghost mid = self@;
        self.truncate_rows(row);
        proof {
            assert forall|i: int| 0 <= i < self@.len() implies #[trigger] self@[i].len() == old(
                self,
            )@[i].len() by {
                assert(self@[i] == mid[i]);
                if row - pairs <= i < row {
                    assert(mid[i].len() == old(self)@[i].len());
                } else {
                    assert(mid[i] == old(self)@[i]);
                }
            }
            assert forall|i: int| 0 <= i < self@.len() implies #[trigger] self@[i].len()
                == grid_cols(self@) by {
                assert(self@[i].len() == old(self)@[i].len());
                assert(old(self)@[i].len() == grid_cols(old(self)@));
                assert(self@[0].len() == old(self)@[0].len());
                assert(old(self)@[0].len() == grid_cols(old(self)@));
            }
        }
        self.rows_len()
    }

    /// Borrow the rows as a vector of row vectors.
    pub fn rows(&self) -> (r: &Vec<Vec<T>>)
        ensures
            r@.len() == self@.len(),
            forall|i: int| 0 <= i < self@.len() ==> #[trigger] r@[i]@ == self@[i],
    {
        &self.grid
    }

    /// Mutably borrow the rows as a vector of row vectors. Mutation through
    /// the borrow is not validated, so it can break rectangularity.
    pub fn rows_mut(&mut self) -> (r: &mut Vec<Vec<T>>)
        ensures
            (*r)@.len() == old(self)@.len(),
            forall|i: int| 0 <= i < old(self)@.len() ==> #[trigger] (*r)@[i]@ == old(self)@[i],
            final(self)@.len() == (*final(r))@.len(),
            forall|i: int|
                0 <= i < (*final(r))@.len() ==> #[trigger] final(self)@[i] == (*final(r))@[i]@,
    {
        &mut self.grid
    }
}

} // verus!
