use vstd::prelude::*;

verus! {

/// Row and column of a widget in a grid.
pub type GridItemIndex = (usize, usize);

/// Collects widgets at grid positions before the grid is laid out.
pub struct GrideBoxBuilder<T> {
    ws: Vec<Vec<Option<T>>>,
    row_index_in_map: Vec<usize>,
    row_col_num: (usize, usize),
}

impl<T> GrideBoxBuilder<T> {
    /// The grid, row by row; `None` marks an empty cell.
    pub closed spec fn rows(&self) -> Seq<Seq<Option<T>>> {
        Seq::new(self.ws@.len(), |i: int| self.ws@[i]@)
    }

    /// The counts that an unplaced widget (`-1`) is placed at: the number of
    /// rows, and the length of the row that last grew.
    pub closed spec fn counts(&self) -> (usize, usize) {
        self.row_col_num
    }

    /// The row count is the number of rows.
    pub open spec fn wf(&self) -> bool {
        self.counts().0 == self.rows().len()
    }

    pub fn new() -> (r: Self)
        ensures
            r.rows() == Seq::<Seq<Option<T>>>::empty(),
            r.counts() == (0usize, 0usize),
            r.wf(),
    {
        GrideBoxBuilder { ws: Vec::new(), row_col_num: (0, 0), row_index_in_map: Vec::new() }
    }

    /// The cell a widget added at `position` goes to: a coordinate of `-1`
    /// means the current count.
    pub open spec fn target(&self, position: (isize, isize)) -> GridItemIndex {
        (
            if position.0 == -1 {
                self.counts().0
            } else {
                position.0 as usize
            },
            if position.1 == -1 {
                self.counts().1
            } else {
                position.1 as usize
            },
        )
    }

    /// Puts `w` at `position`, growing the grid as needed, and returns the
    /// cell it went to. Growing adds empty rows, or empty cells to the
    /// target row; the row count then becomes the number of rows, and the
    /// column count the length of the grown row.
    pub fn add(&mut self, w: T, position: (isize, isize)) -> (pos: GridItemIndex)
        requires
            old(self).wf(),
            position.0 >= -1,
            position.1 >= -1,
            old(self).target(position).0 < usize::MAX,
            old(self).target(position).1 < usize::MAX,
        ensures
            pos == old(self).target(position),
            final(self).wf(),
            ({
                let old_rows = old(self).rows();
                let new_rows = final(self).rows();
                let (i, j) = (pos.0 as int, pos.1 as int);
                let grow_rows = i + 1 > old_rows.len();
                let row_len = if grow_rows { 0 } else { old_rows[i].len() as int };
                let grow_cols = j + 1 > row_len;
                &&& new_rows.len() == if grow_rows { i + 1 } else { old_rows.len() as int }
                &&& forall|k: int| 0 <= k < new_rows.len() && k != i ==> #[trigger] new_rows[k] == (
                    if k < old_rows.len() {
                        old_rows[k]
                    } else {
                        Seq::<Option<T>>::empty()
                    })
                &&& new_rows[i].len() == if grow_cols { j + 1 } else { row_len }
                &&& forall|k: int| 0 <= k < new_rows[i].len() && k != j ==> #[trigger] new_rows[i][k] == (
                    if k < row_len {
                        old_rows[i][k]
                    } else {
                        None
                    })
                &&& new_rows[i][j] == Some(w)
                &&& final(self).counts() == (
                    if grow_rows { (i + 1) as usize } else { old(self).counts().0 },
                    if grow_cols { (j + 1) as usize } else { old(self).counts().1 },
                )
            }),
    {
        let row = if position.0 == -1 {
            self.row_col_num.0
        } else {
            position.0 as usize
        };
        let col = if position.1 == -1 {
            self.row_col_num.1
        } else {
            position.1 as usize
        };
        let ghost old_ws = self.ws@;
        if row + 1 > self.ws.len() {
            while self.ws.len() < row + 1
                invariant
                    row < usize::MAX,
                    old_ws.len() <= self.ws@.len() <= row + 1,
                    forall|k: int| 0 <= k < old_ws.len() ==> #[trigger] self.ws@[k] == old_ws[k],
                    forall|k: int|
                        old_ws.len() <= k < self.ws@.len() ==> (#[trigger] self.ws@[k])@.len() == 0,
                decreases row + 1 - self.ws@.len(),
            {
                self.ws.push(Vec::new());
            }
            self.row_col_num.0 = self.ws.len();
        }
        let ghost mid_ws = self.ws@;
        let mut cells: Vec<Option<T>> = Vec::new();
        std::mem::swap(&mut cells, &mut self.ws[row]);
        let ghost old_row = cells@;
        let grow = col + 1 > cells.len();
        if grow {
            while cells.len() < col + 1
                invariant
                    col < usize::MAX,
                    old_row.len() <= cells@.len() <= col + 1,
                    forall|k: int| 0 <= k < old_row.len() ==> #[trigger] cells@[k] == old_row[k],
                    forall|k: int| old_row.len() <= k < cells@.len() ==> #[trigger] cells@[k] is None,
                decreases col + 1 - cells@.len(),
            {
                cells.push(None);
            }
        }
        if grow {
            self.row_col_num.1 = cells.len();
        }
        cells.set(col, Some(w));
        self.ws.set(row, cells);
        proof {
            assert(self.rows().len() == self.ws@.len());
            assert forall|k: int| 0 <= k < self.rows().len() && k != row implies #[trigger] self.rows()[k] == (
                if k < old(self).rows().len() {
                    old(self).rows()[k]
                } else {
                    Seq::<Option<T>>::empty()
                }) by {
                assert(self.rows()[k] == self.ws@[k]@);
                if k < old_ws.len() {
                    assert(old(self).rows()[k] == old_ws[k]@);
                }
            }
            if row < old_ws.len() {
                assert(old(self).rows()[row as int] == old_row);
            } else {
                assert(old_row.len() == 0);
            }
            assert(self.rows()[row as int] == cells@);
        }
        (row, col)
    }
}

/// The filled cells of row `i`, left to right, with their positions.
pub open spec fn row_cells<T>(i: int, row: Seq<Option<T>>) -> Seq<(GridItemIndex, T)>
    decreases row.len(),
{
    if row.len() == 0 {
        Seq::empty()
    } else {
        row_cells(i, row.drop_last()) + match row.last() {
            Some(w) => seq![((i as usize, (row.len() - 1) as usize), w)],
            None => Seq::empty(),
        }
    }
}

/// The filled cells of a grid, row by row, each row left to right.
pub open spec fn grid_cells<T>(rows: Seq<Seq<Option<T>>>) -> Seq<(GridItemIndex, T)>
    decreases rows.len(),
{
    if rows.len() == 0 {
        Seq::empty()
    } else {
        grid_cells(rows.drop_last()) + row_cells(rows.len() - 1, rows.last())
    }
}

/// The extent of a list of cells: one past the row of the last cell, and
/// one past the largest column; `(0, 0)` for no cells.
pub open spec fn extent<T>(cells: Seq<(GridItemIndex, T)>) -> (int, int)
    decreases cells.len(),
{
    if cells.len() == 0 {
        (0, 0)
    } else {
        let e = extent(cells.drop_last());
        let (i, j) = cells.last().0;
        (i + 1, if e.1 > j + 1 { e.1 } else { j + 1 })
    }
}

proof fn lemma_row_cells<T>(i: int, row: Seq<Option<T>>)
    requires
        0 <= i <= usize::MAX,
        row.len() <= usize::MAX,
    ensures
        forall|k: int| 0 <= k < row_cells(i, row).len() ==> {
            let c = #[trigger] row_cells(i, row)[k];
            &&& c.0.0 == i
            &&& c.0.1 < row.len()
            &&& row[c.0.1 as int] == Some(c.1)
        },
    decreases row.len(),
{
    if row.len() > 0 {
        lemma_row_cells(i, row.drop_last());
        let before = row_cells(i, row.drop_last());
        assert forall|k: int| 0 <= k < row_cells(i, row).len() implies {
            let c = #[trigger] row_cells(i, row)[k];
            &&& c.0.0 == i
            &&& c.0.1 < row.len()
            &&& row[c.0.1 as int] == Some(c.1)
        } by {
            if k < before.len() {
                assert(row_cells(i, row)[k] == before[k]);
                assert(row.drop_last()[before[k].0.1 as int] == row[before[k].0.1 as int]);
            }
        }
    }
}

proof fn lemma_grid_cells<T>(rows: Seq<Seq<Option<T>>>)
    requires
        rows.len() <= usize::MAX,
        forall|r: int| 0 <= r < rows.len() ==> (#[trigger] rows[r]).len() <= usize::MAX,
    ensures
        forall|k: int| 0 <= k < grid_cells(rows).len() ==> {
            let c = #[trigger] grid_cells(rows)[k];
            &&& c.0.0 < rows.len()
            &&& c.0.1 < rows[c.0.0 as int].len()
            &&& rows[c.0.0 as int][c.0.1 as int] == Some(c.1)
        },
        forall|a: int, b: int|
            0 <= a < b < grid_cells(rows).len() ==> (#[trigger] grid_cells(rows)[a]).0.0 <= (
            #[trigger] grid_cells(rows)[b]).0.0,
    decreases rows.len(),
{
    if rows.len() > 0 {
        let n = rows.len() - 1;
        let front = rows.drop_last();
        assert forall|r: int| 0 <= r < front.len() implies (#[trigger] front[r]).len() <= usize::MAX by {
            assert(front[r] == rows[r]);
        }
        lemma_grid_cells(front);
        lemma_row_cells(n, rows.last());
        let g = grid_cells(front);
        let t = row_cells(n, rows.last());
        assert(grid_cells(rows) == g + t);
        assert forall|k: int| 0 <= k < grid_cells(rows).len() implies {
            let c = #[trigger] grid_cells(rows)[k];
            &&& c.0.0 < rows.len()
            &&& c.0.1 < rows[c.0.0 as int].len()
            &&& rows[c.0.0 as int][c.0.1 as int] == Some(c.1)
        } by {
            if k < g.len() {
                assert(grid_cells(rows)[k] == g[k]);
                assert(front[g[k].0.0 as int] == rows[g[k].0.0 as int]);
            } else {
                assert(grid_cells(rows)[k] == t[k - g.len()]);
            }
        }
        assert forall|a: int, b: int|
            0 <= a < b < grid_cells(rows).len() implies (#[trigger] grid_cells(rows)[a]).0.0 <= (
            #[trigger] grid_cells(rows)[b]).0.0 by {
            if b < g.len() {
                assert(grid_cells(rows)[a] == g[a]);
                assert(grid_cells(rows)[b] == g[b]);
            } else if a < g.len() {
                assert(grid_cells(rows)[a] == g[a]);
                assert(grid_cells(rows)[b] == t[b - g.len()]);
            } else {
                assert(grid_cells(rows)[a] == t[a - g.len()]);
                assert(grid_cells(rows)[b] == t[b - g.len()]);
            }
        }
    }
}

proof fn lemma_extent_bounds<T>(cells: Seq<(GridItemIndex, T)>)
    requires
        forall|a: int, b: int| 0 <= a < b < cells.len() ==> (#[trigger] cells[a]).0.0 <= (#[trigger] cells[b]).0.0,
    ensures
        forall|k: int| 0 <= k < cells.len() ==> (#[trigger] cells[k]).0.0 < extent(cells).0 && cells[k].0.1
            < extent(cells).1,
    decreases cells.len(),
{
    if cells.len() > 0 {
        let front = cells.drop_last();
        assert forall|a: int, b: int| 0 <= a < b < front.len() implies (#[trigger] front[a]).0.0 <= (
        #[trigger] front[b]).0.0 by {
            assert(front[a] == cells[a]);
            assert(front[b] == cells[b]);
        }
        lemma_extent_bounds(front);
        assert forall|k: int| 0 <= k < cells.len() implies (#[trigger] cells[k]).0.0 < extent(cells).0
            && cells[k].0.1 < extent(cells).1 by {
            if k < front.len() {
                assert(front[k] == cells[k]);
                assert(cells[k].0.0 <= cells[cells.len() - 1].0.0);
            }
        }
    }
}

/// What `build` lists is every filled cell of the grid, each with the
/// widget at its position, row by row; every listed position lies inside
/// the extent that `build` returns.
pub proof fn lemma_built_cells_in_grid<T>(rows: Seq<Seq<Option<T>>>)
    requires
        rows.len() <= usize::MAX,
        forall|r: int| 0 <= r < rows.len() ==> (#[trigger] rows[r]).len() <= usize::MAX,
    ensures
        forall|k: int| 0 <= k < grid_cells(rows).len() ==> {
            let c = #[trigger] grid_cells(rows)[k];
            &&& rows[c.0.0 as int][c.0.1 as int] == Some(c.1)
            &&& c.0.0 < extent(grid_cells(rows)).0
            &&& c.0.1 < extent(grid_cells(rows)).1
        },
        forall|a: int, b: int|
            0 <= a < b < grid_cells(rows).len() ==> (#[trigger] grid_cells(rows)[a]).0.0 <= (
            #[trigger] grid_cells(rows)[b]).0.0,
{
    lemma_grid_cells(rows);
    lemma_extent_bounds(grid_cells(rows));
}

impl<T> GrideBoxBuilder<T> {
    /// The grid's filled cells, row by row and each row left to right, with
    /// their positions; and the grid's extent: one past the row of the last
    /// filled cell, and one past the largest column that holds a widget.
    pub fn build(self) -> (r: (Vec<(GridItemIndex, T)>, (usize, usize)))
        ensures
            r.0@ == grid_cells(self.rows()),
            r.1.0 == extent(r.0@).0,
            r.1.1 == extent(r.0@).1,
    {
        let ghost rows = self.rows();
        let mut map: Vec<(GridItemIndex, T)> = Vec::new();
        let mut row_col_num: (usize, usize) = (0, 0);
        let mut i: usize = 0;
        let n = self.ws.len();
        for row in it: self.ws
            invariant
                rows.len() == it.seq().len(),
                rows.len() == n,
                forall|k: int| 0 <= k < rows.len() ==> #[trigger] rows[k] == it.seq()[k]@,
                i == it.index(),
                map@ == grid_cells(rows.take(i as int)),
                row_col_num.0 == extent(map@).0,
                row_col_num.1 == extent(map@).1,
        {
            let ghost before = map@;
            let ghost rv = row@;
            assert(rv == rows[i as int]);
            let m = row.len();
            let mut j: usize = 0;
            for col in it2: row
                invariant
                    it2.seq() == rv,
                    rv.len() == m,
                    rows.len() == n,
                    j == it2.index(),
                    i < rows.len(),
                    map@ == before + row_cells(i as int, rv.take(j as int)),
                    row_col_num.0 == extent(map@).0,
                    row_col_num.1 == extent(map@).1,
            {
                proof {
                    assert(rv.take(j + 1).drop_last() == rv.take(j as int));
                    assert(rv.take(j + 1).last() == col);
                }
                match col {
                    Some(w) => {
                        let ghost prev = map@;
                        map.push(((i, j), w));
                        proof {
                            assert(map@.drop_last() == prev);
                            assert(map@ == before + row_cells(i as int, rv.take(j + 1)));
                        }
                        row_col_num.0 = i + 1;
                        if row_col_num.1 < j + 1 {
                            row_col_num.1 = j + 1;
                        }
                    },
                    None => {
                        proof {
                            assert(row_cells(i as int, rv.take(j + 1)) == row_cells(i as int, rv.take(j as int)));
                        }
                    },
                }
                j += 1;
            }
            proof {
                assert(rv.take(rv.len() as int) == rv);
                assert(rows.take(i + 1).drop_last() == rows.take(i as int));
                assert(rows.take(i + 1).last() == rv);
            }
            i += 1;
        }
        proof {
            assert(rows.take(rows.len() as int) == rows);
        }
        (map, row_col_num)
    }
}

/// `ceil(n / c)`.
pub open spec fn ceil_div(n: int, c: int) -> int {
    (n + c - 1) / c
}

/// The largest column count tried for `n` icons: `ceil(sqrt(n))`.
pub open spec fn is_ceil_sqrt(n: int, m: int) -> bool {
    &&& m >= 0
    &&& m * m >= n
    &&& (m == 0 || (m - 1) * (m - 1) < n)
}

/// The arrangement chosen for `n >= 1` icons: among the column counts from 1
/// to `ceil(sqrt(n))`, the first one that needs the fewest rows.
pub open spec fn is_arrangement(n: int, rows: int, cols: int) -> bool {
    exists|max_col: int|
        #![trigger is_ceil_sqrt(n, max_col)]
        is_ceil_sqrt(n, max_col) && 1 <= cols <= max_col && rows == ceil_div(n, cols) && (forall|c: int|
            1 <= c <= max_col ==> #[trigger] ceil_div(n, c) >= rows) && (forall|c: int|
            1 <= c < cols ==> #[trigger] ceil_div(n, c) > rows)
}

/// Rows and columns for `num_icons` icons: the column count (up to
/// `ceil(sqrt(num_icons))`) that needs the fewest rows, the smallest such
/// count on a tie.
pub fn arrangement(num_icons: usize) -> (r: (usize, usize))
    requires
        num_icons >= 1,
    ensures
        is_arrangement(num_icons as int, r.0 as int, r.1 as int),
        r.0 >= 1,
        r.0 as int * r.1 as int >= num_icons,
        (r.0 as int - 1) * (r.1 as int) < num_icons,
{
    let n = num_icons as u128;
    let mut max_col: u128 = 0;
    loop
        invariant
            n == num_icons as u128,
            n <= usize::MAX,
            n >= 1,
            max_col <= n,
            max_col == 0 || (max_col - 1) * (max_col - 1) < n,
        ensures
            max_col <= n,
            is_ceil_sqrt(n as int, max_col as int),
        decreases n - max_col,
    {
        proof {
            assert(max_col * max_col <= u128::MAX) by (nonlinear_arith)
                requires
                    max_col <= n,
                    n <= usize::MAX,
            ;
        }
        if max_col * max_col >= n {
            break;
        }
        proof {
            assert(max_col < n) by (nonlinear_arith)
                requires
                    max_col * max_col < n,
                    n >= 1,
            ;
        }
        max_col = max_col + 1;
    }
    let mut best_cols: u128 = 1;
    let mut min_rows: u128 = n;
    let mut cols: u128 = 1;
    proof {
        assert(ceil_div(n as int, 1) == n);
    }
    while cols <= max_col
        invariant
            n == num_icons as u128,
            n >= 1,
            is_ceil_sqrt(n as int, max_col as int),
            1 <= cols <= max_col + 1,
            1 <= best_cols < cols || (cols == 1 && best_cols == 1),
            best_cols <= max_col,
            min_rows == ceil_div(n as int, best_cols as int),
            cols > 1 ==> forall|c: int| 1 <= c < cols ==> #[trigger] ceil_div(n as int, c) >= min_rows,
            forall|c: int| 1 <= c < best_cols ==> #[trigger] ceil_div(n as int, c) > min_rows,
            max_col <= n,
        decreases max_col + 1 - cols,
    {
        let rows = (n + cols - 1) / cols;
        proof {
            assert(rows as int == ceil_div(n as int, cols as int));
        }
        if rows < min_rows {
            min_rows = rows;
            best_cols = cols;
        }
        cols = cols + 1;
    }
    proof {
        assert(max_col >= 1);
        let rr = min_rows as int;
        let cc = best_cols as int;
        let nn = n as int;
        assert(rr >= 1 && rr <= nn && rr * cc >= nn && (rr - 1) * cc < nn) by (nonlinear_arith)
            requires
                rr == (nn + cc - 1) / cc,
                cc >= 1,
                nn >= 1,
        ;
    }
    (min_rows as usize, best_cols as usize)
}

/// Tray icons laid out in a near-square grid: the icon ids in order, and
/// where each row starts in that order.
pub struct TrayGrid {
    items: Vec<String>,
    row_index: Vec<usize>,
    row_col_num: (usize, usize),
}

impl TrayGrid {
    /// The ids of the icons, in order.
    pub closed spec fn ids(&self) -> Seq<Seq<char>> {
        self.items@.map_values(|s: String| s@)
    }

    /// Index in `ids()` of the first icon of each row.
    pub closed spec fn row_starts(&self) -> Seq<usize> {
        self.row_index@
    }

    /// Rows and columns of the layout.
    pub closed spec fn counts(&self) -> (usize, usize) {
        self.row_col_num
    }

    /// Rows and columns of the layout.
    pub fn row_col_num(&self) -> (r: (usize, usize))
        ensures
            r == self.counts(),
    {
        self.row_col_num
    }

    /// The ids of the icons, in order.
    pub fn items(&self) -> (r: &Vec<String>)
        ensures
            r@.map_values(|s: String| s@) == self.ids(),
    {
        &self.items
    }

    /// Index of the first icon of each row.
    pub fn row_index(&self) -> (r: &Vec<usize>)
        ensures
            r@ == self.row_starts(),
    {
        &self.row_index
    }

    /// The layout matches the icons: an empty grid has no rows; otherwise
    /// rows and columns are the arrangement for that many icons, and row `r`
    /// starts at icon `r * columns`.
    pub open spec fn laid_out(&self) -> bool {
        if self.ids().len() == 0 {
            self.counts() == (0usize, 0usize) && self.row_starts().len() == 0
        } else {
            &&& is_arrangement(self.ids().len() as int, self.counts().0 as int, self.counts().1 as int)
            &&& self.row_starts().len() == self.counts().0
            &&& forall|r: int| 0 <= r < self.row_starts().len() ==> #[trigger] self.row_starts()[r] == r * self.counts().1
        }
    }

    pub fn new() -> (r: Self)
        ensures
            r.ids() == Seq::<Seq<char>>::empty(),
            r.laid_out(),
    {
        TrayGrid { items: Vec::new(), row_index: Vec::new(), row_col_num: (0, 0) }
    }

    /// Lays the icons out again.
    pub fn rearrange(&mut self)
        ensures
            final(self).ids() == old(self).ids(),
            final(self).laid_out(),
    {
        let len = self.items.len();
        proof {
            assert(self.ids().len() == len);
        }
        if len == 0 {
            self.row_col_num = (0, 0);
            self.row_index.clear();
            return;
        }
        let arrangement = arrangement(len);
        self.row_col_num = arrangement;
        self.row_index.clear();
        let rows = arrangement.0;
        let cols = arrangement.1;
        let mut raw_num: usize = 0;
        while raw_num < rows
            invariant
                raw_num <= rows,
                self.ids() == old(self).ids(),
                self.ids().len() == len,
                is_arrangement(len as int, rows as int, cols as int),
                rows == self.row_col_num.0,
                cols == self.row_col_num.1,
                (rows as int - 1) * (cols as int) < len,
                self.row_index@.len() == raw_num,
                forall|r: int| 0 <= r < raw_num ==> #[trigger] self.row_index@[r] == r * cols,
            decreases rows - raw_num,
        {
            proof {
                let ri = raw_num as int;
                let ci = cols as int;
                assert(ri * ci <= (rows as int - 1) * ci) by (nonlinear_arith)
                    requires
                        ri <= rows as int - 1,
                        ci >= 0,
                ;
            }
            self.row_index.push(raw_num * cols);
            raw_num += 1;
        }
    }

    /// Adds an icon at the end and lays the grid out again.
    pub fn add(&mut self, v: String)
        ensures
            final(self).ids() == old(self).ids().push(v@),
            final(self).laid_out(),
    {
        self.items.push(v);
        proof {
            assert(self.ids() == old(self).ids().push(v@));
        }
        self.rearrange();
    }

    /// Removes the first icon whose id is `v`, if there is one, and then
    /// lays the grid out again.
    pub fn rm(&mut self, v: &str)
        ensures
            match first_index_of(old(self).ids(), v@) {
                Some(i) => final(self).ids() == old(self).ids().remove(i) && final(self).laid_out(),
                None => *final(self) == *old(self),
            },
    {
        let key = v.to_owned();
        let mut i: usize = 0;
        while i < self.items.len()
            invariant
                i <= self.items@.len(),
                key@ == v@,
                self.ids() == old(self).ids(),
                *self == *old(self),
                forall|k: int| 0 <= k < i ==> #[trigger] self.ids()[k] != v@,
            decreases self.items@.len() - i,
        {
            if self.items[i] == key {
                proof {
                    lemma_first_index_of(self.ids(), v@, i as int);
                }
                self.items.remove(i);
                proof {
                    assert(self.ids() == old(self).ids().remove(i as int));
                }
                self.rearrange();
                return;
            }
            i += 1;
        }
        proof {
            lemma_no_index_of(self.ids(), v@);
        }
    }
}

/// The index of the first occurrence of `x` in `s`.
pub open spec fn first_index_of(s: Seq<Seq<char>>, x: Seq<char>) -> Option<int>
    decreases s.len(),
{
    if s.len() == 0 {
        None
    } else if s[0] == x {
        Some(0)
    } else {
        match first_index_of(s.drop_first(), x) {
            Some(i) => Some(i + 1),
            None => None,
        }
    }
}

proof fn lemma_first_index_of(s: Seq<Seq<char>>, x: Seq<char>, i: int)
    requires
        0 <= i < s.len(),
        s[i] == x,
        forall|k: int| 0 <= k < i ==> s[k] != x,
    ensures
        first_index_of(s, x) == Some(i),
    decreases i,
{
    if i > 0 {
        lemma_first_index_of(s.drop_first(), x, i - 1);
    }
}

proof fn lemma_no_index_of(s: Seq<Seq<char>>, x: Seq<char>)
    requires
        forall|k: int| 0 <= k < s.len() ==> s[k] != x,
    ensures
        first_index_of(s, x) is None,
    decreases s.len(),
{
    if s.len() > 0 {
        assert(s[0] != x);
        lemma_no_index_of(s.drop_first(), x);
    }
}

/// Adding an icon with a new id and removing it again restores the icons.
pub proof fn lemma_add_then_rm(ids: Seq<Seq<char>>, v: Seq<char>)
    requires
        forall|k: int| 0 <= k < ids.len() ==> ids[k] != v,
    ensures
        first_index_of(ids.push(v), v) == Some(ids.len() as int),
        ids.push(v).remove(ids.len() as int) == ids,
{
    lemma_first_index_of(ids.push(v), v, ids.len() as int);
    assert(ids.push(v).remove(ids.len() as int) =~= ids);
}

} // verus!
