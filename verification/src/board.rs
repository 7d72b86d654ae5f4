//! The board's data model: tile colours, cell contents, alignments, the
//! 6×22 grid and the small enums and records shared by server and viewers.

use vstd::prelude::*;

use crate::text::{chars_of, push_decimal, push_str, string_of, str_eq, decimal};

verus! {

/// Number of rows on the board.
pub const BOARD_ROWS: usize = 6;

/// Number of columns on the board.
pub const BOARD_COLS: usize = 22;

/// The 8 Vestaboard-compatible tile colors.
#[derive(Debug, Clone, Copy, PartialEq, Eq, Structural)]
pub enum Color {
    Red,
    Orange,
    Yellow,
    Green,
    Blue,
    Violet,
    White,
    Black,
}

/// Content of a single board cell.
#[derive(Debug, Clone, Copy, PartialEq, Eq, Structural)]
pub enum CellContent {
    Char(char),
    Color(Color),
    Blank,
}

impl Default for CellContent {
    fn default() -> (c: Self)
        ensures
            c == CellContent::Blank,
    {
        CellContent::Blank
    }
}

/// Horizontal text alignment.
#[derive(Debug, Clone, Copy, PartialEq, Eq, Structural)]
pub enum HAlign {
    Left,
    Center,
    Right,
}

impl Default for HAlign {
    fn default() -> (a: Self)
        ensures
            a == HAlign::Center,
    {
        HAlign::Center
    }
}

/// Vertical text alignment.
#[derive(Debug, Clone, Copy, PartialEq, Eq, Structural)]
pub enum VAlign {
    Top,
    Middle,
}

impl Default for VAlign {
    fn default() -> (a: Self)
        ensures
            a == VAlign::Middle,
    {
        VAlign::Middle
    }
}

/// A 6×22 board grid, stored row by row.
#[derive(Debug, PartialEq, Eq)]
pub struct Grid(pub Vec<Vec<CellContent>>);

impl View for Grid {
    type V = Seq<Seq<CellContent>>;

    open spec fn view(&self) -> Seq<Seq<CellContent>> {
        self.0@.map_values(|r: Vec<CellContent>| r@)
    }
}

/// Whether `g` has exactly `BOARD_ROWS` rows of `BOARD_COLS` cells.
pub open spec fn well_formed(g: Seq<Seq<CellContent>>) -> bool {
    &&& g.len() == BOARD_ROWS
    &&& forall|r: int| 0 <= r < g.len() ==> #[trigger] g[r].len() == BOARD_COLS
}

/// The grid whose cells are all blank.
pub open spec fn blank_grid() -> Seq<Seq<CellContent>> {
    Seq::new(BOARD_ROWS as nat, |r: int| Seq::new(BOARD_COLS as nat, |c: int| CellContent::Blank))
}

/// The index of the first row of `g` that does not have `BOARD_COLS` cells,
/// or `g.len()` when every row does.
pub open spec fn first_short_row(g: Seq<Seq<CellContent>>) -> int
    decreases g.len(),
{
    if g.len() == 0 {
        0
    } else if g[0].len() != BOARD_COLS {
        0
    } else {
        1 + first_short_row(g.drop_first())
    }
}

/// The message with which `Grid::validate` rejects `g`, if it does.
pub open spec fn validation_error(g: Seq<Seq<CellContent>>) -> Option<Seq<char>> {
    if g.len() != BOARD_ROWS {
        Some("grid must have 6 rows, got "@ + decimal(g.len()))
    } else if first_short_row(g) < g.len() {
        let i = first_short_row(g);
        Some("row "@ + decimal(i as nat) + " must have 22 columns, got "@ + decimal(g[i].len()))
    } else {
        None
    }
}

proof fn lemma_first_short_row(g: Seq<Seq<CellContent>>)
    ensures
        0 <= first_short_row(g) <= g.len(),
        forall|r: int| 0 <= r < first_short_row(g) ==> #[trigger] g[r].len() == BOARD_COLS,
        first_short_row(g) < g.len() ==> g[first_short_row(g)].len() != BOARD_COLS,
    decreases g.len(),
{
    if g.len() > 0 && g[0].len() == BOARD_COLS {
        lemma_first_short_row(g.drop_first());
        assert forall|r: int| 0 <= r < first_short_row(g) implies #[trigger] g[r].len()
            == BOARD_COLS by {
            if r > 0 {
                assert(g[r] == g.drop_first()[r - 1]);
            }
        }
    }
}

impl Default for Grid {
    /// The blank grid.
    fn default() -> (g: Self)
        ensures
            g@ == blank_grid(),
    {
        Grid::blank()
    }
}

impl Grid {
    /// Create a blank grid (all cells `Blank`).
    pub fn blank() -> (g: Grid)
        ensures
            g@ == blank_grid(),
            well_formed(g@),
    {
        let mut rows: Vec<Vec<CellContent>> = Vec::new();
        let mut r: usize = 0;
        while r < BOARD_ROWS
            invariant
                0 <= r <= BOARD_ROWS,
                rows@.len() == r,
                forall|i: int|
                    0 <= i < r ==> #[trigger] rows@[i]@ == Seq::new(
                        BOARD_COLS as nat,
                        |c: int| CellContent::Blank,
                    ),
            decreases BOARD_ROWS - r,
        {
            let mut row: Vec<CellContent> = Vec::new();
            let mut c: usize = 0;
            while c < BOARD_COLS
                invariant
                    0 <= c <= BOARD_COLS,
                    row@ == Seq::new(c as nat, |k: int| CellContent::Blank),
                decreases BOARD_COLS - c,
            {
                row.push(CellContent::Blank);
                c = c + 1;
                assert(row@ == Seq::new(c as nat, |k: int| CellContent::Blank));
            }
            rows.push(row);
            r = r + 1;
        }
        let g = Grid(rows);
        assert(g@ =~= blank_grid());
        g
    }

    /// Validate that the grid is exactly 6×22.
    pub fn validate(&self) -> (res: Result<(), String>)
        ensures
            res is Ok <==> well_formed(self@),
            res is Ok <==> validation_error(self@) is None,
            res matches Err(m) ==> validation_error(self@) == Some(m@),
    {
        proof {
            lemma_first_short_row(self@);
        }
        if self.0.len() != BOARD_ROWS {
            let mut m: Vec<char> = Vec::new();
            push_str(&mut m, "grid must have 6 rows, got ");
            push_decimal(&mut m, self.0.len() as u64);
            return Err(string_of(m.as_slice()));
        }
        let mut i: usize = 0;
        while i < self.0.len()
            invariant
                0 <= i <= self@.len(),
                self@.len() == BOARD_ROWS,
                0 <= first_short_row(self@) <= self@.len(),
                forall|r: int| 0 <= r < first_short_row(self@) ==> #[trigger] self@[r].len() == BOARD_COLS,
                first_short_row(self@) < self@.len() ==> self@[first_short_row(self@)].len() != BOARD_COLS,
                forall|r: int| 0 <= r < i ==> #[trigger] self@[r].len() == BOARD_COLS,
            decreases self@.len() - i,
        {
            assert(self@[i as int] == self.0@[i as int]@);
            if self.0[i].len() != BOARD_COLS {
                proof {
                    let f = first_short_row(self@);
                    if f < i {
                        assert(self@[f].len() == BOARD_COLS);
                    }
                    if f > i {
                        assert(self@[i as int].len() == BOARD_COLS);
                    }
                }
                assert(first_short_row(self@) == i);
                let mut m: Vec<char> = Vec::new();
                push_str(&mut m, "row ");
                push_decimal(&mut m, i as u64);
                push_str(&mut m, " must have 22 columns, got ");
                push_decimal(&mut m, self.0[i].len() as u64);
                return Err(string_of(m.as_slice()));
            }
            i = i + 1;
        }
        assert(first_short_row(self@) == self@.len());
        Ok(())
    }
}

} // verus!

verus! {

/// The smaller of two integers.
pub open spec fn min(a: int, b: int) -> int {
    if a < b {
        a
    } else {
        b
    }
}

/// The columns among the first `n` where rows `a` and `b` differ, as
/// positions in row `r`, left to right.
pub open spec fn row_diffs(a: Seq<CellContent>, b: Seq<CellContent>, r: int, n: int) -> Seq<
    (usize, usize),
>
    decreases n,
{
    if n <= 0 {
        Seq::empty()
    } else {
        row_diffs(a, b, r, n - 1) + if a[n - 1] != b[n - 1] {
            seq![(r as usize, (n - 1) as usize)]
        } else {
            Seq::empty()
        }
    }
}

/// The positions, in row-major order, where the first `n` rows of `a` and
/// `b` differ (comparing each pair of rows over their common length).
pub open spec fn grid_diffs(a: Seq<Seq<CellContent>>, b: Seq<Seq<CellContent>>, n: int) -> Seq<
    (usize, usize),
>
    decreases n,
{
    if n <= 0 {
        Seq::empty()
    } else {
        grid_diffs(a, b, n - 1) + row_diffs(
            a[n - 1],
            b[n - 1],
            n - 1,
            min(a[n - 1].len() as int, b[n - 1].len() as int),
        )
    }
}

/// The positions where grids `a` and `b` differ, row by row, over their
/// common rows and columns.
pub open spec fn diffs(a: Seq<Seq<CellContent>>, b: Seq<Seq<CellContent>>) -> Seq<(usize, usize)> {
    grid_diffs(a, b, min(a.len() as int, b.len() as int))
}

/// Whether `(r, c)` is a position that both grids have and where they differ.
pub open spec fn differs_at(a: Seq<Seq<CellContent>>, b: Seq<Seq<CellContent>>, r: int, c: int) -> bool {
    &&& 0 <= r < min(a.len() as int, b.len() as int)
    &&& 0 <= c < min(a[r].len() as int, b[r].len() as int)
    &&& a[r][c] != b[r][c]
}

impl Grid {
    /// Compare two grids and return the (row, col) positions of cells that differ.
    pub fn diff_grids(old: &Grid, new: &Grid) -> (d: Vec<(usize, usize)>)
        ensures
            d@ == diffs(old@, new@),
    {
        let mut d: Vec<(usize, usize)> = Vec::new();
        let nr = if old.0.len() < new.0.len() {
            old.0.len()
        } else {
            new.0.len()
        };
        let mut r: usize = 0;
        while r < nr
            invariant
                0 <= r <= nr,
                nr == min(old@.len() as int, new@.len() as int),
                d@ == grid_diffs(old@, new@, r as int),
            decreases nr - r,
        {
            let a = &old.0[r];
            let b = &new.0[r];
            assert(a@ == old@[r as int] && b@ == new@[r as int]);
            let nc = if a.len() < b.len() {
                a.len()
            } else {
                b.len()
            };
            let mut c: usize = 0;
            while c < nc
                invariant
                    0 <= c <= nc,
                    nc == min(a@.len() as int, b@.len() as int),
                    d@ == grid_diffs(old@, new@, r as int) + row_diffs(a@, b@, r as int, c as int),
                decreases nc - c,
            {
                if a[c] != b[c] {
                    d.push((r, c));
                }
                c = c + 1;
                assert(d@ =~= grid_diffs(old@, new@, r as int) + row_diffs(a@, b@, r as int, c as int));
            }
            r = r + 1;
            assert(d@ =~= grid_diffs(old@, new@, r as int));
        }
        d
    }

    /// Returns true if the two grids are identical (no cells differ).
    pub fn grids_are_identical(old: &Grid, new: &Grid) -> (b: bool)
        ensures
            b == (diffs(old@, new@).len() == 0),
    {
        Grid::diff_grids(old, new).len() == 0
    }
}

proof fn lemma_row_diffs(a: Seq<CellContent>, b: Seq<CellContent>, r: int, n: int)
    requires
        0 <= r < 1000,
        0 <= n <= a.len(),
        n <= b.len(),
        n < 1000,
    ensures
        forall|k: int|
            0 <= k < row_diffs(a, b, r, n).len() ==> (#[trigger] row_diffs(a, b, r, n)[k]).0 == r
                && 0 <= row_diffs(a, b, r, n)[k].1 < n && a[row_diffs(a, b, r, n)[k].1 as int]
                != b[row_diffs(a, b, r, n)[k].1 as int],
        forall|c: int|
            0 <= c < n && a[c] != b[c] ==> row_diffs(a, b, r, n).contains((r as usize, c as usize)),
    decreases n,
{
    if n > 0 {
        lemma_row_diffs(a, b, r, n - 1);
        let p = row_diffs(a, b, r, n - 1);
        let q = row_diffs(a, b, r, n);
        assert forall|k: int| 0 <= k < q.len() implies (#[trigger] q[k]).0 == r && 0 <= q[k].1 < n
            && a[q[k].1 as int] != b[q[k].1 as int] by {
            if k < p.len() {
                assert(q[k] == p[k]);
            }
        }
        assert forall|c: int| 0 <= c < n && a[c] != b[c] implies q.contains(
            (r as usize, c as usize),
        ) by {
            if c < n - 1 {
                let k = choose|k: int| 0 <= k < p.len() && p[k] == (r as usize, c as usize);
                assert(q[k] == p[k]);
            } else {
                assert(q[p.len() as int] == (r as usize, c as usize));
            }
        }
    }
}

proof fn lemma_grid_diffs(a: Seq<Seq<CellContent>>, b: Seq<Seq<CellContent>>, n: int)
    requires
        well_formed(a),
        well_formed(b),
        0 <= n <= BOARD_ROWS,
    ensures
        forall|k: int|
            0 <= k < grid_diffs(a, b, n).len() ==> 0 <= (#[trigger] grid_diffs(a, b, n)[k]).0 < n
                && 0 <= grid_diffs(a, b, n)[k].1 < BOARD_COLS && a[grid_diffs(a, b, n)[k].0 as int][grid_diffs(a, b, n)[k].1 as int]
                != b[grid_diffs(a, b, n)[k].0 as int][grid_diffs(a, b, n)[k].1 as int],
        forall|r: int, c: int|
            0 <= r < n && 0 <= c < BOARD_COLS && a[r][c] != b[r][c] ==> grid_diffs(a, b, n).contains(
                (r as usize, c as usize),
            ),
    decreases n,
{
    if n > 0 {
        lemma_grid_diffs(a, b, n - 1);
        let p = grid_diffs(a, b, n - 1);
        assert(a[n - 1].len() == BOARD_COLS && b[n - 1].len() == BOARD_COLS);
        lemma_row_diffs(a[n - 1], b[n - 1], n - 1, BOARD_COLS as int);
        let rd = row_diffs(a[n - 1], b[n - 1], n - 1, BOARD_COLS as int);
        let q = grid_diffs(a, b, n);
        assert(q == p + rd);
        assert forall|k: int| 0 <= k < q.len() implies 0 <= (#[trigger] q[k]).0 < n && 0 <= q[k].1
            < BOARD_COLS && a[q[k].0 as int][q[k].1 as int] != b[q[k].0 as int][q[k].1 as int] by {
            if k < p.len() {
                assert(q[k] == p[k]);
            } else {
                assert(q[k] == rd[k - p.len()]);
            }
        }
        assert forall|r: int, c: int|
            0 <= r < n && 0 <= c < BOARD_COLS && a[r][c] != b[r][c] implies q.contains(
            (r as usize, c as usize),
        ) by {
            if r < n - 1 {
                let k = choose|k: int| 0 <= k < p.len() && p[k] == (r as usize, c as usize);
                assert(q[k] == p[k]);
            } else {
                let k = choose|k: int| 0 <= k < rd.len() && rd[k] == (r as usize, c as usize);
                assert(q[p.len() + k] == rd[k]);
            }
        }
    }
}

/// For two 6×22 grids, `diff_grids` lists exactly the positions whose cells
/// differ, and the grids are identical exactly when they are equal.
pub proof fn lemma_diffs_exact(a: Seq<Seq<CellContent>>, b: Seq<Seq<CellContent>>)
    requires
        well_formed(a),
        well_formed(b),
    ensures
        forall|r: int, c: int|
            0 <= r < BOARD_ROWS && 0 <= c < BOARD_COLS ==> (diffs(a, b).contains(
                (r as usize, c as usize),
            ) <==> a[r][c] != b[r][c]),
        (diffs(a, b).len() == 0) <==> a == b,
{
    lemma_grid_diffs(a, b, BOARD_ROWS as int);
    let d = diffs(a, b);
    assert(d == grid_diffs(a, b, BOARD_ROWS as int));
    assert forall|r: int, c: int| 0 <= r < BOARD_ROWS && 0 <= c < BOARD_COLS implies (d.contains(
        (r as usize, c as usize),
    ) <==> a[r][c] != b[r][c]) by {
        if d.contains((r as usize, c as usize)) {
            let k = choose|k: int| 0 <= k < d.len() && d[k] == (r as usize, c as usize);
            assert(d[k].0 as int == r && d[k].1 as int == c);
        }
    }
    if d.len() == 0 {
        assert forall|r: int| 0 <= r < BOARD_ROWS implies a[r] == b[r] by {
            assert forall|c: int| 0 <= c < BOARD_COLS implies a[r][c] == b[r][c] by {
                if a[r][c] != b[r][c] {
                    assert(d.contains((r as usize, c as usize)));
                }
            }
            assert(a[r] =~= b[r]);
        }
        assert(a =~= b);
    }
    if a == b && d.len() > 0 {
        assert(a[d[0].0 as int][d[0].1 as int] != b[d[0].0 as int][d[0].1 as int]);
    }
}

/// Whether position `p` comes before position `q` in row-major order.
pub open spec fn before(p: (usize, usize), q: (usize, usize)) -> bool {
    p.0 < q.0 || (p.0 == q.0 && p.1 < q.1)
}

/// Whether the positions of `s` are in strictly increasing row-major order.
pub open spec fn strictly_row_major(s: Seq<(usize, usize)>) -> bool {
    forall|i: int, j: int| 0 <= i < j < s.len() ==> before(#[trigger] s[i], #[trigger] s[j])
}

proof fn lemma_row_diffs_sorted(a: Seq<CellContent>, b: Seq<CellContent>, r: int, n: int)
    requires
        0 <= r < 1000,
        0 <= n <= a.len(),
        n <= b.len(),
        n < 1000,
    ensures
        strictly_row_major(row_diffs(a, b, r, n)),
    decreases n,
{
    if n > 0 {
        lemma_row_diffs_sorted(a, b, r, n - 1);
        lemma_row_diffs(a, b, r, n - 1);
        let p = row_diffs(a, b, r, n - 1);
        let q = row_diffs(a, b, r, n);
        assert forall|i: int, j: int| 0 <= i < j < q.len() implies before(#[trigger] q[i], #[trigger] q[j]) by {
            assert(q[i] == p[i]);
            if j < p.len() {
                assert(q[j] == p[j]);
            } else {
                assert(q[j] == (r as usize, (n - 1) as usize));
                assert(p[i].0 == r && p[i].1 < n - 1);
            }
        }
    }
}

proof fn lemma_grid_diffs_sorted(a: Seq<Seq<CellContent>>, b: Seq<Seq<CellContent>>, n: int)
    requires
        well_formed(a),
        well_formed(b),
        0 <= n <= BOARD_ROWS,
    ensures
        strictly_row_major(grid_diffs(a, b, n)),
    decreases n,
{
    if n > 0 {
        lemma_grid_diffs_sorted(a, b, n - 1);
        lemma_grid_diffs(a, b, n - 1);
        assert(a[n - 1].len() == BOARD_COLS && b[n - 1].len() == BOARD_COLS);
        lemma_row_diffs(a[n - 1], b[n - 1], n - 1, BOARD_COLS as int);
        lemma_row_diffs_sorted(a[n - 1], b[n - 1], n - 1, BOARD_COLS as int);
        let p = grid_diffs(a, b, n - 1);
        let rd = row_diffs(a[n - 1], b[n - 1], n - 1, BOARD_COLS as int);
        let q = grid_diffs(a, b, n);
        assert(q == p + rd);
        assert forall|i: int, j: int| 0 <= i < j < q.len() implies before(#[trigger] q[i], #[trigger] q[j]) by {
            if j < p.len() {
                assert(q[i] == p[i] && q[j] == p[j]);
            } else if i >= p.len() {
                assert(q[i] == rd[i - p.len()] && q[j] == rd[j - p.len()]);
            } else {
                assert(q[i] == p[i] && q[j] == rd[j - p.len()]);
                assert(p[i].0 < n - 1);
            }
        }
    }
}

proof fn lemma_row_diffs_symmetric(a: Seq<CellContent>, b: Seq<CellContent>, r: int, n: int)
    ensures
        row_diffs(a, b, r, n) == row_diffs(b, a, r, n),
    decreases n,
{
    if n > 0 {
        lemma_row_diffs_symmetric(a, b, r, n - 1);
    }
}

proof fn lemma_grid_diffs_symmetric(a: Seq<Seq<CellContent>>, b: Seq<Seq<CellContent>>, n: int)
    ensures
        grid_diffs(a, b, n) == grid_diffs(b, a, n),
    decreases n,
{
    if n > 0 {
        lemma_grid_diffs_symmetric(a, b, n - 1);
        let m = min(a[n - 1].len() as int, b[n - 1].len() as int);
        assert(m == min(b[n - 1].len() as int, a[n - 1].len() as int));
        lemma_row_diffs_symmetric(a[n - 1], b[n - 1], n - 1, m);
    }
}

/// `diff_grids` of two 6×22 grids lists its positions in strictly
/// increasing row-major order, so none twice, and does not depend on which
/// grid comes first.
pub proof fn lemma_diffs_ordered_and_symmetric(a: Seq<Seq<CellContent>>, b: Seq<Seq<CellContent>>)
    requires
        well_formed(a),
        well_formed(b),
    ensures
        strictly_row_major(diffs(a, b)),
        forall|i: int, j: int| 0 <= i < j < diffs(a, b).len() ==> diffs(a, b)[i] != diffs(a, b)[j],
        diffs(a, b) == diffs(b, a),
{
    lemma_grid_diffs_sorted(a, b, BOARD_ROWS as int);
    assert(diffs(a, b) == grid_diffs(a, b, BOARD_ROWS as int));
    let d = diffs(a, b);
    assert forall|i: int, j: int| 0 <= i < j < d.len() implies d[i] != d[j] by {
        assert(before(d[i], d[j]));
    }
    lemma_grid_diffs_symmetric(a, b, BOARD_ROWS as int);
    assert(diffs(b, a) == grid_diffs(b, a, BOARD_ROWS as int));
}

} // verus!

verus! {

impl Clone for Grid {
    fn clone(&self) -> (r: Self)
        ensures
            r@ == self@,
    {
        let mut rows: Vec<Vec<CellContent>> = Vec::new();
        let mut i: usize = 0;
        while i < self.0.len()
            invariant
                0 <= i <= self@.len(),
                rows@.len() == i,
                forall|k: int| 0 <= k < i ==> #[trigger] rows@[k]@ == self@[k],
            decreases self@.len() - i,
        {
            let src = &self.0[i];
            let mut row: Vec<CellContent> = Vec::new();
            let mut j: usize = 0;
            while j < src.len()
                invariant
                    0 <= j <= src@.len(),
                    row@ == src@.take(j as int),
                decreases src@.len() - j,
            {
                row.push(src[j]);
                j = j + 1;
                assert(row@ =~= src@.take(j as int));
            }
            assert(src@.take(src@.len() as int) == src@);
            rows.push(row);
            i = i + 1;
        }
        let g = Grid(rows);
        assert(g@ =~= self@);
        g
    }
}

/// A point in time: whole seconds since the Unix epoch and the nanoseconds
/// past that second.
#[derive(Debug, Clone, Copy, PartialEq, Eq, Structural)]
pub struct Timestamp {
    pub secs: i64,
    pub nanos: u32,
}

impl Timestamp {
    /// Whether the nanosecond part is below one second.
    pub open spec fn wf(&self) -> bool {
        self.nanos < 1_000_000_000
    }

    /// The instant in nanoseconds since the epoch.
    pub open spec fn total_nanos(&self) -> int {
        self.secs * 1_000_000_000 + self.nanos
    }

    /// Whether `self` is a later instant than `other` (seconds first, then
    /// the nanosecond part).
    pub open spec fn later_than(&self, other: Timestamp) -> bool {
        self.secs > other.secs || (self.secs == other.secs && self.nanos > other.nanos)
    }

    /// Tests whether `self` is a later instant than `other`.
    pub fn is_after(&self, other: &Timestamp) -> (b: bool)
        ensures
            b == self.later_than(*other),
    {
        self.secs > other.secs || (self.secs == other.secs && self.nanos > other.nanos)
    }
}

/// The kind of item in the display queue.
#[derive(Debug, Clone, Copy, PartialEq, Eq, Structural)]
pub enum QueueItemKind {
    Message,
    Countdown,
}

/// Abbreviated info about the currently displayed queue item.
#[derive(Debug)]
pub struct QueueItemInfo {
    pub id: u128,
    pub kind: QueueItemKind,
    pub label: String,
}

impl Clone for QueueItemInfo {
    fn clone(&self) -> (r: Self)
        ensures
            r.id == self.id,
            r.kind == self.kind,
            r.label@ == self.label@,
    {
        QueueItemInfo { id: self.id, kind: self.kind, label: self.label.clone() }
    }
}

/// Built-in board themes.
#[derive(Debug, Clone, Copy, PartialEq, Eq, Structural)]
pub enum ThemeKind {
    /// Traditional split-flap: black background, warm yellow text.
    Classic,
    /// Modern minimal: dark gray background, white text.
    Dark,
    /// User-defined colors via config.
    Custom,
}

impl Default for ThemeKind {
    fn default() -> (t: Self)
        ensures
            t == ThemeKind::Dark,
    {
        ThemeKind::Dark
    }
}

/// The theme a configuration string names; unrecognised names give `Dark`.
pub open spec fn theme_named(s: Seq<char>) -> ThemeKind {
    if s == "classic"@ {
        ThemeKind::Classic
    } else if s == "custom"@ {
        ThemeKind::Custom
    } else {
        ThemeKind::Dark
    }
}

impl ThemeKind {
    /// Parse a string into a ThemeKind, defaulting to Dark for unrecognized values.
    pub fn from_str_lossy(s: &str) -> (t: ThemeKind)
        ensures
            t == theme_named(s@),
    {
        proof {
            reveal_strlit("classic");
            reveal_strlit("dark");
            reveal_strlit("custom");
            assert("dark"@.len() == 4);
            assert("classic"@.len() == 7);
            assert("custom"@.len() == 6);
        }
        if str_eq(s, "classic") {
            ThemeKind::Classic
        } else if str_eq(s, "dark") {
            ThemeKind::Dark
        } else if str_eq(s, "custom") {
            ThemeKind::Custom
        } else {
            ThemeKind::Dark
        }
    }
}

/// Whether `c` is an ASCII hexadecimal digit.
pub open spec fn is_hex_digit(c: char) -> bool {
    ('0' <= c <= '9') || ('a' <= c <= 'f') || ('A' <= c <= 'F')
}

/// Whether `s` is a hex colour `#RRGGBB`: seven bytes, a `#` and then only
/// ASCII hex digits.
pub open spec fn is_hex_color(s: Seq<char>) -> bool {
    &&& vstd::utf8::encode_utf8(s).len() == 7
    &&& s.len() > 0
    &&& s[0] == '#'
    &&& forall|i: int| 1 <= i < s.len() ==> is_hex_digit(#[trigger] s[i])
}

/// Custom theme color palette (validated hex colors).
#[derive(Debug)]
pub struct ThemeColors {
    pub board_bg: Option<String>,
    pub tile_bg: Option<String>,
    pub char_color: Option<String>,
}

impl Clone for ThemeColors {
    fn clone(&self) -> (r: Self)
        ensures
            opt_view(r.board_bg) == opt_view(self.board_bg),
            opt_view(r.tile_bg) == opt_view(self.tile_bg),
            opt_view(r.char_color) == opt_view(self.char_color),
    {
        ThemeColors {
            board_bg: clone_opt(&self.board_bg),
            tile_bg: clone_opt(&self.tile_bg),
            char_color: clone_opt(&self.char_color),
        }
    }
}

/// The characters of an optional string.
pub open spec fn opt_view(o: Option<String>) -> Option<Seq<char>> {
    match o {
        Some(s) => Some(s@),
        None => None,
    }
}

fn clone_opt(o: &Option<String>) -> (r: Option<String>)
    ensures
        opt_view(r) == opt_view(*o),
{
    match o {
        Some(s) => Some(s.clone()),
        None => None,
    }
}

/// The first invalid colour of a palette, as the message `validate` gives.
pub open spec fn palette_error(
    board_bg: Option<Seq<char>>,
    tile_bg: Option<Seq<char>>,
    char_color: Option<Seq<char>>,
) -> Option<Seq<char>> {
    if board_bg matches Some(v) && !is_hex_color(v) {
        Some("board_bg must be a valid hex color (#RRGGBB), got: "@ + board_bg->0)
    } else if tile_bg matches Some(v) && !is_hex_color(v) {
        Some("tile_bg must be a valid hex color (#RRGGBB), got: "@ + tile_bg->0)
    } else if char_color matches Some(v) && !is_hex_color(v) {
        Some("char_color must be a valid hex color (#RRGGBB), got: "@ + char_color->0)
    } else {
        None
    }
}

impl ThemeColors {
    /// The palette's colours as character sequences.
    pub open spec fn views(&self) -> (Option<Seq<char>>, Option<Seq<char>>, Option<Seq<char>>) {
        (
            opt_view(self.board_bg),
            opt_view(self.tile_bg),
            opt_view(self.char_color),
        )
    }

    /// Validate that all provided colors are valid hex colors (#RRGGBB).
    pub fn validate(&self) -> (res: Result<(), String>)
        ensures
            res is Ok <==> palette_error(self.views().0, self.views().1, self.views().2) is None,
            res matches Err(m) ==> palette_error(self.views().0, self.views().1, self.views().2)
                == Some(m@),
    {
        if let Some(v) = &self.board_bg {
            if !Self::is_valid_hex(v.as_str()) {
                return Err(Self::invalid("board_bg must be a valid hex color (#RRGGBB), got: ", v));
            }
        }
        if let Some(v) = &self.tile_bg {
            if !Self::is_valid_hex(v.as_str()) {
                return Err(Self::invalid("tile_bg must be a valid hex color (#RRGGBB), got: ", v));
            }
        }
        if let Some(v) = &self.char_color {
            if !Self::is_valid_hex(v.as_str()) {
                return Err(Self::invalid("char_color must be a valid hex color (#RRGGBB), got: ", v));
            }
        }
        Ok(())
    }

    fn invalid(prefix: &str, v: &String) -> (m: String)
        ensures
            m@ == prefix@ + v@,
    {
        let mut out: Vec<char> = Vec::new();
        push_str(&mut out, prefix);
        push_str(&mut out, v.as_str());
        string_of(out.as_slice())
    }

    fn is_valid_hex(s: &str) -> (b: bool)
        ensures
            b == is_hex_color(s@),
    {
        let cs = chars_of(s);
        let ok = Self::hex_chars(cs.as_slice());
        proof {
            let t = s@;
            if t.len() > 0 && t[0] == '#' && forall|i: int| 1 <= i < t.len() ==> is_hex_digit(#[trigger] t[i]) {
                assert(vstd::utf8::is_ascii_chars(t)) by {
                    assert forall|i: int| 0 <= i < t.len() implies '\0' <= #[trigger] t[i] <= '\u{7f}' by {
                        if i > 0 {
                            assert(is_hex_digit(t[i]));
                        }
                    }
                }
                vstd::utf8::is_ascii_chars_encode_utf8(t);
            }
        }
        ok
    }

    /// Whether `cs` is `#` followed by six ASCII hex digits.
    fn hex_chars(cs: &[char]) -> (b: bool)
        ensures
            b == (cs@.len() == 7 && cs@[0] == '#' && forall|i: int|
                1 <= i < cs@.len() ==> is_hex_digit(#[trigger] cs@[i])),
    {
        if cs.len() != 7 || cs[0] != '#' {
            return false;
        }
        let mut i: usize = 1;
        while i < cs.len()
            invariant
                1 <= i <= cs@.len(),
                cs@.len() == 7,
                forall|k: int| 1 <= k < i ==> is_hex_digit(#[trigger] cs@[k]),
            decreases cs@.len() - i,
        {
            let c = cs[i];
            if !(('0' <= c && c <= '9') || ('a' <= c && c <= 'f') || ('A' <= c && c <= 'F')) {
                return false;
            }
            i = i + 1;
        }
        true
    }
}

/// The full board state broadcast to viewers.
#[derive(Debug)]
pub struct BoardState {
    pub grid: Grid,
    pub previous_grid: Grid,
    pub current_item: Option<QueueItemInfo>,
    pub timestamp: Timestamp,
    pub theme: ThemeKind,
    pub theme_colors: Option<ThemeColors>,
}

impl Clone for BoardState {
    fn clone(&self) -> (r: Self)
        ensures
            r.grid@ == self.grid@,
            r.previous_grid@ == self.previous_grid@,
            r.current_item is Some <==> self.current_item is Some,
            r.timestamp == self.timestamp,
            r.theme == self.theme,
            r.theme_colors is Some <==> self.theme_colors is Some,
    {
        BoardState {
            grid: self.grid.clone(),
            previous_grid: self.previous_grid.clone(),
            current_item: match &self.current_item {
                Some(i) => Some(i.clone()),
                None => None,
            },
            timestamp: self.timestamp,
            theme: self.theme,
            theme_colors: match &self.theme_colors {
                Some(c) => Some(c.clone()),
                None => None,
            },
        }
    }
}

impl BoardState {
    /// The board shown when the queue is empty: the splash screen over a
    /// blank previous grid, the default theme, no current item.
    pub fn splash(timestamp: Timestamp) -> (s: BoardState)
        ensures
            s.grid@ == crate::layout::splash(),
            s.previous_grid@ == blank_grid(),
            s.current_item is None,
            s.timestamp == timestamp,
            s.theme == ThemeKind::Dark,
            s.theme_colors is None,
    {
        BoardState {
            grid: crate::layout::splash_grid(),
            previous_grid: Grid::blank(),
            current_item: None,
            timestamp,
            theme: ThemeKind::default(),
            theme_colors: None,
        }
    }
}

} // verus!
