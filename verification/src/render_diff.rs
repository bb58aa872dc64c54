//! Cell-grid render diff: the delta between two consecutive cell grids, so
//! that only changed cells are sent.

use vstd::prelude::*;
use vstd::string::*;

use crate::text;

verus! {

/// Maximum total bytes of a previous-frame buffer before the caller should
/// fall back to a full redraw.
pub const MAX_GRID_BYTES: usize = 1_048_576;

/// A color slot: the terminal's default, a palette index or truecolor.
#[derive(Clone, Copy, Debug, PartialEq, Eq, Hash, Structural)]
pub enum Color {
    Default,
    Idx(u8),
    Rgb(u8, u8, u8),
}

impl Default for Color {
    fn default() -> (r: Self)
        ensures
            r == Color::Default,
    {
        Color::Default
    }
}

/// Cell attributes packed into a single byte.
#[derive(Clone, Copy, Debug, PartialEq, Eq, Hash, Structural)]
pub struct Attrs(u8);

impl Attrs {
    pub const BOLD: u8 = 1;

    pub const ITALIC: u8 = 2;

    pub const UNDERLINE: u8 = 4;

    pub const INVERSE: u8 = 8;

    /// The attribute bits.
    pub closed spec fn spec_bits(self) -> u8 {
        self.0
    }

    pub fn empty() -> (r: Self)
        ensures
            r.spec_bits() == 0,
    {
        Attrs(0)
    }

    pub fn new(bits: u8) -> (r: Self)
        ensures
            r.spec_bits() == bits,
    {
        Attrs(bits)
    }

    pub fn bits(self) -> (r: u8)
        ensures
            r == self.spec_bits(),
    {
        self.0
    }

    /// Tells whether any bit of `flag` is set.
    pub fn contains(self, flag: u8) -> (r: bool)
        ensures
            r == (self.spec_bits() & flag != 0),
    {
        self.0 & flag != 0
    }
}

impl Default for Attrs {
    fn default() -> (r: Self)
        ensures
            r.spec_bits() == 0,
    {
        Attrs(0)
    }
}

/// A single rendered cell. `is_continuation` marks the trailing half of a wide
/// cell.
#[derive(Clone, Copy, Debug, PartialEq, Eq, Hash, Structural)]
pub struct Cell {
    pub ch: char,
    pub fg: Color,
    pub bg: Color,
    pub attrs: Attrs,
    pub is_continuation: bool,
}

/// A cell that shows nothing.
pub open spec fn is_blank(c: Cell) -> bool {
    &&& c.ch == ' '
    &&& c.fg == Color::Default
    &&& c.bg == Color::Default
    &&& c.attrs.spec_bits() == 0
    &&& !c.is_continuation
}

impl Default for Cell {
    fn default() -> (r: Self)
        ensures
            is_blank(r),
    {
        Cell {
            ch: ' ',
            fg: Color::Default,
            bg: Color::Default,
            attrs: Attrs(0),
            is_continuation: false,
        }
    }
}

/// Row-major cell grid: `cells[row * cols + col]`.
#[derive(Debug, PartialEq, Eq)]
pub struct CellGrid {
    rows: u16,
    cols: u16,
    cells: Vec<Cell>,
}

/// What a grid holds.
#[verifier::ext_equal]
pub struct GridView {
    pub rows: u16,
    pub cols: u16,
    pub cells: Seq<Cell>,
}

/// Errors raised by the diff machinery.
#[derive(Clone, Copy, Debug, PartialEq, Eq)]
pub enum GridError {
    SizeMismatch { expected: usize, got: usize },
    OutOfBounds { row: u16, col: u16 },
    DimensionMismatch { prev: (u16, u16), next: (u16, u16) },
}

/// The message of a grid error.
pub open spec fn grid_error_text(e: GridError) -> Seq<char> {
    match e {
        GridError::SizeMismatch { expected, got } => "cell vec size "@ + text::decimal(got as nat)
            + " does not match grid size "@ + text::decimal(expected as nat),
        GridError::OutOfBounds { row, col } => "cell ("@ + text::decimal(row as nat) + ", "@
            + text::decimal(col as nat) + ") out of bounds"@,
        GridError::DimensionMismatch { prev, next } => "grid dimensions changed: prev="@
            + text::decimal(prev.0 as nat) + "x"@ + text::decimal(prev.1 as nat) + " next="@
            + text::decimal(next.0 as nat) + "x"@ + text::decimal(next.1 as nat),
    }
}

impl GridError {
    /// The message shown to a user.
    pub fn to_string(&self) -> (r: String)
        ensures
            r@ == grid_error_text(*self),
    {
        let mut out = String::new();
        match self {
            GridError::SizeMismatch { expected, got } => {
                out.append("cell vec size ");
                out.append(text::decimal_text(*got as u128).as_str());
                out.append(" does not match grid size ");
                out.append(text::decimal_text(*expected as u128).as_str());
            },
            GridError::OutOfBounds { row, col } => {
                out.append("cell (");
                out.append(text::decimal_text(*row as u128).as_str());
                out.append(", ");
                out.append(text::decimal_text(*col as u128).as_str());
                out.append(") out of bounds");
            },
            GridError::DimensionMismatch { prev, next } => {
                out.append("grid dimensions changed: prev=");
                out.append(text::decimal_text(prev.0 as u128).as_str());
                out.append("x");
                out.append(text::decimal_text(prev.1 as u128).as_str());
                out.append(" next=");
                out.append(text::decimal_text(next.0 as u128).as_str());
                out.append("x");
                out.append(text::decimal_text(next.1 as u128).as_str());
            },
        }
        assert(out@ =~= grid_error_text(*self));
        out
    }
}

impl View for CellGrid {
    type V = GridView;

    closed spec fn view(&self) -> GridView {
        GridView { rows: self.rows, cols: self.cols, cells: self.cells@ }
    }
}

impl GridView {
    /// There is one cell for each position, and positions can be counted.
    pub open spec fn wf(self) -> bool {
        &&& self.cells.len() == self.rows * self.cols
        &&& self.rows * self.cols <= usize::MAX
    }

    pub open spec fn at(self, row: u16, col: u16) -> int {
        row * self.cols + col
    }

    pub open spec fn has(self, row: u16, col: u16) -> bool {
        row < self.rows && col < self.cols
    }

    /// The grid with one cell replaced.
    pub open spec fn with(self, row: u16, col: u16, cell: Cell) -> GridView {
        GridView { cells: self.cells.update(self.at(row, col), cell), ..self }
    }
}

proof fn lemma_position(rows: int, cols: int, row: int, col: int)
    requires
        0 <= row < rows,
        0 <= col < cols,
    ensures
        0 <= row * cols + col < rows * cols,
        0 <= row * cols <= rows * cols,
{
    assert(row * cols + cols <= rows * cols) by (nonlinear_arith)
        requires
            0 <= row < rows,
            0 < cols,
    ;
    assert(0 <= row * cols) by (nonlinear_arith)
        requires
            0 <= row,
            0 < cols,
    ;
}

impl Clone for CellGrid {
    fn clone(&self) -> (r: Self)
        ensures
            r@ == self@,
    {
        let mut cells: Vec<Cell> = Vec::new();
        let mut i: usize = 0;
        while i < self.cells.len()
            invariant
                i <= self.cells@.len(),
                cells@ == self.cells@.take(i as int),
            decreases self.cells@.len() - i,
        {
            cells.push(self.cells[i]);
            i += 1;
            assert(self.cells@.take(i as int) =~= self.cells@.take(i - 1).push(
                self.cells@[i - 1],
            ));
        }
        assert(self.cells@.take(self.cells@.len() as int) =~= self.cells@);
        CellGrid { rows: self.rows, cols: self.cols, cells }
    }
}

impl CellGrid {
    /// Build an all-blank grid sized `rows × cols`.
    pub fn new(rows: u16, cols: u16) -> (r: Self)
        ensures
            r@.wf(),
            r@.rows == rows,
            r@.cols == cols,
            forall|i: int| 0 <= i < r@.cells.len() ==> is_blank(#[trigger] r@.cells[i]),
    {
        proof {
            assert(0 <= rows * cols <= 0xffff * 0xffff) by (nonlinear_arith)
                requires
                    rows <= 0xffff,
                    cols <= 0xffff,
            ;
        }
        let total: usize = (rows as u64 * cols as u64) as usize;
        let mut cells: Vec<Cell> = Vec::new();
        let mut i: usize = 0;
        while i < total
            invariant
                i <= total,
                cells@.len() == i,
                forall|j: int| 0 <= j < cells@.len() ==> is_blank(#[trigger] cells@[j]),
            decreases total - i,
        {
            cells.push(Cell::default());
            i += 1;
        }
        CellGrid { rows, cols, cells }
    }

    /// Build a grid from an existing flat row-major list of cells.
    pub fn from_cells(rows: u16, cols: u16, cells: Vec<Cell>) -> (r: Result<Self, GridError>)
        ensures
            match r {
                Ok(g) => cells@.len() == rows * cols && g@ == (GridView {
                    rows,
                    cols,
                    cells: cells@,
                }) && g@.wf(),
                Err(e) => cells@.len() != rows * cols && e == (GridError::SizeMismatch {
                    expected: (rows * cols) as usize,
                    got: cells@.len() as usize,
                }),
            },
    {
        proof {
            assert(0 <= rows * cols <= 0xffff * 0xffff) by (nonlinear_arith)
                requires
                    rows <= 0xffff,
                    cols <= 0xffff,
            ;
        }
        let expected: usize = (rows as u64 * cols as u64) as usize;
        if cells.len() != expected {
            return Err(GridError::SizeMismatch { expected, got: cells.len() });
        }
        Ok(CellGrid { rows, cols, cells })
    }

    pub fn rows(&self) -> (r: u16)
        ensures
            r == self@.rows,
    {
        self.rows
    }

    pub fn cols(&self) -> (r: u16)
        ensures
            r == self@.cols,
    {
        self.cols
    }

    pub fn cells(&self) -> (r: &[Cell])
        ensures
            r@ == self@.cells,
    {
        self.cells.as_slice()
    }

    /// The cell at a position, where there is one.
    pub fn get(&self, row: u16, col: u16) -> (r: Option<&Cell>)
        requires
            self@.wf(),
        ensures
            match r {
                Some(c) => self@.has(row, col) && *c == self@.cells[self@.at(row, col)],
                None => !self@.has(row, col),
            },
    {
        if row >= self.rows || col >= self.cols {
            return None;
        }
        proof {
            lemma_position(self.rows as int, self.cols as int, row as int, col as int);
        }
        Some(&self.cells[row as usize * self.cols as usize + col as usize])
    }

    /// Replaces the cell at a position.
    pub fn set(&mut self, row: u16, col: u16, cell: Cell) -> (r: Result<(), GridError>)
        requires
            old(self)@.wf(),
        ensures
            final(self)@.wf(),
            match r {
                Ok(_) => old(self)@.has(row, col) && final(self)@ == old(self)@.with(
                    row,
                    col,
                    cell,
                ),
                Err(e) => !old(self)@.has(row, col) && *final(self) == *old(self) && e == (
                GridError::OutOfBounds { row, col }),
            },
    {
        if row >= self.rows || col >= self.cols {
            return Err(GridError::OutOfBounds { row, col });
        }
        proof {
            lemma_position(self.rows as int, self.cols as int, row as int, col as int);
        }
        let i: usize = row as usize * self.cols as usize + col as usize;
        self.cells.set(i, cell);
        Ok(())
    }

    /// Byte footprint of the cells, at most the largest `usize`.
    pub fn byte_size(&self) -> (r: usize)
        ensures
            r == grid_bytes(self@),
    {
        match self.cells.len().checked_mul(std::mem::size_of::<Cell>()) {
            Some(n) => n,
            None => usize::MAX,
        }
    }
}

/// The bytes that the cells of a grid take up.
pub open spec fn grid_bytes(g: GridView) -> int {
    let n = g.cells.len() * vstd::layout::size_of::<Cell>();
    if n > usize::MAX {
        usize::MAX as int
    } else {
        n as int
    }
}

/// One changed cell in a diff: position and new value.
#[derive(Clone, Copy, Debug, PartialEq, Eq, Structural)]
pub struct CellDelta {
    pub row: u16,
    pub col: u16,
    pub cell: Cell,
}

/// Result of [`diff`]: a list of changed cells, or a sign to redraw in full.
#[derive(Debug, PartialEq, Eq)]
pub enum Diff {
    FullRedraw,
    Cells(Vec<CellDelta>),
}

impl Diff {
    /// True if this diff carries no actual updates.
    pub fn is_noop(&self) -> (r: bool)
        ensures
            r == (self matches Diff::Cells(c) && c@.len() == 0),
    {
        match self {
            Diff::FullRedraw => false,
            Diff::Cells(c) => c.len() == 0,
        }
    }

    /// Number of cells in the list (0 for a full redraw).
    pub fn changed_cells(&self) -> (r: usize)
        ensures
            r == match self {
                Diff::FullRedraw => 0,
                Diff::Cells(c) => c@.len(),
            },
    {
        match self {
            Diff::FullRedraw => 0,
            Diff::Cells(c) => c.len(),
        }
    }
}

/// The positions below `k` at which `next` differs from `prev`, in row-major
/// order, each with the cell of `next`.
pub open spec fn deltas(prev: Seq<Cell>, next: Seq<Cell>, cols: int, k: nat) -> Seq<CellDelta>
    decreases k,
{
    if k == 0 {
        seq![]
    } else {
        let i = (k - 1) as int;
        let before = deltas(prev, next, cols, i as nat);
        if prev[i] != next[i] {
            before.push(
                CellDelta { row: (i / cols) as u16, col: (i % cols) as u16, cell: next[i] },
            )
        } else {
            before
        }
    }
}

/// Two grids have the same dimensions.
pub open spec fn same_size(a: GridView, b: GridView) -> bool {
    a.rows == b.rows && a.cols == b.cols
}

/// Compute the delta from `prev` to `next`: a full redraw where there is no
/// previous grid or the dimensions changed, else every cell that differs.
pub fn diff(prev: Option<&CellGrid>, next: &CellGrid) -> (r: Diff)
    requires
        prev matches Some(p) ==> p@.wf(),
        next@.wf(),
    ensures
        r is FullRedraw <==> (prev is None || !same_size(prev->0@, next@)),
        prev is Some && same_size(prev->0@, next@) ==> (r matches Diff::Cells(c) && c@ == deltas(
            prev->0@.cells,
            next@.cells,
            next@.cols as int,
            next@.cells.len(),
        )),
{
    let prev = match prev {
        None => return Diff::FullRedraw,
        Some(p) => p,
    };
    if prev.rows != next.rows || prev.cols != next.cols {
        return Diff::FullRedraw;
    }
    let cols: usize = next.cols as usize;
    let mut out: Vec<CellDelta> = Vec::new();
    let mut i: usize = 0;
    while i < next.cells.len()
        invariant
            i <= next.cells@.len(),
            prev@.wf(),
            next@.wf(),
            prev.rows == next.rows,
            prev.cols == next.cols,
            cols == next.cols,
            out@ == deltas(prev.cells@, next.cells@, cols as int, i as nat),
        decreases next.cells@.len() - i,
    {
        let n = next.cells[i];
        if prev.cells[i] != n {
            proof {
                lemma_row_col(i as int, next.rows as int, cols as int);
            }
            out.push(CellDelta { row: (i / cols) as u16, col: (i % cols) as u16, cell: n });
        }
        i += 1;
    }
    Diff::Cells(out)
}

proof fn lemma_row_col(i: int, rows: int, cols: int)
    requires
        0 <= i < rows * cols,
        0 <= rows,
        0 <= cols,
    ensures
        cols > 0,
        0 <= i / cols < rows,
        0 <= i % cols < cols,
        (i / cols) * cols + i % cols == i,
{
    assert(cols > 0) by (nonlinear_arith)
        requires
            0 <= i < rows * cols,
            0 <= cols,
            0 <= rows,
    ;
    assert(0 <= i / cols < rows && 0 <= i % cols < cols && (i / cols) * cols + i % cols == i)
        by (nonlinear_arith)
        requires
            0 <= i < rows * cols,
            cols > 0,
    ;
}

/// The grid after the first `k` deltas.
pub open spec fn patched(g: GridView, ds: Seq<CellDelta>, k: nat) -> GridView
    decreases k,
{
    if k == 0 {
        g
    } else {
        let d = ds[k - 1];
        patched(g, ds, (k - 1) as nat).with(d.row, d.col, d.cell)
    }
}

/// The delta at `k` is the first one outside the grid.
pub open spec fn stops_at(g: GridView, ds: Seq<CellDelta>, k: int) -> bool {
    &&& 0 <= k < ds.len()
    &&& !g.has(ds[k].row, ds[k].col)
    &&& forall|i: int| 0 <= i < k ==> g.has((#[trigger] ds[i]).row, ds[i].col)
}

/// Apply a diff to `prev` in place. A full redraw takes the new grid from
/// `full`; a list stops at the first delta outside the grid.
pub fn apply(prev: &mut CellGrid, diff: &Diff, full: Option<&CellGrid>) -> (r: Result<
    (),
    GridError,
>)
    requires
        old(prev)@.wf(),
        full matches Some(f) ==> f@.wf(),
    ensures
        final(prev)@.wf(),
        match diff {
            Diff::FullRedraw => match full {
                None => r == Err::<(), GridError>(
                    GridError::DimensionMismatch {
                        prev: (old(prev)@.rows, old(prev)@.cols),
                        next: (0, 0),
                    },
                ) && final(prev)@ == old(prev)@,
                Some(f) => r is Ok && final(prev)@ == f@,
            },
            Diff::Cells(ds) => match r {
                Ok(_) => final(prev)@ == patched(old(prev)@, ds@, ds@.len()) && forall|i: int|
                    0 <= i < ds@.len() ==> old(prev)@.has(
                        (#[trigger] ds@[i]).row,
                        ds@[i].col,
                    ),
                Err(e) => exists|k: int| #[trigger]
                    stops_at(old(prev)@, ds@, k) && e == (GridError::OutOfBounds {
                        row: ds@[k].row,
                        col: ds@[k].col,
                    }) && final(prev)@ == patched(old(prev)@, ds@, k as nat),
            },
        },
{
    match diff {
        Diff::FullRedraw => {
            match full {
                None => Err(
                    GridError::DimensionMismatch { prev: (prev.rows, prev.cols), next: (0, 0) },
                ),
                Some(f) => {
                    *prev = f.clone();
                    Ok(())
                },
            }
        },
        Diff::Cells(ds) => {
            let mut i: usize = 0;
            while i < ds.len()
                invariant
                    i <= ds@.len(),
                    *diff == Diff::Cells(*ds),
                    old(prev)@.wf(),
                    prev@.wf(),
                    prev@.rows == old(prev)@.rows,
                    prev@.cols == old(prev)@.cols,
                    prev@ == patched(old(prev)@, ds@, i as nat),
                    forall|j: int|
                        0 <= j < i ==> old(prev)@.has((#[trigger] ds@[j]).row, ds@[j].col),
                decreases ds@.len() - i,
            {
                let d = ds[i];
                match prev.set(d.row, d.col, d.cell) {
                    Ok(_) => {},
                    Err(e) => {
                        assert(stops_at(old(prev)@, ds@, i as int));
                        return Err(e);
                    },
                }
                i += 1;
            }
            Ok(())
        },
    }
}

/// Applying the diff of two grids to the first gives the second.
pub proof fn diff_then_apply(prev: GridView, next: GridView)
    requires
        prev.wf(),
        next.wf(),
        same_size(prev, next),
    ensures
        ({
            let ds = deltas(prev.cells, next.cells, next.cols as int, next.cells.len());
            &&& patched(prev, ds, ds.len()) == next
            &&& forall|i: int| 0 <= i < ds.len() ==> prev.has((#[trigger] ds[i]).row, ds[i].col)
        }),
{
    lemma_patch_prefix(prev, next, next.cells.len());
    let ds = deltas(prev.cells, next.cells, next.cols as int, next.cells.len());
    assert(patched(prev, ds, ds.len()).cells =~= next.cells);
}

/// How many of the first `k` cells differ.
pub open spec fn differing(prev: Seq<Cell>, next: Seq<Cell>, k: nat) -> nat
    decreases k,
{
    if k == 0 {
        0
    } else {
        differing(prev, next, (k - 1) as nat) + (if prev[k - 1] != next[k - 1] {
            1nat
        } else {
            0nat
        })
    }
}

/// The deltas are exactly the differing cells: each lies in the grid and holds
/// the new cell of a position that differs, they stand in strict row-major
/// order, every position that differs has one, and there are as many.
pub proof fn deltas_are_the_differences(prev: GridView, next: GridView)
    requires
        prev.wf(),
        next.wf(),
        same_size(prev, next),
    ensures
        ({
            let ds = deltas(prev.cells, next.cells, next.cols as int, next.cells.len());
            &&& forall|i: int|
                0 <= i < ds.len() ==> {
                    let d = #[trigger] ds[i];
                    next.has(d.row, d.col) && next.cells[next.at(d.row, d.col)] == d.cell
                        && prev.cells[next.at(d.row, d.col)] != d.cell
                }
            &&& forall|i: int, j: int|
                0 <= i < j < ds.len() ==> next.at((#[trigger] ds[i]).row, ds[i].col) < next.at(
                    (#[trigger] ds[j]).row,
                    ds[j].col,
                )
            &&& forall|at: int|
                0 <= at < next.cells.len() && #[trigger] prev.cells[at] != next.cells[at]
                    ==> has_delta(next, ds, at)
            &&& ds.len() == differing(prev.cells, next.cells, next.cells.len())
        }),
{
    lemma_deltas(prev, next, next.cells.len());
}

/// One of the deltas is that of a position.
pub open spec fn has_delta(g: GridView, ds: Seq<CellDelta>, at: int) -> bool {
    exists|i: int| 0 <= i < ds.len() && g.at((#[trigger] ds[i]).row, ds[i].col) == at
}

proof fn lemma_deltas(prev: GridView, next: GridView, k: nat)
    requires
        prev.wf(),
        next.wf(),
        same_size(prev, next),
        k <= next.cells.len(),
    ensures
        ({
            let ds = deltas(prev.cells, next.cells, next.cols as int, k);
            &&& forall|i: int|
                0 <= i < ds.len() ==> {
                    let d = #[trigger] ds[i];
                    next.has(d.row, d.col) && 0 <= next.at(d.row, d.col) < k
                        && next.cells[next.at(d.row, d.col)] == d.cell
                        && prev.cells[next.at(d.row, d.col)] != d.cell
                }
            &&& forall|i: int, j: int|
                0 <= i < j < ds.len() ==> next.at((#[trigger] ds[i]).row, ds[i].col) < next.at(
                    (#[trigger] ds[j]).row,
                    ds[j].col,
                )
            &&& forall|at: int|
                0 <= at < k && #[trigger] prev.cells[at] != next.cells[at] ==> has_delta(
                    next,
                    ds,
                    at,
                )
            &&& ds.len() == differing(prev.cells, next.cells, k)
        }),
    decreases k,
{
    if k > 0 {
        let j = (k - 1) as nat;
        let cols = next.cols as int;
        lemma_deltas(prev, next, j);
        let before = deltas(prev.cells, next.cells, cols, j);
        let ds = deltas(prev.cells, next.cells, cols, k);
        lemma_row_col(j as int, next.rows as int, cols);
        assert forall|at: int|
            0 <= at < k && #[trigger] prev.cells[at] != next.cells[at] implies has_delta(
            next,
            ds,
            at,
        ) by {
            if at < j {
                assert(has_delta(next, before, at));
                let i = choose|i: int|
                    0 <= i < before.len() && next.at((#[trigger] before[i]).row, before[i].col)
                        == at;
                assert(ds[i] == before[i]);
            } else {
                assert(ds[before.len() as int].cell == next.cells[j as int]);
            }
        }
        if prev.cells[j as int] != next.cells[j as int] {
            assert(ds == before.push(ds.last()));
            assert(next.at(ds.last().row, ds.last().col) == j);
        }
    }
}

/// A diff of two grids of one size is empty exactly where the grids are equal.
pub proof fn empty_diff_means_equal(prev: GridView, next: GridView)
    requires
        prev.wf(),
        next.wf(),
        same_size(prev, next),
    ensures
        deltas(prev.cells, next.cells, next.cols as int, next.cells.len()).len() == 0 <==> prev
            == next,
{
    let ds = deltas(prev.cells, next.cells, next.cols as int, next.cells.len());
    deltas_are_the_differences(prev, next);
    diff_then_apply(prev, next);
    if prev == next && ds.len() > 0 {
        assert(next.cells[next.at(ds[0].row, ds[0].col)] == ds[0].cell);
    }
}

/// The first `k` cells are those of `next`, the others those of `prev`.
proof fn lemma_patch_prefix(prev: GridView, next: GridView, k: nat)
    requires
        prev.wf(),
        next.wf(),
        same_size(prev, next),
        k <= next.cells.len(),
    ensures
        ({
            let ds = deltas(prev.cells, next.cells, next.cols as int, k);
            let g = patched(prev, ds, ds.len());
            &&& same_size(g, prev)
            &&& g.cells.len() == prev.cells.len()
            &&& forall|i: int| 0 <= i < k ==> g.cells[i] == next.cells[i]
            &&& forall|i: int| k <= i < prev.cells.len() ==> g.cells[i] == prev.cells[i]
            &&& forall|i: int| 0 <= i < ds.len() ==> prev.has((#[trigger] ds[i]).row, ds[i].col)
        }),
    decreases k,
{
    if k > 0 {
        let j = (k - 1) as nat;
        let cols = next.cols as int;
        lemma_patch_prefix(prev, next, j);
        let before = deltas(prev.cells, next.cells, cols, j);
        let ds = deltas(prev.cells, next.cells, cols, k);
        if prev.cells[j as int] != next.cells[j as int] {
            lemma_row_col(j as int, next.rows as int, cols);
            assert(ds.len() == before.len() + 1);
            lemma_patched_prefix(prev, before, ds, before.len());
        } else {
            assert(ds == before);
        }
    }
}

/// Patching with lists that agree on the first `k` deltas gives the same.
proof fn lemma_patched_prefix(g: GridView, a: Seq<CellDelta>, b: Seq<CellDelta>, k: nat)
    requires
        k <= a.len(),
        k <= b.len(),
        forall|i: int| 0 <= i < k ==> a[i] == b[i],
    ensures
        patched(g, a, k) == patched(g, b, k),
    decreases k,
{
    if k > 0 {
        lemma_patched_prefix(g, a, b, (k - 1) as nat);
    }
}

/// Tells whether a grid is over the size at which to redraw in full.
pub fn exceeds_cap(grid: &CellGrid) -> (r: bool)
    ensures
        r == (grid_bytes(grid@) > MAX_GRID_BYTES),
{
    grid.byte_size() > MAX_GRID_BYTES
}

} // verus!
