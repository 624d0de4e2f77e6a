//! Character cells and rows of cells.

use vstd::prelude::*;

use super::style;
use super::style::Style;

verus! {

/// Single character cell in the terminal grid, with style and display width.
#[derive(Debug, Hash, PartialEq, Eq)]
pub struct Cell {
    pub c: char,
    /// Combining marks (e.g. diacritics). Supports multiple stacked marks.
    pub combining: Vec<char>,
    pub style: Style,
    /// Display width: 1 for normal, 2 for wide char first cell, 0 for wide char continuation
    pub width: u8,
}

/// What a cell shows.
#[verifier::ext_equal]
pub struct CellView {
    pub c: char,
    pub combining: Seq<char>,
    pub style: Style,
    pub width: u8,
}

impl View for Cell {
    type V = CellView;

    open spec fn view(&self) -> CellView {
        CellView {
            c: self.c,
            combining: self.combining@,
            style: self.style,
            width: self.width,
        }
    }
}

/// An empty cell with the given style.
pub open spec fn space(style: Style) -> CellView {
    CellView { c: ' ', combining: seq![], style, width: 1 }
}

/// An empty cell with the reset style.
pub open spec fn blank() -> CellView {
    space(style::plain())
}

impl Default for Cell {
    fn default() -> (res: Self)
        ensures
            res@ == blank(),
    {
        Cell { c: ' ', combining: Vec::new(), style: Style::default(), width: 1 }
    }
}

impl Clone for Cell {
    fn clone(&self) -> (res: Self)
        ensures
            res@ == self@,
    {
        let mut combining: Vec<char> = Vec::new();
        let mut i: usize = 0;
        while i < self.combining.len()
            invariant
                i <= self.combining.len(),
                combining@ == self.combining@.take(i as int),
            decreases self.combining.len() - i,
        {
            combining.push(self.combining[i]);
            assert(self.combining@.take(i + 1) =~= self.combining@.take(i as int).push(
                self.combining@[i as int],
            ));
            i += 1;
        }
        assert(self.combining@.take(i as int) =~= self.combining@);
        Cell { c: self.c, combining, style: self.style, width: self.width }
    }
}

impl Cell {
    /// Whether two cells show the same.
    pub fn same(&self, other: &Cell) -> (res: bool)
        ensures
            res == (self@ == other@),
    {
        if self.c != other.c || self.style != other.style || self.width != other.width
            || self.combining.len() != other.combining.len() {
            return false;
        }
        let mut i: usize = 0;
        while i < self.combining.len()
            invariant
                i <= self.combining.len() == other.combining.len(),
                forall|k: int| 0 <= k < i ==> self.combining@[k] == other.combining@[k],
            decreases self.combining.len() - i,
        {
            if self.combining[i] != other.combining[i] {
                return false;
            }
            i += 1;
        }
        assert(self.combining@ =~= other.combining@);
        true
    }
}

/// What a row of cells shows.
pub open spec fn row_view(row: Seq<Cell>) -> Seq<CellView> {
    row.map_values(|c: Cell| c@)
}

/// What a list of rows shows.
pub open spec fn rows_view(rows: Seq<Vec<Cell>>) -> Seq<Seq<CellView>> {
    rows.map_values(|r: Vec<Cell>| row_view(r@))
}

/// A row of `cols` equal cells.
pub open spec fn uniform_row(fill: CellView, cols: int) -> Seq<CellView> {
    Seq::new(cols as nat, |x: int| fill)
}

/// Build a row of `cols` copies of `fill`.
pub fn make_row(fill: &Cell, cols: usize) -> (row: Vec<Cell>)
    ensures
        row_view(row@) == uniform_row(fill@, cols as int),
        row@.len() == cols,
{
    let mut row: Vec<Cell> = Vec::new();
    while row.len() < cols
        invariant
            row.len() <= cols,
            forall|x: int| 0 <= x < row.len() ==> #[trigger] row@[x]@ == fill@,
        decreases cols - row.len(),
    {
        row.push(fill.clone());
    }
    assert(row_view(row@) =~= uniform_row(fill@, cols as int));
    row
}

/// Copy a row.
pub fn clone_row(row: &Vec<Cell>) -> (res: Vec<Cell>)
    ensures
        row_view(res@) == row_view(row@),
{
    let mut res: Vec<Cell> = Vec::new();
    while res.len() < row.len()
        invariant
            res.len() <= row.len(),
            forall|x: int| 0 <= x < res.len() ==> #[trigger] res@[x]@ == row@[x]@,
        decreases row.len() - res.len(),
    {
        res.push(row[res.len()].clone());
    }
    assert(row_view(res@) =~= row_view(row@));
    res
}

/// Copy a list of rows.
pub fn clone_rows(rows: &Vec<Vec<Cell>>) -> (res: Vec<Vec<Cell>>)
    ensures
        rows_view(res@) == rows_view(rows@),
{
    let mut res: Vec<Vec<Cell>> = Vec::new();
    while res.len() < rows.len()
        invariant
            res.len() <= rows.len(),
            forall|y: int| 0 <= y < res.len() ==> row_view(#[trigger] res@[y]@) == row_view(rows@[y]@),
        decreases rows.len() - res.len(),
    {
        res.push(clone_row(&rows[res.len()]));
    }
    assert(rows_view(res@) =~= rows_view(rows@));
    res
}

/// Whether two rows show the same.
pub fn same_row(a: &Vec<Cell>, b: &Vec<Cell>) -> (res: bool)
    ensures
        res == (row_view(a@) == row_view(b@)),
{
    if a.len() != b.len() {
        assert(row_view(a@).len() != row_view(b@).len());
        return false;
    }
    let mut x: usize = 0;
    while x < a.len()
        invariant
            x <= a.len() == b.len(),
            forall|k: int| 0 <= k < x ==> #[trigger] a@[k]@ == b@[k]@,
        decreases a.len() - x,
    {
        if !a[x].same(&b[x]) {
            assert(row_view(a@)[x as int] != row_view(b@)[x as int]);
            return false;
        }
        x += 1;
    }
    assert(row_view(a@) =~= row_view(b@));
    true
}

/// The cells of `row` padded with blanks or cut to `cols` columns.
pub open spec fn fitted_row(row: Seq<CellView>, cols: int) -> Seq<CellView> {
    Seq::new(
        cols as nat,
        |x: int|
            if x < row.len() {
                row[x]
            } else {
                blank()
            },
    )
}

/// The rows padded with blanks or cut to `rows` rows of `cols` columns.
pub open spec fn fitted(cells: Seq<Seq<CellView>>, cols: int, rows: int) -> Seq<Seq<CellView>> {
    Seq::new(
        rows as nat,
        |y: int|
            if y < cells.len() {
                fitted_row(cells[y], cols)
            } else {
                uniform_row(blank(), cols)
            },
    )
}

/// Pad or cut a row to `cols` columns.
pub fn fit_row(row: &mut Vec<Cell>, cols: usize)
    ensures
        row_view(final(row)@) == fitted_row(row_view(old(row)@), cols as int),
{
    row.truncate(cols);
    while row.len() < cols
        invariant
            row.len() <= cols,
            forall|x: int|
                0 <= x < row.len() ==> #[trigger] row@[x]@ == (if x < old(row)@.len() {
                    old(row)@[x]@
                } else {
                    blank()
                }),
            row.len() >= old(row)@.len() || row.len() == cols,
        decreases cols - row.len(),
    {
        row.push(Cell::default());
    }
    assert(row_view(row@) =~= fitted_row(row_view(old(row)@), cols as int));
}

/// Pad or cut a list of rows to `rows` rows of `cols` columns.
pub fn fit_rows(cells: &mut Vec<Vec<Cell>>, cols: usize, rows: usize)
    ensures
        rows_view(final(cells)@) == fitted(rows_view(old(cells)@), cols as int, rows as int),
{
    let ghost before = rows_view(old(cells)@);
    cells.truncate(rows);
    let kept: usize = cells.len();
    let mut y: usize = 0;
    while y < kept
        invariant
            y <= kept == cells.len(),
            kept <= rows,
            kept == before.len() || kept == rows,
            kept <= before.len(),
            forall|k: int| 0 <= k < y ==> row_view(#[trigger] cells@[k]@) == fitted_row(before[k], cols as int),
            forall|k: int| y <= k < kept ==> row_view(#[trigger] cells@[k]@) == before[k],
        decreases kept - y,
    {
        fit_row(&mut cells[y], cols);
        y += 1;
    }
    while cells.len() < rows
        invariant
            kept <= cells.len() <= rows,
            kept == before.len() || kept == rows,
            kept <= before.len(),
            forall|k: int| 0 <= k < kept ==> row_view(#[trigger] cells@[k]@) == fitted_row(before[k], cols as int),
            forall|k: int| kept <= k < cells.len() ==> row_view(#[trigger] cells@[k]@) == uniform_row(blank(), cols as int),
        decreases rows - cells.len(),
    {
        cells.push(make_row(&Cell::default(), cols));
    }
    assert(rows_view(cells@) =~= fitted(before, cols as int, rows as int));
}

/// The row with the columns `from..to` replaced by `fill`.
pub open spec fn filled(row: Seq<CellView>, from: int, to: int, fill: CellView) -> Seq<CellView> {
    Seq::new(
        row.len(),
        |x: int|
            if from <= x < to {
                fill
            } else {
                row[x]
            },
    )
}

/// The row with both halves of the wide character at `x` replaced by `fill`, so that
/// no change at `x` leaves half a character behind.
pub open spec fn unpaired(row: Seq<CellView>, x: int, fill: CellView) -> Seq<CellView> {
    if row[x].width == 2 && x + 1 < row.len() {
        row.update(x, fill).update(x + 1, fill)
    } else if row[x].width == 0 && x > 0 {
        row.update(x - 1, fill).update(x, fill)
    } else {
        row
    }
}

/// The row with the `n` cells at `x` taken out: what follows moves left, and
/// `fill` comes in at the right.
pub open spec fn cells_deleted(row: Seq<CellView>, x: int, n: int, fill: CellView) -> Seq<CellView> {
    row.take(x) + row.skip(x + n) + uniform_row(fill, n)
}

/// The row with `n` cells of `fill` put in at `x`: what was there moves right, and
/// the last `n` cells drop out.
pub open spec fn cells_inserted(row: Seq<CellView>, x: int, n: int, fill: CellView) -> Seq<
    CellView,
> {
    row.take(x) + uniform_row(fill, n) + row.subrange(x, row.len() - n)
}

/// Replace the columns `from..to` by `fill`.
pub fn fill_range(row: &mut Vec<Cell>, from: usize, to: usize, fill: &Cell)
    requires
        from <= to <= old(row)@.len(),
    ensures
        row_view(final(row)@) == filled(row_view(old(row)@), from as int, to as int, fill@),
        final(row)@.len() == old(row)@.len(),
{
    let mut x: usize = from;
    while x < to
        invariant
            from <= x <= to <= row@.len(),
            row@.len() == old(row)@.len(),
            forall|k: int|
                0 <= k < row@.len() ==> #[trigger] row@[k]@ == (if from <= k < x {
                    fill@
                } else {
                    old(row)@[k]@
                }),
        decreases to - x,
    {
        row[x] = fill.clone();
        x += 1;
    }
    assert(row_view(row@) =~= filled(row_view(old(row)@), from as int, to as int, fill@));
}

/// Erase both halves of the wide character at `x`, if there is one.
pub fn unpair(row: &mut Vec<Cell>, x: usize, fill: &Cell)
    requires
        x < old(row)@.len(),
    ensures
        row_view(final(row)@) == unpaired(row_view(old(row)@), x as int, fill@),
        final(row)@.len() == old(row)@.len(),
{
    let width: u8 = row[x].width;
    if width == 2 {
        if x < row.len() - 1 {
            row[x] = fill.clone();
            row[x + 1] = fill.clone();
        }
    } else if width == 0 && x > 0 {
        row[x - 1] = fill.clone();
        row[x] = fill.clone();
    }
    assert(row_view(row@) =~= unpaired(row_view(old(row)@), x as int, fill@));
}

/// Take out the `n` cells at `x`.
pub fn delete_cells(row: &mut Vec<Cell>, x: usize, n: usize, fill: &Cell)
    requires
        x + n <= old(row)@.len(),
    ensures
        row_view(final(row)@) == cells_deleted(row_view(old(row)@), x as int, n as int, fill@),
        final(row)@.len() == old(row)@.len(),
{
    let mut i: usize = 0;
    while i < n
        invariant
            i <= n,
            x + n <= row@.len(),
            row@.len() == old(row)@.len(),
            forall|k: int| 0 <= k < x ==> #[trigger] row@[k]@ == old(row)@[k]@,
            forall|k: int| x <= k < row@.len() - i ==> #[trigger] row@[k]@ == old(row)@[k + i]@,
            forall|k: int| row@.len() - i <= k < row@.len() ==> #[trigger] row@[k]@ == fill@,
        decreases n - i,
    {
        row.remove(x);
        row.push(fill.clone());
        i += 1;
    }
    assert(row_view(row@) =~= cells_deleted(row_view(old(row)@), x as int, n as int, fill@));
}

/// Put in `n` cells at `x`.
pub fn insert_cells(row: &mut Vec<Cell>, x: usize, n: usize, fill: &Cell)
    requires
        x + n <= old(row)@.len(),
    ensures
        row_view(final(row)@) == cells_inserted(row_view(old(row)@), x as int, n as int, fill@),
        final(row)@.len() == old(row)@.len(),
{
    let mut i: usize = 0;
    while i < n
        invariant
            i <= n,
            x + n <= row@.len(),
            row@.len() == old(row)@.len(),
            forall|k: int| 0 <= k < x ==> #[trigger] row@[k]@ == old(row)@[k]@,
            forall|k: int| x <= k < x + i ==> #[trigger] row@[k]@ == fill@,
            forall|k: int| x + i <= k < row@.len() ==> #[trigger] row@[k]@ == old(row)@[k - i]@,
        decreases n - i,
    {
        row.pop();
        row.insert(x, fill.clone());
        i += 1;
    }
    assert(row_view(row@) =~= cells_inserted(row_view(old(row)@), x as int, n as int, fill@));
}

/// Put one cell at `x`.
pub fn put_cell(row: &mut Vec<Cell>, x: usize, cell: Cell)
    requires
        x < old(row)@.len(),
    ensures
        row_view(final(row)@) == row_view(old(row)@).update(x as int, cell@),
        final(row)@.len() == old(row)@.len(),
{
    row[x] = cell;
    assert(row_view(row@) =~= row_view(old(row)@).update(x as int, cell@));
}

/// Add a combining mark to the cell at `x`.
pub fn add_mark(row: &mut Vec<Cell>, x: usize, mark: char)
    requires
        x < old(row)@.len(),
    ensures
        row_view(final(row)@) == row_view(old(row)@).update(
            x as int,
            marked(row_view(old(row)@)[x as int], mark),
        ),
        final(row)@.len() == old(row)@.len(),
{
    row[x].combining.push(mark);
    assert(row_view(row@) =~= row_view(old(row)@).update(
        x as int,
        marked(row_view(old(row)@)[x as int], mark),
    ));
}

/// A cell with one more combining mark.
pub open spec fn marked(cell: CellView, mark: char) -> CellView {
    CellView { combining: cell.combining.push(mark), ..cell }
}

/// What rows show is what their cells show, one by one and in order.
pub proof fn law_rows_show_cells(rows: Seq<Vec<Cell>>, x: int, y: int)
    requires
        0 <= y < rows.len(),
        0 <= x < rows[y]@.len(),
    ensures
        rows_view(rows).len() == rows.len(),
        rows_view(rows)[y].len() == rows[y]@.len(),
        rows_view(rows)[y][x] == rows[y]@[x]@,
        row_view(rows[y]@) == rows_view(rows)[y],
{
}

/// Both halves of the wide character at `x` are replaced, whichever of them `x` is; any
/// other cell stays as it is, and so does a wide character that the right margin cut.
pub proof fn law_both_halves_go(row: Seq<CellView>, x: int, fill: CellView, k: int)
    requires
        0 <= x < row.len(),
        0 <= k < row.len(),
    ensures
        ({
            let t = unpaired(row, x, fill);
            let first = row[x].width == 2 && x + 1 < row.len();
            let second = row[x].width == 0 && x > 0;
            &&& t.len() == row.len()
            &&& first ==> t[k] == if k == x || k == x + 1 {
                fill
            } else {
                row[k]
            }
            &&& second ==> t[k] == if k == x || k == x - 1 {
                fill
            } else {
                row[k]
            }
            &&& !first && !second ==> t == row
        }),
{
}

} // verus!
