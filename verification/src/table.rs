//! A text table: the width of each column is that of its widest cell, and
//! each cell is padded to it on the side its column's alignment names.

use vstd::prelude::*;
use vstd::string::{StrSliceExecFns, StringExecFns};

verus! {

/// How the cells of a column are padded to the column's width.
#[derive(Debug, Copy, Clone, PartialEq, Eq, Structural)]
pub enum Alignment {
    /// The cell is written as it is, with no padding.
    Plain,
    /// The cell stands at the left, the padding behind it.
    Left,
    /// The cell stands at the right, the padding before it.
    Right,
}

/// The cells of a table as sequences of characters, row by row.
pub open spec fn table_cells(rows: Seq<Vec<String>>) -> Seq<Seq<Seq<char>>> {
    Seq::new(rows.len(), |r: int| Seq::new(rows[r]@.len(), |c: int| rows[r]@[c]@))
}

/// Every row has one cell for each of the `columns` columns.
pub open spec fn table_fits(columns: nat, cells: Seq<Seq<Seq<char>>>) -> bool {
    forall|r: int| 0 <= r < cells.len() ==> (#[trigger] cells[r]).len() == columns
}

/// The width of column `c` among the first `n` rows: the greatest number of
/// characters in a cell of that column, 0 where there is no row.
pub open spec fn width_among(cells: Seq<Seq<Seq<char>>>, c: int, n: nat) -> nat
    decreases n,
{
    if n == 0 {
        0
    } else {
        let above = width_among(cells, c, (n - 1) as nat);
        let here = cells[n - 1][c].len();
        if here > above {
            here
        } else {
            above
        }
    }
}

/// The width of column `c`: the greatest number of characters in a cell of
/// that column.
pub open spec fn column_width(cells: Seq<Seq<Seq<char>>>, c: int) -> nat {
    width_among(cells, c, cells.len())
}

/// `n` spaces.
pub open spec fn spaces(n: int) -> Seq<char> {
    Seq::new(if n > 0 { n as nat } else { 0 }, |i: int| ' ')
}

/// A cell padded with spaces to `width` characters as `alignment` says.
pub open spec fn padded(cell: Seq<char>, alignment: Alignment, width: nat) -> Seq<char> {
    match alignment {
        Alignment::Plain => cell,
        Alignment::Left => cell + spaces(width - cell.len()),
        Alignment::Right => spaces(width - cell.len()) + cell,
    }
}

/// The first `k` cells of row `r` as they are written: each padded, each
/// followed by one space.
pub open spec fn line_start(
    columns: Seq<Alignment>,
    cells: Seq<Seq<Seq<char>>>,
    r: int,
    k: nat,
) -> Seq<char>
    decreases k,
{
    if k == 0 {
        Seq::empty()
    } else {
        line_start(columns, cells, r, (k - 1) as nat) + padded(
            cells[r][k - 1],
            columns[k - 1],
            column_width(cells, k - 1),
        ) + seq![' ']
    }
}

/// Row `r` as it is written: its cells, then the end of the line.
pub open spec fn line(columns: Seq<Alignment>, cells: Seq<Seq<Seq<char>>>, r: int) -> Seq<char> {
    line_start(columns, cells, r, columns.len()) + seq!['\n']
}

/// The first `n` rows as they are written, in their order.
pub open spec fn table_start(columns: Seq<Alignment>, cells: Seq<Seq<Seq<char>>>, n: nat) -> Seq<
    char,
>
    decreases n,
{
    if n == 0 {
        Seq::empty()
    } else {
        table_start(columns, cells, (n - 1) as nat) + line(columns, cells, n - 1)
    }
}

/// The whole table as it is written.
pub open spec fn table_text(columns: Seq<Alignment>, cells: Seq<Seq<Seq<char>>>) -> Seq<char> {
    table_start(columns, cells, cells.len())
}

/// The width of a column is that of its widest cell: no cell of the column
/// is wider, and where there are rows one of them is that wide.
pub proof fn lemma_width_is_greatest(cells: Seq<Seq<Seq<char>>>, c: int, n: nat)
    requires
        n <= cells.len(),
    ensures
        forall|r: int| 0 <= r < n ==> (#[trigger] cells[r])[c].len() <= width_among(cells, c, n),
        n > 0 ==> exists|r: int| 0 <= r < n && (#[trigger] cells[r])[c].len() == width_among(cells, c, n),
    decreases n,
{
    if n > 0 {
        lemma_width_is_greatest(cells, c, (n - 1) as nat);
        if n > 1 {
            let r = choose|r: int| 0 <= r < n - 1 && (#[trigger] cells[r])[c].len() == width_among(cells, c, (n - 1) as nat);
            assert(cells[r][c].len() == width_among(cells, c, (n - 1) as nat));
        }
        assert(cells[n - 1][c].len() <= width_among(cells, c, n));
    }
}

/// Whether every row has as many cells as there are columns.
pub fn rows_fit(columns: &[Alignment], rows: &[Vec<String>]) -> (fit: bool)
    ensures
        fit == table_fits(columns@.len(), table_cells(rows@)),
{
    let mut r: usize = 0;
    while r < rows.len()
        invariant
            r <= rows@.len(),
            forall|i: int| 0 <= i < r ==> (#[trigger] table_cells(rows@)[i]).len() == columns@.len(),
        decreases rows@.len() - r,
    {
        if rows[r].len() != columns.len() {
            assert(table_cells(rows@)[r as int].len() != columns@.len());
            return false;
        }
        assert(table_cells(rows@)[r as int].len() == columns@.len());
        r = r + 1;
    }
    true
}

/// The width of column `c`.
fn measure(rows: &[Vec<String>], c: usize) -> (width: usize)
    requires
        forall|r: int| 0 <= r < rows@.len() ==> c < (#[trigger] rows@[r])@.len(),
    ensures
        width == column_width(table_cells(rows@), c as int),
{
    let ghost cells = table_cells(rows@);
    let mut width: usize = 0;
    let mut r: usize = 0;
    while r < rows.len()
        invariant
            r <= rows@.len(),
            cells == table_cells(rows@),
            forall|r: int| 0 <= r < rows@.len() ==> c < (#[trigger] rows@[r])@.len(),
            width == width_among(cells, c as int, r as nat),
        decreases rows@.len() - r,
    {
        let here = rows[r][c].as_str().unicode_len();
        assert(cells[r as int][c as int] == rows@[r as int]@[c as int]@);
        if here > width {
            width = here;
        }
        r = r + 1;
    }
    width
}

/// Writes `n` spaces.
fn write_spaces(out: &mut String, n: usize)
    ensures
        final(out)@ == old(out)@ + spaces(n as int),
{
    let mut written: usize = 0;
    assert(out@ =~= old(out)@ + spaces(0));
    while written < n
        invariant
            written <= n,
            out@ == old(out)@ + spaces(written as int),
        decreases n - written,
    {
        proof {
            reveal_strlit(" ");
        }
        out.append(" ");
        written = written + 1;
        assert(out@ =~= old(out)@ + spaces(written as int));
    }
}

/// Writes one cell, padded to `width` characters as `alignment` says.
fn write_cell(out: &mut String, cell: &str, alignment: Alignment, width: usize)
    ensures
        final(out)@ == old(out)@ + padded(cell@, alignment, width as nat),
{
    let length = cell.unicode_len();
    let padding: usize = if width > length {
        width - length
    } else {
        0
    };
    assert(spaces(padding as int) =~= spaces(width - cell@.len()));
    match alignment {
        Alignment::Plain => {
            out.append(cell);
        },
        Alignment::Left => {
            out.append(cell);
            write_spaces(out, padding);
            assert(out@ =~= old(out)@ + padded(cell@, alignment, width as nat));
        },
        Alignment::Right => {
            write_spaces(out, padding);
            out.append(cell);
            assert(out@ =~= old(out)@ + padded(cell@, alignment, width as nat));
        },
    }
}

/// Writes the table to `out`, row by row in their order: each cell padded
/// to the width of its column as the column's alignment says and followed
/// by one space, each row ended by a line feed. The width of a column is
/// the number of characters of its widest cell.
pub fn write_table(out: &mut String, columns: &[Alignment], rows: &[Vec<String>])
    requires
        table_fits(columns@.len(), table_cells(rows@)),
    ensures
        final(out)@ == old(out)@ + table_text(columns@, table_cells(rows@)),
{
    let ghost cells = table_cells(rows@);
    assert forall|r: int| 0 <= r < rows@.len() implies (#[trigger] rows@[r])@.len()
        == columns@.len() by {
        assert(cells[r].len() == columns@.len());
    }
    let mut widths: Vec<usize> = Vec::new();
    let mut c: usize = 0;
    while c < columns.len()
        invariant
            c <= columns@.len(),
            cells == table_cells(rows@),
            forall|r: int| 0 <= r < rows@.len() ==> (#[trigger] rows@[r])@.len() == columns@.len(),
            widths@.len() == c,
            forall|k: int| 0 <= k < c ==> widths@[k] == column_width(cells, k),
        decreases columns@.len() - c,
    {
        let width = measure(rows, c);
        widths.push(width);
        c = c + 1;
    }
    let mut r: usize = 0;
    assert(out@ =~= old(out)@ + table_start(columns@, cells, 0));
    while r < rows.len()
        invariant
            r <= rows@.len(),
            cells == table_cells(rows@),
            cells.len() == rows@.len(),
            forall|r: int| 0 <= r < rows@.len() ==> (#[trigger] rows@[r])@.len() == columns@.len(),
            widths@.len() == columns@.len(),
            forall|k: int| 0 <= k < columns@.len() ==> widths@[k] == column_width(cells, k),
            out@ == old(out)@ + table_start(columns@, cells, r as nat),
        decreases rows@.len() - r,
    {
        let ghost before = out@;
        let row = &rows[r];
        let mut k: usize = 0;
        assert(out@ =~= before + line_start(columns@, cells, r as int, 0));
        while k < columns.len()
            invariant
                k <= columns@.len(),
                r < rows@.len(),
                *row == rows@[r as int],
                row@.len() == columns@.len(),
                cells == table_cells(rows@),
                widths@.len() == columns@.len(),
                forall|k: int| 0 <= k < columns@.len() ==> widths@[k] == column_width(cells, k),
                out@ == before + line_start(columns@, cells, r as int, k as nat),
            decreases columns@.len() - k,
        {
            assert(cells[r as int][k as int] == row@[k as int]@);
            write_cell(out, row[k].as_str(), columns[k], widths[k]);
            proof {
                reveal_strlit(" ");
            }
            out.append(" ");
            k = k + 1;
            assert(out@ =~= before + line_start(columns@, cells, r as int, k as nat));
        }
        proof {
            reveal_strlit("\n");
        }
        out.append("\n");
        r = r + 1;
        assert(out@ =~= old(out)@ + table_start(columns@, cells, r as nat));
    }
}

} // verus!
