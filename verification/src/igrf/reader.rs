//! Reading the text of a coefficient table into a model.
//!
//! The text is split into lines and cells, its shape is checked, and the
//! labels of its epoch columns give the years from which the model is
//! built. The numbers in the cells are left to the caller, who gets the
//! cells along with the model.

use vstd::prelude::*;
use vstd::slice::slice_subrange;
use crate::igrf::coeffs::{table_fails, TableError};
use crate::igrf::header::{
    epoch_columns,
    epoch_of_label,
    epoch_year,
    has_shape,
    shape_fails,
    table_shape,
    ShapeError,
    HEADER_LINES,
    LEADING_CELLS,
};
use crate::igrf::text::{cells_of, lemma_cells_within_text, table_cells, Cell};
use crate::igrf::IGRF;

verus! {

/// Why a text is not read as a coefficient table. The first reason that
/// applies is the one given: the shape before the labels, the labels by
/// rising column, and the labels before the table.
#[derive(Clone, Copy, Debug, PartialEq, Eq, Structural)]
pub enum ReadError {
    /// The lines do not have the shape of a table.
    Shape(ShapeError),
    /// The label of the epoch column `column` names no epoch.
    Label { column: usize },
    /// The epochs that the labels name make no table.
    Table(TableError),
}

/// The number of cells on each line.
pub open spec fn widths_of(lines: Seq<Seq<Cell>>) -> Seq<usize> {
    Seq::new(lines.len(), |i: int| lines[i].len() as usize)
}

/// The label of the epoch column `column`: the bytes of its cell on the
/// second header line.
pub open spec fn label_at(text: Seq<u8>, lines: Seq<Seq<Cell>>, column: int) -> Seq<u8> {
    let cell = lines[1][LEADING_CELLS + column];
    text.subrange(cell.start as int, cell.end as int)
}

/// The year of each epoch column whose label names one.
pub open spec fn label_years(text: Seq<u8>, lines: Seq<Seq<Cell>>) -> Seq<i16> {
    Seq::new(
        epoch_columns(widths_of(lines)) as nat,
        |column: int|
            match epoch_year(label_at(text, lines, column)) {
                Some(year) => year,
                None => 0,
            },
    )
}

/// Whether the label of every epoch column before `columns` names an epoch.
pub open spec fn labels_name_epochs(text: Seq<u8>, lines: Seq<Seq<Cell>>, columns: int) -> bool {
    forall|column: int|
        0 <= column < columns ==> (#[trigger] epoch_year(label_at(text, lines, column))) is Some
}

/// Whether `text` is not read as a coefficient table, for the reason
/// `error`.
pub open spec fn read_fails(text: Seq<u8>, error: ReadError) -> bool {
    let lines = cells_of(text);
    let widths = widths_of(lines);
    match error {
        ReadError::Shape(shape) => shape_fails(widths, shape),
        ReadError::Label { column } => {
            &&& has_shape(widths)
            &&& column < epoch_columns(widths)
            &&& epoch_year(label_at(text, lines, column as int)) is None
            &&& labels_name_epochs(text, lines, column as int)
        },
        ReadError::Table(table) => {
            &&& has_shape(widths)
            &&& labels_name_epochs(text, lines, epoch_columns(widths))
            &&& table_fails(label_years(text, lines), lines.len() - HEADER_LINES, table)
        },
    }
}

/// Reads the text of a coefficient table: splits it into the cells of its
/// lines and builds the model of the epochs that its column labels name,
/// with one coefficient row for each line behind the header.
pub fn read_table(text: &[u8]) -> (r: Result<(IGRF, Vec<Vec<Cell>>), ReadError>)
    ensures
        match r {
            Ok((model, lines)) => {
                &&& lines@.len() == cells_of(text@).len()
                &&& forall|i: int|
                    0 <= i < lines@.len() ==> (#[trigger] lines@[i])@ == cells_of(text@)[i]
                &&& has_shape(widths_of(cells_of(text@)))
                &&& labels_name_epochs(
                    text@,
                    cells_of(text@),
                    epoch_columns(widths_of(cells_of(text@))),
                )
                &&& model.wf()
                &&& model.table().years() == label_years(text@, cells_of(text@))
                &&& model.table().row_count() == cells_of(text@).len() - HEADER_LINES
            },
            Err(error) => read_fails(text@, error),
        },
{
    let lines: Vec<Vec<Cell>> = table_cells(text);
    let ghost cells = cells_of(text@);
    let n: usize = lines.len();
    let mut widths: Vec<usize> = Vec::new();
    let mut i: usize = 0;
    while i < n
        invariant
            0 <= i <= n == lines@.len() == cells.len(),
            forall|k: int| 0 <= k < lines@.len() ==> (#[trigger] lines@[k])@ == cells[k],
            widths@.len() == i,
            forall|k: int| 0 <= k < i ==> #[trigger] widths@[k] == cells[k].len(),
        decreases n - i,
    {
        widths.push(lines[i].len());
        i = i + 1;
    }
    assert(widths@ =~= widths_of(cells));
    let (columns, rows): (usize, usize) = match table_shape(&widths) {
        Ok(shape) => shape,
        Err(error) => {
            return Err(ReadError::Shape(error));
        },
    };
    let len: usize = text.len();
    let mut years: Vec<i16> = Vec::new();
    let mut column: usize = 0;
    while column < columns
        invariant
            0 <= column <= columns == epoch_columns(widths@),
            widths@ == widths_of(cells),
            cells == cells_of(text@),
            has_shape(widths@),
            lines@.len() == cells.len(),
            forall|k: int| 0 <= k < lines@.len() ==> (#[trigger] lines@[k])@ == cells[k],
            len == text@.len(),
            years@.len() == column,
            forall|k: int|
                0 <= k < column ==> (#[trigger] epoch_year(label_at(text@, cells, k))) == Some(
                    years@[k],
                ),
        decreases columns - column,
    {
        assert(lines@[1]@ == cells[1]);
        let labels: &Vec<Cell> = &lines[1];
        assert(widths@[1] == labels.len());
        let cell: Cell = labels[LEADING_CELLS + column];
        proof {
            lemma_cells_within_text(text@, 0, 1, LEADING_CELLS + column);
        }
        let label: &[u8] = slice_subrange(text, cell.start, cell.end);
        match epoch_of_label(label) {
            Some(year) => {
                years.push(year);
            },
            None => {
                return Err(ReadError::Label { column });
            },
        }
        column = column + 1;
    }
    assert(years@ =~= label_years(text@, cells));
    match IGRF::new(&years, rows) {
        Ok(model) => Ok((model, lines)),
        Err(error) => Err(ReadError::Table(error)),
    }
}

} // verus!
