//! The shape of a coefficient table and the labels of its columns.
//!
//! A table has two header lines and then one line per coefficient. Each
//! line starts with three leading cells; behind them stands one cell per
//! epoch. The second header line names the epochs: a tabulated epoch by its
//! year, such as `1995.0`, and the predicted rates of change by the years
//! that they span, such as `2025-30`, which stands for the epoch at the end
//! of that span.

use vstd::prelude::*;

verus! {

/// Number of header lines of a table.
pub const HEADER_LINES: usize = 2;

/// Number of cells that stand before the epochs on each line.
pub const LEADING_CELLS: usize = 3;

/// The century that the second year of a span of rates is counted from.
pub const SPAN_CENTURY: i16 = 2000;

/// Why a table does not have the shape of a coefficient table.
#[derive(Clone, Copy, Debug, PartialEq, Eq, Structural)]
pub enum ShapeError {
    /// Fewer lines than the header has.
    MissingHeader,
    /// A coefficient line has fewer cells than the header has columns.
    ShortLine { line: usize },
}

/// Number of epoch columns of a table whose lines have the given numbers of
/// cells: what both header lines have behind the leading cells.
pub open spec fn epoch_columns(widths: Seq<usize>) -> int {
    let narrower = if widths[0] <= widths[1] {
        widths[0]
    } else {
        widths[1]
    };
    if narrower <= LEADING_CELLS {
        0
    } else {
        narrower - LEADING_CELLS
    }
}

/// Whether the coefficient line at `line` has a cell for every epoch
/// column.
pub open spec fn line_is_complete(widths: Seq<usize>, line: int) -> bool {
    epoch_columns(widths) == 0 || widths[line] >= LEADING_CELLS + epoch_columns(widths)
}

/// Whether a table whose lines have the given numbers of cells has the
/// shape of a coefficient table: both header lines, and every coefficient
/// line complete.
pub open spec fn has_shape(widths: Seq<usize>) -> bool {
    &&& widths.len() >= HEADER_LINES
    &&& forall|line: int| HEADER_LINES <= line < widths.len() ==> line_is_complete(widths, line)
}

/// Whether a table whose lines have the given numbers of cells lacks the
/// shape of a coefficient table, for the reason `error`. The first
/// coefficient line that is too short is the one named.
pub open spec fn shape_fails(widths: Seq<usize>, error: ShapeError) -> bool {
    match error {
        ShapeError::MissingHeader => widths.len() < HEADER_LINES,
        ShapeError::ShortLine { line } => {
            &&& HEADER_LINES <= line < widths.len()
            &&& !line_is_complete(widths, line as int)
            &&& forall|earlier: int|
                HEADER_LINES <= earlier < line ==> line_is_complete(widths, earlier)
        },
    }
}

/// Checks the shape of a table from the number of cells on each of its
/// lines, and gives the numbers of its epoch columns and of its coefficient
/// lines.
pub fn table_shape(widths: &Vec<usize>) -> (shape: Result<(usize, usize), ShapeError>)
    ensures
        match shape {
            Ok((columns, rows)) => {
                &&& has_shape(widths@)
                &&& columns == epoch_columns(widths@)
                &&& rows == widths@.len() - HEADER_LINES
            },
            Err(error) => shape_fails(widths@, error),
        },
{
    let n: usize = widths.len();
    if n < HEADER_LINES {
        return Err(ShapeError::MissingHeader);
    }
    let narrower: usize = if widths[0] <= widths[1] {
        widths[0]
    } else {
        widths[1]
    };
    let columns: usize = if narrower <= LEADING_CELLS {
        0
    } else {
        narrower - LEADING_CELLS
    };
    let mut line: usize = HEADER_LINES;
    while line < n
        invariant
            HEADER_LINES <= line <= n == widths@.len(),
            columns == epoch_columns(widths@),
            forall|earlier: int|
                HEADER_LINES <= earlier < line ==> line_is_complete(widths@, earlier),
        decreases n - line,
    {
        if columns != 0 && widths[line] < LEADING_CELLS + columns {
            return Err(ShapeError::ShortLine { line });
        }
        line = line + 1;
    }
    Ok((columns, n - HEADER_LINES))
}

/// Whether `byte` is a decimal digit.
pub open spec fn is_digit(byte: u8) -> bool {
    48 <= byte <= 57
}

/// Whether `text` holds decimal digits only.
pub open spec fn all_digits(text: Seq<u8>) -> bool {
    forall|i: int| 0 <= i < text.len() ==> is_digit(#[trigger] text[i])
}

/// The number that a decimal digit denotes.
pub open spec fn digit_value(byte: u8) -> nat {
    if is_digit(byte) {
        (byte - 48) as nat
    } else {
        0
    }
}

/// The number that a string of decimal digits denotes.
pub open spec fn digits_value(digits: Seq<u8>) -> nat
    decreases digits.len(),
{
    if digits.len() == 0 {
        0
    } else {
        10 * digits_value(digits.drop_last()) + digit_value(digits.last())
    }
}

/// Where the run of decimal digits that starts at `from` ends.
pub open spec fn digits_end(text: Seq<u8>, from: int) -> int
    decreases text.len() - from,
{
    if 0 <= from < text.len() && is_digit(text[from]) {
        digits_end(text, from + 1)
    } else {
        from
    }
}

/// The whole years of a number: one or more digits, which may be followed
/// by a point and further digits. The digits behind the point are dropped.
pub open spec fn whole_years(text: Seq<u8>) -> Option<nat> {
    let end = digits_end(text, 0);
    if end == 0 {
        None
    } else if end == text.len() || (text[end] == 46 && all_digits(text.skip(end + 1))) {
        Some(digits_value(text.take(end)))
    } else {
        None
    }
}

/// Index of the last hyphen of `text`, if it has one.
pub open spec fn last_hyphen(text: Seq<u8>) -> Option<int>
    decreases text.len(),
{
    if text.len() == 0 {
        None
    } else if text.last() == 45 {
        Some(text.len() - 1)
    } else {
        last_hyphen(text.drop_last())
    }
}

/// The year of the epoch that a column label names: the year itself for a
/// tabulated epoch, and for a span of rates the year at which the span
/// ends, given behind the last hyphen and counted from [`SPAN_CENTURY`].
pub open spec fn label_year(label: Seq<u8>) -> Option<int> {
    match last_hyphen(label) {
        Some(hyphen) => match whole_years(label.skip(hyphen + 1)) {
            Some(years) => Some(SPAN_CENTURY + years),
            None => None,
        },
        None => match whole_years(label) {
            Some(years) => Some(years as int),
            None => None,
        },
    }
}

/// The year of the epoch that a column label names, if it names one and
/// the year is one that an epoch can have.
pub open spec fn epoch_year(label: Seq<u8>) -> Option<i16> {
    match label_year(label) {
        Some(value) => if value <= i16::MAX {
            Some(value as i16)
        } else {
            None
        },
        None => None,
    }
}

/// A string of digits that grows by a digit denotes no smaller a number.
proof fn lemma_digits_value_grows(digits: Seq<u8>, longer: int, shorter: int)
    requires
        0 <= shorter <= longer <= digits.len(),
        all_digits(digits.take(longer)),
    ensures
        0 <= digits_value(digits.take(shorter)) <= digits_value(digits.take(longer)),
    decreases longer,
{
    if longer == 0 {
        assert(digits.take(0).len() == 0);
    } else {
        let long = digits.take(longer);
        assert(long.drop_last() == digits.take(longer - 1));
        assert(is_digit(long[longer - 1]));
        assert forall|i: int| 0 <= i < longer - 1 implies is_digit(
            #[trigger] digits.take(longer - 1)[i],
        ) by {
            assert(digits.take(longer - 1)[i] == long[i]);
        }
        if shorter < longer {
            lemma_digits_value_grows(digits, longer - 1, shorter);
        }
        lemma_digits_value_grows(digits, longer - 1, 0);
    }
}

/// Reads the whole years of the number that `text` holds from `from` on.
/// `None` stands for text that is no number as well as for a number above
/// `limit`.
fn read_whole_years(text: &[u8], from: usize, limit: u32) -> (years: Option<u32>)
    requires
        from <= text@.len(),
        limit <= 100_000,
    ensures
        years == match whole_years(text@.skip(from as int)) {
            Some(value) => if value <= limit {
                Some(value as u32)
            } else {
                None
            },
            None => None,
        },
        years matches Some(value) ==> value <= limit,
{
    let ghost rest = text@.skip(from as int);
    let n: usize = text.len();
    let mut i: usize = from;
    let mut value: u32 = 0;
    let mut above: bool = false;
    while i < n && text[i] >= 48 && text[i] <= 57
        invariant
            from <= i <= n == text@.len(),
            rest == text@.skip(from as int),
            limit <= 100_000,
            digits_end(rest, 0) == digits_end(rest, i - from),
            all_digits(rest.take(i - from)),
            !above ==> value == digits_value(rest.take(i - from)) && value <= limit,
            above ==> digits_value(rest.take(i - from)) > limit,
        decreases n - i,
    {
        proof {
            let grown = rest.take(i - from + 1);
            assert(grown.drop_last() == rest.take(i - from));
            assert(grown.last() == text@[i as int]);
            assert forall|j: int| 0 <= j < grown.len() implies is_digit(#[trigger] grown[j]) by {
                if j < i - from {
                    assert(grown[j] == rest.take(i - from)[j]);
                }
            }
            lemma_digits_value_grows(rest, i - from + 1, i - from);
        }
        if !above {
            let next: u32 = 10 * value + (text[i] - 48) as u32;
            if next > limit {
                above = true;
            } else {
                value = next;
            }
        }
        i = i + 1;
    }
    let end: usize = i;
    assert(digits_end(rest, 0) == end - from);
    if end == from {
        return None;
    }
    if end < n {
        assert(rest[end - from] == text@[end as int]);
        if text[end] != 46 {
            return None;
        }
        let mut j: usize = end + 1;
        while j < n
            invariant
                end < j <= n == text@.len(),
                from < end,
                rest == text@.skip(from as int),
                digits_end(rest, 0) == end - from,
                rest[end - from] == 46,
                forall|k: int| end + 1 <= k < j ==> is_digit(#[trigger] text@[k]),
            decreases n - j,
        {
            if text[j] < 48 || text[j] > 57 {
                proof {
                    let tail = rest.skip(end - from + 1);
                    assert(tail[j - end - 1] == text@[j as int]);
                    assert(!all_digits(tail));
                }
                return None;
            }
            j = j + 1;
        }
        proof {
            let tail = rest.skip(end - from + 1);
            assert forall|k: int| 0 <= k < tail.len() implies is_digit(#[trigger] tail[k]) by {
                assert(tail[k] == text@[end + 1 + k]);
            }
            assert(all_digits(tail));
        }
    }
    if above {
        None
    } else {
        Some(value)
    }
}

/// Reads the year of the epoch that a column label names.
///
/// A label is a year, which may carry a point and a fraction that is
/// dropped, or a span of rates, whose part behind the last hyphen is such a
/// number and gives the year that follows [`SPAN_CENTURY`]. Any other label,
/// and a year above the largest that an epoch can have, gives `None`.
pub fn epoch_of_label(label: &[u8]) -> (year: Option<i16>)
    ensures
        year == epoch_year(label@),
{
    let n: usize = label.len();
    let mut i: usize = n;
    assert(label@.take(n as int) == label@);
    while i > 0 && label[i - 1] != 45
        invariant
            0 <= i <= n == label@.len(),
            last_hyphen(label@) == last_hyphen(label@.take(i as int)),
        decreases i,
    {
        proof {
            assert(label@.take(i as int).drop_last() == label@.take(i - 1));
        }
        i = i - 1;
    }
    proof {
        if i > 0 {
            assert(label@.take(i as int).last() == 45);
        } else {
            assert(label@.take(0).len() == 0);
        }
    }
    if i > 0 {
        match read_whole_years(label, i, 30_767) {
            Some(years) => Some((SPAN_CENTURY as u32 + years) as i16),
            None => None,
        }
    } else {
        proof {
            assert(label@.skip(0) == label@);
        }
        match read_whole_years(label, 0, 32_767) {
            Some(years) => Some(years as i16),
            None => None,
        }
    }
}

} // verus!
