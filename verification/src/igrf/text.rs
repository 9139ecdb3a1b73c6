//! The lines and cells of the text of a coefficient table.
//!
//! The text is split into lines at line feeds. Empty lines and lines that
//! begin with `#` are skipped. Each remaining line is split into cells, the
//! runs of bytes between white space. What a cell holds is left to the
//! caller; a cell is handed out as the range of its bytes in the text.

use vstd::prelude::*;

verus! {

/// A cell of the text: the bytes from `start` up to `end`.
#[derive(Clone, Copy, Debug, PartialEq, Eq, Structural)]
pub struct Cell {
    pub start: usize,
    pub end: usize,
}

/// Whether the three bytes encode a white space character of three bytes.
pub open spec fn is_wide_space(a: u8, b: u8, c: u8) -> bool {
    ||| a == 0xE1 && b == 0x9A && c == 0x80
    ||| a == 0xE2 && b == 0x80 && (0x80 <= c <= 0x8A || c == 0xA8 || c == 0xA9 || c == 0xAF)
    ||| a == 0xE2 && b == 0x81 && c == 0x9F
    ||| a == 0xE3 && b == 0x80 && c == 0x80
}

/// Number of bytes of the white space character that starts at `at`, or
/// zero if none starts there. White space is what Unicode defines as such,
/// in its UTF-8 encoding.
pub open spec fn space_len(text: Seq<u8>, at: int) -> int {
    if !(0 <= at < text.len()) {
        0
    } else if text[at] == 0x20 || 0x09 <= text[at] <= 0x0D {
        1
    } else if at + 1 < text.len() && text[at] == 0xC2 && (text[at + 1] == 0x85 || text[at + 1]
        == 0xA0) {
        2
    } else if at + 2 < text.len() && is_wide_space(text[at], text[at + 1], text[at + 2]) {
        3
    } else {
        0
    }
}

/// Where the cell that starts at `at` ends: at the next white space, or at
/// `end`.
pub open spec fn cell_end(text: Seq<u8>, at: int, end: int) -> int
    decreases end - at,
{
    if at < end && space_len(text, at) == 0 {
        cell_end(text, at + 1, end)
    } else {
        at
    }
}

/// A cell that starts before `end` at a byte that begins no white space
/// ends behind its start, and not behind `end`.
pub proof fn lemma_cell_end_bounds(text: Seq<u8>, at: int, end: int)
    requires
        at <= end,
    ensures
        at <= cell_end(text, at, end) <= end,
        at < end && space_len(text, at) == 0 ==> at < cell_end(text, at, end),
    decreases end - at,
{
    if at < end && space_len(text, at) == 0 {
        lemma_cell_end_bounds(text, at + 1, end);
    }
}

/// The cells of the text from `at` up to `end`.
pub open spec fn cells_from(text: Seq<u8>, at: int, end: int) -> Seq<Cell>
    decreases end - at,
{
    if at >= end {
        Seq::empty()
    } else if space_len(text, at) > 0 {
        if at + space_len(text, at) <= end {
            cells_from(text, at + space_len(text, at), end)
        } else {
            Seq::empty()
        }
    } else {
        proof {
            lemma_cell_end_bounds(text, at, end);
        }
        seq![Cell { start: at as usize, end: cell_end(text, at, end) as usize }] + cells_from(
            text,
            cell_end(text, at, end),
            end,
        )
    }
}

/// No byte from the start of a cell up to its end begins white space, and
/// a cell ends where white space begins or at `end`.
pub proof fn lemma_cell_end_is_first_space(text: Seq<u8>, at: int, end: int)
    requires
        at <= end,
    ensures
        forall|k: int| at <= k < cell_end(text, at, end) ==> space_len(text, k) == 0,
        cell_end(text, at, end) == end || space_len(text, cell_end(text, at, end)) > 0,
    decreases end - at,
{
    if at < end && space_len(text, at) == 0 {
        lemma_cell_end_is_first_space(text, at + 1, end);
    }
}

/// Each cell of the text from `at` up to `end` is a run of bytes within
/// that range which is not empty, holds no white space and cannot be
/// extended; and the cells follow one another in the text.
pub proof fn lemma_cells_are_runs(text: Seq<u8>, at: int, end: int, i: int)
    requires
        0 <= at <= end <= text.len() <= usize::MAX,
        0 <= i < cells_from(text, at, end).len(),
    ensures
        ({
            let cell = cells_from(text, at, end)[i];
            &&& at <= cell.start < cell.end <= end
            &&& forall|k: int| cell.start <= k < cell.end ==> space_len(text, k) == 0
            &&& cell.end == end || space_len(text, cell.end as int) > 0
            &&& i > 0 ==> cells_from(text, at, end)[i - 1].end < cell.start
        }),
    decreases end - at,
{
    let space = space_len(text, at);
    if space > 0 {
        lemma_cells_are_runs(text, at + space, end, i);
    } else {
        let stop = cell_end(text, at, end);
        lemma_cell_end_bounds(text, at, end);
        lemma_cell_end_is_first_space(text, at, end);
        let rest = cells_from(text, stop, end);
        if i > 0 {
            lemma_cells_are_runs(text, stop, end, i - 1);
            if i == 1 {
                assert(space_len(text, rest[0].start as int) == 0);
            }
        }
    }
}

/// Where the line that starts at `at` ends: at the next line feed, or at
/// the end of the text.
pub open spec fn line_end(text: Seq<u8>, at: int) -> int
    decreases text.len() - at,
{
    if 0 <= at < text.len() && text[at] != 0x0A {
        line_end(text, at + 1)
    } else {
        at
    }
}

/// A line ends at or behind its start, and within the text.
pub proof fn lemma_line_end_bounds(text: Seq<u8>, at: int)
    requires
        0 <= at <= text.len(),
    ensures
        at <= line_end(text, at) <= text.len(),
    decreases text.len() - at,
{
    if at < text.len() && text[at] != 0x0A {
        lemma_line_end_bounds(text, at + 1);
    }
}

/// Whether the line from `start` up to `end` counts: it is not empty and
/// does not begin with `#`.
pub open spec fn line_counts(text: Seq<u8>, start: int, end: int) -> bool {
    start < end && text[start] != 0x23
}

/// The cells of each line that counts, for the lines that start at `at` or
/// later.
pub open spec fn lines_from(text: Seq<u8>, at: int) -> Seq<Seq<Cell>>
    decreases text.len() - at,
{
    if !(0 <= at <= text.len()) {
        Seq::empty()
    } else {
        proof {
            lemma_line_end_bounds(text, at);
        }
        let end = line_end(text, at);
        let rest = if end < text.len() {
            lines_from(text, end + 1)
        } else {
            Seq::empty()
        };
        if line_counts(text, at, end) {
            seq![cells_from(text, at, end)] + rest
        } else {
            rest
        }
    }
}

/// The cells of each line of the text that counts.
pub open spec fn cells_of(text: Seq<u8>) -> Seq<Seq<Cell>> {
    lines_from(text, 0)
}

/// Every cell is a range of bytes within the text that is not empty.
pub proof fn lemma_cells_within_text(text: Seq<u8>, at: int, line: int, cell: int)
    requires
        0 <= at <= text.len() <= usize::MAX,
        0 <= line < lines_from(text, at).len(),
        0 <= cell < lines_from(text, at)[line].len(),
    ensures
        at <= lines_from(text, at)[line][cell].start < lines_from(text, at)[line][cell].end
            <= text.len(),
    decreases text.len() - at,
{
    lemma_line_end_bounds(text, at);
    let end = line_end(text, at);
    if line_counts(text, at, end) && line == 0 {
        lemma_cells_are_runs(text, at, end, cell);
    } else if line_counts(text, at, end) {
        lemma_cells_within_text(text, end + 1, line - 1, cell);
    } else {
        lemma_cells_within_text(text, end + 1, line, cell);
    }
}

/// Number of bytes of the white space character that starts at `at`, or
/// zero if none starts there.
pub fn space_at(text: &[u8], at: usize) -> (len: usize)
    requires
        at < text@.len(),
    ensures
        len == space_len(text@, at as int),
        at + len <= text@.len(),
{
    let n: usize = text.len();
    let a: u8 = text[at];
    if a == 0x20 || (0x09 <= a && a <= 0x0D) {
        return 1;
    }
    if n - at > 1 {
        let b: u8 = text[at + 1];
        if a == 0xC2 && (b == 0x85 || b == 0xA0) {
            return 2;
        }
        if n - at > 2 {
            let c: u8 = text[at + 2];
            let wide: bool = (a == 0xE1 && b == 0x9A && c == 0x80) || (a == 0xE2 && b == 0x80 && ((
            0x80 <= c && c <= 0x8A) || c == 0xA8 || c == 0xA9 || c == 0xAF)) || (a == 0xE2 && b
                == 0x81 && c == 0x9F) || (a == 0xE3 && b == 0x80 && c == 0x80);
            if wide {
                return 3;
            }
        }
    }
    0
}

/// Splits the text from `start` up to `end` into cells.
pub fn line_cells(text: &[u8], start: usize, end: usize) -> (cells: Vec<Cell>)
    requires
        start <= end <= text@.len(),
    ensures
        cells@ == cells_from(text@, start as int, end as int),
{
    let n: usize = text.len();
    let mut cells: Vec<Cell> = Vec::new();
    let mut at: usize = start;
    while at < end
        invariant
            start <= at,
            end <= n == text@.len(),
            cells_from(text@, start as int, end as int) == cells@ + cells_from(
                text@,
                at as int,
                end as int,
            ),
        decreases end + 3 - at,
    {
        let space: usize = space_at(text, at);
        if space > 0 {
            at = at + space;
        } else {
            let from: usize = at;
            at = at + 1;
            while at < end && space_at(text, at) == 0
                invariant
                    from < at <= end <= text@.len(),
                    cell_end(text@, from as int, end as int) == cell_end(
                        text@,
                        at as int,
                        end as int,
                    ),
                decreases end - at,
            {
                at = at + 1;
            }
            cells.push(Cell { start: from, end: at });
            proof {
                let before = cells@.drop_last();
                let tail = cells_from(text@, at as int, end as int);
                assert(cells@ + tail == before + (seq![cells@.last()] + tail));
            }
        }
    }
    proof {
        assert(cells_from(text@, at as int, end as int) == Seq::<Cell>::empty());
        assert(cells@ + Seq::<Cell>::empty() == cells@);
    }
    cells
}

/// Splits the text of a table into the cells of its lines. Empty lines and
/// lines that begin with `#` are left out.
pub fn table_cells(text: &[u8]) -> (lines: Vec<Vec<Cell>>)
    ensures
        lines@.len() == cells_of(text@).len(),
        forall|i: int| 0 <= i < lines@.len() ==> (#[trigger] lines@[i])@ == cells_of(text@)[i],
{
    let n: usize = text.len();
    let mut lines: Vec<Vec<Cell>> = Vec::new();
    let ghost mut done: Seq<Seq<Cell>> = Seq::empty();
    let mut at: usize = 0;
    loop
        invariant_except_break
            0 <= at <= n == text@.len(),
            cells_of(text@) == done + lines_from(text@, at as int),
        invariant
            done.len() == lines@.len(),
            forall|i: int| 0 <= i < lines@.len() ==> (#[trigger] lines@[i])@ == done[i],
        ensures
            cells_of(text@) == done,
        decreases n - at,
    {
        let start: usize = at;
        while at < n && text[at] != 0x0A
            invariant
                start <= at <= n == text@.len(),
                line_end(text@, start as int) == line_end(text@, at as int),
            decreases n - at,
        {
            at = at + 1;
        }
        let end: usize = at;
        let ghost rest = if end < n {
            lines_from(text@, end + 1)
        } else {
            Seq::empty()
        };
        if start < end && text[start] != 0x23 {
            let cells: Vec<Cell> = line_cells(text, start, end);
            lines.push(cells);
            proof {
                assert(done + (seq![cells@] + rest) == done.push(cells@) + rest);
                done = done.push(cells@);
            }
        }
        if end == n {
            proof {
                assert(done + Seq::<Seq<Cell>>::empty() == done);
            }
            break ;
        }
        at = end + 1;
    }
    lines
}

} // verus!
