use vstd::prelude::*;
use crate::layout::{spans_of, Span, VisualLine};

verus! {

/// How a cell is drawn.
#[derive(Clone, Copy, Debug, PartialEq, Eq, Structural)]
pub enum CellStyle {
    Normal,
    Selected,
    Cursor,
}

/// One drawn character and its style.
#[derive(Clone, Copy, Debug, PartialEq, Eq, Structural)]
pub struct Cell {
    pub ch: char,
    pub style: CellStyle,
}

/// Style of the character at index `i`, with the cursor at `cursor` and the selection
/// spanning `[lo, hi]`: the cursor wins over the selection.
pub open spec fn style_at(i: nat, cursor: nat, lo: nat, hi: nat) -> CellStyle {
    if i == cursor {
        CellStyle::Cursor
    } else if lo <= i <= hi {
        CellStyle::Selected
    } else {
        CellStyle::Normal
    }
}

/// The cells of one visual line: its characters, then a blank cell for the newline that
/// ends it where the cursor or the selection covers that newline, or for a cursor after
/// the end of the text on the last line.
pub open spec fn row_cells(text: Seq<char>, sp: Span, last: bool, cursor: nat, lo: nat, hi: nat) -> Seq<Cell> {
    cells_between(text, sp.start, sp.end, cursor, lo, hi) + if sp.hard_break && lo <= sp.end <= hi {
        seq![Cell { ch: ' ', style: style_at(sp.end, cursor, lo, hi) }]
    } else if last && cursor == text.len() {
        seq![Cell { ch: ' ', style: CellStyle::Cursor }]
    } else {
        Seq::<Cell>::empty()
    }
}

/// The styled characters `[a, b)` of `text`.
pub open spec fn cells_between(text: Seq<char>, a: nat, b: nat, cursor: nat, lo: nat, hi: nat) -> Seq<Cell>
    decreases b - a,
{
    if b <= a {
        Seq::<Cell>::empty()
    } else {
        cells_between(text, a, (b - 1) as nat, cursor, lo, hi).push(
            Cell { ch: text[b - 1], style: style_at((b - 1) as nat, cursor, lo, hi) },
        )
    }
}

/// Number of rows drawn: the lines from `offset` on, at most `height` of them.
pub open spec fn visible_count(n: nat, offset: nat, height: nat) -> nat {
    if offset >= n {
        0
    } else if n - offset < height {
        (n - offset) as nat
    } else {
        height
    }
}

/// Draws the visual lines `offset .. offset + height` (as many as exist), one row each.
/// The selection is `[lo, hi]` (both ends included); without one, `lo == hi == cursor`.
pub fn render_rows(
    text: &[char],
    lines: &[VisualLine],
    cursor: usize,
    lo: usize,
    hi: usize,
    offset: usize,
    height: usize,
) -> (r: Vec<Vec<Cell>>)
    requires
        forall|i: int| 0 <= i < lines@.len() ==> (#[trigger] lines@[i]).char_start <= lines@[i].char_end
            <= text@.len(),
    ensures
        r@.len() == visible_count(lines@.len() as nat, offset as nat, height as nat),
        forall|j: int| 0 <= j < r@.len() ==> (#[trigger] r@[j])@ == row_cells(
            text@,
            spans_of(lines@)[offset + j],
            offset + j == lines@.len() - 1,
            cursor as nat,
            lo as nat,
            hi as nat,
        ),
{
    let n = lines.len();
    let count: usize = if offset >= n {
        0
    } else if n - offset < height {
        n - offset
    } else {
        height
    };
    let mut rows: Vec<Vec<Cell>> = Vec::new();
    let mut j: usize = 0;
    while j < count
        invariant
            count == visible_count(n as nat, offset as nat, height as nat),
            n == lines@.len(),
            j <= count,
            count > 0 ==> offset + count <= n,
            rows@.len() == j,
            forall|i: int| 0 <= i < lines@.len() ==> (#[trigger] lines@[i]).char_start
                <= lines@[i].char_end <= text@.len(),
            forall|q: int| 0 <= q < j ==> (#[trigger] rows@[q])@ == row_cells(
                text@,
                spans_of(lines@)[offset + q],
                offset + q == lines@.len() - 1,
                cursor as nat,
                lo as nat,
                hi as nat,
            ),
        decreases count - j,
    {
        let idx = offset + j;
        let line = lines[idx];
        let row = render_line(text, line, idx + 1 == n, cursor, lo, hi);
        rows.push(row);
        j = j + 1;
    }
    rows
}

/// The cells of one line; `last` tells whether it is the last line of the layout.
fn render_line(text: &[char], line: VisualLine, last: bool, cursor: usize, lo: usize, hi: usize) -> (r: Vec<Cell>)
    requires
        line.char_start <= line.char_end <= text@.len(),
    ensures
        r@ == row_cells(text@, line.span(), last, cursor as nat, lo as nat, hi as nat),
{
    let mut cells: Vec<Cell> = Vec::new();
    let mut i: usize = line.char_start;
    while i < line.char_end
        invariant
            line.char_start <= i <= line.char_end <= text@.len(),
            cells@ =~= cells_between(text@, line.char_start as nat, i as nat, cursor as nat, lo as nat, hi as nat),
        decreases line.char_end - i,
    {
        let style = style_of(i, cursor, lo, hi);
        cells.push(Cell { ch: text[i], style });
        i = i + 1;
    }
    let ghost body = cells@;
    let end = line.char_end;
    if line.hard_break && lo <= end && end <= hi {
        cells.push(Cell { ch: ' ', style: style_of(end, cursor, lo, hi) });
    } else if last && cursor == text.len() {
        cells.push(Cell { ch: ' ', style: CellStyle::Cursor });
    }
    proof {
        assert(cells@ =~= row_cells(text@, line.span(), last, cursor as nat, lo as nat, hi as nat));
    }
    cells
}

/// Style of the character at index `i`.
pub fn style_of(i: usize, cursor: usize, lo: usize, hi: usize) -> (r: CellStyle)
    ensures
        r == style_at(i as nat, cursor as nat, lo as nat, hi as nat),
{
    if i == cursor {
        CellStyle::Cursor
    } else if lo <= i && i <= hi {
        CellStyle::Selected
    } else {
        CellStyle::Normal
    }
}

} // verus!
