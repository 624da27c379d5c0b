use vstd::prelude::*;
use crate::text::{
    byte_at, chars_of, lemma_byte_at_bound, lemma_byte_at_step, lemma_utf8_len_encode, utf8_char_len,
    utf8_len,
};
use crate::width::{ascii_narrow, char_cols, columns_of, sum_cols};

verus! {

/// A visual line in character indices: the characters `[start, end)` of the text, and
/// whether an explicit newline (at index `end`) closed it.
pub struct Span {
    pub start: nat,
    pub end: nat,
    pub hard_break: bool,
}

/// Greedy wrap of `text`, whose characters are `cols` columns wide, from character index
/// `k`, where the open line started at `line_start` and already takes `run` columns.
pub open spec fn wrap_from(
    text: Seq<char>,
    cols: Seq<usize>,
    width: nat,
    k: nat,
    line_start: nat,
    run: nat,
) -> Seq<Span>
    decreases text.len() - k,
{
    if k >= text.len() {
        seq![Span { start: line_start, end: text.len(), hard_break: false }]
    } else if text[k as int] == '\n' {
        seq![Span { start: line_start, end: k, hard_break: true }] + wrap_from(text, cols, width, k + 1, k + 1, 0)
    } else if run + cols[k as int] >= width {
        seq![Span { start: line_start, end: k + 1, hard_break: false }] + wrap_from(text, cols, width, k + 1, k + 1, 0)
    } else {
        wrap_from(text, cols, width, k + 1, line_start, (run + cols[k as int]) as nat)
    }
}

/// The visual lines of `text`, whose characters are `cols` columns wide, wrapped at
/// `width` columns.
pub open spec fn wrap_with(text: Seq<char>, cols: Seq<usize>, width: nat) -> Seq<Span> {
    wrap_from(text, cols, width, 0, 0, 0)
}

/// The visual lines of `text` wrapped at `width` columns.
pub open spec fn wrap(text: Seq<char>, width: nat) -> Seq<Span> {
    wrap_with(text, char_cols(text), width)
}

/// One row of the layout: its byte range `[start, end)`, the same range in character
/// indices `[char_start, char_end)`, and whether an explicit newline ended it.
#[derive(Clone, Copy, Debug, PartialEq, Eq, Structural)]
pub struct VisualLine {
    pub start: usize,
    pub end: usize,
    pub char_start: usize,
    pub char_end: usize,
    pub hard_break: bool,
}

impl VisualLine {
    /// The line in character indices.
    pub open spec fn span(self) -> Span {
        Span { start: self.char_start as nat, end: self.char_end as nat, hard_break: self.hard_break }
    }

    /// The byte offsets agree with the character indices over `text`.
    pub open spec fn agrees_with(self, text: Seq<char>) -> bool {
        &&& self.char_start <= self.char_end <= text.len()
        &&& self.start == byte_at(text, self.char_start as int)
        &&& self.end == byte_at(text, self.char_end as int)
    }
}

/// The lines, in character indices.
pub open spec fn spans_of(lines: Seq<VisualLine>) -> Seq<Span> {
    lines.map_values(|l: VisualLine| l.span())
}

/// Wraps `text`, whose characters are `cols` columns wide, into visual lines of `width`
/// columns (greedy, one pass).
pub fn wrap_lines(text: &[char], cols: &[usize], width: usize) -> (r: Vec<VisualLine>)
    requires
        utf8_len(text@) <= usize::MAX,
        cols@.len() == text@.len(),
    ensures
        spans_of(r@) == wrap_with(text@, cols@, width as nat),
        forall|i: int| 0 <= i < r@.len() ==> #[trigger] r@[i].agrees_with(text@),
{
    let ghost t = text@;
    let mut lines: Vec<VisualLine> = Vec::new();
    let mut k: usize = 0;
    let mut b: usize = 0;
    let mut ls: usize = 0;
    let mut lsb: usize = 0;
    let mut run: usize = 0;
    while k < text.len()
        invariant
            ls <= k <= t.len(),
            t == text@,
            cols@.len() == t.len(),
            utf8_len(t) <= usize::MAX,
            b == byte_at(t, k as int),
            lsb == byte_at(t, ls as int),
            run == 0 || run < width,
            spans_of(lines@) + wrap_from(t, cols@, width as nat, k as nat, ls as nat, run as nat)
                == wrap_with(t, cols@, width as nat),
            forall|i: int| 0 <= i < lines@.len() ==> #[trigger] lines@[i].agrees_with(t),
        decreases t.len() - k,
    {
        let c = text[k];
        proof {
            lemma_byte_at_step(t, k as int);
            lemma_byte_at_bound(t, k as int + 1);
        }
        let nb = b + utf8_char_len(c);
        let ghost before = lines@;
        if c == '\n' {
            let line = VisualLine { start: lsb, end: b, char_start: ls, char_end: k, hard_break: true };
            lines.push(line);
            ls = k + 1;
            lsb = nb;
            run = 0;
            proof {
                assert(spans_of(lines@) =~= spans_of(before) + seq![line.span()]);
            }
        } else {
            let w = cols[k];
            if w >= width - run {
                let line = VisualLine { start: lsb, end: nb, char_start: ls, char_end: k + 1, hard_break: false };
                lines.push(line);
                ls = k + 1;
                lsb = nb;
                run = 0;
                proof {
                    assert(spans_of(lines@) =~= spans_of(before) + seq![line.span()]);
                }
            } else {
                run = run + w;
            }
        }
        k = k + 1;
        b = nb;
        proof {
            assert forall|i: int| 0 <= i < lines@.len() implies #[trigger] lines@[i].agrees_with(t) by {
                if i < before.len() {
                    assert(lines@[i] == before[i]);
                }
            }
        }
    }
    let ghost before = lines@;
    let line = VisualLine { start: lsb, end: b, char_start: ls, char_end: k, hard_break: false };
    lines.push(line);
    proof {
        assert(spans_of(lines@) =~= spans_of(before) + seq![line.span()]);
        assert forall|i: int| 0 <= i < lines@.len() implies #[trigger] lines@[i].agrees_with(t) by {
            if i < before.len() {
                assert(lines@[i] == before[i]);
            }
        }
    }
    lines
}

/// The visual lines of `text` at `width` columns.
pub fn layout_text(text: &str, width: usize) -> (r: Vec<VisualLine>)
    ensures
        spans_of(r@) == wrap(text@, width as nat),
        forall|i: int| 0 <= i < r@.len() ==> #[trigger] r@[i].agrees_with(text@),
        ascii_narrow(text@),
{
    let _n = text.as_bytes().len();
    proof {
        lemma_utf8_len_encode(text@);
    }
    let chars = chars_of(text);
    let cols = columns_of(chars.as_slice());
    wrap_lines(chars.as_slice(), cols.as_slice(), width)
}

/// Width of the characters `[a, b)`.
pub open spec fn cols_between(cols: Seq<usize>, a: int, b: int) -> nat {
    sum_cols(cols.subrange(a, b))
}

/// What each line of a wrap satisfies: its range lies in the text; a hard break sits on a
/// newline; a line that ends on a newline or ends the text is narrower than `width` (or
/// empty); a line closed by the width is narrower than `width` but for its last character.
pub open spec fn line_ok(text: Seq<char>, cols: Seq<usize>, width: nat, sp: Span, last: bool) -> bool {
    &&& sp.start <= sp.end <= text.len()
    &&& sp.hard_break ==> (sp.end < text.len() && text[sp.end as int] == '\n' && !last)
    &&& (sp.hard_break || last) ==> (sp.start == sp.end || cols_between(cols, sp.start as int, sp.end as int) < width)
    &&& (!sp.hard_break && !last) ==> (sp.start < sp.end && (sp.start + 1 == sp.end
        || cols_between(cols, sp.start as int, sp.end - 1) < width))
}

/// `line_ok` of the line at index `i`.
pub open spec fn line_ok_at(text: Seq<char>, cols: Seq<usize>, width: nat, lines: Seq<Span>, i: int) -> bool {
    line_ok(text, cols, width, lines[i], i == lines.len() - 1)
}

/// Shape of a wrap of `text` that starts at character index `from`: the lines follow each
/// other, with exactly the newline character between a hard-broken line and the next.
pub open spec fn wrap_shape(text: Seq<char>, cols: Seq<usize>, width: nat, lines: Seq<Span>, from: nat) -> bool {
    &&& lines.len() > 0
    &&& lines[0].start == from
    &&& lines.last().end == text.len()
    &&& !lines.last().hard_break
    &&& forall|i: int| 0 <= i < lines.len() ==> #[trigger] line_ok_at(text, cols, width, lines, i)
    &&& forall|i: int| 0 <= i < lines.len() - 1 ==> #[trigger] lines[i + 1].start
        == lines[i].end + if lines[i].hard_break { 1nat } else { 0nat }
}

/// Widening a range by one character adds that character's width.
pub proof fn lemma_cols_step(cols: Seq<usize>, a: int, k: int)
    requires
        0 <= a <= k < cols.len(),
    ensures
        cols_between(cols, a, k + 1) == cols_between(cols, a, k) + cols[k],
{
    assert(cols.subrange(a, k + 1).drop_last() =~= cols.subrange(a, k));
}

/// The width of a prefix is at most that of the whole.
pub proof fn lemma_cols_prefix(cols: Seq<usize>, a: int, j: int, k: int)
    requires
        0 <= a <= j <= k <= cols.len(),
    ensures
        cols_between(cols, a, j) <= cols_between(cols, a, k),
    decreases k - j,
{
    if j < k {
        lemma_cols_prefix(cols, a, j, k - 1);
        lemma_cols_step(cols, a, k - 1);
    }
}

proof fn lemma_shape_prepend(
    text: Seq<char>,
    cols: Seq<usize>,
    width: nat,
    first: Span,
    rest: Seq<Span>,
    from: nat,
)
    requires
        wrap_shape(text, cols, width, rest, rest[0].start),
        first.start == from,
        line_ok(text, cols, width, first, false),
        rest[0].start == first.end + if first.hard_break { 1nat } else { 0nat },
    ensures
        wrap_shape(text, cols, width, seq![first] + rest, from),
{
    let all = seq![first] + rest;
    assert(all.last() == rest.last());
    assert forall|i: int| 0 <= i < all.len() implies #[trigger] line_ok_at(text, cols, width, all, i) by {
        if i > 0 {
            assert(all[i] == rest[i - 1]);
            assert(line_ok_at(text, cols, width, rest, i - 1));
        }
    }
    assert forall|i: int| 0 <= i < all.len() - 1 implies #[trigger] all[i + 1].start
        == all[i].end + if all[i].hard_break { 1nat } else { 0nat } by {
        if i > 0 {
            assert(all[i] == rest[i - 1]);
            assert(all[i + 1] == rest[i]);
            assert(rest[(i - 1) + 1].start == rest[i - 1].end + if rest[i - 1].hard_break { 1nat } else { 0nat });
        }
    }
}

/// Every wrap has the shape `wrap_shape` describes.
pub proof fn lemma_wrap_from_shape(text: Seq<char>, cols: Seq<usize>, width: nat, k: nat, ls: nat, run: nat)
    requires
        cols.len() == text.len(),
        ls <= k <= text.len(),
        run == cols_between(cols, ls as int, k as int),
        run < width || ls == k,
    ensures
        wrap_shape(text, cols, width, wrap_from(text, cols, width, k, ls, run), ls),
    decreases text.len() - k,
{
    let lines = wrap_from(text, cols, width, k, ls, run);
    if k >= text.len() {
        assert(lines.len() == 1);
        assert(line_ok_at(text, cols, width, lines, 0));
    } else if text[k as int] == '\n' {
        assert(cols.subrange(k + 1int, k + 1int).len() == 0);
        lemma_wrap_from_shape(text, cols, width, k + 1, k + 1, 0);
        let first = Span { start: ls, end: k, hard_break: true };
        lemma_shape_prepend(text, cols, width, first, wrap_from(text, cols, width, k + 1, k + 1, 0), ls);
    } else if run + cols[k as int] >= width {
        assert(cols.subrange(k + 1int, k + 1int).len() == 0);
        lemma_wrap_from_shape(text, cols, width, k + 1, k + 1, 0);
        let first = Span { start: ls, end: k + 1, hard_break: false };
        lemma_shape_prepend(text, cols, width, first, wrap_from(text, cols, width, k + 1, k + 1, 0), ls);
    } else {
        lemma_cols_step(cols, ls as int, k as int);
        lemma_wrap_from_shape(text, cols, width, k + 1, ls, (run + cols[k as int]) as nat);
    }
}

/// The wrap of a whole text has the shape `wrap_shape` describes.
pub proof fn lemma_wrap_shape(text: Seq<char>, cols: Seq<usize>, width: nat)
    requires
        cols.len() == text.len(),
    ensures
        wrap_shape(text, cols, width, wrap_with(text, cols, width), 0),
{
    assert(cols.subrange(0, 0).len() == 0);
    lemma_wrap_from_shape(text, cols, width, 0, 0, 0);
}

/// The characters a line stands for: its range, then the newline that closed it, if any.
pub open spec fn piece(text: Seq<char>, sp: Span) -> Seq<char> {
    text.subrange(sp.start as int, sp.end as int) + if sp.hard_break {
        seq!['\n']
    } else {
        Seq::<char>::empty()
    }
}

/// The lines put back together, in order.
pub open spec fn rebuild(text: Seq<char>, lines: Seq<Span>) -> Seq<char>
    decreases lines.len(),
{
    if lines.len() == 0 {
        Seq::<char>::empty()
    } else {
        piece(text, lines[0]) + rebuild(text, lines.drop_first())
    }
}

proof fn lemma_rebuild_prepend(text: Seq<char>, first: Span, rest: Seq<Span>)
    ensures
        rebuild(text, seq![first] + rest) == piece(text, first) + rebuild(text, rest),
{
    assert((seq![first] + rest).drop_first() =~= rest);
}

proof fn lemma_rebuild_from(text: Seq<char>, cols: Seq<usize>, width: nat, k: nat, ls: nat, run: nat)
    requires
        ls <= k <= text.len(),
    ensures
        rebuild(text, wrap_from(text, cols, width, k, ls, run)) == text.subrange(ls as int, text.len() as int),
    decreases text.len() - k,
{
    let n = text.len() as int;
    if k >= text.len() {
        let lines = wrap_from(text, cols, width, k, ls, run);
        assert(lines.drop_first() =~= Seq::<Span>::empty());
        assert(piece(text, lines[0]) =~= text.subrange(ls as int, n));
        assert(rebuild(text, lines.drop_first()) =~= Seq::<char>::empty());
        assert(rebuild(text, lines) =~= piece(text, lines[0]));
    } else if text[k as int] == '\n' {
        let first = Span { start: ls, end: k, hard_break: true };
        lemma_rebuild_from(text, cols, width, k + 1, k + 1, 0);
        lemma_rebuild_prepend(text, first, wrap_from(text, cols, width, k + 1, k + 1, 0));
        assert(piece(text, first) + text.subrange((k + 1) as int, n) =~= text.subrange(ls as int, n));
    } else if run + cols[k as int] >= width {
        let first = Span { start: ls, end: k + 1, hard_break: false };
        lemma_rebuild_from(text, cols, width, k + 1, k + 1, 0);
        lemma_rebuild_prepend(text, first, wrap_from(text, cols, width, k + 1, k + 1, 0));
        assert(piece(text, first) + text.subrange((k + 1) as int, n) =~= text.subrange(ls as int, n));
    } else {
        lemma_rebuild_from(text, cols, width, k + 1, ls, (run + cols[k as int]) as nat);
    }
}

/// The visual lines, joined with a newline after each hard-broken line and nothing after
/// a line closed by the width, give back the text (whatever the characters' widths).
pub proof fn lemma_layout_reconstructs(text: Seq<char>, cols: Seq<usize>, width: nat)
    ensures
        rebuild(text, wrap_with(text, cols, width)) == text,
{
    lemma_rebuild_from(text, cols, width, 0, 0, 0);
    assert(text.subrange(0, text.len() as int) =~= text);
}

/// A visual line is wider than `width` only through its last character: without that
/// character it is narrower than `width`, or that character is alone on its line.
pub proof fn lemma_lines_overflow_by_last_char(text: Seq<char>, cols: Seq<usize>, width: nat)
    requires
        cols.len() == text.len(),
    ensures
        forall|i: int| 0 <= i < wrap_with(text, cols, width).len() ==> {
            let sp = #[trigger] wrap_with(text, cols, width)[i];
            cols_between(cols, sp.start as int, sp.end as int) <= width || (sp.start < sp.end && (sp.start
                + 1 == sp.end || cols_between(cols, sp.start as int, sp.end - 1) < width))
        },
{
    let lines = wrap_with(text, cols, width);
    lemma_wrap_shape(text, cols, width);
    assert forall|i: int| 0 <= i < lines.len() implies {
        let sp = #[trigger] lines[i];
        cols_between(cols, sp.start as int, sp.end as int) <= width || (sp.start < sp.end && (sp.start + 1
            == sp.end || cols_between(cols, sp.start as int, sp.end - 1) < width))
    } by {
        assert(line_ok_at(text, cols, width, lines, i));
        let sp = lines[i];
        if sp.start == sp.end {
            assert(cols.subrange(sp.start as int, sp.end as int).len() == 0);
        }
    }
}

/// Where every character is at most one column wide, no visual line is wider than
/// `width`, but for a line of a single character wider than `width`.
pub proof fn lemma_narrow_lines_fit(text: Seq<char>, cols: Seq<usize>, width: nat)
    requires
        cols.len() == text.len(),
        forall|j: int| 0 <= j < cols.len() ==> #[trigger] cols[j] <= 1,
    ensures
        forall|i: int| 0 <= i < wrap_with(text, cols, width).len() ==> {
            let sp = #[trigger] wrap_with(text, cols, width)[i];
            cols_between(cols, sp.start as int, sp.end as int) <= width || (sp.start + 1 == sp.end
                && cols[sp.start as int] > width)
        },
{
    let lines = wrap_with(text, cols, width);
    lemma_wrap_shape(text, cols, width);
    assert forall|i: int| 0 <= i < lines.len() implies {
        let sp = #[trigger] lines[i];
        cols_between(cols, sp.start as int, sp.end as int) <= width || (sp.start + 1 == sp.end
            && cols[sp.start as int] > width)
    } by {
        assert(line_ok_at(text, cols, width, lines, i));
        let sp = lines[i];
        if sp.start == sp.end {
            assert(cols.subrange(sp.start as int, sp.end as int).len() == 0);
        } else if !sp.hard_break && i != lines.len() - 1 {
            lemma_cols_step(cols, sp.start as int, sp.end - 1);
            if sp.start + 1 == sp.end {
                assert(cols.subrange(sp.start as int, sp.start as int).len() == 0);
            }
        }
    }
}

/// `k` lies in the line, its end included (a cursor may stand after the last character).
pub open spec fn holds(sp: Span, k: nat) -> bool {
    sp.start <= k <= sp.end
}

/// The row of character index `k`: the last line that holds it.
pub open spec fn row_of(lines: Seq<Span>, k: nat) -> nat
    decreases lines.len(),
{
    if lines.len() == 0 {
        0
    } else if holds(lines.last(), k) {
        (lines.len() - 1) as nat
    } else {
        row_of(lines.drop_last(), k)
    }
}

/// The display column of character index `k` in its row.
pub open spec fn col_of(cols: Seq<usize>, lines: Seq<Span>, k: nat) -> nat {
    cols_between(cols, lines[row_of(lines, k) as int].start as int, k as int)
}

proof fn lemma_row_of(lines: Seq<Span>, k: nat, i: int)
    requires
        0 <= i < lines.len(),
        holds(lines[i], k),
    ensures
        i <= row_of(lines, k) < lines.len(),
        holds(lines[row_of(lines, k) as int], k),
        forall|j: int| row_of(lines, k) < j < lines.len() ==> !#[trigger] holds(lines[j], k),
    decreases lines.len(),
{
    if !holds(lines.last(), k) {
        let init = lines.drop_last();
        lemma_row_of(init, k, i);
        assert(init[row_of(init, k) as int] == lines[row_of(init, k) as int]);
        assert forall|j: int| row_of(lines, k) < j < lines.len() implies !#[trigger] holds(lines[j], k) by {
            if j < lines.len() - 1 {
                assert(init[j] == lines[j]);
            }
        }
    }
}

proof fn lemma_some_line_holds(text: Seq<char>, cols: Seq<usize>, width: nat, lines: Seq<Span>, k: nat, i: int)
    requires
        wrap_shape(text, cols, width, lines, 0),
        0 <= i < lines.len(),
        lines[i].start <= k <= text.len(),
    ensures
        exists|j: int| 0 <= j < lines.len() && #[trigger] holds(lines[j], k),
    decreases lines.len() - i,
{
    assert(line_ok_at(text, cols, width, lines, i));
    if k <= lines[i].end {
        assert(holds(lines[i], k));
    } else {
        assert(i != lines.len() - 1);
        assert(lines[i + 1].start == lines[i].end + if lines[i].hard_break { 1nat } else { 0nat });
        lemma_some_line_holds(text, cols, width, lines, k, i + 1);
    }
}

/// Every cursor position of the text has a row, and its column there is narrower than
/// `width` (or zero).
pub proof fn lemma_cursor_in_row(text: Seq<char>, cols: Seq<usize>, width: nat, k: nat)
    requires
        cols.len() == text.len(),
        k <= text.len(),
    ensures
        row_of(wrap_with(text, cols, width), k) < wrap_with(text, cols, width).len(),
        holds(wrap_with(text, cols, width)[row_of(wrap_with(text, cols, width), k) as int], k),
        col_of(cols, wrap_with(text, cols, width), k) < width || col_of(cols, wrap_with(text, cols, width), k) == 0,
{
    let lines = wrap_with(text, cols, width);
    lemma_wrap_shape(text, cols, width);
    lemma_some_line_holds(text, cols, width, lines, k, 0);
    let j = choose|j: int| 0 <= j < lines.len() && #[trigger] holds(lines[j], k);
    lemma_row_of(lines, k, j);
    let r = row_of(lines, k) as int;
    let sp = lines[r];
    assert(line_ok_at(text, cols, width, lines, r));
    if sp.start == k {
        assert(cols.subrange(sp.start as int, k as int).len() == 0);
    } else if k < sp.end {
        if sp.hard_break || r == lines.len() - 1 {
            lemma_cols_prefix(cols, sp.start as int, k as int, sp.end as int);
        } else {
            lemma_cols_prefix(cols, sp.start as int, k as int, sp.end - 1);
        }
    } else {
        if !sp.hard_break && r != lines.len() - 1 {
            assert(lines[r + 1].start == sp.end);
            assert(line_ok_at(text, cols, width, lines, r + 1));
            assert(holds(lines[r + 1], k));
        }
    }
}

/// The visual lines of a text at a width, with the cursor's row and display column.
pub struct Layout {
    pub lines: Vec<VisualLine>,
    pub cursor_row: usize,
    pub cursor_col: usize,
}

impl Layout {
    /// This is the layout of `text`, whose characters are `cols` columns wide, at `width`,
    /// with the cursor at character index `k`.
    pub open spec fn is_layout_with(self, text: Seq<char>, cols: Seq<usize>, width: nat, k: nat) -> bool {
        &&& spans_of(self.lines@) == wrap_with(text, cols, width)
        &&& forall|i: int| 0 <= i < self.lines@.len() ==> #[trigger] self.lines@[i].agrees_with(text)
        &&& self.cursor_row == row_of(wrap_with(text, cols, width), k)
        &&& self.cursor_col == col_of(cols, wrap_with(text, cols, width), k)
    }

    /// This is the layout of `text` at `width`, with the cursor at character index `k`.
    pub open spec fn is_layout_of(self, text: Seq<char>, width: nat, k: nat) -> bool {
        self.is_layout_with(text, char_cols(text), width, k)
    }
}

/// Row and display column of the character index `k`, over `lines`, the visual lines of
/// `text` (characters `cols` columns wide) at `width`.
pub fn locate_cursor(text: &[char], cols: &[usize], width: usize, lines: &[VisualLine], k: usize) -> (r: (usize, usize))
    requires
        cols@.len() == text@.len(),
        spans_of(lines@) == wrap_with(text@, cols@, width as nat),
        k <= text@.len(),
    ensures
        r.0 == row_of(wrap_with(text@, cols@, width as nat), k as nat),
        r.1 == col_of(cols@, wrap_with(text@, cols@, width as nat), k as nat),
{
    let ghost spans = wrap_with(text@, cols@, width as nat);
    let mut row: usize = 0;
    let mut i: usize = 0;
    while i < lines.len()
        invariant
            i <= lines@.len(),
            spans == spans_of(lines@),
            row == row_of(spans.take(i as int), k as nat),
        decreases lines@.len() - i,
    {
        let line = lines[i];
        proof {
            assert(spans.take(i + 1).drop_last() =~= spans.take(i as int));
            assert(spans.take(i + 1).last() == line.span());
        }
        if line.char_start <= k && k <= line.char_end {
            row = i;
        }
        i = i + 1;
    }
    proof {
        assert(spans.take(lines@.len() as int) =~= spans);
        lemma_cursor_in_row(text@, cols@, width as nat, k as nat);
    }
    let start = lines[row].char_start;
    let mut col: usize = 0;
    let mut j: usize = start;
    while j < k
        invariant
            spans == spans_of(lines@),
            cols@.len() == text@.len(),
            row == row_of(spans, k as nat),
            row < lines@.len(),
            start == spans[row as int].start,
            start <= j <= k <= text@.len(),
            col == cols_between(cols@, start as int, j as int),
            col_of(cols@, spans, k as nat) < width || col_of(cols@, spans, k as nat) == 0,
        decreases k - j,
    {
        let w = cols[j];
        proof {
            lemma_cols_step(cols@, start as int, j as int);
            lemma_cols_prefix(cols@, start as int, j + 1, k as int);
        }
        col = col + w;
        j = j + 1;
    }
    (row, col)
}

/// The layout of `text`, whose characters are `cols` columns wide, at `width`, with the
/// cursor at character index `cursor`.
pub fn layout_with(text: &[char], cols: &[usize], width: usize, cursor: usize) -> (r: Layout)
    requires
        utf8_len(text@) <= usize::MAX,
        cols@.len() == text@.len(),
        cursor <= text@.len(),
    ensures
        r.is_layout_with(text@, cols@, width as nat, cursor as nat),
{
    let lines = wrap_lines(text, cols, width);
    let (row, col) = locate_cursor(text, cols, width, lines.as_slice(), cursor);
    Layout { lines, cursor_row: row, cursor_col: col }
}

/// The layout of `text` at `width`, with the cursor at character index `cursor`.
pub fn compute_layout(text: &[char], width: usize, cursor: usize) -> (r: Layout)
    requires
        utf8_len(text@) <= usize::MAX,
        cursor <= text@.len(),
    ensures
        r.is_layout_of(text@, width as nat, cursor as nat),
        ascii_narrow(text@),
{
    let cols = columns_of(text);
    layout_with(text, cols.as_slice(), width, cursor)
}

} // verus!
