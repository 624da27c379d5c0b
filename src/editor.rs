use vstd::prelude::*;
use crate::buffer::{inserted, lemma_remove_then_reinsert, removed, TextBuffer};
use crate::layout::{
    col_of, compute_layout, layout_with, lemma_cursor_in_row, row_of, spans_of, wrap, wrap_with, Layout,
};
use crate::render::{render_rows, row_cells, visible_count, Cell};
use crate::scroll::{adjust_scroll, scrolled};
use crate::text::{byte_at, chars_of, lemma_utf8_len_encode, utf8_char_len, utf8_len};
use crate::width::{ascii_narrow, char_cols, columns_of};

verus! {

/// A cursor movement.
#[derive(Clone, Copy, Debug, PartialEq, Eq, Structural)]
pub enum CursorMove {
    Forward,
    Back,
    Up,
    Down,
    Start,
    End,
}

/// A key as the editor reads it.
#[derive(Clone, Copy, Debug, PartialEq, Eq, Structural)]
pub enum EditKey {
    Char(char),
    Enter,
    Backspace,
    Delete,
    Left,
    Right,
    Up,
    Down,
    Home,
    End,
    Other,
}

/// Character index reached by walking the characters `[i, end)`, whose widths are
/// `cols`, until `need` more columns have been passed, or the range ends.
pub open spec fn walk(cols: Seq<usize>, i: nat, end: nat, need: nat) -> nat
    decreases end - i,
{
    if i >= end || need == 0 {
        i
    } else if cols[i as int] >= need {
        i + 1
    } else {
        walk(cols, i + 1, end, (need - cols[i as int]) as nat)
    }
}

/// Cursor (character index) after an `Up` (`up`) or `Down` move from `k`, over the
/// lines of `text` (characters `cols` columns wide) at `width`: the same display column
/// on the row above or below, or the start or end of the text from the first or last row.
pub open spec fn vertical_after(text: Seq<char>, cols: Seq<usize>, width: nat, k: nat, up: bool) -> nat {
    let lines = wrap_with(text, cols, width);
    let row = row_of(lines, k);
    if up {
        if row == 0 {
            0
        } else {
            walk(cols, lines[row - 1].start, lines[row - 1].end, col_of(cols, lines, k))
        }
    } else {
        if row + 1 >= lines.len() {
            text.len()
        } else {
            walk(cols, lines[row + 1int].start, lines[row + 1int].end, col_of(cols, lines, k))
        }
    }
}

/// Cursor (character index) after the movement `mv` from `k`, at wrap width `width`.
pub open spec fn cursor_after(text: Seq<char>, width: nat, k: nat, mv: CursorMove) -> nat {
    match mv {
        CursorMove::Forward => if k < text.len() { k + 1 } else { k },
        CursorMove::Back => if k > 0 { (k - 1) as nat } else { k },
        CursorMove::Up => vertical_after(text, char_cols(text), width, k, true),
        CursorMove::Down => vertical_after(text, char_cols(text), width, k, false),
        CursorMove::Start => 0,
        CursorMove::End => text.len(),
    }
}

/// Character index reached on the line `[start, end)` at display column `col`.
pub fn walk_line(cols: &[usize], start: usize, end: usize, col: usize) -> (r: usize)
    requires
        start <= end <= cols@.len(),
    ensures
        r == walk(cols@, start as nat, end as nat, col as nat),
        r <= end,
{
    let mut i = start;
    let mut need = col;
    while i < end && need > 0
        invariant
            start <= i <= end <= cols@.len(),
            walk(cols@, i as nat, end as nat, need as nat) == walk(cols@, start as nat, end as nat, col as nat),
        decreases end - i,
    {
        let w = cols[i];
        if w >= need {
            need = 0;
        } else {
            need = need - w;
        }
        i = i + 1;
    }
    i
}

/// Cursor after an `Up` (`up`) or `Down` move from character index `k`, over `text`
/// whose characters are `cols` columns wide, at `width`.
pub fn vertical_move(text: &[char], cols: &[usize], width: usize, k: usize, up: bool) -> (r: usize)
    requires
        utf8_len(text@) <= usize::MAX,
        cols@.len() == text@.len(),
        k <= text@.len(),
    ensures
        r == vertical_after(text@, cols@, width as nat, k as nat, up),
        r <= text@.len(),
{
    let layout = layout_with(text, cols, width, k);
    proof {
        lemma_cursor_in_row(text@, cols@, width as nat, k as nat);
    }
    let row = layout.cursor_row;
    let n = layout.lines.len();
    if up {
        if row == 0 {
            0
        } else {
            let line = layout.lines[row - 1];
            assert(line.agrees_with(text@));
            assert(spans_of(layout.lines@)[row - 1] == line.span());
            walk_line(cols, line.char_start, line.char_end, layout.cursor_col)
        }
    } else {
        if row + 1 >= n {
            text.len()
        } else {
            let line = layout.lines[row + 1];
            assert(line.agrees_with(text@));
            assert(spans_of(layout.lines@)[row + 1] == line.span());
            walk_line(cols, line.char_start, line.char_end, layout.cursor_col)
        }
    }
}

/// Selection anchor after a move from `k` to `new_k`: an extending move keeps the anchor,
/// or sets it at `k`; any other move drops it; an empty selection is dropped.
pub open spec fn anchor_after(anchor: Option<nat>, k: nat, new_k: nat, extend: bool) -> Option<nat> {
    let a = if extend {
        if anchor is Some {
            anchor
        } else {
            Some(k)
        }
    } else {
        None
    };
    if a == Some(new_k) {
        None
    } else {
        a
    }
}

/// Start of the selection (the cursor itself where there is none).
pub open spec fn sel_lo(k: nat, anchor: Option<nat>) -> nat {
    match anchor {
        Some(a) => if a < k { a } else { k },
        None => k,
    }
}

/// End of the selection (the cursor itself where there is none).
pub open spec fn sel_hi(k: nat, anchor: Option<nat>) -> nat {
    match anchor {
        Some(a) => if a < k { k } else { a },
        None => k,
    }
}

/// The text after typing `s` with the cursor at `k`: the selection, if any, is replaced.
pub open spec fn typed(text: Seq<char>, k: nat, anchor: Option<nat>, s: Seq<char>) -> Seq<char> {
    inserted(removed(text, sel_lo(k, anchor) as int, sel_hi(k, anchor) as int), sel_lo(k, anchor) as int, s)
}

/// An optional index, as a mathematical integer.
pub open spec fn opt_nat(a: Option<usize>) -> Option<nat> {
    match a {
        Some(x) => Some(x as nat),
        None => None,
    }
}

/// One editing session: the text, the cursor and the selection anchor (character
/// indices), the viewport size and the first visible row.
pub struct TextEditor {
    buffer: TextBuffer,
    cursor: usize,
    anchor: Option<usize>,
    width: usize,
    height: usize,
    scroll: usize,
}

impl TextEditor {
    /// The text, as characters.
    pub closed spec fn text(&self) -> Seq<char> {
        self.buffer@
    }

    /// The cursor, as a character index.
    pub closed spec fn cursor_pos(&self) -> nat {
        self.cursor as nat
    }

    /// The selection anchor, as a character index.
    pub closed spec fn anchor_pos(&self) -> Option<nat> {
        opt_nat(self.anchor)
    }

    /// The viewport width, in columns.
    pub closed spec fn view_width(&self) -> nat {
        self.width as nat
    }

    /// The viewport height, in rows.
    pub closed spec fn view_height(&self) -> nat {
        self.height as nat
    }

    /// The first visible row.
    pub closed spec fn scroll_row(&self) -> nat {
        self.scroll as nat
    }

    /// Cursor and anchor stand within the text, the anchor never on the cursor, and the
    /// text's UTF-8 length fits in `usize`.
    pub closed spec fn wf(&self) -> bool {
        &&& self.buffer.wf()
        &&& self.cursor <= self.buffer@.len()
        &&& self.anchor matches Some(a) ==> a <= self.buffer@.len() && a != self.cursor
    }

    /// Viewport size and scroll are those of `o`.
    pub open spec fn same_view(self, o: TextEditor) -> bool {
        &&& self.view_width() == o.view_width()
        &&& self.view_height() == o.view_height()
        &&& self.scroll_row() == o.scroll_row()
    }

    /// This is `o` after the move `mv` (`extend`: with shift held).
    pub open spec fn is_moved(self, o: TextEditor, mv: CursorMove, extend: bool) -> bool {
        &&& self.text() == o.text()
        &&& self.cursor_pos() == cursor_after(o.text(), o.view_width(), o.cursor_pos(), mv)
        &&& self.anchor_pos() == anchor_after(o.anchor_pos(), o.cursor_pos(), self.cursor_pos(), extend)
        &&& self.same_view(o)
    }

    /// This is `o` after typing `s`: the selection, if any, replaced, the cursor after `s`.
    pub open spec fn is_typed(self, o: TextEditor, s: Seq<char>) -> bool {
        &&& self.text() == typed(o.text(), o.cursor_pos(), o.anchor_pos(), s)
        &&& self.cursor_pos() == sel_lo(o.cursor_pos(), o.anchor_pos()) + s.len()
        &&& self.anchor_pos() is None
        &&& self.same_view(o)
    }

    /// This is `o` after typing `s`, or `o` itself where the text would grow past
    /// `usize::MAX` bytes.
    pub open spec fn is_after_typing(self, o: TextEditor, s: Seq<char>) -> bool {
        if utf8_len(o.text()) + utf8_len(s) <= usize::MAX {
            self.is_typed(o, s)
        } else {
            self == o
        }
    }

    /// This is `o` with its selection deleted, the cursor at the selection's start.
    pub open spec fn is_selection_deleted(self, o: TextEditor) -> bool {
        &&& self.text() == removed(
            o.text(),
            sel_lo(o.cursor_pos(), o.anchor_pos()) as int,
            sel_hi(o.cursor_pos(), o.anchor_pos()) as int,
        )
        &&& self.cursor_pos() == sel_lo(o.cursor_pos(), o.anchor_pos())
    }

    /// This is `o` after a backspace.
    pub open spec fn is_deleted_back(self, o: TextEditor) -> bool {
        &&& self.anchor_pos() is None
        &&& self.same_view(o)
        &&& if o.anchor_pos() is Some {
            self.is_selection_deleted(o)
        } else if o.cursor_pos() > 0 {
            &&& self.text() == removed(o.text(), o.cursor_pos() - 1, o.cursor_pos() as int)
            &&& self.cursor_pos() == o.cursor_pos() - 1
        } else {
            self.text() == o.text() && self.cursor_pos() == o.cursor_pos()
        }
    }

    /// This is `o` after a forward delete.
    pub open spec fn is_deleted_forward(self, o: TextEditor) -> bool {
        &&& self.anchor_pos() is None
        &&& self.same_view(o)
        &&& if o.anchor_pos() is Some {
            self.is_selection_deleted(o)
        } else if o.cursor_pos() < o.text().len() {
            &&& self.text() == removed(o.text(), o.cursor_pos() as int, o.cursor_pos() + 1int)
            &&& self.cursor_pos() == o.cursor_pos()
        } else {
            self.text() == o.text() && self.cursor_pos() == o.cursor_pos()
        }
    }

    /// This is `o` with the whole text selected, the cursor at its end.
    pub open spec fn is_all_selected(self, o: TextEditor) -> bool {
        &&& self.text() == o.text()
        &&& self.cursor_pos() == o.text().len()
        &&& self.anchor_pos() == if o.text().len() > 0 { Some(0nat) } else { None }
        &&& self.same_view(o)
    }

    /// What well-formedness tells a caller.
    pub proof fn lemma_wf(&self)
        requires
            self.wf(),
        ensures
            utf8_len(self.text()) <= usize::MAX,
            self.cursor_pos() <= self.text().len(),
            self.anchor_pos() matches Some(a) ==> a <= self.text().len() && a != self.cursor_pos(),
    {
    }

    /// An empty session.
    pub fn new() -> (r: TextEditor)
        ensures
            r.wf(),
            r.text() == Seq::<char>::empty(),
            r.cursor_pos() == 0,
            r.anchor_pos() is None,
            r.view_width() == 0,
            r.view_height() == 0,
            r.scroll_row() == 0,
    {
        TextEditor { buffer: TextBuffer::new(), cursor: 0, anchor: None, width: 0, height: 0, scroll: 0 }
    }

    /// The text, for saving.
    pub fn contents(&self) -> (r: String)
        ensures
            r@ == self.text(),
    {
        self.buffer.contents()
    }

    /// Length of the text in bytes.
    pub fn len(&self) -> (r: usize)
        requires
            self.wf(),
        ensures
            r == utf8_len(self.text()),
    {
        self.buffer.len()
    }

    /// The cursor, as a byte offset.
    pub fn cursor(&self) -> (r: usize)
        requires
            self.wf(),
        ensures
            r == byte_at(self.text(), self.cursor_pos() as int),
    {
        self.buffer.byte_offset(self.cursor)
    }

    /// The first visible row.
    pub fn scroll_offset(&self) -> (r: usize)
        ensures
            r == self.scroll_row(),
    {
        self.scroll
    }

    /// The selected byte range `[start, end)`, if there is a selection.
    pub fn selection(&self) -> (r: Option<(usize, usize)>)
        requires
            self.wf(),
        ensures
            self.anchor_pos() is None ==> r is None,
            self.anchor_pos() is Some ==> r == Some((
                byte_at(self.text(), sel_lo(self.cursor_pos(), self.anchor_pos()) as int) as usize,
                byte_at(self.text(), sel_hi(self.cursor_pos(), self.anchor_pos()) as int) as usize,
            )),
    {
        match self.anchor {
            None => None,
            Some(a) => {
                let (lo, hi) = if a < self.cursor { (a, self.cursor) } else { (self.cursor, a) };
                Some((self.buffer.byte_offset(lo), self.buffer.byte_offset(hi)))
            },
        }
    }

    /// Replaces the text with `text`, the cursor at its start, no selection, scrolled to
    /// the top.
    pub fn load(&mut self, text: &str)
        ensures
            final(self).wf(),
            final(self).text() == text@,
            final(self).cursor_pos() == 0,
            final(self).anchor_pos() is None,
            final(self).scroll_row() == 0,
            final(self).view_width() == old(self).view_width(),
            final(self).view_height() == old(self).view_height(),
    {
        self.buffer = TextBuffer::from_text(text);
        self.cursor = 0;
        self.anchor = None;
        self.scroll = 0;
    }

    /// Empties the session.
    pub fn clear(&mut self)
        ensures
            final(self).wf(),
            final(self).text() == Seq::<char>::empty(),
            final(self).cursor_pos() == 0,
            final(self).anchor_pos() is None,
            final(self).scroll_row() == 0,
            final(self).view_width() == old(self).view_width(),
            final(self).view_height() == old(self).view_height(),
    {
        self.buffer.clear();
        self.cursor = 0;
        self.anchor = None;
        self.scroll = 0;
    }

    /// Records the viewport size.
    pub fn resize(&mut self, width: usize, height: usize)
        requires
            old(self).wf(),
        ensures
            final(self).wf(),
            final(self).text() == old(self).text(),
            final(self).cursor_pos() == old(self).cursor_pos(),
            final(self).anchor_pos() == old(self).anchor_pos(),
            final(self).scroll_row() == old(self).scroll_row(),
            final(self).view_width() == width,
            final(self).view_height() == height,
    {
        self.width = width;
        self.height = height;
    }

    /// The layout of the text at the viewport width, with the cursor's row and column.
    pub fn layout(&self) -> (r: Layout)
        requires
            self.wf(),
        ensures
            r.is_layout_of(self.text(), self.view_width(), self.cursor_pos()),
            ascii_narrow(self.text()),
    {
        compute_layout(self.buffer.chars(), self.width, self.cursor)
    }

    /// Cursor after an `Up` or `Down` movement.
    fn vertical_target(&self, up: bool) -> (r: usize)
        requires
            self.wf(),
        ensures
            r == cursor_after(
                self.text(),
                self.view_width(),
                self.cursor_pos(),
                if up { CursorMove::Up } else { CursorMove::Down },
            ),
            r <= self.text().len(),
            ascii_narrow(self.text()),
    {
        let text = self.buffer.chars();
        let cols = columns_of(text);
        vertical_move(text, cols.as_slice(), self.width, self.cursor, up)
    }

    /// Moves the cursor; `extend` (shift held) grows the selection, any other move drops it.
    pub fn move_cursor(&mut self, mv: CursorMove, extend: bool)
        requires
            old(self).wf(),
        ensures
            final(self).wf(),
            final(self).is_moved(*old(self), mv, extend),
            (mv is Up || mv is Down) ==> ascii_narrow(old(self).text()),
    {
        let k = self.cursor;
        let len = self.buffer.char_count();
        let target = match mv {
            CursorMove::Forward => if k < len { k + 1 } else { k },
            CursorMove::Back => if k > 0 { k - 1 } else { k },
            CursorMove::Up => self.vertical_target(true),
            CursorMove::Down => self.vertical_target(false),
            CursorMove::Start => 0,
            CursorMove::End => len,
        };
        if extend {
            if self.anchor.is_none() {
                self.anchor = Some(k);
            }
        } else {
            self.anchor = None;
        }
        self.cursor = target;
        if self.anchor == Some(target) {
            self.anchor = None;
        }
    }

    /// Selects the whole text, the cursor at its end.
    pub fn select_all(&mut self)
        requires
            old(self).wf(),
        ensures
            final(self).wf(),
            final(self).is_all_selected(*old(self)),
    {
        let len = self.buffer.char_count();
        self.cursor = len;
        self.anchor = if len > 0 { Some(0) } else { None };
    }

    /// Deletes the selection and puts the cursor at its start.
    fn delete_selection(&mut self)
        requires
            old(self).wf(),
            old(self).anchor_pos() is Some,
        ensures
            final(self).wf(),
            final(self).text() == removed(
                old(self).text(),
                sel_lo(old(self).cursor_pos(), old(self).anchor_pos()) as int,
                sel_hi(old(self).cursor_pos(), old(self).anchor_pos()) as int,
            ),
            utf8_len(final(self).text()) <= utf8_len(old(self).text()),
            final(self).cursor_pos() == sel_lo(old(self).cursor_pos(), old(self).anchor_pos()),
            final(self).anchor_pos() is None,
            final(self).view_width() == old(self).view_width(),
            final(self).view_height() == old(self).view_height(),
            final(self).scroll_row() == old(self).scroll_row(),
    {
        let a = match self.anchor {
            Some(a) => a,
            None => 0,
        };
        let (lo, hi) = if a < self.cursor { (a, self.cursor) } else { (self.cursor, a) };
        self.buffer.remove_chars(lo, hi);
        self.cursor = lo;
        self.anchor = None;
    }

    /// Types the characters `s` at the cursor, replacing the selection if there is one.
    fn type_chars(&mut self, s: &[char])
        requires
            old(self).wf(),
            utf8_len(old(self).text()) + utf8_len(s@) <= usize::MAX,
        ensures
            final(self).wf(),
            final(self).text() == typed(old(self).text(), old(self).cursor_pos(), old(self).anchor_pos(), s@),
            final(self).cursor_pos() == sel_lo(old(self).cursor_pos(), old(self).anchor_pos()) + s@.len(),
            final(self).anchor_pos() is None,
            final(self).view_width() == old(self).view_width(),
            final(self).view_height() == old(self).view_height(),
            final(self).scroll_row() == old(self).scroll_row(),
    {
        let ghost t = self.text();
        let ghost k = self.cursor_pos();
        if self.anchor.is_some() {
            self.delete_selection();
        } else {
            assert(removed(t, k as int, k as int) =~= t);
        }
        proof {
            crate::text::lemma_utf8_len_at_least_len(s@);
        }
        self.buffer.insert_chars_at(self.cursor, s);
        proof {
            crate::text::lemma_utf8_len_at_least_len(self.buffer@);
        }
        self.cursor = self.cursor + s.len();
    }

    /// Types `c` at the cursor, replacing the selection if there is one.
    pub fn push_char(&mut self, c: char)
        requires
            old(self).wf(),
        ensures
            final(self).wf(),
            final(self).is_after_typing(*old(self), seq![c]),
    {
        let one = [c];
        proof {
            assert(one@ =~= seq![c]);
            assert(one@.drop_last() =~= Seq::<char>::empty());
            assert(utf8_len(one@.drop_last()) == 0);
        }
        let n = self.buffer.len();
        if n <= usize::MAX - utf8_char_len(c) {
            self.type_chars(&one);
        }
    }

    /// Types the text `s` at the cursor (a paste), replacing the selection if there is one.
    pub fn push_str(&mut self, s: &str)
        requires
            old(self).wf(),
        ensures
            final(self).wf(),
            final(self).is_after_typing(*old(self), s@),
    {
        let added = s.as_bytes().len();
        proof {
            lemma_utf8_len_encode(s@);
        }
        let n = self.buffer.len();
        if n <= usize::MAX - added {
            let v = chars_of(s);
            self.type_chars(v.as_slice());
        }
    }

    /// Deletes the selection, or else the character before the cursor (nothing at the
    /// start of the text).
    pub fn delete_back(&mut self)
        requires
            old(self).wf(),
        ensures
            final(self).wf(),
            final(self).is_deleted_back(*old(self)),
    {
        if self.anchor.is_some() {
            self.delete_selection();
        } else if self.cursor > 0 {
            self.buffer.remove_chars(self.cursor - 1, self.cursor);
            self.cursor = self.cursor - 1;
        }
    }

    /// Deletes the selection, or else the character after the cursor (nothing at the end
    /// of the text).
    pub fn delete_forward(&mut self)
        requires
            old(self).wf(),
        ensures
            final(self).wf(),
            final(self).is_deleted_forward(*old(self)),
    {
        if self.anchor.is_some() {
            self.delete_selection();
        } else if self.cursor < self.buffer.char_count() {
            self.buffer.remove_chars(self.cursor, self.cursor + 1);
        }
    }

    /// Applies a key: arrows, Home and End move (extending the selection with `shift`),
    /// Enter types a newline, Backspace and Delete delete, ctrl+a selects all, any other
    /// character is typed.
    pub fn input(&mut self, key: EditKey, shift: bool, ctrl: bool)
        requires
            old(self).wf(),
        ensures
            final(self).wf(),
            (match key {
                EditKey::Right => final(self).is_moved(*old(self), CursorMove::Forward, shift),
                EditKey::Left => final(self).is_moved(*old(self), CursorMove::Back, shift),
                EditKey::Up => final(self).is_moved(*old(self), CursorMove::Up, shift),
                EditKey::Down => final(self).is_moved(*old(self), CursorMove::Down, shift),
                EditKey::Home => final(self).is_moved(*old(self), CursorMove::Start, shift),
                EditKey::End => final(self).is_moved(*old(self), CursorMove::End, shift),
                EditKey::Enter => final(self).is_after_typing(*old(self), seq!['\n']),
                EditKey::Backspace => final(self).is_deleted_back(*old(self)),
                EditKey::Delete => final(self).is_deleted_forward(*old(self)),
                EditKey::Char(c) => if c == 'a' && ctrl {
                    final(self).is_all_selected(*old(self))
                } else {
                    final(self).is_after_typing(*old(self), seq![c])
                },
                EditKey::Other => *final(self) == *old(self),
            }),
    {
        match key {
            EditKey::Right => self.move_cursor(CursorMove::Forward, shift),
            EditKey::Left => self.move_cursor(CursorMove::Back, shift),
            EditKey::Up => self.move_cursor(CursorMove::Up, shift),
            EditKey::Down => self.move_cursor(CursorMove::Down, shift),
            EditKey::Home => self.move_cursor(CursorMove::Start, shift),
            EditKey::End => self.move_cursor(CursorMove::End, shift),
            EditKey::Enter => self.push_char('\n'),
            EditKey::Backspace => self.delete_back(),
            EditKey::Delete => self.delete_forward(),
            EditKey::Char(c) => {
                if c == 'a' && ctrl {
                    self.select_all();
                } else {
                    self.push_char(c);
                }
            },
            EditKey::Other => {},
        }
    }

    /// Draws the session into a viewport of `width` by `height` cells: records the size,
    /// scrolls no further than needed to show the cursor's row, and returns the visible
    /// rows, one per visual line.
    pub fn render(&mut self, width: usize, height: usize) -> (r: Vec<Vec<Cell>>)
        requires
            old(self).wf(),
        ensures
            final(self).wf(),
            final(self).text() == old(self).text(),
            final(self).cursor_pos() == old(self).cursor_pos(),
            final(self).anchor_pos() == old(self).anchor_pos(),
            final(self).view_width() == width,
            final(self).view_height() == height,
            ascii_narrow(old(self).text()),
            ({
                let lines = wrap(old(self).text(), width as nat);
                let k = old(self).cursor_pos();
                let row = row_of(lines, k);
                let top = final(self).scroll_row();
                &&& top == scrolled(old(self).scroll_row(), row, height as nat)
                &&& height > 0 ==> top <= row < top + height
                &&& r@.len() == visible_count(lines.len(), top, height as nat)
                &&& forall|j: int| 0 <= j < r@.len() ==> (#[trigger] r@[j])@ == row_cells(
                    old(self).text(),
                    lines[top + j],
                    top + j == lines.len() - 1,
                    k,
                    sel_lo(k, old(self).anchor_pos()),
                    sel_hi(k, old(self).anchor_pos()),
                )
            }),
    {
        self.width = width;
        self.height = height;
        let text = self.buffer.chars();
        let layout = compute_layout(text, width, self.cursor);
        proof {
            lemma_cursor_in_row(text@, char_cols(text@), width as nat, self.cursor as nat);
        }
        self.scroll = adjust_scroll(self.scroll, layout.cursor_row, height);
        let (lo, hi) = match self.anchor {
            Some(a) => if a < self.cursor { (a, self.cursor) } else { (self.cursor, a) },
            None => (self.cursor, self.cursor),
        };
        let text = self.buffer.chars();
        assert forall|i: int| 0 <= i < layout.lines@.len() implies (#[trigger] layout.lines@[i]).char_start
            <= layout.lines@[i].char_end <= text@.len() by {
            assert(layout.lines@[i].agrees_with(text@));
        }
        render_rows(text, layout.lines.as_slice(), self.cursor, lo, hi, self.scroll, height)
    }
}

/// A forward step then a back step return the cursor where it was; at the end of the
/// text the forward step, and at its start the back step, do nothing.
pub proof fn lemma_forward_then_back(text: Seq<char>, width: nat, k: nat)
    requires
        k <= text.len(),
    ensures
        k < text.len() ==> cursor_after(text, width, cursor_after(text, width, k, CursorMove::Forward), CursorMove::Back) == k,
        k == text.len() ==> cursor_after(text, width, k, CursorMove::Forward) == k,
        k == 0 ==> cursor_after(text, width, k, CursorMove::Back) == k,
{
}

/// Deleting a selection and then typing the characters it held gives the text back.
pub proof fn lemma_retype_selection(text: Seq<char>, k: nat, a: nat)
    requires
        k <= text.len(),
        a <= text.len(),
        a != k,
    ensures
        ({
            let lo = sel_lo(k, Some(a));
            let hi = sel_hi(k, Some(a));
            typed(removed(text, lo as int, hi as int), lo, None, text.subrange(lo as int, hi as int)) == text
        }),
{
    let lo = sel_lo(k, Some(a));
    let hi = sel_hi(k, Some(a));
    let r = removed(text, lo as int, hi as int);
    assert(removed(r, lo as int, lo as int) =~= r);
    lemma_remove_then_reinsert(text, lo as int, hi as int);
}

} // verus!
