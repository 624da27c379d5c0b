use vstd::prelude::*;
use crate::layout::{layout_text, spans_of, wrap, VisualLine};
use crate::text::{chars_of, string_of_range};
use crate::width::ascii_narrow;

verus! {

/// Hands out the visual lines of a text at a width (those of `wrap`), one per call.
pub struct LineParser {
    text: Vec<char>,
    line_width: usize,
    lines: Vec<VisualLine>,
    next_line: usize,
}

impl LineParser {
    /// The text being split.
    pub closed spec fn text(&self) -> Seq<char> {
        self.text@
    }

    /// The width, in columns, the text is wrapped at.
    pub closed spec fn width(&self) -> nat {
        self.line_width as nat
    }

    /// Index, in `wrap(text, width)`, of the next line to hand out.
    pub closed spec fn position(&self) -> nat {
        self.next_line as nat
    }

    /// The parser holds the wrap of its text, and the next line is one of it or its end.
    pub closed spec fn wf(&self) -> bool {
        &&& spans_of(self.lines@) == wrap(self.text@, self.line_width as nat)
        &&& forall|i: int| 0 <= i < self.lines@.len() ==> #[trigger] self.lines@[i].agrees_with(self.text@)
        &&& self.next_line <= self.lines@.len()
    }

    /// What well-formedness tells a caller.
    pub proof fn lemma_wf(&self)
        requires
            self.wf(),
        ensures
            self.position() <= wrap(self.text(), self.width()).len(),
    {
    }

    /// A parser at the first line of `text` wrapped at `line_width` columns.
    pub fn new(text: &str, line_width: usize) -> (r: LineParser)
        ensures
            r.wf(),
            r.text() == text@,
            r.width() == line_width,
            r.position() == 0,
            ascii_narrow(text@),
    {
        let lines = layout_text(text, line_width);
        LineParser { text: chars_of(text), line_width, lines, next_line: 0 }
    }

    /// The characters of the next line (without the newline that ended it), or `None`
    /// once every line was handed out.
    pub fn next(&mut self) -> (r: Option<String>)
        requires
            old(self).wf(),
        ensures
            final(self).wf(),
            final(self).text() == old(self).text(),
            final(self).width() == old(self).width(),
            ({
                let spans = wrap(old(self).text(), old(self).width());
                let k = old(self).position();
                if k < spans.len() {
                    &&& r matches Some(line)
                    &&& line@ == old(self).text().subrange(spans[k as int].start as int, spans[k as int].end as int)
                    &&& final(self).position() == k + 1
                } else {
                    &&& r is None
                    &&& final(self).position() == k
                }
            }),
    {
        if self.next_line >= self.lines.len() {
            return None;
        }
        let line = self.lines[self.next_line];
        assert(line.agrees_with(self.text@));
        assert(spans_of(self.lines@)[self.next_line as int] == line.span());
        let s = string_of_range(self.text.as_slice(), line.char_start, line.char_end);
        self.next_line = self.next_line + 1;
        Some(s)
    }
}

} // verus!
