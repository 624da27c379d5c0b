use vstd::prelude::*;
use unicode_width::UnicodeWidthChar;

verus! {

/// Display width that the Unicode width tables give to `c` (`None` for a control character).
pub uninterp spec fn unicode_width_of(c: char) -> Option<usize>;

/// Relies on `unicode_width::UnicodeWidthChar::width` (0.2): `Some(1)` for printable
/// ASCII, `None` for the C0 and C1 control characters, otherwise a table entry of at
/// most 3 columns.
#[verifier::external_body]
fn unicode_width(c: char) -> (r: Option<usize>)
    ensures
        r == unicode_width_of(c),
        0x20 <= (c as u32) < 0x7f ==> r == Some(1usize),
        (c as u32) < 0x20 || (0x7f <= (c as u32) < 0xa0) ==> r is None,
        r matches Some(w) ==> w <= 3,
{
    UnicodeWidthChar::width(c)
}

/// Columns that `c` takes on screen: its Unicode width, or one cell where it has none.
pub open spec fn col_width(c: char) -> usize {
    match unicode_width_of(c) {
        Some(w) => w,
        None => 1,
    }
}

/// The display width of each character of `text`.
pub open spec fn char_cols(text: Seq<char>) -> Seq<usize> {
    Seq::new(text.len(), |i: int| col_width(text[i]))
}

/// Sum of the widths `cols`.
pub open spec fn sum_cols(cols: Seq<usize>) -> nat
    decreases cols.len(),
{
    if cols.len() == 0 {
        0
    } else {
        sum_cols(cols.drop_last()) + cols.last() as nat
    }
}

/// Every printable ASCII character of `text` takes one column.
pub open spec fn ascii_narrow(text: Seq<char>) -> bool {
    forall|i: int| 0 <= i < text.len() && 0x20 <= (#[trigger] text[i] as u32) < 0x7f ==> col_width(text[i]) == 1
}

/// Columns that `c` takes on screen.
pub fn char_columns(c: char) -> (r: usize)
    ensures
        r == col_width(c),
        r <= 3,
        0x20 <= (c as u32) < 0x7f ==> r == 1,
{
    match unicode_width(c) {
        Some(w) => w,
        None => 1,
    }
}

/// The display width of each character of `text`.
pub fn columns_of(text: &[char]) -> (r: Vec<usize>)
    ensures
        r@ == char_cols(text@),
        ascii_narrow(text@),
{
    let mut out: Vec<usize> = Vec::new();
    let mut i: usize = 0;
    while i < text.len()
        invariant
            i <= text@.len(),
            out@ == char_cols(text@).take(i as int),
            forall|j: int| 0 <= j < i && 0x20 <= (#[trigger] text@[j] as u32) < 0x7f ==> col_width(text@[j]) == 1,
        decreases text@.len() - i,
    {
        out.push(char_columns(text[i]));
        i = i + 1;
        assert(out@ =~= char_cols(text@).take(i as int));
    }
    assert(char_cols(text@).take(text@.len() as int) =~= char_cols(text@));
    out
}

} // verus!
