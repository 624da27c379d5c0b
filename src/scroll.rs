use vstd::prelude::*;

verus! {

/// The scroll offset after the least move that shows row `row` in a window of `height`
/// rows that started at row `offset`.
pub open spec fn scrolled(offset: nat, row: nat, height: nat) -> nat {
    if row < offset {
        row
    } else if row >= offset + height {
        (row + 1 - height) as nat
    } else {
        offset
    }
}

/// The offset after each row of `rows` was shown in turn, starting from `offset`.
pub open spec fn scrolled_through(offset: nat, rows: Seq<nat>, height: nat) -> nat
    decreases rows.len(),
{
    if rows.len() == 0 {
        offset
    } else {
        scrolled(scrolled_through(offset, rows.drop_last(), height), rows.last(), height)
    }
}

/// Moves the first visible row `offset` no further than needed for `cursor_row` to be
/// one of the `height` visible rows.
pub fn adjust_scroll(offset: usize, cursor_row: usize, height: usize) -> (r: usize)
    requires
        height > 0 || cursor_row < usize::MAX,
    ensures
        r == scrolled(offset as nat, cursor_row as nat, height as nat),
{
    if cursor_row < offset {
        cursor_row
    } else if cursor_row - offset >= height {
        if height == 0 {
            cursor_row + 1
        } else {
            cursor_row - (height - 1)
        }
    } else {
        offset
    }
}

/// After an adjustment the cursor's row is visible.
pub proof fn lemma_scroll_shows_row(offset: nat, row: nat, height: nat)
    requires
        height > 0,
    ensures
        scrolled(offset, row, height) <= row < scrolled(offset, row, height) + height,
{
}

/// However the cursor moved before, after the adjustment to its last row that row is
/// visible.
pub proof fn lemma_scroll_shows_last_row(offset: nat, rows: Seq<nat>, height: nat)
    requires
        height > 0,
        rows.len() > 0,
    ensures
        scrolled_through(offset, rows, height) <= rows.last() < scrolled_through(offset, rows, height)
            + height,
{
    lemma_scroll_shows_row(scrolled_through(offset, rows.drop_last(), height), rows.last(), height);
}

} // verus!
