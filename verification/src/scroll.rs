use vstd::prelude::*;

verus! {

/// Number of entries shown at once.
pub const MAX_VISIBLE: usize = 15;

/// The scroll offset that `adjust_scroll` leaves for a list of `total` entries
/// with `selected` chosen and the window starting at `offset`.
pub open spec fn scrolled_offset(total: int, selected: int, offset: int) -> int {
    if total <= MAX_VISIBLE {
        0
    } else if selected < offset {
        selected
    } else if selected >= offset + MAX_VISIBLE {
        selected - MAX_VISIBLE + 1
    } else {
        offset
    }
}

/// Moves the window start so that the selection is visible: no scrolling when
/// everything fits, otherwise the smallest move that brings `selected` into
/// the window.
pub fn adjust_scroll(total: usize, selected: usize, offset: &mut usize)
    requires
        total > MAX_VISIBLE && selected >= *old(offset) ==> *old(offset) + MAX_VISIBLE
            <= usize::MAX,
    ensures
        *final(offset) == scrolled_offset(total as int, selected as int, *old(offset) as int),
{
    if total <= MAX_VISIBLE {
        *offset = 0;
    } else if selected < *offset {
        *offset = selected;
    } else if selected >= *offset + MAX_VISIBLE {
        *offset = selected - MAX_VISIBLE + 1;
    }
}

/// Once the list is longer than the window, scrolling puts the selection
/// inside the window: `offset <= selected < offset + MAX_VISIBLE`.
pub proof fn lemma_selection_in_window(total: int, selected: int, offset: int)
    requires
        total > MAX_VISIBLE,
        0 <= selected,
        0 <= offset,
    ensures
        scrolled_offset(total, selected, offset) <= selected < scrolled_offset(
            total,
            selected,
            offset,
        ) + MAX_VISIBLE,
        0 <= scrolled_offset(total, selected, offset),
{
}

/// Scrolling is idempotent: adjusting an already adjusted offset changes nothing.
pub proof fn lemma_scroll_idempotent(total: int, selected: int, offset: int)
    requires
        0 <= selected,
        0 <= offset,
    ensures
        scrolled_offset(total, selected, scrolled_offset(total, selected, offset))
            == scrolled_offset(total, selected, offset),
{
}

/// Scrolling makes the smallest move that shows the selection: once the list
/// is longer than the window, the new window start `o` has the selection
/// inside the window (`o <= selected < o + MAX_VISIBLE`), and no other start
/// with the selection inside lies closer to the old start. A selection below
/// the window thus lands on its bottom row, and the window stays full.
pub proof fn lemma_scroll_moves_least(total: int, selected: int, offset: int, other: int)
    requires
        total > MAX_VISIBLE,
        0 <= selected < total,
        0 <= offset,
        other <= selected < other + MAX_VISIBLE,
    ensures
        ({
            let o = scrolled_offset(total, selected, offset);
            &&& o <= selected < o + MAX_VISIBLE
            &&& (if o <= offset { offset - o } else { o - offset }) <= (if other <= offset {
                offset - other
            } else {
                other - offset
            })
            &&& selected >= offset + MAX_VISIBLE ==> o + MAX_VISIBLE == selected + 1 && o + MAX_VISIBLE <= total
            &&& selected < offset ==> o == selected
            &&& offset <= selected < offset + MAX_VISIBLE ==> o == offset
        }),
{
}

/// A list that fits in the window is never scrolled.
pub proof fn lemma_short_list_unscrolled(total: int, selected: int, offset: int)
    requires
        total <= MAX_VISIBLE,
    ensures
        scrolled_offset(total, selected, offset) == 0,
{
}

} // verus!
