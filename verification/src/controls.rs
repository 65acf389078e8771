//! The arithmetic behind the control bar: the page buttons, the progress
//! slider and the highlight of a word.

use vstd::prelude::*;

verus! {

/// The number of pages that the fast buttons move by.
pub const FAST_STEP: usize = 5;

/// The page that the fast-back button goes to: five back, where that is not
/// the first page; the page stays where it is otherwise.
pub fn back_fast(page: usize) -> (next: usize)
    requires
        page >= FAST_STEP,
    ensures
        next == if page - FAST_STEP > 0 {
            page - FAST_STEP
        } else {
            page as int
        },
{
    if page - FAST_STEP > 0 {
        page - FAST_STEP
    } else {
        page
    }
}

/// The page that the back button goes to: one back, but for the first page.
pub fn back_step(page: usize) -> (next: usize)
    ensures
        next == if page > 0 {
            page - 1
        } else {
            page as int
        },
{
    if page > 0 {
        page - 1
    } else {
        page
    }
}

/// The page that the forward button goes to: one on, held at the largest
/// index. The reader clamps it to the last segment.
pub fn forward_step(page: usize) -> (next: usize)
    ensures
        next == if page < usize::MAX {
            page + 1
        } else {
            page as int
        },
{
    if page < usize::MAX {
        page + 1
    } else {
        page
    }
}

/// The page that the fast-forward button goes to: five on, where that stays
/// below the largest index.
pub fn forward_fast(page: usize) -> (next: usize)
    requires
        page + FAST_STEP <= usize::MAX,
    ensures
        next == if page + FAST_STEP < usize::MAX {
            page + FAST_STEP
        } else {
            page as int
        },
{
    if page + FAST_STEP < usize::MAX {
        page + FAST_STEP
    } else {
        page
    }
}

/// The value that the slider shows for a highlight: the index of the word,
/// 0 where no word is highlighted.
pub open spec fn shown(progress: Option<usize>) -> usize {
    match progress {
        Some(i) => i,
        None => 0,
    }
}

/// The value that the slider shows for a highlight.
pub fn slider_value(progress: Option<usize>) -> (value: usize)
    ensures
        value == shown(progress),
{
    match progress {
        Some(i) => i,
        None => 0,
    }
}

/// The highlight to set when the slider is moved to `value`: that word,
/// unless the slider shows it already.
pub fn slider_change(progress: Option<usize>, value: usize) -> (change: Option<usize>)
    ensures
        change == if value == shown(progress) {
            None
        } else {
            Some(value)
        },
{
    if value == slider_value(progress) {
        None
    } else {
        Some(value)
    }
}

/// The least and the largest value of the slider over `length` words; none
/// where there are no words.
pub fn slider_bounds(length: usize) -> (bounds: Option<(usize, usize)>)
    ensures
        bounds == if length == 0 {
            None
        } else {
            Some((0usize, (length - 1) as usize))
        },
{
    if length == 0 {
        None
    } else {
        Some((0, length - 1))
    }
}

/// Whether word `index` of a segment is shown as highlighted: the segment is
/// the current one and the word is the highlighted one.
pub fn is_highlighted(active: bool, highlight: Option<usize>, index: usize) -> (lit: bool)
    ensures
        lit == (active && highlight == Some(index)),
{
    if !active {
        return false;
    }
    match highlight {
        Some(h) => h == index,
        None => false,
    }
}

} // verus!
