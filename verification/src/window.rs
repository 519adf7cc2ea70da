//! The visible window of a list that is longer than its place on the
//! screen, and how it follows the item in focus.

use vstd::prelude::*;

verus! {

/// The window `[start, end)` of at most `max` items onto a list of `len`
/// items, `len > 0`, that shows the item `focus`: the window that began at
/// `offset`, moved right or left by the least distance that brings `focus`
/// into it.
pub open spec fn scrolled(len: int, offset: int, focus: int, max: int) -> (int, int) {
    let o = if offset < len {
        offset
    } else {
        len - 1
    };
    let w0 = if max < len - o {
        max
    } else {
        len - o
    };
    let (s1, e1) = if focus >= o + w0 {
        (focus + 1 - max, focus + 1)
    } else {
        (o, o + w0)
    };
    if focus < s1 {
        let w2 = if max < e1 - focus {
            max
        } else {
            e1 - focus
        };
        (focus, focus + w2)
    } else {
        (s1, e1)
    }
}

/// Moves the window that began at `offset` so that it shows `focus`.
pub fn scroll_window(len: usize, offset: usize, focus: usize, max: usize) -> (r: (usize, usize))
    requires
        focus < len,
    ensures
        (r.0 as int, r.1 as int) == scrolled(len as int, offset as int, focus as int, max as int),
        r.0 <= r.1 <= len,
        r.1 - r.0 <= max,
        max > 0 ==> r.0 <= focus < r.1,
{
    let offset: usize = if offset < len {
        offset
    } else {
        len - 1
    };
    let first_width: usize = if max < len - offset {
        max
    } else {
        len - offset
    };
    let mut start: usize = offset;
    let mut width: usize = first_width;
    let mut end: usize = offset + width;
    let ghost moved_right = focus >= offset + first_width;
    while focus >= end
        invariant
            focus < len,
            end <= len,
            end - start == width,
            width <= max,
            moved_right ==> max < len && width == max && offset + first_width <= end <= focus + 1,
            moved_right == (focus >= offset + first_width),
            !moved_right ==> start == offset && width == first_width,
        decreases focus + 1 - end,
    {
        end += 1;
        width += 1;
        if width > max {
            start += 1;
            width -= 1;
        }
    }
    let ghost s1 = start;
    let ghost e1 = end;
    let ghost moved_left = focus < start;
    while focus < start
        invariant
            end <= len,
            end - start == width,
            width <= max,
            moved_left ==> focus <= start <= s1 && width == (if max < e1 - start {
                max as int
            } else {
                e1 - start
            }),
            moved_left == (focus < s1),
            !moved_left ==> start == s1 && end == e1,
        decreases start,
    {
        start -= 1;
        width += 1;
        if width > max {
            end -= 1;
            width -= 1;
        }
    }
    (start, end)
}

} // verus!
