//! Where the screen's floating parts go: notifications stacked upward from the bottom-right
//! corner, and dialogs centred.

use vstd::prelude::*;

verus! {

broadcast use vstd::seq_lib::group_seq_properties;

/// A rectangle of cells.
#[derive(Debug, Clone, Copy, PartialEq, Eq, Structural)]
pub struct CellRect {
    pub x: u16,
    pub y: u16,
    pub width: u16,
    pub height: u16,
}

/// The size of a notification's message: its number of lines and its widest line.
#[derive(Debug, Clone, Copy, PartialEq, Eq, Structural)]
pub struct MessageSize {
    pub lines: usize,
    pub width: u16,
}

pub open spec fn min16(a: int, b: int) -> int {
    if a < b {
        a
    } else {
        b
    }
}

pub open spec fn max16(a: int, b: int) -> int {
    if a > b {
        a
    } else {
        b
    }
}

/// `a - b`, at least 0.
pub open spec fn sub0(a: int, b: int) -> int {
    if a > b {
        a - b
    } else {
        0
    }
}

/// The box of a notification: two columns of border around its widest line, at least 20
/// wide, and two rows of border around its lines (at least one), both cut to the screen.
pub open spec fn box_size(m: MessageSize, area_w: int, area_h: int) -> (int, int) {
    let lines16 = (if m.lines < 1 {
        1usize
    } else {
        m.lines
    }) as u16 as int;
    (min16(max16(m.width + 2, 20), area_w), min16(max16(lines16, 1) + 2, area_h))
}

/// The boxes of the notifications, newest first, stacked upward from one row above the
/// bottom with one row between them, two columns from the right edge; stacking stops at the
/// first that does not fit.
pub open spec fn stack_from(ms: Seq<MessageSize>, area_w: int, area_h: int, bottom: int) -> Seq<CellRect>
    decreases ms.len(),
{
    if ms.len() == 0 {
        Seq::empty()
    } else {
        let (w, h) = box_size(ms.last(), area_w, area_h);
        if h > bottom {
            Seq::empty()
        } else {
            let y = bottom - h;
            let r = CellRect { x: sub0(area_w, w + 2) as u16, y: y as u16, width: w as u16, height: h as u16 };
            if y < 1 {
                seq![r]
            } else {
                seq![r] + stack_from(ms.drop_last(), area_w, area_h, y - 1)
            }
        }
    }
}

/// The row count of a message fits a box (its border included) in a `u16`.
pub open spec fn rows_fit(m: MessageSize) -> bool {
    ((if m.lines < 1 {
        1usize
    } else {
        m.lines
    }) as u16) <= u16::MAX - 2
}

/// Where the notifications go on a `width`×`height` screen; `messages` are oldest first and
/// the boxes come newest first.
pub fn notification_boxes(messages: &[MessageSize], width: u16, height: u16) -> (r: Vec<CellRect>)
    requires
        width <= u16::MAX - 2,
        forall|i: int| 0 <= i < messages@.len() ==> #[trigger] messages@[i].width <= u16::MAX - 2,
        forall|i: int| 0 <= i < messages@.len() ==> #[trigger] rows_fit(messages@[i]),
    ensures
        r@ == stack_from(messages@, width as int, height as int, sub0(height as int, 1)),
{
    let mut out: Vec<CellRect> = Vec::new();
    let mut bottom: u16 = height.saturating_sub(1);
    let mut i: usize = messages.len();
    let ghost target = stack_from(messages@, width as int, height as int, sub0(height as int, 1));
    assert(messages@.take(i as int) =~= messages@);
    while i > 0
        invariant
            i <= messages@.len(),
            width <= u16::MAX - 2,
            forall|k: int| 0 <= k < messages@.len() ==> #[trigger] messages@[k].width <= u16::MAX - 2,
            forall|k: int| 0 <= k < messages@.len() ==> #[trigger] rows_fit(messages@[k]),
            target == out@ + stack_from(messages@.take(i as int), width as int, height as int, bottom as int),
            target == stack_from(messages@, width as int, height as int, sub0(height as int, 1)),
        decreases i,
    {
        let m = messages[i - 1];
        let ghost rest = messages@.take(i as int);
        proof {
            assert(rest.last() == m);
            assert(rows_fit(messages@[i - 1]));
            assert(rest.drop_last() =~= messages@.take(i - 1));
        }
        let lines: usize = if m.lines < 1 {
            1
        } else {
            m.lines
        };
        let lines16 = #[verifier::truncate] (lines as u16);
        let w0: u16 = m.width + 2;
        let w1: u16 = if w0 < 20 {
            20
        } else {
            w0
        };
        let w: u16 = if w1 < width {
            w1
        } else {
            width
        };
        let h0: u16 = if lines16 < 1 {
            1
        } else {
            lines16
        };
        let h1: u16 = h0 + 2;
        let h: u16 = if h1 < height {
            h1
        } else {
            height
        };
        assert(box_size(m, width as int, height as int) == (w as int, h as int));
        if h > bottom {
            proof {
                assert(out@ + Seq::<CellRect>::empty() =~= out@);
            }
            return out;
        }
        let y = bottom - h;
        let rect = CellRect { x: width.saturating_sub(w + 2), y, width: w, height: h };
        out.push(rect);
        if y < 1 {
            proof {
                assert(target =~= out@);
            }
            return out;
        }
        proof {
            assert(target =~= out@ + stack_from(messages@.take(i - 1), width as int, height as int, y - 1));
        }
        bottom = y - 1;
        i -= 1;
    }
    proof {
        assert(messages@.take(0) =~= Seq::<MessageSize>::empty());
        assert(target =~= out@);
    }
    out
}

/// A `w`×`h` box centred on a `width`×`height` screen (towards the top left when the sizes
/// differ by an odd number).
pub open spec fn centred(width: int, height: int, w: int, h: int) -> CellRect {
    CellRect { x: (sub0(width, w) / 2) as u16, y: (sub0(height, h) / 2) as u16, width: w as u16, height: h as u16 }
}

/// The confirm dialog's box: 40×10, centred.
pub fn confirm_box(width: u16, height: u16) -> (r: CellRect)
    ensures
        r == centred(width as int, height as int, 40, 10),
{
    CellRect { x: width.saturating_sub(40) / 2, y: height.saturating_sub(10) / 2, width: 40, height: 10 }
}

/// The input dialog's box: 50×3, centred.
pub fn input_box(width: u16, height: u16) -> (r: CellRect)
    ensures
        r == centred(width as int, height as int, 50, 3),
{
    CellRect { x: width.saturating_sub(50) / 2, y: height.saturating_sub(3) / 2, width: 50, height: 3 }
}

/// The select dialog's box: the screen's width within 40..=80 and its height within 10..=20,
/// centred.
pub fn select_box(width: u16, height: u16) -> (r: CellRect)
    ensures
        r == centred(
            width as int,
            height as int,
            max16(min16(80, width as int), 40),
            max16(min16(20, height as int), 10),
        ),
{
    let w0: u16 = if width < 80 {
        width
    } else {
        80
    };
    let w: u16 = if w0 < 40 {
        40
    } else {
        w0
    };
    let h0: u16 = if height < 20 {
        height
    } else {
        20
    };
    let h: u16 = if h0 < 10 {
        10
    } else {
        h0
    };
    CellRect { x: width.saturating_sub(w) / 2, y: height.saturating_sub(h) / 2, width: w, height: h }
}

} // verus!
