//! Laying out a preview made of text and images: where each chunk starts, which images are
//! drawn by the terminal's image protocol, which of those the view shows, and scrolling.

use vstd::prelude::*;

verus! {

broadcast use vstd::seq_lib::group_seq_properties;

/// `a + b`, at most `u16::MAX`.
pub open spec fn sat16(a: int, b: int) -> int {
    if a + b > u16::MAX {
        u16::MAX as int
    } else {
        a + b
    }
}

/// Rows a run of lines of the given display widths takes when wrapped at `width` columns
/// (a width of 0 counts as 1): an empty line takes one row.
pub open spec fn wrapped_rows(widths: Seq<usize>, width: int) -> int
    decreases widths.len(),
{
    if widths.len() == 0 {
        0
    } else {
        let w = widths.last() as int;
        let cols = if width < 1 {
            1
        } else {
            width
        };
        wrapped_rows(widths.drop_last(), width) + if w == 0 {
            1
        } else {
            (w - 1) / cols + 1
        }
    }
}

/// Rows a text takes when wrapped at `width` columns; `line_widths` are the display widths
/// of its lines.
pub fn rendered_text_height(line_widths: &[usize], width: u16) -> (h: usize)
    requires
        wrapped_rows(line_widths@, width as int) <= usize::MAX,
    ensures
        h == wrapped_rows(line_widths@, width as int),
{
    let cols: usize = if width < 1 {
        1
    } else {
        width as usize
    };
    let mut total: usize = 0;
    let mut i: usize = 0;
    proof {
        assert(line_widths@.take(0) =~= Seq::<usize>::empty());
        lemma_rows_prefix(line_widths@, width as int, line_widths@.len() as int);
        assert(line_widths@.take(line_widths@.len() as int) =~= line_widths@);
    }
    while i < line_widths.len()
        invariant
            i <= line_widths@.len(),
            cols as int == (if width < 1 {
                1
            } else {
                width as int
            }),
            total == wrapped_rows(line_widths@.take(i as int), width as int),
            wrapped_rows(line_widths@, width as int) <= usize::MAX,
            forall|k: int|
                0 <= k <= line_widths@.len() ==> #[trigger] wrapped_rows(line_widths@.take(k), width as int)
                    <= wrapped_rows(line_widths@, width as int),
        decreases line_widths@.len() - i,
    {
        let w = line_widths[i];
        let rows: usize = if w == 0 {
            1
        } else {
            proof {
                assert((w - 1) as int / cols as int <= (w - 1) as int) by (nonlinear_arith)
                    requires
                        cols >= 1,
                        w >= 1,
                {
                }
            }
            (w - 1) / cols + 1
        };
        proof {
            assert(line_widths@.take(i + 1).drop_last() =~= line_widths@.take(i as int));
            assert(wrapped_rows(line_widths@.take(i + 1), width as int) <= wrapped_rows(
                line_widths@,
                width as int,
            ));
        }
        total = total + rows;
        i += 1;
    }
    proof {
        assert(line_widths@.take(i as int) =~= line_widths@);
    }
    total
}

/// Wrapped rows never shrink as lines are added.
pub proof fn lemma_rows_prefix(widths: Seq<usize>, width: int, n: int)
    requires
        0 <= n <= widths.len(),
    ensures
        forall|k: int| 0 <= k <= n ==> #[trigger] wrapped_rows(widths.take(k), width) <= wrapped_rows(widths.take(n), width),
        wrapped_rows(widths.take(n), width) >= 0,
    decreases n,
{
    if n > 0 {
        lemma_rows_prefix(widths, width, n - 1);
        assert(widths.take(n).drop_last() =~= widths.take(n - 1));
        let w = widths[n - 1] as int;
        let cols = if width < 1 {
            1
        } else {
            width
        };
        if w > 0 {
            assert((w - 1) / cols >= 0) by (nonlinear_arith)
                requires
                    w >= 1,
                    cols >= 1,
            {
            }
        }
    } else {
        assert(widths.take(0) =~= Seq::<usize>::empty());
    }
    assert(widths.take(widths.len() as int) =~= widths);
}

/// One chunk of a preview, measured for the width it is laid out at, with its lines.
pub enum Chunk<L> {
    /// Text taking `rows` rows.
    Text { rows: usize, lines: Vec<L> },
    /// An image drawn as `lines` in `width`×`height` cells; `native` is the cell area that
    /// the terminal's image protocol gives it, when one is in use.
    Image { native: Option<(u16, u16)>, width: u16, height: u16, lines: Vec<L> },
    /// An image that could not be drawn: one line of error text.
    ImageError { line: L },
}

/// Where the terminal draws an image: its first row within the preview, its first line and
/// line count, and its cell area.
#[derive(Debug, Clone, Copy, PartialEq, Eq, Structural)]
pub struct Placement {
    pub visual_start: u16,
    pub logical_start: usize,
    pub logical_len: usize,
    pub x: u16,
    pub y: u16,
    pub width: u16,
    pub height: u16,
}

/// A laid-out preview: the lines it shows, the images the terminal draws, and the width
/// and viewport height it was laid out for.
pub struct PreviewLayout<L> {
    pub lines: Vec<L>,
    pub placements: Vec<Placement>,
    pub width: u16,
    pub height: u16,
}

/// The lines of a chunk.
pub open spec fn chunk_line_seq<L>(m: Chunk<L>) -> Seq<L> {
    match m {
        Chunk::Text { lines, .. } => lines@,
        Chunk::Image { lines, .. } => lines@,
        Chunk::ImageError { line } => seq![line],
    }
}

/// Lines a chunk adds.
pub open spec fn chunk_lines<L>(m: Chunk<L>) -> int {
    chunk_line_seq(m).len() as int
}

/// Rows a chunk adds.
pub open spec fn chunk_rows<L>(m: Chunk<L>) -> int {
    match m {
        Chunk::Text { rows, .. } => if rows > u16::MAX {
            u16::MAX as int
        } else {
            rows as int
        },
        Chunk::Image { height, .. } => height as int,
        Chunk::ImageError { .. } => 1,
    }
}

/// The lines of the chunks, one chunk after another.
pub open spec fn all_lines<L>(ms: Seq<Chunk<L>>) -> Seq<L>
    decreases ms.len(),
{
    if ms.len() == 0 {
        Seq::empty()
    } else {
        all_lines(ms.drop_last()) + chunk_line_seq(ms.last())
    }
}

/// The lines a preview of the chunks shows: theirs, or one blank line where they have none.
pub open spec fn shown_lines<L>(ms: Seq<Chunk<L>>, blank: L) -> Seq<L> {
    if all_lines(ms).len() == 0 {
        seq![blank]
    } else {
        all_lines(ms)
    }
}

/// Lines of the first chunks.
pub open spec fn lines_before<L>(ms: Seq<Chunk<L>>) -> int {
    all_lines(ms).len() as int
}

/// Row at which the chunk after the first chunks starts, counted with a saturating `u16`.
pub open spec fn rows_before<L>(ms: Seq<Chunk<L>>) -> int
    decreases ms.len(),
{
    if ms.len() == 0 {
        0
    } else {
        sat16(rows_before(ms.drop_last()), chunk_rows(ms.last()))
    }
}

/// The placement of an image chunk at `row` and `line`, when the terminal draws it.
pub open spec fn placement_of<L>(m: Chunk<L>, row: int, line: int) -> Option<Placement> {
    match m {
        Chunk::Image { native: Some((nw, nh)), width, height, lines } => if nw > 0 && nh > 0 {
            Some(
                Placement {
                    visual_start: row as u16,
                    logical_start: line as usize,
                    logical_len: lines@.len() as usize,
                    x: 0,
                    y: row as u16,
                    width: if nw < (if width < 1 {
                        1u16
                    } else {
                        width
                    }) {
                        nw
                    } else if width < 1 {
                        1u16
                    } else {
                        width
                    },
                    height: if height < 1 {
                        1u16
                    } else {
                        height
                    },
                },
            )
        } else {
            None
        },
        _ => None,
    }
}

/// The placements of the chunks, in order.
pub open spec fn placements_of<L>(ms: Seq<Chunk<L>>) -> Seq<Placement>
    decreases ms.len(),
{
    if ms.len() == 0 {
        Seq::empty()
    } else {
        let rest = ms.drop_last();
        match placement_of(ms.last(), rows_before(rest), lines_before(rest)) {
            Some(p) => placements_of(rest).push(p),
            None => placements_of(rest),
        }
    }
}

pub proof fn lemma_rows_before_bound<L>(ms: Seq<Chunk<L>>)
    ensures
        0 <= rows_before(ms) <= u16::MAX,
    decreases ms.len(),
{
    if ms.len() > 0 {
        lemma_rows_before_bound(ms.drop_last());
    }
}

/// A preview of text alone has no image for the terminal to draw, and shows the lines of
/// its chunks one after another, or one blank line where they have none.
pub proof fn law_text_only_preview<L>(ms: Seq<Chunk<L>>, blank: L)
    requires
        forall|i: int| 0 <= i < ms.len() ==> #[trigger] ms[i] is Text,
    ensures
        placements_of(ms) == Seq::<Placement>::empty(),
        shown_lines(ms, blank) == (if all_lines(ms).len() == 0 {
            seq![blank]
        } else {
            all_lines(ms)
        }),
    decreases ms.len(),
{
    if ms.len() > 0 {
        assert(ms.last() is Text);
        law_text_only_preview(ms.drop_last(), blank);
    }
}

/// Lays out the chunks of a preview `width` columns wide in a viewport `viewport_height`
/// rows high: the preview shows the chunks' lines one after another, or one blank line
/// where they have none (see `shown_lines`), and the terminal draws the images that
/// `placements_of` gives.
pub fn layout_chunks<L>(chunks: Vec<Chunk<L>>, blank: L, width: u16, viewport_height: u16) -> (r: PreviewLayout<L>)
    ensures
        r.lines@ == shown_lines(chunks@, blank),
        r.placements@ == placements_of(chunks@),
        r.width == width,
        r.height == viewport_height,
{
    let ghost all = chunks@;
    let mut lines: Vec<L> = Vec::new();
    let mut row: u16 = 0;
    let mut placements: Vec<Placement> = Vec::new();
    let ghost mut done: int = 0;
    proof {
        assert(all.take(0) =~= Seq::<Chunk<L>>::empty());
    }
    for chunk in it: chunks
        invariant
            all == it.seq(),
            done == it.index(),
            0 <= done <= all.len(),
            lines@ == all_lines(all.take(done)),
            row as int == rows_before(all.take(done)),
            placements@ == placements_of(all.take(done)),
    {
        proof {
            assert(all.take(done + 1).drop_last() =~= all.take(done));
            assert(all.take(done + 1).last() == chunk);
        }
        let start = lines.len();
        match chunk {
            Chunk::Text { rows, lines: mut text } => {
                let r16: u16 = if rows > 65535 {
                    65535
                } else {
                    rows as u16
                };
                row = row.saturating_add(r16);
                lines.append(&mut text);
            },
            Chunk::ImageError { line } => {
                row = row.saturating_add(1);
                lines.push(line);
            },
            Chunk::Image { native, width, height, lines: mut image } => {
                match native {
                    Some((nw, nh)) => {
                        if nw > 0 && nh > 0 {
                            let w1: u16 = if width < 1 {
                                1
                            } else {
                                width
                            };
                            let h1: u16 = if height < 1 {
                                1
                            } else {
                                height
                            };
                            placements.push(
                                Placement {
                                    visual_start: row,
                                    logical_start: start,
                                    logical_len: image.len(),
                                    x: 0,
                                    y: row,
                                    width: if nw < w1 {
                                        nw
                                    } else {
                                        w1
                                    },
                                    height: h1,
                                },
                            );
                        }
                    },
                    None => {},
                }
                row = row.saturating_add(height);
                lines.append(&mut image);
            },
        }
        proof {
            done = done + 1;
        }
    }
    proof {
        assert(all.take(done) =~= all);
    }
    if lines.len() == 0 {
        lines.push(blank);
    }
    PreviewLayout { lines, placements, width, height: viewport_height }
}

/// The size an image is rendered at: the cell area the image protocol gives it (at least
/// one cell each way) when there is one, else the preview's width and the image's own
/// height limit.
pub fn fallback_size(native: Option<(u16, u16)>, width: u16, max_height: Option<u16>) -> (r: (u16, Option<u16>))
    ensures
        native matches Some((w, h)) ==> r == ((if w < 1 {
            1u16
        } else {
            w
        }), Some(if h < 1 {
            1u16
        } else {
            h
        })),
        native is None ==> r == (width, max_height),
{
    match native {
        Some((w, h)) => (if w < 1 {
            1
        } else {
            w
        }, Some(if h < 1 {
            1
        } else {
            h
        })),
        None => (width, max_height),
    }
}

/// The bounds an image preview is rendered within: its own width limit within the width
/// available, and the smaller of its own height limit and the view's, where given.
pub fn image_bounds(
    max_width: Option<u16>,
    max_height: Option<u16>,
    available_width: u16,
    height_limit: Option<u16>,
) -> (r: (u16, Option<u16>))
    ensures
        r.0 == match max_width {
            Some(m) => if m < available_width {
                m
            } else {
                available_width
            },
            None => available_width,
        },
        r.1 == match (max_height, height_limit) {
            (Some(a), Some(b)) => Some(if a < b {
                a
            } else {
                b
            }),
            (Some(a), None) => Some(a),
            (None, Some(b)) => Some(b),
            (None, None) => None,
        },
{
    let width = match max_width {
        Some(m) => if m < available_width {
            m
        } else {
            available_width
        },
        None => available_width,
    };
    let height = match (max_height, height_limit) {
        (Some(a), Some(b)) => Some(if a < b {
            a
        } else {
            b
        }),
        (Some(a), None) => Some(a),
        (None, Some(b)) => Some(b),
        (None, None) => None,
    };
    (width, height)
}

/// `offset` kept within the rows that can be scrolled: at most the content's height (as a
/// `u16`) less the view's.
pub fn clamp_offset(offset: u16, total_height: usize, area_height: u16) -> (r: u16)
    ensures
        r == (if offset as int > (total_height as u16) as int - area_height as int {
            (if (total_height as u16) < area_height {
                0
            } else {
                ((total_height as u16) - area_height) as u16
            })
        } else {
            offset
        }),
{
    let total16 = total_height as u16;
    let max: u16 = if total16 < area_height {
        0
    } else {
        total16 - area_height
    };
    if offset > max {
        max
    } else {
        offset
    }
}

/// `offset` moved by `delta` rows, within `0..=u16::MAX`.
pub fn scroll_offset(offset: u16, delta: i16) -> (r: u16)
    ensures
        r as int == (if offset + delta < 0 {
            0
        } else if offset + delta > u16::MAX {
            u16::MAX as int
        } else {
            offset + delta
        }),
{
    if delta >= 0 {
        offset.saturating_add(delta as u16)
    } else {
        let back: u16 = (-(delta as i32)) as u16;
        offset.saturating_sub(back)
    }
}

/// The placements wholly inside the view that starts at row `offset` and shows `view_height`
/// rows, moved to the view's area and cut to its size.
pub open spec fn visible_of(placements: Seq<Placement>, offset: u16, x: u16, y: u16, w: u16, h: u16) -> Seq<Placement>
    decreases placements.len(),
{
    if placements.len() == 0 {
        Seq::empty()
    } else {
        let rest = visible_of(placements.drop_last(), offset, x, y, w, h);
        let p = placements.last();
        let end = sat16(p.y as int, p.height as int);
        let view_end = sat16(offset as int, h as int);
        if p.y < offset || end > view_end {
            rest
        } else {
            rest.push(
                Placement {
                    x,
                    y: (y + p.y - offset) as u16,
                    width: if p.width < w {
                        p.width
                    } else {
                        w
                    },
                    height: if p.height < h {
                        p.height
                    } else {
                        h
                    },
                    ..p
                },
            )
        }
    }
}

/// The images of `placements` that the view at `x, y` of `w`×`h` cells, scrolled to row
/// `offset`, shows whole (see `visible_of`).
pub fn visible_placements(placements: &Vec<Placement>, offset: u16, x: u16, y: u16, w: u16, h: u16) -> (r: Vec<Placement>)
    requires
        y + h <= u16::MAX,
    ensures
        r@ == visible_of(placements@, offset, x, y, w, h),
{
    let mut out: Vec<Placement> = Vec::new();
    let mut i: usize = 0;
    let view_end = offset.saturating_add(h);
    proof {
        assert(placements@.take(0) =~= Seq::<Placement>::empty());
    }
    while i < placements.len()
        invariant
            i <= placements@.len(),
            y + h <= u16::MAX,
            view_end as int == sat16(offset as int, h as int),
            out@ == visible_of(placements@.take(i as int), offset, x, y, w, h),
        decreases placements@.len() - i,
    {
        let p = placements[i];
        proof {
            assert(placements@.take(i + 1).drop_last() =~= placements@.take(i as int));
        }
        let end = p.y.saturating_add(p.height);
        if !(p.y < offset || end > view_end) {
            let top: u16 = y + (p.y - offset);
            out.push(
                Placement {
                    visual_start: p.visual_start,
                    logical_start: p.logical_start,
                    logical_len: p.logical_len,
                    x,
                    y: top,
                    width: if p.width < w {
                        p.width
                    } else {
                        w
                    },
                    height: if p.height < h {
                        p.height
                    } else {
                        h
                    },
                },
            );
        }
        i += 1;
    }
    proof {
        assert(placements@.take(i as int) =~= placements@);
    }
    out
}

} // verus!
