//! Drawing an image with half-block characters: each terminal cell shows two pixels, one
//! above the other, as the upper half block's foreground and background colours.

use vstd::prelude::*;

verus! {

broadcast use vstd::seq_lib::group_seq_properties;

/// A colour with its channels already blended against black.
#[derive(Debug, Clone, Copy, PartialEq, Eq, Structural)]
pub struct Rgb {
    pub r: u8,
    pub g: u8,
    pub b: u8,
}

/// One cell: blank (both pixels transparent), the upper half (`▀`) in the top pixel's
/// colour, the lower half (`▄`) in the bottom pixel's colour, or the upper half in the top
/// colour over the bottom colour.
#[derive(Debug, Clone, Copy, PartialEq, Eq, Structural)]
pub enum HalfBlock {
    Blank,
    Upper(Rgb),
    Lower(Rgb),
    Both(Rgb, Rgb),
}

/// A pixel: red, green, blue and alpha.
pub type Rgba = (u8, u8, u8, u8);

/// A channel scaled by alpha.
pub open spec fn blend(channel: u8, alpha: u8) -> u8 {
    ((channel as int * alpha as int) / 255) as u8
}

/// The colour a pixel shows: none when fully transparent, else its channels scaled by its
/// alpha.
pub open spec fn pixel_color(p: Rgba) -> Option<Rgb> {
    if p.3 == 0 {
        None
    } else {
        Some(Rgb { r: blend(p.0, p.3), g: blend(p.1, p.3), b: blend(p.2, p.3) })
    }
}

/// The cell for a top and a bottom pixel.
pub open spec fn cell_of(top: Rgba, bottom: Rgba) -> HalfBlock {
    match (pixel_color(top), pixel_color(bottom)) {
        (None, None) => HalfBlock::Blank,
        (Some(fg), None) => HalfBlock::Upper(fg),
        (None, Some(fg)) => HalfBlock::Lower(fg),
        (Some(fg), Some(bg)) => HalfBlock::Both(fg, bg),
    }
}

impl HalfBlock {
    /// The character drawn.
    pub fn symbol(&self) -> (s: &'static str)
        ensures
            s@ == (match *self {
                HalfBlock::Blank => " "@,
                HalfBlock::Lower(_) => "▄"@,
                _ => "▀"@,
            }),
    {
        match self {
            HalfBlock::Blank => " ",
            HalfBlock::Lower(_) => "▄",
            _ => "▀",
        }
    }
}

fn blend_exec(channel: u8, alpha: u8) -> (r: u8)
    ensures
        r == blend(channel, alpha),
{
    assert(channel as int * alpha as int <= 255 * 255) by (nonlinear_arith)
        requires
            channel <= 255,
            alpha <= 255,
    {
    }
    let product: u16 = channel as u16 * alpha as u16;
    assert(product / 255 <= 255);
    (product / 255) as u8
}

/// The colour a pixel shows (see `pixel_color`).
pub fn rgba_to_color(p: Rgba) -> (c: Option<Rgb>)
    ensures
        c == pixel_color(p),
{
    if p.3 == 0 {
        return None;
    }
    Some(Rgb { r: blend_exec(p.0, p.3), g: blend_exec(p.1, p.3), b: blend_exec(p.2, p.3) })
}

/// The cell for a top and a bottom pixel (see `cell_of`).
pub fn pixel_pair(top: Rgba, bottom: Rgba) -> (c: HalfBlock)
    ensures
        c == cell_of(top, bottom),
{
    match (rgba_to_color(top), rgba_to_color(bottom)) {
        (None, None) => HalfBlock::Blank,
        (Some(fg), None) => HalfBlock::Upper(fg),
        (None, Some(fg)) => HalfBlock::Lower(fg),
        (Some(fg), Some(bg)) => HalfBlock::Both(fg, bg),
    }
}

/// A fully transparent pixel, below the last row of an image of odd height.
pub open spec fn clear() -> Rgba {
    (0u8, 0u8, 0u8, 0u8)
}

/// The pixel at column `x` of row `y` of a `width`-wide image stored row by row.
pub open spec fn pixel_at(pixels: Seq<Rgba>, width: int, x: int, y: int) -> Rgba {
    pixels[y * width + x]
}

/// Cell `x` of line `line`: the pixels of rows `2 * line` and, when the image has it,
/// `2 * line + 1`.
pub open spec fn cell_at(pixels: Seq<Rgba>, width: int, height: int, x: int, line: int) -> HalfBlock {
    cell_of(
        pixel_at(pixels, width, x, 2 * line),
        if 2 * line + 1 < height {
            pixel_at(pixels, width, x, 2 * line + 1)
        } else {
            clear()
        },
    )
}

/// Lines of cells for an image of `height` rows: one line for every two rows.
pub open spec fn line_count(height: int) -> int {
    (height + 1) / 2
}

/// One line of cells.
fn cell_line(pixels: &Vec<Rgba>, width: usize, height: usize, line: usize) -> (r: Vec<HalfBlock>)
    requires
        pixels@.len() == width * height,
        2 * line < height,
    ensures
        r@.len() == width,
        forall|x: int| 0 <= x < width ==> #[trigger] r@[x] == cell_at(pixels@, width as int, height as int, x, line as int),
{
    let n = pixels.len();
    let y = 2 * line;
    proof {
        assert(y * width + width <= width * height) by (nonlinear_arith)
            requires
                y < height,
        {
        }
    }
    let top_start = y * width;
    let mut out: Vec<HalfBlock> = Vec::new();
    let mut x: usize = 0;
    while x < width
        invariant
            x <= width,
            y == 2 * line,
            y < height,
            top_start == y * width,
            top_start + width <= width * height,
            pixels@.len() == width * height,
            n == pixels@.len(),
            out@.len() == x,
            forall|k: int| 0 <= k < x ==> #[trigger] out@[k] == cell_at(pixels@, width as int, height as int, k, line as int),
        decreases width - x,
    {
        let top = pixels[top_start + x];
        let bottom = if y + 1 < height {
            proof {
                assert((y + 1) * width + width <= width * height) by (nonlinear_arith)
                    requires
                        y + 1 < height,
                {
                }
                assert((y + 1) * width == y * width + width) by (nonlinear_arith);
            }
            pixels[top_start + width + x]
        } else {
            (0u8, 0u8, 0u8, 0u8)
        };
        proof {
            assert((y + 1) * width == y * width + width) by (nonlinear_arith);
        }
        out.push(pixel_pair(top, bottom));
        x += 1;
    }
    out
}

/// The lines of half-block cells for a `width`×`height` image whose pixels are stored row by
/// row.
pub fn rgba_to_lines(pixels: &Vec<Rgba>, width: usize, height: usize) -> (r: Vec<Vec<HalfBlock>>)
    requires
        pixels@.len() == width * height,
    ensures
        r@.len() == line_count(height as int),
        forall|line: int| 0 <= line < r@.len() ==> #[trigger] r@[line]@.len() == width,
        forall|line: int, x: int|
            0 <= line < r@.len() && 0 <= x < width ==> #[trigger] r@[line]@[x] == cell_at(
                pixels@,
                width as int,
                height as int,
                x,
                line,
            ),
{
    let count: usize = height / 2 + height % 2;
    assert(count as int == line_count(height as int));
    let mut lines: Vec<Vec<HalfBlock>> = Vec::new();
    let mut line: usize = 0;
    while line < count
        invariant
            count as int == line_count(height as int),
            line <= count,
            pixels@.len() == width * height,
            lines@.len() == line,
            forall|l: int| 0 <= l < line ==> #[trigger] lines@[l]@.len() == width,
            forall|l: int, x: int|
                0 <= l < line && 0 <= x < width ==> #[trigger] lines@[l]@[x] == cell_at(
                    pixels@,
                    width as int,
                    height as int,
                    x,
                    l,
                ),
        decreases count - line,
    {
        let row = cell_line(pixels, width, height, line);
        lines.push(row);
        line += 1;
    }
    lines
}

} // verus!
