//! Pictures on their way out: the crop for a screenshot, the image for the window, the bytes for
//! the encoder, and the grid that the lens correction is drawn with.
use crate::decoder::{Frame, FrameView};
use vstd::prelude::*;

verus! {

/// A picture in the form that the window draws.
#[verifier::external_type_specification]
#[verifier::external_body]
pub struct ExColorImage(egui::ColorImage);

/// The red, green, blue and alpha values of the pixels of an `egui::ColorImage`, row by row.
pub uninterp spec fn color_bytes(image: egui::ColorImage) -> Seq<u8>;

/// The width and the height of an `egui::ColorImage`.
pub uninterp spec fn color_size(image: egui::ColorImage) -> (usize, usize);

/// A value as it is mixed in where its pixel has this alpha value: their product over 255, to the
/// nearest integer.
pub open spec fn shaded(value: u8, alpha: u8) -> u8 {
    let p = value * alpha + 128;
    ((p + p / 256) / 256) as u8
}

/// The values of pixels, each mixed in as far as its pixel is opaque.
pub open spec fn shaded_bytes(rgba: Seq<u8>) -> Seq<u8> {
    Seq::new(
        rgba.len(),
        |i: int|
            if i % 4 == 3 {
                rgba[i]
            } else {
                shaded(rgba[i], rgba[i - i % 4 + 3])
            },
    )
}

/// Opaque pixels are shown as they are.
pub proof fn law_opaque_pixels_are_kept(rgba: Seq<u8>)
    requires
        forall|i: int| 0 <= i < rgba.len() && i % 4 == 3 ==> #[trigger] rgba[i] == 255,
        rgba.len() % 4 == 0,
    ensures
        shaded_bytes(rgba) == rgba,
{
    assert forall|i: int| 0 <= i < rgba.len() implies shaded_bytes(rgba)[i] == rgba[i] by {
        assert(rgba[i - i % 4 + 3] == 255);
    }
    assert(shaded_bytes(rgba) =~= rgba);
}

/// Calls `egui::ColorImage::from_rgba_unmultiplied`. The image has the size that was asked for.
/// Of each pixel it holds the alpha value as it stands, and the others multiplied by it, over
/// 255 and to the nearest integer.
#[verifier::external_body]
fn color_image(width: usize, height: usize, rgba: &[u8]) -> (r: egui::ColorImage)
    requires
        width * height * 4 == rgba@.len(),
    ensures
        color_size(r) == (width, height),
        color_bytes(r) == shaded_bytes(rgba@),
{
    egui::ColorImage::from_rgba_unmultiplied([width, height], rgba)
}

/// Whether `len` bytes hold a picture of this size: four bytes for each pixel, or more. A row has
/// to be one that a machine can address, even where there is none.
pub open spec fn holds_picture(width: u32, height: u32, len: nat) -> bool {
    width * 4 <= usize::MAX && width * height * 4 <= len
}

/// Calls `image::RgbaImage::from_raw`, and `into_raw` on what it gives. There is an image exactly
/// where four times the width fits into a `usize` and the buffer holds four bytes for each pixel,
/// or more; and it holds the buffer as it stands.
#[verifier::external_body]
fn rgba_image(width: u32, height: u32, buf: Vec<u8>) -> (r: Option<Vec<u8>>)
    ensures
        match r {
            Some(data) => holds_picture(width, height, buf@.len()) && data@ == buf@,
            None => !holds_picture(width, height, buf@.len()),
        },
{
    match image::RgbaImage::from_raw(width, height, buf) {
        Some(img) => Some(img.into_raw()),
        None => None,
    }
}

/// The frame as an image for the window.
pub fn frame_image(frame: &Frame) -> (r: egui::ColorImage)
    requires
        frame@.complete(),
    ensures
        color_size(r) == (frame.width as usize, frame.height as usize),
        color_bytes(r) == shaded_bytes(frame.rgba@),
{
    color_image(frame.width as usize, frame.height as usize, frame.rgba.as_slice())
}

/// A picture that is to be saved: its size and its pixels.
#[derive(Debug)]
pub struct Still {
    pub width: u32,
    pub height: u32,
    pub data: Vec<u8>,
}

/// The whole frame as a picture to save, if its buffer holds all of it.
pub fn still(frame: Frame) -> (r: Option<Still>)
    ensures
        match r {
            Some(s) => holds_picture(frame.width, frame.height, frame.rgba@.len()) && s.width
                == frame.width && s.height == frame.height && s.data@ == frame.rgba@,
            None => !holds_picture(frame.width, frame.height, frame.rgba@.len()),
        },
{
    match rgba_image(frame.width, frame.height, frame.rgba) {
        Some(data) => Some(Still { width: frame.width, height: frame.height, data }),
        None => None,
    }
}

/// A crop in pixels: from the first column and row to the last, the last not counted in.
#[derive(Clone, Copy, Debug, PartialEq, Eq, Structural)]
pub struct PixelRect {
    pub x0: usize,
    pub y0: usize,
    pub x1: usize,
    pub y1: usize,
}

/// `v`, but no less than `lo` and no more than `hi`.
pub open spec fn between(v: int, lo: int, hi: int) -> int {
    if v < lo {
        lo
    } else if v > hi {
        hi
    } else {
        v
    }
}

impl PixelRect {
    /// Whether the rectangle lies in a picture of this size and holds at least one pixel.
    pub open spec fn fits(self, width: int, height: int) -> bool {
        self.x0 < self.x1 <= width && self.y0 < self.y1 <= height
    }
}

/// The crop whose corners come to `left`, `top`, `right` and `bottom`, moved into a picture of
/// this size.
pub open spec fn rect_of(
    width: int,
    height: int,
    left: int,
    top: int,
    right: int,
    bottom: int,
) -> PixelRect {
    let x0 = between(left, 0, width - 1);
    let y0 = between(top, 0, height - 1);
    PixelRect {
        x0: x0 as usize,
        y0: y0 as usize,
        x1: between(right, x0 + 1, width) as usize,
        y1: between(bottom, y0 + 1, height) as usize,
    }
}

/// A crop that lies in the picture stays where it is. Any other is moved into it and holds at least
/// one pixel: what lies behind the edge comes to the edge.
pub proof fn law_crop_is_moved_into_the_picture(
    width: u32,
    height: u32,
    left: usize,
    top: usize,
    right: usize,
    bottom: usize,
)
    requires
        0 < width,
        0 < height,
    ensures
        ({
            let r = rect_of(
                width as int,
                height as int,
                left as int,
                top as int,
                right as int,
                bottom as int,
            );
            &&& r.fits(width as int, height as int)
            &&& left < width ==> r.x0 == left
            &&& left >= width ==> r.x0 == width - 1
            &&& top < height ==> r.y0 == top
            &&& top >= height ==> r.y0 == height - 1
            &&& left < right <= width ==> r.x1 == right
            &&& right >= width ==> r.x1 == width
            &&& right <= left ==> r.x1 == r.x0 + 1
            &&& top < bottom <= height ==> r.y1 == bottom
            &&& bottom >= height ==> r.y1 == height
            &&& bottom <= top ==> r.y1 == r.y0 + 1
        }),
{
}

/// The crop whose corners come to `left`, `top`, `right` and `bottom`, moved into a picture of
/// this size: it holds at least one pixel.
pub fn crop_rect(
    width: usize,
    height: usize,
    left: usize,
    top: usize,
    right: usize,
    bottom: usize,
) -> (r: PixelRect)
    requires
        0 < width,
        0 < height,
    ensures
        r == rect_of(
            width as int,
            height as int,
            left as int,
            top as int,
            right as int,
            bottom as int,
        ),
        r.x0 == between(left as int, 0, width - 1),
        r.y0 == between(top as int, 0, height - 1),
        r.x1 == between(right as int, r.x0 + 1, width as int),
        r.y1 == between(bottom as int, r.y0 + 1, height as int),
        r.fits(width as int, height as int),
        left < right <= width && top < bottom <= height ==> r == (PixelRect {
            x0: left,
            y0: top,
            x1: right,
            y1: bottom,
        }),
{
    let x0: usize = if left > width - 1 {
        width - 1
    } else {
        left
    };
    let y0: usize = if top > height - 1 {
        height - 1
    } else {
        top
    };
    let x1: usize = if right < x0 + 1 {
        x0 + 1
    } else if right > width {
        width
    } else {
        right
    };
    let y1: usize = if bottom < y0 + 1 {
        y0 + 1
    } else if bottom > height {
        height
    } else {
        bottom
    };
    PixelRect { x0, y0, x1, y1 }
}

impl FrameView {
    /// Where the pixel stands.
    pub open spec fn at(self, x: int, y: int) -> int {
        (y * self.width + x) * 4
    }

    /// The bytes of the row `y` from the column `x0` up to the column `x1`.
    pub open spec fn row_part(self, y: int, x0: int, x1: int) -> Seq<u8> {
        self.rgba.subrange(self.at(x0, y), self.at(x1, y))
    }

    /// The first `n` rows of a crop.
    pub open spec fn crop_rows(self, r: PixelRect, n: nat) -> Seq<u8>
        decreases n,
    {
        if n == 0 {
            seq![]
        } else {
            self.crop_rows(r, (n - 1) as nat) + self.row_part(
                r.y0 + n - 1,
                r.x0 as int,
                r.x1 as int,
            )
        }
    }

    /// The crop.
    pub open spec fn cropped(self, r: PixelRect) -> Seq<u8> {
        self.crop_rows(r, (r.y1 - r.y0) as nat)
    }
}

/// The part of a row lies in the frame.
proof fn lemma_row_part(f: FrameView, y: int, x0: int, x1: int)
    requires
        f.complete(),
        0 <= y < f.height,
        0 <= x0 <= x1 <= f.width,
    ensures
        0 <= y * f.width,
        0 <= f.at(x0, y) <= f.at(x1, y) <= f.rgba.len(),
        f.at(x1, y) == f.at(x0, y) + (x1 - x0) * 4,
{
    let (w, h) = (f.width as int, f.height as int);
    assert(0 <= y * w && y * w + w <= w * h) by (nonlinear_arith)
        requires
            0 <= y < h,
            w >= 0,
    ;
}

/// The rows of a crop take four bytes for each pixel.
proof fn lemma_crop_len(f: FrameView, r: PixelRect, n: nat)
    requires
        f.complete(),
        r.fits(f.width as int, f.height as int),
        n <= r.y1 - r.y0,
    ensures
        f.crop_rows(r, n).len() == n * (r.x1 - r.x0) * 4,
    decreases n,
{
    let cw = r.x1 - r.x0;
    if n > 0 {
        let m = (n - 1) as nat;
        lemma_crop_len(f, r, m);
        lemma_row_part(f, r.y0 + n - 1, r.x0 as int, r.x1 as int);
        assert(n * cw * 4 == m * cw * 4 + cw * 4) by (nonlinear_arith)
            requires
                n == m + 1,
        ;
    } else {
        assert(n * cw * 4 == 0) by (nonlinear_arith)
            requires
                n == 0,
        ;
    }
}

/// A crop is a complete picture of its own size, and the pixel in its column `x` and row `y` is
/// that of the frame as far from the crop's corner.
pub proof fn law_crop_shows_frame(f: FrameView, r: PixelRect, x: int, y: int)
    requires
        f.complete(),
        r.fits(f.width as int, f.height as int),
        0 <= x < r.x1 - r.x0,
        0 <= y < r.y1 - r.y0,
    ensures
        f.cropped(r).len() == (r.y1 - r.y0) * (r.x1 - r.x0) * 4,
        ({
            let at = (y * (r.x1 - r.x0) + x) * 4;
            &&& 0 <= at
            &&& at + 4 <= f.cropped(r).len()
            &&& f.at(r.x0 + x, r.y0 + y) == ((r.y0 + y) * f.width + (r.x0 + x)) * 4
            &&& f.cropped(r).subrange(at, at + 4) == f.rgba.subrange(
                f.at(r.x0 + x, r.y0 + y),
                f.at(r.x0 + x, r.y0 + y) + 4,
            )
        }),
{
    lemma_crop_len(f, r, (r.y1 - r.y0) as nat);
    lemma_crop_pixel(f, r, (r.y1 - r.y0) as nat, x, y);
}

/// The pixel of a crop, of which the first `n` rows are there.
proof fn lemma_crop_pixel(f: FrameView, r: PixelRect, n: nat, x: int, y: int)
    requires
        f.complete(),
        r.fits(f.width as int, f.height as int),
        n <= r.y1 - r.y0,
        0 <= x < r.x1 - r.x0,
        0 <= y < n,
    ensures
        ({
            let at = (y * (r.x1 - r.x0) + x) * 4;
            &&& 0 <= at
            &&& at + 4 <= f.crop_rows(r, n).len()
            &&& f.crop_rows(r, n).subrange(at, at + 4) == f.rgba.subrange(
                f.at(r.x0 + x, r.y0 + y),
                f.at(r.x0 + x, r.y0 + y) + 4,
            )
        }),
    decreases n,
{
    let cw = r.x1 - r.x0;
    let m = (n - 1) as nat;
    let at = (y * cw + x) * 4;
    lemma_crop_len(f, r, n);
    lemma_crop_len(f, r, m);
    assert(n * cw * 4 == m * cw * 4 + cw * 4) by (nonlinear_arith)
        requires
            n == m + 1,
    ;
    assert(0 <= y * cw) by (nonlinear_arith)
        requires
            y >= 0,
            cw >= 0,
    ;
    let all = f.crop_rows(r, n);
    let head = f.crop_rows(r, m);
    let ny = r.y0 + n - 1;
    let last = f.row_part(ny, r.x0 as int, r.x1 as int);
    lemma_row_part(f, ny, r.x0 as int, r.x1 as int);
    if y == m {
        assert(all.subrange(at, at + 4) =~= last.subrange(x * 4, x * 4 + 4));
        assert(last.subrange(x * 4, x * 4 + 4) =~= f.rgba.subrange(
            f.at(r.x0 + x, ny),
            f.at(r.x0 + x, ny) + 4,
        ));
    } else {
        lemma_crop_pixel(f, r, m, x, y);
        assert(all.subrange(at, at + 4) =~= head.subrange(at, at + 4));
    }
}

/// Copies the crop out of the frame.
pub fn crop_rgba(frame: &Frame, r: PixelRect) -> (out: Vec<u8>)
    requires
        frame@.complete(),
        r.fits(frame.width as int, frame.height as int),
    ensures
        out@ == frame@.cropped(r),
{
    let w: usize = frame.width as usize;
    let cw: usize = r.x1 - r.x0;
    let ch: usize = r.y1 - r.y0;
    let len: usize = frame.rgba.len();
    let mut out: Vec<u8> = Vec::new();
    let mut row: usize = 0;
    while row < ch
        invariant
            frame@.complete(),
            r.fits(frame.width as int, frame.height as int),
            w == frame.width,
            cw == r.x1 - r.x0,
            ch == r.y1 - r.y0,
            len == frame.rgba@.len(),
            row <= ch,
            out@ == frame@.crop_rows(r, row as nat),
        decreases ch - row,
    {
        proof {
            lemma_row_part(frame@, r.y0 + row, r.x0 as int, r.x1 as int);
        }
        let src: usize = ((r.y0 + row) * w + r.x0) * 4;
        let end: usize = src + cw * 4;
        let part = vstd::slice::slice_subrange(frame.rgba.as_slice(), src, end);
        out.extend_from_slice(part);
        row = row + 1;
    }
    out
}

/// The crop of a frame as a picture to save.
pub fn crop_still(
    frame: &Frame,
    left: usize,
    top: usize,
    right: usize,
    bottom: usize,
) -> (r: Result<Still, &'static str>)
    requires
        frame@.complete(),
    ensures
        match r {
            Ok(s) => frame.width > 0 && frame.height > 0 && ({
                let x0 = between(left as int, 0, frame.width - 1);
                let y0 = between(top as int, 0, frame.height - 1);
                let x1 = between(right as int, x0 + 1, frame.width as int);
                let y1 = between(bottom as int, y0 + 1, frame.height as int);
                let rect = PixelRect {
                    x0: x0 as usize,
                    y0: y0 as usize,
                    x1: x1 as usize,
                    y1: y1 as usize,
                };
                s.width == x1 - x0 && s.height == y1 - y0 && s.data@ == frame@.cropped(rect)
            }),
            Err(e) => (frame.width == 0 || frame.height == 0) && e@ == "empty frame"@,
        },
        r matches Ok(s) ==> ({
            let rect = rect_of(
                frame.width as int,
                frame.height as int,
                left as int,
                top as int,
                right as int,
                bottom as int,
            );
            s.data@ == frame@.cropped(rect) && s.width == rect.x1 - rect.x0 && s.height == rect.y1
                - rect.y0
        }),
{
    let w: usize = frame.width as usize;
    let h: usize = frame.height as usize;
    if w == 0 || h == 0 {
        return Err("empty frame");
    }
    let rect = crop_rect(w, h, left, top, right, bottom);
    let cw: usize = rect.x1 - rect.x0;
    let ch: usize = rect.y1 - rect.y0;
    let data = crop_rgba(frame, rect);
    proof {
        lemma_crop_len(frame@, rect, (rect.y1 - rect.y0) as nat);
        assert(ch * cw * 4 == cw * ch * 4) by (nonlinear_arith);
        assert(cw * 4 <= cw * ch * 4) by (nonlinear_arith)
            requires
                cw >= 0,
                ch >= 1,
        ;
        assert(data@.len() == data.len());
        assert(cw as u32 == cw && ch as u32 == ch);
    }
    match rgba_image(cw as u32, ch as u32, data) {
        Some(data) => Ok(Still { width: cw as u32, height: ch as u32, data }),
        None => Err("frame buffer size mismatch"),
    }
}

impl FrameView {
    /// The first `n` pixels of the row `y`, blue before green before red.
    pub open spec fn bgra_row(self, y: int, n: nat) -> Seq<u8>
        decreases n,
    {
        if n == 0 {
            seq![]
        } else {
            let at = self.at(n - 1, y);
            self.bgra_row(y, (n - 1) as nat) + seq![
                self.rgba[at + 2],
                self.rgba[at + 1],
                self.rgba[at],
                self.rgba[at + 3],
            ]
        }
    }

    /// The first `n` rows of `w` pixels each, in the same order.
    pub open spec fn bgra_rows(self, w: nat, n: nat) -> Seq<u8>
        decreases n,
    {
        if n == 0 {
            seq![]
        } else {
            self.bgra_rows(w, (n - 1) as nat) + self.bgra_row(n - 1, w)
        }
    }
}

/// The top left part of a frame, for an encoder that takes blue before green before red.
pub fn bgra(frame: &Frame, w: u32, h: u32) -> (r: Vec<u8>)
    requires
        frame@.complete(),
        w <= frame.width,
        h <= frame.height,
    ensures
        r@ == frame@.bgra_rows(w as nat, h as nat),
{
    let width: usize = frame.width as usize;
    let len: usize = frame.rgba.len();
    let mut out: Vec<u8> = Vec::new();
    let mut y: u32 = 0;
    while y < h
        invariant
            frame@.complete(),
            w <= frame.width,
            h <= frame.height,
            width == frame.width,
            len == frame.rgba@.len(),
            y <= h,
            out@ == frame@.bgra_rows(w as nat, y as nat),
        decreases h - y,
    {
        let ghost before = out@;
        let mut x: u32 = 0;
        assert(out@ =~= before + frame@.bgra_row(y as int, 0));
        while x < w
            invariant
                frame@.complete(),
                w <= frame.width,
                y < frame.height,
                width == frame.width,
                len == frame.rgba@.len(),
                x <= w,
                out@ == before + frame@.bgra_row(y as int, x as nat),
            decreases w - x,
        {
            proof {
                lemma_row_part(frame@, y as int, x as int, x + 1);
            }
            let at: usize = (y as usize * width + x as usize) * 4;
            let ghost old_out = out@;
            let ghost pixel = seq![
                frame.rgba@[at + 2],
                frame.rgba@[at + 1],
                frame.rgba@[at as int],
                frame.rgba@[at + 3],
            ];
            out.push(frame.rgba[at + 2]);
            out.push(frame.rgba[at + 1]);
            out.push(frame.rgba[at]);
            out.push(frame.rgba[at + 3]);
            proof {
                assert(out@ =~= old_out + pixel);
                assert(old_out + pixel =~= before + (frame@.bgra_row(y as int, x as nat) + pixel));
            }
            x = x + 1;
        }
        y = y + 1;
    }
    out
}

/// The cells of the grid that a warped picture is drawn with, on either axis.
pub const GRID_CELLS: u32 = 48;

/// The two triangles of a cell, by the numbers of their corners in a grid with `row` corners per
/// row: top left, top right and bottom left, then top right, bottom right and bottom left.
pub open spec fn cell_indices(row: int, i: int, j: int) -> Seq<u32> {
    let a = j * row + i;
    seq![
        a as u32,
        (a + 1) as u32,
        (a + row) as u32,
        (a + 1) as u32,
        (a + row + 1) as u32,
        (a + row) as u32,
    ]
}

/// The first `m` cells of the row `j`.
pub open spec fn cell_row(row: int, j: int, m: nat) -> Seq<u32>
    decreases m,
{
    if m == 0 {
        seq![]
    } else {
        cell_row(row, j, (m - 1) as nat) + cell_indices(row, m - 1, j)
    }
}

/// The first `m` rows of a grid of `n` cells on either axis.
pub open spec fn grid(n: nat, m: nat) -> Seq<u32>
    decreases m,
{
    if m == 0 {
        seq![]
    } else {
        grid(n, (m - 1) as nat) + cell_row(n + 1int, m - 1, n)
    }
}

/// The triangles of the grid.
pub fn grid_indices() -> (r: Vec<u32>)
    ensures
        r@ == grid(GRID_CELLS as nat, GRID_CELLS as nat),
{
    let row: u32 = GRID_CELLS + 1;
    let mut out: Vec<u32> = Vec::new();
    let mut j: u32 = 0;
    while j < GRID_CELLS
        invariant
            row == GRID_CELLS + 1,
            j <= GRID_CELLS,
            out@ == grid(GRID_CELLS as nat, j as nat),
        decreases GRID_CELLS - j,
    {
        let ghost before = out@;
        let mut i: u32 = 0;
        assert(out@ =~= before + cell_row(row as int, j as int, 0));
        while i < GRID_CELLS
            invariant
                row == GRID_CELLS + 1,
                i <= GRID_CELLS,
                j < GRID_CELLS,
                out@ == before + cell_row(row as int, j as int, i as nat),
            decreases GRID_CELLS - i,
        {
            assert(0 <= j * row <= 2303) by (nonlinear_arith)
                requires
                    0 <= j < 48,
                    row == 49,
            ;
            let a: u32 = j * row + i;
            let ghost old_out = out@;
            out.push(a);
            out.push(a + 1);
            out.push(a + row);
            out.push(a + 1);
            out.push(a + row + 1);
            out.push(a + row);
            proof {
                let cell = cell_indices(row as int, i as int, j as int);
                assert(out@ =~= old_out + cell);
                assert(old_out + cell =~= before + (cell_row(row as int, j as int, i as nat)
                    + cell));
            }
            i = i + 1;
        }
        j = j + 1;
    }
    out
}

/// Every corner that the triangles name is one of the grid's.
pub proof fn law_grid_names_its_corners(n: nat, m: nat)
    requires
        m <= n,
        (n + 1) * (n + 1) <= u32::MAX,
    ensures
        forall|k: int| 0 <= k < grid(n, m).len() ==> #[trigger] grid(n, m)[k] < (n + 1) * (n + 1),
    decreases m,
{
    if m > 0 {
        let p = (m - 1) as nat;
        law_grid_names_its_corners(n, p);
        lemma_cell_row(n, p, n);
        let head = grid(n, p);
        let tail = cell_row(n + 1int, m - 1, n);
        assert forall|k: int| 0 <= k < grid(n, m).len() implies #[trigger] grid(n, m)[k] < (n + 1)
            * (n + 1) by {
            if k < head.len() {
                assert(grid(n, m)[k] == head[k]);
            } else {
                assert(grid(n, m)[k] == tail[k - head.len()]);
            }
        }
    }
}

/// Every corner that the triangles of a row name is one of the grid's.
proof fn lemma_cell_row(n: nat, j: nat, m: nat)
    requires
        j < n,
        m <= n,
        (n + 1) * (n + 1) <= u32::MAX,
    ensures
        forall|k: int|
            0 <= k < cell_row(n + 1int, j as int, m).len() ==> #[trigger] cell_row(
                n + 1int,
                j as int,
                m,
            )[k] < (n + 1) * (n + 1),
    decreases m,
{
    if m > 0 {
        let p = (m - 1) as nat;
        lemma_cell_row(n, j, p);
        let row = n + 1;
        let all = cell_row(row as int, j as int, m);
        let head = cell_row(row as int, j as int, p);
        let tail = cell_indices(row as int, m - 1, j as int);
        let a = j * row + (m - 1);
        assert(0 <= a && a + row + 1 < row * row) by (nonlinear_arith)
            requires
                row == n + 1,
                0 <= j < n,
                a == j * row + (m - 1),
                1 <= m <= n,
        ;
        assert forall|k: int| 0 <= k < all.len() implies #[trigger] all[k] < (n + 1) * (n
            + 1) by {
            if k < head.len() {
                assert(all[k] == head[k]);
            } else {
                assert(all[k] == tail[k - head.len()]);
            }
        }
    }
}

/// A row for the encoder takes four bytes for each pixel.
proof fn lemma_bgra_row(f: FrameView, y: int, n: nat, x: int)
    requires
        0 <= x < n,
    ensures
        f.bgra_row(y, n).len() == 4 * n,
        f.bgra_row(y, n)[4 * x] == f.rgba[(y * f.width + x) * 4 + 2],
        f.bgra_row(y, n)[4 * x + 1] == f.rgba[(y * f.width + x) * 4 + 1],
        f.bgra_row(y, n)[4 * x + 2] == f.rgba[(y * f.width + x) * 4],
        f.bgra_row(y, n)[4 * x + 3] == f.rgba[(y * f.width + x) * 4 + 3],
    decreases n,
{
    let m = (n - 1) as nat;
    lemma_bgra_len(f, y, m);
    if x < m {
        lemma_bgra_row(f, y, m, x);
    }
}

/// A row for the encoder takes four bytes for each pixel.
proof fn lemma_bgra_len(f: FrameView, y: int, n: nat)
    ensures
        f.bgra_row(y, n).len() == 4 * n,
    decreases n,
{
    if n > 0 {
        lemma_bgra_len(f, y, (n - 1) as nat);
    }
}

/// Rows for the encoder take four bytes for each pixel.
proof fn lemma_bgra_rows_len(f: FrameView, w: nat, n: nat)
    ensures
        f.bgra_rows(w, n).len() == 4 * (n * w),
    decreases n,
{
    if n > 0 {
        let m = (n - 1) as nat;
        lemma_bgra_rows_len(f, w, m);
        lemma_bgra_len(f, n - 1, w);
        assert(n * w == m * w + w) by (nonlinear_arith)
            requires
                n == m + 1,
        ;
    } else {
        assert(n * w == 0) by (nonlinear_arith)
            requires
                n == 0,
        ;
    }
}

/// What the encoder gets for the pixel in the column `x` and the row `y` is that pixel of the
/// frame, with red and blue in each other's place.
pub proof fn law_encoder_gets_the_frame(f: FrameView, w: nat, h: nat, x: int, y: int)
    requires
        0 <= x < w,
        0 <= y < h,
    ensures
        ({
            let (out, to) = (f.bgra_rows(w, h), 4 * (y * w + x));
            let from = (y * f.width + x) * 4;
            &&& out.len() == 4 * (h * w)
            &&& 0 <= to && to + 4 <= out.len()
            &&& out[to] == f.rgba[from + 2]
            &&& out[to + 1] == f.rgba[from + 1]
            &&& out[to + 2] == f.rgba[from]
            &&& out[to + 3] == f.rgba[from + 3]
        }),
    decreases h,
{
    let m = (h - 1) as nat;
    lemma_bgra_rows_len(f, w, h);
    lemma_bgra_rows_len(f, w, m);
    lemma_bgra_len(f, h - 1, w);
    assert(h * w == m * w + w) by (nonlinear_arith)
        requires
            h == m + 1,
    ;
    assert(0 <= y * w) by (nonlinear_arith)
        requires
            y >= 0,
    ;
    let (all, head, last) = (f.bgra_rows(w, h), f.bgra_rows(w, m), f.bgra_row(h - 1, w));
    assert(all == head + last);
    let to = 4 * (y * w + x);
    if y == m {
        lemma_bgra_row(f, y, w, x);
        assert(all[to] == last[4 * x] && all[to + 1] == last[4 * x + 1] && all[to + 2] == last[4 * x
            + 2] && all[to + 3] == last[4 * x + 3]);
    } else {
        law_encoder_gets_the_frame(f, w, m, x, y);
        assert(all[to] == head[to] && all[to + 1] == head[to + 1] && all[to + 2] == head[to + 2]
            && all[to + 3] == head[to + 3]);
    }
}

/// A number that lies between the bounds stays; any other is moved to the bound next to it.
pub proof fn law_between_moves_no_further_than_needed(v: int, lo: int, hi: int)
    requires
        lo <= hi,
    ensures
        lo <= between(v, lo, hi) <= hi,
        lo <= v <= hi ==> between(v, lo, hi) == v,
        v <= lo ==> between(v, lo, hi) == lo,
        v >= hi ==> between(v, lo, hi) == hi,
{
}

/// Mixing in is multiplying by the alpha value and dividing by 255, to the nearest integer.
pub proof fn law_shading_is_to_the_nearest(value: u8, alpha: u8)
    ensures
        -127 <= 255 * shaded(value, alpha) - value * alpha <= 127,
{
    let p = value * alpha;
    assert(0 <= p <= 255 * 255) by (nonlinear_arith)
        requires
            p == value * alpha,
            value <= 255,
            alpha <= 255,
    ;
    let q = (p + 128) / 256;
    let s = (p + 128 + q) / 256;
    assert(0 <= s <= 255);
    assert(shaded(value, alpha) == s);
}

/// The cells of a row take six numbers each.
proof fn lemma_cell_row_len(row: int, j: int, m: nat)
    ensures
        cell_row(row, j, m).len() == 6 * m,
    decreases m,
{
    if m > 0 {
        lemma_cell_row_len(row, j, (m - 1) as nat);
    }
}

/// The rows of a grid take six numbers for each cell.
proof fn lemma_grid_len(n: nat, m: nat)
    ensures
        grid(n, m).len() == 6 * (m * n),
    decreases m,
{
    if m > 0 {
        let p = (m - 1) as nat;
        lemma_grid_len(n, p);
        lemma_cell_row_len(n + 1int, m - 1, n);
        assert(m * n == p * n + n) by (nonlinear_arith)
            requires
                m == p + 1,
        ;
    } else {
        assert(m * n == 0) by (nonlinear_arith)
            requires
                m == 0,
        ;
    }
}

/// The cell `i` of a row, among its first `m`.
proof fn lemma_cell(row: int, j: int, m: nat, i: int)
    requires
        0 <= i < m,
    ensures
        cell_row(row, j, m).subrange(6 * i, 6 * i + 6) == cell_indices(row, i, j),
    decreases m,
{
    let p = (m - 1) as nat;
    lemma_cell_row_len(row, j, m);
    lemma_cell_row_len(row, j, p);
    let (all, head, last) = (cell_row(row, j, m), cell_row(row, j, p), cell_indices(row, p as int, j));
    if i == p {
        assert(all.subrange(6 * i, 6 * i + 6) =~= last);
    } else {
        lemma_cell(row, j, p, i);
        assert(all.subrange(6 * i, 6 * i + 6) =~= head.subrange(6 * i, 6 * i + 6));
    }
}

/// Whether `k` is the number of the corner in the column `x` and the row `y`, where the corners of
/// a grid of `n` cells are counted row by row.
pub open spec fn is_corner(k: u32, n: nat, x: int, y: int) -> bool {
    k as int % (n + 1int) == x && k as int / (n + 1int) == y
}

/// The cell in the column `i` and the row `j` is drawn as two triangles: one of its top left, top
/// right and bottom left corner, and one of its top right, bottom right and bottom left corner.
pub proof fn law_cells_are_two_triangles(n: nat, m: nat, i: int, j: int)
    requires
        0 <= i < n,
        0 <= j < m,
        m <= n,
        (n + 1) * (n + 1) <= u32::MAX,
    ensures
        ({
            let (all, at) = (grid(n, m), 6 * (j * n + i));
            &&& all.len() == 6 * (m * n)
            &&& 0 <= at && at + 6 <= all.len()
            &&& is_corner(all[at], n, i, j)
            &&& is_corner(all[at + 1], n, i + 1, j)
            &&& is_corner(all[at + 2], n, i, j + 1)
            &&& is_corner(all[at + 3], n, i + 1, j)
            &&& is_corner(all[at + 4], n, i + 1, j + 1)
            &&& is_corner(all[at + 5], n, i, j + 1)
        }),
    decreases m,
{
    let p = (m - 1) as nat;
    let row = n + 1int;
    lemma_grid_len(n, m);
    lemma_grid_len(n, p);
    lemma_cell_row_len(row, m - 1, n);
    assert(m * n == p * n + n) by (nonlinear_arith)
        requires
            m == p + 1,
    ;
    assert(0 <= j * n) by (nonlinear_arith)
        requires
            j >= 0,
    ;
    let (all, head, last) = (grid(n, m), grid(n, p), cell_row(row, m - 1, n));
    assert(all == head + last);
    let at = 6 * (j * n + i);
    if j == p {
        lemma_cell(row, j, n, i);
        let cell = cell_indices(row, i, j);
        assert(all.subrange(at, at + 6) =~= last.subrange(6 * i, 6 * i + 6));
        assert(all.subrange(at, at + 6) == cell);
        assert(all[at] == cell[0] && all[at + 1] == cell[1] && all[at + 2] == cell[2] && all[at + 3]
            == cell[3] && all[at + 4] == cell[4] && all[at + 5] == cell[5]) by {
            let part = all.subrange(at, at + 6);
            assert(part[0] == all[at] && part[1] == all[at + 1] && part[2] == all[at + 2]);
            assert(part[3] == all[at + 3] && part[4] == all[at + 4] && part[5] == all[at + 5]);
        }
        assert(0 <= j * row + i && j * row + i + row + 1 < row * row) by (nonlinear_arith)
            requires
                0 <= j < n,
                0 <= i < n,
                row == n + 1,
        ;
        assert((j + 1) * row == j * row + row) by (nonlinear_arith);
        vstd::arithmetic::div_mod::lemma_fundamental_div_mod_converse(j * row + i, row, j, i);
        vstd::arithmetic::div_mod::lemma_fundamental_div_mod_converse(
            j * row + (i + 1),
            row,
            j,
            i + 1,
        );
        vstd::arithmetic::div_mod::lemma_fundamental_div_mod_converse(
            (j + 1) * row + i,
            row,
            j + 1,
            i,
        );
        vstd::arithmetic::div_mod::lemma_fundamental_div_mod_converse(
            (j + 1) * row + (i + 1),
            row,
            j + 1,
            i + 1,
        );
    } else {
        law_cells_are_two_triangles(n, p, i, j);
        assert(all[at] == head[at] && all[at + 1] == head[at + 1] && all[at + 2] == head[at + 2]
            && all[at + 3] == head[at + 3] && all[at + 4] == head[at + 4] && all[at + 5] == head[at
            + 5]);
    }
}

} // verus!
