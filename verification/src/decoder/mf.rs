//! What lies around the Media Foundation decoder: the layout of its pictures, and NV12 as RGBA.
use crate::decoder::{Frame, FrameView};
use crate::stream::{larger, larger_of};
use vstd::prelude::*;

verus! {

/// The time that one access unit is said to take, in units of 100 ns: about a thirtieth of a
/// second. A hint alone.
pub const FRAME_TIME: i64 = 333_667;

/// The layout of the pictures that the decoder hands out.
#[derive(Clone, Copy, Debug, PartialEq, Eq, Structural)]
pub struct Geometry {
    /// The size that is coded, padding counted in.
    pub coded_w: u32,
    pub coded_h: u32,
    /// The bytes from one row to the next.
    pub stride: usize,
    /// The size that is shown.
    pub vis_w: u32,
    pub vis_h: u32,
}

/// The smaller of two sizes.
pub open spec fn smaller(a: u32, b: u32) -> u32 {
    if a <= b {
        a
    } else {
        b
    }
}

/// The smaller of two sizes.
fn smaller_of(a: u32, b: u32) -> (r: u32)
    ensures
        r == smaller(a, b),
{
    if a <= b {
        a
    } else {
        b
    }
}

/// The distance between two rows, of which the sign tells the direction: a number with its
/// highest bit set is a negative one.
pub open spec fn row_distance(stride: u32) -> int {
    if stride < 0x8000_0000 {
        stride as int
    } else {
        0x1_0000_0000 - stride
    }
}

/// The layout, from the size that the decoder reports (the width in the high half), from its row
/// distance if it reports one, and from the size that the stream announced. What is shown is no
/// more than was announced, so that padding is cut off.
pub open spec fn geometry_of(
    frame_size: u64,
    stride: Option<u32>,
    expect_w: u32,
    expect_h: u32,
) -> Geometry {
    let coded_w = (frame_size / 0x1_0000_0000) as u32;
    let coded_h = (frame_size % 0x1_0000_0000) as u32;
    Geometry {
        coded_w,
        coded_h,
        stride: match stride {
            Some(s) => row_distance(s) as usize,
            None => coded_w as usize,
        },
        vis_w: smaller(coded_w, larger(expect_w, 1)),
        vis_h: smaller(coded_h, larger(expect_h, 1)),
    }
}

/// Works out the layout.
pub fn geometry(frame_size: u64, stride: Option<u32>, expect_w: u32, expect_h: u32) -> (r: Geometry)
    ensures
        r == geometry_of(frame_size, stride, expect_w, expect_h),
{
    let coded_w: u32 = (frame_size / 0x1_0000_0000) as u32;
    let coded_h: u32 = (frame_size % 0x1_0000_0000) as u32;
    let rows: usize = match stride {
        Some(s) => {
            if s < 0x8000_0000 {
                s as usize
            } else {
                (0xffff_ffff - s + 1) as usize
            }
        },
        None => coded_w as usize,
    };
    Geometry {
        coded_w,
        coded_h,
        stride: rows,
        vis_w: smaller_of(coded_w, larger_of(expect_w, 1)),
        vis_h: smaller_of(coded_h, larger_of(expect_h, 1)),
    }
}

/// A width and a height in one number, the width in the high half.
pub open spec fn packed(hi: u32, lo: u32) -> u64 {
    (hi * 0x1_0000_0000 + lo) as u64
}

/// Puts two numbers in one.
pub fn pack(hi: u32, lo: u32) -> (r: u64)
    ensures
        r == packed(hi, lo),
{
    hi as u64 * 0x1_0000_0000 + lo as u64
}

/// The layout of a size that was packed has that size.
pub proof fn law_packed_size_is_read_back(
    w: u32,
    h: u32,
    stride: Option<u32>,
    expect_w: u32,
    expect_h: u32,
)
    ensures
        geometry_of(packed(w, h), stride, expect_w, expect_h).coded_w == w,
        geometry_of(packed(w, h), stride, expect_w, expect_h).coded_h == h,
{
}

/// What is shown is no more than is coded, and no more than was announced; it is what was
/// announced wherever that much is coded.
pub proof fn law_padding_is_cut_off(
    frame_size: u64,
    stride: Option<u32>,
    expect_w: u32,
    expect_h: u32,
)
    ensures
        ({
            let g = geometry_of(frame_size, stride, expect_w, expect_h);
            g.vis_w <= g.coded_w && g.vis_h <= g.coded_h && g.vis_w <= larger(expect_w, 1)
                && g.vis_h <= larger(expect_h, 1) && (g.coded_w >= larger(expect_w, 1) ==> g.vis_w
                == larger(expect_w, 1)) && (g.coded_h >= larger(expect_h, 1) ==> g.vis_h == larger(
                expect_h,
                1,
            ))
        }),
{
}

impl Geometry {
    /// The bytes that a buffer for one picture holds, where the decoder asks for `wanted`.
    pub open spec fn buffer_for(self, wanted: u32) -> u32 {
        larger(wanted, (self.stride * self.coded_h) as u32)
    }
}

/// A buffer holds what the decoder asks for and all rows of luma, and no more than the larger of
/// the two.
pub proof fn law_buffer_holds_the_luma(g: Geometry, wanted: u32)
    requires
        g.stride * g.coded_h <= u32::MAX,
    ensures
        g.buffer_for(wanted) >= wanted,
        g.buffer_for(wanted) >= g.stride * g.coded_h,
        g.buffer_for(wanted) == wanted || g.buffer_for(wanted) == g.stride * g.coded_h,
{
    let (s, h) = (g.stride as int, g.coded_h as int);
    assert(0 <= s * h) by (nonlinear_arith)
        requires
            s >= 0,
            h >= 0,
    ;
}

impl Geometry {
    /// The bytes that a buffer for one picture holds, where the decoder asks for `wanted`.
    pub fn buffer_size(&self, wanted: u32) -> (r: u32)
        requires
            self.stride * self.coded_h <= u32::MAX,
        ensures
            r == larger(wanted, (self.stride * self.coded_h) as u32),
            r == self.buffer_for(wanted),
    {
        proof {
            let (s, h) = (self.stride as int, self.coded_h as int);
            if h > 0 {
                assert(s <= s * h) by (nonlinear_arith)
                    requires
                        s >= 0,
                        h >= 1,
                ;
            }
        }
        if self.coded_h == 0 {
            assert(self.stride * self.coded_h == 0) by (nonlinear_arith)
                requires
                    self.coded_h == 0,
            ;
            return wanted;
        }
        larger_of(wanted, self.stride as u32 * self.coded_h)
    }
}

/// A decoder, as far as layout and time are concerned.
#[derive(Clone, Copy, Debug, PartialEq, Eq, Structural)]
pub struct MfDecoder {
    expect_w: u32,
    expect_h: u32,
    geometry: Geometry,
    pts: i64,
}

/// The state of an [`MfDecoder`].
pub struct MfDecoderView {
    pub expect_w: u32,
    pub expect_h: u32,
    pub geometry: Geometry,
    pub pts: i64,
}

impl View for MfDecoder {
    type V = MfDecoderView;

    closed spec fn view(&self) -> MfDecoderView {
        MfDecoderView {
            expect_w: self.expect_w,
            expect_h: self.expect_h,
            geometry: self.geometry,
            pts: self.pts,
        }
    }
}

impl MfDecoderView {
    /// The decoder before its output type was settled.
    pub open spec fn start(expect_w: u32, expect_h: u32) -> MfDecoderView {
        MfDecoderView {
            expect_w,
            expect_h,
            geometry: Geometry { coded_w: 0, coded_h: 0, stride: 0, vis_w: 0, vis_h: 0 },
            pts: 0,
        }
    }

    /// The decoder once an access unit was given its time.
    pub open spec fn after_unit(self) -> MfDecoderView {
        MfDecoderView { pts: (self.pts + FRAME_TIME) as i64, ..self }
    }

    /// The decoder once `n` access units were given their times.
    pub open spec fn after_units(self, n: nat) -> MfDecoderView
        decreases n,
    {
        if n == 0 {
            self
        } else {
            self.after_units((n - 1) as nat).after_unit()
        }
    }

    /// The decoder once its output type was settled.
    pub open spec fn with_output(self, frame_size: u64, stride: Option<u32>) -> MfDecoderView {
        MfDecoderView {
            geometry: geometry_of(frame_size, stride, self.expect_w, self.expect_h),
            ..self
        }
    }
}

/// The access units are a thirtieth of a second apart, beginning at 0, and until the output type is
/// settled the layout stays empty.
pub proof fn law_units_follow_at_equal_times(expect_w: u32, expect_h: u32, n: nat)
    requires
        n * 333_667 <= i64::MAX,
    ensures
        ({
            let s = MfDecoderView::start(expect_w, expect_h).after_units(n);
            s.pts == n * 333_667 && s.expect_w == expect_w && s.expect_h == expect_h && s.geometry
                == (Geometry { coded_w: 0, coded_h: 0, stride: 0, vis_w: 0, vis_h: 0 })
        }),
    decreases n,
{
    if n > 0 {
        law_units_follow_at_equal_times(expect_w, expect_h, (n - 1) as nat);
    }
}

/// An output type that is settled anew replaces the layout and nothing else; rows follow one
/// another without a gap where the decoder reports no distance.
pub proof fn law_output_type_is_followed(
    d: MfDecoderView,
    w: u32,
    h: u32,
    stride: Option<u32>,
    again: u64,
)
    ensures
        ({
            let s = d.with_output(packed(w, h), stride);
            &&& s.geometry.coded_w == w && s.geometry.coded_h == h
            &&& s.geometry.vis_w <= w && s.geometry.vis_h <= h
            &&& stride is None ==> s.geometry.stride == w
            &&& s.pts == d.pts && s.expect_w == d.expect_w && s.expect_h == d.expect_h
            &&& d.with_output(again, stride).with_output(packed(w, h), stride) == s
        }),
{
    law_packed_size_is_read_back(w, h, stride, d.expect_w, d.expect_h);
}

impl MfDecoder {
    /// A decoder for pictures of the announced size.
    pub fn new(expect_w: u32, expect_h: u32) -> (r: MfDecoder)
        ensures
            r@ == MfDecoderView::start(expect_w, expect_h),
    {
        MfDecoder {
            expect_w,
            expect_h,
            geometry: Geometry { coded_w: 0, coded_h: 0, stride: 0, vis_w: 0, vis_h: 0 },
            pts: 0,
        }
    }

    /// The announced size, in the form that the input type takes it.
    pub fn input_size(&self) -> (r: u64)
        ensures
            r == packed(self@.expect_w, self@.expect_h),
    {
        pack(self.expect_w, self.expect_h)
    }

    /// Takes note of the output type that was settled.
    pub fn on_output_type(&mut self, frame_size: u64, stride: Option<u32>)
        ensures
            final(self)@ == (MfDecoderView {
                geometry: geometry_of(
                    frame_size,
                    stride,
                    old(self)@.expect_w,
                    old(self)@.expect_h,
                ),
                ..old(self)@
            }),
            final(self)@ == old(self)@.with_output(frame_size, stride),
    {
        self.geometry = geometry(frame_size, stride, self.expect_w, self.expect_h);
    }

    /// The layout of the pictures.
    pub fn geometry(&self) -> (r: Geometry)
        ensures
            r == self@.geometry,
    {
        self.geometry
    }

    /// The time of the next access unit. Each takes [`FRAME_TIME`].
    pub fn next_time(&mut self) -> (r: i64)
        requires
            old(self)@.pts + FRAME_TIME <= i64::MAX,
        ensures
            r == old(self)@.pts,
            final(self)@ == (MfDecoderView {
                pts: (old(self)@.pts + FRAME_TIME) as i64,
                ..old(self)@
            }),
            final(self)@ == old(self)@.after_unit(),
    {
        let t: i64 = self.pts;
        self.pts = t + FRAME_TIME;
        t
    }
}

/// `v` as a byte: no less than 0 and no more than 255.
pub open spec fn clamped(v: int) -> u8 {
    if v < 0 {
        0
    } else if v > 255 {
        255
    } else {
        v as u8
    }
}

/// The colour of a pixel, from its luma and its two chroma values: BT.601, limited range.
pub open spec fn rgba_of(y: u8, u: u8, v: u8) -> Seq<u8> {
    let c = y - 16;
    let d = u - 128;
    let e = v - 128;
    seq![
        clamped((298 * c + 409 * e + 128) / 256),
        clamped((298 * c - 100 * d - 208 * e + 128) / 256),
        clamped((298 * c + 516 * d + 128) / 256),
        255,
    ]
}

/// A picture in NV12: rows of luma, and below them rows of chroma pairs at half the resolution.
pub struct Nv12View {
    pub data: Seq<u8>,
    pub stride: int,
    pub coded_h: int,
}

impl Nv12View {
    /// Where the luma of the pixel stands.
    pub open spec fn luma_at(self, x: int, y: int) -> int {
        y * self.stride + x
    }

    /// Where the first chroma value of the pixel stands; the second follows.
    pub open spec fn chroma_at(self, x: int, y: int) -> int {
        self.stride * self.coded_h + (y / 2) * self.stride + (x - x % 2)
    }

    /// The colour of the pixel.
    pub open spec fn pixel(self, x: int, y: int) -> Seq<u8> {
        rgba_of(
            self.data[self.luma_at(x, y)],
            self.data[self.chroma_at(x, y)],
            self.data[self.chroma_at(x, y) + 1],
        )
    }

    /// Whether the picture holds all that its first `vw` columns and `vh` rows show.
    pub open spec fn covers(self, vw: int, vh: int) -> bool {
        &&& self.luma_at(vw - 1, vh - 1) < self.data.len()
        &&& self.chroma_at(vw - 1, vh - 1) + 1 < self.data.len()
    }

    /// The first `n` pixels of the row `y`.
    pub open spec fn row(self, y: int, n: nat) -> Seq<u8>
        decreases n,
    {
        if n == 0 {
            seq![]
        } else {
            self.row(y, (n - 1) as nat) + self.pixel(n - 1, y)
        }
    }

    /// `n` rows of `vw` pixels, from the row `y` on.
    pub open spec fn rows(self, vw: nat, y: int, n: nat) -> Seq<u8>
        decreases n,
    {
        if n == 0 {
            seq![]
        } else {
            self.rows(vw, y, (n - 1) as nat) + self.row(y + n - 1, vw)
        }
    }

    /// The visible part as a frame: none where it is empty, or where the data is too short.
    pub open spec fn frame(self, vw: nat, vh: nat) -> Option<FrameView> {
        if vw == 0 || vh == 0 || self.data.len() < self.stride * self.coded_h + self.stride * (
        self.coded_h / 2) {
            None
        } else {
            Some(
                FrameView { width: vw as u32, height: vh as u32, rgba: self.rows(vw, 0, vh) },
            )
        }
    }
}

/// A part of a picture is covered where the whole is.
proof fn lemma_covers(p: Nv12View, vw: int, vh: int, x: int, y: int)
    requires
        p.stride >= 0,
        p.coded_h >= 0,
        p.covers(vw, vh),
        0 <= x < vw,
        0 <= y < vh,
    ensures
        0 <= y * p.stride <= p.luma_at(x, y) < p.data.len(),
        0 <= p.stride * p.coded_h,
        0 <= (y / 2) * p.stride,
        p.stride * p.coded_h + (y / 2) * p.stride <= p.chroma_at(x, y),
        p.chroma_at(x, y) + 1 < p.data.len(),
{
    let s = p.stride;
    assert(0 <= y * s <= (vh - 1) * s) by (nonlinear_arith)
        requires
            0 <= y <= vh - 1,
            s >= 0,
    ;
    let a = y / 2;
    let b = (vh - 1) / 2;
    assert(0 <= a * s <= b * s) by (nonlinear_arith)
        requires
            0 <= a <= b,
            s >= 0,
    ;
    assert(0 <= s * p.coded_h) by (nonlinear_arith)
        requires
            s >= 0,
            p.coded_h >= 0,
    ;
}

/// `v / 256` as a byte, where that rounds down.
fn channel(v: i32) -> (r: u8)
    ensures
        r == clamped(v as int / 256),
{
    if v < 0 {
        0
    } else if v >= 65536 {
        255
    } else {
        (v / 256) as u8
    }
}

/// Adds the colour of one pixel to `out`.
fn push_pixel(out: &mut Vec<u8>, y: u8, u: u8, v: u8)
    ensures
        final(out)@ == old(out)@ + rgba_of(y, u, v),
{
    let c: i32 = y as i32 - 16;
    let d: i32 = u as i32 - 128;
    let e: i32 = v as i32 - 128;
    out.push(channel(298 * c + 409 * e + 128));
    out.push(channel(298 * c - 100 * d - 208 * e + 128));
    out.push(channel(298 * c + 516 * d + 128));
    out.push(255);
    assert(out@ =~= old(out)@ + rgba_of(y, u, v));
}

/// Converts `count` rows of the visible part, from the row `first` on. Ranges of rows can be
/// converted side by side.
pub fn convert_rows(
    data: &[u8],
    stride: usize,
    coded_h: usize,
    vw: usize,
    vh: usize,
    first: usize,
    count: usize,
) -> (r: Vec<u8>)
    requires
        stride * coded_h <= usize::MAX,
        (Nv12View { data: data@, stride: stride as int, coded_h: coded_h as int }).covers(
            vw as int,
            vh as int,
        ),
        first + count <= vh,
    ensures
        r@ == (Nv12View { data: data@, stride: stride as int, coded_h: coded_h as int }).rows(
            vw as nat,
            first as int,
            count as nat,
        ),
{
    let ghost p = Nv12View { data: data@, stride: stride as int, coded_h: coded_h as int };
    let uv_offset: usize = stride * coded_h;
    let len: usize = data.len();
    let mut out: Vec<u8> = Vec::new();
    let mut i: usize = 0;
    while i < count
        invariant
            p == (Nv12View { data: data@, stride: stride as int, coded_h: coded_h as int }),
            uv_offset == stride * coded_h,
            len == data@.len(),
            p.covers(vw as int, vh as int),
            first + count <= vh,
            i <= count,
            out@ == p.rows(vw as nat, first as int, i as nat),
        decreases count - i,
    {
        let y: usize = first + i;
        let ghost before = out@;
        let mut x: usize = 0;
        assert(out@ =~= before + p.row(y as int, 0));
        while x < vw
            invariant
                p == (Nv12View { data: data@, stride: stride as int, coded_h: coded_h as int }),
                uv_offset == stride * coded_h,
                len == data@.len(),
                p.covers(vw as int, vh as int),
                y < vh,
                x <= vw,
                out@ == before + p.row(y as int, x as nat),
            decreases vw - x,
        {
            proof {
                lemma_covers(p, vw as int, vh as int, x as int, y as int);
            }
            let luma: usize = y * stride + x;
            let chroma: usize = uv_offset + (y / 2) * stride + (x - x % 2);
            let ghost old_out = out@;
            push_pixel(&mut out, data[luma], data[chroma], data[chroma + 1]);
            proof {
                assert(old_out + p.pixel(x as int, y as int) =~= before + (p.row(
                    y as int,
                    x as nat,
                ) + p.pixel(x as int, y as int)));
            }
            x = x + 1;
        }
        i = i + 1;
    }
    out
}

/// Whether `len` bytes of a picture make a frame: there is something to see, and the data is not
/// too short.
pub fn makes_frame(len: usize, stride: usize, coded_h: usize, vw: usize, vh: usize) -> (r: bool)
    requires
        stride * coded_h + stride * (coded_h / 2) <= usize::MAX,
    ensures
        r == (vw > 0 && vh > 0 && len >= stride * coded_h + stride * (coded_h / 2)),
{
    proof {
        let (s, h) = (stride as int, coded_h as int);
        assert(0 <= s * h && 0 <= s * (h / 2)) by (nonlinear_arith)
            requires
                s >= 0,
                h >= 0,
        ;
    }
    vw > 0 && vh > 0 && len >= stride * coded_h + stride * (coded_h / 2)
}

/// Converts the visible part of a picture, its first `vw` columns and `vh` rows.
pub fn nv12_to_rgba(data: &[u8], stride: usize, coded_h: usize, vw: usize, vh: usize) -> (r: Option<
    Frame,
>)
    requires
        vw <= u32::MAX,
        vh <= u32::MAX,
        stride * coded_h + stride * (coded_h / 2) <= usize::MAX,
        vw > 0 && vh > 0 && data@.len() >= stride * coded_h + stride * (coded_h / 2) ==> (
        Nv12View { data: data@, stride: stride as int, coded_h: coded_h as int }).covers(
            vw as int,
            vh as int,
        ),
    ensures
        ({
            let p = Nv12View { data: data@, stride: stride as int, coded_h: coded_h as int };
            match r {
                Some(f) => p.frame(vw as nat, vh as nat) == Some(f@),
                None => p.frame(vw as nat, vh as nat) is None,
            }
        }),
{
    proof {
        let (s, h) = (stride as int, coded_h as int);
        assert(0 <= s * h && 0 <= s * (h / 2)) by (nonlinear_arith)
            requires
                s >= 0,
                h >= 0,
        ;
    }
    if !makes_frame(data.len(), stride, coded_h, vw, vh) {
        return None;
    }
    let rgba = convert_rows(data, stride, coded_h, vw, vh, 0, vh);
    Some(Frame { width: vw as u32, height: vh as u32, rgba })
}

/// A row of `n` pixels takes four bytes for each.
proof fn lemma_row_len(p: Nv12View, y: int, n: nat)
    ensures
        p.row(y, n).len() == 4 * n,
    decreases n,
{
    if n > 0 {
        lemma_row_len(p, y, (n - 1) as nat);
        assert(p.pixel(n - 1, y).len() == 4);
    }
}

/// Pixel `x` of a row stands at `4 * x`.
#[verifier::spinoff_prover]
proof fn lemma_row(p: Nv12View, y: int, n: nat, x: int)
    requires
        0 <= x < n,
    ensures
        p.row(y, n).len() == 4 * n,
        p.row(y, n).subrange(4 * x, 4 * x + 4) == p.pixel(x, y),
    decreases n,
{
    let m = (n - 1) as nat;
    let head = p.row(y, m);
    let last = p.pixel(m as int, y);
    lemma_row_len(p, y, n);
    lemma_row_len(p, y, m);
    assert(p.row(y, n) == head + last);
    if x == m {
        assert((head + last).subrange(4 * x, 4 * x + 4) =~= last);
    } else {
        lemma_row(p, y, m, x);
        assert((head + last).subrange(4 * x, 4 * x + 4) =~= head.subrange(4 * x, 4 * x + 4));
    }
}

/// The pixel in the column `x` of the `r`th row that was converted stands at `4 * (r * vw + x)`,
/// and is that of the row `first + r` of the picture.
pub proof fn law_pixel_position(p: Nv12View, vw: nat, first: int, n: nat, x: int, r: int)
    requires
        0 <= x < vw,
        0 <= r < n,
    ensures
        p.rows(vw, first, n).len() == 4 * (n * vw),
        0 <= 4 * (r * vw + x),
        4 * (r * vw + x) + 4 <= p.rows(vw, first, n).len(),
        p.rows(vw, first, n).subrange(4 * (r * vw + x), 4 * (r * vw + x) + 4) == p.pixel(
            x,
            first + r,
        ),
    decreases n,
{
    lemma_rows_len(p, vw, first, n);
    lemma_rows_len(p, vw, first, (n - 1) as nat);
    lemma_row(p, first + n - 1, vw, x);
    let m = (n - 1) as nat;
    assert(n * vw == m * vw + vw) by (nonlinear_arith)
        requires
            n == m + 1,
    ;
    let at = 4 * (r * vw + x);
    assert(0 <= r * vw) by (nonlinear_arith)
        requires
            r >= 0,
    ;
    let all = p.rows(vw, first, n);
    let head = p.rows(vw, first, m);
    let last = p.row(first + n - 1, vw);
    if r == n - 1 {
        assert(all.subrange(at, at + 4) =~= last.subrange(4 * x, 4 * x + 4));
    } else {
        law_pixel_position(p, vw, first, m, x, r);
        assert(all.subrange(at, at + 4) =~= head.subrange(at, at + 4));
    }
}

/// `n` rows of `vw` pixels take four bytes for each.
proof fn lemma_rows_len(p: Nv12View, vw: nat, first: int, n: nat)
    ensures
        p.rows(vw, first, n).len() == 4 * (n * vw),
    decreases n,
{
    if n > 0 {
        let m = (n - 1) as nat;
        lemma_rows_len(p, vw, first, m);
        lemma_row_len(p, first + n - 1, vw);
        assert(n * vw == m * vw + vw) by (nonlinear_arith)
            requires
                n == m + 1,
        ;
    } else {
        assert(n * vw == 0) by (nonlinear_arith)
            requires
                n == 0,
        ;
    }
}

/// Two ranges of rows that were converted side by side make up the range of both.
pub proof fn law_rows_join(p: Nv12View, vw: nat, first: int, n: nat, m: nat)
    ensures
        p.rows(vw, first, n) + p.rows(vw, first + n, m) == p.rows(vw, first, n + m),
    decreases m,
{
    if m == 0 {
        assert(p.rows(vw, first, n) + seq![] =~= p.rows(vw, first, n));
    } else {
        let k = (m - 1) as nat;
        law_rows_join(p, vw, first, n, k);
        let a = p.rows(vw, first, n);
        let b = p.rows(vw, first + n, k);
        let c = p.row(first + n + m - 1, vw);
        assert(a + (b + c) =~= (a + b) + c);
    }
}

/// A converted frame has the size that was asked for, and holds four bytes for each of its pixels.
pub proof fn law_converted_frame_is_complete(p: Nv12View, vw: nat, vh: nat)
    requires
        vw <= u32::MAX,
        vh <= u32::MAX,
    ensures
        p.frame(vw, vh) matches Some(f) ==> f.complete() && f.width == vw && f.height == vh,
{
    lemma_rows_len(p, vw, 0, vh);
    assert(4 * (vh * vw) == vw * vh * 4) by (nonlinear_arith);
}

/// What is shown of a picture, where the decoder reports this size and row distance and the stream
/// announced this size.
pub open spec fn shown_frame(
    p: Nv12View,
    frame_size: u64,
    stride: Option<u32>,
    expect_w: u32,
    expect_h: u32,
) -> Option<FrameView> {
    let g = geometry_of(frame_size, stride, expect_w, expect_h);
    p.frame(g.vis_w as nat, g.vis_h as nat)
}

/// Whether as much is coded as was announced.
pub open spec fn codes_announced(frame_size: u64, expect_w: u32, expect_h: u32) -> bool {
    let g = geometry_of(frame_size, None, expect_w, expect_h);
    g.coded_w >= larger(expect_w, 1) && g.coded_h >= larger(expect_h, 1)
}

/// What is shown of a picture is complete and no larger than was announced, and exactly as large
/// wherever that much is coded.
pub proof fn law_shown_frame_has_announced_size(
    p: Nv12View,
    frame_size: u64,
    stride: Option<u32>,
    expect_w: u32,
    expect_h: u32,
)
    ensures
        shown_frame(p, frame_size, stride, expect_w, expect_h) matches Some(f) ==> {
            &&& f.complete()
            &&& f.width <= larger(expect_w, 1) && f.height <= larger(expect_h, 1)
            &&& codes_announced(frame_size, expect_w, expect_h) ==> f.width == larger(expect_w, 1)
                && f.height == larger(expect_h, 1)
        },
{
    let g = geometry_of(frame_size, stride, expect_w, expect_h);
    law_padding_is_cut_off(frame_size, stride, expect_w, expect_h);
    law_converted_frame_is_complete(p, g.vis_w as nat, g.vis_h as nat);
}

/// How many workers convert a picture, where so many threads can run at a time: one to eight.
pub open spec fn worker_count(threads: usize) -> int {
    if threads < 1 {
        1
    } else if threads > 8 {
        8
    } else {
        threads as int
    }
}

/// How many rows each worker converts, where the rows are shared out evenly.
pub open spec fn rows_each(vh: usize, threads: usize) -> int {
    let n = worker_count(threads);
    vh as int / n + if vh as int % n == 0 {
        0int
    } else {
        1int
    }
}

/// How many rows each worker converts, where `threads` threads can run at a time.
pub fn rows_per_worker(vh: usize, threads: usize) -> (r: usize)
    ensures
        r == rows_each(vh, threads),
{
    let n: usize = if threads < 1 {
        1
    } else if threads > 8 {
        8
    } else {
        threads
    };
    if vh % n == 0 {
        vh / n
    } else {
        proof {
            let (a, b, q, m) = (vh as int, n as int, vh as int / n as int, vh as int % n as int);
            vstd::arithmetic::div_mod::lemma_fundamental_div_mod(a, b);
            assert(q < a) by (nonlinear_arith)
                requires
                    a == b * q + m,
                    b >= 1,
                    m >= 1,
                    q >= 0,
            ;
        }
        vh / n + 1
    }
}

/// The rows that one worker converts: the first, and how many.
#[derive(Clone, Copy, Debug, PartialEq, Eq, Structural)]
pub struct RowShare {
    pub first: usize,
    pub count: usize,
}

/// Whether the shares follow one another from the row 0 up to the row `vh`, none of them empty.
pub open spec fn shares_cover(shares: Seq<RowShare>, vh: int) -> bool
    decreases shares.len(),
{
    if shares.len() == 0 {
        vh == 0
    } else {
        let last = shares.last();
        last.count > 0 && last.first + last.count == vh && shares_cover(
            shares.drop_last(),
            last.first as int,
        )
    }
}

/// The rows that the workers converted, one share behind the other.
pub open spec fn converted_shares(p: Nv12View, vw: nat, shares: Seq<RowShare>) -> Seq<u8>
    decreases shares.len(),
{
    if shares.len() == 0 {
        seq![]
    } else {
        converted_shares(p, vw, shares.drop_last()) + p.rows(
            vw,
            shares.last().first as int,
            shares.last().count as nat,
        )
    }
}

/// However the rows are shared out, the workers together convert the whole picture.
pub proof fn law_shares_make_the_picture(p: Nv12View, vw: nat, vh: nat, shares: Seq<RowShare>)
    requires
        shares_cover(shares, vh as int),
    ensures
        converted_shares(p, vw, shares) == p.rows(vw, 0, vh),
    decreases shares.len(),
{
    if shares.len() > 0 {
        let last = shares.last();
        law_shares_make_the_picture(p, vw, last.first as nat, shares.drop_last());
        law_rows_join(p, vw, 0, last.first as nat, last.count as nat);
    }
}

/// The shares of the workers, where `threads` threads can run at a time: all of them have as many
/// rows as [`rows_each`] says, but for the last, which may have fewer.
pub fn row_shares(vh: usize, threads: usize) -> (r: Vec<RowShare>)
    ensures
        shares_cover(r@, vh as int),
        r@.len() <= worker_count(threads),
        forall|i: int| 0 <= i < r@.len() - 1 ==> (#[trigger] r@[i]).count == rows_each(vh, threads),
        r@.len() > 0 ==> r@.last().count <= rows_each(vh, threads),
{
    let per: usize = rows_per_worker(vh, threads);
    let ghost n = worker_count(threads);
    proof {
        vstd::arithmetic::div_mod::lemma_fundamental_div_mod(vh as int, n);
        let (a, q, m, k) = (vh as int, vh as int / n, vh as int % n, per as int);
        assert(n * k >= a) by (nonlinear_arith)
            requires
                a == n * q + m,
                0 <= m < n,
                k == q + if m == 0 {
                    0int
                } else {
                    1int
                },
        ;
        assert(a > 0 ==> k > 0) by (nonlinear_arith)
            requires
                n * k >= a,
                n > 0,
        ;
    }
    let mut shares: Vec<RowShare> = Vec::new();
    let mut first: usize = 0;
    while first < vh
        invariant
            first <= vh,
            n == worker_count(threads),
            per == rows_each(vh, threads),
            vh > 0 ==> per > 0,
            n * per >= vh,
            first < vh ==> first == shares@.len() * per,
            shares@.len() <= n,
            shares_cover(shares@, first as int),
            first < vh ==> forall|i: int| 0 <= i < shares@.len() ==> (#[trigger] shares@[i]).count == per,
            forall|i: int| 0 <= i < shares@.len() - 1 ==> (#[trigger] shares@[i]).count == per,
            shares@.len() > 0 ==> shares@.last().count <= per,
        decreases vh - first,
    {
        let left: usize = vh - first;
        let count: usize = if left < per {
            left
        } else {
            per
        };
        let ghost before = shares@;
        shares.push(RowShare { first, count });
        proof {
            assert(shares@.drop_last() =~= before);
            let (len, k) = (before.len() as int, per as int);
            assert(len < n) by (nonlinear_arith)
                requires
                    len * k < vh,
                    n * k >= vh,
                    k > 0,
            ;
            assert((len + 1) * k == len * k + k) by (nonlinear_arith);
        }
        first = first + count;
    }
    shares
}

/// Whether `b` is the byte next to `n / 256`.
pub open spec fn is_nearest(b: u8, n: int) -> bool {
    (b == 0 || 256 * b - 128 <= n) && (b == 255 || n < 256 * b + 128)
}

/// Whether four bytes are the opaque colour that BT.601 gives to this luma and these two chroma
/// values in the limited range, where black is 16 and grey is 128.
pub open spec fn is_colour(px: Seq<u8>, y: u8, u: u8, v: u8) -> bool {
    &&& px.len() == 4
    &&& is_nearest(px[0], 298 * (y - 16) + 409 * (v - 128))
    &&& is_nearest(px[1], 298 * (y - 16) - 100 * (u - 128) - 208 * (v - 128))
    &&& is_nearest(px[2], 298 * (y - 16) + 516 * (u - 128))
    &&& px[3] == 255
}

/// A picture in NV12, from the luma of each pixel and the two chroma values of each block of two
/// by two: the rows of luma, one behind the other, and behind them the rows of pairs.
pub open spec fn written_planes(
    luma: spec_fn(int, int) -> u8,
    pair: spec_fn(int, int) -> (u8, u8),
    stride: nat,
    coded_h: nat,
) -> Seq<u8> {
    Seq::new(
        (stride * coded_h) as nat,
        |i: int| luma(i % (stride as int), i / (stride as int)),
    ) + Seq::new(
        (stride * (coded_h / 2)) as nat,
        |i: int|
            {
                let (x, by) = (i % (stride as int), i / (stride as int));
                if x % 2 == 0 {
                    pair(x / 2, by).0
                } else {
                    pair(x / 2, by).1
                }
            },
    )
}

/// Where the column `x` of the row `y` stands among rows of `stride`.
proof fn lemma_place(x: int, y: int, stride: int, rows: int)
    requires
        0 <= x < stride,
        0 <= y < rows,
    ensures
        0 <= y * stride + x < stride * rows,
        (y * stride + x) % stride == x,
        (y * stride + x) / stride == y,
{
    let i = y * stride + x;
    vstd::arithmetic::div_mod::lemma_fundamental_div_mod_converse(i, stride, y, x);
    assert(0 <= y * stride && y * stride + stride <= stride * rows) by (nonlinear_arith)
        requires
            0 <= y <= rows - 1,
            stride > 0,
    ;
}

/// The colour of a pixel is that of BT.601.
#[verifier::spinoff_prover]
proof fn lemma_colour(y: u8, u: u8, v: u8)
    ensures
        is_colour(rgba_of(y, u, v), y, u, v),
{
}

/// What was written down plane by plane is found again: the luma of each pixel, and the pair of each
/// block.
#[verifier::spinoff_prover]
proof fn lemma_planes(
    luma: spec_fn(int, int) -> u8,
    pair: spec_fn(int, int) -> (u8, u8),
    stride: nat,
    coded_h: nat,
    rest: Seq<u8>,
    x: int,
    y: int,
)
    requires
        0 <= x,
        2 * (x / 2) + 1 < stride,
        0 <= y < 2 * (coded_h / 2),
    ensures
        ({
            let (data, s, h) = (
                written_planes(luma, pair, stride, coded_h) + rest,
                stride as int,
                coded_h as int,
            );
            let at = s * h + (y / 2 * s + 2 * (x / 2));
            &&& data.len() >= s * h + s * (h / 2)
            &&& 0 <= y * s + x < s * h
            &&& data[y * s + x] == luma(x, y)
            &&& s * h <= at && at + 1 < s * h + s * (h / 2)
            &&& data[at] == pair(x / 2, y / 2).0
            &&& data[at + 1] == pair(x / 2, y / 2).1
        }),
{
    let planes = written_planes(luma, pair, stride, coded_h);
    let (s, h, half) = (stride as int, coded_h as int, coded_h as int / 2);
    assert(0 <= s * h && 0 <= s * half) by (nonlinear_arith)
        requires
            s >= 0,
            h >= 0,
            half >= 0,
    ;
    assert(planes.len() == s * h + s * half);
    lemma_place(x, y, s, h);
    let first = 2 * (x / 2);
    let a = y / 2 * s + first;
    lemma_place(first, y / 2, s, half);
    lemma_place(first + 1, y / 2, s, half);
    assert(a + 1 == y / 2 * s + (first + 1));
    assert(first % 2 == 0 && first / 2 == x / 2 && (first + 1) % 2 == 1 && (first + 1) / 2 == x / 2);
}

/// A picture that was written down plane by plane is converted to the colour of each pixel's own
/// luma with the pair of its own block, wherever the pixel stands and whatever follows the planes.
pub proof fn law_blocks_get_their_colours(
    luma: spec_fn(int, int) -> u8,
    pair: spec_fn(int, int) -> (u8, u8),
    stride: nat,
    coded_h: nat,
    rest: Seq<u8>,
    vw: nat,
    vh: nat,
    x: int,
    y: int,
)
    requires
        0 <= x < vw,
        0 <= y < vh,
        vw + vw % 2 <= stride,
        vh <= 2 * (coded_h / 2),
        vw <= u32::MAX,
        vh <= u32::MAX,
    ensures
        ({
            let p = Nv12View {
                data: written_planes(luma, pair, stride, coded_h) + rest,
                stride: stride as int,
                coded_h: coded_h as int,
            };
            let at = 4 * (y * vw + x);
            &&& p.covers(vw as int, vh as int)
            &&& p.frame(vw, vh) matches Some(f) && f.width == vw && f.height == vh && f.rgba.len()
                == 4 * (vh * vw) && 0 <= at && at + 4 <= f.rgba.len() && is_colour(
                f.rgba.subrange(at, at + 4),
                luma(x, y),
                pair(x / 2, y / 2).0,
                pair(x / 2, y / 2).1,
            )
        }),
{
    let p = Nv12View {
        data: written_planes(luma, pair, stride, coded_h) + rest,
        stride: stride as int,
        coded_h: coded_h as int,
    };
    let (wx, wy) = (vw - 1, vh - 1);
    lemma_planes(luma, pair, stride, coded_h, rest, x, y);
    lemma_planes(luma, pair, stride, coded_h, rest, wx, wy);
    lemma_chroma_place(p, x, y);
    lemma_chroma_place(p, wx, wy);
    lemma_colour(luma(x, y), pair(x / 2, y / 2).0, pair(x / 2, y / 2).1);
    law_pixel_position(p, vw, 0, vh, x, y);
}

/// Where the pair of a pixel stands, by the number of its block.
proof fn lemma_chroma_place(p: Nv12View, x: int, y: int)
    ensures
        p.chroma_at(x, y) == p.stride * p.coded_h + (y / 2 * p.stride + 2 * (x / 2)),
        p.luma_at(x, y) == y * p.stride + x,
{
}

/// A row distance is the same up and down: a negative number is taken for its amount.
pub proof fn law_row_distance_has_no_direction(n: u32)
    requires
        0 < n < 0x8000_0000,
    ensures
        row_distance(n) == n,
        row_distance((0x1_0000_0000 - n) as u32) == n,
        row_distance(0) == 0,
{
}

/// The rows are shared out evenly among one to eight workers: so many rows each are enough for all
/// of them, and one less would not be.
pub proof fn law_rows_are_shared_evenly(vh: usize, threads: usize)
    ensures
        1 <= worker_count(threads) <= 8,
        1 <= threads <= 8 ==> worker_count(threads) == threads,
        worker_count(threads) * rows_each(vh, threads) >= vh,
        vh > 0 ==> worker_count(threads) * (rows_each(vh, threads) - 1) < vh,
        vh == 0 ==> rows_each(vh, threads) == 0,
{
    let n = worker_count(threads);
    let (a, q, m, k) = (vh as int, vh as int / n, vh as int % n, rows_each(vh, threads));
    vstd::arithmetic::div_mod::lemma_fundamental_div_mod(a, n);
    assert(n * k >= a && (a > 0 ==> n * (k - 1) < a)) by (nonlinear_arith)
        requires
            n >= 1,
            a >= 0,
            a == n * q + m,
            0 <= m < n,
            k == q + if m == 0 {
                0int
            } else {
                1int
            },
    ;
}

/// A picture makes a frame exactly where there is something to see of it and the data holds all
/// rows of luma and half as many of chroma.
pub proof fn law_short_pictures_make_no_frame(p: Nv12View, vw: nat, vh: nat)
    ensures
        p.frame(vw, vh) is Some <==> vw > 0 && vh > 0 && p.data.len() >= p.stride * p.coded_h
            + p.stride * (p.coded_h / 2),
{
}

} // verus!
