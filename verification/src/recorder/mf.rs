//! Recording through the Media Foundation sink writer: the time of each sample, and the numbers
//! of its media types.
use crate::recorder::{asked_or, DEFAULT_FPS};
use crate::text;
use vstd::prelude::*;

verus! {

/// The bit rate that is noted for a stream that is copied.
pub const COPY_BITRATE: u32 = 16_000_000;

/// The time of each sample of a clip, in units of 100 ns. The first is at 0, and each is later
/// than the one before.
#[derive(Clone, Copy, Debug, PartialEq, Eq, Structural)]
pub struct Timeline {
    fps: u32,
    base: Option<i64>,
    prev: i64,
    frames: u64,
}

/// The state of a [`Timeline`].
pub struct TimelineView {
    pub fps: u32,
    /// The time of the first sample on the stream's clock.
    pub base: Option<int>,
    /// The time of the sample before.
    pub prev: int,
    pub frames: nat,
}

impl View for Timeline {
    type V = TimelineView;

    closed spec fn view(&self) -> TimelineView {
        TimelineView {
            fps: self.fps,
            base: match self.base {
                Some(b) => Some(b as int),
                None => None,
            },
            prev: self.prev as int,
            frames: self.frames as nat,
        }
    }
}

/// The time that one sample takes at this frame rate.
pub open spec fn nominal_time(fps: u32) -> int {
    if fps as int <= 10_000_000 {
        10_000_000int / fps as int
    } else {
        1
    }
}

impl TimelineView {
    /// The clip before its first sample.
    pub open spec fn start(fps_hint: u32) -> TimelineView {
        TimelineView {
            fps: asked_or(fps_hint, DEFAULT_FPS),
            base: None,
            prev: 0,
            frames: 0,
        }
    }

    /// Whether the state can come about.
    pub open spec fn sound(self) -> bool {
        &&& self.fps > 0
        &&& 0 <= self.prev <= i64::MAX
        &&& self.base is None ==> self.frames == 0
        &&& self.base matches Some(b) ==> 0 <= b <= i64::MAX
    }

    /// The time of a sample that the stream's clock puts at `pts_us` microseconds: counted from
    /// the first sample on, and moved behind the sample before where it is not later.
    pub open spec fn stamp(self, pts_us: int) -> int {
        let base = match self.base {
            Some(b) => b,
            None => pts_us * 10,
        };
        let t = if pts_us * 10 > base {
            pts_us * 10 - base
        } else {
            0
        };
        if self.frames > 0 && t <= self.prev {
            self.prev + nominal_time(self.fps)
        } else {
            t
        }
    }

    /// The state once that sample was stamped.
    pub open spec fn after(self, pts_us: int) -> TimelineView {
        TimelineView {
            fps: self.fps,
            base: match self.base {
                Some(b) => Some(b),
                None => Some(pts_us * 10),
            },
            prev: self.stamp(pts_us),
            frames: self.frames + 1,
        }
    }

    /// The times of a sequence of samples.
    pub open spec fn stamps(self, pts: Seq<int>) -> Seq<int>
        decreases pts.len(),
    {
        if pts.len() == 0 {
            seq![]
        } else {
            seq![self.stamp(pts[0])] + self.after(pts[0]).stamps(pts.drop_first())
        }
    }
}

/// A sample takes some time.
proof fn lemma_nominal(fps: u32)
    requires
        fps > 0,
    ensures
        1 <= nominal_time(fps) <= 10_000_000,
{
    let n = fps as int;
    if n <= 10_000_000 {
        assert(1 <= 10_000_000int / n <= 10_000_000) by (nonlinear_arith)
            requires
                1 <= n <= 10_000_000,
        ;
    }
}

/// Each sample of a clip is later than the one before, however the stream's clock runs.
pub proof fn law_times_increase(t: TimelineView, pts: Seq<int>)
    requires
        t.sound(),
    ensures
        t.stamps(pts).len() == pts.len(),
        forall|i: int|
            0 <= i < pts.len() && t.frames > 0 ==> t.prev < #[trigger] t.stamps(pts)[i],
        forall|i: int, j: int|
            0 <= i < j < pts.len() ==> #[trigger] t.stamps(pts)[i] < #[trigger] t.stamps(pts)[j],
    decreases pts.len(),
{
    if pts.len() > 0 {
        lemma_nominal(t.fps);
        let p = pts[0];
        let next = t.after(p);
        let rest = pts.drop_first();
        lemma_increase(next, rest);
        let s = t.stamps(pts);
        assert forall|i: int| 0 < i < pts.len() implies s[i] == next.stamps(rest)[i - 1] by {}
        assert forall|i: int, j: int| 0 <= i < j < pts.len() implies #[trigger] s[i]
            < #[trigger] s[j] by {
            assert(s[j] == next.stamps(rest)[j - 1]);
            if i > 0 {
                assert(s[i] == next.stamps(rest)[i - 1]);
            }
        }
        assert forall|i: int| 0 <= i < pts.len() && t.frames > 0 implies t.prev
            < #[trigger] s[i] by {
            if i > 0 {
                assert(s[i] == next.stamps(rest)[i - 1]);
            }
        }
    }
}

/// The times that follow a sample are later than it, and each is later than the one before.
proof fn lemma_increase(t: TimelineView, pts: Seq<int>)
    requires
        t.fps > 0,
        t.frames > 0,
    ensures
        t.stamps(pts).len() == pts.len(),
        forall|i: int| 0 <= i < pts.len() ==> t.prev < #[trigger] t.stamps(pts)[i],
        forall|i: int, j: int|
            0 <= i < j < pts.len() ==> #[trigger] t.stamps(pts)[i] < #[trigger] t.stamps(pts)[j],
    decreases pts.len(),
{
    if pts.len() > 0 {
        lemma_nominal(t.fps);
        let next = t.after(pts[0]);
        let rest = pts.drop_first();
        lemma_increase(next, rest);
        let s = t.stamps(pts);
        assert forall|i: int| 0 <= i < pts.len() implies t.prev < #[trigger] s[i] by {
            if i > 0 {
                assert(s[i] == next.stamps(rest)[i - 1]);
            }
        }
        assert forall|i: int, j: int| 0 <= i < j < pts.len() implies #[trigger] s[i]
            < #[trigger] s[j] by {
            assert(s[j] == next.stamps(rest)[j - 1]);
            if i > 0 {
                assert(s[i] == next.stamps(rest)[i - 1]);
            }
        }
    }
}

/// The times of a whole clip. The first sample is at 0. Every other one is as far from it as the
/// stream's clock says where that is later than the sample before, and else one frame time behind
/// that sample. Each is later than the one before.
pub proof fn law_times_of_a_clip(fps_hint: u32, pts: Seq<int>)
    ensures
        ({
            let s = TimelineView::start(fps_hint).stamps(pts);
            let fps = if fps_hint > 0 {
                fps_hint as int
            } else {
                DEFAULT_FPS as int
            };
            let frame_time = if 10_000_000int / fps >= 1 {
                10_000_000int / fps
            } else {
                1
            };
            &&& s.len() == pts.len()
            &&& TimelineView::start(fps_hint).prev == 0
            &&& pts.len() > 0 ==> s[0] == 0
            &&& forall|i: int|
                0 < i < pts.len() ==> #[trigger] s[i] == {
                    let d = since_first(pts, i);
                    if d > s[i - 1] {
                        d
                    } else {
                        s[i - 1] + frame_time
                    }
                }
            &&& forall|i: int, j: int|
                0 <= i < j < pts.len() ==> #[trigger] s[i] < #[trigger] s[j]
        }),
{
    let t = TimelineView::start(fps_hint);
    let fps = t.fps as int;
    assert(nominal_time(t.fps) == if 10_000_000int / fps >= 1 {
        10_000_000int / fps
    } else {
        1
    }) by {
        if fps > 10_000_000 {
            assert(10_000_000int / fps < 1) by (nonlinear_arith)
                requires
                    fps > 10_000_000,
            ;
        } else {
            assert(10_000_000int / fps >= 1) by (nonlinear_arith)
                requires
                    0 < fps <= 10_000_000,
            ;
        }
    }
    law_times_increase(t, pts);
    assert forall|i: int| 0 < i < pts.len() implies #[trigger] t.stamps(pts)[i] == {
        let d = since_first(pts, i);
        if d > t.stamps(pts)[i - 1] {
            d
        } else {
            t.stamps(pts)[i - 1] + nominal_time(t.fps)
        }
    } by {
        lemma_next_stamp(t.after(pts[0]), pts.drop_first(), i - 1);
        let rest = t.after(pts[0]).stamps(pts.drop_first());
        assert(t.stamps(pts)[i] == rest[i - 1]);
        if i > 1 {
            assert(t.stamps(pts)[i - 1] == rest[i - 2]);
        }
    }
}

/// How far the stream's clock puts the sample `i` behind the first, or 0 where it runs back.
pub open spec fn since_first(pts: Seq<int>, i: int) -> int {
    if pts[i] > pts[0] {
        (pts[i] - pts[0]) * 10
    } else {
        0
    }
}

/// The time of each sample behind the first, from that of the one before.
proof fn lemma_next_stamp(t: TimelineView, pts: Seq<int>, i: int)
    requires
        t.frames > 0,
        t.base is Some,
        0 <= i < pts.len(),
    ensures
        t.stamps(pts).len() == pts.len(),
        ({
            let before = if i == 0 {
                t.prev
            } else {
                t.stamps(pts)[i - 1]
            };
            let d = if pts[i] * 10 > t.base->0 {
                pts[i] * 10 - t.base->0
            } else {
                0
            };
            t.stamps(pts)[i] == if d > before {
                d
            } else {
                before + nominal_time(t.fps)
            }
        }),
    decreases pts.len(),
{
    let next = t.after(pts[0]);
    let rest = pts.drop_first();
    if rest.len() > 0 {
        lemma_next_stamp(next, rest, if i > 0 {
            i - 1
        } else {
            0
        });
    } else {
        assert(next.stamps(rest) =~= seq![]);
    }
    if i > 0 {
        assert(t.stamps(pts)[i] == next.stamps(rest)[i - 1]);
        if i > 1 {
            assert(t.stamps(pts)[i - 1] == next.stamps(rest)[i - 2]);
        }
    }
}

/// Where the stream's clock runs forward, a clip keeps its times, counted from the first sample
/// on.
pub proof fn law_forward_times_are_kept(fps_hint: u32, pts: Seq<int>)
    requires
        forall|i: int, j: int| 0 <= i < j < pts.len() ==> #[trigger] pts[i] < #[trigger] pts[j],
    ensures
        TimelineView::start(fps_hint).stamps(pts).len() == pts.len(),
        forall|i: int|
            0 <= i < pts.len() ==> #[trigger] TimelineView::start(fps_hint).stamps(pts)[i] == (
            pts[i] - pts[0]) * 10,
{
    if pts.len() > 0 {
        let t = TimelineView::start(fps_hint);
        let first = pts[0];
        let rest = pts.drop_first();
        assert forall|i: int, j: int| 0 <= i < j < rest.len() implies #[trigger] rest[i]
            < #[trigger] rest[j] by {
            assert(pts[i + 1] < pts[j + 1]);
        }
        assert forall|i: int| 0 <= i < rest.len() implies first < #[trigger] rest[i] by {
            assert(pts[0] < pts[i + 1]);
        }
        lemma_kept(t.after(first), rest, first);
        let s = t.stamps(pts);
        assert forall|i: int| 0 <= i < pts.len() implies #[trigger] s[i] == (pts[i] - pts[0])
            * 10 by {
            if i > 0 {
                assert(s[i] == t.after(first).stamps(rest)[i - 1]);
                assert(rest[i - 1] == pts[i]);
            }
        }
    }
}

/// The times that follow are kept.
proof fn lemma_kept(t: TimelineView, pts: Seq<int>, first: int)
    requires
        t.frames > 0,
        t.base == Some(first * 10),
        0 <= t.prev,
        forall|i: int|
            0 <= i < pts.len() ==> first < #[trigger] pts[i] && t.prev < (pts[i] - first) * 10,
        forall|i: int, j: int| 0 <= i < j < pts.len() ==> #[trigger] pts[i] < #[trigger] pts[j],
    ensures
        t.stamps(pts).len() == pts.len(),
        forall|i: int|
            0 <= i < pts.len() ==> #[trigger] t.stamps(pts)[i] == (pts[i] - first) * 10,
    decreases pts.len(),
{
    if pts.len() > 0 {
        let next = t.after(pts[0]);
        let rest = pts.drop_first();
        assert forall|i: int| 0 <= i < rest.len() implies first < #[trigger] rest[i] && next.prev
            < (rest[i] - first) * 10 by {
            assert(pts[0] < pts[i + 1]);
            assert(rest[i] == pts[i + 1]);
        }
        assert forall|i: int, j: int| 0 <= i < j < rest.len() implies #[trigger] rest[i]
            < #[trigger] rest[j] by {
            assert(pts[i + 1] < pts[j + 1]);
        }
        lemma_kept(next, rest, first);
        let s = t.stamps(pts);
        assert forall|i: int| 0 <= i < pts.len() implies #[trigger] s[i] == (pts[i] - first)
            * 10 by {
            if i > 0 {
                assert(s[i] == next.stamps(rest)[i - 1]);
                assert(rest[i - 1] == pts[i]);
            }
        }
    }
}

impl Timeline {
    /// A clip before its first sample.
    pub fn new(fps_hint: u32) -> (r: Timeline)
        ensures
            r@ == TimelineView::start(fps_hint),
            r@.sound(),
    {
        Timeline {
            fps: if fps_hint > 0 {
                fps_hint
            } else {
                DEFAULT_FPS
            },
            base: None,
            prev: 0,
            frames: 0,
        }
    }

    /// The frame rate of the clip.
    pub fn fps(&self) -> (r: u32)
        ensures
            r == self@.fps,
    {
        self.fps
    }

    /// The time that one sample takes.
    pub fn nominal(&self) -> (r: i64)
        requires
            self@.sound(),
        ensures
            r == nominal_time(self@.fps),
            1 <= r <= 10_000_000,
    {
        proof {
            lemma_nominal(self.fps);
        }
        if self.fps <= 10_000_000 {
            10_000_000 / self.fps as i64
        } else {
            1
        }
    }

    /// The time of a sample that the stream's clock puts at `pts_us` microseconds.
    pub fn stamp(&mut self, pts_us: u64) -> (r: i64)
        requires
            old(self)@.sound(),
            pts_us * 10 <= i64::MAX,
            old(self)@.prev + nominal_time(old(self)@.fps) <= i64::MAX,
            old(self)@.frames < u64::MAX,
        ensures
            r == old(self)@.stamp(pts_us as int),
            final(self)@ == old(self)@.after(pts_us as int),
            final(self)@.sound(),
    {
        let pts: i64 = pts_us as i64 * 10;
        let base: i64 = match self.base {
            Some(b) => b,
            None => pts,
        };
        let nominal: i64 = self.nominal();
        let mut t: i64 = if pts > base {
            pts - base
        } else {
            0
        };
        if self.frames > 0 && t <= self.prev {
            t = self.prev + nominal;
        }
        self.base = Some(base);
        self.prev = t;
        self.frames = self.frames + 1;
        t
    }

    /// The time of the sample before.
    pub fn prev(&self) -> (r: i64)
        ensures
            r == self@.prev,
    {
        self.prev
    }
}

/// The bytes of one picture of this size, or an error where the buffer is shorter.
pub fn picture_bytes(width: u32, height: u32, have: usize) -> (r: Result<usize, String>)
    requires
        width * height * 4 <= u32::MAX,
    ensures
        match r {
            Ok(n) => n == width * height * 4 && n <= have,
            Err(e) => have < width * height * 4 && e@ == "frame buffer too small: "@
                + text::decimal(have as nat) + " < "@ + text::decimal(
                (width * height * 4) as nat,
            ),
        },
{
    proof {
        let (a, b) = (width as int, height as int);
        assert(0 <= a * b) by (nonlinear_arith)
            requires
                a >= 0,
                b >= 0,
        ;
    }
    let need: usize = (width * height * 4) as usize;
    if have < need {
        let mut e = "frame buffer too small: ".to_string();
        e.append(text::dec(have as u64).as_str());
        e.append(" < ");
        e.append(text::dec(need as u64).as_str());
        return Err(e);
    }
    Ok(need)
}

} // verus!
