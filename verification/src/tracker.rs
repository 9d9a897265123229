use vstd::prelude::*;

use crate::geometry::Point;

verus! {

/// A blob counts as the ball only when its enclosing circle's radius is
/// larger than this many pixels.
pub const MIN_BALL_RADIUS: i32 = 5;

/// The label is drawn this many pixels above and to the left of the
/// ball's enclosing square.
pub const LABEL_MARGIN: i32 = 10;

/// `x / 2` as Rust computes it on integers: rounded toward zero.
pub open spec fn half(x: int) -> int {
    if x >= 0 {
        x / 2
    } else {
        -((-x) / 2)
    }
}

/// `x` can be held in an `i32`.
pub open spec fn fits_i32(x: int) -> bool {
    i32::MIN <= x <= i32::MAX
}

/// What was measured of the largest blob of the tracked colour.
#[derive(Clone, Copy, Debug, PartialEq, Eq, Structural)]
pub struct Sighting {
    /// The blob's centre of mass.
    pub centroid: Point,
    /// The centre of the smallest circle that encloses the blob.
    pub circle_center: Point,
    /// That circle's radius, rounded toward zero.
    pub radius_down: i32,
    /// That circle's radius, rounded up.
    pub radius_up: i32,
}

/// The blob is large enough to be the ball: its radius exceeds
/// `MIN_BALL_RADIUS` (a real radius exceeds an integer exactly when its
/// rounded-up value does).
pub open spec fn is_ball(s: Sighting) -> bool {
    s.radius_up > MIN_BALL_RADIUS
}

/// The offset of the ball from the middle `(mid_x, mid_y)` of the frame:
/// positive to the right and upward; `(0, 0)` when no ball was seen.
pub open spec fn offsets_for(mid_x: int, mid_y: int, sighting: Option<Sighting>) -> (int, int) {
    match sighting {
        Some(s) => if is_ball(s) {
            (s.centroid.x - mid_x, mid_y - s.centroid.y)
        } else {
            (0, 0)
        },
        None => (0, 0),
    }
}

/// Marks to draw on the frame around a ball.
#[derive(Clone, Copy, Debug, PartialEq, Eq, Structural)]
pub struct Annotation {
    /// Where the label text starts.
    pub label: Point,
    /// Centre of the enclosing circle to outline.
    pub circle_center: Point,
    /// Radius of the enclosing circle to outline.
    pub circle_radius: i32,
    /// Where the dot that marks the centre of mass goes.
    pub centroid: Point,
}

/// The label of a ball goes `LABEL_MARGIN` pixels up and left of the
/// corner of its enclosing square; each step of that sum stays in `i32`.
pub open spec fn label_fits(s: Sighting) -> bool {
    &&& fits_i32(s.centroid.x - s.radius_down)
    &&& fits_i32(s.centroid.x - s.radius_down - LABEL_MARGIN)
    &&& fits_i32(s.centroid.y - s.radius_down)
    &&& fits_i32(s.centroid.y - s.radius_down - LABEL_MARGIN)
}

/// Whether `annotation` may be asked for the marks of `sighting`: the
/// label's position of a ball stays in `i32`.
pub fn label_in_range(sighting: &Sighting) -> (r: bool)
    ensures
        r == (is_ball(*sighting) ==> label_fits(*sighting)),
{
    if sighting.radius_up > MIN_BALL_RADIUS {
        let lx = sighting.centroid.x as i64 - sighting.radius_down as i64;
        let ly = sighting.centroid.y as i64 - sighting.radius_down as i64;
        let margin = LABEL_MARGIN as i64;
        let min = i32::MIN as i64;
        let max = i32::MAX as i64;
        min <= lx && lx <= max && min <= lx - margin && lx - margin <= max && min <= ly && ly
            <= max && min <= ly - margin && ly - margin <= max
    } else {
        true
    }
}

/// The marks for a sighting: `None` unless it is the ball.
pub fn annotation(sighting: &Sighting) -> (a: Option<Annotation>)
    requires
        is_ball(*sighting) ==> label_fits(*sighting),
    ensures
        a is Some <==> is_ball(*sighting),
        a is Some <==> sighting.radius_up > MIN_BALL_RADIUS,
        a matches Some(m) ==> {
            &&& m.label.x == sighting.centroid.x - sighting.radius_down - LABEL_MARGIN
            &&& m.label.y == sighting.centroid.y - sighting.radius_down - LABEL_MARGIN
            &&& m.circle_center == sighting.circle_center
            &&& m.circle_radius == sighting.radius_down
            &&& m.centroid == sighting.centroid
        },
{
    if sighting.radius_up > MIN_BALL_RADIUS {
        let label = Point {
            x: sighting.centroid.x - sighting.radius_down - LABEL_MARGIN,
            y: sighting.centroid.y - sighting.radius_down - LABEL_MARGIN,
        };
        Some(
            Annotation {
                label,
                circle_center: sighting.circle_center,
                circle_radius: sighting.radius_down,
                centroid: sighting.centroid,
            },
        )
    } else {
        None
    }
}

/// The tracking state: the middle of the frame, and the last offset of the
/// ball from it.
pub struct Tracker {
    midx: i32,
    midy: i32,
    xoffset: i32,
    yoffset: i32,
}

impl Tracker {
    /// Horizontal middle of the frame.
    pub closed spec fn mid_x(self) -> int {
        self.midx as int
    }

    /// Vertical middle of the frame.
    pub closed spec fn mid_y(self) -> int {
        self.midy as int
    }

    /// Last horizontal offset reported.
    pub closed spec fn x_offset(self) -> int {
        self.xoffset as int
    }

    /// Last vertical offset reported.
    pub closed spec fn y_offset(self) -> int {
        self.yoffset as int
    }

    /// Both offsets of `sighting` from this tracker's middle stay in `i32`.
    pub open spec fn can_track(self, sighting: Option<Sighting>) -> bool {
        let o = offsets_for(self.mid_x(), self.mid_y(), sighting);
        fits_i32(o.0) && fits_i32(o.1)
    }

    /// Whether `track` may be given `sighting`: both offsets of a ball from
    /// the middle stay in `i32`.
    pub fn offsets_in_range(&self, sighting: &Option<Sighting>) -> (r: bool)
        ensures
            r == self.can_track(*sighting),
    {
        match sighting {
            Some(s) => {
                if s.radius_up > MIN_BALL_RADIUS {
                    let dx = s.centroid.x as i64 - self.midx as i64;
                    let dy = self.midy as i64 - s.centroid.y as i64;
                    let min = i32::MIN as i64;
                    let max = i32::MAX as i64;
                    min <= dx && dx <= max && min <= dy && dy <= max
                } else {
                    true
                }
            },
            None => true,
        }
    }

    /// A tracker for frames of the given size; no ball seen yet.
    pub fn new(height: i32, width: i32) -> (t: Tracker)
        ensures
            t.mid_x() == half(width as int),
            t.mid_y() == half(height as int),
            width >= 0 ==> 2 * t.mid_x() <= width <= 2 * t.mid_x() + 1,
            height >= 0 ==> 2 * t.mid_y() <= height <= 2 * t.mid_y() + 1,
            t.x_offset() == 0,
            t.y_offset() == 0,
    {
        Tracker { midx: width / 2, midy: height / 2, xoffset: 0, yoffset: 0 }
    }

    /// Records and returns the offset of the ball from the middle of the
    /// frame; `(0, 0)` when no blob was found or the largest is too small.
    pub fn track(&mut self, sighting: Option<Sighting>) -> (r: (i32, i32))
        requires
            old(self).can_track(sighting),
        ensures
            r.0 == offsets_for(old(self).mid_x(), old(self).mid_y(), sighting).0,
            r.1 == offsets_for(old(self).mid_x(), old(self).mid_y(), sighting).1,
            final(self).mid_x() == old(self).mid_x(),
            final(self).mid_y() == old(self).mid_y(),
            final(self).x_offset() == r.0,
            final(self).y_offset() == r.1,
    {
        match sighting {
            Some(s) => {
                if s.radius_up > MIN_BALL_RADIUS {
                    self.xoffset = s.centroid.x - self.midx;
                    self.yoffset = self.midy - s.centroid.y;
                } else {
                    self.xoffset = 0;
                    self.yoffset = 0;
                }
            },
            None => {
                self.xoffset = 0;
                self.yoffset = 0;
            },
        }
        (self.xoffset, self.yoffset)
    }
}

/// A ball seen exactly in the middle of the frame is reported with no
/// offset.
pub proof fn lemma_centered_ball_has_no_offset(t: Tracker, s: Sighting)
    requires
        is_ball(s),
        s.centroid.x == t.mid_x(),
        s.centroid.y == t.mid_y(),
    ensures
        offsets_for(t.mid_x(), t.mid_y(), Some(s)) == (0int, 0int),
{
}

/// The offset points from the middle toward the ball: positive to the
/// right of the middle and above it (where `y` is smaller), negative on the
/// other side; and the middle plus the offset gives back where the ball is.
pub proof fn lemma_offset_locates_ball(t: Tracker, s: Sighting)
    requires
        is_ball(s),
    ensures
        ({
            let o = offsets_for(t.mid_x(), t.mid_y(), Some(s));
            &&& (o.0 > 0 <==> s.centroid.x > t.mid_x())
            &&& (o.0 < 0 <==> s.centroid.x < t.mid_x())
            &&& (o.1 > 0 <==> s.centroid.y < t.mid_y())
            &&& (o.1 < 0 <==> s.centroid.y > t.mid_y())
            &&& s.centroid.x == t.mid_x() + o.0
            &&& s.centroid.y == t.mid_y() - o.1
        }),
{
}

/// What `track` reports depends on the middle of the frame and on the
/// sighting alone, never on what was reported before: two trackers of the
/// same frame size answer every sighting alike.
pub proof fn lemma_track_forgets_history(t1: Tracker, t2: Tracker, s: Option<Sighting>)
    requires
        t1.mid_x() == t2.mid_x(),
        t1.mid_y() == t2.mid_y(),
    ensures
        offsets_for(t1.mid_x(), t1.mid_y(), s) == offsets_for(t2.mid_x(), t2.mid_y(), s),
        t1.can_track(s) == t2.can_track(s),
{
}

/// Without a blob, or with one too small to be the ball, the offset is
/// zero, and nothing can overflow.
pub proof fn lemma_no_ball_no_offset(t: Tracker, s: Option<Sighting>)
    requires
        match s {
            Some(b) => !is_ball(b),
            None => true,
        },
    ensures
        offsets_for(t.mid_x(), t.mid_y(), s) == (0int, 0int),
        t.can_track(s),
{
}

/// A blob is the ball exactly when its enclosing circle's radius exceeds
/// five pixels, whatever else was measured of it: its size, where its
/// centre of mass lies, where its enclosing circle lies.
pub proof fn lemma_ball_is_radius_above_five(s: Sighting)
    ensures
        is_ball(s) <==> s.radius_up > 5,
        MIN_BALL_RADIUS == 5,
{
}

/// The offset of a sighting from the middle `(mx, my)`: for any blob whose
/// radius exceeds five pixels it is its centre of mass minus the middle
/// horizontally and the middle minus its centre of mass vertically, for any
/// radius and any enclosing circle; for a smaller blob, or none, it is zero.
pub proof fn lemma_offsets_of_sighting(mx: int, my: int, s: Sighting)
    ensures
        s.radius_up > 5 ==> offsets_for(mx, my, Some(s)) == (s.centroid.x - mx, my - s.centroid.y),
        s.radius_up <= 5 ==> offsets_for(mx, my, Some(s)) == (0int, 0int),
        offsets_for(mx, my, None) == (0int, 0int),
{
}

/// The middle of a frame dimension is that dimension halved and rounded
/// toward zero: twice it is the dimension, or one short of it when the
/// dimension is odd, and a negative dimension mirrors a positive one.
pub proof fn lemma_half_rounds_toward_zero(x: int)
    ensures
        x >= 0 ==> 0 <= x - 2 * half(x) <= 1,
        x <= 0 ==> 0 <= 2 * half(x) - x <= 1,
        half(-x) == -half(x),
        half(2 * x) == x,
{
}

} // verus!
