use vstd::prelude::*;

use crate::tracker::fits_i32;

verus! {

/// Frames shown per second during playback.
pub const FRAMES_PER_SECOND: i32 = 25;

/// Key code of the Escape key, which stops playback.
pub const ESCAPE_KEY: i32 = 27;

/// A frame read from a stream holds a picture unless it is zero pixels wide,
/// which is how an exhausted stream answers.
pub fn frame_available(width: i32) -> (r: bool)
    ensures
        r == (width != 0),
{
    width != 0
}

/// The key pressed, as the low byte of what the key poll returned, is Escape.
pub fn is_escape(key: i32) -> (r: bool)
    ensures
        r == ((key & 0xff) == ESCAPE_KEY),
{
    (key & 0xff) == ESCAPE_KEY
}

/// Milliseconds that one frame stays on screen.
pub open spec fn frame_time() -> int {
    1000int / FRAMES_PER_SECOND as int
}

/// Keeps frames on a fixed schedule: each frame is due one frame time
/// after the one before it, whatever time the work in between took.
pub struct FramePacer {
    deadline_ms: i32,
}

impl FramePacer {
    /// The time, in milliseconds, at which the last scheduled frame is due.
    pub closed spec fn deadline(self) -> int {
        self.deadline_ms as int
    }

    /// A schedule that starts at `start_ms`.
    pub fn new(start_ms: i32) -> (p: FramePacer)
        ensures
            p.deadline() == start_ms,
    {
        FramePacer { deadline_ms: start_ms }
    }

    /// Whether `next_wait` may be called at `now_ms`: the next deadline and
    /// the wait until it stay in `i32`.
    pub fn wait_in_range(&self, now_ms: i32) -> (r: bool)
        ensures
            r == (fits_i32(self.deadline() + frame_time()) && fits_i32(
                self.deadline() + frame_time() - now_ms,
            )),
    {
        let next = self.deadline_ms as i64 + (1000 / FRAMES_PER_SECOND) as i64;
        let wait = next - now_ms as i64;
        let min = i32::MIN as i64;
        let max = i32::MAX as i64;
        min <= next && next <= max && min <= wait && wait <= max
    }

    /// Schedules the next frame one frame time after the previous one and
    /// returns how many milliseconds remain from `now_ms` until it is due
    /// (zero or less when it is already late).
    pub fn next_wait(&mut self, now_ms: i32) -> (w: i32)
        requires
            fits_i32(old(self).deadline() + frame_time()),
            fits_i32(old(self).deadline() + frame_time() - now_ms),
        ensures
            final(self).deadline() == old(self).deadline() + frame_time(),
            w == final(self).deadline() - now_ms,
    {
        let frame_ms: i32 = 1000 / FRAMES_PER_SECOND;
        self.deadline_ms = self.deadline_ms + frame_ms;
        self.deadline_ms - now_ms
    }
}

/// The frame time is the share of one second that each of the
/// `FRAMES_PER_SECOND` frames gets: twenty-five frames fill a second.
pub proof fn lemma_frames_fill_a_second()
    ensures
        FRAMES_PER_SECOND == 25,
        FRAMES_PER_SECOND * frame_time() == 1000,
{
}

/// Frames stay on a fixed schedule: if the `k`-th frame was due `k` frame
/// times after the start, the one that `next_wait` schedules next is due
/// `k + 1` frame times after it, however late the calls come.
pub proof fn lemma_schedule_is_regular(before: FramePacer, after: FramePacer, start: int, k: nat)
    requires
        before.deadline() == start + k * frame_time(),
        after.deadline() == before.deadline() + frame_time(),
    ensures
        after.deadline() == start + (k + 1) * frame_time(),
{
    let ft = frame_time();
    assert((k + 1) * ft == k * ft + ft) by (nonlinear_arith);
}

} // verus!
