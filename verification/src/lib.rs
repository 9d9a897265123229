//! Integer core of a ball tracker: choosing the largest blob, turning its
//! centre into an offset from the middle of the frame, and pacing playback.

use vstd::prelude::*;

pub mod geometry;
pub mod playback;
pub mod tracker;

verus! {

} // verus!
