//! Timeline coordinate mapper: turns real time and beat positions into
//! pixel coordinates under a viewport, and track indices into lane centres.
//!
//! The mapper is pure: a viewport is supplied per query, and the scale is
//! applied linearly, so a duration maps to the same height wherever it sits
//! on the timeline.

use vstd::prelude::*;

use crate::rational::{lemma_mul_assoc, rat_add, rat_eq, rat_fits, rat_le, rat_mul, rat_sub, Rat};
use crate::timing::{time_at_spec, time_query_fits, BpmList};

verus! {

/// The viewport of a timeline query: which real time sits at the reference
/// pixel row, that row's pixel coordinate, and the scale in pixels per
/// second.
#[derive(Clone, Copy, Debug, PartialEq, Eq, Structural)]
pub struct Viewport {
    pub start_time: Rat,
    pub top: Rat,
    pub scale: Rat,
}

impl Viewport {
    /// All three components are well-formed rationals.
    pub open spec fn wf(self) -> bool {
        self.start_time.wf() && self.top.wf() && self.scale.wf()
    }

    /// Build a viewport.
    pub fn new(start_time: Rat, top: Rat, scale: Rat) -> (vp: Viewport)
        ensures
            vp == (Viewport { start_time, top, scale }),
    {
        Viewport { start_time, top, scale }
    }
}

/// Pixel row of real time `t`: the reference row plus the scaled offset
/// from the viewport's start time.
pub open spec fn time_to_y_spec(vp: Viewport, t: (int, int)) -> (int, int) {
    rat_add(vp.top@, rat_mul(rat_sub(t, vp.start_time@), vp.scale@))
}

/// Pixel height of a real-time duration `d`: the duration times the scale.
pub open spec fn duration_to_height_spec(vp: Viewport, d: (int, int)) -> (int, int) {
    rat_mul(d, vp.scale@)
}

/// The intermediate values of a `time_to_y` query fit in 64 bits.
pub open spec fn map_fits(vp: Viewport, t: (int, int)) -> bool {
    rat_fits(rat_sub(t, vp.start_time@)) && rat_fits(rat_mul(rat_sub(t, vp.start_time@), vp.scale@))
        && rat_fits(time_to_y_spec(vp, t))
}

/// Pixel row of real time `t` under viewport `vp`.
pub fn time_to_y(vp: Viewport, t: Rat) -> (y: Rat)
    requires
        vp.wf(),
        t.wf(),
        map_fits(vp, t@),
    ensures
        y@ == time_to_y_spec(vp, t@),
        y.wf(),
{
    vp.top.plus(t.minus(vp.start_time).times(vp.scale))
}

/// Pixel height of duration `d` under viewport `vp`.
pub fn duration_to_height(vp: Viewport, d: Rat) -> (h: Rat)
    requires
        vp.wf(),
        d.wf(),
        rat_fits(duration_to_height_spec(vp, d@)),
    ensures
        h@ == duration_to_height_spec(vp, d@),
        h.wf(),
{
    d.times(vp.scale)
}

/// Pixel row of beat `beat` under viewport `vp`: the beat's real time,
/// mapped by `time_to_y`.
pub fn beat_to_y(list: &BpmList, vp: Viewport, beat: Rat) -> (y: Rat)
    requires
        list.wf(),
        vp.wf(),
        beat.wf(),
        list@.len() > 0,
        rat_le(list@[0].start_beat@, beat@),
        time_query_fits(list@, beat@),
        map_fits(vp, time_at_spec(list@, beat@)),
    ensures
        y@ == time_to_y_spec(vp, time_at_spec(list@, beat@)),
        y.wf(),
{
    let t = list.time_at(beat);
    time_to_y(vp, t)
}

/// Pixel column of the centre of lane `track` out of `lanes` equal lanes
/// spanning `width` pixels from `min_x` (lanes are numbered from 1).
pub fn track_center_x(min_x: Rat, width: Rat, lanes: u32, track: u32) -> (x: Rat)
    requires
        min_x.wf(),
        width.wf(),
        1 <= track <= lanes,
        rat_fits(rat_mul(width@, (2 * track - 1, 2 * lanes as int))),
        rat_fits(rat_add(min_x@, rat_mul(width@, (2 * track - 1, 2 * lanes as int)))),
    ensures
        x@ == rat_add(min_x@, rat_mul(width@, (2 * track - 1, 2 * lanes as int))),
        x.wf(),
{
    let frac = Rat::new(2 * track as i64 - 1, 2 * lanes as i64);
    min_x.plus(width.times(frac))
}

/// Linearity law: scaling a duration scales its height, for any rational
/// factor and any viewport. In particular a doubled duration maps to twice
/// the height.
pub proof fn lemma_duration_to_height_linear(vp: Viewport, k: (int, int), d: (int, int))
    ensures
        rat_eq(
            duration_to_height_spec(vp, rat_mul(k, d)),
            rat_mul(k, duration_to_height_spec(vp, d)),
        ),
{
    lemma_mul_assoc(k, d, vp.scale@);
}

} // verus!
