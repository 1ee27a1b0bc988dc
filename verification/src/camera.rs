//! How the camera of the view of space is moved.
use crate::binary32::{whole_32, HALF_BITS_32};
use crate::binary64::{Real32, ONE_BITS_32};
use crate::inspection_3d::{
    is_box, visible_bounds, Investigation3dScene, Investigation3dState, Position3,
};
use crate::single::{
    halves_and_roots_are_exact, minus, minus_of, plus, plus_of, quotient, quotient_of, times,
    times_of, whole_numbers_are_calculated_exactly,
};
use vstd::prelude::*;

verus! {

/// The camera's distances: 0.25 at least and 10000 at most.
pub const CAMERA_DISTANCE_MIN_BITS: u32 = 0x3e80_0000;

pub const CAMERA_DISTANCE_MAX_BITS: u32 = 0x461c_4000;

/// The camera's steepest angle, 1.52, up and down.
pub const PITCH_MAX_BITS: u32 = 0x3fc2_8f5c;

pub const PITCH_MIN_BITS: u32 = 0xbfc2_8f5c;

/// How far a drag of one point turns the camera: 0.01.
pub const TURN_BITS: u32 = 0x3c23_d70a;

/// How much of its distance a scroll of one point takes the camera: 0.0015.
pub const ZOOM_BITS: u32 = 0x3ac4_9ba6;

/// The largest scroll that is none.
pub const NO_SCROLL_BITS: u32 = 0x3400_0000;

/// The room around a fitted scene: 1.15.
pub const FIT_BITS: u32 = 0x3f93_3333;

pub open spec fn in_reach(distance: Real32) -> Real32 {
    distance.within(
        Real32 { bits: CAMERA_DISTANCE_MIN_BITS },
        Real32 { bits: CAMERA_DISTANCE_MAX_BITS },
    )
}

fn keep_in_reach(distance: Real32) -> (out: Real32)
    ensures
        out == in_reach(distance),
{
    distance.clamped(
        Real32 { bits: CAMERA_DISTANCE_MIN_BITS },
        Real32 { bits: CAMERA_DISTANCE_MAX_BITS },
    )
}

/// The middle between two numbers.
pub open spec fn middle(a: Real32, b: Real32) -> Real32 {
    times_of(plus_of(a, b), Real32 { bits: HALF_BITS_32 })
}

fn find_middle(a: Real32, b: Real32) -> (out: Real32)
    ensures
        out == middle(a, b),
{
    times(plus(a, b), Real32 { bits: HALF_BITS_32 })
}

/// The longest side of a box, and at least one.
pub open spec fn longest_side(low: Position3, high: Position3) -> Real32 {
    minus_of(high.x, low.x).larger_of(minus_of(high.y, low.y)).larger_of(
        minus_of(high.z, low.z),
    ).larger_of(Real32 { bits: ONE_BITS_32 })
}

/// The distance from which a box is in sight. `tangent` is that of half the
/// angle of view.
pub open spec fn fitting_distance(low: Position3, high: Position3, tangent: Real32) -> Real32 {
    let half = times_of(longest_side(low, high), Real32 { bits: HALF_BITS_32 }).larger_of(
        Real32 { bits: ONE_BITS_32 },
    );
    in_reach(times_of(quotient_of(half, tangent), Real32 { bits: FIT_BITS }))
}

impl Investigation3dState {
    /// Moves the camera so that all visible points are in sight. `tangent` is
    /// that of half the angle of view.
    pub fn fit_to_scene(&mut self, scene: &Investigation3dScene, tangent: Real32)
        ensures
            scene.visible_points().len() == 0 ==> *final(self) == *old(self),
            scene.visible_points().len() > 0 ==> exists|low: Position3, high: Position3| #[trigger]
                is_box(scene.visible_points(), low, high) && *final(self) == (Investigation3dState {
                    target: Position3 {
                        x: middle(low.x, high.x),
                        y: middle(low.y, high.y),
                        z: middle(low.z, high.z),
                    },
                    distance: fitting_distance(low, high, tangent),
                    ..*old(self)
                }),
    {
        let (low, high) = match visible_bounds(scene) {
            Some(bounds) => bounds,
            None => return ,
        };
        let one = Real32 { bits: ONE_BITS_32 };
        let side = minus(high.x, low.x).larger(minus(high.y, low.y)).larger(
            minus(high.z, low.z),
        ).larger(one);
        let half = times(side, Real32 { bits: HALF_BITS_32 }).larger(one);
        self.target = Position3 {
            x: find_middle(low.x, high.x),
            y: find_middle(low.y, high.y),
            z: find_middle(low.z, high.z),
        };
        self.distance = keep_in_reach(
            times(quotient(half, tangent), Real32 { bits: FIT_BITS }),
        );
        assert(is_box(scene.visible_points(), low, high));
    }

    /// Turns the camera round its target.
    pub fn orbit(&mut self, right: Real32, down: Real32)
        ensures
            *final(self) == (Investigation3dState {
                yaw: minus_of(old(self).yaw, times_of(right, Real32 { bits: TURN_BITS })),
                pitch: plus_of(
                    old(self).pitch,
                    times_of(down, Real32 { bits: TURN_BITS }),
                ).within(Real32 { bits: PITCH_MIN_BITS }, Real32 { bits: PITCH_MAX_BITS }),
                ..*old(self)
            }),
    {
        let turn = Real32 { bits: TURN_BITS };
        self.yaw = minus(self.yaw, times(right, turn));
        self.pitch = plus(self.pitch, times(down, turn)).clamped(
            Real32 { bits: PITCH_MIN_BITS },
            Real32 { bits: PITCH_MAX_BITS },
        );
    }

    /// Moves the camera towards its target or away from it.
    pub fn apply_zoom(&mut self, scroll_delta: Real32)
        ensures
            scroll_delta.magnitude() <= NO_SCROLL_BITS ==> *final(self) == *old(self),
            scroll_delta.magnitude() > NO_SCROLL_BITS ==> *final(self) == (Investigation3dState {
                distance: in_reach(
                    times_of(
                        old(self).distance,
                        minus_of(
                            Real32 { bits: ONE_BITS_32 },
                            times_of(scroll_delta, Real32 { bits: ZOOM_BITS }),
                        ),
                    ),
                ),
                ..*old(self)
            }),
    {
        let magnitude: u32 = if scroll_delta.bits >= 0x8000_0000 {
            scroll_delta.bits - 0x8000_0000
        } else {
            scroll_delta.bits
        };
        if magnitude <= NO_SCROLL_BITS {
            return ;
        }
        let step = times(scroll_delta, Real32 { bits: ZOOM_BITS });
        self.distance = keep_in_reach(
            times(self.distance, minus(Real32 { bits: ONE_BITS_32 }, step)),
        );
    }
}

// ---------------------------------------------------------------------------
// Laws
// ---------------------------------------------------------------------------
/// The middle between two whole numbers is the number between them.
pub proof fn middles_lie_halfway(a: nat, b: nat, n: nat)
    requires
        a + b == 2 * n,
        a + b < 0x100_0000,
    ensures
        middle(whole_32(a), whole_32(b)) == whole_32(n),
{
    whole_numbers_are_calculated_exactly(a, b);
    halves_and_roots_are_exact(n);
}

/// The camera stays between a quarter and ten thousand away.
pub proof fn cameras_stay_in_reach(distance: Real32)
    requires
        !distance.is_nan(),
    ensures
        (Real32 { bits: 0x3e80_0000 }).le(in_reach(distance)),
        in_reach(distance).le(Real32 { bits: 0x461c_4000 }),
        (Real32 { bits: 0x3e80_0000 }).le(distance) && distance.le(Real32 { bits: 0x461c_4000 })
            ==> in_reach(distance) == distance,
{
}

/// No side of a box is longer than its longest one, which is one at least.
pub proof fn longest_sides_bound_the_others(low: Position3, high: Position3)
    ensures
        ({
            let longest = longest_side(low, high);
            let (x, y, z) = (
                minus_of(high.x, low.x),
                minus_of(high.y, low.y),
                minus_of(high.z, low.z),
            );
            &&& (Real32 { bits: ONE_BITS_32 }).le(longest)
            &&& !x.is_nan() ==> x.le(longest)
            &&& !y.is_nan() ==> y.le(longest)
            &&& !z.is_nan() ==> z.le(longest)
            &&& longest == x || longest == y || longest == z || longest.bits == ONE_BITS_32
        }),
{
}

/// A box is fitted from a distance within reach.
pub proof fn fitted_boxes_are_in_reach(low: Position3, high: Position3, tangent: Real32)
    ensures
        !fitting_distance(low, high, tangent).is_nan() ==> (Real32 { bits: 0x3e80_0000 }).le(
            fitting_distance(low, high, tangent),
        ) && fitting_distance(low, high, tangent).le(Real32 { bits: 0x461c_4000 }),
{
}

} // verus!
