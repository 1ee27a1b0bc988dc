//! The view of space: its scene, its camera presets, the choice of the point
//! under the pointer, and the texts around it.
use crate::analysis_runs::{join_texts, joined, texts_of};
use crate::binary64::Real32;
use crate::rows::StableRowKey;
use crate::text::{decimal, push_decimal};
use crate::single::{plus, plus_of};
use crate::whole_text::{push_rounded_32, push_tenths_32, rounded_text_32, tenths_text_32};
use vstd::arithmetic::power2::{lemma2_to64, lemma_pow2_unfold, pow2};
use vstd::prelude::*;

verus! {

/// A position in space.
#[derive(Debug, Clone, Copy, PartialEq, Eq, Structural)]
pub struct Position3 {
    pub x: Real32,
    pub y: Real32,
    pub z: Real32,
}

#[derive(Debug)]
pub struct Investigation3dPoint {
    pub position: Position3,
    pub color: [u8; 4],
    pub size: Real32,
    pub item_key: Option<StableRowKey>,
    pub label: String,
}

#[derive(Debug)]
pub struct Investigation3dLayer {
    pub id: String,
    pub title: String,
    pub visible: bool,
    pub points: Vec<Investigation3dPoint>,
}

/// A box around the part of the scene that is in focus.
#[derive(Debug)]
pub struct Investigation3dFocusVolume {
    pub min: Position3,
    pub max: Position3,
    pub label: String,
    pub color: [u8; 4],
}

#[derive(Debug)]
pub struct Investigation3dScene {
    pub layers: Vec<Investigation3dLayer>,
    pub focus_volume: Option<Investigation3dFocusVolume>,
}

/// The points of the layers in order; of the visible ones only, where it is
/// asked for.
pub open spec fn points_of(layers: Seq<Investigation3dLayer>, visible_only: bool) -> Seq<
    Investigation3dPoint,
>
    decreases layers.len(),
{
    if layers.len() == 0 {
        seq![]
    } else {
        let before = points_of(layers.drop_last(), visible_only);
        if visible_only && !layers.last().visible {
            before
        } else {
            before + layers.last().points@
        }
    }
}

/// The titles of the visible layers, in order.
pub open spec fn visible_titles(layers: Seq<Investigation3dLayer>) -> Seq<Seq<char>>
    decreases layers.len(),
{
    if layers.len() == 0 {
        seq![]
    } else {
        let before = visible_titles(layers.drop_last());
        if layers.last().visible {
            before.push(layers.last().title@)
        } else {
            before
        }
    }
}

/// The two texts of an optional key.
pub open spec fn key_pair(key: Option<StableRowKey>) -> Option<(Seq<char>, Seq<char>)> {
    match key {
        Some(k) => Some(k.pair()),
        None => None,
    }
}

/// Whether the first point with a key stands at `i`.
pub open spec fn first_with_key(
    points: Seq<Investigation3dPoint>,
    key: (Seq<char>, Seq<char>),
    i: int,
) -> bool {
    &&& 0 <= i < points.len()
    &&& key_pair(points[i].item_key) == Some(key)
    &&& forall|k: int| 0 <= k < i ==> key_pair((#[trigger] points[k]).item_key) != Some(key)
}

pub open spec fn no_point_with_key(
    points: Seq<Investigation3dPoint>,
    key: (Seq<char>, Seq<char>),
) -> bool {
    forall|k: int| 0 <= k < points.len() ==> key_pair((#[trigger] points[k]).item_key) != Some(key)
}

fn has_key(point: &Investigation3dPoint, key: &StableRowKey) -> (out: bool)
    ensures
        out == (key_pair(point.item_key) == Some(key.pair())),
{
    match &point.item_key {
        Some(own) => own.same_key(key),
        None => false,
    }
}

impl Investigation3dScene {
    pub open spec fn visible_points(self) -> Seq<Investigation3dPoint> {
        points_of(self.layers@, true)
    }

    pub open spec fn all_points(self) -> Seq<Investigation3dPoint> {
        points_of(self.layers@, false)
    }

    /// Whether no visible layer has a point.
    pub fn is_empty(&self) -> (out: bool)
        ensures
            out == (self.visible_points().len() == 0),
    {
        let mut i: usize = 0;
        assert(self.layers@.take(0) =~= Seq::<Investigation3dLayer>::empty());
        while i < self.layers.len()
            invariant
                i <= self.layers@.len(),
                points_of(self.layers@.take(i as int), true).len() == 0,
            decreases self.layers@.len() - i,
        {
            assert(self.layers@.take(i + 1).drop_last() =~= self.layers@.take(i as int));
            if self.layers[i].visible && self.layers[i].points.len() > 0 {
                proof {
                    more_layers_more_points(self.layers@, i + 1, true);
                }
                return false;
            }
            i = i + 1;
        }
        assert(self.layers@.take(self.layers@.len() as int) =~= self.layers@);
        true
    }

    /// The number of points in the visible layers.
    pub fn visible_point_count(&self) -> (out: usize)
        requires
            self.visible_points().len() <= usize::MAX,
        ensures
            out == self.visible_points().len(),
    {
        let mut count: usize = 0;
        let mut i: usize = 0;
        assert(self.layers@.take(0) =~= Seq::<Investigation3dLayer>::empty());
        while i < self.layers.len()
            invariant
                i <= self.layers@.len(),
                self.visible_points().len() <= usize::MAX,
                count == points_of(self.layers@.take(i as int), true).len(),
            decreases self.layers@.len() - i,
        {
            proof {
                assert(self.layers@.take(i + 1).drop_last() =~= self.layers@.take(i as int));
                more_layers_more_points(self.layers@, i + 1, true);
            }
            if self.layers[i].visible {
                count = count + self.layers[i].points.len();
            }
            i = i + 1;
        }
        assert(self.layers@.take(self.layers@.len() as int) =~= self.layers@);
        count
    }

    fn find_point(&self, key: &StableRowKey, visible_only: bool) -> (out: Option<Position3>)
        ensures
            match out {
                Some(position) => exists|i: int| #[trigger]
                    first_with_key(points_of(self.layers@, visible_only), key.pair(), i)
                        && points_of(self.layers@, visible_only)[i].position == position,
                None => no_point_with_key(points_of(self.layers@, visible_only), key.pair()),
            },
    {
        let ghost all = points_of(self.layers@, visible_only);
        let mut i: usize = 0;
        assert(self.layers@.take(0) =~= Seq::<Investigation3dLayer>::empty());
        while i < self.layers.len()
            invariant
                i <= self.layers@.len(),
                all == points_of(self.layers@, visible_only),
                no_point_with_key(
                    points_of(self.layers@.take(i as int), visible_only),
                    key.pair(),
                ),
            decreases self.layers@.len() - i,
        {
            let ghost before = points_of(self.layers@.take(i as int), visible_only);
            let ghost after = points_of(self.layers@.take(i + 1), visible_only);
            proof {
                assert(self.layers@.take(i + 1).drop_last() =~= self.layers@.take(i as int));
                more_layers_more_points(self.layers@, i + 1, visible_only);
            }
            if self.layers[i].visible || !visible_only {
                let mut j: usize = 0;
                while j < self.layers[i].points.len()
                    invariant
                        i < self.layers@.len(),
                        j <= self.layers@[i as int].points@.len(),
                        all == points_of(self.layers@, visible_only),
                        after == before + self.layers@[i as int].points@,
                        after.len() <= all.len(),
                        after == all.take(after.len() as int),
                        no_point_with_key(before, key.pair()),
                        forall|k: int|
                            0 <= k < j ==> key_pair(
                                (#[trigger] self.layers@[i as int].points@[k]).item_key,
                            ) != Some(key.pair()),
                    decreases self.layers@[i as int].points@.len() - j,
                {
                    if has_key(&self.layers[i].points[j], key) {
                        let ghost at = before.len() + j;
                        proof {
                            assert forall|k: int| 0 <= k < at implies key_pair(
                                (#[trigger] all[k]).item_key,
                            ) != Some(key.pair()) by {
                                assert(all[k] == after[k]);
                                if k < before.len() {
                                    assert(after[k] == before[k]);
                                } else {
                                    assert(after[k] == self.layers@[i as int].points@[k
                                        - before.len()]);
                                }
                            }
                            assert(all[at] == after[at]);
                            assert(first_with_key(all, key.pair(), at));
                        }
                        return Some(self.layers[i].points[j].position);
                    }
                    j = j + 1;
                }
                assert forall|k: int| 0 <= k < after.len() implies key_pair(
                    (#[trigger] after[k]).item_key,
                ) != Some(key.pair()) by {
                    if k < before.len() {
                        assert(after[k] == before[k]);
                    } else {
                        assert(after[k] == self.layers@[i as int].points@[k - before.len()]);
                    }
                }
            }
            i = i + 1;
        }
        assert(self.layers@.take(self.layers@.len() as int) =~= self.layers@);
        None
    }

    /// Where the camera goes to focus on a row: to its first visible point.
    pub fn scene_focus_target(&self, key: &StableRowKey) -> (out: Option<Position3>)
        ensures
            match out {
                Some(position) => exists|i: int| #[trigger]
                    first_with_key(self.visible_points(), key.pair(), i)
                        && self.visible_points()[i].position == position,
                None => no_point_with_key(self.visible_points(), key.pair()),
            },
    {
        assert(self.visible_points() == points_of(self.layers@, true));
        self.find_point(key, true)
    }

    /// The first point of a selected row, whether it is visible or not.
    pub fn scene_point_for_selection(&self, selected: &StableRowKey) -> (out: Option<Position3>)
        ensures
            match out {
                Some(position) => exists|i: int| #[trigger]
                    first_with_key(self.all_points(), selected.pair(), i)
                        && self.all_points()[i].position == position,
                None => no_point_with_key(self.all_points(), selected.pair()),
            },
    {
        assert(self.all_points() == points_of(self.layers@, false));
        self.find_point(selected, false)
    }
}

proof fn more_layers_more_points(layers: Seq<Investigation3dLayer>, n: int, visible_only: bool)
    requires
        0 <= n <= layers.len(),
    ensures
        points_of(layers.take(n), visible_only).len() <= points_of(layers, visible_only).len(),
        points_of(layers.take(n), visible_only) == points_of(layers, visible_only).take(
            points_of(layers.take(n), visible_only).len() as int,
        ),
    decreases layers.len() - n,
{
    if n == layers.len() {
        assert(layers.take(n) =~= layers);
        assert(points_of(layers, visible_only) =~= points_of(layers, visible_only).take(
            points_of(layers, visible_only).len() as int,
        ));
    } else {
        more_layers_more_points(layers, n + 1, visible_only);
        assert(layers.take(n + 1).drop_last() =~= layers.take(n));
        let small = points_of(layers.take(n), visible_only);
        let large = points_of(layers.take(n + 1), visible_only);
        let all = points_of(layers, visible_only);
        assert(small =~= large.take(small.len() as int));
        assert(small =~= all.take(small.len() as int));
    }
}

/// What can be seen can be selected: a visible point of a row is among all of
/// its points.
pub proof fn visible_rows_have_points(scene: Investigation3dScene, key: (Seq<char>, Seq<char>))
    requires
        no_point_with_key(scene.all_points(), key),
    ensures
        no_point_with_key(scene.visible_points(), key),
{
    visible_rows_have_points_in(scene.layers@, key);
}

proof fn visible_rows_have_points_in(layers: Seq<Investigation3dLayer>, key: (Seq<char>, Seq<char>))
    requires
        no_point_with_key(points_of(layers, false), key),
    ensures
        no_point_with_key(points_of(layers, true), key),
    decreases layers.len(),
{
    if layers.len() > 0 {
        let rest = layers.drop_last();
        let all = points_of(layers, false);
        let before = points_of(rest, false);
        assert forall|k: int| 0 <= k < before.len() implies key_pair((#[trigger] before[k]).item_key)
            != Some(key) by {
            assert(all[k] == before[k]);
        }
        visible_rows_have_points_in(rest, key);
        let seen = points_of(layers, true);
        let seen_before = points_of(rest, true);
        assert forall|k: int| 0 <= k < seen.len() implies key_pair((#[trigger] seen[k]).item_key)
            != Some(key) by {
            if k < seen_before.len() {
                assert(seen[k] == seen_before[k]);
            } else {
                assert(seen[k] == all[before.len() + (k - seen_before.len())]);
            }
        }
    }
}

// ---------------------------------------------------------------------------
// The extent of the scene
// ---------------------------------------------------------------------------
/// The largest finite binary32 number.
pub const LARGEST_32: u32 = 0x7f7f_ffff;

/// The smallest finite binary32 number.
pub const SMALLEST_32: u32 = 0xff7f_ffff;

/// A position of the axis 0, 1 or 2.
pub open spec fn axis_of(p: Position3, axis: int) -> Real32 {
    if axis == 0 {
        p.x
    } else if axis == 1 {
        p.y
    } else {
        p.z
    }
}

pub open spec fn low_of(points: Seq<Investigation3dPoint>, axis: int) -> Real32
    decreases points.len(),
{
    if points.len() == 0 {
        Real32 { bits: LARGEST_32 }
    } else {
        low_of(points.drop_last(), axis).smaller_of(axis_of(points.last().position, axis))
    }
}

pub open spec fn high_of(points: Seq<Investigation3dPoint>, axis: int) -> Real32
    decreases points.len(),
{
    if points.len() == 0 {
        Real32 { bits: SMALLEST_32 }
    } else {
        high_of(points.drop_last(), axis).larger_of(axis_of(points.last().position, axis))
    }
}

/// Whether `low` and `high` are the corners of the box around points.
pub open spec fn is_box(points: Seq<Investigation3dPoint>, low: Position3, high: Position3) -> bool {
    &&& low == (Position3 { x: low_of(points, 0), y: low_of(points, 1), z: low_of(points, 2) })
    &&& high == (Position3 { x: high_of(points, 0), y: high_of(points, 1), z: high_of(points, 2) })
}

/// The box around the visible points, which the camera is fitted to; a scene
/// without points has none.
pub fn visible_bounds(scene: &Investigation3dScene) -> (out: Option<(Position3, Position3)>)
    ensures
        match out {
            Some((low, high)) => scene.visible_points().len() > 0 && is_box(
                scene.visible_points(),
                low,
                high,
            ),
            None => scene.visible_points().len() == 0,
        },
{
    let top = Real32 { bits: LARGEST_32 };
    let bottom = Real32 { bits: SMALLEST_32 };
    let mut low = Position3 { x: top, y: top, z: top };
    let mut high = Position3 { x: bottom, y: bottom, z: bottom };
    let mut any = false;
    let mut i: usize = 0;
    assert(scene.layers@.take(0) =~= Seq::<Investigation3dLayer>::empty());
    while i < scene.layers.len()
        invariant
            i <= scene.layers@.len(),
            any == (points_of(scene.layers@.take(i as int), true).len() > 0),
            is_box(points_of(scene.layers@.take(i as int), true), low, high),
        decreases scene.layers@.len() - i,
    {
        let ghost before = points_of(scene.layers@.take(i as int), true);
        assert(scene.layers@.take(i + 1).drop_last() =~= scene.layers@.take(i as int));
        if scene.layers[i].visible {
            let ghost own = scene.layers@[i as int].points@;
            let mut j: usize = 0;
            assert(before + own.take(0) =~= before);
            while j < scene.layers[i].points.len()
                invariant
                    i < scene.layers@.len(),
                    own == scene.layers@[i as int].points@,
                    j <= own.len(),
                    any == ((before + own.take(j as int)).len() > 0),
                    is_box(before + own.take(j as int), low, high),
                decreases own.len() - j,
            {
                let p = scene.layers[i].points[j].position;
                let ghost longer = before + own.take(j + 1);
                assert(longer.drop_last() =~= before + own.take(j as int));
                assert(longer.last() == own[j as int]);
                low = Position3 {
                    x: low.x.smaller(p.x),
                    y: low.y.smaller(p.y),
                    z: low.z.smaller(p.z),
                };
                high = Position3 {
                    x: high.x.larger(p.x),
                    y: high.y.larger(p.y),
                    z: high.z.larger(p.z),
                };
                any = true;
                j = j + 1;
            }
            assert(before + own.take(own.len() as int) =~= points_of(
                scene.layers@.take(i + 1),
                true,
            ));
        }
        i = i + 1;
    }
    assert(scene.layers@.take(scene.layers@.len() as int) =~= scene.layers@);
    if any {
        Some((low, high))
    } else {
        None
    }
}

/// Every visible point whose coordinates are numbers lies in the box around
/// the scene.
pub proof fn bounds_hold_every_point(points: Seq<Investigation3dPoint>, i: int, axis: int)
    requires
        0 <= i < points.len(),
        !axis_of(points[i].position, axis).is_nan(),
    ensures
        low_of(points, axis).le(axis_of(points[i].position, axis)),
        axis_of(points[i].position, axis).le(high_of(points, axis)),
    decreases points.len(),
{
    bounds_are_numbers(points, axis);
    bounds_are_numbers(points.drop_last(), axis);
    if i < points.len() - 1 {
        bounds_hold_every_point(points.drop_last(), i, axis);
        assert(points.drop_last()[i] == points[i]);
    }
}

proof fn bounds_are_numbers(points: Seq<Investigation3dPoint>, axis: int)
    ensures
        !low_of(points, axis).is_nan(),
        !high_of(points, axis).is_nan(),
    decreases points.len(),
{
    if points.len() > 0 {
        bounds_are_numbers(points.drop_last(), axis);
    }
}

// ---------------------------------------------------------------------------
// The camera
// ---------------------------------------------------------------------------
#[derive(Debug, Clone, Copy, PartialEq, Eq, Structural)]
pub enum AxisPreset {
    Xy,
    Xz,
    Yz,
    Isometric,
}

impl AxisPreset {
    /// The name of the preset on the controls of the view: the third axis is
    /// the time.
    pub open spec fn name(self) -> Seq<char> {
        match self {
            AxisPreset::Isometric => "ISO"@,
            AxisPreset::Xy => "XY"@,
            AxisPreset::Xz => "XT"@,
            AxisPreset::Yz => "YT"@,
        }
    }

    pub fn label(self) -> (out: &'static str)
        ensures
            out@ == self.name(),
    {
        match self {
            AxisPreset::Isometric => "ISO",
            AxisPreset::Xy => "XY",
            AxisPreset::Xz => "XT",
            AxisPreset::Yz => "YT",
        }
    }

    /// The presets in the order of the controls.
    pub fn choices() -> (out: Vec<AxisPreset>)
        ensures
            out@ == seq![AxisPreset::Isometric, AxisPreset::Xy, AxisPreset::Xz, AxisPreset::Yz],
    {
        let mut out: Vec<AxisPreset> = Vec::new();
        out.push(AxisPreset::Isometric);
        out.push(AxisPreset::Xy);
        out.push(AxisPreset::Xz);
        out.push(AxisPreset::Yz);
        out
    }

    /// Yaw and pitch of the preset, in radians: 0, the right angle, the right
    /// angle less a thousandth, 0.65 and 0.52.
    pub open spec fn angles(self) -> (Real32, Real32) {
        match self {
            AxisPreset::Xy => (Real32 { bits: 0 }, Real32 { bits: 0 }),
            AxisPreset::Xz => (Real32 { bits: 0 }, Real32 { bits: 0xbfc8_ef16 }),
            AxisPreset::Yz => (Real32 { bits: 0x3fc9_0fdb }, Real32 { bits: 0 }),
            AxisPreset::Isometric => (Real32 { bits: 0x3f26_6666 }, Real32 { bits: 0x3f05_1eb8 }),
        }
    }
}

/// The camera of the view of space.
#[derive(Debug, Clone, Copy, PartialEq, Eq, Structural)]
pub struct Investigation3dState {
    pub yaw: Real32,
    pub pitch: Real32,
    pub distance: Real32,
    pub target: Position3,
    pub point_scale: Real32,
    pub preset: AxisPreset,
    /// Whether the camera was fitted to the scene once by itself.
    pub auto_fitted: bool,
}

/// The camera that a view begins with: the isometric preset, 12 away from the
/// origin, with points at scale 8.
pub open spec fn first_camera() -> Investigation3dState {
    Investigation3dState {
        yaw: AxisPreset::Isometric.angles().0,
        pitch: AxisPreset::Isometric.angles().1,
        distance: Real32 { bits: 0x4140_0000 },
        target: Position3 {
            x: Real32 { bits: 0 },
            y: Real32 { bits: 0 },
            z: Real32 { bits: 0 },
        },
        point_scale: Real32 { bits: 0x4100_0000 },
        preset: AxisPreset::Isometric,
        auto_fitted: false,
    }
}

impl Default for Investigation3dState {
    fn default() -> (out: Self)
        ensures
            out == first_camera(),
    {
        Investigation3dState {
            yaw: Real32 { bits: 0x3f26_6666 },
            pitch: Real32 { bits: 0x3f05_1eb8 },
            distance: Real32 { bits: 0x4140_0000 },
            target: Position3 {
                x: Real32 { bits: 0 },
                y: Real32 { bits: 0 },
                z: Real32 { bits: 0 },
            },
            point_scale: Real32 { bits: 0x4100_0000 },
            preset: AxisPreset::Isometric,
            auto_fitted: false,
        }
    }
}

impl Investigation3dState {
    /// Turns the camera to a preset.
    pub fn set_axis_preset(&mut self, preset: AxisPreset)
        ensures
            *final(self) == (Investigation3dState {
                preset,
                yaw: preset.angles().0,
                pitch: preset.angles().1,
                ..*old(self)
            }),
    {
        self.preset = preset;
        match preset {
            AxisPreset::Xy => {
                self.yaw = Real32 { bits: 0 };
                self.pitch = Real32 { bits: 0 };
            },
            AxisPreset::Xz => {
                self.yaw = Real32 { bits: 0 };
                self.pitch = Real32 { bits: 0xbfc8_ef16 };
            },
            AxisPreset::Yz => {
                self.yaw = Real32 { bits: 0x3fc9_0fdb };
                self.pitch = Real32 { bits: 0 };
            },
            AxisPreset::Isometric => {
                self.yaw = Real32 { bits: 0x3f26_6666 };
                self.pitch = Real32 { bits: 0x3f05_1eb8 };
            },
        }
    }

    /// Puts the camera back to where it began; it is not fitted again by
    /// itself.
    pub fn reset_camera(&mut self)
        ensures
            *final(self) == (Investigation3dState {
                auto_fitted: old(self).auto_fitted,
                ..first_camera()
            }),
    {
        let auto_fitted = self.auto_fitted;
        *self = Investigation3dState::default();
        self.auto_fitted = auto_fitted;
    }

    /// Looks at a position from between 4 and 24 away.
    pub fn focus_on(&mut self, target: Position3)
        ensures
            *final(self) == (Investigation3dState {
                target,
                distance: old(self).distance.within(
                    Real32 { bits: 0x4080_0000 },
                    Real32 { bits: 0x41c0_0000 },
                ),
                ..*old(self)
            }),
    {
        self.target = target;
        self.distance = self.distance.clamped(
            Real32 { bits: 0x4080_0000 },
            Real32 { bits: 0x41c0_0000 },
        );
    }
}

/// What was done in the view of space.
#[derive(Debug)]
pub struct Investigation3dOutput {
    pub selected: Option<StableRowKey>,
    pub hovered: Option<StableRowKey>,
    pub focus_target: Option<Position3>,
}

impl Default for Investigation3dOutput {
    fn default() -> (out: Self)
        ensures
            out.selected is None,
            out.hovered is None,
            out.focus_target is None,
    {
        Investigation3dOutput { selected: None, hovered: None, focus_target: None }
    }
}

// ---------------------------------------------------------------------------
// Points to draw
// ---------------------------------------------------------------------------
/// A visible point, ready to be drawn: which one it is, and how it looks.
#[derive(Debug, Clone, Copy, PartialEq, Eq)]
pub struct PreparedPoint {
    pub layer: usize,
    pub point: usize,
    pub position: Position3,
    pub color: [u8; 4],
    pub size: Real32,
    pub selected: bool,
}

/// Whether a prepared point shows a point of the scene: at least 0.75 large,
/// and marked where its key is the selected one. Where nothing is selected, the
/// points without a key are marked.
pub open spec fn prepares(
    out: PreparedPoint,
    scene: Investigation3dScene,
    point: Investigation3dPoint,
    selected: Option<(Seq<char>, Seq<char>)>,
) -> bool {
    &&& out.layer < scene.layers@.len()
    &&& out.point < scene.layers@[out.layer as int].points@.len()
    &&& scene.layers@[out.layer as int].points@[out.point as int] == point
    &&& out.position == point.position
    &&& out.color@ == point.color@
    &&& out.size == point.size.larger_of(Real32 { bits: 0x3f40_0000 })
    &&& out.selected == (key_pair(point.item_key) == selected)
}

pub open spec fn optional_pair(key: Option<&StableRowKey>) -> Option<(Seq<char>, Seq<char>)> {
    match key {
        Some(k) => Some(k.pair()),
        None => None,
    }
}

fn same_optional_key(a: &Option<StableRowKey>, b: Option<&StableRowKey>) -> (out: bool)
    ensures
        out == (key_pair(*a) == optional_pair(b)),
{
    match (a, b) {
        (Some(x), Some(y)) => x.same_key(y),
        (None, None) => true,
        _ => false,
    }
}

/// Lists the visible points in order, ready to be drawn.
pub fn prepare_scene_points(scene: &Investigation3dScene, selected: Option<&StableRowKey>) -> (out:
    Vec<PreparedPoint>)
    ensures
        out@.len() == scene.visible_points().len(),
        forall|i: int|
            0 <= i < out@.len() ==> prepares(
                #[trigger] out@[i],
                *scene,
                scene.visible_points()[i],
                optional_pair(selected),
            ),
{
    let mut out: Vec<PreparedPoint> = Vec::new();
    let mut i: usize = 0;
    assert(scene.layers@.take(0) =~= Seq::<Investigation3dLayer>::empty());
    while i < scene.layers.len()
        invariant
            i <= scene.layers@.len(),
            out@.len() == points_of(scene.layers@.take(i as int), true).len(),
            forall|k: int|
                0 <= k < out@.len() ==> prepares(
                    #[trigger] out@[k],
                    *scene,
                    points_of(scene.layers@.take(i as int), true)[k],
                    optional_pair(selected),
                ),
        decreases scene.layers@.len() - i,
    {
        let ghost before = points_of(scene.layers@.take(i as int), true);
        assert(scene.layers@.take(i + 1).drop_last() =~= scene.layers@.take(i as int));
        if scene.layers[i].visible {
            let ghost own = scene.layers@[i as int].points@;
            let mut j: usize = 0;
            while j < scene.layers[i].points.len()
                invariant
                    i < scene.layers@.len(),
                    own == scene.layers@[i as int].points@,
                    j <= own.len(),
                    out@.len() == before.len() + j,
                    forall|k: int|
                        0 <= k < out@.len() ==> prepares(
                            #[trigger] out@[k],
                            *scene,
                            (before + own)[k],
                            optional_pair(selected),
                        ),
                decreases own.len() - j,
            {
                let point = &scene.layers[i].points[j];
                out.push(
                    PreparedPoint {
                        layer: i,
                        point: j,
                        position: point.position,
                        color: point.color,
                        size: point.size.larger(Real32 { bits: 0x3f40_0000 }),
                        selected: same_optional_key(&point.item_key, selected),
                    },
                );
                assert((before + own)[before.len() + j] == own[j as int]);
                j = j + 1;
            }
        }
        i = i + 1;
    }
    assert(scene.layers@.take(scene.layers@.len() as int) =~= scene.layers@);
    out
}

/// The capacity that a buffer of points grows to: the least power of two that
/// is large enough, and at least 256.
pub open spec fn is_capacity(capacity: nat, points: nat) -> bool {
    &&& exists|k: nat| #[trigger] pow2(k) == capacity
    &&& capacity >= points
    &&& capacity >= 256
    &&& capacity > 256 ==> capacity < 2 * points
}

/// The new capacity of a buffer that has become too small.
pub fn grown_capacity(current: usize, points: usize) -> (out: Option<usize>)
    requires
        points <= usize::MAX / 2 + 1,
    ensures
        match out {
            Some(capacity) => points > current && is_capacity(capacity as nat, points as nat),
            None => points <= current,
        },
{
    if points <= current {
        return None;
    }
    let mut capacity: usize = 256;
    let ghost mut k: nat = 8;
    proof {
        lemma2_to64();
    }
    while capacity < points
        invariant
            points <= usize::MAX / 2 + 1,
            256 <= capacity,
            capacity == pow2(k),
            capacity > 256 ==> capacity < 2 * points,
        decreases 2 * points - capacity,
    {
        proof {
            lemma_pow2_unfold(k + 1);
            k = k + 1;
        }
        capacity = capacity * 2;
    }
    assert(pow2(k) == capacity);
    Some(capacity)
}

// ---------------------------------------------------------------------------
// The point under the pointer
// ---------------------------------------------------------------------------
/// How far a point is from the pointer on the screen, and how deep it lies.
#[derive(Debug, Clone, Copy, PartialEq, Eq, Structural)]
pub struct PickCandidate {
    pub distance: Real32,
    pub depth: Real32,
}

/// The candidate that is picked: a later one takes the place of an earlier one
/// unless it is both farther from the pointer and no nearer to the eye.
pub open spec fn picked(candidates: Seq<PickCandidate>) -> Option<int>
    decreases candidates.len(),
{
    if candidates.len() == 0 {
        None
    } else {
        let last = candidates.last();
        match picked(candidates.drop_last()) {
            Some(best) => if candidates[best].distance.lt(last.distance)
                && candidates[best].depth.le(last.depth) {
                Some(best)
            } else {
                Some(candidates.len() - 1)
            },
            None => Some(candidates.len() - 1),
        }
    }
}

pub fn pick_candidate(candidates: &Vec<PickCandidate>) -> (out: Option<usize>)
    ensures
        match out {
            Some(i) => picked(candidates@) == Some(i as int) && i < candidates@.len(),
            None => candidates@.len() == 0,
        },
{
    let mut best: Option<usize> = None;
    let mut i: usize = 0;
    assert(candidates@.take(0) =~= Seq::<PickCandidate>::empty());
    while i < candidates.len()
        invariant
            i <= candidates@.len(),
            match best {
                Some(b) => picked(candidates@.take(i as int)) == Some(b as int) && b < i,
                None => i == 0,
            },
            i == 0 ==> best is None,
        decreases candidates@.len() - i,
    {
        let ghost longer = candidates@.take(i + 1);
        assert(longer.drop_last() =~= candidates@.take(i as int));
        assert(longer.last() == candidates@[i as int]);
        let keep = match best {
            Some(b) => candidates[b].distance.less(candidates[i].distance)
                && candidates[b].depth.at_most(candidates[i].depth),
            None => false,
        };
        if !keep {
            best = Some(i);
        }
        i = i + 1;
    }
    assert(candidates@.take(candidates@.len() as int) =~= candidates@);
    best
}

/// Where nothing is hidden by depth, the nearest candidate is picked: among
/// points at the same depth no other is nearer to the pointer.
pub proof fn picked_is_nearest_at_equal_depth(candidates: Seq<PickCandidate>, i: int)
    requires
        0 <= i < candidates.len(),
        forall|k: int|
            0 <= k < candidates.len() ==> !(#[trigger] candidates[k]).distance.is_nan()
                && !candidates[k].depth.is_nan() && candidates[k].depth.order_key()
                == candidates[0].depth.order_key(),
    ensures
        picked(candidates) matches Some(best) && 0 <= best < candidates.len()
            && candidates[best].distance.le(candidates[i].distance),
    decreases candidates.len(),
{
    let rest = candidates.drop_last();
    if rest.len() > 0 {
        assert forall|k: int| 0 <= k < rest.len() implies !(#[trigger] rest[k]).distance.is_nan()
            && !rest[k].depth.is_nan() && rest[k].depth.order_key() == rest[0].depth.order_key() by {
            assert(rest[k] == candidates[k]);
            assert(rest[0] == candidates[0]);
        }
        picked_is_nearest_at_equal_depth(rest, 0);
        let best = picked(rest)->0;
        if i < rest.len() {
            picked_is_nearest_at_equal_depth(rest, i);
        }
        assert(!candidates[best].distance.is_nan());
        assert(!candidates[candidates.len() - 1].distance.is_nan());
        assert(!candidates[i].distance.is_nan());
    }
}

// ---------------------------------------------------------------------------
// Focus volume
// ---------------------------------------------------------------------------
/// The corners of a box: the four of its near side, then those of its far
/// side, each in the same turn.
pub fn focus_volume_corners(volume: &Investigation3dFocusVolume) -> (out: Vec<Position3>)
    ensures
        out@ == seq![
            Position3 { x: volume.min.x, y: volume.min.y, z: volume.min.z },
            Position3 { x: volume.max.x, y: volume.min.y, z: volume.min.z },
            Position3 { x: volume.max.x, y: volume.max.y, z: volume.min.z },
            Position3 { x: volume.min.x, y: volume.max.y, z: volume.min.z },
            Position3 { x: volume.min.x, y: volume.min.y, z: volume.max.z },
            Position3 { x: volume.max.x, y: volume.min.y, z: volume.max.z },
            Position3 { x: volume.max.x, y: volume.max.y, z: volume.max.z },
            Position3 { x: volume.min.x, y: volume.max.y, z: volume.max.z },
        ],
{
    let (a, b) = (volume.min, volume.max);
    let mut out: Vec<Position3> = Vec::new();
    out.push(Position3 { x: a.x, y: a.y, z: a.z });
    out.push(Position3 { x: b.x, y: a.y, z: a.z });
    out.push(Position3 { x: b.x, y: b.y, z: a.z });
    out.push(Position3 { x: a.x, y: b.y, z: a.z });
    out.push(Position3 { x: a.x, y: a.y, z: b.z });
    out.push(Position3 { x: b.x, y: a.y, z: b.z });
    out.push(Position3 { x: b.x, y: b.y, z: b.z });
    out.push(Position3 { x: a.x, y: b.y, z: b.z });
    out
}

/// The edges of a box, as pairs of its corners.
pub fn focus_volume_edges() -> (out: Vec<(usize, usize)>)
    ensures
        out@.len() == 12,
        forall|i: int|
            0 <= i < 4 ==> #[trigger] out@[i] == (i as usize, ((i + 1) % 4) as usize),
        forall|i: int|
            4 <= i < 8 ==> #[trigger] out@[i] == (i as usize, (4 + (i + 1) % 4) as usize),
        forall|i: int|
            8 <= i < 12 ==> #[trigger] out@[i] == ((i - 8) as usize, (i - 4) as usize),
{
    let mut out: Vec<(usize, usize)> = Vec::new();
    out.push((0, 1));
    out.push((1, 2));
    out.push((2, 3));
    out.push((3, 0));
    out.push((4, 5));
    out.push((5, 6));
    out.push((6, 7));
    out.push((7, 4));
    out.push((0, 4));
    out.push((1, 5));
    out.push((2, 6));
    out.push((3, 7));
    out
}

// ---------------------------------------------------------------------------
// Controls and texts
// ---------------------------------------------------------------------------
/// Which controls of the view can be used, and which preset is marked.
#[derive(Debug, Clone, Copy, PartialEq, Eq, Structural)]
pub struct CanvasControls {
    pub marked_preset: usize,
    pub fit_enabled: bool,
    pub focus_enabled: bool,
}

/// The position of a preset among the choices.
pub open spec fn preset_position(preset: AxisPreset) -> usize {
    match preset {
        AxisPreset::Isometric => 0,
        AxisPreset::Xy => 1,
        AxisPreset::Xz => 2,
        AxisPreset::Yz => 3,
    }
}

pub fn canvas_controls(
    camera: &Investigation3dState,
    scene_empty: bool,
    focus_target: Option<Position3>,
) -> (out: CanvasControls)
    ensures
        out.marked_preset == preset_position(camera.preset),
        out.fit_enabled == !scene_empty,
        out.focus_enabled == (focus_target is Some),
{
    CanvasControls {
        marked_preset: match camera.preset {
            AxisPreset::Isometric => 0,
            AxisPreset::Xy => 1,
            AxisPreset::Xz => 2,
            AxisPreset::Yz => 3,
        },
        fit_enabled: !scene_empty,
        focus_enabled: focus_target.is_some(),
    }
}

/// A control of the view that was pressed.
#[derive(Debug, Clone, Copy, PartialEq, Eq, Structural)]
pub enum CanvasPress {
    Preset(AxisPreset),
    Reset,
    Fit,
    Focus,
}

/// What is left to do after a control was pressed.
#[derive(Debug, Clone, Copy, PartialEq, Eq, Structural)]
pub enum CanvasEffect {
    Done,
    FitToScene,
    FocusOn(Position3),
}

/// Takes in a control that was pressed. Fitting asks for a scene with points,
/// focusing for a selected point.
pub fn press_control(
    camera: &mut Investigation3dState,
    press: CanvasPress,
    scene_empty: bool,
    focus_target: Option<Position3>,
) -> (out: CanvasEffect)
    ensures
        match press {
            CanvasPress::Preset(preset) => out == CanvasEffect::Done && *final(camera) == (
            Investigation3dState {
                preset,
                yaw: preset.angles().0,
                pitch: preset.angles().1,
                ..*old(camera)
            }),
            CanvasPress::Reset => out == CanvasEffect::Done && *final(camera) == (
            Investigation3dState { auto_fitted: old(camera).auto_fitted, ..first_camera() }),
            CanvasPress::Fit => *final(camera) == *old(camera) && out == (if scene_empty {
                CanvasEffect::Done
            } else {
                CanvasEffect::FitToScene
            }),
            CanvasPress::Focus => *final(camera) == *old(camera) && out == (match focus_target {
                Some(target) => CanvasEffect::FocusOn(target),
                None => CanvasEffect::Done,
            }),
        },
{
    match press {
        CanvasPress::Preset(preset) => {
            camera.set_axis_preset(preset);
            CanvasEffect::Done
        },
        CanvasPress::Reset => {
            camera.reset_camera();
            CanvasEffect::Done
        },
        CanvasPress::Fit => {
            if scene_empty {
                CanvasEffect::Done
            } else {
                CanvasEffect::FitToScene
            }
        },
        CanvasPress::Focus => match focus_target {
            Some(target) => CanvasEffect::FocusOn(target),
            None => CanvasEffect::Done,
        },
    }
}

/// What stands in place of a picture of the scene.
pub fn canvas_message(renderer_active: bool, scene_empty: bool) -> (out: &'static str)
    ensures
        out@ == (if !renderer_active {
            "3D inspection requires the WGPU renderer.\nRestart with AUGUR_RENDERER=wgpu or AUGUR_RENDERER=auto."@
        } else if scene_empty {
            "No 3D data yet.\nLoad a replay or start streaming to see raw events.\nPlugins with 3D scatter views will also appear here."@
        } else {
            "3D inspection could not prepare a render target.\nTry resizing the window or restarting the application."@
        }),
{
    if !renderer_active {
        "3D inspection requires the WGPU renderer.\nRestart with AUGUR_RENDERER=wgpu or AUGUR_RENDERER=auto."
    } else if scene_empty {
        "No 3D data yet.\nLoad a replay or start streaming to see raw events.\nPlugins with 3D scatter views will also appear here."
    } else {
        "3D inspection could not prepare a render target.\nTry resizing the window or restarting the application."
    }
}

fn layer_titles(scene: &Investigation3dScene) -> (out: Vec<String>)
    ensures
        texts_of(out@) == visible_titles(scene.layers@),
{
    let mut out: Vec<String> = Vec::new();
    let mut i: usize = 0;
    assert(scene.layers@.take(0) =~= Seq::<Investigation3dLayer>::empty());
    assert(texts_of(out@) =~= Seq::<Seq<char>>::empty());
    while i < scene.layers.len()
        invariant
            i <= scene.layers@.len(),
            texts_of(out@) == visible_titles(scene.layers@.take(i as int)),
        decreases scene.layers@.len() - i,
    {
        assert(scene.layers@.take(i + 1).drop_last() =~= scene.layers@.take(i as int));
        if scene.layers[i].visible {
            let ghost before = out@;
            out.push(scene.layers[i].title.clone());
            assert(texts_of(out@) =~= texts_of(before).push(scene.layers@[i as int].title@));
        }
        i = i + 1;
    }
    assert(scene.layers@.take(scene.layers@.len() as int) =~= scene.layers@);
    out
}

/// What is kept of the raw history, in milliseconds and in points.
#[derive(Debug, Clone, Copy, PartialEq, Eq, Structural)]
pub struct RawHistoryFooterStatus {
    pub requested_ms: Real32,
    pub retained_ms: Option<Real32>,
    pub sample_count: usize,
    pub point_limit: usize,
}

/// The smallest step above one, by which two times can differ unnoticed.
pub const TIME_STEP_BITS: u32 = 0x3400_0000;

pub open spec fn or_zero(x: Option<Real32>) -> Real32 {
    match x {
        Some(value) => value,
        None => Real32 { bits: 0 },
    }
}

fn value_or_zero(x: Option<Real32>) -> (out: Real32)
    ensures
        out == or_zero(x),
{
    match x {
        Some(value) => value,
        None => Real32 { bits: 0 },
    }
}

/// Whether less history is retained than was requested.
pub fn is_cut_short(requested: Real32, retained: Option<Real32>) -> (out: bool)
    ensures
        out == plus_of(or_zero(retained), Real32 { bits: TIME_STEP_BITS }).lt(requested),
{
    plus(value_or_zero(retained), Real32 { bits: TIME_STEP_BITS }).less(requested)
}

impl RawHistoryFooterStatus {
    /// The history in a few words.
    pub open spec fn short_text(self) -> Seq<char> {
        "History: "@ + tenths_text_32(or_zero(self.retained_ms)) + "/"@ + rounded_text_32(
            self.requested_ms,
        ) + " ms"@
    }

    pub fn short_line(&self) -> (out: String)
        ensures
            out@ == self.short_text(),
    {
        let mut out = "History: ".to_owned();
        push_tenths_32(&mut out, value_or_zero(self.retained_ms));
        out.append("/");
        push_rounded_32(&mut out, self.requested_ms);
        out.append(" ms");
        out
    }

    /// The span next to the slider of the history: what is retained, or what was
    /// requested where nothing is.
    pub fn span_label(&self) -> (out: String)
        ensures
            out@ == rounded_text_32(
                match self.retained_ms {
                    Some(retained) => retained,
                    None => self.requested_ms,
                },
            ) + " ms"@,
    {
        let mut out = String::new();
        push_rounded_32(
            &mut out,
            match self.retained_ms {
                Some(retained) => retained,
                None => self.requested_ms,
            },
        );
        out.append(" ms");
        assert(out@ =~= rounded_text_32(
            match self.retained_ms {
                Some(retained) => retained,
                None => self.requested_ms,
            },
        ) + " ms"@);
        out
    }

    pub open spec fn text(self) -> Seq<char> {
        let step = Real32 { bits: TIME_STEP_BITS };
        let cut_short = plus_of(or_zero(self.retained_ms), step).lt(self.requested_ms);
        "History: requested "@ + rounded_text_32(self.requested_ms) + " ms, retained "@
            + tenths_text_32(or_zero(self.retained_ms)) + " ms"@ + (if self.sample_count > 0
            && cut_short {
            " from the current buffer"@
        } else {
            Seq::empty()
        }) + ", sample "@ + decimal(self.sample_count as nat) + " / "@ + decimal(
            self.point_limit as nat,
        ) + " points."@
    }

    pub fn line(&self) -> (out: String)
        ensures
            out@ == self.text(),
    {
        let mut out = "History: requested ".to_owned();
        push_rounded_32(&mut out, self.requested_ms);
        out.append(" ms, retained ");
        push_tenths_32(&mut out, value_or_zero(self.retained_ms));
        out.append(" ms");
        let ghost head = out@;
        if self.sample_count > 0 && is_cut_short(self.requested_ms, self.retained_ms) {
            out.append(" from the current buffer");
        } else {
            assert(head + Seq::<char>::empty() =~= head);
        }
        out.append(", sample ");
        push_decimal(&mut out, self.sample_count as u64);
        out.append(" / ");
        push_decimal(&mut out, self.point_limit as u64);
        out.append(" points.");
        out
    }
}

/// The lines of the footer: the number of visible layers and of their points,
/// what is kept of the raw history, and what is in focus.
pub open spec fn footer_texts(
    scene: Investigation3dScene,
    history: Option<RawHistoryFooterStatus>,
) -> Seq<Seq<char>> {
    let head = seq![
        "Layers: "@ + decimal(visible_titles(scene.layers@).len()),
        "Points: "@ + decimal(scene.visible_points().len()),
    ];
    let middle = match history {
        Some(status) => seq![status.short_text()],
        None => seq![],
    };
    let tail = match scene.focus_volume {
        Some(volume) => seq!["Focus: "@ + volume.label@],
        None => seq![],
    };
    head + middle + tail
}

pub fn footer_lines(
    scene: &Investigation3dScene,
    history: Option<RawHistoryFooterStatus>,
) -> (out: Vec<String>)
    requires
        scene.visible_points().len() <= usize::MAX,
    ensures
        texts_of(out@) == footer_texts(*scene, history),
{
    let titles = layer_titles(scene);
    assert(texts_of(titles@).len() == titles@.len());
    let mut layers = "Layers: ".to_owned();
    push_decimal(&mut layers, titles.len() as u64);
    let mut points = "Points: ".to_owned();
    push_decimal(&mut points, scene.visible_point_count() as u64);
    let mut out: Vec<String> = Vec::new();
    out.push(layers);
    out.push(points);
    if let Some(status) = history {
        out.push(status.short_line());
    }
    if let Some(volume) = &scene.focus_volume {
        let mut focus = "Focus: ".to_owned();
        focus.append(volume.label.as_str());
        out.push(focus);
    }
    assert(texts_of(out@) =~= footer_texts(*scene, history));
    out
}

/// The visible layers by name.
pub open spec fn layers_text(scene: Investigation3dScene) -> Seq<char> {
    let titles = visible_titles(scene.layers@);
    let count = "Layers: "@ + decimal(titles.len());
    if titles.len() == 0 {
        count
    } else {
        count + " ("@ + joined(titles, ", "@) + ")"@
    }
}

pub fn layers_line(scene: &Investigation3dScene) -> (out: String)
    ensures
        out@ == layers_text(*scene),
{
    let titles = layer_titles(scene);
    assert(texts_of(titles@).len() == titles@.len());
    let mut out = "Layers: ".to_owned();
    push_decimal(&mut out, titles.len() as u64);
    if titles.len() > 0 {
        let names = join_texts(&titles, ", ");
        out.append(" (");
        out.append(names.as_str());
        out.append(")");
    }
    out
}

/// The details of a view: its layers by name, the raw history, what is in
/// focus, and how to read and move it.
pub open spec fn details_texts(
    scene: Investigation3dScene,
    history: Option<RawHistoryFooterStatus>,
) -> Seq<Seq<char>> {
    let middle = match history {
        Some(status) => seq![status.text()],
        None => seq![],
    };
    let focus = match scene.focus_volume {
        Some(volume) => seq!["Focus volume: "@ + volume.label@],
        None => seq![],
    };
    seq![layers_text(scene)] + middle + focus + seq![
        "Orientation: sensor X points right, sensor Y points up to match the 2D preview, and older events extend deeper into the cloud."@,
        "Controls: drag to orbit, Shift/right-drag to pan, scroll to zoom, double-click to fit."@,
    ]
}

pub fn details_lines(
    scene: &Investigation3dScene,
    history: Option<RawHistoryFooterStatus>,
) -> (out: Vec<String>)
    ensures
        texts_of(out@) == details_texts(*scene, history),
{
    let ghost wanted = details_texts(*scene, history);
    let mut out: Vec<String> = Vec::new();
    out.push(layers_line(scene));
    if let Some(status) = &history {
        out.push(status.line());
    }
    if let Some(volume) = &scene.focus_volume {
        let mut focus = "Focus volume: ".to_owned();
        focus.append(volume.label.as_str());
        out.push(focus);
    }
    out.push(
        "Orientation: sensor X points right, sensor Y points up to match the 2D preview, and older events extend deeper into the cloud.".to_owned(),
    );
    out.push(
        "Controls: drag to orbit, Shift/right-drag to pan, scroll to zoom, double-click to fit.".to_owned(),
    );
    assert(texts_of(out@) =~= wanted);
    out
}

// ---------------------------------------------------------------------------
// Laws
// ---------------------------------------------------------------------------
/// The points of a scene are those of its layers, one layer after the other,
/// without those of hidden layers where only the visible ones are asked for:
/// the point `p` of the layer `l` stands behind the points of the layers before.
pub proof fn points_stand_in_the_order_of_layers(
    layers: Seq<Investigation3dLayer>,
    visible_only: bool,
    l: int,
    p: int,
)
    requires
        0 <= l < layers.len(),
        layers[l].visible || !visible_only,
        0 <= p < layers[l].points@.len(),
    ensures
        points_of(layers.take(l), visible_only).len() + p < points_of(layers, visible_only).len(),
        points_of(layers, visible_only)[points_of(layers.take(l), visible_only).len() + p]
            == layers[l].points@[p],
    decreases layers.len(),
{
    if l < layers.len() - 1 {
        points_stand_in_the_order_of_layers(layers.drop_last(), visible_only, l, p);
        assert(layers.drop_last().take(l) =~= layers.take(l));
    } else {
        assert(layers.take(l) =~= layers.drop_last());
    }
}

/// A point is shown only if it stands in a visible layer.
pub proof fn shown_points_stand_in_visible_layers(layers: Seq<Investigation3dLayer>, i: int)
    requires
        0 <= i < points_of(layers, true).len(),
    ensures
        exists|l: int|
            0 <= l < layers.len() && (#[trigger] layers[l]).visible
                && layers[l].points@.contains(points_of(layers, true)[i]),
    decreases layers.len(),
{
    let rest = layers.drop_last();
    let before = points_of(rest, true);
    let last = layers[layers.len() - 1];
    if i < before.len() {
        shown_points_stand_in_visible_layers(rest, i);
        let l = choose|l: int|
            0 <= l < rest.len() && (#[trigger] rest[l]).visible && rest[l].points@.contains(
                before[i],
            );
        assert(layers[l].visible && layers[l].points@.contains(points_of(layers, true)[i]));
    } else {
        assert(last.visible);
        assert(last.points@[i - before.len()] == points_of(layers, true)[i]);
        assert(layers[layers.len() - 1].points@.contains(points_of(layers, true)[i]));
    }
}

/// The titles of the visible layers are listed in the order of the layers, and
/// those of hidden layers are not.
pub proof fn visible_titles_are_those_of_visible_layers(
    layers: Seq<Investigation3dLayer>,
    l: int,
)
    requires
        0 <= l < layers.len(),
    ensures
        layers[l].visible ==> visible_titles(layers.take(l)).len() < visible_titles(layers).len()
            && visible_titles(layers)[visible_titles(layers.take(l)).len() as int]
            == layers[l].title@,
        visible_titles(layers.take(l + 1)).len() - visible_titles(layers.take(l)).len() == (
        if layers[l].visible {
            1int
        } else {
            0
        }),
    decreases layers.len(),
{
    if l < layers.len() - 1 {
        visible_titles_are_those_of_visible_layers(layers.drop_last(), l);
        assert(layers.drop_last().take(l) =~= layers.take(l));
        assert(layers.drop_last().take(l + 1) =~= layers.take(l + 1));
    } else {
        assert(layers.take(l) =~= layers.drop_last());
        assert(layers.take(l + 1) =~= layers);
    }
}

/// The box around points holds each of them along all three axes.
pub proof fn boxes_hold_their_points(
    points: Seq<Investigation3dPoint>,
    low: Position3,
    high: Position3,
    i: int,
)
    requires
        is_box(points, low, high),
        0 <= i < points.len(),
    ensures
        !points[i].position.x.is_nan() ==> low.x.le(points[i].position.x)
            && points[i].position.x.le(high.x),
        !points[i].position.y.is_nan() ==> low.y.le(points[i].position.y)
            && points[i].position.y.le(high.y),
        !points[i].position.z.is_nan() ==> low.z.le(points[i].position.z)
            && points[i].position.z.le(high.z),
{
    if !points[i].position.x.is_nan() {
        bounds_hold_every_point(points, i, 0);
    }
    if !points[i].position.y.is_nan() {
        bounds_hold_every_point(points, i, 1);
    }
    if !points[i].position.z.is_nan() {
        bounds_hold_every_point(points, i, 2);
    }
}

/// The box around points is no larger than they ask for: each of its sides goes
/// through a point, where one has a finite coordinate there.
pub proof fn boxes_are_drawn_tight(points: Seq<Investigation3dPoint>, axis: int)
    ensures
        low_of(points, axis) == (Real32 { bits: 0x7f7f_ffff }) || exists|i: int|
            0 <= i < points.len() && axis_of((#[trigger] points[i]).position, axis) == low_of(
                points,
                axis,
            ),
        high_of(points, axis) == (Real32 { bits: 0xff7f_ffff }) || exists|i: int|
            0 <= i < points.len() && axis_of((#[trigger] points[i]).position, axis) == high_of(
                points,
                axis,
            ),
    decreases points.len(),
{
    if points.len() > 0 {
        let rest = points.drop_last();
        boxes_are_drawn_tight(rest, axis);
        assert(points[points.len() - 1] == points.last());
        if low_of(points, axis) == low_of(rest, axis) && low_of(rest, axis) != (Real32 {
            bits: 0x7f7f_ffff,
        }) {
            let i = choose|i: int|
                0 <= i < rest.len() && axis_of((#[trigger] rest[i]).position, axis) == low_of(
                    rest,
                    axis,
                );
            assert(axis_of(points[i].position, axis) == low_of(points, axis));
        }
        if high_of(points, axis) == high_of(rest, axis) && high_of(rest, axis) != (Real32 {
            bits: 0xff7f_ffff,
        }) {
            let i = choose|i: int|
                0 <= i < rest.len() && axis_of((#[trigger] rest[i]).position, axis) == high_of(
                    rest,
                    axis,
                );
            assert(axis_of(points[i].position, axis) == high_of(points, axis));
        }
    }
}

/// A point is drawn where it lies and in its colour, at least three quarters
/// and never smaller than it asks for, and two points with one key are marked
/// alike.
pub proof fn prepared_points_show_theirs(
    a: PreparedPoint,
    b: PreparedPoint,
    scene: Investigation3dScene,
    of_a: Investigation3dPoint,
    of_b: Investigation3dPoint,
    selected: Option<(Seq<char>, Seq<char>)>,
)
    requires
        prepares(a, scene, of_a, selected),
        prepares(b, scene, of_b, selected),
    ensures
        a.position.x == of_a.position.x,
        a.position.y == of_a.position.y,
        a.position.z == of_a.position.z,
        forall|i: int| 0 <= i < 4 ==> a.color[i] == of_a.color[i],
        !of_a.size.is_nan() ==> of_a.size.le(a.size),
        (Real32 { bits: 0x3f40_0000 }).le(a.size),
        (Real32 { bits: 0x3f40_0000 }).le(of_a.size) ==> a.size == of_a.size
            || a.size.order_key() == of_a.size.order_key(),
        a.size == of_a.size || a.size == (Real32 { bits: 0x3f40_0000 }),
        of_a.item_key == of_b.item_key ==> a.selected == b.selected,
        of_a.item_key matches Some(key) ==> (a.selected <==> selected == Some(
            (key.dataset_id@, key.row_id@),
        )),
        scene.layers@[a.layer as int].points@.contains(of_a),
{
    assert(!(Real32 { bits: 0x3f40_0000 }).is_nan());
    crate::binary64::larger_and_smaller_bound_both_32(
        of_a.size,
        Real32 { bits: 0x3f40_0000 },
        of_a.size,
        of_a.size,
    );
    assert forall|i: int| 0 <= i < 4 implies a.color[i] == of_a.color[i] by {
        assert(a.color@[i] == of_a.color@[i]);
    }
}

/// No smaller power of two would do as a capacity, and every number of points
/// has just one.
pub proof fn capacities_are_the_least(a: nat, b: nat, points: nat, k: nat)
    requires
        is_capacity(a, points),
    ensures
        pow2(k) >= points && pow2(k) >= 256 ==> a <= pow2(k),
        is_capacity(b, points) ==> a == b,
        a >= points,
        a >= 256,
{
    let j = choose|j: nat| #[trigger] pow2(j) == a;
    if pow2(k) >= points && pow2(k) >= 256 {
        smaller_powers(k, j);
    }
    if is_capacity(b, points) {
        let i = choose|i: nat| #[trigger] pow2(i) == b;
        smaller_powers(i, j);
        smaller_powers(j, i);
    }
}

/// Of two different powers of two the smaller one is at most half as large.
proof fn smaller_powers(a: nat, b: nat)
    ensures
        pow2(a) < pow2(b) ==> 2 * pow2(a) <= pow2(b),
    decreases a + b,
{
    if a > 0 && b > 0 {
        smaller_powers((a - 1) as nat, (b - 1) as nat);
        lemma_pow2_unfold(a);
        lemma_pow2_unfold(b);
    } else if b > 0 {
        lemma2_to64();
        lemma_pow2_unfold(b);
        vstd::arithmetic::power2::lemma_pow2_pos((b - 1) as nat);
    } else {
        lemma2_to64();
        vstd::arithmetic::power2::lemma_pow2_pos(a);
    }
}

/// A candidate is picked wherever there is one. A candidate that is nearer to
/// the pointer than all the others and behind none of them is picked if it
/// stands first, and the last one is picked unless another one is nearer to
/// the pointer and not behind it.
pub proof fn near_candidates_are_picked(candidates: Seq<PickCandidate>)
    ensures
        picked(candidates) is Some <==> candidates.len() > 0,
        picked(candidates) matches Some(i) ==> 0 <= i < candidates.len(),
        candidates.len() > 0 && (forall|k: int|
            0 < k < candidates.len() ==> candidates[0].distance.lt(
                (#[trigger] candidates[k]).distance,
            ) && candidates[0].depth.le(candidates[k].depth)) ==> picked(candidates) == Some(0int),
        candidates.len() > 0 && (forall|k: int|
            0 <= k < candidates.len() - 1 ==> !((#[trigger] candidates[k]).distance.lt(
                candidates.last().distance,
            ) && candidates[k].depth.le(candidates.last().depth))) ==> picked(candidates) == Some(
            candidates.len() - 1,
        ),
    decreases candidates.len(),
{
    if candidates.len() > 0 {
        let rest = candidates.drop_last();
        near_candidates_are_picked(rest);
        if rest.len() > 0 {
            assert(rest[0] == candidates[0]);
            assert forall|k: int| 0 < k < rest.len() implies rest[k] == candidates[k] by {}
        }
    }
}

/// The three plane views look along an axis or, from above, just short of it;
/// each view has its own button, name and angles, and a view begins with the
/// isometric one.
pub proof fn presets_look_their_own_way(a: AxisPreset, b: AxisPreset)
    ensures
        a != b ==> preset_position(a) != preset_position(b) && a.angles() != b.angles(),
        preset_position(a) < 4,
        preset_position(first_camera().preset) == 0,
        first_camera().preset.angles() == (first_camera().yaw, first_camera().pitch),
        AxisPreset::Xy.angles() == (Real32 { bits: 0 }, Real32 { bits: 0 }),
        AxisPreset::Xz.angles().0 == (Real32 { bits: 0 }),
        AxisPreset::Xz.angles().1.lt(Real32 { bits: 0xbfc0_0000 }),
        (Real32 { bits: 0xbfc9_0fdb }).lt(AxisPreset::Xz.angles().1),
        AxisPreset::Yz.angles() == (Real32 { bits: 0x3fc9_0fdb }, Real32 { bits: 0 }),
        (Real32 { bits: 0 }).lt(AxisPreset::Isometric.angles().0),
        (Real32 { bits: 0 }).lt(AxisPreset::Isometric.angles().1),
        AxisPreset::Isometric.angles().1.lt(AxisPreset::Isometric.angles().0),
        AxisPreset::Isometric.angles().0.lt(Real32 { bits: 0x3f80_0000 }),
        a.name() == (match a {
            AxisPreset::Xy => "XY"@,
            AxisPreset::Xz => "XT"@,
            AxisPreset::Yz => "YT"@,
            AxisPreset::Isometric => "ISO"@,
        }),
{
}

/// The footer counts the layers and points that are shown, and has a further
/// line for the history and for the focus where there is one.
pub proof fn footers_count_what_is_shown(
    scene: Investigation3dScene,
    history: Option<RawHistoryFooterStatus>,
)
    ensures
        footer_texts(scene, history).len() == 2 + (if history is Some {
            1int
        } else {
            0
        }) + (if scene.focus_volume is Some {
            1int
        } else {
            0
        }),
        footer_texts(scene, history)[0] == "Layers: "@ + decimal(visible_titles(scene.layers@).len()),
        footer_texts(scene, history)[1] == "Points: "@ + decimal(
            points_of(scene.layers@, true).len(),
        ),
        scene.focus_volume matches Some(volume) ==> footer_texts(scene, history).last()
            == "Focus: "@ + volume.label@,
        details_texts(scene, history).len() == 3 + (if history is Some {
            1int
        } else {
            0
        }) + (if scene.focus_volume is Some {
            1int
        } else {
            0
        }),
        scene.focus_volume matches Some(volume) ==> details_texts(scene, history)[details_texts(
            scene,
            history,
        ).len() - 3] == "Focus volume: "@ + volume.label@,
        scene.layers@.len() == 0 ==> details_texts(scene, history)[0] == "Layers: "@ + decimal(0),
{
}

/// The first point with a key is one, and there is one wherever a point has
/// the key.
pub proof fn first_points_are_unique(
    points: Seq<Investigation3dPoint>,
    key: (Seq<char>, Seq<char>),
    i: int,
    j: int,
)
    requires
        0 <= j < points.len(),
        key_pair(points[j].item_key) == Some(key),
    ensures
        exists|k: int| 0 <= k <= j && first_with_key(points, key, k),
        !no_point_with_key(points, key),
        first_with_key(points, key, i) ==> i <= j && key_pair(points[i].item_key) == Some(key),
    decreases j,
{
    if first_with_key(points, key, j) {
        assert(0 <= j <= j);
    } else {
        let k = choose|k: int|
            0 <= k < j && key_pair((#[trigger] points[k]).item_key) == Some(key);
        first_points_are_unique(points, key, i, k);
        let f = choose|f: int| 0 <= f <= k && first_with_key(points, key, f);
        assert(0 <= f <= j && first_with_key(points, key, f));
    }
}

/// A scene whose layers are all hidden shows no point, and one whose layers are
/// all visible shows every point.
pub proof fn hidden_layers_show_nothing(scene: Investigation3dScene)
    ensures
        (forall|l: int| 0 <= l < scene.layers@.len() ==> !(#[trigger] scene.layers@[l]).visible)
            ==> scene.visible_points().len() == 0,
        (forall|l: int| 0 <= l < scene.layers@.len() ==> (#[trigger] scene.layers@[l]).visible)
            ==> scene.visible_points() == scene.all_points(),
        (forall|l: int|
            0 <= l < scene.layers@.len() ==> (#[trigger] scene.layers@[l]).points@.len() == 0)
            <==> scene.all_points().len() == 0,
{
    layers_show_all_or_nothing(scene.layers@);
}

proof fn layers_show_all_or_nothing(layers: Seq<Investigation3dLayer>)
    ensures
        (forall|l: int| 0 <= l < layers.len() ==> !(#[trigger] layers[l]).visible) ==> points_of(
            layers,
            true,
        ).len() == 0,
        (forall|l: int| 0 <= l < layers.len() ==> (#[trigger] layers[l]).visible) ==> points_of(
            layers,
            true,
        ) == points_of(layers, false),
        (forall|l: int| 0 <= l < layers.len() ==> (#[trigger] layers[l]).points@.len() == 0)
            <==> points_of(layers, false).len() == 0,
    decreases layers.len(),
{
    if layers.len() > 0 {
        let rest = layers.drop_last();
        layers_show_all_or_nothing(rest);
        assert(layers[layers.len() - 1] == layers.last());
        assert(forall|l: int| 0 <= l < rest.len() ==> layers[l] == #[trigger] rest[l]);
        assert(forall|l: int| 0 <= l < rest.len() ==> #[trigger] layers[l] == rest[l]);
    }
}

/// A history that is not there counts as empty, and one that is shorter than
/// it was asked for is said to be what the buffer holds, where it has a sample.
pub proof fn histories_tell_what_is_kept(status: RawHistoryFooterStatus)
    ensures
        or_zero(None) == (Real32 { bits: 0 }),
        status.retained_ms matches Some(ms) ==> or_zero(status.retained_ms) == ms,
        status.sample_count == 0 ==> status.text() == "History: requested "@ + rounded_text_32(
            status.requested_ms,
        ) + " ms, retained "@ + tenths_text_32(or_zero(status.retained_ms)) + " ms"@ + ", sample "@
            + decimal(0) + " / "@ + decimal(status.point_limit as nat) + " points."@,
        status.sample_count > 0 && !plus_of(
            or_zero(status.retained_ms),
            Real32 { bits: 0x3400_0000 },
        ).lt(status.requested_ms) ==> status.text() == "History: requested "@ + rounded_text_32(
            status.requested_ms,
        ) + " ms, retained "@ + tenths_text_32(or_zero(status.retained_ms)) + " ms"@ + ", sample "@
            + decimal(status.sample_count as nat) + " / "@ + decimal(status.point_limit as nat)
            + " points."@,
        status.sample_count > 0 && plus_of(
            or_zero(status.retained_ms),
            Real32 { bits: 0x3400_0000 },
        ).lt(status.requested_ms) ==> status.text() == "History: requested "@ + rounded_text_32(
            status.requested_ms,
        ) + " ms, retained "@ + tenths_text_32(or_zero(status.retained_ms)) + " ms"@
            + " from the current buffer"@ + ", sample "@ + decimal(status.sample_count as nat)
            + " / "@ + decimal(status.point_limit as nat) + " points."@,
{
    let start = "History: requested "@ + rounded_text_32(status.requested_ms) + " ms, retained "@
        + tenths_text_32(or_zero(status.retained_ms)) + " ms"@;
    assert(start + Seq::<char>::empty() =~= start);
}

} // verus!
