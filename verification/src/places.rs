//! Where the points of a planned scene stand in space, and how large they are.
use crate::arithmetic::{minus, minus_of};
use crate::binary32::{
    from_real64, from_whole, in_32, whole_32, whole_32_parts, whole_numbers_keep_order_32,
};
use crate::binary64::{whole, Real32, Real64, ONE_BITS_32};
use crate::dataset_cache::HostDatasetCacheEntry;
use crate::inspection_3d::{
    Investigation3dFocusVolume, Investigation3dLayer, Investigation3dPoint, Investigation3dScene,
    Position3,
};
use crate::investigation::InvestigationState;
use crate::registry::ResolvedHostViewRegistry;
use crate::rows::{AnalysisRoi, StableRowKey};
use crate::scene::{
    is_scene_plan, last_pixel, plan_investigation_scene_3d, refers_below, CdEvent, PlannedLayer,
    PlannedPoint, RawEventLayer, RawEventPoint, ScenePlan,
};
use crate::single::{
    negated, opposite, quotient, quotient_of, times, times_of,
    whole_numbers_are_calculated_exactly,
};
use crate::text_map::TextMap;
use crate::whole_text::{push_rounded, rounded_text};
use vstd::arithmetic::power2::lemma2_to64;
use vstd::prelude::*;

verus! {

/// The pattern of one thousand, the microseconds of a millisecond.
pub const THOUSAND_BITS: u32 = 0x447a_0000;

/// The smallest size of an event that stands out, 1.5, and what it is
/// multiplied by, 1.05.
pub const EMPHASISED_SIZE_BITS: u32 = 0x3fc0_0000;

pub const EMPHASISED_SCALE_BITS: u32 = 0x3f86_6666;

/// What the size of an event in the background is multiplied by, 0.85. It is
/// at least one before.
pub const BACKGROUND_SCALE_BITS: u32 = 0x3f59_999a;

/// The height above the bottom of the sensor of a position that counts from its
/// top: not below the bottom.
pub open spec fn height_above(last: nat, y: Real64) -> Real32 {
    in_32(minus_of(whole(last), y).larger_of(Real64 { bits: 0 }))
}

pub fn sensor_y_to_world(sensor_height: u16, sensor_y: Real64) -> (out: Real32)
    ensures
        out == height_above(last_pixel(sensor_height), sensor_y),
{
    let last: u16 = if sensor_height == 0 {
        0
    } else {
        sensor_height - 1
    };
    from_real64(minus(Real64::from_u16(last), sensor_y).larger(Real64 { bits: 0 }))
}

/// How much depth one millisecond takes: the height of the sensor is the
/// depth of the window, which is at least a millisecond long.
pub open spec fn depth_scale(sensor_height: u16, window_ms: Real32) -> Real32 {
    let height = if sensor_height == 0 {
        1nat
    } else {
        sensor_height as nat
    };
    quotient_of(whole_32(height), window_ms.larger_of(Real32 { bits: ONE_BITS_32 }))
}

pub fn raw_event_depth_scale(sensor_height: u16, time_window_ms: Real32) -> (out: Real32)
    ensures
        out == depth_scale(sensor_height, time_window_ms),
{
    let height: u64 = if sensor_height == 0 {
        1
    } else {
        sensor_height as u64
    };
    quotient(from_whole(height), time_window_ms.larger(Real32 { bits: ONE_BITS_32 }))
}

/// How deep a span of microseconds reaches, away from the viewer.
pub open spec fn depth_of(span_us: nat, scale: Real32) -> Real32 {
    times_of(
        opposite(quotient_of(whole_32(span_us), Real32 { bits: THOUSAND_BITS })),
        scale,
    )
}

fn depth(span_us: u64, scale: Real32) -> (out: Real32)
    ensures
        out == depth_of(span_us as nat, scale),
{
    let span_ms = quotient(from_whole(span_us), Real32 { bits: THOUSAND_BITS });
    times(negated(span_ms), scale)
}

/// How long before `latest` something happened: never less than nothing.
pub open spec fn age(latest: u64, timestamp: u64) -> nat {
    if timestamp < latest {
        (latest - timestamp) as nat
    } else {
        0
    }
}

/// The position of a raw event: rows count from the top of the sensor and
/// heights from its bottom, and the latest event is in front.
pub open spec fn raw_position(
    event: CdEvent,
    latest: u64,
    sensor_height: u16,
    window_ms: Real32,
) -> Position3 {
    let last = last_pixel(sensor_height);
    Position3 {
        x: whole_32(event.x as nat),
        y: whole_32(
            if event.y < last {
                (last - event.y) as nat
            } else {
                0
            },
        ),
        z: depth_of(age(latest, event.timestamp), depth_scale(sensor_height, window_ms)),
    }
}

pub fn raw_event_point_position(
    event: CdEvent,
    latest_timestamp: u64,
    sensor_height: u16,
    effective_time_window_ms: Real32,
) -> (out: Position3)
    ensures
        out == raw_position(event, latest_timestamp, sensor_height, effective_time_window_ms),
{
    let last: u16 = if sensor_height == 0 {
        0
    } else {
        sensor_height - 1
    };
    let height: u16 = if event.y < last {
        last - event.y
    } else {
        0
    };
    let span: u64 = if event.timestamp < latest_timestamp {
        latest_timestamp - event.timestamp
    } else {
        0
    };
    let scale = raw_event_depth_scale(sensor_height, effective_time_window_ms);
    Position3 {
        x: from_whole(event.x as u64),
        y: from_whole(height as u64),
        z: depth(span, scale),
    }
}

/// The size of a raw event. An event that stands out is larger.
pub open spec fn raw_size(size: Real32, emphasised: bool) -> Real32 {
    if emphasised {
        times_of(
            size.larger_of(Real32 { bits: EMPHASISED_SIZE_BITS }),
            Real32 { bits: EMPHASISED_SCALE_BITS },
        )
    } else {
        times_of(
            size.larger_of(Real32 { bits: ONE_BITS_32 }),
            Real32 { bits: BACKGROUND_SCALE_BITS },
        )
    }
}

fn raw_event_size(size: Real32, emphasised: bool) -> (out: Real32)
    ensures
        out == raw_size(size, emphasised),
{
    if emphasised {
        times(
            size.larger(Real32 { bits: EMPHASISED_SIZE_BITS }),
            Real32 { bits: EMPHASISED_SCALE_BITS },
        )
    } else {
        times(
            size.larger(Real32 { bits: ONE_BITS_32 }),
            Real32 { bits: BACKGROUND_SCALE_BITS },
        )
    }
}

/// Whether a coordinate is the given number, as near as it can be had.
pub open spec fn shortened(coordinate: Real64, out: Real32) -> bool {
    if coordinate.is_nan() {
        out.is_nan()
    } else {
        out == in_32(coordinate)
    }
}

/// Whether a planned point of a view stands in space as it was planned.
pub open spec fn is_placed(point: PlannedPoint, out: Investigation3dPoint) -> bool {
    &&& shortened(point.position.0, out.position.x)
    &&& shortened(point.position.1, out.position.y)
    &&& shortened(point.position.2, out.position.z)
    &&& out.color == point.color
    &&& out.size == point.size
    &&& out.item_key == Some(point.item_key)
    &&& out.label == point.label
}

/// Whether a raw event stands in space at its position.
pub open spec fn is_placed_event(
    layer: RawEventLayer,
    point: RawEventPoint,
    position: Position3,
    out: Investigation3dPoint,
) -> bool {
    &&& out.position == position
    &&& out.color == point.color
    &&& out.size == raw_size(layer.size, point.emphasised)
    &&& out.item_key is None
    &&& out.label == layer.title
}

pub open spec fn is_placed_layer(layer: PlannedLayer, out: Investigation3dLayer) -> bool {
    &&& out.id == layer.id
    &&& out.title == layer.title
    &&& out.visible
    &&& out.points@.len() == layer.points@.len()
    &&& forall|i: int|
        0 <= i < out.points@.len() ==> is_placed(layer.points@[i], #[trigger] out.points@[i])
}

pub open spec fn is_placed_raw_layer(
    layer: RawEventLayer,
    events: Seq<CdEvent>,
    sensor_height: u16,
    window_ms: Real32,
    out: Investigation3dLayer,
) -> bool {
    &&& out.id == layer.id
    &&& out.title == layer.title
    &&& out.visible
    &&& out.points@.len() == layer.points@.len()
    &&& forall|i: int|
        0 <= i < out.points@.len() ==> is_placed_event(
            layer,
            layer.points@[i],
            raw_position(
                events[layer.points@[i].event as int],
                latest_of(events),
                sensor_height,
                window_ms,
            ),
            #[trigger] out.points@[i],
        )
}

/// The time of the last event.
pub open spec fn latest_of(events: Seq<CdEvent>) -> u64 {
    if events.len() == 0 {
        0
    } else {
        events.last().timestamp
    }
}

fn placed_layer(layer: &PlannedLayer) -> (out: Investigation3dLayer)
    ensures
        is_placed_layer(*layer, out),
{
    let mut points: Vec<Investigation3dPoint> = Vec::new();
    let mut i: usize = 0;
    while i < layer.points.len()
        invariant
            i <= layer.points@.len(),
            points@.len() == i,
            forall|k: int| 0 <= k < i ==> is_placed(layer.points@[k], #[trigger] points@[k]),
        decreases layer.points@.len() - i,
    {
        let point = &layer.points[i];
        points.push(
            Investigation3dPoint {
                position: Position3 {
                    x: from_real64(point.position.0),
                    y: from_real64(point.position.1),
                    z: from_real64(point.position.2),
                },
                color: point.color,
                size: point.size,
                item_key: Some(
                    StableRowKey {
                        dataset_id: point.item_key.dataset_id.clone(),
                        row_id: point.item_key.row_id.clone(),
                    },
                ),
                label: point.label.clone(),
            },
        );
        i = i + 1;
    }
    Investigation3dLayer {
        id: layer.id.clone(),
        title: layer.title.clone(),
        visible: true,
        points,
    }
}

fn placed_raw_layer(
    layer: &RawEventLayer,
    events: &Vec<CdEvent>,
    sensor_height: u16,
    window_ms: Real32,
) -> (out: Investigation3dLayer)
    requires
        refers_below(*layer, events@.len()),
    ensures
        is_placed_raw_layer(*layer, events@, sensor_height, window_ms, out),
{
    let latest: u64 = if events.len() == 0 {
        0
    } else {
        events[events.len() - 1].timestamp
    };
    let mut points: Vec<Investigation3dPoint> = Vec::new();
    let mut i: usize = 0;
    while i < layer.points.len()
        invariant
            i <= layer.points@.len(),
            points@.len() == i,
            latest == latest_of(events@),
            refers_below(*layer, events@.len()),
            forall|k: int|
                0 <= k < i ==> is_placed_event(
                    *layer,
                    layer.points@[k],
                    raw_position(
                        events@[layer.points@[k].event as int],
                        latest,
                        sensor_height,
                        window_ms,
                    ),
                    #[trigger] points@[k],
                ),
        decreases layer.points@.len() - i,
    {
        let point = &layer.points[i];
        points.push(
            Investigation3dPoint {
                position: raw_event_point_position(
                    events[point.event],
                    latest,
                    sensor_height,
                    window_ms,
                ),
                color: point.color,
                size: raw_event_size(layer.size, point.emphasised),
                item_key: None,
                label: layer.title.clone(),
            },
        );
        i = i + 1;
    }
    Investigation3dLayer {
        id: layer.id.clone(),
        title: layer.title.clone(),
        visible: true,
        points,
    }
}

/// Whether layers stand in space as a plan has them: those of the views, then
/// those of the raw events.
pub open spec fn are_placed(
    plan: ScenePlan,
    events: Seq<CdEvent>,
    sensor_height: u16,
    window_ms: Real32,
    out: Seq<Investigation3dLayer>,
) -> bool {
    &&& out.len() == plan.layers@.len() + plan.raw_layers@.len()
    &&& forall|i: int|
        0 <= i < plan.layers@.len() ==> is_placed_layer(plan.layers@[i], #[trigger] out[i])
    &&& forall|i: int|
        0 <= i < plan.raw_layers@.len() ==> is_placed_raw_layer(
            #[trigger] plan.raw_layers@[i],
            events,
            sensor_height,
            window_ms,
            out[plan.layers@.len() + i],
        )
}

fn place_layers(
    plan: &ScenePlan,
    events: &Vec<CdEvent>,
    sensor_height: u16,
    effective_time_window_ms: Real32,
) -> (out: Vec<Investigation3dLayer>)
    requires
        plan.shows_events_of(events@),
    ensures
        are_placed(*plan, events@, sensor_height, effective_time_window_ms, out@),
{
    let mut layers: Vec<Investigation3dLayer> = Vec::new();
    let mut i: usize = 0;
    while i < plan.layers.len()
        invariant
            i <= plan.layers@.len(),
            layers@.len() == i,
            forall|k: int| 0 <= k < i ==> is_placed_layer(plan.layers@[k], #[trigger] layers@[k]),
        decreases plan.layers@.len() - i,
    {
        layers.push(placed_layer(&plan.layers[i]));
        i = i + 1;
    }
    let mut j: usize = 0;
    while j < plan.raw_layers.len()
        invariant
            plan.shows_events_of(events@),
            j <= plan.raw_layers@.len(),
            layers@.len() == plan.layers@.len() + j,
            forall|k: int|
                0 <= k < plan.layers@.len() ==> is_placed_layer(
                    plan.layers@[k],
                    #[trigger] layers@[k],
                ),
            forall|k: int|
                0 <= k < j ==> is_placed_raw_layer(
                    #[trigger] plan.raw_layers@[k],
                    events@,
                    sensor_height,
                    effective_time_window_ms,
                    layers@[plan.layers@.len() + k],
                ),
        decreases plan.raw_layers@.len() - j,
    {
        layers.push(
            placed_raw_layer(
                &plan.raw_layers[j],
                events,
                sensor_height,
                effective_time_window_ms,
            ),
        );
        j = j + 1;
    }
    layers
}

/// The colour of the box around a focused region.
pub const FOCUS_COLOR: [u8; 4] = [255, 221, 116, 220];

/// The text next to the box around a region: its bounds.
pub open spec fn focus_label(roi: AnalysisRoi) -> Seq<char> {
    "x "@ + rounded_text(roi.x_min) + ".."@ + rounded_text(roi.x_max) + ", y "@ + rounded_text(
        roi.y_min,
    ) + ".."@ + rounded_text(roi.y_max)
}

/// Whether a box is that around a region, as deep as the events between two
/// times.
pub open spec fn is_focus_volume(
    roi: AnalysisRoi,
    earliest: u64,
    latest: u64,
    sensor_height: u16,
    window_ms: Real32,
    out: Investigation3dFocusVolume,
) -> bool {
    let last = last_pixel(sensor_height);
    &&& shortened(roi.x_min, out.min.x)
    &&& shortened(roi.x_max, out.max.x)
    &&& out.min.y == height_above(last, roi.y_max)
    &&& out.max.y == height_above(last, roi.y_min)
    &&& out.min.z == depth_of(age(latest, earliest), depth_scale(sensor_height, window_ms))
    &&& out.max.z == Real32 { bits: 0 }
    &&& out.label@ == focus_label(roi)
    &&& out.color@ == FOCUS_COLOR@
}

pub fn raw_event_focus_volume(
    roi: &AnalysisRoi,
    earliest_timestamp: u64,
    latest_timestamp: u64,
    sensor_height: u16,
    effective_time_window_ms: Real32,
) -> (out: Investigation3dFocusVolume)
    ensures
        is_focus_volume(
            *roi,
            earliest_timestamp,
            latest_timestamp,
            sensor_height,
            effective_time_window_ms,
            out,
        ),
{
    let span: u64 = if earliest_timestamp < latest_timestamp {
        latest_timestamp - earliest_timestamp
    } else {
        0
    };
    let scale = raw_event_depth_scale(sensor_height, effective_time_window_ms);
    let mut label = "x ".to_owned();
    push_rounded(&mut label, roi.x_min);
    label.append("..");
    push_rounded(&mut label, roi.x_max);
    label.append(", y ");
    push_rounded(&mut label, roi.y_min);
    label.append("..");
    push_rounded(&mut label, roi.y_max);
    Investigation3dFocusVolume {
        min: Position3 {
            x: from_real64(roi.x_min),
            y: sensor_y_to_world(sensor_height, roi.y_max),
            z: depth(span, scale),
        },
        max: Position3 {
            x: from_real64(roi.x_max),
            y: sensor_y_to_world(sensor_height, roi.y_min),
            z: Real32 { bits: 0 },
        },
        label,
        color: FOCUS_COLOR,
    }
}

/// The time of the first event.
pub open spec fn earliest_of(events: Seq<CdEvent>) -> u64 {
    if events.len() == 0 {
        0
    } else {
        events[0].timestamp
    }
}

/// Whether a scene shows what a plan says: the placed layers, and a box around
/// the focused region.
pub open spec fn is_scene_of(
    plan: ScenePlan,
    events: Seq<CdEvent>,
    sensor_height: u16,
    window_ms: Real32,
    out: Investigation3dScene,
) -> bool {
    &&& are_placed(plan, events, sensor_height, window_ms, out.layers@)
    &&& match plan.focus {
        Some(roi) => out.focus_volume matches Some(volume) && is_focus_volume(
            roi,
            earliest_of(events),
            latest_of(events),
            sensor_height,
            window_ms,
            volume,
        ),
        None => out.focus_volume is None,
    }
}

/// Places a plan in space.
pub fn place_scene(
    plan: &ScenePlan,
    events: &Vec<CdEvent>,
    sensor_height: u16,
    effective_time_window_ms: Real32,
) -> (out: Investigation3dScene)
    requires
        plan.shows_events_of(events@),
    ensures
        is_scene_of(*plan, events@, sensor_height, effective_time_window_ms, out),
{
    let layers = place_layers(plan, events, sensor_height, effective_time_window_ms);
    let n: usize = events.len();
    let earliest: u64 = if n == 0 {
        0
    } else {
        events[0].timestamp
    };
    let latest: u64 = if n == 0 {
        0
    } else {
        events[n - 1].timestamp
    };
    let focus_volume = match &plan.focus {
        Some(roi) => Some(
            raw_event_focus_volume(
                roi,
                earliest,
                latest,
                sensor_height,
                effective_time_window_ms,
            ),
        ),
        None => None,
    };
    Investigation3dScene { layers, focus_volume }
}

/// Builds what the view of space shows.
pub fn build_investigation_scene_3d(
    state: &InvestigationState,
    registry: &ResolvedHostViewRegistry,
    cache: &TextMap<HostDatasetCacheEntry>,
    window: Option<(u64, u64)>,
    events: &Vec<CdEvent>,
    sensor_width: u16,
    sensor_height: u16,
    effective_time_window_ms: Real32,
) -> (out: Investigation3dScene)
    ensures
        exists|plan: ScenePlan| #[trigger]
            is_scene_plan(
                *state,
                registry.model(),
                *cache,
                window,
                events@,
                sensor_width,
                sensor_height,
                plan,
            ) && is_scene_of(plan, events@, sensor_height, effective_time_window_ms, out),
{
    let plan = plan_investigation_scene_3d(
        state,
        registry,
        cache,
        window,
        events,
        sensor_width,
        sensor_height,
    );
    place_scene(&plan, events, sensor_height, effective_time_window_ms)
}

// ---------------------------------------------------------------------------
// Laws
// ---------------------------------------------------------------------------
/// A raw event stands in its column, as high above the bottom of the sensor as
/// its row is above the last one, and as far behind the latest event as it is
/// older: a millisecond takes the height of the sensor divided by the length of
/// the window.
pub proof fn events_stand_at_their_pixel_and_time(
    event: CdEvent,
    latest: u64,
    sensor_height: u16,
    window_ms: nat,
    scale: nat,
    age_ms: nat,
)
    requires
        event.y < sensor_height,
        0 < window_ms < 0x100_0000,
        sensor_height == scale * window_ms,
        latest == event.timestamp + age_ms * 1_000,
        age_ms * 1_000 < 0x100_0000,
        age_ms * scale < 0x100_0000,
    ensures
        ({
            let place = raw_position(event, latest, sensor_height, whole_32(window_ms));
            &&& place.x == whole_32(event.x as nat)
            &&& place.y == whole_32((sensor_height - 1 - event.y) as nat)
            &&& place.z == opposite(whole_32(age_ms * scale))
        }),
{
    whole_numbers_keep_order_32(1, window_ms);
    whole_numbers_keep_order_32(window_ms, 1);
    assert(window_ms * scale == scale * window_ms) by (nonlinear_arith);
    assert(scale <= scale * window_ms) by (nonlinear_arith)
        requires
            window_ms >= 1,
            scale >= 0,
    ;
    whole_numbers_are_calculated_exactly(scale, window_ms);
    let one = Real32 { bits: ONE_BITS_32 };
    assert(whole_32(1) == one);
    assert(whole_32(window_ms).larger_of(one) == whole_32(window_ms));
    assert(depth_scale(sensor_height, whole_32(window_ms)) == whole_32(scale));
    lemma2_to64();
    whole_32_parts(1_000, 14);
    assert(whole_32(1_000).bits == THOUSAND_BITS);
    whole_numbers_are_calculated_exactly(age_ms, 1_000);
    assert(quotient_of(whole_32(age_ms * 1_000), Real32 { bits: THOUSAND_BITS }) == whole_32(
        age_ms,
    ));
    whole_numbers_are_calculated_exactly(age_ms, scale);
}

/// Nothing is younger than the latest event.
pub proof fn ages_count_back_from_the_latest(latest: u64, timestamp: u64)
    ensures
        timestamp <= latest ==> timestamp + age(latest, timestamp) == latest,
        timestamp > latest ==> age(latest, timestamp) == 0,
{
}

/// The latest event is the last one and the earliest the first one.
pub proof fn events_are_timed_by_their_ends(events: Seq<CdEvent>)
    ensures
        events.len() > 0 ==> latest_of(events) == events[events.len() - 1].timestamp
            && earliest_of(events) == events[0].timestamp,
        events.len() == 0 ==> latest_of(events) == 0 && earliest_of(events) == 0,
{
}

/// A point of a view stands in space at the three coordinates that were
/// planned, in their order, with its own key.
pub proof fn planned_points_keep_their_coordinates(
    point: PlannedPoint,
    out: Investigation3dPoint,
)
    requires
        is_placed(point, out),
        !point.position.0.is_nan(),
        !point.position.1.is_nan(),
        !point.position.2.is_nan(),
    ensures
        out.position.x == in_32(point.position.0),
        out.position.y == in_32(point.position.1),
        out.position.z == in_32(point.position.2),
        out.item_key == Some(point.item_key),
        out.color == point.color,
        out.size == point.size,
{
}

/// The box around a region reaches from its left to its right, from its last
/// row up to its first one, and from the earliest event to the front.
pub proof fn boxes_hold_their_region(
    roi: AnalysisRoi,
    earliest: u64,
    latest: u64,
    sensor_height: u16,
    window_ms: Real32,
    out: Investigation3dFocusVolume,
)
    requires
        is_focus_volume(roi, earliest, latest, sensor_height, window_ms, out),
        !roi.x_min.is_nan(),
        !roi.x_max.is_nan(),
        sensor_height > 0,
    ensures
        out.min.x == in_32(roi.x_min),
        out.max.x == in_32(roi.x_max),
        out.min.y == in_32(
            minus_of(whole((sensor_height - 1) as nat), roi.y_max).larger_of(Real64 { bits: 0 }),
        ),
        out.max.y == in_32(
            minus_of(whole((sensor_height - 1) as nat), roi.y_min).larger_of(Real64 { bits: 0 }),
        ),
        out.max.z.bits == 0,
        out.min.z == depth_of(age(latest, earliest), depth_scale(sensor_height, window_ms)),
{
}

/// The scene of a plan has its layers in their order, those of the views
/// before those of the raw events, each with its name and as many points, and
/// a focus exactly where the plan has one.
pub proof fn scenes_have_the_layers_of_their_plan(
    plan: ScenePlan,
    events: Seq<CdEvent>,
    sensor_height: u16,
    window_ms: Real32,
    out: Investigation3dScene,
    i: int,
    p: int,
)
    requires
        is_scene_of(plan, events, sensor_height, window_ms, out),
    ensures
        out.layers@.len() == plan.layers@.len() + plan.raw_layers@.len(),
        out.focus_volume is Some <==> plan.focus is Some,
        0 <= i < plan.layers@.len() ==> out.layers@[i].id == plan.layers@[i].id
            && out.layers@[i].title == plan.layers@[i].title && out.layers@[i].visible
            && out.layers@[i].points@.len() == plan.layers@[i].points@.len(),
        0 <= i < plan.layers@.len() && 0 <= p < plan.layers@[i].points@.len() ==> is_placed(
            plan.layers@[i].points@[p],
            out.layers@[i].points@[p],
        ) && out.layers@[i].points@[p].item_key == Some(plan.layers@[i].points@[p].item_key),
        0 <= i < plan.raw_layers@.len() ==> ({
            let layer = out.layers@[plan.layers@.len() + i];
            &&& layer.id == plan.raw_layers@[i].id
            &&& layer.title == plan.raw_layers@[i].title
            &&& layer.visible
            &&& layer.points@.len() == plan.raw_layers@[i].points@.len()
        }),
        0 <= i < plan.raw_layers@.len() && 0 <= p < plan.raw_layers@[i].points@.len() ==> ({
            let point = out.layers@[plan.layers@.len() + i].points@[p];
            let shown = plan.raw_layers@[i].points@[p];
            &&& point.item_key is None
            &&& point.color == shown.color
            &&& point.label == plan.raw_layers@[i].title
            &&& point.position == raw_position(
                events[shown.event as int],
                latest_of(events),
                sensor_height,
                window_ms,
            )
        }),
{
    if 0 <= i < plan.raw_layers@.len() {
        assert(is_placed_raw_layer(
            plan.raw_layers@[i],
            events,
            sensor_height,
            window_ms,
            out.layers@[plan.layers@.len() + i],
        ));
        let layer = out.layers@[plan.layers@.len() + i];
        if 0 <= p < plan.raw_layers@[i].points@.len() {
            assert(layer.points@[p] == layer.points@[p]);
        }
    }
    if 0 <= i < plan.layers@.len() {
        assert(is_placed_layer(plan.layers@[i], out.layers@[i]));
        if 0 <= p < plan.layers@[i].points@.len() {
            assert(is_placed(plan.layers@[i].points@[p], out.layers@[i].points@[p]));
        }
    }
}

} // verus!
