//! What the linked 2D and 3D views show: the points of the datasets and the
//! raw events.
use crate::binary64::{whole, Real32, Real64};
use crate::dataset_cache::{find_table, table_of, HostDatasetCacheEntry, TableEntry, TableHandle};
use crate::host_data::{HostDatasetKind, HostMarkerShape, HostViewKind, TableSchema};
use crate::investigation::{
    dataset_layer_id, default_style, filtered_row_indices, layer_of, linked_rows,
    linked_rows_are_those_of_the_region, or_default, same_but_layers, InvestigationLayerStyle,
    InvestigationState,
};
use crate::lists::{filtered_list_holds, joined_lists_hold};
use crate::registry::{
    RegistryModel, ResolvedHostDataset, ResolvedHostView, ResolvedHostViewRegistry,
};
use crate::related::{are_origins, resolve_selection_event_ids, RowPair};
use crate::rows::{
    coordinate_2d_for_row, coordinate_3d_for_row, in_window, number_at, plane_point,
    retain_rows_in_frame_span, row_in_span, row_key, row_key_for_row, sensor_area, space_point,
    AnalysisRoi, RoiConfig, StableRowKey,
};
use crate::text_map::TextMap;
use std::collections::{HashMap, HashSet};
use vstd::prelude::*;

verus! {

broadcast use vstd::std_specs::hash::group_hash_axioms;

/// The layer of the raw events that got brighter.
pub const RAW_EVENTS_ON_LAYER_ID: &'static str = "host.raw_events.on";

/// The layer of the raw events that got darker.
pub const RAW_EVENTS_OFF_LAYER_ID: &'static str = "host.raw_events.off";

pub const RAW_EVENTS_ON_COLOR: [u8; 4] = [255, 186, 92, 240];

pub const RAW_EVENTS_OFF_COLOR: [u8; 4] = [92, 214, 201, 220];

/// The marker size of a raw event: the pattern of 2.
pub const RAW_EVENT_SIZE_BITS: u32 = 0x4000_0000;

/// The highest opacity of a raw event that stands in the background.
pub const BACKGROUND_ALPHA: u8 = 36;

// ---------------------------------------------------------------------------
// Layers and region
// ---------------------------------------------------------------------------
/// Restricts the linked views to the selected annotation, or to the sensor
/// region where none is selected, or to nothing where the views are not
/// linked.
pub fn sync_active_analysis_roi(
    state: &mut InvestigationState,
    sensor_roi: RoiConfig,
    annotation: Option<AnalysisRoi>,
)
    ensures
        *final(state) == (InvestigationState {
            active_analysis_roi: if old(state).link_roi_between_2d_and_3d {
                Some(or_default(annotation, sensor_area(sensor_roi)))
            } else {
                None
            },
            ..*old(state)
        }),
{
    if !state.link_roi_between_2d_and_3d {
        state.active_analysis_roi = None;
        return ;
    }
    state.active_analysis_roi = match annotation {
        Some(area) => Some(area),
        None => Some(AnalysisRoi::from_sensor_roi(sensor_roi)),
    };
}

/// The style of a raw event layer as the host decides it.
pub open spec fn raw_layer_style(style: InvestigationLayerStyle, on: bool) -> bool {
    &&& style.title@ == (if on {
        "Raw Events ON"@
    } else {
        "Raw Events OFF"@
    })
    &&& style.visible
    &&& style.color == (if on {
        RAW_EVENTS_ON_COLOR
    } else {
        RAW_EVENTS_OFF_COLOR
    })
    &&& style.marker_shape == HostMarkerShape::Point
    &&& style.size.bits == RAW_EVENT_SIZE_BITS
}

fn raw_style(on: bool) -> (out: InvestigationLayerStyle)
    ensures
        raw_layer_style(out, on),
{
    InvestigationLayerStyle {
        title: if on {
            "Raw Events ON".to_owned()
        } else {
            "Raw Events OFF".to_owned()
        },
        visible: true,
        color: if on {
            RAW_EVENTS_ON_COLOR
        } else {
            RAW_EVENTS_OFF_COLOR
        },
        marker_shape: HostMarkerShape::Point,
        size: Real32 { bits: RAW_EVENT_SIZE_BITS },
    }
}

/// The schema of a resolved dataset, where it is a table.
pub open spec fn dataset_schema(dataset: ResolvedHostDataset) -> Option<TableSchema> {
    match dataset.descriptor.kind {
        HostDatasetKind::TableV1(schema) => Some(schema),
        _ => None,
    }
}

/// The layer of a resolved dataset.
pub open spec fn dataset_layer(dataset: ResolvedHostDataset) -> Seq<char> {
    layer_of(dataset.descriptor, dataset_schema(dataset))
}

/// Whether a layer belongs to one of several datasets.
pub open spec fn has_dataset(datasets: Seq<ResolvedHostDataset>, id: Seq<char>) -> bool {
    exists|i: int| 0 <= i < datasets.len() && #[trigger] dataset_layer(datasets[i]) == id
}

/// Whether a dataset is the first one with its layer.
pub open spec fn is_first_with_layer(datasets: Seq<ResolvedHostDataset>, i: int) -> bool {
    forall|k: int|
        0 <= k < i ==> #[trigger] dataset_layer(datasets[k]) != dataset_layer(datasets[i])
}

pub open spec fn names_raw_layer(id: Seq<char>) -> bool {
    id == RAW_EVENTS_ON_LAYER_ID@ || id == RAW_EVENTS_OFF_LAYER_ID@
}

/// Whether a raw event layer has the style that the host decides, shown or
/// hidden as it was before.
pub open spec fn raw_layer_set(
    before: Option<InvestigationLayerStyle>,
    after: Option<InvestigationLayerStyle>,
    on: bool,
) -> bool {
    after matches Some(style) && raw_layer_style(
        InvestigationLayerStyle { visible: true, ..style },
        on,
    ) && style.visible == (match before {
        Some(existing) => existing.visible,
        None => true,
    })
}

/// What becomes of the layers: the raw events have the styles that the host
/// decides. The layer of a dataset keeps its style, and a new one gets that of
/// the first dataset in it. It keeps its visibility, and a new one is as visible
/// as its style says. All other layers are as they were.
pub open spec fn layers_synced(
    before: InvestigationState,
    after: InvestigationState,
    datasets: Seq<ResolvedHostDataset>,
) -> bool {
    &&& raw_layer_set(
        before.layer_styles.at(RAW_EVENTS_ON_LAYER_ID@),
        after.layer_styles.at(RAW_EVENTS_ON_LAYER_ID@),
        true,
    )
    &&& raw_layer_set(
        before.layer_styles.at(RAW_EVENTS_OFF_LAYER_ID@),
        after.layer_styles.at(RAW_EVENTS_OFF_LAYER_ID@),
        false,
    )
    &&& forall|i: int|
        0 <= i < datasets.len() && is_first_with_layer(datasets, i) && !names_raw_layer(
            dataset_layer(datasets[i]),
        ) ==> after.layer_styles.at(#[trigger] dataset_layer(datasets[i])) == Some(
            or_default(
                before.layer_styles.at(dataset_layer(datasets[i])),
                default_style(datasets[i].descriptor, dataset_schema(datasets[i])),
            ),
        )
    &&& forall|i: int|
        0 <= i < datasets.len() ==> layer_ready(after, datasets[i])
            && after.layer_visibility.at(#[trigger] dataset_layer(datasets[i])) == Some(
            or_default(
                before.layer_visibility.at(dataset_layer(datasets[i])),
                after.layer_styles.at(dataset_layer(datasets[i]))->0.visible,
            ),
        )
    &&& forall|id: Seq<char>|
        !names_raw_layer(id) && !has_dataset(datasets, id) ==> #[trigger] after.layer_styles.at(id)
            == before.layer_styles.at(id)
    &&& forall|id: Seq<char>|
        !has_dataset(datasets, id) ==> #[trigger] after.layer_visibility.at(id)
            == before.layer_visibility.at(id)
}

/// The layer of a dataset has a style and a visibility.
pub open spec fn layer_ready(state: InvestigationState, dataset: ResolvedHostDataset) -> bool {
    let id = dataset_layer(dataset);
    state.layer_styles.at(id) is Some && state.layer_visibility.at(id) is Some
}

/// One dataset more.
proof fn next_layer_synced(
    before: InvestigationState,
    now: InvestigationState,
    after: InvestigationState,
    datasets: Seq<ResolvedHostDataset>,
    next: ResolvedHostDataset,
)
    requires
        layers_synced(before, now, datasets),
        ({
            let id = dataset_layer(next);
            let style = or_default(
                now.layer_styles.at(id),
                default_style(next.descriptor, dataset_schema(next)),
            );
            &&& after.layer_styles.at(id) == Some(style)
            &&& after.layer_visibility.at(id) == Some(
                or_default(now.layer_visibility.at(id), style.visible),
            )
            &&& forall|other: Seq<char>|
                other != id ==> #[trigger] after.layer_styles.at(other) == now.layer_styles.at(
                    other,
                )
            &&& forall|other: Seq<char>|
                other != id ==> #[trigger] after.layer_visibility.at(other)
                    == now.layer_visibility.at(other)
        }),
    ensures
        layers_synced(before, after, datasets.push(next)),
{
    let all = datasets.push(next);
    let id = dataset_layer(next);
    assert(now.layer_styles.at(id) is Some ==> after.layer_styles.at(id)
        == now.layer_styles.at(id));
    if has_dataset(datasets, id) {
        let k = choose|k: int|
            0 <= k < datasets.len() && #[trigger] dataset_layer(datasets[k]) == id;
        assert(layer_ready(now, datasets[k]));
    }
    assert forall|i: int|
        0 <= i < all.len() && is_first_with_layer(all, i) && !names_raw_layer(
            dataset_layer(all[i]),
        ) implies after.layer_styles.at(#[trigger] dataset_layer(all[i])) == Some(
        or_default(
            before.layer_styles.at(dataset_layer(all[i])),
            default_style(all[i].descriptor, dataset_schema(all[i])),
        ),
    ) by {
        if i < datasets.len() {
            assert(all[i] == datasets[i]);
            assert(is_first_with_layer(datasets, i)) by {
                assert forall|k: int| 0 <= k < i implies #[trigger] dataset_layer(datasets[k])
                    != dataset_layer(datasets[i]) by {
                    assert(dataset_layer(all[k]) == dataset_layer(datasets[k]));
                }
            }
            assert(layer_ready(now, datasets[i]));
        } else {
            assert(!has_dataset(datasets, id)) by {
                if has_dataset(datasets, id) {
                    let k = choose|k: int|
                        0 <= k < datasets.len() && #[trigger] dataset_layer(datasets[k]) == id;
                    assert(dataset_layer(all[k]) == id);
                }
            }
        }
    }
    assert forall|i: int| 0 <= i < all.len() implies layer_ready(after, all[i])
        && after.layer_visibility.at(#[trigger] dataset_layer(all[i])) == Some(
        or_default(
            before.layer_visibility.at(dataset_layer(all[i])),
            after.layer_styles.at(dataset_layer(all[i]))->0.visible,
        ),
    ) by {
        if i < datasets.len() {
            assert(all[i] == datasets[i]);
            assert(layer_ready(now, datasets[i]));
            assert(now.layer_visibility.at(dataset_layer(datasets[i])) is Some);
        }
    }
    assert forall|other: Seq<char>| !has_dataset(all, other) implies !has_dataset(
        datasets,
        other,
    ) && other != id by {
        if has_dataset(datasets, other) {
            let k = choose|k: int|
                0 <= k < datasets.len() && #[trigger] dataset_layer(datasets[k]) == other;
            assert(dataset_layer(all[k]) == other);
        }
        assert(dataset_layer(all[datasets.len() as int]) == id);
    }
}

/// Gives the raw event layers their styles and every dataset a layer.
pub fn sync_investigation_layers(
    state: &mut InvestigationState,
    registry: &ResolvedHostViewRegistry,
)
    requires
        old(state).wf(),
    ensures
        final(state).wf(),
        same_but_layers(*final(state), *old(state)),
        final(state).focused_layers == old(state).focused_layers,
        layers_synced(*old(state), *final(state), registry.model().datasets),
{
    let ghost start = *state;
    state.upsert_authoritative_layer(RAW_EVENTS_ON_LAYER_ID.to_owned(), raw_style(true));
    state.upsert_authoritative_layer(RAW_EVENTS_OFF_LAYER_ID.to_owned(), raw_style(false));
    let datasets = registry.datasets();
    let mut i: usize = 0;
    proof {
        reveal_strlit("host.raw_events.on");
        reveal_strlit("host.raw_events.off");
        assert(RAW_EVENTS_ON_LAYER_ID@.len() != RAW_EVENTS_OFF_LAYER_ID@.len());
        assert(datasets@.take(0) =~= Seq::empty());
        assert(layers_synced(start, *state, datasets@.take(0)));
    }
    while i < datasets.len()
        invariant
            datasets@ == registry.model().datasets,
            i <= datasets@.len(),
            state.wf(),
            same_but_layers(*state, start),
            state.focused_layers == start.focused_layers,
            layers_synced(start, *state, datasets@.take(i as int)),
        decreases datasets@.len() - i,
    {
        let descriptor = &datasets[i].descriptor;
        let ghost now = *state;
        state.sync_dataset_layer(descriptor, descriptor.kind.table_schema());
        proof {
            let done = datasets@.take(i as int);
            next_layer_synced(start, now, *state, done, datasets@[i as int]);
            assert(datasets@.take(i + 1) =~= done.push(datasets@[i as int]));
        }
        i = i + 1;
    }
    assert(datasets@.take(i as int) =~= datasets@);
}

// ---------------------------------------------------------------------------
// Rows that are shown
// ---------------------------------------------------------------------------
/// Whether `rows` are the rows of a table that a view shows at a frame: the
/// linked rows, without those whose time span misses the frame.
pub open spec fn shown_rows(
    state: InvestigationState,
    dataset_id: Seq<char>,
    entry: TableEntry,
    window: Option<(u64, u64)>,
    rows: Seq<usize>,
) -> bool {
    exists|linked: Seq<usize>| #[trigger]
        linked_rows(state, dataset_id, entry.schema, entry.table, linked) && rows == (
        match window {
            Some(w) => in_window(entry.table, w, linked),
            None => linked,
        })
}

fn rows_to_show(
    state: &InvestigationState,
    dataset_id: &str,
    handle: TableHandle<'_>,
    window: Option<(u64, u64)>,
) -> (out: Vec<usize>)
    ensures
        shown_rows(*state, dataset_id@, handle.entry(), window, out@),
{
    let linked = filtered_row_indices(state, dataset_id, handle.schema, handle.table);
    assert(linked_rows(
        *state,
        dataset_id@,
        handle.entry().schema,
        handle.entry().table,
        linked@,
    ));
    match window {
        Some(w) => {
            let ghost all = linked@;
            let out = retain_rows_in_frame_span(linked, handle.table, w);
            assert(out@ == in_window(handle.entry().table, w, all));
            out
        },
        None => linked,
    }
}

// ---------------------------------------------------------------------------
// The plane
// ---------------------------------------------------------------------------
#[derive(Debug)]
pub struct Investigation2dPoint {
    pub position: (Real64, Real64),
    pub color: [u8; 4],
    pub marker_shape: HostMarkerShape,
    pub size: Real32,
    pub item_key: StableRowKey,
    pub label: String,
    pub layer_id: String,
}

/// A point of the plane by its texts.
pub struct PlanePoint {
    pub position: (Real64, Real64),
    pub color: [u8; 4],
    pub marker_shape: HostMarkerShape,
    pub size: Real32,
    pub key: RowPair,
    pub label: Seq<char>,
    pub layer: Seq<char>,
}

impl Investigation2dPoint {
    pub open spec fn point(self) -> PlanePoint {
        PlanePoint {
            position: self.position,
            color: self.color,
            marker_shape: self.marker_shape,
            size: self.size,
            key: self.item_key.pair(),
            label: self.label@,
            layer: self.layer_id@,
        }
    }
}

pub open spec fn plane_points(points: Seq<Investigation2dPoint>) -> Seq<PlanePoint> {
    points.map_values(|p: Investigation2dPoint| p.point())
}

/// The points of the rows that have plane coordinates.
pub open spec fn points_of_rows(
    entry: TableEntry,
    dataset_id: Seq<char>,
    layer: Seq<char>,
    style: InvestigationLayerStyle,
    rows: Seq<usize>,
) -> Seq<PlanePoint>
    decreases rows.len(),
{
    if rows.len() == 0 {
        Seq::empty()
    } else {
        let rest = points_of_rows(entry, dataset_id, layer, style, rows.drop_last());
        let row = rows.last() as int;
        match plane_point(entry.schema, entry.table, row) {
            Some(position) => rest.push(
                PlanePoint {
                    position,
                    color: style.color,
                    marker_shape: style.marker_shape,
                    size: style.size,
                    key: row_key(dataset_id, entry.generation, entry.schema, entry.table, row),
                    label: style.title@,
                    layer,
                },
            ),
            None => rest,
        }
    }
}

/// The style in which a dataset of plane points is shown, if it is: it has to
/// be a table in the plane with a visible layer and loaded data.
pub open spec fn plane_layer(
    state: InvestigationState,
    cache: TextMap<HostDatasetCacheEntry>,
    registry: RegistryModel,
    dataset: ResolvedHostDataset,
) -> Option<(TableEntry, InvestigationLayerStyle)> {
    let layer = dataset_layer(dataset);
    match (
        table_of(registry, cache, dataset.descriptor.id@),
        state.layer_styles.at(layer),
    ) {
        (Some(entry), Some(style)) => if dataset.descriptor.kind matches HostDatasetKind::TableV1(
            schema,
        ) && schema.coordinate_space_2d is Some && state.shown(layer, style.visible) {
            Some((entry, style))
        } else {
            None
        },
        _ => None,
    }
}

/// Whether `points` are what one dataset shows in the plane.
pub open spec fn dataset_points(
    state: InvestigationState,
    cache: TextMap<HostDatasetCacheEntry>,
    registry: RegistryModel,
    dataset: ResolvedHostDataset,
    window: Option<(u64, u64)>,
    points: Seq<PlanePoint>,
) -> bool {
    match plane_layer(state, cache, registry, dataset) {
        Some((entry, style)) => exists|rows: Seq<usize>| #[trigger]
            shown_rows(state, dataset.descriptor.id@, entry, window, rows) && points
                == points_of_rows(
                entry,
                dataset.descriptor.id@,
                dataset_layer(dataset),
                style,
                rows,
            ),
        None => points.len() == 0,
    }
}

/// Several lists one after the other.
pub open spec fn joined<T>(parts: Seq<Seq<T>>) -> Seq<T>
    decreases parts.len(),
{
    if parts.len() == 0 {
        Seq::empty()
    } else {
        joined(parts.drop_last()) + parts.last()
    }
}

/// Whether `parts` are, dataset by dataset, what the plane shows.
pub open spec fn plane_parts(
    state: InvestigationState,
    cache: TextMap<HostDatasetCacheEntry>,
    registry: RegistryModel,
    window: Option<(u64, u64)>,
    n: int,
    parts: Seq<Seq<PlanePoint>>,
) -> bool {
    parts.len() == n && forall|i: int|
        0 <= i < n ==> dataset_points(
            state,
            cache,
            registry,
            registry.datasets[i],
            window,
            #[trigger] parts[i],
        )
}

fn push_dataset_points(
    state: &InvestigationState,
    registry: &ResolvedHostViewRegistry,
    cache: &TextMap<HostDatasetCacheEntry>,
    dataset: &ResolvedHostDataset,
    window: Option<(u64, u64)>,
    points: &mut Vec<Investigation2dPoint>,
)
    ensures
        exists|part: Seq<PlanePoint>| #[trigger]
            dataset_points(*state, *cache, registry.model(), *dataset, window, part)
                && plane_points(final(points)@) == plane_points(old(points)@) + part,
{
    let ghost start = plane_points(points@);
    let ghost model = registry.model();
    let ghost nothing = Seq::<PlanePoint>::empty();
    assert(start + nothing =~= start);
    let schema = match &dataset.descriptor.kind {
        HostDatasetKind::TableV1(schema) => schema,
        _ => {
            assert(dataset_points(*state, *cache, model, *dataset, window, nothing));
            return ;
        },
    };
    let layer_id = dataset_layer_id(&dataset.descriptor, Some(schema));
    let style = match state.layer_styles.get(layer_id.as_str()) {
        Some(style) => style,
        None => {
            assert(dataset_points(*state, *cache, model, *dataset, window, nothing));
            return ;
        },
    };
    let handle = match find_table(registry, cache, dataset.descriptor.id.as_str()) {
        Some(handle) => handle,
        None => {
            assert(dataset_points(*state, *cache, model, *dataset, window, nothing));
            return ;
        },
    };
    if schema.coordinate_space_2d.is_none() || !state.layer_visible(
        layer_id.as_str(),
        style.visible,
    ) {
        assert(dataset_points(*state, *cache, model, *dataset, window, nothing));
        return ;
    }
    let rows = rows_to_show(state, dataset.descriptor.id.as_str(), handle, window);
    let mut i: usize = 0;
    let ghost entry = handle.entry();
    assert(rows@.take(0) =~= Seq::<usize>::empty());
    while i < rows.len()
        invariant
            i <= rows@.len(),
            entry == handle.entry(),
            plane_points(points@) == start + points_of_rows(
                entry,
                dataset.descriptor.id@,
                layer_id@,
                *style,
                rows@.take(i as int),
            ),
        decreases rows@.len() - i,
    {
        assert(rows@.take(i + 1).drop_last() =~= rows@.take(i as int));
        let row: usize = rows[i];
        if let Some(position) = coordinate_2d_for_row(handle.schema, handle.table, row) {
            let ghost before = points@;
            let point = Investigation2dPoint {
                position,
                color: style.color,
                marker_shape: style.marker_shape,
                size: style.size,
                item_key: row_key_for_row(
                    dataset.descriptor.id.as_str(),
                    handle.generation,
                    handle.schema,
                    handle.table,
                    row,
                ),
                label: style.title.clone(),
                layer_id: layer_id.clone(),
            };
            points.push(point);
            assert(plane_points(points@) =~= plane_points(before).push(point.point()));
            assert(plane_points(points@) =~= start + points_of_rows(
                entry,
                dataset.descriptor.id@,
                layer_id@,
                *style,
                rows@.take(i + 1),
            ));
        }
        i = i + 1;
    }
    assert(rows@.take(rows@.len() as int) =~= rows@);
    assert(dataset_points(
        *state,
        *cache,
        model,
        *dataset,
        window,
        points_of_rows(entry, dataset.descriptor.id@, layer_id@, *style, rows@),
    ));
}

/// The points that the plane shows, dataset by dataset.
pub fn build_investigation_points_2d(
    state: &InvestigationState,
    registry: &ResolvedHostViewRegistry,
    cache: &TextMap<HostDatasetCacheEntry>,
    window: Option<(u64, u64)>,
) -> (out: Vec<Investigation2dPoint>)
    ensures
        exists|parts: Seq<Seq<PlanePoint>>| #[trigger]
            plane_parts(
                *state,
                *cache,
                registry.model(),
                window,
                registry.model().datasets.len() as int,
                parts,
            ) && plane_points(out@) == joined(parts),
{
    let mut points: Vec<Investigation2dPoint> = Vec::new();
    let datasets = registry.datasets();
    let ghost model = registry.model();
    let ghost mut parts: Seq<Seq<PlanePoint>> = Seq::empty();
    assert(plane_points(points@) =~= joined(parts));
    let mut i: usize = 0;
    while i < datasets.len()
        invariant
            model == registry.model(),
            datasets@ == model.datasets,
            i <= datasets@.len(),
            plane_parts(*state, *cache, model, window, i as int, parts),
            plane_points(points@) == joined(parts),
        decreases datasets@.len() - i,
    {
        let ghost before = points@;
        push_dataset_points(state, registry, cache, &datasets[i], window, &mut points);
        proof {
            let part = choose|part: Seq<PlanePoint>| #[trigger]
                dataset_points(*state, *cache, model, datasets@[i as int], window, part)
                    && plane_points(points@) == plane_points(before) + part;
            let longer = parts.push(part);
            assert(longer.drop_last() =~= parts);
            assert forall|k: int| 0 <= k < i + 1 implies dataset_points(
                *state,
                *cache,
                model,
                model.datasets[k],
                window,
                #[trigger] longer[k],
            ) by {
                if k < i {
                    assert(longer[k] == parts[k]);
                }
            }
            parts = longer;
        }
        i = i + 1;
    }
    points
}

// ---------------------------------------------------------------------------
// Space
// ---------------------------------------------------------------------------
#[derive(Debug)]
pub struct PlannedPoint {
    pub position: (Real64, Real64, Real64),
    pub color: [u8; 4],
    pub size: Real32,
    pub item_key: StableRowKey,
    pub label: String,
}

#[derive(Debug)]
pub struct PlannedLayer {
    pub id: String,
    pub title: String,
    pub points: Vec<PlannedPoint>,
}

/// A point of space by its texts.
pub struct SpacePoint {
    pub position: (Real64, Real64, Real64),
    pub color: [u8; 4],
    pub size: Real32,
    pub key: RowPair,
    pub label: Seq<char>,
}

impl PlannedPoint {
    pub open spec fn point(self) -> SpacePoint {
        SpacePoint {
            position: self.position,
            color: self.color,
            size: self.size,
            key: self.item_key.pair(),
            label: self.label@,
        }
    }
}

pub open spec fn space_points(points: Seq<PlannedPoint>) -> Seq<SpacePoint> {
    points.map_values(|p: PlannedPoint| p.point())
}

/// The points of the rows that have space coordinates in the given columns.
pub open spec fn space_points_of_rows(
    entry: TableEntry,
    dataset_id: Seq<char>,
    title: Seq<char>,
    style: InvestigationLayerStyle,
    columns: (Seq<char>, Seq<char>, Seq<char>),
    rows: Seq<usize>,
) -> Seq<SpacePoint>
    decreases rows.len(),
{
    if rows.len() == 0 {
        Seq::empty()
    } else {
        let rest = space_points_of_rows(
            entry,
            dataset_id,
            title,
            style,
            columns,
            rows.drop_last(),
        );
        let row = rows.last() as int;
        match space_point(entry.schema, entry.table, row, Some(columns)) {
            Some(position) => rest.push(
                SpacePoint {
                    position,
                    color: style.color,
                    size: style.size,
                    key: row_key(dataset_id, entry.generation, entry.schema, entry.table, row),
                    label: title,
                },
            ),
            None => rest,
        }
    }
}

/// The data and the style in which a view shows points of space, if it does.
pub open spec fn space_layer(
    state: InvestigationState,
    cache: TextMap<HostDatasetCacheEntry>,
    registry: RegistryModel,
    view: ResolvedHostView,
) -> Option<(TableEntry, InvestigationLayerStyle, (Seq<char>, Seq<char>, Seq<char>))> {
    match view.descriptor.kind {
        HostViewKind::Scatter3dFromTable { x_column, y_column, z_column } => match table_of(
            registry,
            cache,
            view.descriptor.dataset_id@,
        ) {
            Some(entry) => {
                let layer = layer_of(entry.descriptor, Some(entry.schema));
                match state.layer_styles.at(layer) {
                    Some(style) => if state.shown(layer, style.visible) {
                        Some((entry, style, (x_column@, y_column@, z_column@)))
                    } else {
                        None
                    },
                    None => None,
                }
            },
            None => None,
        },
        _ => None,
    }
}

/// Whether `layer` is what a view shows in space.
pub open spec fn is_view_layer(
    state: InvestigationState,
    view: ResolvedHostView,
    entry: TableEntry,
    style: InvestigationLayerStyle,
    columns: (Seq<char>, Seq<char>, Seq<char>),
    window: Option<(u64, u64)>,
    layer: PlannedLayer,
) -> bool {
    &&& layer.id@ == layer_of(entry.descriptor, Some(entry.schema))
    &&& layer.title@ == view.descriptor.title@
    &&& exists|rows: Seq<usize>| #[trigger]
        shown_rows(state, view.descriptor.dataset_id@, entry, window, rows) && space_points(
            layer.points@,
        ) == space_points_of_rows(
            entry,
            view.descriptor.dataset_id@,
            view.descriptor.title@,
            style,
            columns,
            rows,
        )
}

/// Whether `layers` are what the first `n` views show in space, in order.
pub open spec fn view_layers(
    state: InvestigationState,
    cache: TextMap<HostDatasetCacheEntry>,
    registry: RegistryModel,
    window: Option<(u64, u64)>,
    n: nat,
    layers: Seq<PlannedLayer>,
) -> bool
    decreases n,
{
    if n == 0 {
        layers.len() == 0
    } else {
        match space_layer(state, cache, registry, registry.views[n - 1]) {
            Some((entry, style, columns)) => layers.len() > 0 && is_view_layer(
                state,
                registry.views[n - 1],
                entry,
                style,
                columns,
                window,
                layers.last(),
            ) && view_layers(state, cache, registry, window, (n - 1) as nat, layers.drop_last()),
            None => view_layers(state, cache, registry, window, (n - 1) as nat, layers),
        }
    }
}

fn view_layer(
    state: &InvestigationState,
    registry: &ResolvedHostViewRegistry,
    cache: &TextMap<HostDatasetCacheEntry>,
    view: &ResolvedHostView,
    window: Option<(u64, u64)>,
) -> (out: Option<PlannedLayer>)
    ensures
        match space_layer(*state, *cache, registry.model(), *view) {
            Some((entry, style, columns)) => out matches Some(layer) && is_view_layer(
                *state,
                *view,
                entry,
                style,
                columns,
                window,
                layer,
            ),
            None => out is None,
        },
{
    let (x_column, y_column, z_column) = match &view.descriptor.kind {
        HostViewKind::Scatter3dFromTable { x_column, y_column, z_column } => (
            x_column,
            y_column,
            z_column,
        ),
        _ => {
            return None;
        },
    };
    let handle = match find_table(registry, cache, view.descriptor.dataset_id.as_str()) {
        Some(handle) => handle,
        None => {
            return None;
        },
    };
    let layer_id = dataset_layer_id(handle.descriptor, Some(handle.schema));
    let style = match state.layer_styles.get(layer_id.as_str()) {
        Some(style) => style,
        None => {
            return None;
        },
    };
    if !state.layer_visible(layer_id.as_str(), style.visible) {
        return None;
    }
    let rows = rows_to_show(state, view.descriptor.dataset_id.as_str(), handle, window);
    let mut points: Vec<PlannedPoint> = Vec::new();
    let mut i: usize = 0;
    let ghost entry = handle.entry();
    let ghost columns = (x_column@, y_column@, z_column@);
    assert(rows@.take(0) =~= Seq::<usize>::empty());
    assert(space_points(points@) =~= Seq::<SpacePoint>::empty());
    while i < rows.len()
        invariant
            i <= rows@.len(),
            entry == handle.entry(),
            columns == (x_column@, y_column@, z_column@),
            space_points(points@) == space_points_of_rows(
                entry,
                view.descriptor.dataset_id@,
                view.descriptor.title@,
                *style,
                columns,
                rows@.take(i as int),
            ),
        decreases rows@.len() - i,
    {
        assert(rows@.take(i + 1).drop_last() =~= rows@.take(i as int));
        let row: usize = rows[i];
        let found = coordinate_3d_for_row(
            handle.schema,
            handle.table,
            row,
            Some((x_column.as_str(), y_column.as_str(), z_column.as_str())),
        );
        if let Some(position) = found {
            let ghost before = points@;
            let point = PlannedPoint {
                position,
                color: style.color,
                size: style.size,
                item_key: row_key_for_row(
                    view.descriptor.dataset_id.as_str(),
                    handle.generation,
                    handle.schema,
                    handle.table,
                    row,
                ),
                label: view.descriptor.title.clone(),
            };
            points.push(point);
            assert(space_points(points@) =~= space_points(before).push(point.point()));
        }
        i = i + 1;
    }
    assert(rows@.take(rows@.len() as int) =~= rows@);
    let layer = PlannedLayer { id: layer_id, title: view.descriptor.title.clone(), points };
    assert(shown_rows(*state, view.descriptor.dataset_id@, entry, window, rows@));
    Some(layer)
}

/// The layers that the views of space points show.
pub fn build_view_layers(
    state: &InvestigationState,
    registry: &ResolvedHostViewRegistry,
    cache: &TextMap<HostDatasetCacheEntry>,
    window: Option<(u64, u64)>,
) -> (out: Vec<PlannedLayer>)
    ensures
        view_layers(
            *state,
            *cache,
            registry.model(),
            window,
            registry.model().views.len(),
            out@,
        ),
{
    let mut layers: Vec<PlannedLayer> = Vec::new();
    let views = registry.views();
    let ghost model = registry.model();
    let mut i: usize = 0;
    while i < views.len()
        invariant
            model == registry.model(),
            views@ == model.views,
            i <= views@.len(),
            view_layers(*state, *cache, model, window, i as nat, layers@),
        decreases views@.len() - i,
    {
        let ghost before = layers@;
        if let Some(layer) = view_layer(state, registry, cache, &views[i], window) {
            layers.push(layer);
            assert(layers@.drop_last() =~= before);
        }
        i = i + 1;
    }
    layers
}

// ---------------------------------------------------------------------------
// Raw events
// ---------------------------------------------------------------------------
/// A change of one pixel.
#[derive(Debug, Clone, Copy, PartialEq, Eq, Structural)]
pub struct CdEvent {
    pub timestamp: u64,
    pub x: u16,
    pub y: u16,
    pub polarity: bool,
}

/// `value` with its bits rotated to the left.
pub open spec fn rotated(value: u64, by: u64) -> u64 {
    (value << by) | (value >> ((64 - by) as u64))
}

fn rotate_left(value: u64, by: u64) -> (out: u64)
    requires
        0 < by < 64,
    ensures
        out == rotated(value, by),
{
    (value << by) | (value >> (64 - by))
}

/// The id of an event: its parts, moved apart and combined.
pub open spec fn event_id(event: CdEvent, occurrence: u32) -> u64 {
    event.timestamp ^ rotated(event.x as u64, 11) ^ rotated(event.y as u64, 23) ^ rotated(
        if event.polarity {
            1u64
        } else {
            0u64
        },
        37,
    ) ^ rotated(occurrence as u64, 47)
}

pub fn candidate_event_id(timestamp: u64, x: u16, y: u16, polarity: bool, occurrence: u32) -> (out:
    u64)
    ensures
        out == event_id(CdEvent { timestamp, x, y, polarity }, occurrence),
{
    let sign: u64 = if polarity {
        1
    } else {
        0
    };
    timestamp ^ rotate_left(x as u64, 11) ^ rotate_left(y as u64, 23) ^ rotate_left(sign, 37)
        ^ rotate_left(occurrence as u64, 47)
}

/// Equal events that follow one another get different ids.
pub proof fn occurrences_have_different_ids(event: CdEvent, a: u32, b: u32)
    requires
        a != b,
    ensures
        event_id(event, a) != event_id(event, b),
{
    let rest = event.timestamp ^ rotated(event.x as u64, 11) ^ rotated(event.y as u64, 23)
        ^ rotated(
        if event.polarity {
            1u64
        } else {
            0u64
        },
        37,
    );
    let wide_a = a as u64;
    let wide_b = b as u64;
    assert(wide_a != wide_b && wide_a < 0x1_0000_0000 && wide_b < 0x1_0000_0000 ==> rest ^ ((wide_a
        << 47u64) | (wide_a >> 17u64)) != rest ^ ((wide_b << 47u64) | (wide_b >> 17u64)))
        by (bit_vector);
}

/// How many of the first `n` events equal the given one.
pub open spec fn count_equal(events: Seq<CdEvent>, event: CdEvent, n: nat) -> nat
    decreases n,
{
    if n == 0 {
        0
    } else {
        count_equal(events, event, (n - 1) as nat) + (if events[n - 1] == event {
            1nat
        } else {
            0
        })
    }
}

/// How often an event occurred before its place `i`, as far as 32 bits count.
pub open spec fn occurrence(events: Seq<CdEvent>, i: int) -> u32 {
    let n = count_equal(events, events[i], i as nat);
    if n > u32::MAX {
        u32::MAX
    } else {
        n as u32
    }
}

/// All parts of an event in one number.
pub open spec fn packed(event: CdEvent) -> int {
    ((event.timestamp * 0x10000 + event.x) * 0x10000 + event.y) * 2 + (if event.polarity {
        1int
    } else {
        0
    })
}

fn pack(event: CdEvent) -> (out: u128)
    ensures
        out == packed(event),
{
    let sign: u128 = if event.polarity {
        1
    } else {
        0
    };
    ((event.timestamp as u128 * 0x10000 + event.x as u128) * 0x10000 + event.y as u128) * 2 + sign
}

/// Whether `seen` knows how many of the first `n` events equal the given one.
spec fn is_counted(events: Seq<CdEvent>, seen: Map<u128, u32>, event: CdEvent, n: nat) -> bool {
    let count = count_equal(events, event, n);
    let key = packed(event) as u128;
    &&& count == 0 ==> !seen.dom().contains(key)
    &&& count > 0 ==> seen.dom().contains(key) && seen[key] == (if count > u32::MAX {
        u32::MAX as int
    } else {
        count as int
    })
}

/// The ids of a list of events, in order.
pub fn event_ids(events: &Vec<CdEvent>) -> (out: Vec<u64>)
    ensures
        out@.len() == events@.len(),
        forall|i: int|
            0 <= i < out@.len() ==> #[trigger] out@[i] == event_id(
                events@[i],
                occurrence(events@, i),
            ),
{
    let mut ids: Vec<u64> = Vec::new();
    let mut seen: HashMap<u128, u32> = HashMap::new();
    let mut i: usize = 0;
    while i < events.len()
        invariant
            i <= events@.len(),
            ids@.len() == i,
            forall|k: int|
                0 <= k < i ==> #[trigger] ids@[k] == event_id(events@[k], occurrence(events@, k)),
            forall|event: CdEvent| #[trigger] is_counted(events@, seen@, event, i as nat),
        decreases events@.len() - i,
    {
        let event = events[i];
        let key: u128 = pack(event);
        let ghost before = seen@;
        assert(is_counted(events@, before, event, i as nat));
        let occurrence: u32 = match seen.get(&key) {
            Some(count) => *count,
            None => 0,
        };
        ids.push(
            candidate_event_id(event.timestamp, event.x, event.y, event.polarity, occurrence),
        );
        seen.insert(key, occurrence.saturating_add(1));
        i = i + 1;
        proof {
            assert forall|other: CdEvent| #[trigger]
                is_counted(events@, seen@, other, i as nat) by {
                assert(is_counted(events@, before, other, (i - 1) as nat));
                if packed(other) as u128 == key {
                    packed_is_injective(other, event);
                }
            }
        }
    }
    ids
}

proof fn packed_is_injective(a: CdEvent, b: CdEvent)
    requires
        packed(a) as u128 == packed(b) as u128,
    ensures
        a == b,
{
    assert(0 <= packed(a) <= u128::MAX);
    assert(0 <= packed(b) <= u128::MAX);
}

/// A raw event as it is shown: which event, in which colour, and whether it
/// stands out.
#[derive(Debug, Clone, Copy, PartialEq, Eq)]
pub struct RawEventPoint {
    pub event: usize,
    pub color: [u8; 4],
    pub emphasised: bool,
}

/// The raw events of one polarity as a layer.
#[derive(Debug, Clone)]
pub struct RawEventLayer {
    pub id: String,
    pub title: String,
    pub size: Real32,
    pub points: Vec<RawEventPoint>,
}

/// Whether a region covers the whole sensor, so that it singles out nothing.
pub open spec fn is_full_frame(roi: AnalysisRoi, width: u16, height: u16) -> bool {
    &&& roi.x_min.le(Real64 { bits: 0 })
    &&& roi.y_min.le(Real64 { bits: 0 })
    &&& whole(last_pixel(width)).le(roi.x_max)
    &&& whole(last_pixel(height)).le(roi.y_max)
}

/// The last of `count` pixels, or the first one where there are none.
pub open spec fn last_pixel(count: u16) -> nat {
    if count == 0 {
        0
    } else {
        (count - 1) as nat
    }
}

pub fn roi_is_effectively_full_frame(
    roi: &AnalysisRoi,
    sensor_width: u16,
    sensor_height: u16,
) -> (out: bool)
    ensures
        out == is_full_frame(*roi, sensor_width, sensor_height),
{
    let zero = Real64 { bits: 0 };
    roi.x_min.at_most(zero) && roi.y_min.at_most(zero) && Real64::from_u16(
        sensor_width.saturating_sub(1),
    ).at_most(roi.x_max) && Real64::from_u16(sensor_height.saturating_sub(1)).at_most(roi.y_max)
}

/// The region that the raw events are focused on: the active one, unless it
/// covers the whole sensor.
pub open spec fn focus_region(roi: Option<AnalysisRoi>, width: u16, height: u16) -> Option<
    AnalysisRoi,
> {
    match roi {
        Some(area) => if is_full_frame(area, width, height) {
            None
        } else {
            Some(area)
        },
        None => None,
    }
}

pub fn focus_roi(roi: Option<AnalysisRoi>, sensor_width: u16, sensor_height: u16) -> (out: Option<
    AnalysisRoi,
>)
    ensures
        out == focus_region(roi, sensor_width, sensor_height),
{
    match roi {
        Some(area) => if roi_is_effectively_full_frame(&area, sensor_width, sensor_height) {
            None
        } else {
            Some(area)
        },
        None => None,
    }
}

/// Whether an event stands out: it lies in the focused region and, where rows
/// are selected that stem from events, is one of these.
pub open spec fn stands_out(
    events: Seq<CdEvent>,
    i: int,
    focus: Option<AnalysisRoi>,
    selected: Set<u64>,
    any_selected: bool,
) -> bool {
    &&& focus matches Some(area) ==> area.covers(
        whole(events[i].x as nat),
        whole(events[i].y as nat),
    )
    &&& any_selected ==> selected.contains(event_id(events[i], occurrence(events, i)))
}

/// The colour of an event: in the background it is hardly opaque.
pub open spec fn raw_color(color: [u8; 4], emphasised: bool) -> Seq<u8> {
    let alpha = if emphasised || color[3] <= BACKGROUND_ALPHA {
        color[3]
    } else {
        BACKGROUND_ALPHA
    };
    color@.update(3, alpha)
}

/// The events of one polarity among the first `n`, as they are shown.
pub open spec fn raw_points(
    events: Seq<CdEvent>,
    polarity: bool,
    color: [u8; 4],
    focus: Option<AnalysisRoi>,
    selected: Set<u64>,
    any_selected: bool,
    n: nat,
) -> Seq<(int, Seq<u8>, bool)>
    decreases n,
{
    if n == 0 {
        Seq::empty()
    } else {
        let rest = raw_points(
            events,
            polarity,
            color,
            focus,
            selected,
            any_selected,
            (n - 1) as nat,
        );
        if events[n - 1].polarity == polarity {
            let out = stands_out(events, n - 1, focus, selected, any_selected);
            rest.push((n - 1, raw_color(color, out), out))
        } else {
            rest
        }
    }
}

pub open spec fn raw_point_views(points: Seq<RawEventPoint>) -> Seq<(int, Seq<u8>, bool)> {
    points.map_values(|p: RawEventPoint| (p.event as int, p.color@, p.emphasised))
}

fn raw_layer_points(
    events: &Vec<CdEvent>,
    ids: &Vec<u64>,
    polarity: bool,
    color: [u8; 4],
    focus: Option<AnalysisRoi>,
    selected: &HashSet<u64>,
    any_selected: bool,
) -> (out: Vec<RawEventPoint>)
    requires
        ids@.len() == events@.len(),
        forall|i: int|
            0 <= i < ids@.len() ==> #[trigger] ids@[i] == event_id(
                events@[i],
                occurrence(events@, i),
            ),
    ensures
        raw_point_views(out@) == raw_points(
            events@,
            polarity,
            color,
            focus,
            selected@,
            any_selected,
            events@.len(),
        ),
{
    let mut points: Vec<RawEventPoint> = Vec::new();
    let mut i: usize = 0;
    assert(raw_point_views(points@) =~= Seq::<(int, Seq<u8>, bool)>::empty());
    while i < events.len()
        invariant
            i <= events@.len(),
            ids@.len() == events@.len(),
            forall|k: int|
                0 <= k < ids@.len() ==> #[trigger] ids@[k] == event_id(
                    events@[k],
                    occurrence(events@, k),
                ),
            raw_point_views(points@) == raw_points(
                events@,
                polarity,
                color,
                focus,
                selected@,
                any_selected,
                i as nat,
            ),
        decreases events@.len() - i,
    {
        let event = events[i];
        if event.polarity == polarity {
            let inside = match &focus {
                Some(area) => area.contains(Real64::from_u16(event.x), Real64::from_u16(event.y)),
                None => true,
            };
            let chosen = !any_selected || selected.contains(&ids[i]);
            let emphasised = inside && chosen;
            let mut shade = color;
            if !emphasised && color[3] > BACKGROUND_ALPHA {
                shade[3] = BACKGROUND_ALPHA;
            }
            let ghost before = points@;
            let point = RawEventPoint { event: i, color: shade, emphasised };
            points.push(point);
            proof {
                assert(emphasised == stands_out(
                    events@,
                    i as int,
                    focus,
                    selected@,
                    any_selected,
                ));
                assert(shade@ =~= raw_color(color, emphasised));
                assert(raw_point_views(points@) =~= raw_point_views(before).push(
                    (i as int, shade@, emphasised),
                ));
            }
        }
        i = i + 1;
    }
    points
}

/// The layer of one polarity, if it is shown.
pub open spec fn raw_layer(
    state: InvestigationState,
    layer_id: Seq<char>,
) -> Option<InvestigationLayerStyle> {
    match state.layer_styles.at(layer_id) {
        Some(style) => if state.shown(layer_id, style.visible) {
            Some(style)
        } else {
            None
        },
        None => None,
    }
}

/// Whether `layer` shows the raw events of one polarity.
pub open spec fn is_raw_layer(
    events: Seq<CdEvent>,
    layer_id: Seq<char>,
    polarity: bool,
    style: InvestigationLayerStyle,
    focus: Option<AnalysisRoi>,
    selected: Set<u64>,
    any_selected: bool,
    layer: RawEventLayer,
) -> bool {
    &&& layer.id@ == layer_id
    &&& layer.title == style.title
    &&& layer.size == style.size
    &&& raw_point_views(layer.points@) == raw_points(
        events,
        polarity,
        style.color,
        focus,
        selected,
        any_selected,
        events.len(),
    )
}

/// The layers of the raw events: those that got brighter, then those that got
/// darker, each one if it is shown. An event stands out where it lies in the
/// focused region and, once any selected row stems from an event, is one of
/// the selected events.
pub fn build_raw_layers(
    state: &InvestigationState,
    events: &Vec<CdEvent>,
    focus: Option<AnalysisRoi>,
    selected: &HashSet<u64>,
) -> (out: Vec<RawEventLayer>)
    ensures
        ({
            let any = !selected@.is_empty();
            let on = raw_layer(*state, RAW_EVENTS_ON_LAYER_ID@);
            let off = raw_layer(*state, RAW_EVENTS_OFF_LAYER_ID@);
            let first = if on is Some {
                1int
            } else {
                0
            };
            &&& out@.len() == first + (if off is Some {
                1int
            } else {
                0
            })
            &&& on matches Some(style) ==> is_raw_layer(
                events@,
                RAW_EVENTS_ON_LAYER_ID@,
                true,
                style,
                focus,
                selected@,
                any,
                out@[0],
            )
            &&& off matches Some(style) ==> is_raw_layer(
                events@,
                RAW_EVENTS_OFF_LAYER_ID@,
                false,
                style,
                focus,
                selected@,
                any,
                out@[first],
            )
        }),
{
    let ids = event_ids(events);
    let any_selected = !selected.is_empty();
    let mut layers: Vec<RawEventLayer> = Vec::new();
    if let Some(style) = state.layer_styles.get(RAW_EVENTS_ON_LAYER_ID) {
        if state.layer_visible(RAW_EVENTS_ON_LAYER_ID, style.visible) {
            let points = raw_layer_points(
                events,
                &ids,
                true,
                style.color,
                focus,
                selected,
                any_selected,
            );
            layers.push(
                RawEventLayer {
                    id: RAW_EVENTS_ON_LAYER_ID.to_owned(),
                    title: style.title.clone(),
                    size: style.size,
                    points,
                },
            );
        }
    }
    if let Some(style) = state.layer_styles.get(RAW_EVENTS_OFF_LAYER_ID) {
        if state.layer_visible(RAW_EVENTS_OFF_LAYER_ID, style.visible) {
            let points = raw_layer_points(
                events,
                &ids,
                false,
                style.color,
                focus,
                selected,
                any_selected,
            );
            layers.push(
                RawEventLayer {
                    id: RAW_EVENTS_OFF_LAYER_ID.to_owned(),
                    title: style.title.clone(),
                    size: style.size,
                    points,
                },
            );
        }
    }
    layers
}

/// Everything that the view of space shows, before it is placed there.
#[derive(Debug)]
pub struct ScenePlan {
    pub layers: Vec<PlannedLayer>,
    pub raw_layers: Vec<RawEventLayer>,
    pub focus: Option<AnalysisRoi>,
}

/// Whether all points of a raw layer are among the first `count` events.
pub open spec fn refers_below(layer: RawEventLayer, count: nat) -> bool {
    forall|i: int| 0 <= i < layer.points@.len() ==> (#[trigger] layer.points@[i]).event < count
}

impl ScenePlan {
    /// Whether the plan shows no other raw events than these.
    pub open spec fn shows_events_of(self, events: Seq<CdEvent>) -> bool {
        forall|i: int|
            0 <= i < self.raw_layers@.len() ==> refers_below(
                #[trigger] self.raw_layers@[i],
                events.len(),
            )
    }
}

proof fn raw_points_are_events(
    events: Seq<CdEvent>,
    polarity: bool,
    color: [u8; 4],
    focus: Option<AnalysisRoi>,
    selected: Set<u64>,
    any_selected: bool,
    n: nat,
)
    ensures
        ({
            let points = raw_points(events, polarity, color, focus, selected, any_selected, n);
            forall|i: int| 0 <= i < points.len() ==> (#[trigger] points[i]).0 < n
        }),
    decreases n,
{
    if n > 0 {
        raw_points_are_events(
            events,
            polarity,
            color,
            focus,
            selected,
            any_selected,
            (n - 1) as nat,
        );
        let points = raw_points(events, polarity, color, focus, selected, any_selected, n);
        let rest = raw_points(
            events,
            polarity,
            color,
            focus,
            selected,
            any_selected,
            (n - 1) as nat,
        );
        assert forall|i: int| 0 <= i < points.len() implies (#[trigger] points[i]).0 < n by {
            if i < rest.len() {
                assert(points[i] == rest[i]);
            }
        }
    }
}

proof fn raw_layer_shows_events(
    events: Seq<CdEvent>,
    layer_id: Seq<char>,
    polarity: bool,
    style: InvestigationLayerStyle,
    focus: Option<AnalysisRoi>,
    selected: Set<u64>,
    any_selected: bool,
    layer: RawEventLayer,
)
    requires
        is_raw_layer(
            events,
            layer_id,
            polarity,
            style,
            focus,
            selected,
            any_selected,
            layer,
        ),
    ensures
        refers_below(layer, events.len()),
{
    raw_points_are_events(
        events,
        polarity,
        style.color,
        focus,
        selected,
        any_selected,
        events.len(),
    );
    let views = raw_point_views(layer.points@);
    assert forall|i: int| 0 <= i < layer.points@.len() implies (
    #[trigger] layer.points@[i]).event < events.len() by {
        assert(views[i].0 == layer.points@[i].event);
    }
}

/// Whether a plan is what the view of space shows.
pub open spec fn is_scene_plan(
    state: InvestigationState,
    model: RegistryModel,
    cache: TextMap<HostDatasetCacheEntry>,
    window: Option<(u64, u64)>,
    events: Seq<CdEvent>,
    sensor_width: u16,
    sensor_height: u16,
    plan: ScenePlan,
) -> bool {
    let shown = state.shown(RAW_EVENTS_ON_LAYER_ID@, true) || state.shown(
        RAW_EVENTS_OFF_LAYER_ID@,
        true,
    );
    &&& view_layers(state, cache, model, window, model.views.len(), plan.layers@)
    &&& if shown {
        let focus = focus_region(state.active_analysis_roi, sensor_width, sensor_height);
        &&& plan.focus == focus
        &&& exists|selected: Set<u64>| #[trigger]
            raw_layers_shown(state, events, focus, selected, plan.raw_layers@) && are_origins(
                model,
                cache,
                state.selected_rows.keys(),
                selected,
            )
    } else {
        plan.focus is None && plan.raw_layers@.len() == 0
    }
}

/// Plans what the view of space shows: the layers of the views, then the raw
/// events, unless both of their layers are switched off.
pub fn plan_investigation_scene_3d(
    state: &InvestigationState,
    registry: &ResolvedHostViewRegistry,
    cache: &TextMap<HostDatasetCacheEntry>,
    window: Option<(u64, u64)>,
    events: &Vec<CdEvent>,
    sensor_width: u16,
    sensor_height: u16,
) -> (out: ScenePlan)
    ensures
        is_scene_plan(
            *state,
            registry.model(),
            *cache,
            window,
            events@,
            sensor_width,
            sensor_height,
            out,
        ),
        out.shows_events_of(events@),
{
    let layers = build_view_layers(state, registry, cache, window);
    let shown = state.layer_visible(RAW_EVENTS_ON_LAYER_ID, true) || state.layer_visible(
        RAW_EVENTS_OFF_LAYER_ID,
        true,
    );
    if !shown {
        return ScenePlan { layers, raw_layers: Vec::new(), focus: None };
    }
    let selected = resolve_selection_event_ids(registry, cache, &state.selected_rows);
    let focus = focus_roi(state.active_analysis_roi, sensor_width, sensor_height);
    let raw_layers = build_raw_layers(state, events, focus, &selected);
    let out = ScenePlan { layers, raw_layers, focus };
    proof {
        let any = !selected@.is_empty();
        let on = raw_layer(*state, RAW_EVENTS_ON_LAYER_ID@);
        let off = raw_layer(*state, RAW_EVENTS_OFF_LAYER_ID@);
        let first = if on is Some {
            1int
        } else {
            0
        };
        if let Some(style) = on {
            raw_layer_shows_events(
                events@,
                RAW_EVENTS_ON_LAYER_ID@,
                true,
                style,
                focus,
                selected@,
                any,
                out.raw_layers@[0],
            );
        }
        if let Some(style) = off {
            raw_layer_shows_events(
                events@,
                RAW_EVENTS_OFF_LAYER_ID@,
                false,
                style,
                focus,
                selected@,
                any,
                out.raw_layers@[first],
            );
        }
    }
    assert(raw_layers_shown(*state, events@, out.focus, selected@, out.raw_layers@));
    out
}

/// Whether `layers` are the raw event layers for the given selected events.
pub open spec fn raw_layers_shown(
    state: InvestigationState,
    events: Seq<CdEvent>,
    focus: Option<AnalysisRoi>,
    selected: Set<u64>,
    layers: Seq<RawEventLayer>,
) -> bool {
    let any = !selected.is_empty();
    let on = raw_layer(state, RAW_EVENTS_ON_LAYER_ID@);
    let off = raw_layer(state, RAW_EVENTS_OFF_LAYER_ID@);
    let first = if on is Some {
        1int
    } else {
        0
    };
    &&& layers.len() == first + (if off is Some {
        1int
    } else {
        0
    })
    &&& on matches Some(style) ==> is_raw_layer(
        events,
        RAW_EVENTS_ON_LAYER_ID@,
        true,
        style,
        focus,
        selected,
        any,
        layers[0],
    )
    &&& off matches Some(style) ==> is_raw_layer(
        events,
        RAW_EVENTS_OFF_LAYER_ID@,
        false,
        style,
        focus,
        selected,
        any,
        layers[first],
    )
}

// ---------------------------------------------------------------------------
// Laws
// ---------------------------------------------------------------------------
/// Whether a point of the plane shows a row of a table: it lies at the numbers
/// of that row in the two columns that the schema names, and carries the key of
/// the row and the style of the layer.
pub open spec fn shows_row(
    entry: TableEntry,
    dataset_id: Seq<char>,
    layer: Seq<char>,
    style: InvestigationLayerStyle,
    row: usize,
    point: PlanePoint,
) -> bool {
    &&& entry.schema.coordinate_space_2d matches Some(space) && Some(point.position.0)
        == number_at(entry.table, space.x_column@, row as int) && Some(point.position.1)
        == number_at(entry.table, space.y_column@, row as int)
    &&& point.key == row_key(dataset_id, entry.generation, entry.schema, entry.table, row as int)
    &&& point.color == style.color
    &&& point.marker_shape == style.marker_shape
    &&& point.size == style.size
    &&& point.label == style.title@
    &&& point.layer == layer
}

proof fn points_show_rows(
    entry: TableEntry,
    dataset_id: Seq<char>,
    layer: Seq<char>,
    style: InvestigationLayerStyle,
    rows: Seq<usize>,
)
    ensures
        ({
            let points = points_of_rows(entry, dataset_id, layer, style, rows);
            &&& forall|i: int|
                0 <= i < points.len() ==> exists|j: int|
                    0 <= j < rows.len() && shows_row(
                        entry,
                        dataset_id,
                        layer,
                        style,
                        #[trigger] rows[j],
                        #[trigger] points[i],
                    )
            &&& forall|j: int|
                0 <= j < rows.len() && (entry.schema.coordinate_space_2d matches Some(space)
                    && number_at(entry.table, space.x_column@, (#[trigger] rows[j]) as int) is Some
                    && number_at(entry.table, space.y_column@, rows[j] as int) is Some)
                    ==> exists|i: int|
                    0 <= i < points.len() && shows_row(
                        entry,
                        dataset_id,
                        layer,
                        style,
                        rows[j],
                        #[trigger] points[i],
                    )
        }),
    decreases rows.len(),
{
    if rows.len() > 0 {
        let rest = rows.drop_last();
        points_show_rows(entry, dataset_id, layer, style, rest);
        let before = points_of_rows(entry, dataset_id, layer, style, rest);
        let points = points_of_rows(entry, dataset_id, layer, style, rows);
        assert(forall|j: int| 0 <= j < rest.len() ==> #[trigger] rest[j] == rows[j]);
        assert(rows.last() == rows[rows.len() - 1]);
        assert forall|i: int| 0 <= i < points.len() implies exists|j: int|
            0 <= j < rows.len() && shows_row(
                entry,
                dataset_id,
                layer,
                style,
                #[trigger] rows[j],
                #[trigger] points[i],
            ) by {
            if i < before.len() {
                assert(points[i] == before[i]);
                let j = choose|j: int|
                    0 <= j < rest.len() && shows_row(
                        entry,
                        dataset_id,
                        layer,
                        style,
                        #[trigger] rest[j],
                        before[i],
                    );
                assert(shows_row(entry, dataset_id, layer, style, rows[j], points[i]));
            } else {
                assert(shows_row(
                    entry,
                    dataset_id,
                    layer,
                    style,
                    rows[rows.len() - 1],
                    points[i],
                ));
            }
        }
        assert forall|j: int|
            0 <= j < rows.len() && (entry.schema.coordinate_space_2d matches Some(space)
                && number_at(entry.table, space.x_column@, (#[trigger] rows[j]) as int) is Some
                && number_at(entry.table, space.y_column@, rows[j] as int) is Some) implies exists|
            i: int,
        |
            0 <= i < points.len() && shows_row(
                entry,
                dataset_id,
                layer,
                style,
                rows[j],
                #[trigger] points[i],
            ) by {
            if j < rest.len() {
                assert(rest[j] == rows[j]);
                let i = choose|i: int|
                    0 <= i < before.len() && shows_row(
                        entry,
                        dataset_id,
                        layer,
                        style,
                        rest[j],
                        #[trigger] before[i],
                    );
                assert(points[i] == before[i]);
            } else {
                assert(shows_row(
                    entry,
                    dataset_id,
                    layer,
                    style,
                    rows[j],
                    points[before.len() as int],
                ));
            }
        }
    }
}

/// Whether a row of a table is shown at a frame: it lies in the active region,
/// or has no place in the plane, and its time span touches the frame, or it has
/// none.
pub open spec fn row_is_due(
    state: InvestigationState,
    entry: TableEntry,
    window: Option<(u64, u64)>,
    row: usize,
) -> bool {
    &&& row < entry.table.rows
    &&& state.active_analysis_roi matches Some(area) ==> (
    entry.schema.coordinate_space_2d matches Some(space) ==> ({
        let x = number_at(entry.table, space.x_column@, row as int);
        let y = number_at(entry.table, space.y_column@, row as int);
        x is Some && y is Some ==> area.x_min.le(x->0) && x->0.le(area.x_max) && area.y_min.le(y->0)
            && y->0.le(area.y_max)
    }))
    &&& window matches Some(w) ==> (row < entry.table.spans@.len() ==> (entry.table.spans@[
    row as int] matches Some(span) ==> span.0 <= w.1 && w.0 <= span.1))
}

/// The rows that a view shows are those that are due.
pub proof fn shown_rows_are_due(
    state: InvestigationState,
    dataset_id: Seq<char>,
    entry: TableEntry,
    window: Option<(u64, u64)>,
    rows: Seq<usize>,
    row: usize,
)
    requires
        shown_rows(state, dataset_id, entry, window, rows),
    ensures
        rows.contains(row) <==> row_is_due(state, entry, window, row),
{
    let linked = choose|linked: Seq<usize>| #[trigger]
        linked_rows(state, dataset_id, entry.schema, entry.table, linked) && rows == (
        match window {
            Some(w) => in_window(entry.table, w, linked),
            None => linked,
        });
    linked_rows_are_those_of_the_region(
        state,
        dataset_id,
        entry.schema,
        entry.table,
        linked,
        row,
    );
    if let Some(w) = window {
        let keep = |r: usize| row_in_span(entry.table, w, r as int);
        filtered_list_holds(linked, keep, row);
    }
}

/// Every point of the plane shows a row that is due of a dataset with a visible
/// layer, at the numbers that the row holds in the dataset's two columns.
pub proof fn plane_points_lie_at_their_rows(
    state: InvestigationState,
    cache: TextMap<HostDatasetCacheEntry>,
    registry: RegistryModel,
    window: Option<(u64, u64)>,
    parts: Seq<Seq<PlanePoint>>,
    point: PlanePoint,
)
    requires
        plane_parts(state, cache, registry, window, registry.datasets.len() as int, parts),
        joined(parts).contains(point),
    ensures
        exists|d: int, row: usize| #[trigger]
            is_row_of_dataset(state, cache, registry, window, d, row, point),
{
    joined_lists_hold(parts, point);
    let d = choose|d: int| 0 <= d < parts.len() && (#[trigger] parts[d]).contains(point);
    let dataset = registry.datasets[d];
    assert(dataset_points(state, cache, registry, dataset, window, parts[d]));
    let (entry, style) = plane_layer(state, cache, registry, dataset)->0;
    let rows = choose|rows: Seq<usize>| #[trigger]
        shown_rows(state, dataset.descriptor.id@, entry, window, rows) && parts[d]
            == points_of_rows(entry, dataset.descriptor.id@, dataset_layer(dataset), style, rows);
    points_show_rows(entry, dataset.descriptor.id@, dataset_layer(dataset), style, rows);
    let i = choose|i: int| 0 <= i < parts[d].len() && parts[d][i] == point;
    let j = choose|j: int|
        0 <= j < rows.len() && shows_row(
            entry,
            dataset.descriptor.id@,
            dataset_layer(dataset),
            style,
            #[trigger] rows[j],
            parts[d][i],
        );
    shown_rows_are_due(state, dataset.descriptor.id@, entry, window, rows, rows[j]);
    assert(rows.contains(rows[j]));
    assert(is_row_of_dataset(state, cache, registry, window, d, rows[j], point));
}

/// Whether a point of the plane shows a row that is due of the dataset `d`.
pub open spec fn is_row_of_dataset(
    state: InvestigationState,
    cache: TextMap<HostDatasetCacheEntry>,
    registry: RegistryModel,
    window: Option<(u64, u64)>,
    d: int,
    row: usize,
    point: PlanePoint,
) -> bool {
    &&& 0 <= d < registry.datasets.len()
    &&& plane_layer(state, cache, registry, registry.datasets[d]) matches Some((entry, style))
        && row_is_due(state, entry, window, row) && shows_row(
        entry,
        registry.datasets[d].descriptor.id@,
        dataset_layer(registry.datasets[d]),
        style,
        row,
        point,
    )
}

/// Every row that is due and has a place in the plane has its point there.
pub proof fn due_rows_have_plane_points(
    state: InvestigationState,
    cache: TextMap<HostDatasetCacheEntry>,
    registry: RegistryModel,
    window: Option<(u64, u64)>,
    parts: Seq<Seq<PlanePoint>>,
    d: int,
    row: usize,
)
    requires
        plane_parts(state, cache, registry, window, registry.datasets.len() as int, parts),
        0 <= d < registry.datasets.len(),
        plane_layer(state, cache, registry, registry.datasets[d]) matches Some((entry, style))
            && row_is_due(state, entry, window, row) && (
        entry.schema.coordinate_space_2d matches Some(space) && number_at(
            entry.table,
            space.x_column@,
            row as int,
        ) is Some && number_at(entry.table, space.y_column@, row as int) is Some),
    ensures
        exists|point: PlanePoint| #[trigger]
            joined(parts).contains(point) && is_row_of_dataset(
                state,
                cache,
                registry,
                window,
                d,
                row,
                point,
            ),
{
    let dataset = registry.datasets[d];
    assert(dataset_points(state, cache, registry, dataset, window, parts[d]));
    let (entry, style) = plane_layer(state, cache, registry, dataset)->0;
    let rows = choose|rows: Seq<usize>| #[trigger]
        shown_rows(state, dataset.descriptor.id@, entry, window, rows) && parts[d]
            == points_of_rows(entry, dataset.descriptor.id@, dataset_layer(dataset), style, rows);
    points_show_rows(entry, dataset.descriptor.id@, dataset_layer(dataset), style, rows);
    shown_rows_are_due(state, dataset.descriptor.id@, entry, window, rows, row);
    let j = choose|j: int| 0 <= j < rows.len() && rows[j] == row;
    assert(number_at(
        entry.table,
        entry.schema.coordinate_space_2d->0.x_column@,
        rows[j] as int,
    ) is Some);
    let i = choose|i: int|
        0 <= i < parts[d].len() && shows_row(
            entry,
            dataset.descriptor.id@,
            dataset_layer(dataset),
            style,
            rows[j],
            #[trigger] parts[d][i],
        );
    joined_lists_hold(parts, parts[d][i]);
    assert(parts[d].contains(parts[d][i]));
    assert(joined(parts).contains(parts[d][i]));
}

/// A dataset shows points in the plane where its layer is switched on, and none
/// where it is switched off or where its data are not loaded.
pub proof fn layers_are_shown_as_they_are_switched(
    state: InvestigationState,
    cache: TextMap<HostDatasetCacheEntry>,
    registry: RegistryModel,
    dataset: ResolvedHostDataset,
)
    ensures
        ({
            let layer = dataset_layer(dataset);
            let shown = plane_layer(state, cache, registry, dataset);
            &&& state.layer_visibility.at(layer) == Some(false) ==> shown is None
            &&& state.layer_visibility.at(layer) is None && (state.layer_styles.at(
                layer,
            ) matches Some(style) && !style.visible) ==> shown is None
            &&& table_of(registry, cache, dataset.descriptor.id@) is None ==> shown is None
            &&& !(dataset.descriptor.kind is TableV1) ==> shown is None
            &&& (dataset.descriptor.kind matches HostDatasetKind::TableV1(schema)
                && schema.coordinate_space_2d is Some) && table_of(
                registry,
                cache,
                dataset.descriptor.id@,
            ) is Some && state.layer_styles.at(layer) is Some && state.layer_visibility.at(layer)
                == Some(true) ==> shown == Some(
                (
                    table_of(registry, cache, dataset.descriptor.id@)->0,
                    state.layer_styles.at(layer)->0,
                ),
            )
            &&& (dataset.descriptor.kind matches HostDatasetKind::TableV1(schema)
                && schema.coordinate_space_2d is Some) && table_of(
                registry,
                cache,
                dataset.descriptor.id@,
            ) is Some && (state.layer_styles.at(layer) matches Some(style) && style.visible)
                && state.layer_visibility.at(layer) is None ==> shown is Some
        }),
{
}

/// A layer is named by its schema, or by the dataset where the schema names
/// none.
pub proof fn layers_are_named_by_the_schema(dataset: ResolvedHostDataset)
    ensures
        match dataset.descriptor.kind {
            HostDatasetKind::TableV1(schema) => if schema.layer_id is Some {
                dataset_layer(dataset) == schema.layer_id->0@
            } else {
                dataset_layer(dataset) == dataset.descriptor.id@
            },
            HostDatasetKind::Image2dV1 | HostDatasetKind::Series1dV1 => dataset_layer(dataset)
                == dataset.descriptor.id@,
        },
{
}

/// Whether a point of space shows a row of a table: it lies at the numbers of
/// that row in the three columns, and carries the key of the row.
pub open spec fn shows_row_in_space(
    entry: TableEntry,
    dataset_id: Seq<char>,
    title: Seq<char>,
    style: InvestigationLayerStyle,
    columns: (Seq<char>, Seq<char>, Seq<char>),
    row: usize,
    point: SpacePoint,
) -> bool {
    &&& Some(point.position.0) == number_at(entry.table, columns.0, row as int)
    &&& Some(point.position.1) == number_at(entry.table, columns.1, row as int)
    &&& Some(point.position.2) == number_at(entry.table, columns.2, row as int)
    &&& point.key == row_key(dataset_id, entry.generation, entry.schema, entry.table, row as int)
    &&& point.color == style.color
    &&& point.size == style.size
    &&& point.label == title
}

/// The points of a view of space show its rows, each one at the numbers that
/// it holds in the view's three columns; no row with these numbers is left out.
pub proof fn space_points_lie_at_their_rows(
    entry: TableEntry,
    dataset_id: Seq<char>,
    title: Seq<char>,
    style: InvestigationLayerStyle,
    columns: (Seq<char>, Seq<char>, Seq<char>),
    rows: Seq<usize>,
)
    ensures
        ({
            let points = space_points_of_rows(entry, dataset_id, title, style, columns, rows);
            &&& forall|i: int|
                0 <= i < points.len() ==> exists|j: int|
                    0 <= j < rows.len() && shows_row_in_space(
                        entry,
                        dataset_id,
                        title,
                        style,
                        columns,
                        #[trigger] rows[j],
                        #[trigger] points[i],
                    )
            &&& forall|j: int|
                0 <= j < rows.len() && number_at(
                    entry.table,
                    columns.0,
                    (#[trigger] rows[j]) as int,
                ) is Some && number_at(entry.table, columns.1, rows[j] as int) is Some && number_at(
                    entry.table,
                    columns.2,
                    rows[j] as int,
                ) is Some ==> exists|i: int|
                    0 <= i < points.len() && shows_row_in_space(
                        entry,
                        dataset_id,
                        title,
                        style,
                        columns,
                        rows[j],
                        #[trigger] points[i],
                    )
        }),
    decreases rows.len(),
{
    if rows.len() > 0 {
        let rest = rows.drop_last();
        space_points_lie_at_their_rows(entry, dataset_id, title, style, columns, rest);
        let before = space_points_of_rows(entry, dataset_id, title, style, columns, rest);
        let points = space_points_of_rows(entry, dataset_id, title, style, columns, rows);
        assert(forall|j: int| 0 <= j < rest.len() ==> #[trigger] rest[j] == rows[j]);
        assert(rows.last() == rows[rows.len() - 1]);
        assert forall|i: int| 0 <= i < points.len() implies exists|j: int|
            0 <= j < rows.len() && shows_row_in_space(
                entry,
                dataset_id,
                title,
                style,
                columns,
                #[trigger] rows[j],
                #[trigger] points[i],
            ) by {
            if i < before.len() {
                assert(points[i] == before[i]);
                let j = choose|j: int|
                    0 <= j < rest.len() && shows_row_in_space(
                        entry,
                        dataset_id,
                        title,
                        style,
                        columns,
                        #[trigger] rest[j],
                        before[i],
                    );
                assert(shows_row_in_space(
                    entry,
                    dataset_id,
                    title,
                    style,
                    columns,
                    rows[j],
                    points[i],
                ));
            } else {
                assert(shows_row_in_space(
                    entry,
                    dataset_id,
                    title,
                    style,
                    columns,
                    rows[rows.len() - 1],
                    points[i],
                ));
            }
        }
        assert forall|j: int|
            0 <= j < rows.len() && number_at(
                entry.table,
                columns.0,
                (#[trigger] rows[j]) as int,
            ) is Some && number_at(entry.table, columns.1, rows[j] as int) is Some && number_at(
                entry.table,
                columns.2,
                rows[j] as int,
            ) is Some implies exists|i: int|
            0 <= i < points.len() && shows_row_in_space(
                entry,
                dataset_id,
                title,
                style,
                columns,
                rows[j],
                #[trigger] points[i],
            ) by {
            if j < rest.len() {
                assert(rest[j] == rows[j]);
                let i = choose|i: int|
                    0 <= i < before.len() && shows_row_in_space(
                        entry,
                        dataset_id,
                        title,
                        style,
                        columns,
                        rest[j],
                        #[trigger] before[i],
                    );
                assert(points[i] == before[i]);
            } else {
                assert(shows_row_in_space(
                    entry,
                    dataset_id,
                    title,
                    style,
                    columns,
                    rows[j],
                    points[before.len() as int],
                ));
            }
        }
    }
}

/// A raw layer shows the events of its polarity, each once and in their order,
/// and no others. An event that stands out keeps the colour of the layer;
/// another one keeps its hue but is hardly opaque.
pub proof fn raw_layers_show_their_polarity(
    events: Seq<CdEvent>,
    polarity: bool,
    color: [u8; 4],
    focus: Option<AnalysisRoi>,
    selected: Set<u64>,
    any_selected: bool,
    n: nat,
)
    requires
        n <= events.len(),
    ensures
        ({
            let points = raw_points(events, polarity, color, focus, selected, any_selected, n);
            &&& forall|i: int|
                0 <= i < points.len() ==> 0 <= (#[trigger] points[i]).0 < n
                    && events[points[i].0].polarity == polarity && points[i].1.len() == 4
                    && points[i].1[0] == color[0] && points[i].1[1] == color[1]
                    && points[i].1[2] == color[2] && (points[i].2 ==> points[i].1[3] == color[3])
                    && (!points[i].2 ==> points[i].1[3] <= 36 && points[i].1[3] <= color[3] && (
                color[3] >= 36 ==> points[i].1[3] == 36) && (color[3] <= 36 ==> points[i].1[3]
                    == color[3]))
            &&& forall|i: int, j: int|
                0 <= i < j < points.len() ==> (#[trigger] points[i]).0 < (#[trigger] points[j]).0
            &&& forall|e: int|
                0 <= e < n && (#[trigger] events[e]).polarity == polarity ==> exists|i: int|
                    0 <= i < points.len() && (#[trigger] points[i]).0 == e
        }),
    decreases n,
{
    if n > 0 {
        let m = (n - 1) as nat;
        raw_layers_show_their_polarity(events, polarity, color, focus, selected, any_selected, m);
        let before = raw_points(events, polarity, color, focus, selected, any_selected, m);
        let points = raw_points(events, polarity, color, focus, selected, any_selected, n);
        assert(forall|i: int| 0 <= i < before.len() ==> points[i] == #[trigger] before[i]);
        assert forall|e: int| 0 <= e < n && (#[trigger] events[e]).polarity == polarity implies exists|
            i: int,
        | 0 <= i < points.len() && (#[trigger] points[i]).0 == e by {
            if e < m {
                let i = choose|i: int| 0 <= i < before.len() && (#[trigger] before[i]).0 == e;
                assert(points[i] == before[i]);
            } else {
                assert(points[before.len() as int].0 == e);
            }
        }
    }
}

/// Which raw events stand out: with no region in focus and nothing selected,
/// all of them; an event outside the focused region never; and once events are
/// selected, only these.
pub proof fn events_stand_out_in_focus(
    events: Seq<CdEvent>,
    polarity: bool,
    color: [u8; 4],
    focus: Option<AnalysisRoi>,
    selected: Set<u64>,
    any_selected: bool,
    n: nat,
)
    requires
        n <= events.len(),
    ensures
        ({
            let points = raw_points(events, polarity, color, focus, selected, any_selected, n);
            forall|i: int|
                0 <= i < points.len() ==> ({
                    let e = (#[trigger] points[i]).0;
                    let id = event_id(events[e], occurrence(events, e));
                    let x = whole(events[e].x as nat);
                    let y = whole(events[e].y as nat);
                    &&& focus is None && !any_selected ==> points[i].2
                    &&& any_selected && !selected.contains(id) ==> !points[i].2
                    &&& (focus matches Some(area) && !(area.x_min.le(x) && x.le(area.x_max)
                        && area.y_min.le(y) && y.le(area.y_max))) ==> !points[i].2
                    &&& (focus matches Some(area) && area.x_min.le(x) && x.le(area.x_max)
                        && area.y_min.le(y) && y.le(area.y_max)) && (any_selected
                        ==> selected.contains(id)) ==> points[i].2
                    &&& focus is None && selected.contains(id) ==> points[i].2
                })
        }),
    decreases n,
{
    if n > 0 {
        let m = (n - 1) as nat;
        events_stand_out_in_focus(events, polarity, color, focus, selected, any_selected, m);
        let before = raw_points(events, polarity, color, focus, selected, any_selected, m);
        let points = raw_points(events, polarity, color, focus, selected, any_selected, n);
        assert forall|i: int| 0 <= i < points.len() implies ({
            let e = (#[trigger] points[i]).0;
            let id = event_id(events[e], occurrence(events, e));
            let x = whole(events[e].x as nat);
            let y = whole(events[e].y as nat);
            &&& focus is None && !any_selected ==> points[i].2
            &&& any_selected && !selected.contains(id) ==> !points[i].2
            &&& (focus matches Some(area) && !(area.x_min.le(x) && x.le(area.x_max)
                && area.y_min.le(y) && y.le(area.y_max))) ==> !points[i].2
            &&& (focus matches Some(area) && area.x_min.le(x) && x.le(area.x_max) && area.y_min.le(
                y,
            ) && y.le(area.y_max)) && (any_selected ==> selected.contains(id)) ==> points[i].2
            &&& focus is None && selected.contains(id) ==> points[i].2
        }) by {
            if i < before.len() {
                assert(points[i] == before[i]);
            }
        }
    }
}

/// The occurrence of an event is the number of equal events before it.
pub proof fn occurrences_count_equal_events(events: Seq<CdEvent>, i: int, j: int)
    requires
        0 <= i < j < events.len(),
        events[i] == events[j],
        forall|k: int| i < k < j ==> events[k] != events[i],
        j < u32::MAX,
    ensures
        occurrence(events, j) == occurrence(events, i) + 1,
{
    equal_events_between(events, events[i], (i + 1) as nat, j as nat);
    counted_at_most(events, events[i], i as nat);
}

/// The first one of equal events occurs for the first time.
pub proof fn first_events_occur_first(events: Seq<CdEvent>, i: int)
    requires
        0 <= i < events.len(),
        forall|k: int| 0 <= k < i ==> events[k] != events[i],
    ensures
        occurrence(events, i) == 0,
{
    equal_events_between(events, events[i], 0, i as nat);
}

proof fn counted_at_most(events: Seq<CdEvent>, event: CdEvent, n: nat)
    ensures
        count_equal(events, event, n) <= n,
    decreases n,
{
    if n > 0 {
        counted_at_most(events, event, (n - 1) as nat);
    }
}

proof fn equal_events_between(events: Seq<CdEvent>, event: CdEvent, from: nat, to: nat)
    requires
        from <= to <= events.len(),
        forall|k: int| from <= k < to ==> events[k] != event,
    ensures
        count_equal(events, event, to) == count_equal(events, event, from),
    decreases to,
{
    if from < to {
        equal_events_between(events, event, from, (to - 1) as nat);
    }
}

/// A region covers the whole sensor where it holds its first and its last
/// pixel; only a smaller one is focused on.
pub proof fn only_smaller_regions_are_focused(
    area: AnalysisRoi,
    width: u16,
    height: u16,
)
    requires
        width > 0,
        height > 0,
    ensures
        ({
            let zero = Real64 { bits: 0 };
            let last_x = whole((width - 1) as nat);
            let last_y = whole((height - 1) as nat);
            let all = area.x_min.le(zero) && last_x.le(area.x_max) && area.y_min.le(zero)
                && last_y.le(area.y_max);
            focus_region(Some(area), width, height) == if all {
                None
            } else {
                Some(area)
            }
        }),
        focus_region(None, width, height) is None,
{
}

/// A view of space that has a table, a style and is shown has a layer in the
/// plan: under the name of the layer and the title of the view, with the points
/// of the rows that are shown.
pub proof fn shown_views_have_a_layer(
    state: InvestigationState,
    model: RegistryModel,
    cache: TextMap<HostDatasetCacheEntry>,
    window: Option<(u64, u64)>,
    n: nat,
    layers: Seq<PlannedLayer>,
    v: int,
    entry: TableEntry,
    style: InvestigationLayerStyle,
    columns: (String, String, String),
)
    requires
        view_layers(state, cache, model, window, n, layers),
        0 <= v < n,
        model.views[v].descriptor.kind == (HostViewKind::Scatter3dFromTable {
            x_column: columns.0,
            y_column: columns.1,
            z_column: columns.2,
        }),
        table_of(model, cache, model.views[v].descriptor.dataset_id@) == Some(entry),
        state.layer_styles.at(layer_of(entry.descriptor, Some(entry.schema))) == Some(style),
        state.shown(layer_of(entry.descriptor, Some(entry.schema)), style.visible),
    ensures
        exists|l: int|
            0 <= l < layers.len() && (#[trigger] layers[l]).id@ == layer_of(
                entry.descriptor,
                Some(entry.schema),
            ) && layers[l].title@ == model.views[v].descriptor.title@ && exists|rows: Seq<usize>|
                #[trigger]
                shown_rows(state, model.views[v].descriptor.dataset_id@, entry, window, rows)
                    && space_points(layers[l].points@) == space_points_of_rows(
                    entry,
                    model.views[v].descriptor.dataset_id@,
                    model.views[v].descriptor.title@,
                    style,
                    (columns.0@, columns.1@, columns.2@),
                    rows,
                ),
    decreases n,
{
    let last = (n - 1) as nat;
    let found = space_layer(state, cache, model, model.views[n - 1]);
    if v == last {
        assert(layers[layers.len() - 1] == layers.last());
        assert(is_view_layer(
            state,
            model.views[v],
            entry,
            style,
            (columns.0@, columns.1@, columns.2@),
            window,
            layers[layers.len() - 1],
        ));
    } else if found is Some {
        let rest = layers.drop_last();
        shown_views_have_a_layer(
            state,
            model,
            cache,
            window,
            last,
            rest,
            v,
            entry,
            style,
            columns,
        );
        let l = choose|l: int|
            0 <= l < rest.len() && (#[trigger] rest[l]).id@ == layer_of(
                entry.descriptor,
                Some(entry.schema),
            ) && rest[l].title@ == model.views[v].descriptor.title@ && exists|rows: Seq<usize>|
                #[trigger]
                shown_rows(state, model.views[v].descriptor.dataset_id@, entry, window, rows)
                    && space_points(rest[l].points@) == space_points_of_rows(
                    entry,
                    model.views[v].descriptor.dataset_id@,
                    model.views[v].descriptor.title@,
                    style,
                    (columns.0@, columns.1@, columns.2@),
                    rows,
                );
        assert(layers[l] == rest[l]);
    } else {
        shown_views_have_a_layer(
            state,
            model,
            cache,
            window,
            last,
            layers,
            v,
            entry,
            style,
            columns,
        );
    }
}

/// Every layer of the plan belongs to a view of space whose table is loaded and
/// whose layer is shown.
pub proof fn planned_layers_belong_to_views(
    state: InvestigationState,
    model: RegistryModel,
    cache: TextMap<HostDatasetCacheEntry>,
    window: Option<(u64, u64)>,
    n: nat,
    layers: Seq<PlannedLayer>,
    l: int,
)
    requires
        view_layers(state, cache, model, window, n, layers),
        0 <= l < layers.len(),
    ensures
        layers.len() <= n,
        exists|v: int|
            0 <= v < n && (#[trigger] model.views[v]).descriptor.kind is Scatter3dFromTable
                && layers[l].title@ == model.views[v].descriptor.title@ && (table_of(
                model,
                cache,
                model.views[v].descriptor.dataset_id@,
            ) matches Some(entry) && layers[l].id@ == layer_of(
                entry.descriptor,
                Some(entry.schema),
            ) && (state.layer_visibility.at(layers[l].id@) matches Some(visible) ==> visible)),
    decreases n,
{
    if n > 0 {
        let last = (n - 1) as nat;
        match space_layer(state, cache, model, model.views[n - 1]) {
            Some((entry, style, columns)) => {
                let rest = layers.drop_last();
                if l < rest.len() {
                    planned_layers_belong_to_views(state, model, cache, window, last, rest, l);
                    assert(rest[l] == layers[l]);
                } else {
                    assert(layers[l] == layers.last());
                    assert(model.views[n - 1].descriptor.kind is Scatter3dFromTable);
                    if rest.len() > 0 {
                        planned_layers_belong_to_views(state, model, cache, window, last, rest, 0);
                    }
                }
            },
            None => {
                planned_layers_belong_to_views(state, model, cache, window, last, layers, l);
            },
        }
    }
}

/// A raw layer holds events of the polarity that its name says, and no raw
/// layer is shown that is switched off.
pub proof fn raw_layers_hold_what_they_are_named_after(
    state: InvestigationState,
    events: Seq<CdEvent>,
    focus: Option<AnalysisRoi>,
    selected: Set<u64>,
    layers: Seq<RawEventLayer>,
    l: int,
    p: int,
)
    requires
        raw_layers_shown(state, events, focus, selected, layers),
        0 <= l < layers.len(),
    ensures
        layers[l].id@ == "host.raw_events.on"@ || layers[l].id@ == "host.raw_events.off"@,
        state.layer_styles.at(layers[l].id@) matches Some(style) && layers[l].title == style.title
            && layers[l].size == style.size,
        state.layer_visibility.at(layers[l].id@) matches Some(visible) ==> visible,
        0 <= p < layers[l].points@.len() ==> layers[l].points@[p].event < events.len() && (
        events[layers[l].points@[p].event as int].polarity <==> layers[l].id@
            == "host.raw_events.on"@),
        forall|e: int|
            0 <= e < events.len() && ((#[trigger] events[e]).polarity <==> layers[l].id@
                == "host.raw_events.on"@) ==> exists|i: int|
                0 <= i < layers[l].points@.len() && (#[trigger] layers[l].points@[i]).event == e,
{
    reveal_strlit("host.raw_events.on");
    reveal_strlit("host.raw_events.off");
    assert("host.raw_events.on"@[17] == 'n');
    assert("host.raw_events.off"@[17] == 'f');
    let any = !selected.is_empty();
    let on = raw_layer(state, RAW_EVENTS_ON_LAYER_ID@);
    let polarity = l == 0 && on is Some;
    let style = if polarity {
        on->0
    } else {
        raw_layer(state, RAW_EVENTS_OFF_LAYER_ID@)->0
    };
    let id = if polarity {
        RAW_EVENTS_ON_LAYER_ID@
    } else {
        RAW_EVENTS_OFF_LAYER_ID@
    };
    assert(is_raw_layer(events, id, polarity, style, focus, selected, any, layers[l]));
    raw_layers_show_their_polarity(
        events,
        polarity,
        style.color,
        focus,
        selected,
        any,
        events.len(),
    );
    let views = raw_point_views(layers[l].points@);
    if 0 <= p < layers[l].points@.len() {
        assert(views[p].0 == layers[l].points@[p].event);
    }
    assert forall|e: int|
        0 <= e < events.len() && ((#[trigger] events[e]).polarity <==> layers[l].id@
            == "host.raw_events.on"@) implies exists|i: int|
        0 <= i < layers[l].points@.len() && (#[trigger] layers[l].points@[i]).event == e by {
        assert(events[e].polarity == polarity);
        let i = choose|i: int| 0 <= i < views.len() && (#[trigger] views[i]).0 == e;
        assert(layers[l].points@[i].event == e);
    }
}

/// Layers that are there keep their style and whether they are shown, and every
/// dataset gets a layer that has both.
pub proof fn known_layers_stay(
    before: InvestigationState,
    after: InvestigationState,
    datasets: Seq<ResolvedHostDataset>,
    id: Seq<char>,
    i: int,
)
    requires
        layers_synced(before, after, datasets),
    ensures
        before.layer_styles.at(id) is Some && id != "host.raw_events.on"@ && id
            != "host.raw_events.off"@ ==> after.layer_styles.at(id) == before.layer_styles.at(id),
        before.layer_visibility.at(id) is Some ==> after.layer_visibility.at(id)
            == before.layer_visibility.at(id),
        0 <= i < datasets.len() ==> after.layer_styles.at(dataset_layer(datasets[i])) is Some
            && after.layer_visibility.at(dataset_layer(datasets[i])) is Some,
        before.layer_styles.at("host.raw_events.on"@) is None ==> (after.layer_styles.at(
            "host.raw_events.on"@,
        ) matches Some(style) && style.visible),
        before.layer_styles.at("host.raw_events.off"@) is None ==> (after.layer_styles.at(
            "host.raw_events.off"@,
        ) matches Some(style) && style.visible),
        before.layer_styles.at("host.raw_events.on"@) matches Some(old_style) ==> (
        after.layer_styles.at("host.raw_events.on"@) matches Some(style) && style.visible
            == old_style.visible),
        before.layer_styles.at("host.raw_events.off"@) matches Some(old_style) ==> (
        after.layer_styles.at("host.raw_events.off"@) matches Some(style) && style.visible
            == old_style.visible),
{
    if has_dataset(datasets, id) {
        let k = choose|k: int|
            0 <= k < datasets.len() && #[trigger] dataset_layer(datasets[k]) == id;
        let first = first_with_layer(datasets, k);
        assert(dataset_layer(datasets[first]) == id);
        assert(layer_ready(after, datasets[first]));
    }
    if 0 <= i < datasets.len() {
        assert(layer_ready(after, datasets[i])) by {
            assert(dataset_layer(datasets[i]) == dataset_layer(datasets[i]));
        }
    }
}

proof fn first_with_layer(datasets: Seq<ResolvedHostDataset>, k: int) -> (first: int)
    requires
        0 <= k < datasets.len(),
    ensures
        0 <= first <= k,
        dataset_layer(datasets[first]) == dataset_layer(datasets[k]),
        is_first_with_layer(datasets, first),
    decreases k,
{
    if is_first_with_layer(datasets, k) {
        k
    } else {
        let j = choose|j: int|
            0 <= j < k && #[trigger] dataset_layer(datasets[j]) == dataset_layer(datasets[k]);
        first_with_layer(datasets, j)
    }
}

/// The raw events are drawn as points of size two, the brighter ones in orange
/// and the darker ones in teal.
pub proof fn raw_events_have_their_style(style: InvestigationLayerStyle, on: bool)
    requires
        raw_layer_style(style, on),
    ensures
        style.visible,
        style.marker_shape is Point,
        style.size == (Real32 { bits: 0x4000_0000 }),
        on ==> style.color == [255u8, 186u8, 92u8, 240u8] && style.title@ == "Raw Events ON"@,
        !on ==> style.color == [92u8, 214u8, 201u8, 220u8] && style.title@ == "Raw Events OFF"@,
{
}

/// A plan that shows no raw events has nothing in focus, and one that does has
/// the focus of the region.
pub proof fn plans_focus_raw_events_only(
    state: InvestigationState,
    model: RegistryModel,
    cache: TextMap<HostDatasetCacheEntry>,
    window: Option<(u64, u64)>,
    events: Seq<CdEvent>,
    sensor_width: u16,
    sensor_height: u16,
    plan: ScenePlan,
)
    requires
        is_scene_plan(
            state,
            model,
            cache,
            window,
            events,
            sensor_width,
            sensor_height,
            plan,
        ),
    ensures
        state.layer_visibility.at("host.raw_events.on"@) == Some(false)
            && state.layer_visibility.at("host.raw_events.off"@) == Some(false)
            ==> plan.focus is None && plan.raw_layers@.len() == 0,
        state.layer_visibility.at("host.raw_events.on"@) != Some(false)
            || state.layer_visibility.at("host.raw_events.off"@) != Some(false) ==> plan.focus
            == focus_region(state.active_analysis_roi, sensor_width, sensor_height),
        plan.raw_layers@.len() <= 2,
        plan.layers@.len() <= model.views.len(),
{
    if plan.layers@.len() > 0 {
        planned_layers_belong_to_views(
            state,
            model,
            cache,
            window,
            model.views.len(),
            plan.layers@,
            0,
        );
    }
}

} // verus!
