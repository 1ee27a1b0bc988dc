use augur_gui::actions::{
    action_hint, augment_action_request_params, bool_param, bool_value, cluster_scope_row_snapshots,
    enum_param, enum_value, i64_param, i64_value, initial_params, open_action_modal,
    render_action_modal, render_investigation_actions, resolve_action_scope_payload,
    seed_default_params, set_param, table_row_snapshot_json, ActionQueue, HostActionScopePayload,
    ModalOutcome, SettingItem, SettingKind, SettingsSchema, SettingsSection,
};
use augur_gui::binary64::{Real32, Real64};
use augur_gui::colormap::{rgba_bytes, Colormap, Rgb};
use augur_gui::csv::{push_quoted, table_csv};
use augur_gui::dataset_cache::{
    cached_image, cached_series, cached_table, dataset_provider, HostDatasetCacheEntry,
    HostDatasetSnapshot, Image2dV1, ProviderRecord, Series1dLine, Series1dPoint, Series1dV1,
};
use augur_gui::drawing::{render_density_image, render_image2d_dataset};
use augur_gui::host_data::{
    FloatCell, HostActionDescriptor, HostActionScope, HostDatasetDescriptor, HostDatasetDisplay,
    HostDatasetKind, HostDatasetRelation, HostMarkerShape, HostViewDescriptor, HostViewKind, HostViewPlacement, HostViewRegistry,
    TableColumn, TableColumnData, TableColumnValues, TableDatasetV1, TableSchema, TableValueType,
};
use augur_gui::host_views::{
    export_host_view_csv, full_table_window, handle_host_view_actions, image_export_name,
    image_format_for, plan_view, plan_window, set_window_open, ViewAction, ViewContent, WindowRequests,
};
use augur_gui::investigation::{InvestigationState, InvestigationTableViewState};
use augur_gui::ordered_set::OrderedSet;
use augur_gui::places::build_investigation_scene_3d;
use augur_gui::raster::{
    count_cells, image_floor, numeric_column_bounds,
    percentile_finite, percentile_nonzero, plan_density_image, scatter_plot_points, series_name,
    DensityExtent, GridCell, HostViewRenderState, RenderStep,
};
use augur_gui::registry::{
    resolve_host_view_registry, HostRegistryContribution, HostViewProviderKey,
    ResolvedHostViewRegistry,
};
use augur_gui::related::{anchor_of_row, resolve_selection_event_ids};
use augur_gui::rows::{AnalysisRoi, RoiConfig, StableRowKey};
use augur_gui::scene::{
    build_investigation_points_2d, candidate_event_id, event_ids, plan_investigation_scene_3d,
    roi_is_effectively_full_frame, sync_active_analysis_roi, sync_investigation_layers, CdEvent,
};
use augur_gui::table_view::{
    apply_table_output, linked_table_page, pages_text, press_card, press_table, rows_text,
    summary_card, HostViewImageFormat,
    HostViewUiActions, LinkedTableViewOptions, LinkedTableViewOutput, SummaryBody,
    SummaryCardOptions, TableBody, TableCellFormatOptions, TablePress,
};
use augur_gui::text_map::TextMap;
use augur_gui::view_state::{HostViewState, PluginViews};

fn real64(x: f64) -> Real64 {
    Real64::from_bits(x.to_bits())
}

fn r32(x: f32) -> Real32 {
    Real32::from_bits(x.to_bits())
}

fn column(id: &str, value_type: TableValueType) -> TableColumn {
    TableColumn { id: id.into(), title: id.to_uppercase(), value_type }
}

fn data(id: &str, values: TableColumnValues, numeric: Vec<Option<f64>>) -> TableColumnData {
    TableColumnData {
        column_id: id.into(),
        values,
        display: numeric.iter().map(|n| format!("{n:?}")).collect(),
        numeric: numeric.into_iter().map(|n| n.map(real64)).collect(),
    }
}

fn floats(id: &str, values: &[f64]) -> TableColumnData {
    let cells = values
        .iter()
        .map(|x| FloatCell {
            value: real64(*x),
            json: serde_json::Number::from_f64(*x).map(serde_json::Value::Number),
        })
        .collect();
    data(id, TableColumnValues::F64(cells), values.iter().map(|x| Some(*x)).collect())
}

fn schema() -> TableSchema {
    TableSchema {
        columns: vec![
            column("id", TableValueType::String),
            column("cluster", TableValueType::U64),
            column("x", TableValueType::F64),
            column("y", TableValueType::F64),
            column("event_id", TableValueType::U64),
        ],
        coordinate_space_2d: None,
        coordinate_space_3d: None,
        row_id_column: Some("id".into()),
        time_column: None,
        layer_id: None,
        semantic_label: None,
        provenance: None,
        column_display: Vec::new(),
    }
}

fn table() -> TableDatasetV1 {
    let ids = ["a", "b", "c"].iter().map(|s| s.to_string()).collect();
    TableDatasetV1 {
        columns: vec![
            data("id", TableColumnValues::String(ids), vec![None, None, None]),
            data(
                "cluster",
                TableColumnValues::U64(vec![1, 1, 2]),
                vec![Some(1.0), Some(1.0), Some(2.0)],
            ),
            floats("x", &[0.5, 1.5, 2.5]),
            floats("y", &[0.0, 1.0, 4.0]),
            data(
                "event_id",
                TableColumnValues::U64(vec![11, 12, 13]),
                vec![Some(11.0), Some(12.0), Some(13.0)],
            ),
        ],
        rows: 3,
        spans: vec![None, None, None],
        anchors: vec![Some(100), None, Some(300)],
    }
}

fn dataset(id: &str, kind: HostDatasetKind) -> HostDatasetDescriptor {
    HostDatasetDescriptor {
        id: id.into(),
        title: format!("Title of {id}"),
        kind,
        kind_text: "kind".into(),
        empty_message: "Nothing".into(),
        display: None,
        relations: Vec::new(),
    }
}

fn view(id: &str, dataset_id: &str, kind: HostViewKind) -> HostViewDescriptor {
    HostViewDescriptor {
        id: id.into(),
        title: format!("View {id}"),
        dataset_id: dataset_id.into(),
        placement: HostViewPlacement::Window,
        kind,
    }
}

fn published() -> HostViewRegistry {
    HostViewRegistry {
        datasets: vec![
            dataset("points", HostDatasetKind::TableV1(schema())),
            dataset("image", HostDatasetKind::Image2dV1),
        ],
        views: vec![
            view("table", "points", HostViewKind::TableWindow),
            view("picture", "image", HostViewKind::ImageWindow),
        ],
        actions: vec![HostActionDescriptor {
            id: "refit".into(),
            title: "Refit".into(),
            scope: HostActionScope::Cluster {
                dataset_id: "points".into(),
                group_column: "cluster".into(),
            },
            param_schema: Some(serde_json::Value::from("form")),
        }],
    }
}

fn registry() -> ResolvedHostViewRegistry {
    resolve_host_view_registry(vec![HostRegistryContribution {
        provider: HostViewProviderKey::Runtime(0),
        provider_name: "Demo".into(),
        registry: published(),
    }])
}

fn entry(snapshot: Option<HostDatasetSnapshot>) -> HostDatasetCacheEntry {
    HostDatasetCacheEntry { generation: 4, snapshot: Ok(snapshot) }
}

fn cache() -> TextMap<HostDatasetCacheEntry> {
    let mut cache = TextMap::new();
    cache.insert("points".into(), entry(Some(HostDatasetSnapshot::Table(table()))));
    cache
}

fn selection(rows: &[&str]) -> OrderedSet<StableRowKey> {
    let mut out = OrderedSet::new();
    for row in rows {
        out.insert(StableRowKey::new("points", row));
    }
    out
}

#[test]
fn full_frame_roi_detection_ignores_linked_full_sensor_bounds() {
    let area = |x_min, x_max, y_min, y_max| AnalysisRoi {
        x_min: real64(x_min),
        x_max: real64(x_max),
        y_min: real64(y_min),
        y_max: real64(y_max),
    };
    let full = area(0.0, 1279.0, 0.0, 719.0);
    let partial = area(10.0, 100.0, 20.0, 120.0);

    assert!(roi_is_effectively_full_frame(&full, 1280, 720));
    assert!(!roi_is_effectively_full_frame(&partial, 1280, 720));
}

#[test]
fn clusters_are_found_from_the_selection() {
    let scope = HostActionScope::Cluster {
        dataset_id: "points".into(),
        group_column: "cluster".into(),
    };
    let payload =
        |rows: &[&str]| resolve_action_scope_payload(&registry(), &cache(), &selection(rows), &scope);
    match payload(&["a", "b"]) {
        Some(HostActionScopePayload::Cluster { group_value, .. }) => assert_eq!(group_value, "1"),
        other => panic!("{other:?}"),
    }
    assert!(payload(&["a", "c"]).is_none());
    assert!(payload(&[]).is_none());
    let row = HostActionScope::Row { dataset_id: "points".into() };
    let one = resolve_action_scope_payload(&registry(), &cache(), &selection(&["c"]), &row);
    assert!(matches!(one, Some(HostActionScopePayload::Row { row_id, .. }) if row_id == "c"));
    assert_eq!(action_hint(&row), "Select exactly one row on points to enable.");
    let offers = render_investigation_actions(&registry(), &cache(), &selection(&["c"]));
    assert_eq!(offers.len(), 1);
    assert_eq!(offers[0].title, "Refit");
    assert!(offers[0].payload.is_some());
    assert_eq!(offers[0].param_schema, Some(serde_json::Value::from("form")));
}

#[test]
fn cluster_requests_carry_their_rows() {
    let rows =
        cluster_scope_row_snapshots(&registry(), &cache(), "points", "cluster", "1").unwrap();
    assert_eq!(rows.len(), 2);
    let first = table_row_snapshot_json(&schema(), &table(), 0);
    assert_eq!(rows[0], first);
    assert_eq!(first["id"], serde_json::Value::from("a"));
    assert_eq!(first["x"], serde_json::Value::from(0.5));
    assert_eq!(first["cluster"], serde_json::Value::from(1u64));
    let payload = || HostActionScopePayload::Cluster {
        dataset_id: "points".into(),
        group_column: "cluster".into(),
        group_value: "1".into(),
    };
    let params = augment_action_request_params(
        &registry(),
        &cache(),
        &payload(),
        serde_json::Value::Null,
        "rows",
    );
    assert_eq!(params["rows"].as_array().map(Vec::len), Some(2));
    let mut queue = ActionQueue::new();
    for _ in 0..2 {
        queue.enqueue_action_request(
            &registry(),
            &cache(),
            "refit".into(),
            payload(),
            serde_json::Value::Null,
            "rows",
        );
    }
    assert_eq!(queue.pending.iter().map(|r| r.request_id).collect::<Vec<_>>(), vec![1, 2]);
}

fn form() -> SettingsSchema {
    let item = |key: &str, kind| SettingItem { key: key.into(), label: key.into(), kind };
    SettingsSchema {
        sections: vec![SettingsSection {
            label: "Fit".into(),
            description: None,
            default_open: true,
            items: vec![
                item("on", SettingKind::Bool { default: true }),
                item("n", SettingKind::I64Drag { min: 0, max: 9, default: 3 }),
                item(
                    "mode",
                    SettingKind::Enum { variants: vec!["A".into(), "B".into()], default: 1 },
                ),
            ],
        }],
    }
}

#[test]
fn forms_begin_with_their_defaults() {
    let params = seed_default_params(&form());
    assert!(bool_param(&params, "on", false));
    assert_eq!(i64_param(&params, "n", 0), 3);
    assert_eq!(enum_param(&params, "mode", 0), 1);
    assert_eq!(i64_param(&params, "missing", 8), 8);
    let params = set_param(params, "n", i64_value(5));
    let params = set_param(params, "on", bool_value(false));
    let params = set_param(params, "mode", enum_value(0));
    assert_eq!(i64_param(&params, "n", 0), 5);
    assert!(!bool_param(&params, "on", true));
    assert_eq!(enum_param(&params, "mode", 1), 0);
    assert!(initial_params(None).is_null());
}

#[test]
fn forms_are_applied_or_closed() {
    let modal = || {
        open_action_modal(
            "refit",
            "Refit",
            HostActionScopePayload::Dataset { dataset_id: "points".into() },
            Some(form()),
        )
    };
    assert_eq!(i64_param(&modal().params, "n", 0), 3);
    let edited = || i64_value(1);
    assert!(matches!(
        render_action_modal(modal(), edited(), false, false, true),
        ModalOutcome::Stay(kept) if kept.params == edited()
    ));
    assert!(matches!(
        render_action_modal(modal(), edited(), true, true, true),
        ModalOutcome::Apply(kept) if kept.action_id == "refit"
    ));
    assert!(matches!(
        render_action_modal(modal(), edited(), false, false, false),
        ModalOutcome::Closed
    ));
}

#[test]
fn selected_rows_lead_to_events_and_times() {
    let events = resolve_selection_event_ids(&registry(), &cache(), &selection(&["a", "c"]));
    let mut ids: Vec<u64> = events.into_iter().collect();
    ids.sort();
    assert_eq!(ids, vec![11, 13]);
    let anchor = |row| anchor_of_row(&registry(), &cache(), &StableRowKey::new("points", row));
    assert_eq!(anchor("a"), Some(100));
    assert_eq!(anchor("b"), None);
    assert_eq!(anchor("zz"), None);
}

#[test]
fn relations_lead_from_rows_to_events() {
    let mut registry = published();
    registry.datasets[0].relations = Vec::new();
    let mut summary = schema();
    summary.columns = vec![column("id", TableValueType::String), column("ref", TableValueType::U64)];
    let mut tracks = dataset("tracks", HostDatasetKind::TableV1(summary));
    tracks.relations = vec![HostDatasetRelation {
        via_column: "ref".into(),
        target_dataset_id: "points".into(),
        target_column: "cluster".into(),
    }];
    registry.datasets.push(tracks);
    let resolved = resolve_host_view_registry(vec![HostRegistryContribution {
        provider: HostViewProviderKey::Runtime(0),
        provider_name: "Demo".into(),
        registry,
    }]);
    let mut cache = cache();
    let track_table = TableDatasetV1 {
        columns: vec![
            data("id", TableColumnValues::String(vec!["t".into()]), vec![None]),
            data("ref", TableColumnValues::U64(vec![1]), vec![Some(1.0)]),
        ],
        rows: 1,
        spans: vec![None],
        anchors: vec![None],
    };
    cache.insert("tracks".into(), entry(Some(HostDatasetSnapshot::Table(track_table))));
    let mut selected = OrderedSet::new();
    selected.insert(StableRowKey::new("tracks", "t"));
    let mut ids: Vec<u64> =
        resolve_selection_event_ids(&resolved, &cache, &selected).into_iter().collect();
    ids.sort();
    assert_eq!(ids, vec![11, 12]);
}

#[test]
fn equal_events_are_told_apart() {
    let event = CdEvent { timestamp: 42, x: 3, y: 4, polarity: true };
    let ids = event_ids(&vec![event, event, CdEvent { polarity: false, ..event }]);
    assert_eq!(ids.len(), 3);
    assert!(ids[0] != ids[1] && ids[1] != ids[2] && ids[0] != ids[2]);
    assert_eq!(ids[0], candidate_event_id(42, 3, 4, true, 0));
    let expected = 42u64
        ^ 3u64.rotate_left(11)
        ^ 4u64.rotate_left(23)
        ^ 1u64.rotate_left(37)
        ^ 5u64.rotate_left(47);
    assert_eq!(candidate_event_id(42, 3, 4, true, 5), expected);
}

#[test]
fn raw_events_stand_in_their_layers() {
    let mut state = InvestigationState::default();
    sync_investigation_layers(&mut state, &registry());
    let style = |id: &str| state.layer_styles.get(id).unwrap().copied();
    let (on, off) = (style("host.raw_events.on"), style("host.raw_events.off"));
    assert_eq!((on.title.as_str(), on.color), ("Raw Events ON", [255, 186, 92, 240]));
    assert_eq!((off.title.as_str(), off.color), ("Raw Events OFF", [92, 214, 201, 220]));
    assert!(on.visible && off.visible);
    assert_eq!((on.marker_shape, on.size), (HostMarkerShape::Point, r32(2.0)));
    let events = vec![
        CdEvent { timestamp: 1, x: 1, y: 1, polarity: true },
        CdEvent { timestamp: 2, x: 9, y: 9, polarity: false },
    ];
    let plan =
        plan_investigation_scene_3d(&state, &registry(), &cache(), None, &events, 16, 16);
    assert_eq!(plan.raw_layers.len(), 2);
    assert_eq!(plan.raw_layers[0].points.len() + plan.raw_layers[1].points.len(), 2);
    assert!(plan.focus.is_none());
    let roi = RoiConfig { x: 0, y: 0, width: 4, height: 4 };
    sync_active_analysis_roi(&mut state, roi, None);
    let focused =
        plan_investigation_scene_3d(&state, &registry(), &cache(), None, &events, 16, 16);
    assert!(focused.focus.is_some());
    let scene = build_investigation_scene_3d(
        &state,
        &registry(),
        &cache(),
        None,
        &events,
        16,
        16,
        r32(10.0),
    );
    assert_eq!(scene.focus_volume.unwrap().label, "x 0..3, y 0..3");
    let raw = &scene.layers[scene.layers.len() - 2..];
    assert_eq!(raw[0].id, "host.raw_events.on");
    assert_eq!(raw[0].points[0].position.y, r32(14.0));
    assert_eq!(raw[0].points[0].position.z, r32(-(1.0 / 1_000.0) * (16.0 / 10.0)));
    assert_eq!(raw[0].points[0].size, r32(2.0 * 1.05));
    assert_eq!(raw[1].points[0].size, r32(2.0 * 0.85));
    assert_eq!(raw[1].points[0].color[3], 36);
    let points = build_investigation_points_2d(&state, &registry(), &cache(), None);
    assert!(points.is_empty());
}

#[test]
fn quotes_are_doubled_in_exports() {
    let mut out = String::new();
    push_quoted(&mut out, "a\"b");
    assert_eq!(out, "\"a\"\"b\"");
    let text = table_csv(&schema(), &table());
    let lines: Vec<&str> = text.lines().collect();
    assert_eq!(lines[0], "\"ID\",\"CLUSTER\",\"X\",\"Y\",\"EVENT_ID\"");
    assert_eq!(lines[1], "\"a\",\"1\",\"0.5\",\"0\",\"11\"");
    assert_eq!(lines.len(), 4);
}

#[test]
fn views_are_planned_by_their_datasets() {
    let registry = registry();
    let plan = plan_view(&registry, &cache(), registry.view("table").unwrap());
    assert_eq!(plan.content, ViewContent::LinkedTable);
    assert_eq!((plan.generation, plan.message), (4, None));
    let mut wrong = cache();
    wrong.insert("image".into(), entry(Some(HostDatasetSnapshot::Table(table()))));
    let plan = plan_view(&registry, &wrong, registry.view("picture").unwrap());
    assert_eq!(plan.message.as_deref(), Some("cached dataset is not an image dataset"));
    let mut open = TextMap::new();
    assert!(plan_window(&registry, &cache(), &mut open, registry.view("table").unwrap()).is_none());
    set_window_open(&mut open, "table", true);
    let window = plan_window(&registry, &cache(), &mut open, registry.view("table").unwrap());
    assert_eq!(window.unwrap().title, "View table — AugurRS");
    assert_eq!(full_table_window(&registry, "points").as_deref(), Some("table"));
    assert_eq!(full_table_window(&registry, "image"), None);
}

#[test]
fn tables_are_exported_with_a_safe_name() {
    let registry = registry();
    let export = |cache: &TextMap<HostDatasetCacheEntry>, id: &str| {
        export_host_view_csv(&registry, cache, registry.view(id).unwrap())
    };
    let text = export(&cache(), "table").unwrap();
    assert!(text.default_name.ends_with(".csv"), "{}", text.default_name);
    assert_eq!(text.text, table_csv(&schema(), &table()));
    let missing = export(&TextMap::new(), "table").err();
    assert_eq!(missing.as_deref(), Some("no dataset is available to export"));
    let picture = export(&cache(), "picture").err().unwrap();
    assert!(picture.contains("is not a tabular dataset"), "{picture}");
    let name = image_export_name("A view", HostViewImageFormat::Tiff);
    assert!(matches!(image_format_for(Some(&name)), Ok(HostViewImageFormat::Tiff)));
    assert!(matches!(image_format_for(Some("x.PNG")), Ok(HostViewImageFormat::Png)));
    assert_eq!(
        image_format_for(Some("x.jpg")).err().as_deref(),
        Some("image export path must end in .png, .tif, or .tiff")
    );
    let actions = HostViewUiActions {
        export_csv: true,
        export_image: None,
        clear_requested: true,
    };
    let steps = handle_host_view_actions(actions);
    assert!(matches!(steps.as_slice(), [ViewAction::Clear, ViewAction::ExportCsv]));
}

#[test]
fn datasets_come_from_their_providers() {
    let registry = registry();
    let provider = |available| vec![ProviderRecord { name: "Demo".into(), available }];
    assert_eq!(dataset_provider(&registry, &provider(true), "points"), Ok(0));
    let message = |providers: &Vec<ProviderRecord>, id| {
        dataset_provider(&registry, providers, id).unwrap_err()
    };
    assert_eq!(message(&provider(true), "none"), "unknown host dataset none");
    assert_eq!(
        message(&provider(false), "points"),
        "runtime provider Demo is unavailable for dataset points"
    );
    assert_eq!(
        message(&Vec::new(), "points"),
        "runtime provider index 0 is out of range for dataset points"
    );
}

#[test]
fn cached_data_has_to_be_of_its_sort() {
    let image = Image2dV1 { width: 1, height: 1, pixels: vec![r32(2.0)] };
    let holds_table = entry(Some(HostDatasetSnapshot::Table(table())));
    let holds_image = entry(Some(HostDatasetSnapshot::Image2d(image)));
    assert!(cached_table(Some(&holds_table)).unwrap().is_some());
    assert!(cached_table(None).unwrap().is_none());
    assert_eq!(
        cached_table(Some(&holds_image)).err(),
        Some("cached dataset is not a table dataset")
    );
    assert!(cached_image(Some(&holds_image)).unwrap().is_some());
    assert_eq!(
        cached_series(Some(&holds_image)).err(),
        Some("cached dataset is not a line-series dataset")
    );
    let failed = HostDatasetCacheEntry { generation: 0, snapshot: Err("gone".into()) };
    assert_eq!(cached_image(Some(&failed)).err(), Some("gone"));
}

#[test]
fn registries_are_refreshed_from_the_plugins() {
    let slot = |active, views| PluginViews { name: "Demo".into(), active, views };
    let mut state: HostViewState<u32> = HostViewState::new();
    assert!(state.registry_dirty);
    assert!(!state.refresh_host_view_registry(vec![
        slot(false, Err("not asked".into())),
        slot(true, Ok(published())),
    ]));
    assert_eq!(
        state.registry.dataset("points").unwrap().provider,
        HostViewProviderKey::Runtime(1)
    );
    assert_eq!(state.begin_caching("points", Ok(7)), Some(7));
    state.finish_caching("points", 7, Ok(Some(HostDatasetSnapshot::Table(table()))));
    assert_eq!(state.begin_caching("points", Ok(7)), None);
    assert_eq!(state.begin_caching("image", Err("gone".into())), None);
    assert!(state.dataset_cache.get("image").unwrap().snapshot.is_err());
    state.window_open.insert("table".into(), true);
    state.render_state.insert("picture".into(), HostViewRenderState::Nothing);
    state.render_state.get("picture").unwrap();
    assert!(state.refresh_host_view_registry(vec![slot(true, Err("crashed".into()))]));
    assert_eq!(state.warnings, vec!["Failed to read host views from Demo: crashed"]);
    assert!(state.window_open.get("table").is_none());
    assert!(state.render_state.get("picture").is_none());
    assert!(state.dataset_cache.get("points").is_none());
}

#[test]
fn stale_views_are_drawn_anew() {
    let mut state: HostViewState<u32> = HostViewState::new();
    let mut drawn = HostViewRenderState::Nothing;
    let density = drawn.density_state();
    assert_eq!(density.render_step(true, 3), RenderStep::Draw);
    density.finish_render(5, 2, 2, 3);
    assert_eq!(density.render_step(true, 3), RenderStep::Keep);
    assert_eq!(
        density.captions(12),
        vec![
            "Rows: 12",
            "Image: 2 x 2 px",
            "Pixel size: 10.0",
            "Contrast: 99.5th percentile",
            "Colormap: Fire",
        ]
    );
    assert_eq!(drawn.drawn_image(), Some(&5));
    let mut picture: HostViewRenderState<u32> = HostViewRenderState::Nothing;
    assert_eq!(
        picture.image_state().captions(6),
        vec!["Pixels: 6", "Image: 0 x 0 px", "Contrast: 99.5th percentile", "Colormap: Fire"]
    );
    state.render_state.insert("density".into(), drawn);
    state.dataset_cache = cache();
    state.mark_host_view_datasets_stale();
    assert_eq!(state.dataset_cache.len(), 0);
    let again = state.render_state.entry_or("density", HostViewRenderState::Nothing);
    assert_eq!(again.density_state().render_step(true, 3), RenderStep::Draw);
    assert_eq!(again.density_state().render_step(false, 3), RenderStep::Cleared);
    assert!(again.drawn_image().is_none());
}

#[test]
fn points_are_counted_in_cells() {
    let cell = |x, y| GridCell { x, y };
    let bins = count_cells(&vec![cell(0, 0), cell(1, 0), cell(1, 0), cell(-1, 0), cell(0, 9)], 2, 2);
    assert_eq!(bins, vec![1, 2, 0, 0]);
    assert_eq!(percentile_nonzero(&bins, r32(0.0)), r32(1.0));
    assert_eq!(percentile_nonzero(&bins, r32(99.5)), r32(2.0));
    assert_eq!(percentile_nonzero(&vec![0, 0], r32(50.0)), r32(1.0));
    let values = vec![r32(3.0), r32(f32::NAN), r32(-1.0), r32(2.0)];
    assert_eq!(percentile_finite(&values, r32(50.0)), r32(2.0));
    assert_eq!(percentile_finite(&Vec::new(), r32(50.0)), r32(1.0));
    let image = Image2dV1 { width: 2, height: 2, pixels: values };
    assert_eq!(image_floor(&image), r32(-1.0));
}

#[test]
fn densities_are_drawn() {
    let draw = |x: &str, size: f64| {
        render_density_image(
            &schema(),
            &table(),
            x,
            "y",
            real64(size),
            r32(100.0),
            Colormap::Grays,
        )
    };
    assert_eq!(draw("q", 1.0).err().unwrap(), "dataset is missing x column q");
    for size in [0.25, 0.5, 1.0, 3.0] {
        let image = draw("x", size).unwrap();
        let (xs, ys): (Vec<f64>, Vec<f64>) = scatter_plot_points(&table(), "x", "y")
            .unwrap()
            .iter()
            .map(|point| (f64::from_bits(point.x.bits), f64::from_bits(point.y.bits)))
            .unzip();
        let plan = plan_density_image(&schema(), &table(), "x", "y").unwrap();
        let DensityExtent::Area { x_min, x_max, y_min, y_max } = plan.extent else {
            panic!("an area");
        };
        let number = |x: Real64| f64::from_bits(x.bits);
        let (x_min, x_max) = (number(x_min), number(x_max));
        let (y_min, y_max) = (number(y_min), number(y_max));
        let width = (((x_max - x_min).max(0.0) / size).ceil() as usize).clamp(1, 8192);
        let height = (((y_max - y_min).max(0.0) / size).ceil() as usize).clamp(1, 8192);
        assert_eq!((image.width, image.height), (width, height));
        let mut bins = vec![0u32; width * height];
        for (x, y) in xs.iter().zip(&ys) {
            let x = ((x - x_min) / size).floor() as usize;
            let y = ((y - y_min) / size).floor() as usize;
            if x < width && y < height {
                bins[y * width + x] += 1;
            }
        }
        let most = bins.iter().copied().max().unwrap().max(1) as f32;
        let expected: Vec<Rgb> = bins
            .iter()
            .map(|count| Colormap::Grays.lookup(r32((*count as f32 / most).sqrt())))
            .collect();
        assert_eq!(image.pixels, expected);
    }
}

#[test]
fn views_are_drawn_when_they_are_outdated() {
    let mut state: HostViewRenderState<u8> = HostViewRenderState::Nothing;
    let table = table();
    let density = state.density_state();
    let first = density.render_if_needed(&schema(), Some(&table), 3, "x", "y").unwrap();
    let image = first.unwrap();
    density.finish_render(7, image.width, image.height, 3);
    assert!(density.render_if_needed(&schema(), Some(&table), 3, "x", "y").unwrap().is_none());
    let text = density.render_if_needed(&schema(), Some(&table), 4, "q", "y").err().unwrap();
    assert_eq!(text, "dataset is missing x column q");
    assert_eq!(density.image(), Some(&7));
    assert!(density.render_if_needed(&schema(), None, 4, "x", "y").unwrap().is_none());
    assert_eq!(density.image(), None);
    let data = Image2dV1 { width: 1, height: 1, pixels: vec![r32(1.0)] };
    let view = state.image_state();
    let drawn = view.render_if_needed(Some(&data), None, 1).unwrap();
    assert_eq!(drawn.unwrap().pixels.len(), 1);
    assert!(view.render_if_needed(None, None, 1).unwrap().is_none());
}

#[test]
fn images_are_drawn() {
    let values: Vec<f32> = vec![-2.5, f32::NAN, 0.0, 7.25, 1.0e-3, f32::INFINITY, 3.0, 9.0];
    let image = Image2dV1 {
        width: 4,
        height: 2,
        pixels: values.iter().map(|value| r32(*value)).collect(),
    };
    for percentile in [0.0f32, 60.0, 99.5, 100.0] {
        let drawn =
            render_image2d_dataset(&image, None, r32(percentile), Colormap::Fire).unwrap();
        assert_eq!((drawn.width, drawn.height), (4, 2));
        let mut finite: Vec<f32> = values.iter().copied().filter(|v| v.is_finite()).collect();
        finite.sort_by(f32::total_cmp);
        let last = finite.len() - 1;
        let place = ((last as f32) * percentile / 100.0).round() as usize;
        let low = finite[0];
        let high = finite[place].max(low + 1e-6);
        let range = (high - low).max(1e-6);
        let expected: Vec<Rgb> = values
            .iter()
            .map(|value| {
                let share =
                    if value.is_finite() { ((value - low) / range).clamp(0.0, 1.0) } else { 0.0 };
                Colormap::Fire.lookup(r32(share))
            })
            .collect();
        assert_eq!(drawn.pixels, expected);
    }
    let flat = Image2dV1 { width: 1, height: 1, pixels: vec![r32(3.0e7)] };
    let drawn = render_image2d_dataset(&flat, None, r32(99.0), Colormap::Grays).unwrap();
    assert_eq!(drawn.pixels, vec![Rgb { r: 0, g: 0, b: 0 }]);
    let invalid = render_image2d_dataset(&flat, Some("too small"), r32(99.0), Colormap::Grays);
    assert_eq!(invalid.err().as_deref(), Some("too small"));
    let mut drawing: HostViewRenderState<u32> = HostViewRenderState::Nothing;
    let state = drawing.image_state();
    assert!(state.render_if_needed(Some(&flat), Some("too small"), 1).is_err());
    assert!(state.render_if_needed(Some(&flat), None, 1).unwrap().is_some());
    state.finish_render(5, 1, 1, 1);
    assert!(state.render_if_needed(Some(&flat), Some("too small"), 1).unwrap().is_none());
}

#[test]
fn layers_keep_what_the_user_chose() {
    let dataset = |id: &str, title: &str, visible| HostDatasetDescriptor {
        id: id.into(),
        title: title.into(),
        kind: HostDatasetKind::TableV1(TableSchema { layer_id: Some("shared".into()), ..schema() }),
        kind_text: "TableV1(..)".into(),
        empty_message: "No rows".into(),
        display: Some(HostDatasetDisplay {
            layer_title: None,
            default_visibility: Some(visible),
            default_color: Some([1, 2, 3, 4]),
            default_marker_shape: None,
            default_size: None,
        }),
        relations: Vec::new(),
    };
    let registry = resolve_host_view_registry(vec![HostRegistryContribution {
        provider: HostViewProviderKey::Runtime(0),
        provider_name: "Demo".into(),
        registry: HostViewRegistry {
            datasets: vec![dataset("a", "First", false), dataset("b", "Second", true)],
            views: Vec::new(),
            actions: Vec::new(),
        },
    }]);
    let mut state = InvestigationState::default();
    state.layer_visibility.insert("other".into(), true);
    sync_investigation_layers(&mut state, &registry);
    let shared = state.layer_styles.get("shared").unwrap();
    assert_eq!((shared.title.as_str(), shared.visible), ("First", false));
    assert_eq!((shared.color, shared.marker_shape), ([1, 2, 3, 4], HostMarkerShape::Circle));
    assert_eq!(state.layer_visibility.get("shared"), Some(&false));
    assert_eq!(state.layer_styles.len(), 3);
    assert_eq!(state.layer_visibility.len(), 2);
    let mut style = shared.copied();
    style.title = "Mine".into();
    state.layer_styles.insert("shared".into(), style);
    state.layer_visibility.insert("shared".into(), true);
    let mut on = state.layer_styles.get("host.raw_events.on").unwrap().copied();
    on.visible = false;
    on.title = "Renamed".into();
    state.layer_styles.insert("host.raw_events.on".into(), on);
    sync_investigation_layers(&mut state, &registry);
    assert_eq!(state.layer_styles.get("shared").unwrap().title, "Mine");
    assert_eq!(state.layer_visibility.get("shared"), Some(&true));
    let on = state.layer_styles.get("host.raw_events.on").unwrap();
    assert_eq!((on.title.as_str(), on.visible), ("Raw Events ON", false));
}

#[test]
fn plots_need_numeric_columns() {
    let points = scatter_plot_points(&table(), "x", "y").unwrap();
    assert_eq!((points[2].x, points[2].y), (real64(2.5), real64(4.0)));
    let message = |x, y| scatter_plot_points(&table(), x, y).err().unwrap();
    assert_eq!(message("q", "y"), "dataset is missing x column q");
    assert_eq!(message("x", "q"), "dataset is missing y column q");
    assert_eq!(message("id", "y"), "column id is not numeric");
    let bounds = numeric_column_bounds(table().column("x").unwrap(), "x").unwrap();
    assert_eq!(bounds, Some((real64(0.5), real64(2.5))));
    let plan = plan_density_image(&schema(), &table(), "x", "y").unwrap();
    assert!(matches!(plan.extent, DensityExtent::Area { x_max, .. } if x_max == real64(2.5)));
    assert_eq!(plan.points.len(), 3);
}

#[test]
fn lines_have_names() {
    let line = |name: &str| Series1dLine {
        name: name.into(),
        points: vec![Series1dPoint { x: real64(0.0), y: real64(1.0) }],
    };
    assert_eq!(series_name(&line("Focus"), 0), "Focus");
    assert_eq!(series_name(&line("  "), 1), "Series 2");
    let series =
        Series1dV1 { x_label: "x".into(), y_label: "y".into(), lines: vec![line("a"), line("b")] };
    assert_eq!(series.total_points(), 2);
    assert!(!series.is_empty());
}

#[test]
fn images_become_bytes() {
    let pixels = vec![Rgb { r: 1, g: 2, b: 3 }, Rgb { r: 4, g: 5, b: 6 }];
    assert_eq!(rgba_bytes(&pixels, 2, 1), Ok(vec![1, 2, 3, 255, 4, 5, 6, 255]));
    assert_eq!(
        rgba_bytes(&pixels, 2, 2),
        Err("failed to build RGBA export image".to_owned())
    );
}

#[test]
fn tables_are_shown_page_by_page() {
    let rows = vec![2, 0];
    let state = InvestigationTableViewState::default();
    let selected = StableRowKey::new("points", "c");
    let options = LinkedTableViewOptions {
        dataset_id: "points",
        generation: 4,
        rows: &rows,
        selected_row: Some(&selected),
        hovered_row: None,
        allow_export: true,
        allow_clear: false,
        format: TableCellFormatOptions::default(),
    };
    let page = linked_table_page(&schema(), Some(&table()), &state, options);
    assert_eq!((page.filtered_total, page.total_rows, page.page_count), (2, 3, 1));
    assert!(rows_text(&page).contains('2'));
    assert!(pages_text(&page).contains('1'));
    match &page.body {
        TableBody::Rows { headers, rows } => {
            assert_eq!(headers.len(), 5);
            assert_eq!(rows.len(), 2);
            assert!(rows[0].selected && !rows[1].selected);
        }
        other => panic!("{other:?}"),
    }
    let mut output = LinkedTableViewOutput::default();
    press_table(&page, TablePress::Row(1), true, false, &mut output);
    assert_eq!(output.selected_row.as_ref().map(|key| key.row_id.as_str()), Some("a"));
    press_table(&page, TablePress::Header(2), true, false, &mut output);
    assert_eq!(output.sort_column.as_deref(), Some("x"));
    press_table(&page, TablePress::Clear, true, false, &mut output);
    assert!(!output.actions.clear_requested);
}

#[test]
fn cards_summarise_the_selected_row() {
    let selected = StableRowKey::new("points", "b");
    let options = |selected_row| SummaryCardOptions {
        dataset_id: "points",
        generation: 4,
        selected_row,
        format: TableCellFormatOptions::default(),
        allow_export: true,
    };
    let card = summary_card(&schema(), Some(&table()), options(Some(&selected)));
    assert_eq!(card.total_rows, 3);
    assert!(matches!(card.body, SummaryBody::Detail { .. }));
    let card = summary_card(&schema(), Some(&table()), options(None));
    assert!(matches!(card.body, SummaryBody::NothingSelected));
    let card = summary_card(&schema(), None, options(None));
    assert!(matches!(card.body, SummaryBody::Empty));
}

#[test]
fn more_rows_lead_to_more_events() {
    let events = |rows: &[&str]| {
        resolve_selection_event_ids(&registry(), &cache(), &selection(rows))
    };
    assert!(events(&["a"]).is_subset(&events(&["a", "b"])));
    assert!(events(&[]).is_empty());
}

#[test]
fn selections_do_not_depend_on_their_order() {
    assert_eq!(selection(&["b", "a", "b"]).as_list(), selection(&["a", "b"]).as_list());
}

#[test]
fn providers_have_windows_of_their_own() {
    let registry = registry();
    let windows = registry.window_views_for_provider(HostViewProviderKey::Runtime(0));
    assert_eq!(windows.len(), 2);
    assert!(registry.window_views_for_provider(HostViewProviderKey::Runtime(1)).is_empty());
}

#[test]
fn zooming_does_not_draw_anew() {
    let mut drawn: HostViewRenderState<u32> = HostViewRenderState::Nothing;
    let image = drawn.image_state();
    image.finish_render(1, 1, 1, 2);
    let mut settings = image.settings();
    settings.zoom = r32(4.0);
    image.adjust_settings(settings);
    assert_eq!(image.render_step(true, 2), RenderStep::Keep);
    assert_eq!(image.settings().zoom, r32(4.0));
    settings.contrast_percentile = r32(95.0);
    image.adjust_settings(settings);
    assert_eq!(image.render_step(true, 2), RenderStep::Draw);
}

#[test]
fn requests_of_windows_are_collected() {
    let mut requests = WindowRequests::default();
    let output = LinkedTableViewOutput {
        selected_row: Some(StableRowKey::new("points", "a")),
        ..LinkedTableViewOutput::default()
    };
    requests.add_table_output(output);
    requests.add_actions(HostViewUiActions {
        export_csv: true,
        export_image: None,
        clear_requested: false,
    });
    let taken = requests.take();
    assert!(taken.export_csv && !taken.clear);
    assert_eq!(taken.selected_row, Some(StableRowKey::new("points", "a")));
    assert!(!requests.take().export_csv);
    let mut state = InvestigationState::default();
    apply_table_output(&mut state, "points", taken.selected_row, Some("x".into()), None, None);
    assert_eq!(state.primary_selection(), Some(&StableRowKey::new("points", "a")));
    let sorted = state.table_view_state_mut("points").sort_column.clone();
    assert_eq!(sorted.as_deref(), Some("x"));
}

#[test]
fn cards_offer_the_whole_table() {
    let options = SummaryCardOptions {
        dataset_id: "points",
        generation: 4,
        selected_row: None,
        format: TableCellFormatOptions::default(),
        allow_export: true,
    };
    let card = summary_card(&schema(), Some(&table()), options);
    let pressed = press_card(&card, true, true);
    assert!(pressed.open_full_table && pressed.actions.export_csv);
    let empty = summary_card(&schema(), None, options);
    assert!(!press_card(&empty, true, true).actions.export_csv);
}
