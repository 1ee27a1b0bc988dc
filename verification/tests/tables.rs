use augur_gui::binary64::{Real32, Real64};
use augur_gui::host_data::{
    FloatCell, HostMarkerShape, TableColumn, TableColumnData, TableColumnDisplayFormat,
    TableColumnDisplayMetadata, TableColumnValues, TableCoordinateSpace2d,
    TableCoordinateSpace3d, TableDatasetV1, TableRowProvenance, TableSchema, TableValueType,
};
use augur_gui::investigation::{
    filtered_row_indices, InvestigationLayerStyle, InvestigationState,
    InvestigationTableViewState, TablePageSize, DEFAULT_LAYER_COLOR,
};
use augur_gui::rows::{
    retain_rows_in_frame_span, row_key_for_row, AnalysisRoi, InvestigationSortDirection,
    RoiConfig, StableRowKey,
};
use augur_gui::table_view::{format_cell_value, format_timestamp_micros, TableCellFormatOptions};

fn real64(x: f64) -> Real64 {
    Real64::from_bits(x.to_bits())
}

fn float_cell(x: f64) -> FloatCell {
    FloatCell { value: real64(x), json: None }
}

fn column(id: &str, value_type: TableValueType) -> TableColumn {
    TableColumn { id: id.into(), title: id.to_uppercase(), value_type }
}

fn floats(id: &str, values: &[f64]) -> TableColumnData {
    TableColumnData {
        column_id: id.into(),
        values: TableColumnValues::F64(values.iter().map(|x| float_cell(*x)).collect()),
        numeric: values.iter().map(|x| Some(real64(*x))).collect(),
        display: values.iter().map(|x| format!("{x:.3}")).collect(),
    }
}

fn texts(id: &str, values: &[&str]) -> TableColumnData {
    TableColumnData {
        column_id: id.into(),
        values: TableColumnValues::String(values.iter().map(|s| s.to_string()).collect()),
        numeric: values.iter().map(|_| None).collect(),
        display: values.iter().map(|s| s.to_string()).collect(),
    }
}

fn numbers(id: &str, values: &[u64]) -> TableColumnData {
    TableColumnData {
        column_id: id.into(),
        values: TableColumnValues::U64(values.to_vec()),
        numeric: values.iter().map(|n| Some(real64(*n as f64))).collect(),
        display: values.iter().map(|n| n.to_string()).collect(),
    }
}

fn schema() -> TableSchema {
    TableSchema {
        columns: vec![
            column("id", TableValueType::String),
            column("x", TableValueType::F64),
            column("y", TableValueType::F64),
            column("z", TableValueType::F64),
        ],
        coordinate_space_2d: Some(TableCoordinateSpace2d {
            x_column: "x".into(),
            y_column: "y".into(),
            x_min: real64(0.0),
            x_max: real64(20.0),
            y_min: real64(0.0),
            y_max: real64(20.0),
        }),
        coordinate_space_3d: Some(TableCoordinateSpace3d {
            x_column: "x".into(),
            y_column: "y".into(),
            z_column: "z".into(),
            x_min: real64(0.0),
            x_max: real64(20.0),
            y_min: real64(0.0),
            y_max: real64(20.0),
            z_min: real64(0.0),
            z_max: real64(20.0),
        }),
        row_id_column: Some("id".into()),
        time_column: None,
        layer_id: Some("layer.a".into()),
        semantic_label: Some("points".into()),
        provenance: None,
        column_display: Vec::new(),
    }
}

fn dataset() -> TableDatasetV1 {
    TableDatasetV1 {
        columns: vec![
            texts("id", &["a", "b"]),
            floats("x", &[2.0, 18.0]),
            floats("y", &[3.0, 19.0]),
            floats("z", &[4.0, 17.0]),
        ],
        rows: 2,
        spans: vec![None, None],
        anchors: vec![None, None],
    }
}

#[test]
fn row_keys_use_stable_id_column_when_available() {
    let key = row_key_for_row("table.points", 7, &schema(), &dataset(), 1);
    assert_eq!(key.dataset_id, "table.points");
    assert_eq!(key.row_id, "b");
}

#[test]
fn row_keys_fall_back_to_the_place() {
    let mut schema = schema();
    schema.row_id_column = None;
    let key = row_key_for_row("table.points", 7, &schema, &dataset(), 1);
    assert_eq!(key.row_id, "gen:7:row:1");
    assert!(key.same_key(&StableRowKey::new("table.points", "gen:7:row:1")));
}

#[test]
fn span_filter_keeps_rows_overlapping_frame_window() {
    let mut schema = schema();
    schema.columns.push(column("span_start", TableValueType::U64));
    schema.columns.push(column("span_end", TableValueType::U64));
    schema.provenance = Some(TableRowProvenance {
        anchor_time_column: None,
        span_start_column: Some("span_start".into()),
        span_end_column: Some("span_end".into()),
        anchor_frame_column: None,
    });
    let mut dataset = dataset();
    dataset.columns.push(numbers("span_start", &[100, 500]));
    dataset.columns.push(numbers("span_end", &[200, 600]));
    dataset.spans = vec![Some((100, 200)), Some((500, 600))];

    // Window fully inside row 0's span only.
    let kept = retain_rows_in_frame_span(vec![0, 1], &dataset, (150, 180));
    assert_eq!(kept, vec![0]);

    // Window covers both rows.
    let kept = retain_rows_in_frame_span(vec![0, 1], &dataset, (50, 1000));
    assert_eq!(kept, vec![0, 1]);

    // Window after both spans.
    let kept = retain_rows_in_frame_span(vec![0, 1], &dataset, (700, 800));
    assert!(kept.is_empty());
}

#[test]
fn span_filter_keeps_rows_without_provenance() {
    // No provenance, no time column: all rows are kept regardless of window.
    let kept = retain_rows_in_frame_span(vec![0, 1], &dataset(), (0, 1));
    assert_eq!(kept, vec![0, 1]);
}

#[test]
fn filtered_rows_follow_active_roi() {
    let state = InvestigationState {
        active_analysis_roi: Some(AnalysisRoi {
            x_min: real64(0.0),
            x_max: real64(10.0),
            y_min: real64(0.0),
            y_max: real64(10.0),
        }),
        ..InvestigationState::default()
    };
    let rows = filtered_row_indices(&state, "table.points", &schema(), &dataset());
    assert_eq!(rows, vec![0]);
}

#[test]
fn authoritative_layer_overwrites_color_but_preserves_visibility() {
    let mut state = InvestigationState::default();

    // A prior frame wrote a default-coloured style into the raw ON layer id,
    // and the user had toggled that layer off.
    state.layer_styles.insert(
        "host.raw_events.on".into(),
        InvestigationLayerStyle {
            title: "stale".into(),
            visible: false,
            color: DEFAULT_LAYER_COLOR,
            marker_shape: HostMarkerShape::Circle,
            size: Real32::from_bits(1.0f32.to_bits()),
        },
    );

    let raw_on_color = [255, 186, 92, 240];
    state.upsert_authoritative_layer(
        "host.raw_events.on".into(),
        InvestigationLayerStyle {
            title: "Raw Events ON".into(),
            visible: true,
            color: raw_on_color,
            marker_shape: HostMarkerShape::Point,
            size: Real32::from_bits(2.0f32.to_bits()),
        },
    );

    let style = state.layer_styles.get("host.raw_events.on").expect("raw ON style must exist");
    assert_eq!(style.color, raw_on_color, "raw ON color must not fall back to DEFAULT_LAYER_COLOR");
    assert_ne!(style.color, DEFAULT_LAYER_COLOR);
    assert_eq!(style.marker_shape, HostMarkerShape::Point);
    assert!(
        !style.visible,
        "prior user-chosen visibility must be preserved across authoritative seeding"
    );
}

#[test]
fn sensor_roi_conversion_uses_inclusive_max_bounds() {
    let roi = AnalysisRoi::from_sensor_roi(RoiConfig { x: 10, y: 20, width: 5, height: 7 });

    assert_eq!(f64::from_bits(roi.x_min.bits), 10.0);
    assert_eq!(f64::from_bits(roi.x_max.bits), 14.0);
    assert_eq!(f64::from_bits(roi.y_min.bits), 20.0);
    assert_eq!(f64::from_bits(roi.y_max.bits), 26.0);
}

#[test]
fn whole_numbers_have_the_patterns_of_floats() {
    for n in [0u16, 1, 2, 3, 5, 255, 256, 720, 1280, u16::MAX] {
        assert_eq!(Real64::from_u16(n).bits, f64::from(n).to_bits());
    }
}

fn formatted(
    data: &TableColumnData,
    format: Option<TableColumnDisplayFormat>,
    replay_origin_us: Option<u64>,
) -> String {
    let display = TableColumnDisplayMetadata { format, ..TableColumnDisplayMetadata::default() };
    format_cell_value(
        data,
        0,
        Some(&display),
        TableCellFormatOptions { replay_origin_us },
    )
}

#[test]
fn format_cell_value_renders_timestamp_micros_relative_to_replay_origin() {
    let values = numbers("t", &[1_500_000]);
    let text = formatted(
        &values,
        Some(TableColumnDisplayFormat::TimestampMicros),
        Some(500_000),
    );
    assert_eq!(text, "00:01.000");
}

#[test]
fn format_cell_value_respects_fixed_precision() {
    let values = floats("x", &[1.23456]);
    let text = formatted(
        &values,
        Some(TableColumnDisplayFormat::FixedPrecision { digits: 2 }),
        None,
    );
    assert_eq!(text, "1.23");
}

#[test]
fn fixed_precision_follows_the_number_of_digits() {
    for x in [1.23456f64, -0.5, 2.5, 1.0e-7, 123456789.987654321, f64::NAN, f64::INFINITY] {
        let values = floats("x", &[x]);
        for digits in [0u8, 1, 2, 4, 9, 20, 255] {
            let text =
                formatted(&values, Some(TableColumnDisplayFormat::FixedPrecision { digits }), None);
            assert_eq!(text, format!("{:.*}", usize::from(digits), x));
        }
    }
    let whole = numbers("n", &[42]);
    let format = Some(TableColumnDisplayFormat::FixedPrecision { digits: 3 });
    assert_eq!(formatted(&whole, format, None), "42");
}

#[test]
fn format_cell_value_falls_back_to_raw_without_metadata() {
    let values = numbers("n", &[42]);
    let text = format_cell_value(&values, 0, None, TableCellFormatOptions::default());
    assert_eq!(text, "42");
    assert_eq!(format_cell_value(&values, 5, None, TableCellFormatOptions::default()), "-");
}

#[test]
fn timestamps_count_from_the_origin() {
    assert_eq!(format_timestamp_micros(Some(3_600_000_000), None).as_deref(), Some("3600000000 µs"));
    assert_eq!(format_timestamp_micros(Some(3_661_002_500), Some(500)).as_deref(), Some("61:01.002"));
    assert_eq!(format_timestamp_micros(Some(5), Some(9)).as_deref(), Some("00:00.000"));
    assert_eq!(format_timestamp_micros(None, Some(1)), None);
}

#[test]
fn pages_cover_the_rows() {
    let mut state = InvestigationTableViewState::default();
    assert_eq!(state.page_count(250), 3);
    assert_eq!(state.visible_slice(250), (0, 100));
    state.page_index = 9;
    state.clamp_page(250);
    assert_eq!(state.page_index, 2);
    assert_eq!(state.visible_slice(250), (200, 250));
    assert_eq!(state.page_count(0), 1);
    assert_eq!(TablePageSize::All.rows_per_page(0), 1);
    assert_eq!(TablePageSize::Rows25.label(), "25");
}

#[test]
fn sorting_twice_turns_the_order() {
    let mut state = InvestigationTableViewState::default();
    state.toggle_sort("x");
    assert_eq!(state.sort_column.as_deref(), Some("x"));
    assert_eq!(state.sort_direction, InvestigationSortDirection::Ascending);
    state.toggle_sort("x");
    assert_eq!(state.sort_direction, InvestigationSortDirection::Descending);
    state.toggle_sort("y");
    assert_eq!(state.sort_direction, InvestigationSortDirection::Ascending);
    assert_eq!(
        InvestigationSortDirection::Ascending.toggled().toggled(),
        InvestigationSortDirection::Ascending
    );
}

#[test]
fn sorted_tables_list_their_rows_in_order() {
    let mut state = InvestigationState::default();
    let views = state.table_view_state_mut("table.points");
    views.toggle_sort("x");
    views.toggle_sort("x");
    let rows = filtered_row_indices(&state, "table.points", &schema(), &dataset());
    assert_eq!(rows, vec![1, 0]);
}
