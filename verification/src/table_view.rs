//! Tables as they are shown and exported: formatted cells, the summary card,
//! the pages of a linked table, and CSV.
use crate::host_data::{
    display_of, TableColumn, TableColumnData, TableColumnDisplayFormat, TableColumnDisplayMetadata,
    TableColumnValues, TableColumnWidthPriority, TableDatasetV1, TableSchema,
};
use crate::investigation::{
    page_rows, pages, InvestigationState, InvestigationTableViewState, TablePageSize,
};
use crate::rows::{
    first_row_with_key, row_index_for_key, row_key, row_key_for_row,
    InvestigationSortDirection, StableRowKey,
};
use crate::text::{decimal, push_decimal, push_padded, zero_padded};
use crate::whole_text::{fixed_text, push_fixed};
use vstd::prelude::*;

verus! {

// ---------------------------------------------------------------------------
// Cells
// ---------------------------------------------------------------------------
/// How cells are formatted: times are shown relative to the start of the
/// replay, where it is known.
#[derive(Debug, Clone, Copy, PartialEq, Eq, Structural)]
pub struct TableCellFormatOptions {
    pub replay_origin_us: Option<u64>,
}

impl Default for TableCellFormatOptions {
    fn default() -> (out: Self)
        ensures
            out.replay_origin_us is None,
    {
        TableCellFormatOptions { replay_origin_us: None }
    }
}

/// A time: minutes, seconds and milliseconds from an origin, or microseconds
/// where there is no origin.
pub open spec fn timestamp_text(value_us: Option<u64>, origin_us: Option<u64>) -> Option<Seq<char>> {
    match value_us {
        None => None,
        Some(value) => match origin_us {
            None => Some(decimal(value as nat) + " \u{00B5}s"@),
            Some(origin) => {
                let relative = if value >= origin {
                    (value - origin) as int
                } else {
                    0
                };
                let millis = relative / 1_000;
                let seconds = millis / 1_000;
                Some(
                    zero_padded(decimal((seconds / 60) as nat), 2) + ":"@ + zero_padded(
                        decimal((seconds % 60) as nat),
                        2,
                    ) + "."@ + zero_padded(decimal((millis % 1_000) as nat), 3),
                )
            },
        },
    }
}

pub fn format_timestamp_micros(value_us: Option<u64>, replay_origin_us: Option<u64>) -> (out: Option<
    String,
>)
    ensures
        match out {
            Some(text) => timestamp_text(value_us, replay_origin_us) == Some(text@),
            None => timestamp_text(value_us, replay_origin_us) is None,
        },
{
    let value: u64 = match value_us {
        Some(v) => v,
        None => {
            return None;
        },
    };
    let mut out = String::new();
    match replay_origin_us {
        None => {
            push_decimal(&mut out, value);
            out.append(" \u{00B5}s");
        },
        Some(origin) => {
            let relative: u64 = if value >= origin {
                value - origin
            } else {
                0
            };
            let total_millis: u64 = relative / 1_000;
            let seconds: u64 = total_millis / 1_000;
            push_padded(&mut out, seconds / 60, 2);
            out.append(":");
            push_padded(&mut out, seconds % 60, 2);
            out.append(".");
            push_padded(&mut out, total_millis % 1_000, 3);
        },
    }
    assert(out@ =~= timestamp_text(value_us, replay_origin_us)->0);
    Some(out)
}

/// A cell as an unsigned number: whole numbers only, negative ones by their
/// bits.
pub open spec fn unsigned_at(values: TableColumnValues, index: int) -> Option<u64> {
    match values {
        TableColumnValues::U64(v) => if 0 <= index < v@.len() {
            Some(v@[index])
        } else {
            None
        },
        TableColumnValues::I64(v) => if 0 <= index < v@.len() {
            Some(
                if v@[index] < 0 {
                    (v@[index] + 0x1_0000_0000_0000_0000) as u64
                } else {
                    v@[index] as u64
                },
            )
        } else {
            None
        },
        _ => None,
    }
}

fn values_as_u64(values: &TableColumnValues, index: usize) -> (out: Option<u64>)
    ensures
        out == unsigned_at(*values, index as int),
{
    match values {
        TableColumnValues::U64(v) => if index < v.len() {
            Some(v[index])
        } else {
            None
        },
        TableColumnValues::I64(v) => if index < v.len() {
            let value: i64 = v[index];
            Some(
                if value < 0 {
                    (value as i128 + 0x1_0000_0000_0000_0000) as u64
                } else {
                    value as u64
                },
            )
        } else {
            None
        },
        _ => None,
    }
}

/// A cell as its column's display metadata asks for it. Cells that the format
/// does not apply to are shown as they are.
pub open spec fn formatted(
    column: TableColumnData,
    index: int,
    display: Option<TableColumnDisplayMetadata>,
    origin_us: Option<u64>,
) -> Seq<char> {
    let raw = column.shown_at(index);
    match display {
        None => raw,
        Some(meta) => match meta.format {
            None => raw,
            Some(TableColumnDisplayFormat::TimestampMicros) => match timestamp_text(
                unsigned_at(column.values, index),
                origin_us,
            ) {
                Some(text) => text,
                None => raw,
            },
            Some(TableColumnDisplayFormat::FixedPrecision { digits }) => match column.values {
                TableColumnValues::F64(v) => if 0 <= index < v@.len() {
                    fixed_text(v@[index].value, digits as nat)
                } else {
                    raw
                },
                _ => raw,
            },
            Some(_) => raw,
        },
    }
}

/// Display metadata by value.
pub open spec fn given_display(display: Option<&TableColumnDisplayMetadata>) -> Option<
    TableColumnDisplayMetadata,
> {
    match display {
        Some(d) => Some(*d),
        None => None,
    }
}

pub fn format_cell_value(
    column: &TableColumnData,
    index: usize,
    display: Option<&TableColumnDisplayMetadata>,
    options: TableCellFormatOptions,
) -> (out: String)
    ensures
        out@ == formatted(*column, index as int, given_display(display), options.replay_origin_us),
{
    let raw = column.display_value(index);
    match display {
        None => raw,
        Some(meta) => match meta.format {
            None => raw,
            Some(TableColumnDisplayFormat::TimestampMicros) => match format_timestamp_micros(
                values_as_u64(&column.values, index),
                options.replay_origin_us,
            ) {
                Some(text) => text,
                None => raw,
            },
            Some(TableColumnDisplayFormat::FixedPrecision { digits }) => match &column.values {
                TableColumnValues::F64(v) => if index < v.len() {
                    let mut text = String::new();
                    push_fixed(&mut text, v[index].value, digits as usize);
                    assert(text@ =~= fixed_text(v@[index as int].value, digits as nat));
                    text
                } else {
                    raw
                },
                _ => raw,
            },
            Some(TableColumnDisplayFormat::Identifier) => raw,
            Some(TableColumnDisplayFormat::Category) => raw,
        },
    }
}

/// What a column is called: the label of its display metadata, or its title.
pub open spec fn column_name(schema: TableSchema, column: TableColumn) -> Seq<char> {
    match display_of(schema.column_display@, column.id@) {
        Some(meta) => match meta.label {
            Some(label) => label@,
            None => column.title@,
        },
        None => column.title@,
    }
}

fn column_label(schema: &TableSchema, column: &TableColumn) -> (out: String)
    ensures
        out@ == column_name(*schema, *column),
{
    match schema.display(column.id.as_str()) {
        Some(meta) => match &meta.label {
            Some(label) => label.clone(),
            None => column.title.clone(),
        },
        None => column.title.clone(),
    }
}

// ---------------------------------------------------------------------------
// The summary card
// ---------------------------------------------------------------------------
/// The buttons of a view that were pressed.
#[derive(Debug, Clone, Copy, PartialEq, Eq, Structural)]
pub struct HostViewUiActions {
    pub export_csv: bool,
    pub export_image: Option<HostViewImageFormat>,
    pub clear_requested: bool,
}

impl Default for HostViewUiActions {
    fn default() -> (out: Self)
        ensures
            out == no_actions(),
    {
        HostViewUiActions { export_csv: false, export_image: None, clear_requested: false }
    }
}

pub open spec fn no_actions() -> HostViewUiActions {
    HostViewUiActions { export_csv: false, export_image: None, clear_requested: false }
}

/// The formats that the image of a view can be saved in.
#[derive(Debug, Clone, Copy, PartialEq, Eq, Structural)]
pub enum HostViewImageFormat {
    Png,
    Tiff,
}

impl HostViewImageFormat {
    pub open spec fn suffix(self) -> Seq<char> {
        match self {
            HostViewImageFormat::Png => "png"@,
            HostViewImageFormat::Tiff => "tiff"@,
        }
    }

    pub fn extension(self) -> (out: &'static str)
        ensures
            out@ == self.suffix(),
    {
        match self {
            HostViewImageFormat::Png => "png",
            HostViewImageFormat::Tiff => "tiff",
        }
    }
}

/// Which rows a summary card is about, and what it offers.
#[derive(Debug, Clone, Copy)]
pub struct SummaryCardOptions<'a> {
    pub dataset_id: &'a str,
    pub generation: u64,
    pub selected_row: Option<&'a StableRowKey>,
    pub format: TableCellFormatOptions,
    pub allow_export: bool,
}

/// What was asked for on a summary card.
#[derive(Debug, Clone, Copy, PartialEq, Eq, Structural)]
pub struct SummaryCardOutput {
    pub actions: HostViewUiActions,
    pub open_full_table: bool,
}

impl Default for SummaryCardOutput {
    fn default() -> (out: Self)
        ensures
            out.actions == no_actions(),
            !out.open_full_table,
    {
        SummaryCardOutput { actions: HostViewUiActions::default(), open_full_table: false }
    }
}

/// A line of a summary card.
#[derive(Debug)]
pub struct SummaryLine {
    pub label: String,
    pub value: String,
}

/// What stands below the buttons of a summary card.
#[derive(Debug)]
pub enum SummaryBody {
    /// The table has no rows.
    Empty,
    /// No row of the table is selected.
    NothingSelected,
    /// The cells of the selected row.
    Detail { headline: Option<String>, lines: Vec<SummaryLine> },
}

#[derive(Debug)]
pub struct SummaryCard {
    pub total_rows: usize,
    pub export_offered: bool,
    pub body: SummaryBody,
}

pub open spec fn is_headline(schema: TableSchema, column_id: Seq<char>) -> bool {
    display_of(schema.column_display@, column_id) matches Some(meta) && meta.headline
}

pub open spec fn is_compact(schema: TableSchema, column_id: Seq<char>) -> bool {
    !(display_of(schema.column_display@, column_id) matches Some(meta) && meta.hide_in_compact)
}

/// The text of a column's cell in a row, where the table has the column.
pub open spec fn cell_shown(
    schema: TableSchema,
    dataset: TableDatasetV1,
    column_id: Seq<char>,
    row: int,
    origin_us: Option<u64>,
) -> Option<Seq<char>> {
    match dataset.named(column_id) {
        Some(column) => Some(
            formatted(column, row, display_of(schema.column_display@, column_id), origin_us),
        ),
        None => None,
    }
}

/// The headline of a row: the cell of the first headline column.
pub open spec fn headline_of(
    schema: TableSchema,
    columns: Seq<TableColumn>,
    dataset: TableDatasetV1,
    row: int,
    origin_us: Option<u64>,
) -> Option<Seq<char>>
    decreases columns.len(),
{
    if columns.len() == 0 {
        None
    } else if is_headline(schema, columns[0].id@) {
        cell_shown(schema, dataset, columns[0].id@, row, origin_us)
    } else {
        headline_of(schema, columns.drop_first(), dataset, row, origin_us)
    }
}

/// The lines of a row: its columns by name and cell, but for headlines, columns
/// that are hidden in compact views, and columns that the table does not have.
pub open spec fn lines_of(
    schema: TableSchema,
    columns: Seq<TableColumn>,
    dataset: TableDatasetV1,
    row: int,
    origin_us: Option<u64>,
) -> Seq<(Seq<char>, Seq<char>)>
    decreases columns.len(),
{
    if columns.len() == 0 {
        seq![]
    } else {
        let before = lines_of(schema, columns.drop_last(), dataset, row, origin_us);
        let column = columns.last();
        if !is_compact(schema, column.id@) || is_headline(schema, column.id@) {
            before
        } else {
            match cell_shown(schema, dataset, column.id@, row, origin_us) {
                Some(text) => before.push((column_name(schema, column), text)),
                None => before,
            }
        }
    }
}

pub open spec fn line_texts(lines: Seq<SummaryLine>) -> Seq<(Seq<char>, Seq<char>)> {
    lines.map_values(|line: SummaryLine| (line.label@, line.value@))
}

fn shown_cell(
    schema: &TableSchema,
    dataset: &TableDatasetV1,
    column_id: &str,
    row: usize,
    format: TableCellFormatOptions,
) -> (out: Option<String>)
    ensures
        match out {
            Some(text) => cell_shown(
                *schema,
                *dataset,
                column_id@,
                row as int,
                format.replay_origin_us,
            ) == Some(text@),
            None => cell_shown(
                *schema,
                *dataset,
                column_id@,
                row as int,
                format.replay_origin_us,
            ) is None,
        },
{
    match dataset.column(column_id) {
        Some(column) => {
            let display = schema.display(column_id);
            assert(given_display(display) == display_of(schema.column_display@, column_id@));
            Some(format_cell_value(column, row, display, format))
        },
        None => None,
    }
}

fn headline_column(schema: &TableSchema, column_id: &str) -> (out: bool)
    ensures
        out == is_headline(*schema, column_id@),
{
    match schema.display(column_id) {
        Some(meta) => meta.headline,
        None => false,
    }
}

fn compact_column(schema: &TableSchema, column_id: &str) -> (out: bool)
    ensures
        out == is_compact(*schema, column_id@),
{
    match schema.display(column_id) {
        Some(meta) => !meta.hide_in_compact,
        None => true,
    }
}

/// The details of a row on a summary card.
pub fn summary_detail(
    schema: &TableSchema,
    dataset: &TableDatasetV1,
    row: usize,
    format: TableCellFormatOptions,
) -> (out: (Option<String>, Vec<SummaryLine>))
    ensures
        match out.0 {
            Some(text) => headline_of(
                *schema,
                schema.columns@,
                *dataset,
                row as int,
                format.replay_origin_us,
            ) == Some(text@),
            None => headline_of(
                *schema,
                schema.columns@,
                *dataset,
                row as int,
                format.replay_origin_us,
            ) is None,
        },
        line_texts(out.1@) == lines_of(
            *schema,
            schema.columns@,
            *dataset,
            row as int,
            format.replay_origin_us,
        ),
{
    let ghost origin = format.replay_origin_us;
    let mut headline: Option<String> = None;
    let mut found = false;
    let mut i: usize = 0;
    assert(schema.columns@.skip(0) =~= schema.columns@);
    while i < schema.columns.len() && !found
        invariant
            i <= schema.columns@.len(),
            origin == format.replay_origin_us,
            !found ==> headline is None && headline_of(
                *schema,
                schema.columns@.skip(i as int),
                *dataset,
                row as int,
                origin,
            ) == headline_of(*schema, schema.columns@, *dataset, row as int, origin),
            found ==> match headline {
                Some(text) => headline_of(
                    *schema,
                    schema.columns@,
                    *dataset,
                    row as int,
                    origin,
                ) == Some(text@),
                None => headline_of(*schema, schema.columns@, *dataset, row as int, origin) is None,
            },
        decreases schema.columns@.len() - i,
    {
        assert(schema.columns@.skip(i as int).drop_first() =~= schema.columns@.skip(i + 1));
        assert(schema.columns@.skip(i as int)[0] == schema.columns@[i as int]);
        if headline_column(schema, schema.columns[i].id.as_str()) {
            headline = shown_cell(schema, dataset, schema.columns[i].id.as_str(), row, format);
            found = true;
        }
        i = i + 1;
    }
    let mut lines: Vec<SummaryLine> = Vec::new();
    let mut k: usize = 0;
    assert(schema.columns@.take(0) =~= Seq::<TableColumn>::empty());
    assert(line_texts(lines@) =~= Seq::<(Seq<char>, Seq<char>)>::empty());
    while k < schema.columns.len()
        invariant
            k <= schema.columns@.len(),
            origin == format.replay_origin_us,
            line_texts(lines@) == lines_of(
                *schema,
                schema.columns@.take(k as int),
                *dataset,
                row as int,
                origin,
            ),
        decreases schema.columns@.len() - k,
    {
        assert(schema.columns@.take(k + 1).drop_last() =~= schema.columns@.take(k as int));
        assert(schema.columns@.take(k + 1).last() == schema.columns@[k as int]);
        let column = &schema.columns[k];
        if compact_column(schema, column.id.as_str()) && !headline_column(
            schema,
            column.id.as_str(),
        ) {
            if let Some(value) = shown_cell(schema, dataset, column.id.as_str(), row, format) {
                let ghost before = lines@;
                let label = column_label(schema, column);
                lines.push(SummaryLine { label, value });
                assert(line_texts(lines@) =~= line_texts(before).push((label@, value@)));
            }
        }
        k = k + 1;
    }
    assert(schema.columns@.take(schema.columns@.len() as int) =~= schema.columns@);
    (headline, lines)
}

/// The row that a card is about.
pub open spec fn card_row(
    schema: TableSchema,
    dataset: TableDatasetV1,
    dataset_id: Seq<char>,
    generation: u64,
    selected: Option<&StableRowKey>,
) -> Option<int> {
    match selected {
        Some(key) => first_row_with_key(
            dataset_id,
            generation,
            schema,
            dataset,
            key.pair(),
            dataset.rows as nat,
        ),
        None => None,
    }
}

/// The summary of a table: how many rows it has, and the cells of the row that
/// is selected.
pub fn summary_card(
    schema: &TableSchema,
    dataset: Option<&TableDatasetV1>,
    options: SummaryCardOptions<'_>,
) -> (out: SummaryCard)
    ensures
        out.total_rows == (match dataset {
            Some(table) => table.rows,
            None => 0,
        }),
        out.export_offered == (options.allow_export && out.total_rows > 0),
        out.body is Empty <==> out.total_rows == 0,
        dataset matches Some(table) ==> table.rows > 0 ==> match card_row(
            *schema,
            *table,
            options.dataset_id@,
            options.generation,
            options.selected_row,
        ) {
            None => out.body is NothingSelected,
            Some(row) => out.body matches SummaryBody::Detail { headline, lines } && {
                &&& match headline {
                    Some(text) => headline_of(
                        *schema,
                        schema.columns@,
                        *table,
                        row,
                        options.format.replay_origin_us,
                    ) == Some(text@),
                    None => headline_of(
                        *schema,
                        schema.columns@,
                        *table,
                        row,
                        options.format.replay_origin_us,
                    ) is None,
                }
                &&& line_texts(lines@) == lines_of(
                    *schema,
                    schema.columns@,
                    *table,
                    row,
                    options.format.replay_origin_us,
                )
            },
        },
{
    let total_rows: usize = match dataset {
        Some(table) => table.row_count(),
        None => 0,
    };
    let export_offered = options.allow_export && total_rows > 0;
    if total_rows == 0 {
        return SummaryCard { total_rows, export_offered, body: SummaryBody::Empty };
    }
    let body = match dataset {
        Some(table) => {
            let row = match options.selected_row {
                Some(key) => row_index_for_key(
                    options.dataset_id,
                    table,
                    schema,
                    options.generation,
                    key,
                ),
                None => None,
            };
            match row {
                Some(r) => {
                    let (headline, lines) = summary_detail(schema, table, r, options.format);
                    SummaryBody::Detail { headline, lines }
                },
                None => SummaryBody::NothingSelected,
            }
        },
        None => SummaryBody::Empty,
    };
    SummaryCard { total_rows, export_offered, body }
}

/// The buttons of a summary card: only what is offered is asked for.
pub fn press_card(card: &SummaryCard, open_full_table: bool, export_csv: bool) -> (out:
    SummaryCardOutput)
    ensures
        out.open_full_table == open_full_table,
        out.actions == (HostViewUiActions {
            export_csv: export_csv && card.export_offered,
            ..no_actions()
        }),
{
    SummaryCardOutput {
        actions: HostViewUiActions {
            export_csv: export_csv && card.export_offered,
            export_image: None,
            clear_requested: false,
        },
        open_full_table,
    }
}

// ---------------------------------------------------------------------------
// The linked table
// ---------------------------------------------------------------------------
/// Which rows a table shows, which of them stand out, and what it offers.
#[derive(Debug, Clone, Copy)]
pub struct LinkedTableViewOptions<'a> {
    pub dataset_id: &'a str,
    pub generation: u64,
    pub rows: &'a Vec<usize>,
    pub selected_row: Option<&'a StableRowKey>,
    pub hovered_row: Option<&'a StableRowKey>,
    pub allow_export: bool,
    pub allow_clear: bool,
    pub format: TableCellFormatOptions,
}

/// What was asked for on a table.
#[derive(Debug)]
pub struct LinkedTableViewOutput {
    pub actions: HostViewUiActions,
    pub selected_row: Option<StableRowKey>,
    pub sort_column: Option<String>,
    pub page_size: Option<TablePageSize>,
    pub page_index: Option<usize>,
}

impl Default for LinkedTableViewOutput {
    fn default() -> (out: Self)
        ensures
            out == nothing_asked(),
    {
        LinkedTableViewOutput {
            actions: HostViewUiActions::default(),
            selected_row: None,
            sort_column: None,
            page_size: None,
            page_index: None,
        }
    }
}

pub open spec fn nothing_asked() -> LinkedTableViewOutput {
    LinkedTableViewOutput {
        actions: no_actions(),
        selected_row: None,
        sort_column: None,
        page_size: None,
        page_index: None,
    }
}

/// The head of a column: the arrow tells how the table is sorted.
#[derive(Debug)]
pub struct TableHeader {
    pub column_id: String,
    pub text: String,
    pub width: u16,
}

/// A cell: its text, and the plain value where the text differs from it.
#[derive(Debug)]
pub struct TableCellView {
    pub text: String,
    pub hover: Option<String>,
}

#[derive(Debug)]
pub struct TableRowView {
    pub row: usize,
    pub key: StableRowKey,
    pub selected: bool,
    pub hovered: bool,
    pub cells: Vec<TableCellView>,
}

/// What stands below the controls of a table.
#[derive(Debug)]
pub enum TableBody {
    /// There is no table.
    NoData,
    /// No row matches the filter.
    NoRows,
    Rows { headers: Vec<TableHeader>, rows: Vec<TableRowView> },
}

#[derive(Debug)]
pub struct TablePage {
    pub filtered_total: usize,
    pub total_rows: usize,
    pub page_size: TablePageSize,
    pub page_index: usize,
    pub page_count: usize,
    pub body: TableBody,
}

/// The page that is shown: the one that was asked for, or the last one.
pub open spec fn shown_page(state: InvestigationTableViewState, total: int) -> int {
    if state.page_index < pages(state.page_size, total) {
        state.page_index as int
    } else {
        pages(state.page_size, total) - 1
    }
}

/// The arrow behind the name of a column that the table is sorted by.
pub open spec fn sort_arrow(state: InvestigationTableViewState, column_id: Seq<char>) -> Seq<char> {
    if state.sorted_by(column_id) {
        match state.sort_direction {
            InvestigationSortDirection::Ascending => " \u{2191}"@,
            InvestigationSortDirection::Descending => " \u{2193}"@,
        }
    } else {
        ""@
    }
}

/// The first width of a column.
pub open spec fn first_width(schema: TableSchema, column_id: Seq<char>) -> u16 {
    match display_of(schema.column_display@, column_id) {
        Some(meta) => match meta.width_priority {
            Some(TableColumnWidthPriority::High) => 160,
            Some(TableColumnWidthPriority::Medium) => 100,
            Some(TableColumnWidthPriority::Low) => 60,
            None => 100,
        },
        None => 100,
    }
}

/// Whether `header` is the head of a column.
pub open spec fn heads(
    header: TableHeader,
    schema: TableSchema,
    state: InvestigationTableViewState,
    column: TableColumn,
) -> bool {
    &&& header.column_id@ == column.id@
    &&& header.text@ == column_name(schema, column) + sort_arrow(state, column.id@)
    &&& header.width == first_width(schema, column.id@)
}

/// The text of a cell of the table, and the plain value to show beside it.
pub open spec fn cell_of(
    schema: TableSchema,
    dataset: TableDatasetV1,
    column_id: Seq<char>,
    row: int,
    origin_us: Option<u64>,
) -> (Seq<char>, Option<Seq<char>>) {
    match dataset.named(column_id) {
        None => ("-"@, None),
        Some(column) => {
            let text = formatted(
                column,
                row,
                display_of(schema.column_display@, column_id),
                origin_us,
            );
            let raw = column.shown_at(row);
            (
                text,
                if raw == text {
                    None
                } else {
                    Some(raw)
                },
            )
        },
    }
}

/// Whether `cell` shows a column of a row.
pub open spec fn shows_cell(
    cell: TableCellView,
    schema: TableSchema,
    dataset: TableDatasetV1,
    column: TableColumn,
    row: int,
    origin_us: Option<u64>,
) -> bool {
    let wanted = cell_of(schema, dataset, column.id@, row, origin_us);
    &&& cell.text@ == wanted.0
    &&& match cell.hover {
        Some(text) => wanted.1 == Some(text@),
        None => wanted.1 is None,
    }
}

pub open spec fn is_key(key: Option<&StableRowKey>, pair: (Seq<char>, Seq<char>)) -> bool {
    key matches Some(k) && k.pair() == pair
}

/// Whether `view` shows a row of the table.
pub open spec fn shows_row(
    view: TableRowView,
    schema: TableSchema,
    dataset: TableDatasetV1,
    options: LinkedTableViewOptions<'_>,
    row: int,
) -> bool {
    let pair = row_key(options.dataset_id@, options.generation, schema, dataset, row);
    &&& view.row == row
    &&& view.key.pair() == pair
    &&& view.selected == is_key(options.selected_row, pair)
    &&& view.hovered == is_key(options.hovered_row, pair)
    &&& view.cells@.len() == schema.columns@.len()
    &&& forall|i: int|
        0 <= i < schema.columns@.len() ==> shows_cell(
            #[trigger] view.cells@[i],
            schema,
            dataset,
            schema.columns@[i],
            row,
            options.format.replay_origin_us,
        )
}

fn table_header(schema: &TableSchema, state: &InvestigationTableViewState, column: &TableColumn) -> (
    out: TableHeader)
    ensures
        heads(out, *schema, *state, *column),
{
    let mut text = column_label(schema, column);
    let sorted = match &state.sort_column {
        Some(id) => *id == column.id,
        None => false,
    };
    let ghost name = text@;
    if sorted {
        match state.sort_direction {
            InvestigationSortDirection::Ascending => text.append(" \u{2191}"),
            InvestigationSortDirection::Descending => text.append(" \u{2193}"),
        }
    }
    proof {
        reveal_strlit("");
        assert(name + ""@ =~= name);
    }
    let width: u16 = match schema.display(column.id.as_str()) {
        Some(meta) => match meta.width_priority {
            Some(TableColumnWidthPriority::High) => 160,
            Some(TableColumnWidthPriority::Medium) => 100,
            Some(TableColumnWidthPriority::Low) => 60,
            None => 100,
        },
        None => 100,
    };
    TableHeader { column_id: column.id.clone(), text, width }
}

fn table_cell(
    schema: &TableSchema,
    dataset: &TableDatasetV1,
    column: &TableColumn,
    row: usize,
    format: TableCellFormatOptions,
) -> (out: TableCellView)
    ensures
        shows_cell(out, *schema, *dataset, *column, row as int, format.replay_origin_us),
{
    match dataset.column(column.id.as_str()) {
        None => TableCellView { text: "-".to_owned(), hover: None },
        Some(data) => {
            let display = schema.display(column.id.as_str());
            assert(given_display(display) == display_of(schema.column_display@, column.id@));
            let text = format_cell_value(data, row, display, format);
            let raw = data.display_value(row);
            let hover = if raw == text {
                None
            } else {
                Some(raw)
            };
            TableCellView { text, hover }
        },
    }
}

fn same_key_as(key: Option<&StableRowKey>, own: &StableRowKey) -> (out: bool)
    ensures
        out == is_key(key, own.pair()),
{
    match key {
        Some(k) => k.same_key(own),
        None => false,
    }
}

fn table_row(
    schema: &TableSchema,
    dataset: &TableDatasetV1,
    options: LinkedTableViewOptions<'_>,
    row: usize,
) -> (out: TableRowView)
    ensures
        shows_row(out, *schema, *dataset, options, row as int),
{
    let key = row_key_for_row(options.dataset_id, options.generation, schema, dataset, row);
    let mut cells: Vec<TableCellView> = Vec::new();
    let mut i: usize = 0;
    while i < schema.columns.len()
        invariant
            i <= schema.columns@.len(),
            cells@.len() == i,
            forall|k: int|
                0 <= k < i ==> shows_cell(
                    #[trigger] cells@[k],
                    *schema,
                    *dataset,
                    schema.columns@[k],
                    row as int,
                    options.format.replay_origin_us,
                ),
        decreases schema.columns@.len() - i,
    {
        cells.push(table_cell(schema, dataset, &schema.columns[i], row, options.format));
        i = i + 1;
    }
    TableRowView {
        row,
        selected: same_key_as(options.selected_row, &key),
        hovered: same_key_as(options.hovered_row, &key),
        key,
        cells,
    }
}

/// What the body of a page shows.
pub open spec fn shows_page(
    page: TablePage,
    schema: TableSchema,
    dataset: Option<TableDatasetV1>,
    state: InvestigationTableViewState,
    options: LinkedTableViewOptions<'_>,
) -> bool {
    let total = options.rows@.len() as int;
    let (start, end) = page_rows(page.page_size, page.page_index as int, total);
    match dataset {
        None => page.body is NoData,
        Some(table) => if total == 0 {
            page.body is NoRows
        } else {
            page.body matches TableBody::Rows { headers, rows } && {
                &&& headers@.len() == schema.columns@.len()
                &&& forall|i: int|
                    0 <= i < headers@.len() ==> heads(
                        #[trigger] headers@[i],
                        schema,
                        state,
                        schema.columns@[i],
                    )
                &&& 0 <= start <= end <= total
                &&& rows@.len() == end - start
                &&& forall|i: int|
                    0 <= i < rows@.len() ==> shows_row(
                        #[trigger] rows@[i],
                        schema,
                        table,
                        options,
                        options.rows@[start + i] as int,
                    )
            }
        },
    }
}

proof fn page_fits(page_size: TablePageSize, page: int, total: int)
    requires
        0 <= page < pages(page_size, total),
        0 <= total,
    ensures
        0 <= page * page_size.per_page(total),
        total > 0 ==> page * page_size.per_page(total) < total,
        (page + 1) * page_size.per_page(total) < total + page_size.per_page(total) + 1,
{
    let per_page = page_size.per_page(total);
    if total > 0 {
        let n = pages(page_size, total);
        assert(n == (total + per_page - 1) / per_page);
        vstd::arithmetic::div_mod::lemma_fundamental_div_mod(total + per_page - 1, per_page);
        assert(page * per_page < total) by (nonlinear_arith)
            requires
                page <= n - 1,
                per_page * n <= total + per_page - 1,
                per_page > 0,
        ;
        assert((page + 1) * per_page == page * per_page + per_page) by (nonlinear_arith);
    } else {
        assert(page == 0);
    }
    assert(0 <= page * per_page) by (nonlinear_arith)
        requires
            page >= 0,
            per_page > 0,
    ;
}

/// The page of a table that is to be shown.
pub fn linked_table_page(
    schema: &TableSchema,
    dataset: Option<&TableDatasetV1>,
    table_state: &InvestigationTableViewState,
    options: LinkedTableViewOptions<'_>,
) -> (out: TablePage)
    requires
        2 * options.rows@.len() + 501 <= usize::MAX,
    ensures
        out.filtered_total == options.rows@.len(),
        out.total_rows == (match dataset {
            Some(table) => table.rows,
            None => 0,
        }),
        out.page_size == table_state.page_size,
        out.page_index == shown_page(*table_state, options.rows@.len() as int),
        out.page_count == pages(table_state.page_size, options.rows@.len() as int),
        shows_page(
            out,
            *schema,
            match dataset {
                Some(table) => Some(*table),
                None => None,
            },
            *table_state,
            options,
        ),
{
    let total: usize = options.rows.len();
    let total_rows: usize = match dataset {
        Some(table) => table.row_count(),
        None => 0,
    };
    let mut state = table_state.copied();
    state.clamp_page(total);
    let page_count: usize = state.page_count(total);
    proof {
        page_fits(state.page_size, state.page_index as int, total as int);
    }
    let (start, end) = state.visible_slice(total);
    let body = match dataset {
        None => TableBody::NoData,
        Some(table) => {
            if total == 0 {
                TableBody::NoRows
            } else {
                let mut headers: Vec<TableHeader> = Vec::new();
                let mut c: usize = 0;
                while c < schema.columns.len()
                    invariant
                        c <= schema.columns@.len(),
                        headers@.len() == c,
                        forall|k: int|
                            0 <= k < c ==> heads(
                                #[trigger] headers@[k],
                                *schema,
                                *table_state,
                                schema.columns@[k],
                            ),
                    decreases schema.columns@.len() - c,
                {
                    headers.push(table_header(schema, table_state, &schema.columns[c]));
                    c = c + 1;
                }
                let mut rows: Vec<TableRowView> = Vec::new();
                let mut i: usize = start;
                while i < end
                    invariant
                        start <= i <= end <= options.rows@.len(),
                        rows@.len() == i - start,
                        forall|k: int|
                            0 <= k < rows@.len() ==> shows_row(
                                #[trigger] rows@[k],
                                *schema,
                                *table,
                                options,
                                options.rows@[start + k] as int,
                            ),
                    decreases end - i,
                {
                    rows.push(table_row(schema, table, options, options.rows[i]));
                    i = i + 1;
                }
                TableBody::Rows { headers, rows }
            }
        },
    };
    TablePage {
        filtered_total: total,
        total_rows,
        page_size: state.page_size,
        page_index: state.page_index,
        page_count,
        body,
    }
}

/// A control of a table that was pressed.
#[derive(Debug, Clone, Copy, PartialEq, Eq, Structural)]
pub enum TablePress {
    ExportCsv,
    Clear,
    PageSize(TablePageSize),
    PreviousPage,
    NextPage,
    Header(usize),
    Row(usize),
}

/// Whether `after` is what is asked for once a control was pressed.
pub open spec fn asks_after(
    page: TablePage,
    press: TablePress,
    offers: (bool, bool),
    before: LinkedTableViewOutput,
    after: LinkedTableViewOutput,
) -> bool {
    match press {
        TablePress::ExportCsv => after == (LinkedTableViewOutput {
            actions: HostViewUiActions {
                export_csv: before.actions.export_csv || offers.0,
                ..before.actions
            },
            ..before
        }),
        TablePress::Clear => after == (LinkedTableViewOutput {
            actions: HostViewUiActions {
                clear_requested: before.actions.clear_requested || offers.1,
                ..before.actions
            },
            ..before
        }),
        TablePress::PageSize(size) => after == (if size == page.page_size {
            before
        } else {
            LinkedTableViewOutput { page_size: Some(size), page_index: Some(0), ..before }
        }),
        TablePress::PreviousPage => after == (if page.page_index == 0 {
            before
        } else {
            LinkedTableViewOutput { page_index: Some((page.page_index - 1) as usize), ..before }
        }),
        TablePress::NextPage => after == (if page.page_index + 1 >= page.page_count {
            before
        } else {
            LinkedTableViewOutput { page_index: Some((page.page_index + 1) as usize), ..before }
        }),
        TablePress::Header(i) => match page.body {
            TableBody::Rows { headers, .. } => if i < headers@.len() {
                after == (LinkedTableViewOutput {
                    sort_column: Some(headers@[i as int].column_id),
                    ..before
                })
            } else {
                after == before
            },
            _ => after == before,
        },
        TablePress::Row(i) => match page.body {
            TableBody::Rows { rows, .. } => if i < rows@.len() {
                after == (LinkedTableViewOutput {
                    selected_row: Some(rows@[i as int].key),
                    ..before
                })
            } else {
                after == before
            },
            _ => after == before,
        },
    }
}

/// Takes in a control that was pressed: only what the page offers is asked
/// for.
pub fn press_table(
    page: &TablePage,
    press: TablePress,
    allow_export: bool,
    allow_clear: bool,
    output: &mut LinkedTableViewOutput,
)
    ensures
        asks_after(*page, press, (allow_export, allow_clear), *old(output), *final(output)),
{
    match press {
        TablePress::ExportCsv => {
            output.actions.export_csv = output.actions.export_csv || allow_export;
        },
        TablePress::Clear => {
            output.actions.clear_requested = output.actions.clear_requested || allow_clear;
        },
        TablePress::PageSize(size) => {
            if size != page.page_size {
                output.page_size = Some(size);
                output.page_index = Some(0);
            }
        },
        TablePress::PreviousPage => {
            if page.page_index > 0 {
                output.page_index = Some(page.page_index - 1);
            }
        },
        TablePress::NextPage => {
            if page.page_index < page.page_count && page.page_index + 1 < page.page_count {
                output.page_index = Some(page.page_index + 1);
            }
        },
        TablePress::Header(i) => {
            if let TableBody::Rows { headers, .. } = &page.body {
                if i < headers.len() {
                    output.sort_column = Some(headers[i].column_id.clone());
                }
            }
        },
        TablePress::Row(i) => {
            if let TableBody::Rows { rows, .. } = &page.body {
                if i < rows.len() {
                    output.selected_row = Some(rows[i].key.copied());
                }
            }
        },
    }
}

/// The line that counts the rows of a table.
pub fn rows_text(page: &TablePage) -> (out: String)
    ensures
        out@ == "Rows: "@ + decimal(page.filtered_total as nat) + " / "@ + decimal(
            page.total_rows as nat,
        ),
{
    let mut out = "Rows: ".to_owned();
    push_decimal(&mut out, page.filtered_total as u64);
    out.append(" / ");
    push_decimal(&mut out, page.total_rows as u64);
    out
}

/// The line that counts the pages of a table.
pub fn pages_text(page: &TablePage) -> (out: String)
    requires
        page.page_index < page.page_count,
    ensures
        out@ == "Page "@ + decimal((page.page_index + 1) as nat) + "/"@ + decimal(
            page.page_count as nat,
        ),
{
    let mut out = "Page ".to_owned();
    push_decimal(&mut out, (page.page_index + 1) as u64);
    out.append("/");
    push_decimal(&mut out, page.page_count as u64);
    out
}

// ---------------------------------------------------------------------------
// What a table asks for
// ---------------------------------------------------------------------------
/// The paging of a table that was never paged.
pub open spec fn first_paging() -> InvestigationTableViewState {
    InvestigationTableViewState {
        sort_column: None,
        sort_direction: InvestigationSortDirection::Ascending,
        page_size: TablePageSize::Rows100,
        page_index: 0,
    }
}

/// The paging of a dataset's table.
pub open spec fn paging_of(state: InvestigationState, dataset_id: Seq<char>) ->
    InvestigationTableViewState {
    match state.table_views.at(dataset_id) {
        Some(paging) => paging,
        None => first_paging(),
    }
}

/// Whether `after` is the paging of a table once what it asked for was done:
/// sorting, then the size of its pages, then the page.
pub open spec fn paged_as_asked(
    before: InvestigationTableViewState,
    sort_column: Option<String>,
    page_size: Option<TablePageSize>,
    page_index: Option<usize>,
    after: InvestigationTableViewState,
) -> bool {
    let size = match page_size {
        Some(s) => s,
        None => before.page_size,
    };
    let restarted = sort_column is Some || page_size is Some;
    &&& after.page_size == size
    &&& after.page_index == (match page_index {
        Some(i) => i,
        None => if restarted {
            0
        } else {
            before.page_index
        },
    })
    &&& match sort_column {
        Some(column) => {
            &&& after.sorted_by(column@)
            &&& after.sort_direction == if before.sorted_by(column@) {
                before.sort_direction.flipped()
            } else {
                InvestigationSortDirection::Ascending
            }
        },
        None => after.sort_column == before.sort_column && after.sort_direction
            == before.sort_direction,
    }
}

/// Does what a table asked for: selects a row, sorts the table, changes its
/// page size, turns its page.
pub fn apply_table_output(
    state: &mut InvestigationState,
    dataset_id: &str,
    selected_row: Option<StableRowKey>,
    sort_column: Option<String>,
    page_size: Option<TablePageSize>,
    page_index: Option<usize>,
)
    requires
        old(state).wf(),
    ensures
        final(state).wf(),
        match selected_row {
            Some(key) => final(state).selected_rows.keys() == seq![key.pair()],
            None => final(state).selected_rows == old(state).selected_rows,
        },
        paged_as_asked(
            paging_of(*old(state), dataset_id@),
            sort_column,
            page_size,
            page_index,
            paging_of(*final(state), dataset_id@),
        ),
        forall|id: Seq<char>|
            id != dataset_id@ ==> #[trigger] final(state).table_views.at(id) == old(
                state,
            ).table_views.at(id),
        final(state).layout == old(state).layout,
        final(state).split_ratio == old(state).split_ratio,
        final(state).camera_focus_target == old(state).camera_focus_target,
        final(state).active_analysis_roi == old(state).active_analysis_roi,
        final(state).hovered_row == old(state).hovered_row,
        final(state).focused_layers == old(state).focused_layers,
        final(state).link_roi_between_2d_and_3d == old(state).link_roi_between_2d_and_3d,
        final(state).layer_visibility == old(state).layer_visibility,
        final(state).layer_styles == old(state).layer_styles,
{
    if let Some(key) = selected_row {
        state.set_single_selection(key);
    }
    if let Some(column) = &sort_column {
        let view = state.table_view_state_mut(dataset_id);
        view.toggle_sort(column.as_str());
    }
    if let Some(size) = page_size {
        let view = state.table_view_state_mut(dataset_id);
        view.page_size = size;
        view.page_index = 0;
    }
    if let Some(index) = page_index {
        let view = state.table_view_state_mut(dataset_id);
        view.page_index = index;
    }
}

// ---------------------------------------------------------------------------
// Laws
// ---------------------------------------------------------------------------
/// A time behind the origin is written in minutes, seconds and milliseconds
/// that add up to it; a time before it is the origin; without an origin it is
/// written in microseconds.
pub proof fn times_are_written_from_the_origin(
    origin: u64,
    minutes: nat,
    seconds: nat,
    millis: nat,
    rest: nat,
    value: u64,
)
    requires
        seconds < 60,
        millis < 1_000,
        rest < 1_000,
        value == origin + ((minutes * 60 + seconds) * 1_000 + millis) * 1_000 + rest,
    ensures
        timestamp_text(Some(value), Some(origin)) == Some(
            zero_padded(decimal(minutes), 2) + ":"@ + zero_padded(decimal(seconds), 2) + "."@
                + zero_padded(decimal(millis), 3),
        ),
        timestamp_text(Some(value), None) == Some(decimal(value as nat) + " \u{00B5}s"@),
        timestamp_text(None, Some(origin)) is None,
        value > origin ==> timestamp_text(Some(origin), Some(value)) == timestamp_text(
            Some(origin),
            Some(origin),
        ),
{
    let relative = value - origin;
    assert(relative / 1_000 == (minutes * 60 + seconds) * 1_000 + millis);
    assert((relative / 1_000) / 1_000 == minutes * 60 + seconds);
}

/// Cells are formatted as their column asks: times as times, reals with the
/// asked decimals; all others, and columns that ask for nothing, are shown as
/// they are.
pub proof fn cells_are_formatted_as_asked(
    column: TableColumnData,
    index: int,
    meta: TableColumnDisplayMetadata,
    digits: u8,
    origin: Option<u64>,
)
    requires
        0 <= index < column.display@.len(),
    ensures
        formatted(column, index, None, origin) == column.display@[index]@,
        meta.format is None ==> formatted(column, index, Some(meta), origin)
            == column.display@[index]@,
        meta.format == Some(TableColumnDisplayFormat::TimestampMicros) ==> (
        column.values matches TableColumnValues::U64(v) ==> (index < v@.len() ==> formatted(
            column,
            index,
            Some(meta),
            origin,
        ) == timestamp_text(Some(v@[index]), origin)->0)),
        meta.format == Some(TableColumnDisplayFormat::FixedPrecision { digits }) ==> (
        column.values matches TableColumnValues::F64(v) ==> (index < v@.len() ==> formatted(
            column,
            index,
            Some(meta),
            origin,
        ) == fixed_text(v@[index].value, digits as nat))),
        meta.format == Some(TableColumnDisplayFormat::FixedPrecision { digits }) && !(column.values
            is F64) ==> formatted(column, index, Some(meta), origin) == column.display@[index]@,
        meta.format == Some(TableColumnDisplayFormat::TimestampMicros) && (column.values is F64
            || column.values is String || column.values is Bool) ==> formatted(
            column,
            index,
            Some(meta),
            origin,
        ) == column.display@[index]@,
{
}

/// The headline of a row is the cell of the first headline column.
pub proof fn headlines_are_those_of_the_first_column(
    schema: TableSchema,
    columns: Seq<TableColumn>,
    dataset: TableDatasetV1,
    row: int,
    origin: Option<u64>,
    c: int,
)
    requires
        0 <= c < columns.len(),
        display_of(schema.column_display@, columns[c].id@) matches Some(meta) && meta.headline,
        forall|k: int|
            0 <= k < c ==> !(display_of(
                schema.column_display@,
                (#[trigger] columns[k]).id@,
            ) matches Some(meta) && meta.headline),
    ensures
        headline_of(schema, columns, dataset, row, origin) == cell_shown(
            schema,
            dataset,
            columns[c].id@,
            row,
            origin,
        ),
    decreases c,
{
    if c > 0 {
        assert(!is_headline(schema, columns[0].id@));
        let rest = columns.drop_first();
        assert forall|k: int| 0 <= k < c - 1 implies !(display_of(
            schema.column_display@,
            (#[trigger] rest[k]).id@,
        ) matches Some(meta) && meta.headline) by {
            assert(rest[k] == columns[k + 1]);
        }
        headlines_are_those_of_the_first_column(schema, rest, dataset, row, origin, c - 1);
    }
}

/// Whether a column has a line of its own in a compact view.
pub open spec fn has_line(schema: TableSchema, dataset: TableDatasetV1, column: TableColumn) -> bool {
    &&& !(display_of(schema.column_display@, column.id@) matches Some(meta) && (
    meta.hide_in_compact || meta.headline))
    &&& dataset.named(column.id@) is Some
}

/// A compact view has a line for each column that is neither hidden nor the
/// headline and that the table has: its name, and its cell in the row.
pub proof fn compact_views_list_the_columns(
    schema: TableSchema,
    columns: Seq<TableColumn>,
    dataset: TableDatasetV1,
    row: int,
    origin: Option<u64>,
    line: (Seq<char>, Seq<char>),
)
    ensures
        lines_of(schema, columns, dataset, row, origin).contains(line) <==> exists|c: int|
            0 <= c < columns.len() && has_line(schema, dataset, #[trigger] columns[c]) && line == (
                column_name(schema, columns[c]),
                formatted(
                    dataset.named(columns[c].id@)->0,
                    row,
                    display_of(schema.column_display@, columns[c].id@),
                    origin,
                ),
            ),
    decreases columns.len(),
{
    if columns.len() > 0 {
        let rest = columns.drop_last();
        compact_views_list_the_columns(schema, rest, dataset, row, origin, line);
        let before = lines_of(schema, rest, dataset, row, origin);
        let lines = lines_of(schema, columns, dataset, row, origin);
        let last = columns[columns.len() - 1];
        let own = (
            column_name(schema, last),
            formatted(
                dataset.named(last.id@)->0,
                row,
                display_of(schema.column_display@, last.id@),
                origin,
            ),
        );
        assert(forall|c: int| 0 <= c < rest.len() ==> #[trigger] rest[c] == columns[c]);
        if has_line(schema, dataset, last) {
            assert(lines == before.push(own));
            assert(lines[before.len() as int] == own);
        } else {
            assert(lines == before);
        }
        if before.contains(line) {
            let k = choose|k: int| 0 <= k < before.len() && before[k] == line;
            assert(lines[k] == line);
            let c = choose|c: int|
                0 <= c < rest.len() && has_line(schema, dataset, #[trigger] rest[c]) && line == (
                    column_name(schema, rest[c]),
                    formatted(
                        dataset.named(rest[c].id@)->0,
                        row,
                        display_of(schema.column_display@, rest[c].id@),
                        origin,
                    ),
                );
            assert(columns[c] == rest[c]);
        }
        if lines.contains(line) && !before.contains(line) {
            let k = choose|k: int| 0 <= k < lines.len() && lines[k] == line;
            if k < before.len() {
                assert(before[k] == line);
            }
            assert(line == own && has_line(schema, dataset, last));
        }
        if exists|c: int|
            0 <= c < columns.len() && has_line(schema, dataset, #[trigger] columns[c]) && line == (
                column_name(schema, columns[c]),
                formatted(
                    dataset.named(columns[c].id@)->0,
                    row,
                    display_of(schema.column_display@, columns[c].id@),
                    origin,
                ),
            ) {
            let c = choose|c: int|
                0 <= c < columns.len() && has_line(schema, dataset, #[trigger] columns[c]) && line
                    == (
                    column_name(schema, columns[c]),
                    formatted(
                        dataset.named(columns[c].id@)->0,
                        row,
                        display_of(schema.column_display@, columns[c].id@),
                        origin,
                    ),
                );
            if c < rest.len() {
                assert(rest[c] == columns[c]);
            }
        }
    }
}

/// What the head of a column says: its label, or its title where it has none,
/// with an arrow up where the table is sorted by it in ascending order, and an
/// arrow down in descending order. Its width goes by its priority.
pub proof fn heads_name_and_sort_the_column(
    schema: TableSchema,
    state: InvestigationTableViewState,
    column: TableColumn,
    header: TableHeader,
)
    requires
        heads(header, schema, state, column),
    ensures
        ({
            let meta = display_of(schema.column_display@, column.id@);
            let name = if meta is Some && meta->0.label is Some {
                meta->0.label->0@
            } else {
                column.title@
            };
            let sorted = state.sort_column is Some && state.sort_column->0@ == column.id@;
            &&& sorted && state.sort_direction is Ascending ==> header.text@ == name
                + " \u{2191}"@
            &&& sorted && state.sort_direction is Descending ==> header.text@ == name
                + " \u{2193}"@
            &&& !sorted ==> header.text@ == name
            &&& meta is Some && meta->0.width_priority == Some(TableColumnWidthPriority::High)
                ==> header.width == 160
            &&& meta is Some && meta->0.width_priority == Some(TableColumnWidthPriority::Low)
                ==> header.width == 60
            &&& meta is None || meta->0.width_priority is None || meta->0.width_priority == Some(
                TableColumnWidthPriority::Medium,
            ) ==> header.width == 100
        }),
{
    reveal_strlit("");
    assert(column_name(schema, column) + ""@ =~= column_name(schema, column));
}

/// The page that is shown exists, and is the one that was asked for where there
/// is such a page.
pub proof fn pages_that_are_shown_exist(state: InvestigationTableViewState, total: int)
    requires
        pages(state.page_size, total) >= 1,
    ensures
        0 <= shown_page(state, total) < pages(state.page_size, total),
        state.page_index < pages(state.page_size, total) ==> shown_page(state, total)
            == state.page_index,
        state.page_index >= pages(state.page_size, total) ==> shown_page(state, total) == pages(
            state.page_size,
            total,
        ) - 1,
{
}

/// Pages are turned one at a time, forth and back, within their number; a press
/// on a row selects it, and one on a head sorts by its column.
pub proof fn presses_do_what_they_say(
    page: TablePage,
    offers: (bool, bool),
    before: LinkedTableViewOutput,
    after: LinkedTableViewOutput,
    i: usize,
)
    ensures
        asks_after(page, TablePress::NextPage, offers, before, after) && page.page_index + 1
            < page.page_count ==> after.page_index == Some((page.page_index + 1) as usize),
        asks_after(page, TablePress::NextPage, offers, before, after) && page.page_index + 1
            >= page.page_count ==> after == before,
        asks_after(page, TablePress::PreviousPage, offers, before, after) && page.page_index > 0
            ==> after.page_index == Some((page.page_index - 1) as usize),
        asks_after(page, TablePress::PreviousPage, offers, before, after) && page.page_index == 0
            ==> after == before,
        asks_after(page, TablePress::ExportCsv, offers, before, after) ==> after.actions.export_csv
            == (before.actions.export_csv || offers.0) && after.actions.clear_requested
            == before.actions.clear_requested,
        asks_after(page, TablePress::Clear, offers, before, after)
            ==> after.actions.clear_requested == (before.actions.clear_requested || offers.1)
            && after.actions.export_csv == before.actions.export_csv,
        asks_after(page, TablePress::Row(i), offers, before, after) ==> (
        page.body matches TableBody::Rows { rows, .. } ==> (i < rows@.len() ==> after.selected_row
            == Some(rows@[i as int].key) && after.sort_column == before.sort_column)),
        asks_after(page, TablePress::Header(i), offers, before, after) ==> (
        page.body matches TableBody::Rows { headers, .. } ==> (i < headers@.len()
            ==> after.sort_column == Some(headers@[i as int].column_id) && after.selected_row
            == before.selected_row)),
{
}

/// A table that is sorted by a column once more is sorted the other way round;
/// by another column, in ascending order. Sorting and another page size go back
/// to the first page.
pub proof fn sorting_again_turns_the_order(
    before: InvestigationTableViewState,
    column: String,
    after: InvestigationTableViewState,
)
    requires
        paged_as_asked(before, Some(column), None, None, after),
    ensures
        after.page_index == 0,
        after.page_size == before.page_size,
        after.sort_column matches Some(name) && name@ == column@,
        (before.sort_column matches Some(name) && name@ == column@) ==> (after.sort_direction
            is Ascending <==> before.sort_direction is Descending),
        !(before.sort_column matches Some(name) && name@ == column@) ==> after.sort_direction
            is Ascending,
{
}

/// A page shows its own part of the rows, in their order: the first page
/// begins with the first row, and each page goes on where the one before it
/// ended.
pub proof fn pages_show_their_part_of_the_rows(
    page: TablePage,
    schema: TableSchema,
    table: TableDatasetV1,
    state: InvestigationTableViewState,
    options: LinkedTableViewOptions<'_>,
    i: int,
)
    requires
        shows_page(page, schema, Some(table), state, options),
        options.rows@.len() > 0,
    ensures
        page.body matches TableBody::Rows { headers, rows } && headers@.len()
            == schema.columns@.len() && {
            let first = match page.page_size {
                TablePageSize::Rows25 => 25 * page.page_index,
                TablePageSize::Rows100 => 100 * page.page_index,
                TablePageSize::Rows500 => 500 * page.page_index,
                TablePageSize::All => options.rows@.len() * page.page_index,
            };
            &&& rows@.len() <= options.rows@.len()
            &&& 0 <= i < rows@.len() ==> first + i < options.rows@.len() && shows_row(
                rows@[i],
                schema,
                table,
                options,
                options.rows@[first + i] as int,
            )
        },
{
    let total = options.rows@.len() as int;
    let index = page.page_index as int;
    assert(total * index == index * total) by (nonlinear_arith);
    assert(page.body is Rows);
}

/// A table that was never paged shows a hundred rows a page, from the first
/// one on and unsorted; another one is paged as it was.
pub proof fn tables_are_paged_as_they_were(state: InvestigationState, dataset_id: Seq<char>)
    ensures
        state.table_views.at(dataset_id) matches Some(paging) ==> paging_of(state, dataset_id)
            == paging,
        state.table_views.at(dataset_id) is None ==> paging_of(state, dataset_id).page_size
            is Rows100 && paging_of(state, dataset_id).page_index == 0 && paging_of(
            state,
            dataset_id,
        ).sort_column is None && paging_of(state, dataset_id).sort_direction is Ascending,
{
}

/// The head of a column names the column that it sorts by, and a cell that is
/// shown has the text and the hint that its column asks for.
pub proof fn cells_and_heads_are_those_of_the_column(
    header: TableHeader,
    cell: TableCellView,
    schema: TableSchema,
    dataset: TableDatasetV1,
    state: InvestigationTableViewState,
    column: TableColumn,
    row: int,
    origin_us: Option<u64>,
)
    ensures
        heads(header, schema, state, column) ==> header.column_id@ == column.id@,
        shows_cell(cell, schema, dataset, column, row, origin_us) ==> cell.text@ == cell_of(
            schema,
            dataset,
            column.id@,
            row,
            origin_us,
        ).0 && (cell.hover is Some <==> cell_of(schema, dataset, column.id@, row, origin_us).1
            is Some) && (cell.hover matches Some(hint) ==> cell_of(
            schema,
            dataset,
            column.id@,
            row,
            origin_us,
        ).1 == Some(hint@)),
{
}

} // verus!
