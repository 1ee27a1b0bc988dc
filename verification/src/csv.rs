//! Tables as CSV, with every field in quotes.
use crate::host_data::{find_column, TableColumn, TableDatasetV1, TableSchema};
use crate::rows::{cell_text, raw_cell_value};
use crate::text::chars_of;
use vstd::prelude::*;

verus! {

/// A character within quotes: a quote is doubled.
pub open spec fn escaped(c: char) -> Seq<char> {
    if c == '"' {
        seq!['"', '"']
    } else {
        seq![c]
    }
}

/// A text within quotes.
pub open spec fn doubled(s: Seq<char>) -> Seq<char>
    decreases s.len(),
{
    if s.len() == 0 {
        s
    } else {
        escaped(s[0]) + doubled(s.drop_first())
    }
}

/// A field: a text in quotes.
pub open spec fn quoted(s: Seq<char>) -> Seq<char> {
    seq!['"'] + doubled(s) + seq!['"']
}

proof fn doubled_push(s: Seq<char>, c: char)
    ensures
        doubled(s.push(c)) == doubled(s) + escaped(c),
    decreases s.len(),
{
    if s.len() == 0 {
        assert(s.push(c).drop_first() =~= Seq::<char>::empty());
        assert(doubled(Seq::<char>::empty()) == Seq::<char>::empty());
        assert(s =~= Seq::<char>::empty());
        assert(doubled(s.push(c)) =~= escaped(c));
        assert(doubled(s) + escaped(c) =~= escaped(c));
    } else {
        assert(s.push(c).drop_first() =~= s.drop_first().push(c));
        doubled_push(s.drop_first(), c);
        assert(doubled(s.push(c)) =~= escaped(s[0]) + doubled(s.drop_first()) + escaped(c));
    }
}

/// Appends a field.
pub fn push_quoted(out: &mut String, text: &str)
    ensures
        final(out)@ == old(out)@ + quoted(text@),
{
    let chars = chars_of(text);
    let ghost start = out@;
    out.push('"');
    let mut i: usize = 0;
    assert(chars@.take(0) =~= Seq::<char>::empty());
    assert(out@ =~= start + (seq!['"'] + doubled(chars@.take(0))));
    while i < chars.len()
        invariant
            i <= chars@.len(),
            out@ == start + (seq!['"'] + doubled(chars@.take(i as int))),
        decreases chars@.len() - i,
    {
        let c = chars[i];
        proof {
            assert(chars@.take(i + 1) =~= chars@.take(i as int).push(c));
            doubled_push(chars@.take(i as int), c);
        }
        if c == '"' {
            out.push('"');
        }
        out.push(c);
        assert(out@ =~= start + (seq!['"'] + doubled(chars@.take(i + 1))));
        i = i + 1;
    }
    out.push('"');
    assert(chars@.take(chars@.len() as int) =~= chars@);
    assert(out@ =~= start + quoted(text@));
}

/// Fields with commas between them.
pub open spec fn fields(cells: Seq<Seq<char>>) -> Seq<char>
    decreases cells.len(),
{
    if cells.len() == 0 {
        seq![]
    } else if cells.len() == 1 {
        quoted(cells[0])
    } else {
        fields(cells.drop_last()) + seq![','] + quoted(cells.last())
    }
}

/// The titles of the columns.
pub open spec fn titles(columns: Seq<TableColumn>) -> Seq<Seq<char>> {
    columns.map_values(|c: TableColumn| c.title@)
}

/// A cell at full precision, empty where the table has none.
pub open spec fn exported_cell(dataset: TableDatasetV1, column: TableColumn, row: int) -> Seq<char> {
    match dataset.named(column.id@) {
        Some(data) => match cell_text(data.values, row) {
            Some(text) => text,
            None => ""@,
        },
        None => ""@,
    }
}

/// The cells of a row, in the order of the columns.
pub open spec fn exported_row(columns: Seq<TableColumn>, dataset: TableDatasetV1, row: int) -> Seq<
    Seq<char>,
> {
    columns.map_values(|c: TableColumn| exported_cell(dataset, c, row))
}

/// The first `n` rows of a table, a line for each.
pub open spec fn row_lines(columns: Seq<TableColumn>, dataset: TableDatasetV1, n: nat) -> Seq<char>
    decreases n,
{
    if n == 0 {
        seq![]
    } else {
        row_lines(columns, dataset, (n - 1) as nat) + fields(
            exported_row(columns, dataset, n - 1),
        ) + seq!['\n']
    }
}

/// A table as CSV: a line of titles, then a line for each row.
pub open spec fn csv_text(columns: Seq<TableColumn>, dataset: TableDatasetV1) -> Seq<char> {
    fields(titles(columns)) + seq!['\n'] + row_lines(columns, dataset, dataset.rows as nat)
}

fn push_header(out: &mut String, columns: &Vec<TableColumn>)
    ensures
        final(out)@ == old(out)@ + fields(titles(columns@)),
{
    let ghost start = out@;
    let ghost all = titles(columns@);
    let mut i: usize = 0;
    assert(all.take(0) =~= Seq::<Seq<char>>::empty());
    assert(out@ =~= start + fields(all.take(0)));
    while i < columns.len()
        invariant
            i <= columns@.len(),
            all == titles(columns@),
            out@ == start + fields(all.take(i as int)),
        decreases columns@.len() - i,
    {
        proof {
            assert(all.take(i + 1).drop_last() =~= all.take(i as int));
            assert(all.take(i + 1).last() == columns@[i as int].title@);
        }
        if i > 0 {
            out.push(',');
        }
        push_quoted(out, columns[i].title.as_str());
        assert(out@ =~= start + fields(all.take(i + 1)));
        i = i + 1;
    }
    assert(all.take(all.len() as int) =~= all);
}

fn push_row(out: &mut String, columns: &Vec<TableColumn>, dataset: &TableDatasetV1, row: usize)
    ensures
        final(out)@ == old(out)@ + fields(exported_row(columns@, *dataset, row as int)),
{
    let ghost start = out@;
    let ghost all = exported_row(columns@, *dataset, row as int);
    let mut i: usize = 0;
    assert(all.take(0) =~= Seq::<Seq<char>>::empty());
    assert(out@ =~= start + fields(all.take(0)));
    while i < columns.len()
        invariant
            i <= columns@.len(),
            all == exported_row(columns@, *dataset, row as int),
            out@ == start + fields(all.take(i as int)),
        decreases columns@.len() - i,
    {
        proof {
            assert(all.take(i + 1).drop_last() =~= all.take(i as int));
            assert(all.take(i + 1).last() == exported_cell(*dataset, columns@[i as int], row as int));
        }
        if i > 0 {
            out.push(',');
        }
        let value = match dataset.column(columns[i].id.as_str()) {
            Some(data) => match raw_cell_value(&data.values, row) {
                Some(text) => text,
                None => "".to_owned(),
            },
            None => "".to_owned(),
        };
        push_quoted(out, value.as_str());
        assert(out@ =~= start + fields(all.take(i + 1)));
        i = i + 1;
    }
    assert(all.take(all.len() as int) =~= all);
}

/// A table as CSV. The cells are those of the data, at full precision; how they
/// are displayed has no part in it.
pub fn table_csv(schema: &TableSchema, dataset: &TableDatasetV1) -> (out: String)
    ensures
        out@ == csv_text(schema.columns@, *dataset),
{
    let mut out = String::new();
    push_header(&mut out, &schema.columns);
    out.push('\n');
    let ghost head = out@;
    assert(head =~= fields(titles(schema.columns@)) + seq!['\n']);
    let mut row: usize = 0;
    assert(out@ =~= head + row_lines(schema.columns@, *dataset, 0));
    while row < dataset.rows
        invariant
            row <= dataset.rows,
            out@ == head + row_lines(schema.columns@, *dataset, row as nat),
        decreases dataset.rows - row,
    {
        push_row(&mut out, &schema.columns, dataset, row);
        out.push('\n');
        row = row + 1;
        assert(out@ =~= head + row_lines(schema.columns@, *dataset, row as nat));
    }
    out
}

// ---------------------------------------------------------------------------
// Reading back
// ---------------------------------------------------------------------------
/// Reads the rest of a field from within its quotes: the text, and where it
/// ends.
pub open spec fn read_quoted(s: Seq<char>, from: int) -> (Seq<char>, int)
    decreases s.len() - from,
{
    if from < 0 || from >= s.len() {
        (seq![], from)
    } else if s[from] != '"' {
        let rest = read_quoted(s, from + 1);
        (seq![s[from]] + rest.0, rest.1)
    } else if from + 1 < s.len() && s[from + 1] == '"' {
        let rest = read_quoted(s, from + 2);
        (seq!['"'] + rest.0, rest.1)
    } else {
        (seq![], from + 1)
    }
}

proof fn read_shift(a: Seq<char>, b: Seq<char>, k: int)
    requires
        0 <= k,
    ensures
        read_quoted(a + b, a.len() + k).0 == read_quoted(b, k).0,
        read_quoted(a + b, a.len() + k).1 == a.len() + read_quoted(b, k).1,
    decreases b.len() - k,
{
    if k < b.len() {
        assert((a + b)[a.len() + k] == b[k]);
        if b[k] != '"' {
            read_shift(a, b, k + 1);
        } else if k + 1 < b.len() {
            assert((a + b)[a.len() + k + 1] == b[k + 1]);
            if b[k + 1] == '"' {
                read_shift(a, b, k + 2);
            }
        }
    }
}

proof fn read_doubled(value: Seq<char>, rest: Seq<char>)
    requires
        rest.len() == 0 || rest[0] != '"',
    ensures
        read_quoted(doubled(value) + (seq!['"'] + rest), 0).0 == value,
        read_quoted(doubled(value) + (seq!['"'] + rest), 0).1 == doubled(value).len() + 1,
    decreases value.len(),
{
    let tail = seq!['"'] + rest;
    if value.len() == 0 {
        assert(doubled(value) + tail =~= tail);
        assert(read_quoted(tail, 0).0 =~= value);
    } else {
        let c = value[0];
        let inner = doubled(value.drop_first()) + tail;
        let s = doubled(value) + tail;
        read_doubled(value.drop_first(), rest);
        assert(s =~= escaped(c) + inner);
        read_shift(escaped(c), inner, 0);
        if c == '"' {
            assert(s[0] == '"' && s[1] == '"');
            assert(read_quoted(s, 0).0 =~= value);
        } else {
            assert(s[0] == c);
            assert(read_quoted(s, 0).0 =~= value);
        }
    }
}

/// A field gives back the text that was written into it, whatever characters
/// the text holds, as long as no quote follows the field.
pub proof fn field_reads_back(value: Seq<char>, rest: Seq<char>)
    requires
        rest.len() == 0 || rest[0] != '"',
    ensures
        read_quoted(quoted(value) + rest, 1) == (value, quoted(value).len() as int),
{
    let inner = doubled(value) + (seq!['"'] + rest);
    read_doubled(value, rest);
    assert(quoted(value) + rest =~= seq!['"'] + inner);
    read_shift(seq!['"'], inner, 0);
}

/// Reads a line from a place on: its fields, and where the next line begins.
pub open spec fn read_line(s: Seq<char>, from: int) -> (Seq<Seq<char>>, int)
    decreases s.len() - from,
{
    if from < 0 || from >= s.len() {
        (seq![], from)
    } else if s[from] != '"' {
        (seq![], from + 1)
    } else {
        let (text, end) = read_quoted(s, from + 1);
        if end <= from || end >= s.len() {
            (seq![text], end)
        } else if s[end] == ',' {
            let rest = read_line(s, end + 1);
            (seq![text] + rest.0, rest.1)
        } else {
            (seq![text], end + 1)
        }
    }
}

/// Reads all lines from a place on.
pub open spec fn read_lines(s: Seq<char>, from: int) -> Seq<Seq<Seq<char>>>
    decreases s.len() - from,
{
    if from < 0 || from >= s.len() {
        seq![]
    } else {
        let (line, next) = read_line(s, from);
        if next <= from || next > s.len() {
            seq![line]
        } else {
            seq![line] + read_lines(s, next)
        }
    }
}

proof fn fields_from_the_first(cells: Seq<Seq<char>>)
    requires
        cells.len() > 1,
    ensures
        fields(cells) == quoted(cells[0]) + (seq![','] + fields(cells.drop_first())),
    decreases cells.len(),
{
    let shorter = cells.drop_last();
    let rest = cells.drop_first();
    if cells.len() == 2 {
        assert(fields(shorter) == quoted(cells[0]));
        assert(fields(rest) == quoted(cells[1]));
        assert(fields(cells) =~= quoted(cells[0]) + (seq![','] + fields(rest)));
    } else {
        fields_from_the_first(shorter);
        assert(shorter.drop_first() =~= rest.drop_last());
        assert(rest.last() == cells.last());
        assert(fields(cells) =~= quoted(cells[0]) + (seq![','] + fields(rest)));
    }
}

proof fn line_reads_back(before: Seq<char>, cells: Seq<Seq<char>>, after: Seq<char>)
    ensures
        read_line(before + (fields(cells) + (seq!['\n'] + after)), before.len() as int) == (
            cells,
            (before.len() + fields(cells).len() + 1) as int,
        ),
    decreases cells.len(),
{
    let s = before + (fields(cells) + (seq!['\n'] + after));
    let from = before.len() as int;
    if cells.len() == 0 {
        assert(s[from] == '\n');
        assert(read_line(s, from).0 =~= cells);
    } else {
        let value = cells[0];
        let tail = if cells.len() == 1 {
            seq!['\n'] + after
        } else {
            seq![','] + (fields(cells.drop_first()) + (seq!['\n'] + after))
        };
        if cells.len() > 1 {
            fields_from_the_first(cells);
        }
        assert(s =~= before + (quoted(value) + tail));
        field_reads_back(value, tail);
        read_shift(before, quoted(value) + tail, 1);
        let end = from + quoted(value).len();
        assert(s[from] == '"');
        assert(read_quoted(s, from + 1).0 == value && read_quoted(s, from + 1).1 == end);
        assert(s[end] == tail[0]);
        if cells.len() == 1 {
            assert(read_line(s, from).0 =~= cells);
        } else {
            let done = before + quoted(value) + seq![','];
            assert(s =~= done + (fields(cells.drop_first()) + (seq!['\n'] + after)));
            line_reads_back(done, cells.drop_first(), after);
            assert(read_line(s, from).0 =~= cells);
        }
    }
}

/// Lines one after the other.
spec fn lines_text(lines: Seq<Seq<Seq<char>>>) -> Seq<char>
    decreases lines.len(),
{
    if lines.len() == 0 {
        seq![]
    } else {
        fields(lines[0]) + (seq!['\n'] + lines_text(lines.drop_first()))
    }
}

proof fn one_line_more(lines: Seq<Seq<Seq<char>>>, line: Seq<Seq<char>>)
    ensures
        lines_text(lines.push(line)) == lines_text(lines) + fields(line) + seq!['\n'],
    decreases lines.len(),
{
    let all = lines.push(line);
    if lines.len() == 0 {
        assert(all.drop_first() =~= lines);
        assert(lines_text(all) =~= lines_text(lines) + fields(line) + seq!['\n']);
    } else {
        assert(all.drop_first() =~= lines.drop_first().push(line));
        one_line_more(lines.drop_first(), line);
        assert(lines_text(all) =~= lines_text(lines) + fields(line) + seq!['\n']);
    }
}

proof fn lines_read_back(before: Seq<char>, lines: Seq<Seq<Seq<char>>>)
    ensures
        read_lines(before + lines_text(lines), before.len() as int) == lines,
    decreases lines.len(),
{
    let s = before + lines_text(lines);
    if lines.len() == 0 {
        assert(read_lines(s, before.len() as int) =~= lines);
    } else {
        let rest = lines.drop_first();
        line_reads_back(before, lines[0], lines_text(rest));
        let done = before + fields(lines[0]) + seq!['\n'];
        assert(s =~= done + lines_text(rest));
        lines_read_back(done, rest);
        assert(read_lines(s, before.len() as int) =~= seq![lines[0]] + rest);
        assert(seq![lines[0]] + rest =~= lines);
    }
}

proof fn rows_are_lines(columns: Seq<TableColumn>, dataset: TableDatasetV1, n: nat)
    ensures
        row_lines(columns, dataset, n) == lines_text(
            Seq::new(n, |r: int| exported_row(columns, dataset, r)),
        ),
    decreases n,
{
    let lines = Seq::new(n, |r: int| exported_row(columns, dataset, r));
    if n > 0 {
        let m = (n - 1) as nat;
        rows_are_lines(columns, dataset, m);
        let shorter = Seq::new(m, |r: int| exported_row(columns, dataset, r));
        one_line_more(shorter, exported_row(columns, dataset, n - 1));
        assert(shorter.push(exported_row(columns, dataset, n - 1)) =~= lines);
    }
}

/// An exported table is read back line by line and field by field: the titles
/// of the columns, and then, for each row, the cell of each column in that row,
/// empty where the table has no such cell.
pub proof fn table_reads_back(columns: Seq<TableColumn>, dataset: TableDatasetV1)
    ensures
        ({
            let lines = read_lines(csv_text(columns, dataset), 0);
            &&& lines.len() == dataset.rows + 1
            &&& forall|r: int| 0 <= r < lines.len() ==> (#[trigger] lines[r]).len() == columns.len()
            &&& forall|c: int| 0 <= c < columns.len() ==> #[trigger] lines[0][c] == columns[c].title@
            &&& forall|r: int, c: int|
                0 <= r < dataset.rows && 0 <= c < columns.len() ==> #[trigger] lines[r + 1][c] == (
                match find_column(dataset.columns@, columns[c].id@) {
                    Some(data) => match cell_text(data.values, r) {
                        Some(text) => text,
                        None => seq![],
                    },
                    None => seq![],
                })
        }),
{
    reveal_strlit("");
    assert(""@ =~= seq![]);
    let n = dataset.rows as nat;
    let rows = Seq::new(n, |r: int| exported_row(columns, dataset, r));
    rows_are_lines(columns, dataset, n);
    let all = seq![titles(columns)] + rows;
    assert(all.drop_first() =~= rows);
    assert(lines_text(all) =~= csv_text(columns, dataset));
    lines_read_back(seq![], all);
    assert(Seq::<char>::empty() + lines_text(all) =~= csv_text(columns, dataset));
    let lines = read_lines(csv_text(columns, dataset), 0);
    assert(lines == all);
    assert forall|r: int, c: int|
        0 <= r < dataset.rows && 0 <= c < columns.len() implies #[trigger] lines[r + 1][c] == (
    match find_column(dataset.columns@, columns[c].id@) {
        Some(data) => match cell_text(data.values, r) {
            Some(text) => text,
            None => seq![],
        },
        None => seq![],
    }) by {
        assert(lines[r + 1] == exported_row(columns, dataset, r));
    }
}

} // verus!
