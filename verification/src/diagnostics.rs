//! What the program leaves behind when it stops: the session log and the
//! breadcrumb that tells a later start how the session before it ended.
use crate::naming::{extension_of, file_extension, join_path, path_below};
use crate::ordered_set::{Ordered, OrderedSet};
use crate::text::{chars_of, decimal, decimal_round_trip, push_decimal, same_text, text_of};
use crate::timestamps::{civil_date, day_number, days_follow_one_another, is_date, padded};
use vstd::prelude::*;

verus! {

pub const APP_DIR: &'static str = "augur";

pub const LOG_FILE: &'static str = "sessions.log";

// ---------------------------------------------------------------------------
// Moments
// ---------------------------------------------------------------------------
/// `s` without the zeros at its end.
pub open spec fn without_last_zeros(s: Seq<char>) -> Seq<char>
    decreases s.len(),
{
    if s.len() > 0 && s.last() == '0' {
        without_last_zeros(s.drop_last())
    } else {
        s
    }
}

/// The fraction of a second, as far as it is not zero.
pub open spec fn fraction_text(nanos: int) -> Seq<char> {
    if nanos == 0 {
        seq![]
    } else {
        "."@ + without_last_zeros(padded(nanos, 9))
    }
}

/// Whether a moment lies in the years 0 to 9999. Moments are counted in
/// nanoseconds from the start of 1970.
pub open spec fn has_instant_text(unix_nanos: int) -> bool {
    -62_167_219_200 <= unix_nanos / 1_000_000_000 <= 253_402_300_799
}

/// A moment in the format of RFC 3339, in UTC.
pub open spec fn instant_text(unix_nanos: int) -> Seq<char> {
    let secs = unix_nanos / 1_000_000_000;
    let date = civil_date(secs / 86400);
    let time = secs % 86400;
    padded(date.0, 4) + "-"@ + padded(date.1, 2) + "-"@ + padded(date.2, 2) + "T"@ + padded(
        time / 3600,
        2,
    ) + ":"@ + padded((time % 3600) / 60, 2) + ":"@ + padded(time % 60, 2) + fraction_text(
        unix_nanos % 1_000_000_000,
    ) + "Z"@
}

/// `time::OffsetDateTime::format` with the description `Rfc3339`, for the
/// moment that `from_unix_timestamp_nanos` gives: a text for each moment of the
/// years 0 to 9999, with the date, the time and, where it is not zero, the
/// fraction of the second without zeros at its end; no text for others.
#[verifier::external_body]
fn rfc3339(unix_nanos: i128) -> (out: Option<String>)
    ensures
        match out {
            Some(text) => has_instant_text(unix_nanos as int) && text@ == instant_text(
                unix_nanos as int,
            ),
            None => !has_instant_text(unix_nanos as int),
        },
{
    time::OffsetDateTime::from_unix_timestamp_nanos(unix_nanos)
        .ok()?
        .format(&time::format_description::well_known::Rfc3339)
        .ok()
}

/// The text of a moment, or a word for a moment that has none.
pub open spec fn now_text(unix_nanos: int) -> Seq<char> {
    if has_instant_text(unix_nanos) {
        instant_text(unix_nanos)
    } else {
        "unknown-time"@
    }
}

/// The text of a moment that is given in nanoseconds from the start of 1970.
pub fn now(unix_nanos: i128) -> (out: String)
    ensures
        out@ == now_text(unix_nanos as int),
{
    match rfc3339(unix_nanos) {
        Some(text) => text,
        None => "unknown-time".to_owned(),
    }
}

// ---------------------------------------------------------------------------
// Breadcrumbs
// ---------------------------------------------------------------------------
/// The contents of a breadcrumb.
pub open spec fn breadcrumb_text(
    pid: nat,
    started_at: Seq<char>,
    version: Seq<char>,
    activity: Seq<char>,
) -> Seq<char> {
    "pid = "@ + decimal(pid) + "\n"@ + "started_at = "@ + started_at + "\n"@ + "version = "@ + version
        + "\n"@ + "activity = "@ + activity + "\n"@
}

/// Where the line that begins at `from` ends.
pub open spec fn line_end(s: Seq<char>, from: int) -> int
    decreases s.len() - from,
{
    if from >= s.len() {
        s.len() as int
    } else if s[from] == '\n' {
        from
    } else {
        line_end(s, from + 1)
    }
}

proof fn line_end_bounds(s: Seq<char>, from: int)
    requires
        0 <= from <= s.len(),
    ensures
        from <= line_end(s, from) <= s.len(),
        line_end(s, from) < s.len() ==> s[line_end(s, from)] == '\n',
        forall|k: int| from <= k < line_end(s, from) ==> s[k] != '\n',
    decreases s.len() - from,
{
    if from < s.len() && s[from] != '\n' {
        line_end_bounds(s, from + 1);
    }
}

/// A line without the carriage return of a `\r\n` at its end.
pub open spec fn line_text(s: Seq<char>, from: int, end: int) -> Seq<char> {
    let line = s.subrange(from, end);
    if end < s.len() && line.len() > 0 && line.last() == '\r' {
        line.drop_last()
    } else {
        line
    }
}

pub open spec fn begins_with(s: Seq<char>, prefix: Seq<char>) -> bool {
    prefix.len() <= s.len() && s.take(prefix.len() as int) == prefix
}

/// What follows `prefix` on the first line from `from` on that begins with it.
pub open spec fn field_from(s: Seq<char>, from: int, prefix: Seq<char>) -> Option<Seq<char>>
    decreases s.len() + 1 - from,
{
    if from < 0 || from >= s.len() {
        None
    } else {
        let end = line_end(s, from);
        let line = line_text(s, from, end);
        if begins_with(line, prefix) {
            Some(line.skip(prefix.len() as int))
        } else if end < from || end >= s.len() {
            None
        } else {
            field_from(s, end + 1, prefix)
        }
    }
}

/// The value of a breadcrumb's field, or a word for its absence.
pub open spec fn field_text(body: Seq<char>, key: Seq<char>) -> Seq<char> {
    match field_from(body, 0, key + " = "@) {
        Some(value) => value,
        None => "unknown"@,
    }
}

/// The value of a field of a breadcrumb.
pub fn field(body: &str, key: &str) -> (out: String)
    ensures
        out@ == field_text(body@, key@),
{
    let mut wanted = String::new();
    wanted.append(key);
    wanted.append(" = ");
    assert(wanted@ =~= key@ + " = "@);
    let prefix = chars_of(wanted.as_str());
    let chars = chars_of(body);
    let n: usize = chars.len();
    let mut from: usize = 0;
    while from < n
        invariant
            n == chars@.len(),
            chars@ == body@,
            prefix@ == key@ + " = "@,
            wanted@ == prefix@,
            from <= n,
            field_from(body@, from as int, prefix@) == field_from(body@, 0, prefix@),
        decreases n - from,
    {
        proof {
            line_end_bounds(body@, from as int);
        }
        let mut end: usize = from;
        while end < n && chars[end] != '\n'
            invariant
                n == chars@.len(),
                chars@ == body@,
                from <= end <= n,
                line_end(body@, end as int) == line_end(body@, from as int),
            decreases n - end,
        {
            end = end + 1;
        }
        let mut stop: usize = end;
        if end < n && end > from {
            if chars[end - 1] == '\r' {
                stop = end - 1;
            }
        }
        let line = text_of(&chars, from, stop);
        assert(line@ =~= line_text(body@, from as int, end as int));
        if stop - from >= prefix.len() {
            let head = text_of(&chars, from, from + prefix.len());
            assert(head@ =~= line@.take(prefix@.len() as int));
            if same_text(head.as_str(), wanted.as_str()) {
                let value = text_of(&chars, from + prefix.len(), stop);
                assert(value@ =~= line@.skip(prefix@.len() as int));
                return value;
            }
        }
        if end == n {
            from = n;
        } else {
            from = end + 1;
        }
    }
    "unknown".to_owned()
}

/// Whether a text stands on one line.
pub open spec fn is_one_line(s: Seq<char>) -> bool {
    !s.contains('\n') && !(s.len() > 0 && s.last() == '\r')
}

proof fn line_end_after(a: Seq<char>, b: Seq<char>, k: int)
    requires
        0 <= k <= a.len(),
        forall|i: int| k <= i < a.len() ==> a[i] != '\n',
    ensures
        line_end(a + "\n"@ + b, k) == a.len(),
    decreases a.len() - k,
{
    reveal_strlit("\n");
    if k < a.len() {
        line_end_after(a, b, k + 1);
    }
}

proof fn line_end_shift(a: Seq<char>, b: Seq<char>, k: int)
    requires
        0 <= k <= b.len(),
    ensures
        line_end(a + b, a.len() + k) == a.len() + line_end(b, k),
    decreases b.len() - k,
{
    if k < b.len() {
        line_end_shift(a, b, k + 1);
    }
}

proof fn field_shift(a: Seq<char>, b: Seq<char>, k: int, prefix: Seq<char>)
    requires
        0 <= k,
    ensures
        field_from(a + b, a.len() + k, prefix) == field_from(b, k, prefix),
    decreases b.len() + 1 - k,
{
    if k < b.len() {
        line_end_shift(a, b, k);
        line_end_bounds(b, k);
        let end = line_end(b, k);
        assert((a + b).subrange(a.len() + k, a.len() + end) =~= b.subrange(k, end));
        assert(line_text(a + b, a.len() + k, a.len() + end) == line_text(b, k, end));
        field_shift(a, b, end + 1, prefix);
    }
}

/// The field of a text that begins with a line: it is on this line, or in the
/// rest.
proof fn field_of_first_line(line: Seq<char>, rest: Seq<char>, prefix: Seq<char>)
    requires
        is_one_line(line),
    ensures
        field_from(line + "\n"@ + rest, 0, prefix) == (if begins_with(line, prefix) {
            Some(line.skip(prefix.len() as int))
        } else {
            field_from(rest, 0, prefix)
        }),
{
    reveal_strlit("\n");
    let s = line + "\n"@ + rest;
    assert forall|i: int| 0 <= i < line.len() implies line[i] != '\n' by {
        if line[i] == '\n' {
            assert(line.contains('\n'));
        }
    }
    line_end_after(line, rest, 0);
    assert(s.subrange(0, line.len() as int) =~= line);
    field_shift(line + "\n"@, rest, 0, prefix);
    assert((line + "\n"@).len() == line.len() + 1);
}

/// A breadcrumb gives back what was written into it, as long as each value
/// stands on one line.
pub proof fn breadcrumb_round_trip(
    pid: nat,
    started_at: Seq<char>,
    version: Seq<char>,
    activity: Seq<char>,
)
    requires
        is_one_line(started_at),
        is_one_line(version),
        is_one_line(activity),
    ensures
        ({
            let body = breadcrumb_text(pid, started_at, version, activity);
            &&& field_text(body, "pid"@) == decimal(pid)
            &&& field_text(body, "started_at"@) == started_at
            &&& field_text(body, "version"@) == version
            &&& field_text(body, "activity"@) == activity
        }),
{
    reveal_strlit("\n");
    reveal_strlit(" = ");
    reveal_strlit("pid");
    reveal_strlit("started_at");
    reveal_strlit("version");
    reveal_strlit("activity");
    reveal_strlit("pid = ");
    reveal_strlit("started_at = ");
    reveal_strlit("version = ");
    reveal_strlit("activity = ");
    decimal_round_trip(pid);
    let l1 = "pid = "@ + decimal(pid);
    let l2 = "started_at = "@ + started_at;
    let l3 = "version = "@ + version;
    let l4 = "activity = "@ + activity;
    let body = breadcrumb_text(pid, started_at, version, activity);
    let r4 = Seq::<char>::empty();
    let r3 = l4 + "\n"@ + r4;
    let r2 = l3 + "\n"@ + r3;
    let r1 = l2 + "\n"@ + r2;
    assert(body =~= l1 + "\n"@ + r1);
    one_line_field("pid = "@, decimal(pid));
    one_line_field("started_at = "@, started_at);
    one_line_field("version = "@, version);
    one_line_field("activity = "@, activity);
    assert("pid"@ + " = "@ =~= "pid = "@);
    assert("started_at"@ + " = "@ =~= "started_at = "@);
    assert("version"@ + " = "@ =~= "version = "@);
    assert("activity"@ + " = "@ =~= "activity = "@);
    let p1 = "pid = "@;
    let p2 = "started_at = "@;
    let p3 = "version = "@;
    let p4 = "activity = "@;
    other_field(l1, p2);
    other_field(l1, p3);
    other_field(l1, p4);
    other_field(l2, p3);
    other_field(l2, p4);
    other_field(l3, p4);
    field_of_first_line(l1, r1, p1);
    field_of_first_line(l1, r1, p2);
    field_of_first_line(l1, r1, p3);
    field_of_first_line(l1, r1, p4);
    field_of_first_line(l2, r2, p2);
    field_of_first_line(l2, r2, p3);
    field_of_first_line(l2, r2, p4);
    field_of_first_line(l3, r3, p3);
    field_of_first_line(l3, r3, p4);
    field_of_first_line(l4, r4, p4);
}

proof fn one_line_field(prefix: Seq<char>, value: Seq<char>)
    requires
        is_one_line(value) || (forall|i: int| 0 <= i < value.len() ==> '0' <= #[trigger] value[i]
            <= '9'),
        is_one_line(prefix),
    ensures
        is_one_line(prefix + value),
        begins_with(prefix + value, prefix),
        (prefix + value).skip(prefix.len() as int) == value,
{
    let line = prefix + value;
    if line.contains('\n') {
        let i = choose|i: int| 0 <= i < line.len() && line[i] == '\n';
        if i < prefix.len() {
            assert(prefix[i] == '\n');
        } else {
            assert(value[i - prefix.len()] == '\n');
        }
    }
    if value.len() > 0 {
        assert(line.last() == value.last());
    } else if prefix.len() > 0 {
        assert(line.last() == prefix.last());
    }
    assert(line.take(prefix.len() as int) =~= prefix);
    assert(line.skip(prefix.len() as int) =~= value);
}

proof fn other_field(line: Seq<char>, prefix: Seq<char>)
    requires
        line.len() > 0,
        prefix.len() > 0,
        line[0] != prefix[0],
    ensures
        !begins_with(line, prefix),
{
    if begins_with(line, prefix) {
        assert(line.take(prefix.len() as int)[0] == prefix[0]);
    }
}

/// The running session.
#[derive(Debug)]
pub struct Session {
    pub pid: u32,
    pub breadcrumb: String,
    pub started_at: String,
    pub version: String,
    pub activity: String,
}

impl Session {
    /// What stands in the file that `breadcrumb` names.
    pub open spec fn text(self) -> Seq<char> {
        breadcrumb_text(self.pid as nat, self.started_at@, self.version@, self.activity@)
    }

    /// The contents of the session's breadcrumb, to be written through to its
    /// file.
    pub fn body(&self) -> (out: String)
        ensures
            out@ == self.text(),
    {
        let mut out = "pid = ".to_owned();
        push_decimal(&mut out, self.pid as u64);
        out.append("\n");
        out.append("started_at = ");
        out.append(self.started_at.as_str());
        out.append("\n");
        out.append("version = ");
        out.append(self.version.as_str());
        out.append("\n");
        out.append("activity = ");
        out.append(self.activity.as_str());
        out.append("\n");
        out
    }
}

// ---------------------------------------------------------------------------
// Log entries
// ---------------------------------------------------------------------------
/// The entry for a session that did not exit cleanly, from its breadcrumb.
pub open spec fn crash_text(body: Seq<char>) -> Seq<char> {
    "CRASH  the previous session did not exit cleanly \u{2014} no panic was recorded, so it ended without unwinding (access violation, abort, stack overflow, out of memory, kill or power loss)\n       pid "@
        + field_text(body, "pid"@) + " \u{00B7} started "@ + field_text(body, "started_at"@)
        + " \u{00B7} augur "@ + field_text(body, "version"@) + "\n       while: "@ + field_text(
        body,
        "activity"@,
    )
}

pub fn crash_entry(body: &str) -> (out: String)
    ensures
        out@ == crash_text(body@),
{
    let pid = field(body, "pid");
    let started_at = field(body, "started_at");
    let version = field(body, "version");
    let activity = field(body, "activity");
    let mut out =
        "CRASH  the previous session did not exit cleanly \u{2014} no panic was recorded, so it ended without unwinding (access violation, abort, stack overflow, out of memory, kill or power loss)\n       pid ".to_owned();
    out.append(pid.as_str());
    out.append(" \u{00B7} started ");
    out.append(started_at.as_str());
    out.append(" \u{00B7} augur ");
    out.append(version.as_str());
    out.append("\n       while: ");
    out.append(activity.as_str());
    out
}

/// A session that dies without a word is reported by what it was doing last.
pub proof fn crash_names_the_activity(session: Session)
    requires
        is_one_line(session.started_at@),
        is_one_line(session.version@),
        is_one_line(session.activity@),
    ensures
        crash_text(session.text()) == crash_lead() + decimal(session.pid as nat)
            + " \u{00B7} started "@ + session.started_at@ + " \u{00B7} augur "@ + session.version@
            + "\n       while: "@ + session.activity@,
{
    breadcrumb_round_trip(
        session.pid as nat,
        session.started_at@,
        session.version@,
        session.activity@,
    );
}

/// What a crash entry begins with.
pub open spec fn crash_lead() -> Seq<char> {
    "CRASH  the previous session did not exit cleanly \u{2014} no panic was recorded, so it ended without unwinding (access violation, abort, stack overflow, out of memory, kill or power loss)\n       pid "@
}

/// The entry for a panic.
pub fn panic_entry(
    payload: Option<&str>,
    location: Option<&str>,
    activity: Option<&str>,
    backtrace: &str,
) -> (out: String)
    ensures
        out@ == "PANIC  "@ + given_or(payload, "panic with a non-string payload"@)
            + "\n       at "@ + given_or(location, "unknown location"@) + "\n       while: "@
            + given_or(activity, "unknown"@) + "\n"@ + backtrace@,
{
    let mut out = "PANIC  ".to_owned();
    match payload {
        Some(text) => out.append(text),
        None => out.append("panic with a non-string payload"),
    }
    out.append("\n       at ");
    match location {
        Some(text) => out.append(text),
        None => out.append("unknown location"),
    }
    out.append("\n       while: ");
    match activity {
        Some(text) => out.append(text),
        None => out.append("unknown"),
    }
    out.append("\n");
    out.append(backtrace);
    out
}

/// A text, or another one in its absence.
pub open spec fn given_or(text: Option<&str>, absent: Seq<char>) -> Seq<char> {
    match text {
        Some(given) => given@,
        None => absent,
    }
}

/// The place of a panic in the source.
pub fn location_text(file: &str, line: u32, column: u32) -> (out: String)
    ensures
        out@ == file@ + ":"@ + decimal(line as nat) + ":"@ + decimal(column as nat),
{
    let mut out = String::new();
    out.append(file);
    out.append(":");
    push_decimal(&mut out, line as u64);
    out.append(":");
    push_decimal(&mut out, column as u64);
    assert(out@ =~= file@ + ":"@ + decimal(line as nat) + ":"@ + decimal(column as nat));
    out
}

/// An entry as it stands in the log: behind the moment, on a line of its own.
pub fn log_line(moment: &str, entry: &str) -> (out: String)
    ensures
        out@ == moment@ + " "@ + entry@ + "\n"@,
{
    let mut out = String::new();
    out.append(moment);
    out.append(" ");
    out.append(entry);
    out.append("\n");
    assert(out@ =~= moment@ + " "@ + entry@ + "\n"@);
    out
}

// ---------------------------------------------------------------------------
// Sessions that never finished
// ---------------------------------------------------------------------------
/// Whether a file name is that of a breadcrumb.
pub open spec fn is_breadcrumb(name: Seq<char>) -> bool {
    extension_of(name) == Some("open"@) && begins_with(name, "session-"@)
}

pub fn names_breadcrumb(name: &str) -> (out: bool)
    ensures
        out == is_breadcrumb(name@),
{
    let extension = match file_extension(name) {
        Some(text) => same_text(text.as_str(), "open"),
        None => false,
    };
    if !extension {
        return false;
    }
    let chars = chars_of(name);
    let prefix: usize = "session-".unicode_len();
    if chars.len() < prefix {
        return false;
    }
    let head = text_of(&chars, 0, prefix);
    assert(head@ =~= name@.take("session-"@.len() as int));
    same_text(head.as_str(), "session-")
}

/// The breadcrumbs among the names of a folder, in order.
pub fn stale_breadcrumbs(names: &Vec<String>) -> (out: OrderedSet<String>)
    ensures
        out.wf(),
        forall|name: Seq<char>| #[trigger]
            out.holds(name) <==> is_breadcrumb(name) && (exists|i: int|
                0 <= i < names@.len() && (#[trigger] names@[i])@ == name),
{
    let mut out: OrderedSet<String> = OrderedSet::new();
    let mut i: usize = 0;
    assert forall|name: Seq<char>| !(#[trigger] out.holds(name)) by {
        assert(out.items().len() == 0);
    }
    while i < names.len()
        invariant
            i <= names@.len(),
            out.wf(),
            forall|name: Seq<char>| #[trigger]
                out.holds(name) <==> is_breadcrumb(name) && (exists|k: int|
                    0 <= k < i && (#[trigger] names@[k])@ == name),
        decreases names@.len() - i,
    {
        let ghost before = out;
        if names_breadcrumb(names[i].as_str()) {
            let _ = out.insert(names[i].clone());
        }
        assert forall|name: Seq<char>| #[trigger]
            out.holds(name) <==> is_breadcrumb(name) && (exists|k: int|
                0 <= k < i + 1 && (#[trigger] names@[k])@ == name) by {
            assert(before.holds(name) <==> is_breadcrumb(name) && (exists|k: int|
                0 <= k < i && (#[trigger] names@[k])@ == name));
            assert(names@[i as int]@ == names@[i as int].key());
            if exists|k: int| 0 <= k < i + 1 && (#[trigger] names@[k])@ == name {
                let k = choose|k: int| 0 <= k < i + 1 && (#[trigger] names@[k])@ == name;
                if k < i {
                    assert(0 <= k < i && names@[k]@ == name);
                }
            }
        }
        i = i + 1;
    }
    out
}

// ---------------------------------------------------------------------------
// Where the log lives
// ---------------------------------------------------------------------------
#[derive(Debug, Clone, Copy, PartialEq, Eq, Structural)]
pub enum Platform {
    Windows,
    MacOs,
    Other,
}

/// The variables of the environment that decide where the log lives, and the
/// folder for temporary files.
#[derive(Debug)]
pub struct LogPlaces {
    pub log_dir: Option<String>,
    pub local_app_data: Option<String>,
    pub home: Option<String>,
    pub state_home: Option<String>,
    pub temp_dir: String,
}

impl LogPlaces {
    /// The folder of the user's state.
    pub open spec fn base(self, platform: Platform, separator: char) -> Seq<char> {
        match platform {
            Platform::Windows => match self.local_app_data {
                Some(dir) => dir@,
                None => self.temp_dir@,
            },
            Platform::MacOs => match self.home {
                Some(home) => path_below(
                    path_below(home@, "Library"@, separator),
                    "Application Support"@,
                    separator,
                ),
                None => self.temp_dir@,
            },
            Platform::Other => match self.state_home {
                Some(dir) => dir@,
                None => match self.home {
                    Some(home) => path_below(
                        path_below(home@, ".local"@, separator),
                        "state"@,
                        separator,
                    ),
                    None => self.temp_dir@,
                },
            },
        }
    }

    /// The folder of the log: the one that is asked for, or else one below the
    /// user's state.
    pub open spec fn directory(self, platform: Platform, separator: char) -> Seq<char> {
        match self.log_dir {
            Some(dir) => dir@,
            None => path_below(
                path_below(self.base(platform, separator), APP_DIR@, separator),
                "logs"@,
                separator,
            ),
        }
    }

    fn base_dir(&self, platform: Platform, separator: char) -> (out: String)
        ensures
            out@ == self.base(platform, separator),
    {
        match platform {
            Platform::Windows => match &self.local_app_data {
                Some(dir) => dir.clone(),
                None => self.temp_dir.clone(),
            },
            Platform::MacOs => match &self.home {
                Some(home) => {
                    let library = join_path(home.as_str(), "Library", separator);
                    join_path(library.as_str(), "Application Support", separator)
                },
                None => self.temp_dir.clone(),
            },
            Platform::Other => match &self.state_home {
                Some(dir) => dir.clone(),
                None => match &self.home {
                    Some(home) => {
                        let local = join_path(home.as_str(), ".local", separator);
                        join_path(local.as_str(), "state", separator)
                    },
                    None => self.temp_dir.clone(),
                },
            },
        }
    }

    pub fn log_directory(&self, platform: Platform, separator: char) -> (out: String)
        ensures
            out@ == self.directory(platform, separator),
    {
        match &self.log_dir {
            Some(dir) => dir.clone(),
            None => {
                let base = self.base_dir(platform, separator);
                let app = join_path(base.as_str(), APP_DIR, separator);
                join_path(app.as_str(), "logs", separator)
            },
        }
    }
}

/// The diagnostics of this process: where its log is and which session runs.
#[derive(Debug)]
pub struct Diagnostics {
    log: Option<String>,
    session: Option<Session>,
}

/// What a start leaves behind: the log, the breadcrumb and its contents, and
/// the first entry.
#[derive(Debug)]
pub struct StartRecord {
    pub log: String,
    pub breadcrumb: String,
    pub body: String,
    pub entry: String,
}

impl Diagnostics {
    pub closed spec fn log_file(self) -> Option<String> {
        self.log
    }

    pub closed spec fn running(self) -> Option<Session> {
        self.session
    }

    /// Nothing is installed yet.
    pub fn new() -> (out: Self)
        ensures
            out.log_file() is None,
            out.running() is None,
    {
        Diagnostics { log: None, session: None }
    }

    /// Where the session log lives, once a session was started.
    pub fn log_path(&self) -> (out: Option<&String>)
        ensures
            match out {
                Some(path) => self.log_file() == Some(*path),
                None => self.log_file() is None,
            },
    {
        match &self.log {
            Some(path) => Some(path),
            None => None,
        }
    }

    /// Starts the session of this process in the folder of the log.
    pub fn install(
        &mut self,
        dir: &str,
        separator: char,
        pid: u32,
        version: &str,
        os: &str,
        arch: &str,
        started_at: &str,
    ) -> (out: StartRecord)
        ensures
            out.log@ == path_below(dir@, LOG_FILE@, separator),
            out.breadcrumb@ == path_below(
                dir@,
                "session-"@ + decimal(pid as nat) + ".open"@,
                separator,
            ),
            out.body@ == breadcrumb_text(pid as nat, started_at@, version@, "starting up"@),
            out.entry@ == "START  pid "@ + decimal(pid as nat) + " \u{00B7} augur "@ + version@
                + " \u{00B7} "@ + os@ + " "@ + arch@,
            final(self).log_file() matches Some(path) && path@ == out.log@,
            final(self).running() matches Some(session) && session.text() == out.body@
                && session.breadcrumb@ == out.breadcrumb@ && session.pid == pid
                && session.started_at@ == started_at@ && session.version@ == version@
                && session.activity@ == "starting up"@,
    {
        let mut name = "session-".to_owned();
        push_decimal(&mut name, pid as u64);
        name.append(".open");
        let log = join_path(dir, LOG_FILE, separator);
        let breadcrumb = join_path(dir, name.as_str(), separator);
        let session = Session {
            pid,
            breadcrumb: breadcrumb.clone(),
            started_at: started_at.to_owned(),
            version: version.to_owned(),
            activity: "starting up".to_owned(),
        };
        let mut entry = "START  pid ".to_owned();
        push_decimal(&mut entry, pid as u64);
        entry.append(" \u{00B7} augur ");
        entry.append(version);
        entry.append(" \u{00B7} ");
        entry.append(os);
        entry.append(" ");
        entry.append(arch);
        let body = session.body();
        self.log = Some(log.clone());
        self.session = Some(session);
        StartRecord { log, breadcrumb, body, entry }
    }

    /// Records what the program is doing, in one short line. It takes the
    /// place of the line before it. Gives the contents of the breadcrumb,
    /// where a session runs.
    pub fn note(&mut self, activity: String) -> (out: Option<String>)
        ensures
            final(self).log_file() == old(self).log_file(),
            match old(self).running() {
                Some(session) => {
                    &&& final(self).running() == Some(Session { activity, ..session })
                    &&& out matches Some(body) && body@ == breadcrumb_text(
                        session.pid as nat,
                        session.started_at@,
                        session.version@,
                        activity@,
                    )
                },
                None => final(self).running() is None && out is None,
            },
    {
        match self.session.take() {
            Some(session) => {
                let noted = Session { activity, ..session };
                let body = noted.body();
                self.session = Some(noted);
                Some(body)
            },
            None => None,
        }
    }

    /// What the running session is doing.
    pub fn activity(&self) -> (out: Option<&String>)
        ensures
            match out {
                Some(text) => self.running() matches Some(session) && session.activity == *text,
                None => self.running() is None,
            },
    {
        match &self.session {
            Some(session) => Some(&session.activity),
            None => None,
        }
    }

    /// The end of a clean run: the breadcrumb to remove and the last entry.
    pub fn mark_clean_exit(&self) -> (out: Option<(String, String)>)
        ensures
            match out {
                Some((breadcrumb, entry)) => self.running() matches Some(session)
                    && session.breadcrumb == breadcrumb && entry@ == "EXIT   clean"@,
                None => self.running() is None,
            },
    {
        match &self.session {
            Some(session) => Some((session.breadcrumb.clone(), "EXIT   clean".to_owned())),
            None => None,
        }
    }
}

/// The breadcrumb that a session leaves is one that a later start finds.
pub proof fn own_breadcrumb_is_found(pid: nat)
    ensures
        is_breadcrumb("session-"@ + decimal(pid) + ".open"@),
{
    reveal_strlit("session-");
    reveal_strlit(".open");
    reveal_strlit("open");
    reveal_strlit(".");
    decimal_round_trip(pid);
    let stem = "session-"@ + decimal(pid);
    let name = stem + ".open"@;
    assert(name =~= stem + "."@ + "open"@);
    crate::naming::joined_name_splits(stem, "open"@);
    assert(name.take("session-"@.len() as int) =~= "session-"@);
}

/// The text of a moment names its date and its time of day in UTC, from the
/// year down to the second, and the fraction of the second where there is one.
pub proof fn instants_name_their_moment(
    year: int,
    month: int,
    day: int,
    hour: int,
    minute: int,
    second: int,
    nanos: int,
)
    requires
        is_date(year, month, day),
        0 <= hour < 24,
        0 <= minute < 60,
        0 <= second < 60,
        0 <= nanos < 1_000_000_000,
    ensures
        ({
            let text = instant_text(
                (day_number(year, month, day) * 86_400 + hour * 3_600 + minute * 60 + second)
                    * 1_000_000_000 + nanos,
            );
            let start = padded(year, 4) + "-"@ + padded(month, 2) + "-"@ + padded(day, 2) + "T"@
                + padded(hour, 2) + ":"@ + padded(minute, 2) + ":"@ + padded(second, 2);
            &&& nanos == 0 ==> text == start + "Z"@
            &&& nanos > 0 ==> text == start + "."@ + without_last_zeros(padded(nanos, 9)) + "Z"@
        }),
{
    let days = day_number(year, month, day);
    days_follow_one_another(year, month, day);
    moments_are_taken_apart(days, hour * 3_600 + minute * 60 + second, nanos);
    let time = hour * 3_600 + minute * 60 + second;
    assert(time / 3600 == hour && (time % 3600) / 60 == minute && time % 60 == second);
    let start = padded(year, 4) + "-"@ + padded(month, 2) + "-"@ + padded(day, 2) + "T"@ + padded(
        hour,
        2,
    ) + ":"@ + padded(minute, 2) + ":"@ + padded(second, 2);
    if nanos == 0 {
        assert(start + fraction_text(0) =~= start);
    } else {
        let fraction = without_last_zeros(padded(nanos, 9));
        assert(start + ("."@ + fraction) =~= start + "."@ + fraction);
    }
}

proof fn moments_are_taken_apart(days: int, time: int, nanos: int)
    requires
        0 <= time < 86_400,
        0 <= nanos < 1_000_000_000,
    ensures
        ((days * 86_400 + time) * 1_000_000_000 + nanos) / 1_000_000_000 == days * 86_400 + time,
        ((days * 86_400 + time) * 1_000_000_000 + nanos) % 1_000_000_000 == nanos,
        (days * 86_400 + time) / 86_400 == days,
        (days * 86_400 + time) % 86_400 == time,
{
}

/// The zeros at the end of a text are taken away, all of them, and nothing
/// else.
pub proof fn only_last_zeros_are_taken(s: Seq<char>)
    ensures
        without_last_zeros(s).len() <= s.len(),
        without_last_zeros(s) == s.take(without_last_zeros(s).len() as int),
        forall|i: int| without_last_zeros(s).len() <= i < s.len() ==> s[i] == '0',
        without_last_zeros(s).len() > 0 ==> without_last_zeros(s).last() != '0',
    decreases s.len(),
{
    if s.len() > 0 && s.last() == '0' {
        let rest = s.drop_last();
        only_last_zeros_are_taken(rest);
        let left = without_last_zeros(s);
        assert(left =~= s.take(left.len() as int));
        assert forall|i: int| left.len() <= i < s.len() implies s[i] == '0' by {
            if i < rest.len() {
                assert(rest[i] == '0');
            }
        }
    } else {
        assert(s.take(s.len() as int) =~= s);
    }
}

/// The log lies in the folder that is asked for. Else it lies below the
/// folder of the user's state, and below the temporary one where there is none.
pub proof fn logs_lie_where_they_are_asked_for(
    places: LogPlaces,
    platform: Platform,
    separator: char,
)
    ensures
        places.log_dir matches Some(dir) ==> places.directory(platform, separator) == dir@,
        places.log_dir is None ==> places.directory(platform, separator) == path_below(
            path_below(places.base(platform, separator), "augur"@, separator),
            "logs"@,
            separator,
        ),
        platform is Windows ==> (places.local_app_data matches Some(dir) ==> places.base(
            platform,
            separator,
        ) == dir@),
        platform is Other ==> (places.state_home matches Some(dir) ==> places.base(
            platform,
            separator,
        ) == dir@),
        places.local_app_data is None && places.home is None && places.state_home is None
            ==> places.base(platform, separator) == places.temp_dir@,
        platform is MacOs ==> (places.home matches Some(home) ==> places.base(platform, separator)
            == path_below(
            path_below(home@, "Library"@, separator),
            "Application Support"@,
            separator,
        )),
        platform is Other && places.state_home is None ==> (places.home matches Some(home)
            ==> places.base(platform, separator) == path_below(
            path_below(home@, ".local"@, separator),
            "state"@,
            separator,
        )),
{
}

} // verus!
