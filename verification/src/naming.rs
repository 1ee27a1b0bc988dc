//! Names of files and folders: extensions, stems, names that are safe in a
//! file system, and shortened texts.
use crate::text::{
    ascii_alnum, ascii_lower, chars_of, is_ascii_alnum, lower_text, text_of, to_ascii_lower,
    to_lower_text,
};
use vstd::prelude::*;

verus! {

// ---------------------------------------------------------------------------
// Stems and extensions
// ---------------------------------------------------------------------------
/// Whether the last dot of a file name stands at `i`.
pub open spec fn last_dot_at(name: Seq<char>, i: int) -> bool {
    &&& 0 <= i < name.len()
    &&& name[i] == '.'
    &&& forall|k: int| i < k < name.len() ==> name[k] != '.'
}

/// Where the extension of a file name begins: at its last dot, unless that
/// dot begins the name.
pub open spec fn splits_at(name: Seq<char>, i: int) -> bool {
    i > 0 && last_dot_at(name, i)
}

/// The extension of a file name, without its dot.
pub open spec fn extension_of(name: Seq<char>) -> Option<Seq<char>> {
    if exists|i: int| splits_at(name, i) {
        let i = choose|i: int| splits_at(name, i);
        Some(name.subrange(i + 1, name.len() as int))
    } else {
        None
    }
}

/// A file name without its extension.
pub open spec fn stem_of(name: Seq<char>) -> Seq<char> {
    if exists|i: int| splits_at(name, i) {
        let i = choose|i: int| splits_at(name, i);
        name.subrange(0, i)
    } else {
        name
    }
}

proof fn split_is_unique(name: Seq<char>, i: int)
    requires
        splits_at(name, i),
    ensures
        extension_of(name) == Some(name.subrange(i + 1, name.len() as int)),
        stem_of(name) == name.subrange(0, i),
{
    let j = choose|j: int| splits_at(name, j);
    assert(splits_at(name, j));
    assert(i == j) by {
        if i < j {
            assert(name[j] != '.');
        } else if j < i {
            assert(name[i] != '.');
        }
    }
}

/// The stem, the dot and the extension make up the name.
pub proof fn stem_and_extension_make_the_name(name: Seq<char>)
    ensures
        match extension_of(name) {
            Some(extension) => name == stem_of(name) + "."@ + extension && !extension.contains('.')
                && stem_of(name).len() > 0,
            None => name == stem_of(name),
        },
{
    reveal_strlit(".");
    if exists|i: int| splits_at(name, i) {
        let i = choose|i: int| splits_at(name, i);
        split_is_unique(name, i);
        assert(name =~= name.subrange(0, i) + "."@ + name.subrange(i + 1, name.len() as int));
    }
}

/// A stem, a dot and an extension without a dot split again where they were
/// joined.
pub proof fn joined_name_splits(stem: Seq<char>, extension: Seq<char>)
    requires
        stem.len() > 0,
        !extension.contains('.'),
    ensures
        extension_of(stem + "."@ + extension) == Some(extension),
        stem_of(stem + "."@ + extension) == stem,
{
    reveal_strlit(".");
    let name = stem + "."@ + extension;
    let i = stem.len() as int;
    assert forall|k: int| i < k < name.len() implies name[k] != '.' by {
        assert(name[k] == extension[k - i - 1]);
        if name[k] == '.' {
            assert(extension.contains('.'));
        }
    }
    assert(splits_at(name, i));
    split_is_unique(name, i);
    assert(name.subrange(i + 1, name.len() as int) =~= extension);
    assert(name.subrange(0, i) =~= stem);
}

/// Where the last dot of `chars` stands, unless it begins them.
fn split_position(chars: &Vec<char>) -> (out: Option<usize>)
    ensures
        match out {
            Some(i) => splits_at(chars@, i as int),
            None => forall|i: int| !splits_at(chars@, i),
        },
{
    let mut i: usize = chars.len();
    while i > 0
        invariant
            i <= chars@.len(),
            forall|k: int| i <= k < chars@.len() ==> chars@[k] != '.',
        decreases i,
    {
        i = i - 1;
        if chars[i] == '.' {
            if i == 0 {
                assert forall|j: int| !splits_at(chars@, j) by {
                    if splits_at(chars@, j) {
                        assert(chars@[j] == '.');
                    }
                }
                return None;
            }
            return Some(i);
        }
    }
    assert forall|j: int| !splits_at(chars@, j) by {
        if splits_at(chars@, j) {
            assert(chars@[j] == '.');
        }
    }
    None
}

/// The extension of a file name.
pub fn file_extension(name: &str) -> (out: Option<String>)
    ensures
        match out {
            Some(text) => extension_of(name@) == Some(text@),
            None => extension_of(name@) is None,
        },
{
    let chars = chars_of(name);
    match split_position(&chars) {
        Some(i) => {
            proof {
                split_is_unique(name@, i as int);
            }
            let len: usize = chars.len();
            Some(text_of(&chars, i + 1, len))
        },
        None => None,
    }
}

/// A file name without its extension.
pub fn file_stem(name: &str) -> (out: String)
    ensures
        out@ == stem_of(name@),
{
    let chars = chars_of(name);
    match split_position(&chars) {
        Some(i) => {
            proof {
                split_is_unique(name@, i as int);
            }
            text_of(&chars, 0, i)
        },
        None => {
            assert(chars@.subrange(0, chars@.len() as int) =~= name@);
            text_of(&chars, 0, chars.len())
        },
    }
}

/// The extension that tells the format of a replay file, in lower case.
pub fn replay_file_extension(name: &str) -> (out: Option<String>)
    ensures
        match out {
            Some(text) => extension_of(name@) matches Some(e) && text@ == lower_text(e),
            None => extension_of(name@) is None,
        },
{
    match file_extension(name) {
        Some(text) => Some(to_lower_text(text.as_str())),
        None => None,
    }
}

/// The name of the settings file that belongs to a recording.
pub fn replay_config_name(name: &str) -> (out: String)
    ensures
        out@ == stem_of(name@) + ".toml"@,
{
    let mut out = file_stem(name);
    out.append(".toml");
    out
}

/// A file name with an extension: its own, or else the given one, if that is
/// not empty.
pub open spec fn with_extension(name: Seq<char>, extension: Seq<char>) -> Seq<char> {
    if extension_of(name) is None && extension.len() > 0 {
        name + "."@ + extension
    } else {
        name
    }
}

pub fn ensure_extension(name: &str, extension: &str) -> (out: String)
    ensures
        out@ == with_extension(name@, extension@),
{
    let mut out = String::new();
    out.append(name);
    assert(out@ =~= name@);
    if file_extension(name).is_none() && extension.unicode_len() > 0 {
        out.append(".");
        out.append(extension);
    }
    out
}

/// A name that was given an extension has one, unless the extension is empty,
/// and giving it one again changes nothing.
pub proof fn extension_is_given_once(name: Seq<char>, extension: Seq<char>)
    requires
        name.len() > 0,
        !extension.contains('.'),
    ensures
        extension.len() > 0 ==> extension_of(with_extension(name, extension)) is Some,
        with_extension(with_extension(name, extension), extension) == with_extension(
            name,
            extension,
        ),
{
    if extension_of(name) is None && extension.len() > 0 {
        joined_name_splits(name, extension);
    }
}

/// A recording's name with a time stamp between its stem and its extension.
pub open spec fn stamped(name: Option<Seq<char>>, stamp: Seq<char>) -> Seq<char> {
    let stem = match name {
        Some(n) => stem_of(n),
        None => "output"@,
    };
    let extension = match name {
        Some(n) => match extension_of(n) {
            Some(e) => e,
            None => "raw"@,
        },
        None => "raw"@,
    };
    stem + "_"@ + stamp + "."@ + extension
}

/// The text of an optional string.
pub open spec fn optional_text(s: Option<&str>) -> Option<Seq<char>> {
    match s {
        Some(text) => Some(text@),
        None => None,
    }
}

pub fn insert_timestamp_suffix(name: Option<&str>, stamp: &str) -> (out: String)
    ensures
        out@ == stamped(optional_text(name), stamp@),
{
    let mut out = match name {
        Some(n) => file_stem(n),
        None => "output".to_owned(),
    };
    out.append("_");
    out.append(stamp);
    out.append(".");
    match name {
        Some(n) => match file_extension(n) {
            Some(e) => out.append(e.as_str()),
            None => out.append("raw"),
        },
        None => out.append("raw"),
    }
    out
}

/// A time stamp keeps the extension of a name that has one.
pub proof fn stamp_keeps_the_extension(name: Seq<char>, stamp: Seq<char>)
    requires
        extension_of(name) is Some,
    ensures
        extension_of(stamped(Some(name), stamp)) == extension_of(name),
        stem_of(stamped(Some(name), stamp)) == stem_of(name) + "_"@ + stamp,
{
    reveal_strlit("_");
    stem_and_extension_make_the_name(name);
    joined_name_splits(stem_of(name) + "_"@ + stamp, extension_of(name)->0);
}

/// The name that a TIFF stack made of a recording gets.
pub open spec fn stack_name(name: Option<Seq<char>>) -> Seq<char> {
    let stem = match name {
        Some(n) => if stem_of(n).len() == 0 {
            "replay"@
        } else {
            stem_of(n)
        },
        None => "replay"@,
    };
    stem + "_stack.tiff"@
}

pub fn default_export_name(name: Option<&str>) -> (out: String)
    ensures
        out@ == stack_name(optional_text(name)),
{
    let mut out = "replay".to_owned();
    if let Some(n) = name {
        let stem = file_stem(n);
        if stem.as_str().unicode_len() > 0 {
            out = stem;
        }
    }
    out.append("_stack.tiff");
    out
}

/// How a file is called in messages: by its name, or by its path where it
/// has none.
pub fn display_name(name: Option<&str>, path: &str) -> (out: String)
    ensures
        out@ == (match name {
            Some(n) => n@,
            None => path@,
        }),
{
    match name {
        Some(n) => n.to_owned(),
        None => path.to_owned(),
    }
}

// ---------------------------------------------------------------------------
// Paths
// ---------------------------------------------------------------------------
/// A relative name below a folder.
pub open spec fn path_below(parent: Seq<char>, name: Seq<char>, separator: char) -> Seq<char> {
    if parent.len() == 0 {
        name
    } else if parent.last() == separator {
        parent + name
    } else {
        parent.push(separator) + name
    }
}

pub fn join_path(parent: &str, name: &str, separator: char) -> (out: String)
    ensures
        out@ == path_below(parent@, name@, separator),
{
    let mut out = String::new();
    out.append(parent);
    assert(out@ =~= parent@);
    let len: usize = parent.unicode_len();
    if len > 0 {
        if parent.get_char(len - 1) != separator {
            out.push(separator);
        }
    }
    out.append(name);
    assert(out@ =~= path_below(parent@, name@, separator));
    out
}

/// A path, taken apart: what stands before its last name, the name, and the
/// separators behind it. A path such as `/` or `..` ends with no name and is
/// all prefix.
#[derive(Debug)]
pub struct SplitPath {
    pub prefix: String,
    pub file_name: Option<String>,
    pub tail: String,
}

impl SplitPath {
    pub open spec fn name_text(self) -> Option<Seq<char>> {
        match self.file_name {
            Some(name) => Some(name@),
            None => None,
        }
    }

    /// The path as one text.
    pub open spec fn text(self) -> Seq<char> {
        match self.file_name {
            Some(name) => self.prefix@ + name@ + self.tail@,
            None => self.prefix@ + self.tail@,
        }
    }

    pub fn whole_text(&self) -> (out: String)
        ensures
            out@ == self.text(),
    {
        let mut out = self.prefix.clone();
        if let Some(name) = &self.file_name {
            out.append(name.as_str());
        }
        out.append(self.tail.as_str());
        out
    }

    /// The path with an extension: its own, or else the given one.
    pub open spec fn extended(self, extension: Seq<char>) -> Seq<char> {
        match self.file_name {
            Some(name) => if extension_of(name@) is None {
                self.prefix@ + with_extension(name@, extension)
            } else {
                self.text()
            },
            None => self.text(),
        }
    }

    pub fn ensure_extension(&self, extension: &str) -> (out: String)
        ensures
            out@ == self.extended(extension@),
    {
        let mut out = self.prefix.clone();
        match &self.file_name {
            Some(name) => {
                let given = ensure_extension(name.as_str(), extension);
                out.append(given.as_str());
                if file_extension(name.as_str()).is_some() {
                    out.append(self.tail.as_str());
                }
            },
            None => out.append(self.tail.as_str()),
        }
        out
    }

    /// The path with another name in the place of its last one.
    pub open spec fn renamed(self, name: Seq<char>, separator: char) -> Seq<char> {
        if self.file_name is Some {
            self.prefix@ + name
        } else {
            path_below(self.text(), name, separator)
        }
    }

    pub fn with_file_name(&self, name: &str, separator: char) -> (out: String)
        ensures
            out@ == self.renamed(name@, separator),
    {
        let mut out = self.prefix.clone();
        if self.file_name.is_some() {
            out.append(name);
            return out;
        }
        out.append(self.tail.as_str());
        join_path(out.as_str(), name, separator)
    }
}

// ---------------------------------------------------------------------------
// Names made of titles
// ---------------------------------------------------------------------------
/// `s` without the underscores at its start.
pub open spec fn lead_trimmed(s: Seq<char>) -> Seq<char>
    decreases s.len(),
{
    if s.len() > 0 && s[0] == '_' {
        lead_trimmed(s.drop_first())
    } else {
        s
    }
}

/// `s` without the underscores at its end.
pub open spec fn tail_trimmed(s: Seq<char>) -> Seq<char>
    decreases s.len(),
{
    if s.len() > 0 && s.last() == '_' {
        tail_trimmed(s.drop_last())
    } else {
        s
    }
}

/// `s` without the underscores at its two ends, or `fallback` where nothing
/// else is left.
pub open spec fn trimmed_or(s: Seq<char>, fallback: Seq<char>) -> Seq<char> {
    let core = tail_trimmed(lead_trimmed(s));
    if core.len() == 0 {
        fallback
    } else {
        core
    }
}

fn trim_or(chars: &Vec<char>, fallback: &str) -> (out: String)
    ensures
        out@ == trimmed_or(chars@, fallback@),
{
    let mut from: usize = 0;
    assert(chars@.subrange(0, chars@.len() as int) =~= chars@);
    while from < chars.len() && chars[from] == '_'
        invariant
            from <= chars@.len(),
            lead_trimmed(chars@.subrange(from as int, chars@.len() as int)) == lead_trimmed(chars@),
        decreases chars@.len() - from,
    {
        assert(chars@.subrange(from as int, chars@.len() as int).drop_first() =~= chars@.subrange(
            from + 1,
            chars@.len() as int,
        ));
        from = from + 1;
    }
    assert(lead_trimmed(chars@) == chars@.subrange(from as int, chars@.len() as int));
    let mut to: usize = chars.len();
    while to > from && chars[to - 1] == '_'
        invariant
            from <= to <= chars@.len(),
            tail_trimmed(chars@.subrange(from as int, to as int)) == tail_trimmed(
                lead_trimmed(chars@),
            ),
        decreases to,
    {
        assert(chars@.subrange(from as int, to as int).drop_last() =~= chars@.subrange(
            from as int,
            to - 1,
        ));
        to = to - 1;
    }
    if from == to {
        fallback.to_owned()
    } else {
        text_of(chars, from, to)
    }
}

/// The characters that a run's folder name may hold.
pub open spec fn is_slug_char(c: char) -> bool {
    (is_ascii_alnum(c) && !('A' <= c <= 'Z')) || c == '-' || c == '_'
}

/// A character of a run's name, as its folder's name has it.
pub open spec fn slug_char(c: char) -> char {
    if is_ascii_alnum(c) || c == '-' || c == '_' {
        ascii_lower(c)
    } else {
        '_'
    }
}

/// The folder name made of a run's name.
pub open spec fn slug(value: Seq<char>) -> Seq<char> {
    trimmed_or(value.map_values(|c: char| slug_char(c)), "analysis_run"@)
}

pub fn slugify(value: &str) -> (out: String)
    ensures
        out@ == slug(value@),
{
    let chars = chars_of(value);
    let mut mapped: Vec<char> = Vec::new();
    let mut i: usize = 0;
    while i < chars.len()
        invariant
            i <= chars@.len(),
            mapped@ =~= chars@.take(i as int).map_values(|c: char| slug_char(c)),
        decreases chars@.len() - i,
    {
        let c = chars[i];
        if ascii_alnum(c) || c == '-' || c == '_' {
            mapped.push(to_ascii_lower(c));
        } else {
            mapped.push('_');
        }
        i = i + 1;
    }
    assert(chars@.take(chars@.len() as int) =~= chars@);
    trim_or(&mapped, "analysis_run")
}

/// Whether a text may name a file everywhere: it holds small letters, digits,
/// dashes and underscores only, and at least one of them.
pub open spec fn is_safe_name(s: Seq<char>) -> bool {
    s.len() > 0 && forall|i: int| 0 <= i < s.len() ==> is_slug_char(#[trigger] s[i])
}

proof fn lead_trimmed_is_a_suffix(s: Seq<char>)
    ensures
        lead_trimmed(s).len() <= s.len(),
        lead_trimmed(s) == s.subrange(s.len() - lead_trimmed(s).len(), s.len() as int),
        lead_trimmed(s).len() > 0 ==> lead_trimmed(s)[0] != '_',
    decreases s.len(),
{
    if s.len() > 0 && s[0] == '_' {
        lead_trimmed_is_a_suffix(s.drop_first());
        let rest = lead_trimmed(s.drop_first());
        assert(rest =~= s.subrange(s.len() - rest.len(), s.len() as int));
    } else {
        assert(s =~= s.subrange(0, s.len() as int));
    }
}

proof fn tail_trimmed_is_a_prefix(s: Seq<char>)
    ensures
        tail_trimmed(s).len() <= s.len(),
        tail_trimmed(s) == s.take(tail_trimmed(s).len() as int),
        tail_trimmed(s).len() > 0 ==> tail_trimmed(s).last() != '_',
    decreases s.len(),
{
    if s.len() > 0 && s.last() == '_' {
        tail_trimmed_is_a_prefix(s.drop_last());
        let rest = tail_trimmed(s.drop_last());
        assert(rest =~= s.take(rest.len() as int));
    } else {
        assert(s =~= s.take(s.len() as int));
    }
}

proof fn trimmed_or_keeps_safety(s: Seq<char>, fallback: Seq<char>)
    requires
        forall|i: int| 0 <= i < s.len() ==> is_slug_char(#[trigger] s[i]),
        is_safe_name(fallback),
        fallback[0] != '_',
        fallback.last() != '_',
    ensures
        is_safe_name(trimmed_or(s, fallback)),
        trimmed_or(s, fallback)[0] != '_',
        trimmed_or(s, fallback).last() != '_',
{
    let a = lead_trimmed(s);
    let core = tail_trimmed(a);
    lead_trimmed_is_a_suffix(s);
    tail_trimmed_is_a_prefix(a);
    assert forall|i: int| 0 <= i < core.len() implies is_slug_char(#[trigger] core[i]) by {
        assert(core[i] == a[i]);
        assert(a[i] == s[s.len() - a.len() + i]);
    }
    if core.len() > 0 {
        assert(core[0] == a[0]);
    }
}

proof fn slug_char_is_safe(c: char)
    ensures
        is_slug_char(slug_char(c)),
        is_slug_char(c) ==> slug_char(c) == c,
{
    if is_ascii_alnum(c) && 'A' <= c <= 'Z' {
        let l = ascii_lower(c);
        assert('a' <= l <= 'z');
    }
}

/// A run's folder name is safe in a file system: it holds small letters,
/// digits, dashes and underscores only, is never empty, and neither begins nor
/// ends with an underscore.
pub proof fn slug_is_safe(value: Seq<char>)
    ensures
        is_safe_name(slug(value)),
        slug(value)[0] != '_',
        slug(value).last() != '_',
{
    reveal_strlit("analysis_run");
    let mapped = value.map_values(|c: char| slug_char(c));
    assert forall|i: int| 0 <= i < mapped.len() implies is_slug_char(#[trigger] mapped[i]) by {
        slug_char_is_safe(value[i]);
    }
    trimmed_or_keeps_safety(mapped, "analysis_run"@);
}

/// A name that was made safe stays as it is.
pub proof fn slug_is_idempotent(value: Seq<char>)
    ensures
        slug(slug(value)) == slug(value),
{
    slug_is_safe(value);
    let s = slug(value);
    let mapped = s.map_values(|c: char| slug_char(c));
    assert forall|i: int| 0 <= i < s.len() implies mapped[i] == s[i] by {
        slug_char_is_safe(s[i]);
    }
    assert(mapped =~= s);
}

/// The characters of a title in small letters and digits, with one underscore
/// for each run of others.
pub open spec fn collapsed(title: Seq<char>) -> Seq<char>
    decreases title.len(),
{
    if title.len() == 0 {
        title
    } else {
        let before = collapsed(title.drop_last());
        let c = title.last();
        if is_ascii_alnum(c) {
            before.push(ascii_lower(c))
        } else if before.len() > 0 && before.last() == '_' {
            before
        } else {
            before.push('_')
        }
    }
}

/// The file stem made of a view's title.
pub open spec fn title_stem(title: Seq<char>) -> Seq<char> {
    trimmed_or(collapsed(title), "host_view"@)
}

pub fn sanitize_file_stem(title: &str) -> (out: String)
    ensures
        out@ == title_stem(title@),
{
    let chars = chars_of(title);
    let mut stem: Vec<char> = Vec::new();
    let mut i: usize = 0;
    assert(chars@.take(0) =~= Seq::<char>::empty());
    while i < chars.len()
        invariant
            i <= chars@.len(),
            stem@ == collapsed(chars@.take(i as int)),
        decreases chars@.len() - i,
    {
        let c = chars[i];
        assert(chars@.take(i + 1).drop_last() =~= chars@.take(i as int));
        if ascii_alnum(c) {
            stem.push(to_ascii_lower(c));
        } else if stem.len() == 0 || stem[stem.len() - 1] != '_' {
            stem.push('_');
        }
        i = i + 1;
    }
    assert(chars@.take(chars@.len() as int) =~= chars@);
    trim_or(&stem, "host_view")
}

proof fn collapsed_is_safe(title: Seq<char>)
    ensures
        forall|i: int| 0 <= i < collapsed(title).len() ==> is_slug_char(#[trigger] collapsed(
            title,
        )[i]),
    decreases title.len(),
{
    if title.len() > 0 {
        let before = collapsed(title.drop_last());
        collapsed_is_safe(title.drop_last());
        slug_char_is_safe(title.last());
        assert forall|i: int| 0 <= i < collapsed(title).len() implies is_slug_char(
            #[trigger] collapsed(title)[i],
        ) by {
            if i < before.len() {
                assert(is_slug_char(before[i]));
            }
        }
    }
}

/// A file stem made of a title is safe in a file system.
pub proof fn title_stem_is_safe(title: Seq<char>)
    ensures
        is_safe_name(title_stem(title)),
        title_stem(title)[0] != '_',
        title_stem(title).last() != '_',
{
    reveal_strlit("host_view");
    collapsed_is_safe(title);
    trimmed_or_keeps_safety(collapsed(title), "host_view"@);
}

/// A text of at most `max_chars` characters as it is; a longer one cut there,
/// with an ellipsis.
pub open spec fn shortened(text: Seq<char>, max_chars: nat) -> Seq<char> {
    if text.len() <= max_chars {
        text
    } else {
        text.take(max_chars as int) + "\u{2026}"@
    }
}

pub fn truncate(text: &str, max_chars: usize) -> (out: String)
    ensures
        out@ == shortened(text@, max_chars as nat),
{
    let chars = chars_of(text);
    if chars.len() <= max_chars {
        text.to_owned()
    } else {
        let mut out = text_of(&chars, 0, max_chars);
        assert(out@ =~= text@.take(max_chars as int));
        out.append("\u{2026}");
        out
    }
}

// ---------------------------------------------------------------------------
// Laws of paths
// ---------------------------------------------------------------------------
/// A name below a folder is the folder, one separator and the name.
pub proof fn names_stand_below_their_folder(parent: Seq<char>, name: Seq<char>, separator: char)
    ensures
        path_below(seq![], name, separator) == name,
        parent.len() > 0 && parent.last() != separator ==> path_below(parent, name, separator)
            == parent + seq![separator] + name,
        parent.len() > 0 && parent.last() == separator ==> path_below(parent, name, separator)
            == parent + name,
{
    assert(parent.push(separator) + name =~= parent + seq![separator] + name);
}

/// A stamp is put behind the name and in front of the extension, which is
/// `raw` where the name has none. A path without a name is called `output`.
pub proof fn stamps_stand_before_the_extension(name: Seq<char>, stamp: Seq<char>)
    ensures
        extension_of(name) is None ==> stamped(Some(name), stamp) == name + "_"@ + stamp + "."@
            + "raw"@,
        stamped(None, stamp) == "output"@ + "_"@ + stamp + "."@ + "raw"@,
        extension_of(name) is Some ==> stamped(Some(name), stamp) == stem_of(name) + "_"@ + stamp
            + "."@ + extension_of(name)->0,
{
    stem_and_extension_make_the_name(name);
}

/// A stack is named after its recording, without the extension.
pub proof fn stacks_are_named_after_their_recording(stem: Seq<char>, extension: Seq<char>)
    requires
        stem.len() > 0,
        !extension.contains('.'),
    ensures
        stack_name(Some(stem + "."@ + extension)) == stem + "_stack.tiff"@,
        stack_name(None) == "replay"@ + "_stack.tiff"@,
{
    joined_name_splits(stem, extension);
}

/// A name that has no extension gets the given one; another one keeps its own,
/// and so does its folder.
pub proof fn paths_get_their_extension(path: SplitPath, extension: Seq<char>)
    requires
        extension.len() > 0,
    ensures
        path.file_name matches Some(name) ==> (extension_of(name@) is None ==> path.extended(
            extension,
        ) == path.prefix@ + name@ + "."@ + extension),
        path.file_name matches Some(name) ==> (extension_of(name@) is Some ==> path.extended(
            extension,
        ) == path.prefix@ + name@ + path.tail@),
        path.file_name is None ==> path.extended(extension) == path.prefix@ + path.tail@,
{
    if let Some(name) = path.file_name {
        assert(path.prefix@ + (name@ + "."@ + extension) =~= path.prefix@ + name@ + "."@
            + extension);
    }
}

/// The folder name of a run keeps every small letter, digit and dash of the
/// run's name in its place, lowers capitals, and puts an underscore for all
/// else; underscores at the ends are left out.
pub proof fn slugs_keep_letters(value: Seq<char>)
    ensures
        slug(value) == "analysis_run"@ || exists|i: int, j: int|
            0 <= i < j <= value.len() && #[trigger] value.subrange(i, j).len() == slug(value).len()
                && forall|k: int|
                0 <= k < slug(value).len() ==> ({
                    let c = value[i + k];
                    let s = #[trigger] slug(value)[k];
                    &&& ('a' <= c <= 'z' || '0' <= c <= '9' || c == '-') ==> s == c
                    &&& 'A' <= c <= 'Z' ==> s as u32 == c as u32 + 32
                    &&& !('a' <= c <= 'z' || '0' <= c <= '9' || c == '-' || 'A' <= c <= 'Z') ==> s
                        == '_'
                }),
{
    let whole = value.map_values(|c: char| slug_char(c));
    let i = underscores_in_front(whole);
    let rest = whole.skip(i);
    let j = i + text_before_underscores(rest);
    if i < j {
        assert(rest.take(j - i) =~= whole.subrange(i, j));
        assert(slug(value) == whole.subrange(i, j));
        assert(value.subrange(i, j).len() == slug(value).len());
        assert forall|k: int| 0 <= k < slug(value).len() implies ({
            let c = value[i + k];
            let s = #[trigger] slug(value)[k];
            &&& ('a' <= c <= 'z' || '0' <= c <= '9' || c == '-') ==> s == c
            &&& 'A' <= c <= 'Z' ==> s as u32 == c as u32 + 32
            &&& !('a' <= c <= 'z' || '0' <= c <= '9' || c == '-' || 'A' <= c <= 'Z') ==> s == '_'
        }) by {
            assert(slug(value)[k] == slug_char(value[i + k]));
        }
    } else {
        assert(rest.take(0) =~= Seq::<char>::empty());
    }
}

proof fn underscores_in_front(s: Seq<char>) -> (i: int)
    ensures
        0 <= i <= s.len(),
        lead_trimmed(s) == s.skip(i),
    decreases s.len(),
{
    if s.len() > 0 && s[0] == '_' {
        let i = underscores_in_front(s.drop_first());
        assert(s.drop_first().skip(i) =~= s.skip(i + 1));
        i + 1
    } else {
        assert(s.skip(0) =~= s);
        0
    }
}

proof fn text_before_underscores(s: Seq<char>) -> (j: int)
    ensures
        0 <= j <= s.len(),
        tail_trimmed(s) == s.take(j),
    decreases s.len(),
{
    if s.len() > 0 && s.last() == '_' {
        let j = text_before_underscores(s.drop_last());
        assert(s.drop_last().take(j) =~= s.take(j));
        j
    } else {
        assert(s.take(s.len() as int) =~= s);
        s.len() as int
    }
}

/// A title of letters and digits is its own file stem, in small letters; a run
/// of other characters between two of them becomes one underscore.
pub proof fn titles_become_stems(a: Seq<char>, gap: char, c: char)
    requires
        a.len() > 0,
        is_ascii_alnum(c),
        !is_ascii_alnum(gap),
        is_ascii_alnum(a.last()),
    ensures
        collapsed(a.push(c)) == collapsed(a).push(ascii_lower(c)),
        collapsed(a.push(gap)) == collapsed(a).push('_'),
        collapsed(a.push(gap).push(gap)) == collapsed(a.push(gap)),
        collapsed(a.push(gap).push(c)) == collapsed(a).push('_').push(ascii_lower(c)),
{
    assert(a.push(c).drop_last() =~= a);
    assert(a.push(gap).drop_last() =~= a);
    assert(a.push(gap).push(gap).drop_last() =~= a.push(gap));
    assert(a.push(gap).push(c).drop_last() =~= a.push(gap));
    let before = collapsed(a.drop_last());
    assert(collapsed(a) == before.push(ascii_lower(a.last())));
    assert(ascii_lower(a.last()) != '_');
}

/// A text is shortened only where it is too long, and then begins as it did.
pub proof fn long_texts_are_cut(text: Seq<char>, most: nat)
    ensures
        text.len() <= most ==> shortened(text, most) == text,
        text.len() > most ==> shortened(text, most).len() == most + 1 && shortened(text, most).take(
            most as int,
        ) == text.take(most as int) && shortened(text, most).last() == '\u{2026}',
{
    reveal_strlit("\u{2026}");
    if text.len() > most {
        assert(shortened(text, most).take(most as int) =~= text.take(most as int));
    }
}

/// A path that gets its own name again is the path without what stands behind
/// the name, and whatever name it gets, its folder stays.
pub proof fn renamed_paths_keep_their_folder(
    path: SplitPath,
    name: Seq<char>,
    other: Seq<char>,
    separator: char,
)
    ensures
        path.file_name matches Some(own) ==> path.renamed(own@, separator) + path.tail@
            == path.text(),
        path.file_name is Some ==> path.renamed(name, separator) == path.prefix@ + name,
        path.file_name is None ==> path.renamed(name, separator) == path_below(
            path.prefix@ + path.tail@,
            name,
            separator,
        ),
{
}

} // verus!
