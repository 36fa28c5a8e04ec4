//! Log formatting decisions: level labels and colours, field display rules
//! for the compact format, structured-field collection for the JSON format,
//! and the choice of format and verbosity.
use vstd::prelude::*;
use vstd::string::*;
use vstd::utf8::*;

use crate::text::{
    ascii_lowered, chars_of, is_ascii_text, is_white_space, lowercased, str_eq, string_of, to_lowercase,
    white_space,
};

verus! {

broadcast use vstd::utf8::encode_utf8_decode_utf8;

/// Severity of a log event.
#[derive(Debug, Clone, Copy, PartialEq, Eq, Structural)]
pub enum LogLevel {
    Trace,
    Debug,
    Info,
    Warn,
    Error,
}

/// Five-character label of a level, right-aligned.
pub open spec fn level_label_text(l: LogLevel) -> Seq<char> {
    match l {
        LogLevel::Trace => "TRACE"@,
        LogLevel::Debug => "DEBUG"@,
        LogLevel::Info => " INFO"@,
        LogLevel::Warn => " WARN"@,
        LogLevel::Error => "ERROR"@,
    }
}

/// ANSI colour escape of a level.
pub open spec fn level_color_text(l: LogLevel) -> Seq<char> {
    match l {
        LogLevel::Trace => "\x1b[35m"@,
        LogLevel::Debug => "\x1b[34m"@,
        LogLevel::Info => "\x1b[32m"@,
        LogLevel::Warn => "\x1b[33m"@,
        LogLevel::Error => "\x1b[31m"@,
    }
}

/// The level as shown in compact output: coloured when the writer takes ANSI escapes.
pub open spec fn shown_level(l: LogLevel, ansi: bool) -> Seq<char> {
    if ansi {
        level_color_text(l) + level_label_text(l) + "\x1b[0m"@
    } else {
        level_label_text(l)
    }
}

/// The level as shown in compact output: coloured when the writer takes ANSI escapes.
pub fn level_label(level: LogLevel, ansi: bool) -> (res: String)
    ensures
        res@ == shown_level(level, ansi),
{
    let name = match level {
        LogLevel::Trace => "TRACE",
        LogLevel::Debug => "DEBUG",
        LogLevel::Info => " INFO",
        LogLevel::Warn => " WARN",
        LogLevel::Error => "ERROR",
    };
    if ansi {
        let color = match level {
            LogLevel::Trace => "\x1b[35m",
            LogLevel::Debug => "\x1b[34m",
            LogLevel::Info => "\x1b[32m",
            LogLevel::Warn => "\x1b[33m",
            LogLevel::Error => "\x1b[31m",
        };
        String::from_str(color).concat(name).concat("\x1b[0m")
    } else {
        String::from_str(name)
    }
}

/// The level's name in lower case, as in JSON output.
pub open spec fn level_name_text(l: LogLevel) -> Seq<char> {
    match l {
        LogLevel::Trace => "trace"@,
        LogLevel::Debug => "debug"@,
        LogLevel::Info => "info"@,
        LogLevel::Warn => "warn"@,
        LogLevel::Error => "error"@,
    }
}

pub fn level_name(level: LogLevel) -> (res: &'static str)
    ensures
        res@ == level_name_text(level),
{
    match level {
        LogLevel::Trace => "trace",
        LogLevel::Debug => "debug",
        LogLevel::Info => "info",
        LogLevel::Warn => "warn",
        LogLevel::Error => "error",
    }
}

/// `t` dimmed (ANSI "faint") when the writer takes escapes.
pub open spec fn dim_text(t: Seq<char>, ansi: bool) -> Seq<char> {
    if ansi {
        "\x1b[2m"@ + t + "\x1b[0m"@
    } else {
        t
    }
}

/// `t` in bold when the writer takes escapes.
pub open spec fn bold_text(t: Seq<char>, ansi: bool) -> Seq<char> {
    if ansi {
        "\x1b[1m"@ + t + "\x1b[0m"@
    } else {
        t
    }
}

/// Dimmed text (ANSI "faint") when the writer takes escapes.
pub fn dimmed(text: &str, ansi: bool) -> (res: String)
    ensures
        res@ == dim_text(text@, ansi),
{
    if ansi {
        String::from_str("\x1b[2m").concat(text).concat("\x1b[0m")
    } else {
        String::from_str(text)
    }
}

/// Bold text when the writer takes escapes.
pub fn bold(text: &str, ansi: bool) -> (res: String)
    ensures
        res@ == bold_text(text@, ansi),
{
    if ansi {
        String::from_str("\x1b[1m").concat(text).concat("\x1b[0m")
    } else {
        String::from_str(text)
    }
}

// ---------------------------------------------------------------------------
// Compact line layout
// ---------------------------------------------------------------------------

/// A span of the event's scope: its name in bold, then its formatted fields
/// in braces when it has any.
pub open spec fn span_text(name: Seq<char>, fields: Seq<char>, ansi: bool) -> Seq<char> {
    bold_text(name, ansi) + if fields.len() > 0 {
        "{"@ + fields + "}"@
    } else {
        Seq::empty()
    }
}

/// The scope, root first, the spans separated by a dimmed `:`.
pub open spec fn scope_text(spans: Seq<(Seq<char>, Seq<char>)>, ansi: bool) -> Seq<char>
    decreases spans.len(),
{
    if spans.len() == 0 {
        Seq::empty()
    } else {
        let prev = scope_text(spans.drop_last(), ansi);
        let sep = if spans.len() > 1 {
            dim_text(":"@, ansi)
        } else {
            Seq::empty()
        };
        prev + sep + span_text(spans.last().0, spans.last().1, ansi)
    }
}

/// A compact log line: dimmed timestamp, level, the scope (followed by a
/// space when there is one), dimmed `target:`, then the event's fields.
pub open spec fn compact_line_text(
    timestamp: Seq<char>,
    level: LogLevel,
    ansi: bool,
    spans: Seq<(Seq<char>, Seq<char>)>,
    target: Seq<char>,
    fields: Seq<char>,
) -> Seq<char> {
    let scope = if spans.len() > 0 {
        scope_text(spans, ansi) + " "@
    } else {
        Seq::empty()
    };
    dim_text(timestamp, ansi) + " "@ + shown_level(level, ansi) + " "@ + scope + dim_text(target, ansi)
        + dim_text(":"@, ansi) + " "@ + fields + "\n"@
}

/// The views of a list of (span name, span fields) pairs.
pub open spec fn span_views(spans: Seq<(String, String)>) -> Seq<(Seq<char>, Seq<char>)> {
    spans.map_values(|p: (String, String)| (p.0@, p.1@))
}

/// Lay out a compact log line.
pub fn compact_line(
    timestamp: &str,
    level: LogLevel,
    ansi: bool,
    spans: &Vec<(String, String)>,
    target: &str,
    fields: &str,
) -> (res: String)
    ensures
        res@ == compact_line_text(timestamp@, level, ansi, span_views(spans@), target@, fields@),
{
    let ghost sv = span_views(spans@);
    let mut line = dimmed(timestamp, ansi).concat(" ").concat(level_label(level, ansi).as_str()).concat(
        " ",
    );
    let ghost head = line@;
    let mut i: usize = 0;
    assert(sv.take(0) =~= Seq::<(Seq<char>, Seq<char>)>::empty());
    while i < spans.len()
        invariant
            sv == span_views(spans@),
            0 <= i <= spans@.len(),
            line@ == head + scope_text(sv.take(i as int), ansi),
        decreases spans@.len() - i,
    {
        let ghost before = line@;
        assert(sv.take(i as int + 1).drop_last() =~= sv.take(i as int));
        if i > 0 {
            line = line.concat(dimmed(":", ansi).as_str());
        }
        line = line.concat(bold(spans[i].0.as_str(), ansi).as_str());
        if spans[i].1.as_str().unicode_len() > 0 {
            line = line.concat("{").concat(spans[i].1.as_str()).concat("}");
        }
        assert(sv[i as int] == (spans@[i as int].0@, spans@[i as int].1@));
        assert(line@ =~= head + scope_text(sv.take(i as int + 1), ansi));
        i = i + 1;
    }
    assert(sv.take(i as int) =~= sv);
    if spans.len() > 0 {
        line = line.concat(" ");
    }
    let line = line.concat(dimmed(target, ansi).as_str()).concat(dimmed(":", ansi).as_str()).concat(
        " ",
    ).concat(fields).concat("\n");
    line
}

// ---------------------------------------------------------------------------
// Compact field display
// ---------------------------------------------------------------------------

/// How a named field is shown in compact output.
#[derive(Debug, Clone, Copy, PartialEq, Eq, Structural)]
pub enum FieldRule {
    /// Omit the field.
    Hide,
    /// Shorten long identifiers to their first four and last six bytes.
    AbbreviateId,
}

/// Field rules of the compact format, in the order they were added.
pub struct CompactFields {
    pub rules: Vec<(String, FieldRule)>,
}

impl CompactFields {
    /// No rules.
    pub fn new() -> (res: CompactFields)
        ensures
            res.rules@.len() == 0,
    {
        CompactFields { rules: Vec::new() }
    }

    /// Add a rule that hides `field`.
    pub fn hide_field(self, field: &str) -> (res: CompactFields)
        ensures
            res.rules@.len() == self.rules@.len() + 1,
            res.rules@.take(self.rules@.len() as int) == self.rules@,
            res.rules@.last().0@ == field@ && res.rules@.last().1 == FieldRule::Hide,
    {
        let mut s = self;
        s.rules.push((String::from_str(field), FieldRule::Hide));
        s
    }

    /// Add a rule that shows `field` through `rule`.
    pub fn transform(self, field: &str, rule: FieldRule) -> (res: CompactFields)
        ensures
            res.rules@.len() == self.rules@.len() + 1,
            res.rules@.take(self.rules@.len() as int) == self.rules@,
            res.rules@.last().0@ == field@ && res.rules@.last().1 == rule,
    {
        let mut s = self;
        s.rules.push((String::from_str(field), rule));
        s
    }

    /// The first rule for `name`, if any.
    pub fn rule_for(&self, name: &str) -> (res: Option<FieldRule>)
        ensures
            match res {
                Some(r) => exists|k: int|
                    0 <= k < self.rules@.len() && #[trigger] self.rules@[k].0@ == name@
                        && self.rules@[k].1 == r && forall|j: int|
                        0 <= j < k ==> (#[trigger] self.rules@[j]).0@ != name@,
                None => forall|j: int|
                    0 <= j < self.rules@.len() ==> (#[trigger] self.rules@[j]).0@ != name@,
            },
    {
        let mut k: usize = 0;
        while k < self.rules.len()
            invariant
                0 <= k <= self.rules@.len(),
                forall|j: int| 0 <= j < k ==> (#[trigger] self.rules@[j]).0@ != name@,
            decreases self.rules@.len() - k,
        {
            if str_eq(self.rules[k].0.as_str(), name) {
                return Some(self.rules[k].1);
            }
            k = k + 1;
        }
        None
    }
}

/// The compact format's rules: request ids are abbreviated.
pub fn compact_fields() -> (res: CompactFields)
    ensures
        res.rules@.len() == 1,
        res.rules@[0].0@ == "req_id"@ && res.rules@[0].1 == FieldRule::AbbreviateId,
{
    CompactFields::new().transform("req_id", FieldRule::AbbreviateId)
}

/// What an id abbreviation shows: texts longer than twelve bytes become their
/// first four bytes, `..` and their last six bytes.
pub open spec fn abbreviated(v: Seq<char>) -> Seq<char> {
    let b = encode_utf8(v);
    if b.len() > 12 {
        decode_utf8(b.subrange(0, 4)) + ".."@ + decode_utf8(b.subrange(b.len() - 6, b.len() as int))
    } else {
        v
    }
}

/// Abbreviate an identifier (the byte positions cut must be character boundaries).
pub fn abbreviate_id(v: &str) -> (res: String)
    requires
        v.spec_bytes().len() <= usize::MAX,
        v.spec_bytes().len() > 12 ==> is_char_boundary(v.spec_bytes(), 4) && is_char_boundary(
            v.spec_bytes(),
            v.spec_bytes().len() - 6,
        ),
    ensures
        res@ == abbreviated(v@),
{
    let n = v.len();
    assert(n == v.spec_bytes().len());
    if n > 12 {
        let (head, _) = v.split_at(4);
        let (_, tail) = v.split_at(n - 6);
        assert(head@ == decode_utf8(head.spec_bytes()));
        assert(tail@ == decode_utf8(tail.spec_bytes()));
        String::from_str(head).concat("..").concat(tail)
    } else {
        String::from_str(v)
    }
}

/// The text a field adds to a compact line. `value` is the field's rendered
/// value; `first` tells whether nothing was written before on this line.
/// Hidden fields add nothing, `message` shows its value alone, other fields
/// show `name=value`; every piece but the first starts with a space.
pub open spec fn field_piece(rule: Option<FieldRule>, first: bool, name: Seq<char>, value: Seq<
    char,
>) -> Option<Seq<char>> {
    let sep = if first {
        Seq::<char>::empty()
    } else {
        " "@
    };
    match rule {
        Some(FieldRule::Hide) => None,
        Some(FieldRule::AbbreviateId) => Some(sep + name + "="@ + abbreviated(value)),
        None => if name == "message"@ {
            Some(sep + value)
        } else {
            Some(sep + name + "="@ + value)
        },
    }
}

pub fn format_field(rule: Option<FieldRule>, first: bool, name: &str, value: &str) -> (res: Option<
    String,
>)
    requires
        value.spec_bytes().len() <= usize::MAX,
        rule == Some(FieldRule::AbbreviateId) ==> (value.spec_bytes().len() > 12 ==> is_char_boundary(
            value.spec_bytes(),
            4,
        ) && is_char_boundary(value.spec_bytes(), value.spec_bytes().len() - 6)),
    ensures
        match res {
            Some(s) => field_piece(rule, first, name@, value@) == Some(s@),
            None => field_piece(rule, first, name@, value@) is None,
        },
{
    let sep = if first {
        ""
    } else {
        " "
    };
    proof {
        reveal_strlit("");
    }
    match rule {
        Some(FieldRule::Hide) => None,
        Some(FieldRule::AbbreviateId) => {
            let short = abbreviate_id(value);
            let s = String::from_str(sep).concat(name).concat("=").concat(short.as_str());
            assert(s@ =~= (if first { Seq::<char>::empty() } else { " "@ }) + name@ + "="@
                + abbreviated(value@));
            Some(s)
        },
        None => {
            if str_eq(name, "message") {
                let s = String::from_str(sep).concat(value);
                assert(s@ =~= (if first { Seq::<char>::empty() } else { " "@ }) + value@);
                Some(s)
            } else {
                let s = String::from_str(sep).concat(name).concat("=").concat(value);
                assert(s@ =~= (if first { Seq::<char>::empty() } else { " "@ }) + name@ + "="@
                    + value@);
                Some(s)
            }
        },
    }
}

// ---------------------------------------------------------------------------
// Format and verbosity
// ---------------------------------------------------------------------------

/// Default level of the app's own crates: debug in debug builds, info otherwise.
pub fn default_level(debug_build: bool) -> (res: &'static str)
    ensures
        debug_build ==> res@ == "debug"@,
        !debug_build ==> res@ == "info"@,
{
    if debug_build {
        "debug"
    } else {
        "info"
    }
}

/// Whether a text names a log level.
pub open spec fn is_level_name(s: Seq<char>) -> bool {
    s == "trace"@ || s == "debug"@ || s == "info"@ || s == "warn"@ || s == "error"@
}

/// Level of the app's crates: `-vv` (or more) is trace, `-v` is debug;
/// otherwise the lower-cased `LOG_LEVEL` setting when it names a level;
/// otherwise the build's default.
pub open spec fn level_choice(verbose: u8, lowered: Option<Seq<char>>, debug_build: bool) -> Seq<
    char,
> {
    if verbose >= 2 {
        "trace"@
    } else if verbose == 1 {
        "debug"@
    } else {
        match lowered {
            Some(l) => if is_level_name(l) {
                l
            } else if debug_build {
                "debug"@
            } else {
                "info"@
            },
            None => if debug_build {
                "debug"@
            } else {
                "info"@
            },
        }
    }
}

/// Without `-v`, a lower-cased `LOG_LEVEL` that names one of the five
/// levels is the level chosen, in debug and release builds alike; any other
/// setting, or none, gives debug in a debug build and info otherwise; `-v`
/// gives debug and `-vv` or more trace, whatever the setting.
pub proof fn lemma_level_setting_chosen(lowered: Option<Seq<char>>, debug_build: bool, verbose: u8)
    ensures
        level_choice(0, Some("trace"@), debug_build) == "trace"@,
        level_choice(0, Some("debug"@), debug_build) == "debug"@,
        level_choice(0, Some("info"@), debug_build) == "info"@,
        level_choice(0, Some("warn"@), debug_build) == "warn"@,
        level_choice(0, Some("error"@), debug_build) == "error"@,
        level_choice(1, lowered, debug_build) == "debug"@,
        verbose >= 2 ==> level_choice(verbose, lowered, debug_build) == "trace"@,
        (lowered is None || (lowered != Some("trace"@) && lowered != Some("debug"@) && lowered != Some(
            "info"@,
        ) && lowered != Some("warn"@) && lowered != Some("error"@))) ==> level_choice(0, lowered, true)
            == "debug"@ && level_choice(0, lowered, false) == "info"@,
{
}

/// The level chosen from the verbosity and the `LOG_LEVEL` setting as given.
pub open spec fn spec_app_level(verbose: u8, env_level: Option<Seq<char>>, debug_build: bool) -> Seq<
    char,
> {
    level_choice(
        verbose,
        match env_level {
            Some(e) => Some(lowercased(e)),
            None => None,
        },
        debug_build,
    )
}

/// The level from the verbosity and an already lower-cased `LOG_LEVEL`.
pub fn choose_level(verbose: u8, lowered: Option<&str>, debug_build: bool) -> (res: String)
    ensures
        res@ == level_choice(
            verbose,
            match lowered {
                Some(l) => Some(l@),
                None => None,
            },
            debug_build,
        ),
{
    if verbose >= 2 {
        return String::from_str("trace");
    }
    if verbose == 1 {
        return String::from_str("debug");
    }
    if let Some(s) = lowered {
        if str_eq(s, "trace") || str_eq(s, "debug") || str_eq(s, "info") || str_eq(s, "warn")
            || str_eq(s, "error") {
            return String::from_str(s);
        }
    }
    String::from_str(default_level(debug_build))
}

/// The level from the verbosity and `LOG_LEVEL` as given; an ASCII setting
/// is matched with its capitals lowered, so `DEBUG` selects `debug`.
pub fn app_level(verbose: u8, env_level: Option<&str>, debug_build: bool) -> (res: String)
    ensures
        res@ == spec_app_level(
            verbose,
            match env_level {
                Some(e) => Some(e@),
                None => None,
            },
            debug_build,
        ),
        env_level matches Some(e) ==> (is_ascii_text(e@) ==> res@ == level_choice(
            verbose,
            Some(ascii_lowered(e@)),
            debug_build,
        )),
{
    match env_level {
        Some(e) => {
            let l = to_lowercase(e);
            choose_level(verbose, Some(l.as_str()), debug_build)
        },
        None => choose_level(verbose, None, debug_build),
    }
}

/// The filter used without `RUST_LOG`: other crates at warn, the app at `level`.
pub fn filter_directive(level: &str) -> (res: String)
    ensures
        res@ == "warn,glint="@ + level@,
{
    String::from_str("warn,glint=").concat(level)
}

/// Whether output is JSON: as `LOG_JSON` says (`true` or `1`), else in release builds.
pub fn should_use_json(log_json: Option<&str>, debug_build: bool) -> (res: bool)
    ensures
        match log_json {
            Some(v) => res == (v@ == "true"@ || v@ == "1"@),
            None => res == !debug_build,
        },
{
    match log_json {
        Some(v) => str_eq(v, "true") || str_eq(v, "1"),
        None => !debug_build,
    }
}

// ---------------------------------------------------------------------------
// JSON event fields
// ---------------------------------------------------------------------------

/// A structured field value in JSON output.
#[derive(Debug)]
pub enum JsonValue {
    Str(String),
    I64(i64),
    U64(u64),
    Bool(bool),
}

/// The content of a JSON value.
pub enum JsonValueView {
    Str(Seq<char>),
    I64(i64),
    U64(u64),
    Bool(bool),
}

pub open spec fn json_view(v: JsonValue) -> JsonValueView {
    match v {
        JsonValue::Str(s) => JsonValueView::Str(s@),
        JsonValue::I64(i) => JsonValueView::I64(i),
        JsonValue::U64(u) => JsonValueView::U64(u),
        JsonValue::Bool(b) => JsonValueView::Bool(b),
    }
}

/// A value recorded for an event field: text (from `record_str` or a
/// rendered `Debug` value) or a number or flag.
pub enum RecordedValue {
    Text(String),
    I64(i64),
    U64(u64),
    Bool(bool),
}

/// Message and fields collected for one JSON log line. Field names are unique.
pub struct EventFields {
    pub message: Option<String>,
    pub fields: Vec<(String, JsonValue)>,
}

/// The fields as a map from name to value.
pub open spec fn fields_map(f: Seq<(String, JsonValue)>) -> Map<Seq<char>, JsonValueView>
    decreases f.len(),
{
    if f.len() == 0 {
        Map::empty()
    } else {
        fields_map(f.drop_last()).insert(f.last().0@, json_view(f.last().1))
    }
}

/// Field names are unique.
pub open spec fn names_unique(f: Seq<(String, JsonValue)>) -> bool {
    forall|i: int, j: int| 0 <= i < j < f.len() ==> (#[trigger] f[i]).0@ != (#[trigger] f[j]).0@
}

proof fn lemma_fields_map_update(f: Seq<(String, JsonValue)>, k: int, v: (String, JsonValue))
    requires
        names_unique(f),
        0 <= k < f.len(),
        v.0@ == f[k].0@,
    ensures
        fields_map(f.update(k, v)) == fields_map(f).insert(v.0@, json_view(v.1)),
        names_unique(f.update(k, v)),
    decreases f.len(),
{
    let u = f.update(k, v);
    if k == f.len() - 1 {
        assert(u.drop_last() =~= f.drop_last());
        assert(!fields_map(f.drop_last()).dom().contains(v.0@)) by {
            lemma_fields_map_dom(f.drop_last());
        }
        assert(fields_map(u) =~= fields_map(f).insert(v.0@, json_view(v.1)));
    } else {
        lemma_fields_map_update(f.drop_last(), k, v);
        assert(u.drop_last() =~= f.drop_last().update(k, v));
        assert(fields_map(u) =~= fields_map(f).insert(v.0@, json_view(v.1)));
    }
}

proof fn lemma_fields_map_dom(f: Seq<(String, JsonValue)>)
    ensures
        forall|n: Seq<char>|
            #[trigger] fields_map(f).dom().contains(n) <==> exists|i: int|
                0 <= i < f.len() && (#[trigger] f[i]).0@ == n,
    decreases f.len(),
{
    if f.len() > 0 {
        lemma_fields_map_dom(f.drop_last());
        assert forall|n: Seq<char>| #[trigger] fields_map(f).dom().contains(n) implies exists|i: int|
            0 <= i < f.len() && (#[trigger] f[i]).0@ == n by {
            if n == f.last().0@ {
                assert(f[f.len() - 1].0@ == n);
            } else {
                assert(fields_map(f.drop_last()).dom().contains(n));
                let i = choose|i: int|
                    0 <= i < f.drop_last().len() && (#[trigger] f.drop_last()[i]).0@ == n;
                assert(f[i] == f.drop_last()[i]);
            }
        }
        assert forall|n: Seq<char>| (exists|i: int| 0 <= i < f.len() && (#[trigger] f[i]).0@ == n)
            implies #[trigger] fields_map(f).dom().contains(n) by {
            let i = choose|i: int| 0 <= i < f.len() && (#[trigger] f[i]).0@ == n;
            if i < f.len() - 1 {
                assert(f.drop_last()[i] == f[i]);
                assert(fields_map(f.drop_last()).dom().contains(n));
            }
        }
    }
}

impl EventFields {
    pub fn new() -> (res: EventFields)
        ensures
            res.message is None,
            res.fields@.len() == 0,
    {
        EventFields { message: None, fields: Vec::new() }
    }

    /// Set a field, replacing an earlier value of the same name.
    pub fn insert(&mut self, name: String, value: JsonValue)
        requires
            names_unique(old(self).fields@),
        ensures
            names_unique(final(self).fields@),
            fields_map(final(self).fields@) == fields_map(old(self).fields@).insert(
                name@,
                json_view(value),
            ),
            final(self).message == old(self).message,
    {
        let ghost f0 = self.fields@;
        let mut k: usize = 0;
        while k < self.fields.len()
            invariant
                self.fields@ == f0,
                f0 == old(self).fields@,
                self.message == old(self).message,
                names_unique(f0),
                0 <= k <= f0.len(),
                forall|j: int| 0 <= j < k ==> (#[trigger] f0[j]).0@ != name@,
            decreases f0.len() - k,
        {
            if str_eq(self.fields[k].0.as_str(), name.as_str()) {
                let ghost nv = (name, value);
                proof {
                    lemma_fields_map_update(f0, k as int, nv);
                }
                let pair = (name, value);
                assert(pair == nv);
                self.fields.set(k, pair);
                assert(self.fields@ == f0.update(k as int, nv));
                assert(fields_map(self.fields@) == fields_map(f0).insert(nv.0@, json_view(nv.1)));
                return;
            }
            k = k + 1;
        }
        proof {
            assert forall|i: int, j: int| 0 <= i < j < f0.push((name, value)).len() implies (
            #[trigger] f0.push((name, value))[i]).0@ != (#[trigger] f0.push((name, value))[j]).0@ by {
                if j == f0.len() {
                    assert(f0.push((name, value))[i] == f0[i]);
                } else {
                    assert(f0.push((name, value))[i] == f0[i]);
                    assert(f0.push((name, value))[j] == f0[j]);
                }
            }
            assert(f0.push((name, value)).drop_last() =~= f0);
        }
        self.fields.push((name, value));
    }

    /// Record one event field: `message` text becomes the message (numbers
    /// and flags named `message` are dropped); every other field is set.
    pub fn record(&mut self, name: &str, value: RecordedValue)
        requires
            names_unique(old(self).fields@),
        ensures
            names_unique(final(self).fields@),
            name@ == "message"@ ==> fields_map(final(self).fields@) == fields_map(old(self).fields@),
            name@ == "message"@ ==> match value {
                RecordedValue::Text(t) => final(self).message matches Some(m) && m@ == t@,
                _ => final(self).message == old(self).message,
            },
            name@ != "message"@ ==> final(self).message == old(self).message,
            name@ != "message"@ ==> fields_map(final(self).fields@) == fields_map(
                old(self).fields@,
            ).insert(
                name@,
                match value {
                    RecordedValue::Text(t) => JsonValueView::Str(t@),
                    RecordedValue::I64(i) => JsonValueView::I64(i),
                    RecordedValue::U64(u) => JsonValueView::U64(u),
                    RecordedValue::Bool(b) => JsonValueView::Bool(b),
                },
            ),
    {
        if str_eq(name, "message") {
            match value {
                RecordedValue::Text(t) => {
                    self.message = Some(t);
                },
                _ => {},
            }
        } else {
            let v = match value {
                RecordedValue::Text(t) => JsonValue::Str(t),
                RecordedValue::I64(i) => JsonValue::I64(i),
                RecordedValue::U64(u) => JsonValue::U64(u),
                RecordedValue::Bool(b) => JsonValue::Bool(b),
            };
            self.insert(String::from_str(name), v);
        }
    }
}

// ---------------------------------------------------------------------------
// Span fields (`key=value key2="value 2"` as formatted by the span layer)
// ---------------------------------------------------------------------------

/// The white-space separated words of a text (`str::split_whitespace`).
pub open spec fn words(s: Seq<char>) -> Seq<Seq<char>>
    decreases s.len(),
{
    if s.len() == 0 {
        Seq::empty()
    } else {
        let w = words(s.drop_last());
        let c = s.last();
        if white_space(c) {
            w
        } else if s.len() >= 2 && !white_space(s[s.len() - 2]) {
            w.update(w.len() - 1, w.last().push(c))
        } else {
            w.push(seq![c])
        }
    }
}

proof fn lemma_words_nonempty(s: Seq<char>)
    ensures
        s.len() > 0 && !white_space(s.last()) ==> words(s).len() > 0,
    decreases s.len(),
{
    if s.len() > 0 {
        lemma_words_nonempty(s.drop_last());
    }
}

/// `s` without every leading and trailing `c` (`str::trim_matches`).
pub open spec fn strip_char(s: Seq<char>, c: char) -> Seq<char>
    decreases s.len(),
{
    if s.len() > 0 && s[0] == c {
        strip_char(s.drop_first(), c)
    } else if s.len() > 0 && s.last() == c {
        strip_char(s.drop_last(), c)
    } else {
        s
    }
}

/// The field a span word sets: `key=value` splits at the first `=`; the
/// value loses surrounding double quotes, then single quotes. Words without
/// `=` set nothing.
pub open spec fn word_field(w: Seq<char>) -> Option<(Seq<char>, Seq<char>)> {
    let k = crate::work_ordering::first_from(0, w.len() as int, |k: int| w[k] == '=');
    if k < w.len() {
        Some((w.take(k), strip_char(strip_char(w.skip(k + 1), '"'), '\'')))
    } else {
        None
    }
}

/// The fields after applying the words `ws` in order.
pub open spec fn apply_words(m: Map<Seq<char>, JsonValueView>, ws: Seq<Seq<char>>) -> Map<
    Seq<char>,
    JsonValueView,
>
    decreases ws.len(),
{
    if ws.len() == 0 {
        m
    } else {
        let m1 = apply_words(m, ws.drop_last());
        match word_field(ws.last()) {
            Some((k, v)) => m1.insert(k, JsonValueView::Str(v)),
            None => m1,
        }
    }
}

fn split_words(s: &str) -> (res: Vec<Vec<char>>)
    ensures
        res@.map_values(|w: Vec<char>| w@) == words(s@),
{
    let cs = chars_of(s);
    let mut res: Vec<Vec<char>> = Vec::new();
    let mut i: usize = 0;
    assert(s@.take(0) =~= Seq::<char>::empty());
    while i < cs.len()
        invariant
            cs@ == s@,
            0 <= i <= cs@.len(),
            res@.map_values(|w: Vec<char>| w@) == words(s@.take(i as int)),
        decreases cs@.len() - i,
    {
        let ghost prev = res@.map_values(|w: Vec<char>| w@);
        let c = cs[i];
        let ghost t = s@.take(i as int + 1);
        assert(t.drop_last() =~= s@.take(i as int));
        assert(t.last() == c);
        if is_white_space(c) {
        } else if i >= 1 && !is_white_space(cs[i - 1]) {
            assert(t[t.len() - 2] == cs@[i - 1]);
            proof {
                lemma_words_nonempty(s@.take(i as int));
                assert(s@.take(i as int).last() == cs@[i - 1]);
            }
            let last = res.len() - 1;
            let mut w = res.remove(last);
            w.push(c);
            res.push(w);
            assert(res@.map_values(|w: Vec<char>| w@) =~= prev.update(
                prev.len() - 1,
                prev.last().push(c),
            ));
        } else {
            let mut w: Vec<char> = Vec::new();
            w.push(c);
            res.push(w);
            assert(res@.map_values(|w: Vec<char>| w@) =~= prev.push(seq![c]));
        }
        i = i + 1;
    }
    assert(s@.take(cs@.len() as int) =~= s@);
    res
}

fn strip_char_exec(s: Vec<char>, c: char) -> (res: Vec<char>)
    ensures
        res@ == strip_char(s@, c),
    decreases s@.len(),
{
    if s.len() > 0 && s[0] == c {
        let mut t = s;
        t.remove(0);
        assert(t@ =~= s@.drop_first());
        strip_char_exec(t, c)
    } else if s.len() > 0 && s[s.len() - 1] == c {
        let mut t = s;
        t.pop();
        assert(t@ =~= s@.drop_last());
        strip_char_exec(t, c)
    } else {
        s
    }
}

fn word_field_exec(w: &Vec<char>) -> (res: Option<(String, String)>)
    ensures
        match res {
            Some((k, v)) => word_field(w@) == Some((k@, v@)),
            None => word_field(w@) is None,
        },
{
    let ghost p = |k: int| w@[k] == '=';
    let mut k: usize = 0;
    while k < w.len() && w[k] != '='
        invariant
            p == (|k: int| w@[k] == '='),
            0 <= k <= w@.len(),
            forall|j: int| 0 <= j < k ==> !#[trigger] p(j),
        decreases w@.len() - k,
    {
        k = k + 1;
    }
    proof {
        crate::work_ordering::lemma_first_from_skip(k as int, w@.len() as int, p);
        assert(k == w@.len() || p(k as int));
        assert(crate::work_ordering::first_from(k as int, w@.len() as int, p) == k);
    }
    if k == w.len() {
        return None;
    }
    let mut key: Vec<char> = Vec::new();
    let mut i: usize = 0;
    while i < k
        invariant
            k < w@.len(),
            0 <= i <= k,
            key@ == w@.take(i as int),
        decreases k - i,
    {
        key.push(w[i]);
        assert(w@.take(i as int + 1) =~= w@.take(i as int).push(w@[i as int]));
        i = i + 1;
    }
    let mut val: Vec<char> = Vec::new();
    let mut j: usize = k + 1;
    while j < w.len()
        invariant
            k < w@.len(),
            k + 1 <= j <= w@.len(),
            val@ == w@.subrange(k as int + 1, j as int),
        decreases w@.len() - j,
    {
        val.push(w[j]);
        assert(w@.subrange(k as int + 1, j as int + 1) =~= w@.subrange(k as int + 1, j as int).push(
            w@[j as int],
        ));
        j = j + 1;
    }
    assert(val@ =~= w@.skip(k as int + 1));
    let v1 = strip_char_exec(val, '"');
    let v2 = strip_char_exec(v1, '\'');
    Some((string_of(&key), string_of(&v2)))
}

impl EventFields {
    /// Set the fields that a span's formatted field text holds.
    pub fn apply_span_fields(&mut self, formatted: &str)
        requires
            names_unique(old(self).fields@),
        ensures
            names_unique(final(self).fields@),
            fields_map(final(self).fields@) == apply_words(
                fields_map(old(self).fields@),
                words(formatted@),
            ),
            final(self).message == old(self).message,
    {
        let ws = split_words(formatted);
        let ghost wv = ws@.map_values(|w: Vec<char>| w@);
        let ghost m0 = fields_map(self.fields@);
        let mut i: usize = 0;
        assert(wv.take(0) =~= Seq::<Seq<char>>::empty());
        while i < ws.len()
            invariant
                wv == ws@.map_values(|w: Vec<char>| w@),
                0 <= i <= ws@.len(),
                names_unique(self.fields@),
                fields_map(self.fields@) == apply_words(m0, wv.take(i as int)),
                self.message == old(self).message,
            decreases ws@.len() - i,
        {
            assert(wv.take(i as int + 1).drop_last() =~= wv.take(i as int));
            assert(wv.take(i as int + 1).last() == ws@[i as int]@);
            match word_field_exec(&ws[i]) {
                Some((k, v)) => {
                    self.insert(k, JsonValue::Str(v));
                },
                None => {},
            }
            i = i + 1;
        }
        assert(wv.take(ws@.len() as int) =~= wv);
    }
}

} // verus!
