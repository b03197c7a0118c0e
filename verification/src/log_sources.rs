//! Log lines from files and system journals: level, source and origin
//! inference, JSON/nginx/journal line parsing, incremental tailing decisions
//! and the ordering of the collected entries.
use vstd::prelude::*;
use vstd::string::StringSliceAdditionalSpecFns;
use crate::collectors::{AlertLevel, LogEntry};
use crate::external::{
    file_name_of, json_field, json_field_text, json_items, json_items_text, parse_rfc3339_seconds,
    path_equal, same_path,
    path_file_name, rfc3339_seconds,
};
use crate::numbers::{
    decimal_string, digits_value, is_digit_run, parse_i64, parse_signed_spec, parse_u8, parse_unsigned_spec,
    push_decimal,
};
use crate::sort::{
    SortKey, stable_sort, stable_sorted, lemma_filter_map_sources, lemma_sorted_pair,
    lemma_sorted_same_elements,
};
use crate::text::{
    is_ascii_digit,
    lemma_ascii_lower_idempotent,
    append_str, ascii_lower, chars_eq, chars_of, decimal, contains_chars, has_substring, lex_le, lex_le_chars,
    first_newline, lemma_first_newline_range, lemma_lex_total, lemma_lex_trans, lines_spec, lowercase_chars, split_lines, str_contains,
    string_from_chars, trim_chars, trim_line_end, trim_line_end_spec, trim_spec,
};
use crate::wildcard::{wild_match, wildcard_match};

verus! {

/// The view of a log entry: its fields, texts as characters.
pub struct LogRecord {
    pub timestamp: i64,
    pub level: AlertLevel,
    pub source: Seq<char>,
    pub origin: Seq<char>,
    pub message: Seq<char>,
}

impl View for LogEntry {
    type V = LogRecord;

    open spec fn view(&self) -> LogRecord {
        LogRecord {
            timestamp: self.timestamp,
            level: self.level,
            source: self.source@,
            origin: self.origin@,
            message: self.message@,
        }
    }
}

/// Where reading a tailed file stopped last time.
#[derive(Debug, Clone, Copy)]
pub struct FileTailState {
    pub offset: u64,
    pub file_size: u64,
    pub modified_ts: i64,
}

impl Default for FileTailState {
    fn default() -> (r: Self)
        ensures
            r.offset == 0 && r.file_size == 0 && r.modified_ts == 0,
    {
        FileTailState { offset: 0, file_size: 0, modified_ts: 0 }
    }
}

/// What one pass over the tailed files produced.
#[derive(Debug)]
pub struct TailRefresh {
    pub entries: Vec<LogEntry>,
    pub active_files: Vec<String>,
    pub rotated_files: usize,
}

impl Default for TailRefresh {
    fn default() -> (r: Self)
        ensures
            r.entries@.len() == 0 && r.active_files@.len() == 0 && r.rotated_files == 0,
    {
        TailRefresh { entries: Vec::new(), active_files: Vec::new(), rotated_files: 0 }
    }
}

// ---------------------------------------------------------------------------
// Levels, ranks and sources
// ---------------------------------------------------------------------------
/// Level guessed from the words of a message: failures are critical,
/// warnings, timeouts and drops are warnings, the rest is information.
pub open spec fn level_of_text(message: Seq<char>) -> AlertLevel {
    let l = ascii_lower(message);
    if has_substring(l, "fatal"@) || has_substring(l, "panic"@) || has_substring(l, "error"@)
        || has_substring(l, "failed"@) || has_substring(l, "critical"@) {
        AlertLevel::Critical
    } else if has_substring(l, "warn"@) || has_substring(l, "timeout"@) || has_substring(
        l,
        "drop"@,
    ) {
        AlertLevel::Warning
    } else {
        AlertLevel::Info
    }
}

/// A message that holds, in any ASCII case, one of the words "fatal",
/// "panic", "error", "failed" or "critical" is critical; so is a plain file
/// line (neither JSON nor nginx) that holds one.
pub proof fn lemma_failure_words_are_critical(
    message: Seq<char>,
    path: Seq<char>,
    ts: i64,
    word: Seq<char>,
)
    requires
        word == "fatal"@ || word == "panic"@ || word == "error"@ || word == "failed"@ || word
            == "critical"@,
        has_substring(ascii_lower(message), word),
    ensures
        level_of_text(message) == AlertLevel::Critical,
        json_line_record(message, path, ts) is None && nginx_line_record(message, path, ts) is None
            ==> file_line_record(message, path, ts).level == AlertLevel::Critical,
{
}

/// A message without any of the failure words that holds, in any ASCII
/// case, "warn", "timeout" or "drop" is a warning; one that holds none of
/// these words is information.
pub proof fn lemma_other_words_levels(message: Seq<char>, word: Seq<char>)
    requires
        !has_substring(ascii_lower(message), "fatal"@),
        !has_substring(ascii_lower(message), "panic"@),
        !has_substring(ascii_lower(message), "error"@),
        !has_substring(ascii_lower(message), "failed"@),
        !has_substring(ascii_lower(message), "critical"@),
    ensures
        (word == "warn"@ || word == "timeout"@ || word == "drop"@) && has_substring(
            ascii_lower(message),
            word,
        ) ==> level_of_text(message) == AlertLevel::Warning,
        !has_substring(ascii_lower(message), "warn"@) && !has_substring(
            ascii_lower(message),
            "timeout"@,
        ) && !has_substring(ascii_lower(message), "drop"@) ==> level_of_text(message)
            == AlertLevel::Info,
{
}

/// Guessing a level from words ignores ASCII case.
pub proof fn lemma_level_ignores_case(message: Seq<char>)
    ensures
        level_of_text(ascii_lower(message)) == level_of_text(message),
        level_of_message_type(ascii_lower(message)) == level_of_message_type(message),
{
    lemma_ascii_lower_idempotent(message);
}

/// Journal priorities: 0 to 3 are critical, 4 a warning, 5 and above (and a
/// missing priority) information; a more urgent (lower) priority never gets a
/// lower level.
pub proof fn lemma_priority_levels(a: u8, b: u8)
    ensures
        a <= 3 ==> level_of_priority(Some(a)) == AlertLevel::Critical,
        a == 4 ==> level_of_priority(Some(a)) == AlertLevel::Warning,
        a >= 5 ==> level_of_priority(Some(a)) == AlertLevel::Info,
        level_of_priority(None) == AlertLevel::Info,
        a <= b ==> rank_of(level_of_priority(Some(a))) >= rank_of(level_of_priority(Some(b))),
{
}

/// Unified-log message types: "error" and "fault" (any ASCII case) are
/// critical, "default" and "info" information, whatever else the text says.
pub proof fn lemma_message_type_levels(value: Seq<char>)
    ensures
        ascii_lower(value) == "error"@ || ascii_lower(value) == "fault"@ ==> level_of_message_type(
            value,
        ) == AlertLevel::Critical,
        ascii_lower(value) == "default"@ || ascii_lower(value) == "info"@ ==> level_of_message_type(
            value,
        ) == AlertLevel::Info,
{
    reveal_strlit("error");
    reveal_strlit("fault");
    reveal_strlit("default");
    reveal_strlit("info");
    let l = ascii_lower(value);
    if l == "default"@ || l == "info"@ {
        assert(l[0] != "error"@[0] && l[0] != "fault"@[0]);
    }
}

/// An nginx line marked `[error]` or `[crit]` is critical, one marked only
/// `[warn]` a warning; its source is nginx and its origin the file.
pub proof fn lemma_nginx_levels(message: Seq<char>, path: Seq<char>, ts: i64)
    ensures
        nginx_line_record(message, path, ts) matches Some(r) ==> r.source == "nginx"@ && r.origin
            == path && r.message == message && r.timestamp == ts,
        has_substring(message, "[error]"@) || has_substring(message, "[crit]"@) ==> nginx_line_record(
            message,
            path,
            ts,
        ) is Some && nginx_line_record(message, path, ts)->0.level == AlertLevel::Critical,
        !has_substring(message, "[error]"@) && !has_substring(message, "[crit]"@) && has_substring(
            message,
            "[warn]"@,
        ) ==> nginx_line_record(message, path, ts) is Some && nginx_line_record(message, path, ts)->0.level
            == AlertLevel::Warning,
{
    reveal_strlit("[error]");
    reveal_strlit("[crit]");
    reveal_strlit("[warn]");
    reveal_strlit("[");
    if has_substring(message, "[error]"@) {
        let i = choose|i: int| 0 <= i && i + "[error]"@.len() <= message.len() && #[trigger] message.subrange(i, i + "[error]"@.len()) == "[error]"@;
        assert(message.subrange(i, i + 1) == "["@);
    } else if has_substring(message, "[crit]"@) {
        let i = choose|i: int| 0 <= i && i + "[crit]"@.len() <= message.len() && #[trigger] message.subrange(i, i + "[crit]"@.len()) == "[crit]"@;
        assert(message.subrange(i, i + 1) == "["@);
    } else if has_substring(message, "[warn]"@) {
        let i = choose|i: int| 0 <= i && i + "[warn]"@.len() <= message.len() && #[trigger] message.subrange(i, i + "[warn]"@.len()) == "[warn]"@;
        assert(message.subrange(i, i + 1) == "["@);
    }
}

fn lower_contains(lowered: &Vec<char>, word: &str) -> (r: bool)
    ensures
        r == has_substring(lowered@, word@),
{
    contains_chars(lowered, &chars_of(word))
}

/// The level a message's wording suggests.
pub fn infer_level(message: &str) -> (r: AlertLevel)
    ensures
        r == level_of_text(message@),
{
    let lowered = lowercase_chars(message);
    if lower_contains(&lowered, "fatal") || lower_contains(&lowered, "panic") || lower_contains(
        &lowered,
        "error",
    ) || lower_contains(&lowered, "failed") || lower_contains(&lowered, "critical") {
        AlertLevel::Critical
    } else if lower_contains(&lowered, "warn") || lower_contains(&lowered, "timeout")
        || lower_contains(&lowered, "drop") {
        AlertLevel::Warning
    } else {
        AlertLevel::Info
    }
}

pub open spec fn rank_of(level: AlertLevel) -> nat {
    match level {
        AlertLevel::Critical => 3,
        AlertLevel::Warning => 2,
        AlertLevel::Info => 1,
    }
}

/// Rank of a level for ordering: critical 3, warning 2, info 1.
pub fn severity_rank(level: &AlertLevel) -> (r: usize)
    ensures
        r == rank_of(*level),
{
    match level {
        AlertLevel::Critical => 3,
        AlertLevel::Warning => 2,
        AlertLevel::Info => 1,
    }
}

/// Journal priority to level: 0 to 3 critical, 4 warning, the rest (and a
/// missing priority, read as 6) information.
pub open spec fn level_of_priority(priority: Option<u8>) -> AlertLevel {
    let p = match priority {
        Some(p) => p,
        None => 6u8,
    };
    if p <= 3 {
        AlertLevel::Critical
    } else if p == 4 {
        AlertLevel::Warning
    } else {
        AlertLevel::Info
    }
}

/// The level of a syslog priority (info when absent).
pub fn priority_to_level(priority: Option<u8>) -> (r: AlertLevel)
    ensures
        r == level_of_priority(priority),
{
    let p = match priority {
        Some(p) => p,
        None => 6u8,
    };
    if p <= 3 {
        AlertLevel::Critical
    } else if p == 4 {
        AlertLevel::Warning
    } else {
        AlertLevel::Info
    }
}

/// Level of a unified-log message type: `error` and `fault` are critical,
/// `default` and `info` information, anything else is read from its words.
pub open spec fn level_of_message_type(value: Seq<char>) -> AlertLevel {
    let l = ascii_lower(value);
    if l == "error"@ || l == "fault"@ {
        AlertLevel::Critical
    } else if l == "default"@ || l == "info"@ {
        AlertLevel::Info
    } else {
        level_of_text(value)
    }
}

/// The level of a unified-log message type.
pub fn macos_level(value: &str) -> (r: AlertLevel)
    ensures
        r == level_of_message_type(value@),
{
    let l = lowercase_chars(value);
    if chars_eq(&l, &chars_of("error")) || chars_eq(&l, &chars_of("fault")) {
        AlertLevel::Critical
    } else if chars_eq(&l, &chars_of("default")) || chars_eq(&l, &chars_of("info")) {
        AlertLevel::Info
    } else {
        infer_level(value)
    }
}

/// Source guessed from a file path and a message: nginx, then JVM, then
/// syslog, otherwise the file name (or `file` when the path has none).
pub open spec fn source_of(path: Seq<char>, message: Seq<char>) -> Seq<char> {
    let lp = ascii_lower(path);
    let lm = ascii_lower(message);
    if has_substring(lp, "nginx"@) || has_substring(lm, "nginx"@) {
        "nginx"@
    } else if has_substring(lp, "jvm"@) || has_substring(lp, "java"@) || has_substring(
        lm,
        "exception"@,
    ) || has_substring(lm, "stacktrace"@) {
        "jvm"@
    } else if has_substring(lp, "syslog"@) {
        "syslog"@
    } else {
        match path_file_name(path) {
            Some(name) => name,
            None => "file"@,
        }
    }
}

/// The source of a file line: "nginx" when the path or the message names
/// nginx (any ASCII case); otherwise "jvm" when the path names jvm or java or
/// the message speaks of an exception or a stacktrace; otherwise "syslog"
/// for a syslog path; otherwise the file's name, or "file" when it has none.
pub proof fn lemma_source_rules(path: Seq<char>, message: Seq<char>, word: Seq<char>)
    ensures
        (word == "nginx"@ && (has_substring(ascii_lower(path), word) || has_substring(
            ascii_lower(message),
            word,
        ))) ==> source_of(path, message) == "nginx"@,
        !has_substring(ascii_lower(path), "nginx"@) && !has_substring(ascii_lower(message), "nginx"@)
            && (((word == "jvm"@ || word == "java"@) && has_substring(ascii_lower(path), word)) || ((
        word == "exception"@ || word == "stacktrace"@) && has_substring(ascii_lower(message), word)))
            ==> source_of(path, message) == "jvm"@,
        source_of(path, message) == "nginx"@ || source_of(path, message) == "jvm"@ || source_of(
            path,
            message,
        ) == "syslog"@ || source_of(path, message) == "file"@ || Some(source_of(path, message))
            == path_file_name(path),
{
}

/// The component a file line comes from, by path and wording.
pub fn infer_source(path: &str, message: &str) -> (r: String)
    ensures
        r@ == source_of(path@, message@),
{
    let lp = lowercase_chars(path);
    let lm = lowercase_chars(message);
    if lower_contains(&lp, "nginx") || lower_contains(&lm, "nginx") {
        "nginx".to_string()
    } else if lower_contains(&lp, "jvm") || lower_contains(&lp, "java") || lower_contains(
        &lm,
        "exception",
    ) || lower_contains(&lm, "stacktrace") {
        "jvm".to_string()
    } else if lower_contains(&lp, "syslog") {
        "syslog".to_string()
    } else {
        match file_name_of(path) {
            Some(name) => name,
            None => "file".to_string(),
        }
    }
}

// ---------------------------------------------------------------------------
// Line parsers
// ---------------------------------------------------------------------------
/// The first of the keys that the JSON document holds a text for.
pub open spec fn first_field(doc: Seq<char>, keys: Seq<Seq<char>>) -> Option<Seq<char>>
    decreases keys.len(),
{
    if keys.len() == 0 {
        None
    } else {
        match json_field_text(doc, keys[0]) {
            Some(t) => Some(t),
            None => first_field(doc, keys.drop_first()),
        }
    }
}

/// A JSON log line is an entry exactly when it has one of the fields
/// `message`, `msg`, `event`, `log`, and its text is the first of these in
/// that order; its level is read from `level` when present (information when
/// no level field is there); the entry's origin is the file and its time the
/// given one.
pub proof fn lemma_json_line_fields(m: Seq<char>, path: Seq<char>, ts: i64)
    ensures
        json_line_record(m, path, ts) is None <==> (json_field_text(m, "message"@) is None
            && json_field_text(m, "msg"@) is None && json_field_text(m, "event"@) is None
            && json_field_text(m, "log"@) is None),
        json_field_text(m, "message"@) matches Some(t) ==> json_line_record(m, path, ts) == Some(
            json_line_record(m, path, ts)->0,
        ) && json_line_record(m, path, ts)->0.message == t,
        json_field_text(m, "msg"@) matches Some(t) ==> (json_field_text(m, "message"@) is None
            ==> json_line_record(m, path, ts)->0.message == t),
        json_field_text(m, "event"@) matches Some(t) ==> (json_field_text(m, "message"@) is None
            && json_field_text(m, "msg"@) is None ==> json_line_record(m, path, ts)->0.message == t),
        json_field_text(m, "level"@) matches Some(l) ==> (json_line_record(m, path, ts) is Some
            ==> json_line_record(m, path, ts)->0.level == level_of_text(l)),
        (json_line_record(m, path, ts) is Some && json_field_text(m, "level"@) is None
            && json_field_text(m, "severity"@) is None && json_field_text(m, "lvl"@) is None)
            ==> json_line_record(m, path, ts)->0.level == AlertLevel::Info,
        json_line_record(m, path, ts) matches Some(r) ==> r.origin == path && r.timestamp == ts,
{
    let mk = seq!["message"@, "msg"@, "event"@, "log"@];
    assert(mk[0] == "message"@);
    assert(mk.drop_first() == seq!["msg"@, "event"@, "log"@]);
    assert(mk.drop_first().drop_first() == seq!["event"@, "log"@]);
    assert(mk.drop_first().drop_first().drop_first() == seq!["log"@]);
    assert(seq!["log"@].drop_first() == Seq::<Seq<char>>::empty());
    reveal_with_fuel(first_field, 5);
    let lk = seq!["level"@, "severity"@, "lvl"@];
    assert(lk.drop_first() == seq!["severity"@, "lvl"@]);
    assert(lk.drop_first().drop_first() == seq!["lvl"@]);
    assert(seq!["lvl"@].drop_first() == Seq::<Seq<char>>::empty());
    let e: Seq<char> = seq![];
    assert(ascii_lower(e) =~= e);
    reveal_strlit("fatal");
    reveal_strlit("panic");
    reveal_strlit("error");
    reveal_strlit("failed");
    reveal_strlit("critical");
    reveal_strlit("warn");
    reveal_strlit("timeout");
    reveal_strlit("drop");
}

fn json_first(doc: &str, keys: &[&str]) -> (r: Option<String>)
    ensures
        match r {
            Some(t) => first_field(doc@, keys@.map_values(|k: &str| k@)) == Some(t@),
            None => first_field(doc@, keys@.map_values(|k: &str| k@)) is None,
        },
{
    let ghost kv = keys@.map_values(|k: &str| k@);
    let mut i: usize = 0;
    assert(kv.skip(0) == kv);
    while i < keys.len()
        invariant
            i <= keys@.len(),
            kv == keys@.map_values(|k: &str| k@),
            first_field(doc@, kv) == first_field(doc@, kv.skip(i as int)),
        decreases keys.len() - i,
    {
        let ghost rest = kv.skip(i as int);
        assert(rest[0] == keys@[i as int]@);
        assert(rest.drop_first() == kv.skip(i + 1));
        if let Some(t) = json_field(doc, keys[i]) {
            return Some(t);
        }
        i = i + 1;
    }
    assert(kv.skip(i as int).len() == 0);
    None
}

/// A JSON log line: its text under `message`, `msg`, `event` or `log`; its
/// level read from `level`, `severity` or `lvl`; its source from `logger`,
/// `component`, `service` or `target`, else guessed.
pub open spec fn json_line_record(message: Seq<char>, path: Seq<char>, timestamp: i64) -> Option<
    LogRecord,
> {
    match first_field(message, seq!["message"@, "msg"@, "event"@, "log"@]) {
        None => None,
        Some(text) => {
            let level = match first_field(message, seq!["level"@, "severity"@, "lvl"@]) {
                Some(l) => l,
                None => seq![],
            };
            let source = match first_field(
                message,
                seq!["logger"@, "component"@, "service"@, "target"@],
            ) {
                Some(s) => s,
                None => source_of(path, text),
            };
            Some(
                LogRecord {
                    timestamp,
                    level: level_of_text(level),
                    source,
                    origin: path,
                    message: text,
                },
            )
        },
    }
}

/// A structured JSON log line, when the line is one with a message.
pub fn parse_json_log_line(message: &str, path: &str, timestamp: i64) -> (r: Option<LogEntry>)
    ensures
        match r {
            Some(e) => json_line_record(message@, path@, timestamp) == Some(e@),
            None => json_line_record(message@, path@, timestamp) is None,
        },
{
    let text_keys: &[&str] = &["message", "msg", "event", "log"];
    assert(text_keys@.map_values(|k: &str| k@) =~= seq!["message"@, "msg"@, "event"@, "log"@]);
    let text = match json_first(message, text_keys) {
        Some(t) => t,
        None => return None,
    };
    let level_keys: &[&str] = &["level", "severity", "lvl"];
    assert(level_keys@.map_values(|k: &str| k@) =~= seq!["level"@, "severity"@, "lvl"@]);
    let level = match json_first(message, level_keys) {
        Some(l) => l,
        None => String::new(),
    };
    let source_keys: &[&str] = &["logger", "component", "service", "target"];
    assert(source_keys@.map_values(|k: &str| k@) =~= seq!["logger"@, "component"@, "service"@, "target"@]);
    let source = match json_first(message, source_keys) {
        Some(s) => s,
        None => infer_source(path, text.as_str()),
    };
    Some(
        LogEntry {
            timestamp,
            level: infer_level(level.as_str()),
            source,
            origin: path.to_string(),
            message: text,
        },
    )
}

/// An nginx-looking line (the message or path names nginx, or the message has
/// a `[`): `[error]`/`[crit]` are critical, `[warn]` a warning, otherwise the
/// level is read from the words.
pub open spec fn nginx_line_record(message: Seq<char>, path: Seq<char>, timestamp: i64) -> Option<
    LogRecord,
> {
    if !(has_substring(message, "nginx"@) || has_substring(path, "nginx"@) || has_substring(
        message,
        "["@,
    )) {
        None
    } else {
        let level = if has_substring(message, "[error]"@) || has_substring(message, "[crit]"@) {
            AlertLevel::Critical
        } else if has_substring(message, "[warn]"@) {
            AlertLevel::Warning
        } else {
            level_of_text(message)
        };
        Some(LogRecord { timestamp, level, source: "nginx"@, origin: path, message })
    }
}

/// An nginx-style line, when the line or its path looks like one.
pub fn parse_nginx_log_line(message: &str, path: &str, timestamp: i64) -> (r: Option<LogEntry>)
    ensures
        match r {
            Some(e) => nginx_line_record(message@, path@, timestamp) == Some(e@),
            None => nginx_line_record(message@, path@, timestamp) is None,
        },
{
    if !(str_contains(message, "nginx") || str_contains(path, "nginx") || str_contains(
        message,
        "[",
    )) {
        return None;
    }
    let level = if str_contains(message, "[error]") || str_contains(message, "[crit]") {
        AlertLevel::Critical
    } else if str_contains(message, "[warn]") {
        AlertLevel::Warning
    } else {
        infer_level(message)
    };
    Some(
        LogEntry {
            timestamp,
            level,
            source: "nginx".to_string(),
            origin: path.to_string(),
            message: message.to_string(),
        },
    )
}

/// A line read from a file: JSON first, then nginx, else a plain entry whose
/// level and source are guessed.
pub open spec fn file_line_record(message: Seq<char>, path: Seq<char>, timestamp: i64) -> LogRecord {
    match json_line_record(message, path, timestamp) {
        Some(r) => r,
        None => match nginx_line_record(message, path, timestamp) {
            Some(r) => r,
            None => LogRecord {
                timestamp,
                level: level_of_text(message),
                source: source_of(path, message),
                origin: path,
                message,
            },
        },
    }
}

/// A file log line: JSON, else nginx, else plain text.
pub fn parse_file_log_line(message: &str, path: &str, timestamp: i64) -> (r: LogEntry)
    ensures
        r@ == file_line_record(message@, path@, timestamp),
{
    if let Some(entry) = parse_json_log_line(message, path, timestamp) {
        return entry;
    }
    if let Some(entry) = parse_nginx_log_line(message, path, timestamp) {
        return entry;
    }
    LogEntry {
        timestamp,
        level: infer_level(message),
        source: infer_source(path, message),
        origin: path.to_string(),
        message: message.to_string(),
    }
}

// ---------------------------------------------------------------------------
// System journals
// ---------------------------------------------------------------------------
/// Integer division rounding toward zero, as `/` on `i64` does.
pub open spec fn div_toward_zero(a: int, b: int) -> int {
    if a >= 0 {
        a / b
    } else {
        -((-a) / b)
    }
}

/// The record of one `journalctl -o json` line: it needs a `MESSAGE`; the
/// time is `__REALTIME_TIMESTAMP` in whole seconds (else `now`), the level
/// comes from `PRIORITY`, the source from `SYSLOG_IDENTIFIER`, `_COMM` or
/// `_SYSTEMD_UNIT` (else `journal`), the origin from the unit or transport.
pub open spec fn journal_record(line: Seq<char>, now: i64) -> Option<LogRecord> {
    match json_field_text(line, "MESSAGE"@) {
        None => None,
        Some(message) => {
            let timestamp = match json_field_text(line, "__REALTIME_TIMESTAMP"@) {
                Some(m) => match parse_signed_spec(m, i64::MIN as int, i64::MAX as int) {
                    Some(v) => div_toward_zero(v, 1_000_000) as i64,
                    None => now,
                },
                None => now,
            };
            let priority = match json_field_text(line, "PRIORITY"@) {
                Some(p) => match parse_unsigned_spec(p, 255) {
                    Some(v) => Some(v as u8),
                    None => None,
                },
                None => None,
            };
            let source = match first_field(
                line,
                seq!["SYSLOG_IDENTIFIER"@, "_COMM"@, "_SYSTEMD_UNIT"@],
            ) {
                Some(s) => s,
                None => "journal"@,
            };
            let origin = match json_field_text(line, "_SYSTEMD_UNIT"@) {
                Some(unit) => "journalctl/"@ + unit,
                None => match json_field_text(line, "_TRANSPORT"@) {
                    Some(t) => "journalctl/"@ + t,
                    None => "journalctl"@,
                },
            };
            Some(
                LogRecord {
                    timestamp,
                    level: level_of_priority(priority),
                    source,
                    origin,
                    message,
                },
            )
        },
    }
}

/// A journal line is an entry exactly when it has a `MESSAGE`, whose text
/// the entry carries; a priority of 0 to 3 makes it critical and 4 a
/// warning; its source is `SYSLOG_IDENTIFIER` when present (else `_COMM`,
/// else the unit, else "journal"); its origin names the unit when present;
/// without a realtime stamp it takes the given time.
pub proof fn lemma_journal_fields(line: Seq<char>, now: i64, p: Seq<char>)
    ensures
        json_field_text(line, "MESSAGE"@) is None <==> journal_record(line, now) is None,
        json_field_text(line, "MESSAGE"@) matches Some(m) ==> journal_record(line, now)->0.message
            == m,
        parse_unsigned_spec(p, 255) matches Some(v) ==> (json_field_text(line, "PRIORITY"@) == Some(p)
            && journal_record(line, now) is Some ==> (v <= 3 ==> journal_record(line, now)->0.level
            == AlertLevel::Critical) && (v == 4 ==> journal_record(line, now)->0.level
            == AlertLevel::Warning)),
        json_field_text(line, "PRIORITY"@) is None && journal_record(line, now) is Some
            ==> journal_record(line, now)->0.level == AlertLevel::Info,
        json_field_text(line, "SYSLOG_IDENTIFIER"@) matches Some(s) ==> (journal_record(line, now) is Some
            ==> journal_record(line, now)->0.source == s),
        json_field_text(line, "_SYSTEMD_UNIT"@) matches Some(u) ==> (journal_record(line, now) is Some
            ==> journal_record(line, now)->0.origin == "journalctl/"@ + u),
        json_field_text(line, "__REALTIME_TIMESTAMP"@) is None && journal_record(line, now) is Some
            ==> journal_record(line, now)->0.timestamp == now,
{
    let ks = seq!["SYSLOG_IDENTIFIER"@, "_COMM"@, "_SYSTEMD_UNIT"@];
    assert(ks[0] == "SYSLOG_IDENTIFIER"@);
    let body = if p.len() > 0 && p[0] == '+' {
        p.drop_first()
    } else {
        p
    };
    if is_digit_run(body) {
        lemma_digits_nonnegative(body);
    }
}

proof fn lemma_digits_nonnegative(s: Seq<char>)
    requires
        forall|k: int| 0 <= k < s.len() ==> is_ascii_digit(#[trigger] s[k]),
    ensures
        digits_value(s) >= 0,
    decreases s.len(),
{
    if s.len() > 0 {
        lemma_digits_nonnegative(s.drop_last());
        assert(is_ascii_digit(s[s.len() - 1]));
    }
}

fn prefixed(prefix: &str, rest: &str) -> (r: String)
    ensures
        r@ == prefix@ + rest@,
{
    let mut s = prefix.to_string();
    crate::text::append_str(&mut s, rest);
    s
}

fn micros_to_seconds(v: i64) -> (r: i64)
    ensures
        r == div_toward_zero(v as int, 1_000_000),
{
    if v >= 0 {
        v / 1_000_000
    } else if v == i64::MIN {
        -9223372036854
    } else {
        -((-v) / 1_000_000)
    }
}

/// The source of a journal record: identifier, command, unit, or `journal`.
pub fn linux_source(line: &str) -> (r: String)
    ensures
        r@ == (match first_field(
            line@,
            seq!["SYSLOG_IDENTIFIER"@, "_COMM"@, "_SYSTEMD_UNIT"@],
        ) {
            Some(s) => s,
            None => "journal"@,
        }),
{
    let source_keys: &[&str] = &["SYSLOG_IDENTIFIER", "_COMM", "_SYSTEMD_UNIT"];
    assert(source_keys@.map_values(|k: &str| k@) =~= seq!["SYSLOG_IDENTIFIER"@, "_COMM"@, "_SYSTEMD_UNIT"@]);
    match json_first(line, source_keys) {
        Some(s) => s,
        None => "journal".to_string(),
    }
}

/// The origin of a journal record: its unit, else its transport.
pub fn linux_origin(line: &str) -> (r: String)
    ensures
        r@ == (match json_field_text(line@, "_SYSTEMD_UNIT"@) {
            Some(unit) => "journalctl/"@ + unit,
            None => match json_field_text(line@, "_TRANSPORT"@) {
                Some(t) => "journalctl/"@ + t,
                None => "journalctl"@,
            },
        }),
{
    if let Some(unit) = json_field(line, "_SYSTEMD_UNIT") {
        return prefixed("journalctl/", unit.as_str());
    }
    if let Some(transport) = json_field(line, "_TRANSPORT") {
        return prefixed("journalctl/", transport.as_str());
    }
    "journalctl".to_string()
}

/// One `journalctl -o json` line, when it holds a message.
pub fn parse_journal_line(line: &str, now: i64) -> (r: Option<LogEntry>)
    ensures
        match r {
            Some(e) => journal_record(line@, now) == Some(e@),
            None => journal_record(line@, now) is None,
        },
{
    let message = match json_field(line, "MESSAGE") {
        Some(m) => m,
        None => return None,
    };
    let timestamp = match json_field(line, "__REALTIME_TIMESTAMP") {
        Some(m) => match parse_i64(&chars_of(m.as_str())) {
            Some(v) => micros_to_seconds(v),
            None => now,
        },
        None => now,
    };
    let priority = match json_field(line, "PRIORITY") {
        Some(p) => parse_u8(&chars_of(p.as_str())),
        None => None,
    };
    Some(
        LogEntry {
            timestamp,
            level: priority_to_level(priority),
            source: linux_source(line),
            origin: linux_origin(line),
            message,
        },
    )
}

/// The arguments of the `journalctl` call that reads the journal of the last
/// `window_secs` seconds, priorities info to emergency, at most `max_entries`
/// records, as JSON.
pub open spec fn journal_args_spec(window_secs: u64, max_entries: usize) -> Seq<Seq<char>> {
    seq![
        "--since"@,
        "-"@ + decimal(window_secs as nat) + " seconds"@,
        "-p"@,
        "info..emerg"@,
        "-o"@,
        "json"@,
        "--no-pager"@,
        "-n"@,
        decimal(max_entries as nat),
    ]
}

/// The `journalctl` arguments for a time window and an entry limit.
pub fn journal_args(window_secs: u64, max_entries: usize) -> (r: Vec<String>)
    ensures
        r@.map_values(|a: String| a@) == journal_args_spec(window_secs, max_entries),
{
    let mut since = String::new();
    append_str(&mut since, "-");
    push_decimal(&mut since, window_secs);
    append_str(&mut since, " seconds");
    let mut r: Vec<String> = Vec::new();
    r.push("--since".to_string());
    r.push(since);
    r.push("-p".to_string());
    r.push("info..emerg".to_string());
    r.push("-o".to_string());
    r.push("json".to_string());
    r.push("--no-pager".to_string());
    r.push("-n".to_string());
    r.push(decimal_string(max_entries as u64));
    assert(r@.map_values(|a: String| a@) =~= journal_args_spec(window_secs, max_entries));
    r
}

/// The records of every line of a `journalctl -o json` output that has one.
pub open spec fn journal_records(output: Seq<char>, now: i64) -> Seq<LogRecord> {
    lines_spec(output).filter_map(|line: Seq<char>| journal_record(line, now))
}

/// The records of a whole `journalctl -o json` output.
pub fn parse_journal_output(output: &str, now: i64) -> (r: Vec<LogEntry>)
    ensures
        r@.len() == journal_records(output@, now).len(),
        forall|k: int| 0 <= k < r@.len() ==> #[trigger] r@[k]@ == journal_records(output@, now)[k],
{
    let lines = split_lines(output);
    let ghost ls = lines_spec(output@);
    let ghost f = |line: Seq<char>| journal_record(line, now);
    let mut out: Vec<LogEntry> = Vec::new();
    for i in 0..lines.len()
        invariant
            lines@.len() == ls.len(),
            ls == lines_spec(output@),
            f == (|line: Seq<char>| journal_record(line, now)),
            forall|k: int| 0 <= k < lines@.len() ==> #[trigger] lines@[k]@ == ls[k],
            out@.len() == ls.take(i as int).filter_map(f).len(),
            forall|k: int| 0 <= k < out@.len() ==> #[trigger] out@[k]@ == ls.take(i as int).filter_map(f)[k],
    {
        assert(ls.take(i + 1).drop_last() == ls.take(i as int));
        assert(ls.take(i + 1).last() == lines@[i as int]@);
        let ghost prev = ls.take(i as int).filter_map(f);
        match parse_journal_line(lines[i].as_str(), now) {
            Some(e) => {
                out.push(e);
                assert(ls.take(i + 1).filter_map(f) == prev + seq![e@]);
            },
            None => {},
        }
    }
    assert(ls.take(lines.len() as int) == ls);
    out
}

/// Seconds of an RFC 3339 event time, or `now` when it does not parse.
pub open spec fn event_seconds(value: Seq<char>, now: i64) -> i64 {
    match rfc3339_seconds(value) {
        Some(v) => v as i64,
        None => now,
    }
}

/// Seconds of an RFC 3339 time, or `now` when it does not parse.
pub fn parse_event_timestamp(value: &str, now: i64) -> (r: i64)
    ensures
        r == event_seconds(value@, now),
{
    match parse_rfc3339_seconds(value) {
        Some(v) => v,
        None => now,
    }
}

// ---------------------------------------------------------------------------
// Path patterns
// ---------------------------------------------------------------------------
/// A pattern that names no wildcard is a plain path.
pub open spec fn is_plain_pattern(pattern: Seq<char>) -> bool {
    !pattern.contains('*') && !pattern.contains('?')
}

/// The pattern names no wildcard.
pub fn is_plain(pattern: &str) -> (r: bool)
    ensures
        r == is_plain_pattern(pattern@),
{
    let v = chars_of(pattern);
    let mut i: usize = 0;
    while i < v.len()
        invariant
            v@ == pattern@,
            i <= v.len(),
            forall|k: int| 0 <= k < i ==> #[trigger] v@[k] != '*' && v@[k] != '?',
        decreases v.len() - i,
    {
        if v[i] == '*' || v[i] == '?' {
            assert(v@[i as int] == '*' || v@[i as int] == '?');
            return false;
        }
        i = i + 1;
    }
    true
}

/// The part of a pattern before its first wildcard, where directory walking starts.
pub open spec fn wildcard_prefix(pattern: Seq<char>) -> Seq<char> {
    if is_plain_pattern(pattern) {
        pattern
    } else {
        let i = choose|i: int|
            0 <= i < pattern.len() && (pattern[i] == '*' || pattern[i] == '?') && forall|k: int|
                0 <= k < i ==> #[trigger] pattern[k] != '*' && pattern[k] != '?';
        pattern.take(i)
    }
}

/// The part of a pattern before its first wildcard.
pub fn wildcard_prefix_of(pattern: &str) -> (r: String)
    ensures
        r@ == wildcard_prefix(pattern@),
{
    let v = chars_of(pattern);
    let mut i: usize = 0;
    while i < v.len() && !(v[i] == '*' || v[i] == '?')
        invariant
            v@ == pattern@,
            i <= v.len(),
            forall|k: int| 0 <= k < i ==> #[trigger] v@[k] != '*' && v@[k] != '?',
        decreases v.len() - i,
    {
        i = i + 1;
    }
    let mut r = String::new();
    for j in 0..i
        invariant
            i <= v.len(),
            r@ == v@.take(j as int),
    {
        crate::text::push_char(&mut r, v[j]);
        assert(v@.take(j + 1) == v@.take(j as int).push(v@[j as int]));
    }
    if i == v.len() {
        assert(v@.take(i as int) == v@);
        assert(!v@.contains('*') && !v@.contains('?')) by {
            if v@.contains('*') {
                let k = choose|k: int| 0 <= k < v@.len() && v@[k] == '*';
                assert(v@[k] != '*');
            }
            if v@.contains('?') {
                let k = choose|k: int| 0 <= k < v@.len() && v@[k] == '?';
                assert(v@[k] != '?');
            }
        }
    } else {
        assert(v@[i as int] == '*' || v@[i as int] == '?');
        let ghost c = choose|c: int|
            0 <= c < v@.len() && (v@[c] == '*' || v@[c] == '?') && forall|k: int|
                0 <= k < c ==> #[trigger] v@[k] != '*' && v@[k] != '?';
        assert(c == i) by {
            if c < i {
                assert(v@[c] != '*' && v@[c] != '?');
            }
            if c > i {
                assert(v@[i as int] != '*' && v@[i as int] != '?');
            }
        }
        assert(v@.contains(v@[i as int]));
    }
    r
}

/// A path matches a wildcard pattern, byte for byte.
pub fn wildcard_match_path(pattern: &str, path: &str) -> (r: bool)
    ensures
        r == wild_match(pattern.spec_bytes(), path.spec_bytes()),
{
    wildcard_match(pattern.as_bytes(), path.as_bytes())
}

// ---------------------------------------------------------------------------
// Incremental tailing
// ---------------------------------------------------------------------------
/// The last `max` elements of `s` (all of them when there are fewer).
pub open spec fn keep_last<T>(s: Seq<T>, max: nat) -> Seq<T> {
    if s.len() > max {
        s.skip(s.len() - max)
    } else {
        s
    }
}

/// The last `max` lines.
pub fn keep_last_lines(lines: Vec<String>, max: usize) -> (r: Vec<String>)
    ensures
        r@ == keep_last(lines@, max as nat),
{
    if lines.len() <= max {
        return lines;
    }
    let start = lines.len() - max;
    let mut src = lines;
    let mut rest = src.split_off(start);
    rest
}

/// The last `max` lines of a file's text; nothing when it could not be read.
pub open spec fn tail_of(content: Option<Seq<char>>, max: nat) -> Seq<Seq<char>> {
    match content {
        Some(c) => keep_last(lines_spec(c), max),
        None => seq![],
    }
}

/// The last `max` lines of a file's text (none when unreadable).
pub fn last_lines(content: &Option<String>, max: usize) -> (r: Vec<String>)
    ensures
        r@.len() == tail_of(content_view(*content), max as nat).len(),
        forall|k: int|
            0 <= k < r@.len() ==> #[trigger] r@[k]@ == tail_of(content_view(*content), max as nat)[k],
{
    match content {
        Some(c) => {
            let lines = split_lines(c.as_str());
            let ghost ls = lines@;
            let kept = keep_last_lines(lines, max);
            proof {
                assert forall|k: int| 0 <= k < kept@.len() implies #[trigger] kept@[k]@ == keep_last(
                    lines_spec(c@),
                    max as nat,
                )[k] by {
                    if ls.len() > max {
                        assert(kept@[k] == ls[k + (ls.len() - max)]);
                    }
                }
            }
            kept
        },
        None => Vec::new(),
    }
}

pub open spec fn content_view(content: Option<String>) -> Option<Seq<char>> {
    match content {
        Some(c) => Some(c@),
        None => None,
    }
}

/// What to read from a tailed file.
#[derive(Debug, Clone, Copy, PartialEq, Eq, Structural)]
pub enum ReadStep {
    /// No usable previous position: read the file's last lines.
    Tail,
    /// The file is shorter than the saved offset (truncated or replaced):
    /// read its last lines and count a rotation.
    TailAfterTruncation,
    /// Same size as the saved offset and same modification time: nothing new.
    Unchanged,
    /// Read the lines written after this byte offset.
    FromOffset(u64),
}

pub open spec fn read_step(previous: FileTailState, file_size: u64, modified_ts: i64) -> ReadStep {
    if previous.offset == 0 || previous.file_size == 0 {
        ReadStep::Tail
    } else if file_size < previous.offset {
        ReadStep::TailAfterTruncation
    } else if file_size == previous.offset && previous.modified_ts == modified_ts {
        ReadStep::Unchanged
    } else {
        ReadStep::FromOffset(previous.offset)
    }
}

/// What to read from a tailed file, given where the last read stopped.
pub fn plan_read(previous: &FileTailState, file_size: u64, modified_ts: i64) -> (r: ReadStep)
    ensures
        r == read_step(*previous, file_size, modified_ts),
{
    if previous.offset == 0 || previous.file_size == 0 {
        ReadStep::Tail
    } else if file_size < previous.offset {
        ReadStep::TailAfterTruncation
    } else if file_size == previous.offset && previous.modified_ts == modified_ts {
        ReadStep::Unchanged
    } else {
        ReadStep::FromOffset(previous.offset)
    }
}

/// What the reader found when it carried out a step.
#[derive(Debug)]
pub enum ReadOutcome {
    /// The whole text of the file, for a tail step (`None`: unreadable).
    Whole(Option<String>),
    /// Nothing was read.
    Nothing,
    /// The file could not be opened at the offset.
    OpenFailed,
    /// Seeking to the offset failed; the whole text of the file, for the fallback tail.
    SeekFailed(Option<String>),
    /// The lines read after the offset, each as read (line ending included).
    Appended(Vec<String>),
}

/// The outcome is one that the step can produce.
pub open spec fn outcome_fits(step: ReadStep, outcome: ReadOutcome) -> bool {
    match step {
        ReadStep::Tail | ReadStep::TailAfterTruncation => outcome is Whole,
        ReadStep::Unchanged => outcome is Nothing,
        ReadStep::FromOffset(_) => outcome is OpenFailed || outcome is SeekFailed
            || outcome is Appended,
    }
}

/// Lines, new position and rotation flag of one read.
#[derive(Debug)]
pub struct ReadResult {
    pub lines: Vec<String>,
    pub state: FileTailState,
    pub rotated: bool,
}

pub open spec fn appended_lines(raw: Seq<String>, max: nat) -> Seq<Seq<char>> {
    keep_last(raw.map_values(|l: String| trim_line_end_spec(l@)), max)
}

/// The lines of one read: a tail keeps the last `max` lines of the text, an
/// incremental read the last `max` lines written after the offset, without
/// line endings.
pub open spec fn read_lines(outcome: ReadOutcome, max: nat) -> Seq<Seq<char>> {
    match outcome {
        ReadOutcome::Whole(c) => tail_of(content_view(c), max),
        ReadOutcome::SeekFailed(c) => tail_of(content_view(c), max),
        ReadOutcome::Appended(raw) => appended_lines(raw@, max),
        _ => seq![],
    }
}

/// The saved position after a read: the end of the file, except when the file
/// could not be opened, where the old offset is kept.
pub open spec fn read_state(
    step: ReadStep,
    outcome: ReadOutcome,
    file_size: u64,
    modified_ts: i64,
) -> FileTailState {
    match (step, outcome) {
        (ReadStep::FromOffset(offset), ReadOutcome::OpenFailed) => FileTailState {
            offset,
            file_size,
            modified_ts,
        },
        _ => FileTailState { offset: file_size, file_size, modified_ts },
    }
}

/// A read counts as a rotation after a truncation or a failed seek.
pub open spec fn read_rotated(step: ReadStep, outcome: ReadOutcome) -> bool {
    step == ReadStep::TailAfterTruncation || outcome is SeekFailed
}

/// The lines, new position and rotation flag of a read the caller carried out.
pub fn finish_read(
    step: ReadStep,
    outcome: ReadOutcome,
    file_size: u64,
    modified_ts: i64,
    max_lines: usize,
) -> (r: ReadResult)
    requires
        outcome_fits(step, outcome),
    ensures
        r.lines@.len() == read_lines(outcome, max_lines as nat).len(),
        forall|k: int|
            0 <= k < r.lines@.len() ==> #[trigger] r.lines@[k]@ == read_lines(
                outcome,
                max_lines as nat,
            )[k],
        r.state == read_state(step, outcome, file_size, modified_ts),
        r.rotated == read_rotated(step, outcome),
{
    let rotated = step == ReadStep::TailAfterTruncation;
    let end_state = FileTailState { offset: file_size, file_size, modified_ts };
    match outcome {
        ReadOutcome::Whole(content) => ReadResult {
            lines: last_lines(&content, max_lines),
            state: end_state,
            rotated,
        },
        ReadOutcome::Nothing => ReadResult { lines: Vec::new(), state: end_state, rotated },
        ReadOutcome::OpenFailed => {
            let offset = match step {
                ReadStep::FromOffset(offset) => offset,
                _ => file_size,
            };
            ReadResult {
                lines: Vec::new(),
                state: FileTailState { offset, file_size, modified_ts },
                rotated,
            }
        },
        ReadOutcome::SeekFailed(content) => ReadResult {
            lines: last_lines(&content, max_lines),
            state: end_state,
            rotated: true,
        },
        ReadOutcome::Appended(raw) => {
            let ghost rv = raw@;
            let mut lines: Vec<String> = Vec::new();
            for i in 0..raw.len()
                invariant
                    rv == raw@,
                    lines@.len() == i,
                    forall|k: int| 0 <= k < i ==> #[trigger] lines@[k]@ == trim_line_end_spec(rv[k]@),
            {
                lines.push(trim_line_end(raw[i].as_str()));
            }
            let ghost all = lines@;
            let kept = keep_last_lines(lines, max_lines);
            proof {
                let want = appended_lines(rv, max_lines as nat);
                let mapped = rv.map_values(|l: String| trim_line_end_spec(l@));
                assert forall|k: int| 0 <= k < kept@.len() implies #[trigger] kept@[k]@ == want[k] by {
                    if all.len() > max_lines {
                        assert(kept@[k] == all[k + (all.len() - max_lines)]);
                        assert(want[k] == mapped[k + (all.len() - max_lines)]);
                    } else {
                        assert(want[k] == mapped[k]);
                    }
                }
            }
            ReadResult { lines: kept, state: end_state, rotated }
        },
    }
}

// ---------------------------------------------------------------------------
// Saved positions of the tailed files
// ---------------------------------------------------------------------------
pub open spec fn no_duplicate_paths(entries: Seq<(String, FileTailState)>) -> bool {
    forall|i: int, j: int|
        0 <= i < j < entries.len() ==> (#[trigger] entries[i]).0@ != (#[trigger] entries[j]).0@
}

/// Saved reading positions, one per path.
pub struct TailStates {
    entries: Vec<(String, FileTailState)>,
}

impl TailStates {
    #[verifier::type_invariant]
    spec fn inv(self) -> bool {
        no_duplicate_paths(self.entries@)
    }

    /// Path and position pairs, in insertion order.
    pub closed spec fn pairs(self) -> Seq<(String, FileTailState)> {
        self.entries@
    }

    /// Positions by path.
    pub closed spec fn positions(self) -> Map<Seq<char>, FileTailState> {
        Map::new(
            |k: Seq<char>| exists|i: int| 0 <= i < self.entries@.len() && self.entries@[i].0@ == k,
            |k: Seq<char>|
                {
                    let i = choose|i: int| 0 <= i < self.entries@.len() && self.entries@[i].0@ == k;
                    self.entries@[i].1
                },
        )
    }

    /// No saved positions.
    pub fn new() -> (r: Self)
        ensures
            r.positions() == Map::<Seq<char>, FileTailState>::empty(),
    {
        let r = TailStates { entries: Vec::new() };
        assert(r.positions() =~= Map::<Seq<char>, FileTailState>::empty());
        r
    }

    fn find(&self, path: &str) -> (r: Option<usize>)
        ensures
            match r {
                Some(i) => i < self.entries@.len() && self.entries@[i as int].0@ == path@,
                None => forall|i: int| 0 <= i < self.entries@.len() ==> self.entries@[i].0@ != path@,
            },
    {
        let p = chars_of(path);
        for i in 0..self.entries.len()
            invariant
                p@ == path@,
                forall|k: int| 0 <= k < i ==> self.entries@[k].0@ != path@,
        {
            if chars_eq(&chars_of(self.entries[i].0.as_str()), &p) {
                return Some(i);
            }
        }
        None
    }

    /// The saved position of a path.
    pub fn get(&self, path: &str) -> (r: Option<FileTailState>)
        ensures
            r == (if self.positions().contains_key(path@) {
                Some(self.positions()[path@])
            } else {
                None
            }),
    {
        proof {
            use_type_invariant(self);
        }
        match self.find(path) {
            Some(i) => {
                assert(self.positions().contains_key(path@));
                let ghost j = choose|j: int| 0 <= j < self.entries@.len() && self.entries@[j].0@ == path@;
                assert(j == i) by {
                    if j != i as int {
                        if j < i {
                            assert(self.entries@[j].0@ != self.entries@[i as int].0@);
                        } else {
                            assert(self.entries@[i as int].0@ != self.entries@[j].0@);
                        }
                    }
                }
                Some(self.entries[i].1)
            },
            None => None,
        }
    }

    /// Saves the position of a path, replacing any earlier one.
    pub fn insert(&mut self, path: String, state: FileTailState)
        ensures
            final(self).positions() == old(self).positions().insert(path@, state),
    {
        proof {
            use_type_invariant(&*self);
        }
        let ghost old_pos = self.positions();
        let ghost pv = path@;
        match self.find(path.as_str()) {
            Some(i) => {
                let mut entries: Vec<(String, FileTailState)> = Vec::new();
                std::mem::swap(&mut entries, &mut self.entries);
                let ghost before = entries@;
                entries.set(i, (path, state));
                assert(no_duplicate_paths(entries@)) by {
                    assert forall|a: int, b: int| 0 <= a < b < entries@.len() implies (
                    #[trigger] entries@[a]).0@ != (#[trigger] entries@[b]).0@ by {
                        if a == i {
                            assert(before[b].0@ != before[i as int].0@);
                        } else if b == i {
                            assert(before[a].0@ != before[i as int].0@);
                        } else {
                            assert(entries@[a] == before[a] && entries@[b] == before[b]);
                        }
                    }
                }
                self.entries = entries;
                proof {
                    let np = self.positions();
                    assert forall|k: Seq<char>| #[trigger] np.contains_key(k) == old_pos.insert(
                        pv,
                        state,
                    ).contains_key(k) by {
                        if k != pv {
                            if np.contains_key(k) {
                                let j = choose|j: int| 0 <= j < self.entries@.len() && self.entries@[j].0@ == k;
                                assert(before[j].0@ == k);
                            }
                            if old_pos.contains_key(k) {
                                let j = choose|j: int| 0 <= j < before.len() && before[j].0@ == k;
                                assert(self.entries@[j].0@ == k);
                            }
                        } else {
                            assert(self.entries@[i as int].0@ == pv);
                        }
                    }
                    assert forall|k: Seq<char>| #[trigger] np.contains_key(k) implies np[k]
                        == old_pos.insert(pv, state)[k] by {
                        let j = choose|j: int| 0 <= j < self.entries@.len() && self.entries@[j].0@ == k;
                        if k != pv {
                            assert(j != i);
                            assert(before[j].0@ == k);
                            let j0 = choose|j0: int| 0 <= j0 < before.len() && before[j0].0@ == k;
                            if j0 != j {
                                if j0 < j {
                                    assert(before[j0].0@ != before[j].0@);
                                } else {
                                    assert(before[j].0@ != before[j0].0@);
                                }
                            }
                        } else {
                            if j != i {
                                if j < i {
                                    assert(self.entries@[j].0@ != self.entries@[i as int].0@);
                                } else {
                                    assert(self.entries@[i as int].0@ != self.entries@[j].0@);
                                }
                            }
                        }
                    }
                    assert(np =~= old_pos.insert(pv, state));
                }
            },
            None => {
                let mut entries: Vec<(String, FileTailState)> = Vec::new();
                std::mem::swap(&mut entries, &mut self.entries);
                let ghost before = entries@;
                entries.push((path, state));
                assert(no_duplicate_paths(entries@)) by {
                    assert forall|a: int, b: int| 0 <= a < b < entries@.len() implies (
                    #[trigger] entries@[a]).0@ != (#[trigger] entries@[b]).0@ by {
                        if b == before.len() {
                            assert(before[a].0@ != pv);
                        } else {
                            assert(entries@[a] == before[a] && entries@[b] == before[b]);
                        }
                    }
                }
                self.entries = entries;
                proof {
                    let np = self.positions();
                    let n = before.len() as int;
                    assert forall|k: Seq<char>| #[trigger] np.contains_key(k) == old_pos.insert(
                        pv,
                        state,
                    ).contains_key(k) by {
                        if np.contains_key(k) && k != pv {
                            let j = choose|j: int| 0 <= j < self.entries@.len() && self.entries@[j].0@ == k;
                            assert(j != n);
                            assert(before[j].0@ == k);
                        }
                        if old_pos.contains_key(k) {
                            let j = choose|j: int| 0 <= j < before.len() && before[j].0@ == k;
                            assert(self.entries@[j].0@ == k);
                        }
                        if k == pv {
                            assert(self.entries@[n].0@ == pv);
                        }
                    }
                    assert forall|k: Seq<char>| #[trigger] np.contains_key(k) implies np[k]
                        == old_pos.insert(pv, state)[k] by {
                        let j = choose|j: int| 0 <= j < self.entries@.len() && self.entries@[j].0@ == k;
                        if k != pv {
                            assert(j != n);
                            let j0 = choose|j0: int| 0 <= j0 < before.len() && before[j0].0@ == k;
                            assert(before[j].0@ == k);
                            if j0 != j {
                                if j0 < j {
                                    assert(before[j0].0@ != before[j].0@);
                                } else {
                                    assert(before[j].0@ != before[j0].0@);
                                }
                            }
                        } else {
                            if j != n {
                                assert(before[j].0@ != pv);
                            }
                        }
                    }
                    assert(np =~= old_pos.insert(pv, state));
                }
            },
        }
    }

    /// Forgets the positions of every path not in `keep`.
    pub fn retain_paths(&mut self, keep: &Vec<String>)
        ensures
            final(self).positions() == old(self).positions().restrict(
                Set::new(|k: Seq<char>| exists|i: int| 0 <= i < keep@.len() && keep@[i]@ == k),
            ),
    {
        proof {
            use_type_invariant(&*self);
        }
        let ghost old_pos = self.positions();
        let ghost ks = Set::new(|k: Seq<char>| exists|i: int| 0 <= i < keep@.len() && keep@[i]@ == k);
        let mut entries: Vec<(String, FileTailState)> = Vec::new();
        std::mem::swap(&mut entries, &mut self.entries);
        let ghost before = entries@;
        let mut kept: Vec<(String, FileTailState)> = Vec::new();
        let ghost mut idx: Seq<int> = seq![];
        for i in 0..entries.len()
            invariant
                before == entries@,
                ks == Set::new(|k: Seq<char>| exists|i: int| 0 <= i < keep@.len() && keep@[i]@ == k),
                no_duplicate_paths(before),
                kept@.len() == idx.len(),
                forall|a: int| 0 <= a < idx.len() ==> 0 <= #[trigger] idx[a] < i && kept@[a] == before[idx[a]],
                forall|a: int, b: int| 0 <= a < b < idx.len() ==> #[trigger] idx[a] < #[trigger] idx[b],
                forall|j: int|
                    0 <= j < i ==> (ks.contains(before[j].0@) <==> exists|a: int|
                        0 <= a < idx.len() && #[trigger] idx[a] == j),
        {
            let ghost old_idx = idx;
            let mut wanted = false;
            let p = chars_of(entries[i].0.as_str());
            for k in 0..keep.len()
                invariant
                    i < before.len(),
                    p@ == before[i as int].0@,
                    ks == Set::new(|k: Seq<char>| exists|i: int| 0 <= i < keep@.len() && keep@[i]@ == k),
                    wanted ==> ks.contains(p@),
                    !wanted ==> forall|m: int| 0 <= m < k ==> keep@[m]@ != p@,
            {
                if chars_eq(&chars_of(keep[k].as_str()), &p) {
                    assert(keep@[k as int]@ == p@);
                    wanted = true;
                }
            }
            if wanted {
                kept.push((entries[i].0.clone(), entries[i].1));
                proof {
                    idx = idx.push(i as int);
                }
            } else {
                assert(!ks.contains(p@)) by {
                    if ks.contains(p@) {
                        let m = choose|m: int| 0 <= m < keep@.len() && keep@[m]@ == p@;
                        assert(keep@[m]@ != p@);
                    }
                }
            }
            proof {
                assert forall|j: int| 0 <= j < i + 1 implies (ks.contains(before[j].0@) <==> exists|a: int|
                    0 <= a < idx.len() && #[trigger] idx[a] == j) by {
                    if j < i {
                        if exists|a: int| 0 <= a < old_idx.len() && #[trigger] old_idx[a] == j {
                            let a = choose|a: int| 0 <= a < old_idx.len() && #[trigger] old_idx[a] == j;
                            assert(idx[a] == old_idx[a]);
                        }
                        if exists|a: int| 0 <= a < idx.len() && #[trigger] idx[a] == j {
                            let a = choose|a: int| 0 <= a < idx.len() && #[trigger] idx[a] == j;
                            if a < old_idx.len() {
                                assert(old_idx[a] == j);
                            } else {
                                assert(idx[a] == i);
                            }
                        }
                    } else if wanted {
                        assert(idx[idx.len() - 1] == i);
                    } else {
                        if exists|a: int| 0 <= a < idx.len() && #[trigger] idx[a] == j {
                            let a = choose|a: int| 0 <= a < idx.len() && #[trigger] idx[a] == j;
                            assert(idx[a] < i);
                        }
                    }
                }
            }
        }
        assert(no_duplicate_paths(kept@)) by {
            assert forall|a: int, b: int| 0 <= a < b < kept@.len() implies (#[trigger] kept@[a]).0@
                != (#[trigger] kept@[b]).0@ by {
                assert(idx[a] < idx[b]);
            }
        }
        self.entries = kept;
        proof {
            let np = self.positions();
            let want = old_pos.restrict(ks);
            assert forall|k: Seq<char>| #[trigger] np.contains_key(k) == want.contains_key(k) by {
                if np.contains_key(k) {
                    let a = choose|a: int| 0 <= a < kept@.len() && kept@[a].0@ == k;
                    assert(before[idx[a]].0@ == k);
                }
                if want.contains_key(k) {
                    let j = choose|j: int| 0 <= j < before.len() && before[j].0@ == k;
                    let a = choose|a: int| 0 <= a < idx.len() && #[trigger] idx[a] == j;
                    assert(kept@[a].0@ == k);
                }
            }
            assert forall|k: Seq<char>| #[trigger] np.contains_key(k) implies np[k] == want[k] by {
                let a = choose|a: int| 0 <= a < kept@.len() && kept@[a].0@ == k;
                let j0 = choose|j0: int| 0 <= j0 < before.len() && before[j0].0@ == k;
                assert(before[idx[a]].0@ == k);
                if j0 != idx[a] {
                    if j0 < idx[a] {
                        assert(before[j0].0@ != before[idx[a]].0@);
                    } else {
                        assert(before[idx[a]].0@ != before[j0].0@);
                    }
                }
            }
            assert(np =~= want);
        }
    }

    /// Consumes the positions, as path and position pairs.
    /// Every saved position once, with its path.
    pub fn into_pairs(self) -> (r: Vec<(String, FileTailState)>)
        ensures
            r@ == self.pairs(),
            no_duplicate_paths(r@),
            forall|i: int|
                0 <= i < r@.len() ==> self.positions().contains_key((#[trigger] r@[i]).0@)
                    && self.positions()[r@[i].0@] == r@[i].1,
            forall|k: Seq<char>|
                #[trigger] self.positions().contains_key(k) ==> exists|i: int|
                    0 <= i < r@.len() && r@[i].0@ == k,
    {
        proof {
            use_type_invariant(&self);
            let e = self.entries@;
            assert forall|i: int| 0 <= i < e.len() implies self.positions().contains_key(
                (#[trigger] e[i]).0@,
            ) && self.positions()[e[i].0@] == e[i].1 by {
                let k = e[i].0@;
                assert(self.positions().contains_key(k));
                let j = choose|j: int| 0 <= j < e.len() && e[j].0@ == k;
                if j < i {
                    assert(e[j].0@ != e[i].0@);
                } else if i < j {
                    assert(e[i].0@ != e[j].0@);
                }
            }
        }
        self.entries
    }
}

// ---------------------------------------------------------------------------
// Choosing the files of a pass and collecting their lines
// ---------------------------------------------------------------------------
/// A file found by a pattern, with what its metadata says.
#[derive(Debug)]
pub struct FileCandidate {
    pub path: String,
    /// Modification time, in nanoseconds from the Unix epoch (negative before it).
    pub modified_nanos: i128,
    pub file_size: u64,
    /// Modification time in whole seconds.
    pub modified_ts: i64,
    pub is_file: bool,
}

/// A file chosen for reading in this pass.
#[derive(Debug)]
pub struct TailTarget {
    pub path: String,
    /// It changed since the last pass (or was never read).
    pub active: bool,
    pub modified_nanos: i128,
    pub file_size: u64,
    pub modified_ts: i64,
}

/// A sorted path list without its repeats, as `Vec::dedup` leaves it: each
/// path is kept unless it equals the last one kept.
pub open spec fn dedup_adjacent(s: Seq<Seq<char>>) -> Seq<Seq<char>>
    decreases s.len(),
{
    if s.len() == 0 {
        seq![]
    } else {
        let r = dedup_adjacent(s.drop_last());
        if r.len() > 0 && path_equal(r.last(), s.last()) {
            r
        } else {
            r.push(s.last())
        }
    }
}

/// Removes repeated paths from a sorted list, keeping the first of each run.
pub fn dedup_paths(paths: Vec<String>) -> (r: Vec<String>)
    ensures
        r@.map_values(|p: String| p@) == dedup_adjacent(paths@.map_values(|p: String| p@)),
{
    let ghost pv = paths@.map_values(|p: String| p@);
    let total = paths.len();
    let mut r: Vec<String> = Vec::new();
    let mut rest = paths;
    let mut rev: Vec<String> = Vec::new();
    let ghost n = pv.len();
    while rest.len() > 0
        invariant
            rest@.len() + rev@.len() == n,
            n == pv.len(),
            n == total,
            forall|k: int| 0 <= k < rest@.len() ==> #[trigger] rest@[k]@ == pv[k],
            forall|k: int| 0 <= k < rev@.len() ==> #[trigger] rev@[k]@ == pv[n - 1 - k],
        decreases rest@.len(),
    {
        let x = rest.pop().unwrap();
        rev.push(x);
    }
    let mut i: usize = 0;
    while rev.len() > 0
        invariant
            i + rev@.len() == n,
            n == pv.len(),
            n == total,
            forall|k: int| 0 <= k < rev@.len() ==> #[trigger] rev@[k]@ == pv[n - 1 - k],
            r@.map_values(|p: String| p@) == dedup_adjacent(pv.take(i as int)),
        decreases rev@.len(),
    {
        let x = rev.pop().unwrap();
        assert(x@ == pv[i as int]);
        assert(pv.take(i + 1).drop_last() == pv.take(i as int));
        assert(pv.take(i + 1).last() == pv[i as int]);
        let ghost before = r@;
        let keep = if r.len() == 0 {
            true
        } else {
            let last = r.len() - 1;
            !same_path(r[last].as_str(), x.as_str())
        };
        if keep {
            r.push(x);
            assert(r@.map_values(|p: String| p@) =~= before.map_values(|p: String| p@).push(
                pv[i as int],
            ));
        }
        i = i + 1;
    }
    assert(pv.take(n as int) == pv);
    r
}

/// After removing repeats, no path equals the one before it.
pub proof fn lemma_dedup_no_adjacent_repeats(s: Seq<Seq<char>>, i: int)
    requires
        0 < i < dedup_adjacent(s).len(),
    ensures
        !path_equal(dedup_adjacent(s)[i - 1], dedup_adjacent(s)[i]),
    decreases s.len(),
{
    let r = dedup_adjacent(s.drop_last());
    if i < r.len() {
        lemma_dedup_no_adjacent_repeats(s.drop_last(), i);
    }
}

/// A file is active unless its saved size and modification time are unchanged.
pub open spec fn is_active(
    positions: Map<Seq<char>, FileTailState>,
    path: Seq<char>,
    file_size: u64,
    modified_ts: i64,
) -> bool {
    !positions.contains_key(path) || positions[path].file_size != file_size
        || positions[path].modified_ts != modified_ts
}

/// The recently modified regular files among the candidates, in order.
pub open spec fn recent_targets(
    candidates: Seq<FileCandidate>,
    positions: Map<Seq<char>, FileTailState>,
    threshold_nanos: i128,
) -> Seq<TailTarget> {
    candidates.filter_map(
        |c: FileCandidate|
            if c.modified_nanos < threshold_nanos || !c.is_file {
                None
            } else {
                Some(
                    TailTarget {
                        path: c.path,
                        active: is_active(positions, c.path@, c.file_size, c.modified_ts),
                        modified_nanos: c.modified_nanos,
                        file_size: c.file_size,
                        modified_ts: c.modified_ts,
                    },
                )
            },
    )
}

impl SortKey for TailTarget {
    /// Active files first, then the most recently modified.
    open spec fn key_le(self, other: Self) -> bool {
        (self.active && !other.active) || (self.active == other.active && self.modified_nanos
            >= other.modified_nanos)
    }

    proof fn lemma_key_total(a: Self, b: Self) {
    }

    proof fn lemma_key_trans(a: Self, b: Self, c: Self) {
    }

    fn key_le_exec(&self, other: &Self) -> (r: bool) {
        (self.active && !other.active) || (self.active == other.active && self.modified_nanos
            >= other.modified_nanos)
    }
}

/// The first `n` elements of `s` (all of them when there are fewer).
pub open spec fn keep_first<T>(s: Seq<T>, n: nat) -> Seq<T> {
    if s.len() > n {
        s.take(n as int)
    } else {
        s
    }
}

/// The files to read in this pass: recent regular files, active ones first
/// and then by modification time, at most `max_files` of them.
pub fn choose_tail_files(
    candidates: Vec<FileCandidate>,
    states: &TailStates,
    threshold_nanos: i128,
    max_files: usize,
) -> (r: Vec<TailTarget>)
    ensures
        exists|sorted: Seq<TailTarget>|
            stable_sorted(recent_targets(candidates@, states.positions(), threshold_nanos), sorted)
                && r@ == keep_first(sorted, max_files as nat),
{
    let ghost cands = candidates@;
    let ghost pos = states.positions();
    let ghost f = |c: FileCandidate|
        if c.modified_nanos < threshold_nanos || !c.is_file {
            None
        } else {
            Some(
                TailTarget {
                    path: c.path,
                    active: is_active(pos, c.path@, c.file_size, c.modified_ts),
                    modified_nanos: c.modified_nanos,
                    file_size: c.file_size,
                    modified_ts: c.modified_ts,
                },
            )
        };
    assert(recent_targets(cands, pos, threshold_nanos) == cands.filter_map(f));
    let n = candidates.len();
    let mut src = candidates;
    let mut rev: Vec<FileCandidate> = Vec::new();
    while src.len() > 0
        invariant
            src@.len() + rev@.len() == cands.len(),
            forall|i: int| 0 <= i < src@.len() ==> #[trigger] src@[i] == cands[i],
            forall|i: int| 0 <= i < rev@.len() ==> #[trigger] rev@[i] == cands[cands.len() - 1 - i],
        decreases src@.len(),
    {
        let c = src.pop().unwrap();
        rev.push(c);
    }
    let mut kept: Vec<TailTarget> = Vec::new();
    let mut k: usize = 0;
    while rev.len() > 0
        invariant
            n == cands.len(),
            k + rev@.len() == cands.len(),
            forall|i: int| 0 <= i < rev@.len() ==> #[trigger] rev@[i] == cands[cands.len() - 1 - i],
            kept@ == cands.take(k as int).filter_map(f),
            pos == states.positions(),
            f == (|c: FileCandidate|
                if c.modified_nanos < threshold_nanos || !c.is_file {
                    None
                } else {
                    Some(
                        TailTarget {
                            path: c.path,
                            active: is_active(pos, c.path@, c.file_size, c.modified_ts),
                            modified_nanos: c.modified_nanos,
                            file_size: c.file_size,
                            modified_ts: c.modified_ts,
                        },
                    )
                }),
        decreases rev@.len(),
    {
        let c = rev.pop().unwrap();
        assert(c == cands[k as int]);
        assert(cands.take(k + 1).drop_last() == cands.take(k as int));
        assert(cands.take(k + 1).last() == c);
        if !(c.modified_nanos < threshold_nanos || !c.is_file) {
            let active = match states.get(c.path.as_str()) {
                Some(previous) => previous.file_size != c.file_size || previous.modified_ts
                    != c.modified_ts,
                None => true,
            };
            let t = TailTarget {
                path: c.path,
                active,
                modified_nanos: c.modified_nanos,
                file_size: c.file_size,
                modified_ts: c.modified_ts,
            };
            kept.push(t);
        }
        k = k + 1;
    }
    assert(cands.take(k as int) == cands);
    let ghost unsorted = kept@;
    let mut sorted = stable_sort(kept);
    let ghost all = sorted@;
    if sorted.len() > max_files {
        sorted.truncate(max_files);
        assert(sorted@ == all.take(max_files as int));
    }
    assert(stable_sorted(recent_targets(cands, pos, threshold_nanos), all) && sorted@ == keep_first(
        all,
        max_files as nat,
    ));
    sorted
}

/// The entries of the non-blank lines of one file, each parsed after trimming.
pub open spec fn file_records(lines: Seq<Seq<char>>, path: Seq<char>, modified_ts: i64) -> Seq<
    LogRecord,
> {
    lines.filter_map(|l: Seq<char>| line_record(l, path, modified_ts))
}

#[verifier::opaque]
pub open spec fn line_record(l: Seq<char>, path: Seq<char>, ts: i64) -> Option<LogRecord> {
    if trim_spec(l).len() == 0 {
        None
    } else {
        Some(file_line_record(trim_spec(l), path, ts))
    }
}

fn entry_of_line(line: &str, path: &str, ts: i64) -> (r: Option<LogEntry>)
    ensures
        match r {
            Some(e) => line_record(line@, path@, ts) == Some(e@),
            None => line_record(line@, path@, ts) is None,
        },
{
    reveal(line_record);
    let tv = trim_chars(&chars_of(line));
    if tv.len() > 0 {
        let trimmed = string_from_chars(&tv);
        Some(parse_file_log_line(trimmed.as_str(), path, ts))
    } else {
        None
    }
}

/// Adds one file's read to the pass: its path when active, a rotation when
/// the read saw one, its new position, and the entries of its lines.
pub fn record_read(
    refresh: &mut TailRefresh,
    states: &mut TailStates,
    target: &TailTarget,
    result: ReadResult,
)
    requires
        result.rotated ==> old(refresh).rotated_files < usize::MAX,
    ensures
        final(refresh).active_files@ == (if target.active {
            old(refresh).active_files@.push(target.path)
        } else {
            old(refresh).active_files@
        }),
        final(refresh).rotated_files == old(refresh).rotated_files + (if result.rotated {
            1int
        } else {
            0
        }),
        final(states).positions() == old(states).positions().insert(target.path@, result.state),
        final(refresh).entries@.len() == old(refresh).entries@.len() + file_records(
            result.lines@.map_values(|l: String| l@),
            target.path@,
            target.modified_ts,
        ).len(),
        forall|k: int|
            0 <= k < old(refresh).entries@.len() ==> #[trigger] final(refresh).entries@[k]
                == old(refresh).entries@[k],
        forall|k: int|
            0 <= k < final(refresh).entries@.len() - old(refresh).entries@.len() ==> (
            #[trigger] final(refresh).entries@[old(refresh).entries@.len() + k])@ == file_records(
                result.lines@.map_values(|l: String| l@),
                target.path@,
                target.modified_ts,
            )[k],
{
    if target.active {
        refresh.active_files.push(target.path.clone());
    }
    if result.rotated {
        refresh.rotated_files = refresh.rotated_files + 1;
    }
    states.insert(target.path.clone(), result.state);
    let ghost lv = result.lines@.map_values(|l: String| l@);
    let ghost path = target.path@;
    let ghost ts = target.modified_ts;
    let ghost g = |l: Seq<char>| line_record(l, path, ts);
    assert(file_records(lv, path, ts) == lv.filter_map(g));
    let ghost start = refresh.entries@;
    let ghost act = refresh.active_files@;
    let ghost rot = refresh.rotated_files;
    for i in 0..result.lines.len()
        invariant
            refresh.active_files@ == act,
            refresh.rotated_files == rot,
            lv == result.lines@.map_values(|l: String| l@),
            path == target.path@,
            ts == target.modified_ts,
            g == (|l: Seq<char>| line_record(l, path, ts)),
            refresh.entries@.len() == start.len() + lv.take(i as int).filter_map(g).len(),
            forall|k: int| 0 <= k < start.len() ==> #[trigger] refresh.entries@[k] == start[k],
            forall|k: int|
                0 <= k < refresh.entries@.len() - start.len() ==> (#[trigger] refresh.entries@[start.len()
                    + k])@ == lv.take(i as int).filter_map(g)[k],
    {
        assert(lv.take(i + 1).drop_last() == lv.take(i as int));
        assert(lv.take(i + 1).last() == result.lines@[i as int]@);
        let ghost prev = lv.take(i as int).filter_map(g);
        match entry_of_line(result.lines[i].as_str(), target.path.as_str(), target.modified_ts) {
            Some(e) => {
                refresh.entries.push(e);
                assert(lv.take(i + 1).filter_map(g) == prev + seq![e@]);
            },
            None => {},
        }
    }
    assert(lv.take(result.lines@.len() as int) == lv);
}

impl SortKey for LogEntry {
    /// Most severe first, then newest first, then by origin.
    open spec fn key_le(self, other: Self) -> bool {
        rank_of(self.level) > rank_of(other.level) || (rank_of(self.level) == rank_of(other.level)
            && (self.timestamp > other.timestamp || (self.timestamp == other.timestamp && lex_le(
            self.origin@,
            other.origin@,
        ))))
    }

    proof fn lemma_key_total(a: Self, b: Self) {
        lemma_lex_total(a.origin@, b.origin@);
    }

    proof fn lemma_key_trans(a: Self, b: Self, c: Self) {
        if rank_of(a.level) == rank_of(b.level) && rank_of(b.level) == rank_of(c.level)
            && a.timestamp == b.timestamp && b.timestamp == c.timestamp {
            lemma_lex_trans(a.origin@, b.origin@, c.origin@);
        }
    }

    fn key_le_exec(&self, other: &Self) -> (r: bool) {
        let a = severity_rank(&self.level);
        let b = severity_rank(&other.level);
        if a != b {
            a > b
        } else if self.timestamp != other.timestamp {
            self.timestamp > other.timestamp
        } else {
            lex_le_chars(&chars_of(self.origin.as_str()), &chars_of(other.origin.as_str()))
        }
    }
}

/// Orders a pass's entries: most severe first, then newest, then by origin;
/// entries equal on all three keep their order.
pub fn sort_entries(entries: Vec<LogEntry>) -> (r: Vec<LogEntry>)
    ensures
        stable_sorted(entries@, r@),
{
    stable_sort(entries)
}

// ---------------------------------------------------------------------------
// macOS unified log and Windows event log
// ---------------------------------------------------------------------------
pub open spec fn field_or(doc: Seq<char>, key: Seq<char>, default: Seq<char>) -> Seq<char> {
    match json_field_text(doc, key) {
        Some(t) => t,
        None => default,
    }
}

fn json_field_or(doc: &str, key: &str, default: &str) -> (r: String)
    ensures
        r@ == field_or(doc@, key@, default@),
{
    match json_field(doc, key) {
        Some(t) => t,
        None => default.to_string(),
    }
}

/// The record of one `log show --style json` element: it needs an
/// `eventMessage` (or `message`); the process is the image path (or the
/// process name, else `log`), the origin names the subsystem and category.
pub open spec fn macos_item_record(item: Seq<char>, now: i64) -> Option<LogRecord> {
    match first_field(item, seq!["eventMessage"@, "message"@]) {
        None => None,
        Some(message) => {
            let subsystem = field_or(item, "subsystem"@, seq![]);
            let category = field_or(item, "category"@, seq![]);
            let process = match first_field(item, seq!["processImagePath"@, "process"@]) {
                Some(p) => p,
                None => "log"@,
            };
            let origin = if subsystem.len() == 0 && category.len() == 0 {
                "log show json"@
            } else if category.len() == 0 {
                "log show json/"@ + subsystem
            } else {
                "log show json/"@ + subsystem + "/"@ + category
            };
            Some(
                LogRecord {
                    timestamp: event_seconds(field_or(item, "timestamp"@, seq![]), now),
                    level: level_of_message_type(field_or(item, "messageType"@, seq![])),
                    source: process,
                    origin,
                    message,
                },
            )
        },
    }
}

/// A unified-log element is an entry exactly when it has an `eventMessage`
/// or a `message` (the former preferred); a message type "error" or "fault"
/// in any ASCII case makes it critical; its source is the process image path
/// when present.
pub proof fn lemma_macos_item_fields(item: Seq<char>, now: i64)
    ensures
        macos_item_record(item, now) is None <==> (json_field_text(item, "eventMessage"@) is None
            && json_field_text(item, "message"@) is None),
        json_field_text(item, "eventMessage"@) matches Some(m) ==> macos_item_record(item, now)
            == Some(macos_item_record(item, now)->0) && macos_item_record(item, now)->0.message == m,
        json_field_text(item, "message"@) matches Some(m) ==> (json_field_text(item, "eventMessage"@) is None
            ==> macos_item_record(item, now)->0.message == m),
        json_field_text(item, "messageType"@) matches Some(t) ==> (macos_item_record(item, now) is Some
            && (ascii_lower(t) == "error"@ || ascii_lower(t) == "fault"@) ==> macos_item_record(
            item,
            now,
        )->0.level == AlertLevel::Critical),
        json_field_text(item, "processImagePath"@) matches Some(p) ==> (macos_item_record(item, now) is Some
            ==> macos_item_record(item, now)->0.source == p),
{
    let mk = seq!["eventMessage"@, "message"@];
    assert(mk.drop_first() == seq!["message"@]);
    assert(seq!["message"@].drop_first() == Seq::<Seq<char>>::empty());
    let pk = seq!["processImagePath"@, "process"@];
    assert(pk.drop_first() == seq!["process"@]);
    reveal_with_fuel(first_field, 3);
    if let Some(t) = json_field_text(item, "messageType"@) {
        lemma_message_type_levels(t);
    }
}

fn macos_item_entry(item: &str, now: i64) -> (r: Option<LogEntry>)
    ensures
        match r {
            Some(e) => macos_item_record(item@, now) == Some(e@),
            None => macos_item_record(item@, now) is None,
        },
{
    proof {
        reveal_strlit("");
        assert(""@ =~= Seq::<char>::empty());
    }
    let message_keys: &[&str] = &["eventMessage", "message"];
    assert(message_keys@.map_values(|k: &str| k@) =~= seq!["eventMessage"@, "message"@]);
    let message = match json_first(item, message_keys) {
        Some(m) => m,
        None => return None,
    };
    let subsystem = json_field_or(item, "subsystem", "");
    let category = json_field_or(item, "category", "");
    let process_keys: &[&str] = &["processImagePath", "process"];
    assert(process_keys@.map_values(|k: &str| k@) =~= seq!["processImagePath"@, "process"@]);
    let process = match json_first(item, process_keys) {
        Some(p) => p,
        None => "log".to_string(),
    };
    let sub_chars = chars_of(subsystem.as_str());
    let cat_chars = chars_of(category.as_str());
    let origin = if sub_chars.len() == 0 && cat_chars.len() == 0 {
        "log show json".to_string()
    } else if cat_chars.len() == 0 {
        prefixed("log show json/", subsystem.as_str())
    } else {
        let mut o = prefixed("log show json/", subsystem.as_str());
        crate::text::append_str(&mut o, "/");
        crate::text::append_str(&mut o, category.as_str());
        o
    };
    let stamp = json_field_or(item, "timestamp", "");
    let kind = json_field_or(item, "messageType", "");
    Some(
        LogEntry {
            timestamp: parse_event_timestamp(stamp.as_str(), now),
            level: macos_level(kind.as_str()),
            source: process,
            origin,
            message,
        },
    )
}

/// The newest `max_entries` elements of a `log show --style json` output
/// (newest first) that make records; `None` when the output is not JSON.
pub open spec fn macos_json_records(output: Seq<char>, max_entries: nat, now: i64) -> Option<
    Seq<LogRecord>,
> {
    match json_items_text(output) {
        None => None,
        Some(items) => Some(
            keep_first(items.reverse(), max_entries).filter_map(
                |it: Seq<char>| macos_item_record(it, now),
            ),
        ),
    }
}

/// The newest records of a `log show --style json` output.
pub fn parse_macos_json_events(output: &str, max_entries: usize, now: i64) -> (r: Option<
    Vec<LogEntry>,
>)
    ensures
        match r {
            Some(v) => macos_json_records(output@, max_entries as nat, now) matches Some(want)
                && v@.len() == want.len() && forall|k: int|
                0 <= k < v@.len() ==> #[trigger] v@[k]@ == want[k],
            None => macos_json_records(output@, max_entries as nat, now) is None,
        },
{
    let items = match json_items(output) {
        Some(items) => items,
        None => return None,
    };
    let ghost iv = json_items_text(output@)->0;
    let ghost sel = keep_first(iv.reverse(), max_entries as nat);
    let ghost f = |it: Seq<char>| macos_item_record(it, now);
    let n = items.len();
    let count: usize = if n < max_entries {
        n
    } else {
        max_entries
    };
    let mut out: Vec<LogEntry> = Vec::new();
    for k in 0..count
        invariant
            n == items@.len(),
            n == iv.len(),
            forall|m: int| 0 <= m < iv.len() ==> #[trigger] iv[m] == items@[m]@,
            count <= n,
            sel.len() == count,
            sel == keep_first(iv.reverse(), max_entries as nat),
            f == (|it: Seq<char>| macos_item_record(it, now)),
            out@.len() == sel.take(k as int).filter_map(f).len(),
            forall|m: int| 0 <= m < out@.len() ==> #[trigger] out@[m]@ == sel.take(k as int).filter_map(f)[m],
    {
        assert(sel[k as int] == iv[n - 1 - k]);
        assert(sel.take(k + 1).drop_last() == sel.take(k as int));
        assert(sel.take(k + 1).last() == items@[n - 1 - k]@);
        let ghost prev = sel.take(k as int).filter_map(f);
        match macos_item_entry(items[n - 1 - k].as_str(), now) {
            Some(e) => {
                out.push(e);
                assert(sel.take(k + 1).filter_map(f) == prev + seq![e@]);
            },
            None => {},
        }
    }
    assert(sel.take(count as int) == sel);
    Some(out)
}

/// Words separated by any whitespace (`str::split_whitespace`).
pub open spec fn white_words(s: Seq<char>) -> Seq<Seq<char>> {
    crate::text::words(s.map_values(|c: char| if crate::text::is_white(c) { ' ' } else { c }))
}

/// The record of one `log show --style compact` line: blank lines make none;
/// the source is the fifth word (else `log`), the time is `now`.
pub open spec fn macos_compact_record(line: Seq<char>, now: i64) -> Option<LogRecord> {
    let t = trim_spec(line);
    if t.len() == 0 {
        None
    } else {
        let ws = white_words(t);
        Some(
            LogRecord {
                timestamp: now,
                level: level_of_text(t),
                source: if ws.len() > 4 {
                    ws[4]
                } else {
                    "log"@
                },
                origin: "log show compact"@,
                message: t,
            },
        )
    }
}

fn fifth_word_or_log(t: &Vec<char>) -> (r: String)
    ensures
        r@ == (if white_words(t@).len() > 4 {
            white_words(t@)[4]
        } else {
            "log"@
        }),
{
    let mut m: Vec<char> = Vec::new();
    for i in 0..t.len()
        invariant
            m@ == t@.take(i as int).map_values(|c: char| if crate::text::is_white(c) { ' ' } else { c }),
    {
        let c = t[i];
        m.push(if crate::text::is_white_char(c) { ' ' } else { c });
        assert(t@.take(i + 1) == t@.take(i as int).push(c));
    }
    assert(t@.take(t.len() as int) == t@);
    let ws = crate::text::split_words(&m);
    if ws.len() > 4 {
        string_from_chars(&ws[4])
    } else {
        "log".to_string()
    }
}

fn macos_compact_entry(line: &str, now: i64) -> (r: Option<LogEntry>)
    ensures
        match r {
            Some(e) => macos_compact_record(line@, now) == Some(e@),
            None => macos_compact_record(line@, now) is None,
        },
{
    let t = trim_chars(&chars_of(line));
    if t.len() == 0 {
        return None;
    }
    let text = string_from_chars(&t);
    Some(
        LogEntry {
            timestamp: now,
            level: infer_level(text.as_str()),
            source: fifth_word_or_log(&t),
            origin: "log show compact".to_string(),
            message: text,
        },
    )
}

/// The newest `max_entries` lines of a compact `log show` output that make
/// records, back in output order.
pub open spec fn macos_compact_records(output: Seq<char>, max_entries: nat, now: i64) -> Seq<
    LogRecord,
> {
    keep_first(lines_spec(output).reverse(), max_entries).filter_map(
        |l: Seq<char>| macos_compact_record(l, now),
    ).reverse()
}

/// The newest records of a compact `log show` output, in output order.
#[verifier::spinoff_prover]
#[verifier::rlimit(40)]
pub fn parse_macos_compact_events(output: &str, max_entries: usize, now: i64) -> (r: Vec<LogEntry>)
    ensures
        r@.len() == macos_compact_records(output@, max_entries as nat, now).len(),
        forall|k: int|
            0 <= k < r@.len() ==> #[trigger] r@[k]@ == macos_compact_records(
                output@,
                max_entries as nat,
                now,
            )[k],
{
    let lines = split_lines(output);
    let ghost ls = lines_spec(output@);
    let ghost sel = keep_first(ls.reverse(), max_entries as nat);
    let ghost f = |l: Seq<char>| macos_compact_record(l, now);
    let n = lines.len();
    let count: usize = if n < max_entries {
        n
    } else {
        max_entries
    };
    let mut picked: Vec<LogEntry> = Vec::new();
    for k in 0..count
        invariant
            n == lines@.len(),
            n == ls.len(),
            forall|m: int| 0 <= m < ls.len() ==> #[trigger] lines@[m]@ == ls[m],
            count <= n,
            sel.len() == count,
            sel == keep_first(ls.reverse(), max_entries as nat),
            f == (|l: Seq<char>| macos_compact_record(l, now)),
            picked@.len() == sel.take(k as int).filter_map(f).len(),
            forall|m: int| 0 <= m < picked@.len() ==> #[trigger] picked@[m]@ == sel.take(k as int).filter_map(f)[m],
    {
        assert(sel[k as int] == ls[n - 1 - k]);
        assert(sel.take(k + 1).drop_last() == sel.take(k as int));
        assert(sel.take(k + 1).last() == lines@[n - 1 - k]@);
        let ghost prev = sel.take(k as int).filter_map(f);
        match macos_compact_entry(lines[n - 1 - k].as_str(), now) {
            Some(e) => {
                picked.push(e);
                assert(sel.take(k + 1).filter_map(f) == prev + seq![e@]);
            },
            None => {},
        }
    }
    assert(sel.take(count as int) == sel);
    let ghost fwd = sel.filter_map(f);
    let mut out: Vec<LogEntry> = Vec::new();
    while picked.len() > 0
        invariant
            picked@.len() + out@.len() == fwd.len(),
            forall|m: int| 0 <= m < picked@.len() ==> #[trigger] picked@[m]@ == fwd[m],
            forall|m: int| 0 <= m < out@.len() ==> #[trigger] out@[m]@ == fwd[fwd.len() - 1 - m],
        decreases picked@.len(),
    {
        let e = picked.pop().unwrap();
        out.push(e);
    }
    out
}

/// The record of one `Get-WinEvent` element: it needs a `Message`; error and
/// critical levels are critical, warning a warning, the rest information.
pub open spec fn windows_item_record(item: Seq<char>, now: i64) -> Option<LogRecord> {
    match json_field_text(item, "Message"@) {
        None => None,
        Some(message) => {
            let log_name = field_or(item, "LogName"@, "eventlog"@);
            let provider = field_or(item, "ProviderName"@, "eventlog"@);
            let event_id = field_or(item, "Id"@, seq![]);
            let lvl = ascii_lower(field_or(item, "LevelDisplayName"@, seq![]));
            Some(
                LogRecord {
                    timestamp: event_seconds(field_or(item, "TimeCreated"@, seq![]), now),
                    level: if lvl == "error"@ || lvl == "critical"@ {
                        AlertLevel::Critical
                    } else if lvl == "warning"@ {
                        AlertLevel::Warning
                    } else {
                        AlertLevel::Info
                    },
                    source: provider,
                    origin: if event_id.len() == 0 {
                        "Get-WinEvent/"@ + log_name
                    } else {
                        "Get-WinEvent/"@ + log_name + "/event-"@ + event_id
                    },
                    message,
                },
            )
        },
    }
}

/// An event log element with a message becomes an entry carrying that
/// message and its provider; its level is critical when the level name is
/// "Error" or "Critical" in any ASCII case, a warning for "Warning", and
/// information otherwise. An element without a message is skipped.
pub proof fn lemma_windows_levels(item: Seq<char>, now: i64)
    ensures
        json_field_text(item, "Message"@) is None ==> windows_item_record(item, now) is None,
        json_field_text(item, "Message"@) matches Some(m) ==> windows_item_record(item, now) matches Some(
            r,
        ) && r.message == m && r.source == field_or(item, "ProviderName"@, "eventlog"@),
        (json_field_text(item, "LevelDisplayName"@) matches Some(l) && (ascii_lower(l) == "error"@
            || ascii_lower(l) == "critical"@) && json_field_text(item, "Message"@) is Some) ==> windows_item_record(
            item,
            now,
        )->0.level == AlertLevel::Critical,
        (json_field_text(item, "LevelDisplayName"@) matches Some(l) && ascii_lower(l) == "warning"@
            && json_field_text(item, "Message"@) is Some) ==> windows_item_record(item, now)->0.level
            == AlertLevel::Warning,
        json_field_text(item, "Message"@) is Some && !(json_field_text(item, "LevelDisplayName"@) matches Some(
            l,
        ) && (ascii_lower(l) == "error"@ || ascii_lower(l) == "critical"@ || ascii_lower(l)
            == "warning"@)) ==> windows_item_record(item, now)->0.level == AlertLevel::Info,
{
    reveal_strlit("error");
    reveal_strlit("critical");
    reveal_strlit("warning");
    let e: Seq<char> = seq![];
    assert(ascii_lower(e) =~= e);
    assert("error"@.len() > 0 && "critical"@.len() > 0 && "warning"@.len() > 0);
}

fn windows_item_entry(item: &str, now: i64) -> (r: Option<LogEntry>)
    ensures
        match r {
            Some(e) => windows_item_record(item@, now) == Some(e@),
            None => windows_item_record(item@, now) is None,
        },
{
    proof {
        reveal_strlit("");
        assert(""@ =~= Seq::<char>::empty());
    }
    let message = match json_field(item, "Message") {
        Some(m) => m,
        None => return None,
    };
    let log_name = json_field_or(item, "LogName", "eventlog");
    let provider = json_field_or(item, "ProviderName", "eventlog");
    let event_id = json_field_or(item, "Id", "");
    let lvl_text = json_field_or(item, "LevelDisplayName", "");
    let lvl = lowercase_chars(lvl_text.as_str());
    let level = if chars_eq(&lvl, &chars_of("error")) || chars_eq(&lvl, &chars_of("critical")) {
        AlertLevel::Critical
    } else if chars_eq(&lvl, &chars_of("warning")) {
        AlertLevel::Warning
    } else {
        AlertLevel::Info
    };
    let mut origin = prefixed("Get-WinEvent/", log_name.as_str());
    if chars_of(event_id.as_str()).len() > 0 {
        crate::text::append_str(&mut origin, "/event-");
        crate::text::append_str(&mut origin, event_id.as_str());
    }
    let created = json_field_or(item, "TimeCreated", "");
    Some(
        LogEntry {
            timestamp: parse_event_timestamp(created.as_str(), now),
            level,
            source: provider,
            origin,
            message,
        },
    )
}

/// The records of the elements of a `Get-WinEvent ... | ConvertTo-Json`
/// output; none when the output is not JSON.
pub open spec fn windows_records(output: Seq<char>, now: i64) -> Seq<LogRecord> {
    match json_items_text(output) {
        None => seq![],
        Some(items) => items.filter_map(|it: Seq<char>| windows_item_record(it, now)),
    }
}

/// The records of a `Get-WinEvent ... | ConvertTo-Json` output.
pub fn parse_windows_events(output: &str, now: i64) -> (r: Vec<LogEntry>)
    ensures
        r@.len() == windows_records(output@, now).len(),
        forall|k: int| 0 <= k < r@.len() ==> #[trigger] r@[k]@ == windows_records(output@, now)[k],
{
    let items = match json_items(output) {
        Some(items) => items,
        None => return Vec::new(),
    };
    let ghost iv = json_items_text(output@)->0;
    let ghost f = |it: Seq<char>| windows_item_record(it, now);
    let mut out: Vec<LogEntry> = Vec::new();
    for k in 0..items.len()
        invariant
            items@.len() == iv.len(),
            iv == json_items_text(output@)->0,
            json_items_text(output@) is Some,
            forall|m: int| 0 <= m < iv.len() ==> #[trigger] iv[m] == items@[m]@,
            f == (|it: Seq<char>| windows_item_record(it, now)),
            out@.len() == iv.take(k as int).filter_map(f).len(),
            forall|m: int| 0 <= m < out@.len() ==> #[trigger] out@[m]@ == iv.take(k as int).filter_map(f)[m],
    {
        assert(iv.take(k + 1).drop_last() == iv.take(k as int));
        assert(iv.take(k + 1).last() == items@[k as int]@);
        let ghost prev = iv.take(k as int).filter_map(f);
        match windows_item_entry(items[k].as_str(), now) {
            Some(e) => {
                out.push(e);
                assert(iv.take(k + 1).filter_map(f) == prev + seq![e@]);
            },
            None => {},
        }
    }
    assert(iv.take(items.len() as int) == iv);
    out
}

// ---------------------------------------------------------------------------
// Laws of tailing
// ---------------------------------------------------------------------------
/// A file read to its end and not changed since is not read again: the next
/// pass finds nothing new in it.
pub proof fn lemma_read_then_unchanged(
    step: ReadStep,
    outcome: ReadOutcome,
    file_size: u64,
    modified_ts: i64,
)
    requires
        outcome_fits(step, outcome),
        !(outcome is OpenFailed),
        file_size > 0,
    ensures
        read_step(read_state(step, outcome, file_size, modified_ts), file_size, modified_ts)
            == ReadStep::Unchanged,
{
}

/// A file that grew past the saved offset is read from that offset on, so
/// the lines read before are not read again.
pub proof fn lemma_growth_reads_from_offset(
    previous: FileTailState,
    file_size: u64,
    modified_ts: i64,
)
    requires
        previous.offset > 0,
        previous.file_size > 0,
        file_size > previous.offset,
    ensures
        read_step(previous, file_size, modified_ts) == ReadStep::FromOffset(previous.offset),
{
}

/// A file shorter than the saved offset was truncated or replaced: it is read
/// from its tail and the read counts as a rotation, whatever the reader found.
pub proof fn lemma_truncation_is_rotation(
    previous: FileTailState,
    file_size: u64,
    modified_ts: i64,
    outcome: ReadOutcome,
)
    requires
        previous.offset > 0,
        previous.file_size > 0,
        file_size < previous.offset,
        outcome_fits(read_step(previous, file_size, modified_ts), outcome),
    ensures
        read_step(previous, file_size, modified_ts) == ReadStep::TailAfterTruncation,
        read_rotated(read_step(previous, file_size, modified_ts), outcome),
{
}

/// The saved offset never passes the end of the file.
pub proof fn lemma_offset_within_file(
    previous: FileTailState,
    file_size: u64,
    modified_ts: i64,
    outcome: ReadOutcome,
)
    requires
        outcome_fits(read_step(previous, file_size, modified_ts), outcome),
    ensures
        read_state(read_step(previous, file_size, modified_ts), outcome, file_size, modified_ts).offset
            <= file_size,
{
}

/// One read yields at most `max` lines.
pub proof fn lemma_read_bounded(outcome: ReadOutcome, max: nat)
    ensures
        read_lines(outcome, max).len() <= max,
{
}

/// A saved position reads back as written (`insert`, then `get`), and writing
/// one path's position leaves every other path's as it was.
pub proof fn lemma_position_read_after_write(
    before: TailStates,
    after: TailStates,
    path: Seq<char>,
    state: FileTailState,
    other: Seq<char>,
)
    requires
        after.positions() == before.positions().insert(path, state),
    ensures
        after.positions().contains_key(path),
        after.positions()[path] == state,
        other != path ==> (after.positions().contains_key(other) == before.positions().contains_key(
            other,
        )),
        other != path && before.positions().contains_key(other) ==> after.positions()[other]
            == before.positions()[other],
{
}

/// The four cases of an incremental read, for a reader that opened and
/// positioned the file: no usable position reads the last lines of the whole
/// text; a shorter file reads them too and counts a rotation; an unchanged
/// file reads nothing; otherwise the last lines written after the offset.
/// Each time the position moves to the end of the file, and at most `max`
/// lines come back.
pub proof fn lemma_read_cases(
    previous: FileTailState,
    file_size: u64,
    modified_ts: i64,
    max: nat,
    outcome: ReadOutcome,
)
    requires
        outcome_fits(read_step(previous, file_size, modified_ts), outcome),
        !(outcome is OpenFailed),
        !(outcome is SeekFailed),
    ensures
        ({
            let step = read_step(previous, file_size, modified_ts);
            let lines = read_lines(outcome, max);
            &&& read_state(step, outcome, file_size, modified_ts) == (FileTailState {
                offset: file_size,
                file_size,
                modified_ts,
            })
            &&& lines.len() <= max
            &&& (previous.offset == 0 || previous.file_size == 0) ==> (outcome matches ReadOutcome::Whole(c)
                && lines == tail_of(content_view(c), max) && !read_rotated(step, outcome))
            &&& !(previous.offset == 0 || previous.file_size == 0) && file_size < previous.offset ==> (
            outcome matches ReadOutcome::Whole(c) && lines == tail_of(content_view(c), max)
                && read_rotated(step, outcome))
            &&& !(previous.offset == 0 || previous.file_size == 0) && file_size == previous.offset
                && previous.modified_ts == modified_ts ==> (!read_rotated(step, outcome)
                && lines.len() == 0)
            &&& !(previous.offset == 0 || previous.file_size == 0) && file_size >= previous.offset
                && !(file_size == previous.offset && previous.modified_ts == modified_ts) ==> (
            outcome matches ReadOutcome::Appended(raw) && lines == appended_lines(raw@, max)
                && !read_rotated(step, outcome) && step == ReadStep::FromOffset(previous.offset))
        }),
{
}

/// The pieces a line reader hands out for a text, in order: each ends just
/// after a line feed, and a last piece holds what follows the last line feed.
pub open spec fn line_chunks(s: Seq<char>) -> Seq<Seq<char>>
    decreases s.len(),
{
    if s.len() == 0 {
        seq![]
    } else {
        let i = first_newline(s);
        if i < 0 {
            seq![s]
        } else {
            proof {
                lemma_first_newline_range(s);
            }
            seq![s.take(i + 1)] + line_chunks(s.skip(i + 1))
        }
    }
}

/// The reader carried out the step on a file whose text is `text`, and
/// `after` is the text from the saved offset on: a tail step read the whole
/// text, an unchanged file was not read, and an incremental read handed out
/// the pieces of `after` line by line.
pub open spec fn outcome_reads(
    step: ReadStep,
    outcome: ReadOutcome,
    text: Seq<char>,
    after: Seq<char>,
) -> bool {
    match step {
        ReadStep::Tail | ReadStep::TailAfterTruncation => outcome matches ReadOutcome::Whole(c)
            && content_view(c) == Some(text),
        ReadStep::Unchanged => outcome is Nothing,
        ReadStep::FromOffset(_) => outcome matches ReadOutcome::Appended(raw) && raw@.map_values(
            |l: String| l@,
        ) == line_chunks(after),
    }
}

/// An incremental read of a file whose text is `text` (and `after` its end
/// from the saved offset on): with no usable position the lines are the last
/// `max` lines of `text`; a file shorter than the offset gives them too and
/// counts a rotation; an unchanged file gives no line; otherwise the lines
/// are the last `max` lines of `after`, line endings removed. The position
/// always moves to the end of the file.
pub proof fn lemma_read_of_text(
    previous: FileTailState,
    file_size: u64,
    modified_ts: i64,
    max: nat,
    text: Seq<char>,
    after: Seq<char>,
    outcome: ReadOutcome,
)
    requires
        after.len() <= text.len(),
        text.skip(text.len() - after.len()) == after,
        outcome_reads(read_step(previous, file_size, modified_ts), outcome, text, after),
    ensures
        ({
            let step = read_step(previous, file_size, modified_ts);
            let lines = read_lines(outcome, max);
            let fresh = previous.offset == 0 || previous.file_size == 0;
            &&& outcome_fits(step, outcome)
            &&& read_state(step, outcome, file_size, modified_ts) == (FileTailState {
                offset: file_size,
                file_size,
                modified_ts,
            })
            &&& fresh ==> lines == keep_last(lines_spec(text), max) && !read_rotated(step, outcome)
            &&& !fresh && file_size < previous.offset ==> lines == keep_last(lines_spec(text), max)
                && read_rotated(step, outcome)
            &&& !fresh && file_size == previous.offset && previous.modified_ts == modified_ts ==> lines
                == Seq::<Seq<char>>::empty() && !read_rotated(step, outcome)
            &&& !fresh && file_size >= previous.offset && !(file_size == previous.offset
                && previous.modified_ts == modified_ts) ==> lines == keep_last(
                line_chunks(after).map_values(|l: Seq<char>| trim_line_end_spec(l)),
                max,
            ) && !read_rotated(step, outcome)
        }),
{
    let step = read_step(previous, file_size, modified_ts);
    if let ReadOutcome::Appended(raw) = outcome {
        let views = raw@.map_values(|l: String| l@);
        let a = raw@.map_values(|l: String| trim_line_end_spec(l@));
        let b = line_chunks(after).map_values(|l: Seq<char>| trim_line_end_spec(l));
        if step is FromOffset {
            assert forall|k: int| 0 <= k < a.len() implies a[k] == b[k] by {
                assert(views[k] == raw@[k]@);
            }
            assert(a =~= b);
        }
    }
}

/// The paths of the files chosen in a pass.
pub open spec fn target_paths(targets: Seq<TailTarget>) -> Set<Seq<char>> {
    Set::new(|k: Seq<char>| exists|i: int| 0 <= i < targets.len() && targets[i].path@ == k)
}

/// The saved positions after a pass's reads, in order, each saving its
/// file's new position (as `record_read` does).
pub open spec fn apply_reads(
    positions: Map<Seq<char>, FileTailState>,
    targets: Seq<TailTarget>,
    states: Seq<FileTailState>,
) -> Map<Seq<char>, FileTailState>
    decreases targets.len(),
{
    if targets.len() == 0 || states.len() == 0 {
        positions
    } else {
        apply_reads(positions, targets.drop_last(), states.drop_last()).insert(
            targets.last().path@,
            states.last(),
        )
    }
}

proof fn lemma_apply_reads_dom(
    positions: Map<Seq<char>, FileTailState>,
    targets: Seq<TailTarget>,
    states: Seq<FileTailState>,
)
    requires
        states.len() == targets.len(),
    ensures
        apply_reads(positions, targets, states).dom() =~= positions.dom() + target_paths(targets),
    decreases targets.len(),
{
    if targets.len() > 0 {
        let t = targets.drop_last();
        lemma_apply_reads_dom(positions, t, states.drop_last());
        assert forall|k: Seq<char>| target_paths(targets).contains(k) == (target_paths(t).contains(k)
            || k == targets.last().path@) by {
            if target_paths(targets).contains(k) {
                let i = choose|i: int| 0 <= i < targets.len() && targets[i].path@ == k;
                if i < t.len() {
                    assert(t[i] == targets[i]);
                }
            }
            if target_paths(t).contains(k) {
                let i = choose|i: int| 0 <= i < t.len() && t[i].path@ == k;
                assert(targets[i] == t[i]);
            }
            if k == targets.last().path@ {
                assert(targets[targets.len() - 1].path@ == k);
            }
        }
    }
}

/// One tailing pass: at most `max_files` files are chosen, all recent
/// regular files, changed ones before unchanged ones and then the newest
/// first; once the positions are cut to the chosen files and each read saves
/// its file's position, the saved positions are exactly those of the chosen files.
pub proof fn lemma_pass_keeps_chosen(
    candidates: Seq<FileCandidate>,
    positions: Map<Seq<char>, FileTailState>,
    threshold_nanos: i128,
    max_files: nat,
    targets: Seq<TailTarget>,
    states: Seq<FileTailState>,
)
    requires
        exists|sorted: Seq<TailTarget>|
            stable_sorted(recent_targets(candidates, positions, threshold_nanos), sorted)
                && targets == keep_first(sorted, max_files),
        states.len() == targets.len(),
    ensures
        targets.len() <= max_files,
        forall|i: int, j: int|
            0 <= i < j < targets.len() ==> (#[trigger] targets[i]).key_le(#[trigger] targets[j]),
        forall|i: int|
            0 <= i < targets.len() ==> recent_targets(candidates, positions, threshold_nanos).contains(
                #[trigger] targets[i],
            ),
        apply_reads(positions.restrict(target_paths(targets)), targets, states).dom()
            == target_paths(targets),
{
    let all = recent_targets(candidates, positions, threshold_nanos);
    let sorted = choose|sorted: Seq<TailTarget>|
        stable_sorted(all, sorted) && targets == keep_first(sorted, max_files);
    assert forall|i: int, j: int| 0 <= i < j < targets.len() implies (#[trigger] targets[i]).key_le(
        #[trigger] targets[j],
    ) by {
        assert(targets[i] == sorted[i] && targets[j] == sorted[j]);
        lemma_sorted_pair(all, sorted, i, j);
    }
    assert forall|i: int| 0 <= i < targets.len() implies all.contains(#[trigger] targets[i]) by {
        assert(targets[i] == sorted[i]);
        lemma_sorted_same_elements(all, sorted, targets[i]);
    }
    let m = positions.restrict(target_paths(targets));
    lemma_apply_reads_dom(m, targets, states);
    assert(m.dom() + target_paths(targets) =~= target_paths(targets));
}

/// The records of a pass, file after file, as `record_read` appends them for
/// the lines read from each chosen file.
pub open spec fn pass_records(targets: Seq<TailTarget>, lines: Seq<Seq<Seq<char>>>) -> Seq<LogRecord>
    decreases targets.len(),
{
    if targets.len() == 0 || lines.len() == 0 {
        seq![]
    } else {
        pass_records(targets.drop_last(), lines.drop_last()) + file_records(
            lines.last(),
            targets.last().path@,
            targets.last().modified_ts,
        )
    }
}

/// The active files of a pass, in order, as `record_read` lists them.
pub open spec fn pass_active(targets: Seq<TailTarget>) -> Seq<Seq<char>>
    decreases targets.len(),
{
    if targets.len() == 0 {
        seq![]
    } else {
        pass_active(targets.drop_last()) + if targets.last().active {
            seq![targets.last().path@]
        } else {
            seq![]
        }
    }
}

proof fn lemma_file_records_shape(lines: Seq<Seq<char>>, path: Seq<char>, ts: i64)
    ensures
        file_records(lines, path, ts).len() <= lines.len(),
        forall|k: int|
            0 <= k < file_records(lines, path, ts).len() ==> (#[trigger] file_records(
                lines,
                path,
                ts,
            )[k]).origin == path,
    decreases lines.len(),
{
    reveal(line_record);
    let f = |l: Seq<char>| line_record(l, path, ts);
    let idx = lemma_filter_map_sources(lines, f);
    if lines.len() > 0 {
        lemma_file_records_shape(lines.drop_last(), path, ts);
    }
    assert forall|k: int| 0 <= k < file_records(lines, path, ts).len() implies (
    #[trigger] file_records(lines, path, ts)[k]).origin == path by {
        assert(f(lines[idx[k]]) == Some(file_records(lines, path, ts)[k]));
    }
}

proof fn lemma_pass_records_origin(targets: Seq<TailTarget>, lines: Seq<Seq<Seq<char>>>)
    requires
        lines.len() == targets.len(),
    ensures
        forall|k: int|
            0 <= k < pass_records(targets, lines).len() ==> target_paths(targets).contains(
                (#[trigger] pass_records(targets, lines)[k]).origin,
            ),
    decreases targets.len(),
{
    if targets.len() > 0 {
        let t = targets.drop_last();
        let l = lines.drop_last();
        lemma_pass_records_origin(t, l);
        let last = targets.last();
        lemma_file_records_shape(lines.last(), last.path@, last.modified_ts);
        let before = pass_records(t, l);
        let all = pass_records(targets, lines);
        assert forall|k: int| 0 <= k < all.len() implies target_paths(targets).contains(
            (#[trigger] all[k]).origin,
        ) by {
            if k < before.len() {
                assert(all[k] == before[k]);
                assert(target_paths(t).contains(before[k].origin));
                let i = choose|i: int| 0 <= i < t.len() && t[i].path@ == before[k].origin;
                assert(targets[i] == t[i]);
            } else {
                assert(targets[targets.len() - 1].path@ == all[k].origin);
            }
        }
    }
}

proof fn lemma_pass_active_chosen(targets: Seq<TailTarget>)
    ensures
        forall|k: int|
            0 <= k < pass_active(targets).len() ==> target_paths(targets).contains(
                #[trigger] pass_active(targets)[k],
            ),
    decreases targets.len(),
{
    if targets.len() > 0 {
        let t = targets.drop_last();
        lemma_pass_active_chosen(t);
        let all = pass_active(targets);
        let before = pass_active(t);
        assert forall|k: int| 0 <= k < all.len() implies target_paths(targets).contains(
            #[trigger] all[k],
        ) by {
            if k < before.len() {
                assert(all[k] == before[k]);
                let i = choose|i: int| 0 <= i < t.len() && t[i].path@ == before[k];
                assert(targets[i] == t[i]);
            } else {
                assert(targets[targets.len() - 1].path@ == all[k]);
            }
        }
    }
}

/// The entries and active files of one pass: every entry comes from a chosen
/// file, each chosen file gives at most as many entries as lines were read
/// from it (so at most `max` when each read is bounded by `max`), and every
/// active file is a chosen one.
pub proof fn lemma_pass_entries(targets: Seq<TailTarget>, lines: Seq<Seq<Seq<char>>>, max: nat)
    requires
        lines.len() == targets.len(),
        forall|i: int| 0 <= i < lines.len() ==> (#[trigger] lines[i]).len() <= max,
    ensures
        forall|k: int|
            0 <= k < pass_records(targets, lines).len() ==> target_paths(targets).contains(
                (#[trigger] pass_records(targets, lines)[k]).origin,
            ),
        forall|i: int|
            0 <= i < targets.len() ==> file_records(
                #[trigger] lines[i],
                targets[i].path@,
                targets[i].modified_ts,
            ).len() <= max,
        forall|k: int|
            0 <= k < pass_active(targets).len() ==> target_paths(targets).contains(
                #[trigger] pass_active(targets)[k],
            ),
{
    lemma_pass_records_origin(targets, lines);
    lemma_pass_active_chosen(targets);
    assert forall|i: int| 0 <= i < targets.len() implies file_records(
        #[trigger] lines[i],
        targets[i].path@,
        targets[i].modified_ts,
    ).len() <= max by {
        lemma_file_records_shape(lines[i], targets[i].path@, targets[i].modified_ts);
    }
}

/// The entries of a pass come most severe first, and newest first among
/// entries of one severity.
pub proof fn lemma_entries_by_severity(
    entries: Seq<LogEntry>,
    sorted: Seq<LogEntry>,
    i: int,
    j: int,
)
    requires
        stable_sorted(entries, sorted),
        0 <= i < j < sorted.len(),
    ensures
        rank_of(sorted[i].level) >= rank_of(sorted[j].level),
        rank_of(sorted[i].level) == rank_of(sorted[j].level) ==> sorted[i].timestamp
            >= sorted[j].timestamp,
{
    lemma_sorted_pair(entries, sorted, i, j);
}

} // verus!
