//! Recording options and the rotation and retention decisions of the
//! snapshot recorder: which segment a snapshot goes to, when a new segment
//! starts, and which old segments are removed.
use vstd::prelude::*;
use crate::calendar::{
    is_calendar_of, lemma_calendar_unique, lemma_readings_follow_time, lemma_stamp_order, stamp_text,
    CalendarTime,
};
use crate::order::{lemma_lex_common_prefix, lemma_lex_concat};
use crate::external::{utc_calendar, utc_stamp};
use crate::numbers::{parse_u64, parse_unsigned_spec, push_padded};
use crate::sort::{SortKey, stable_sort, stable_sorted, stable_perm, lemma_filter_sorted, sorted_by_key};
use crate::text::{
    ascii_lower, chars_eq, chars_of, decimal_padded, ends_with_chars, lex_le, lex_le_chars,
    lemma_lex_total, lemma_lex_trans, lowercase_chars, push_char, starts_with_chars, append_str,
    lemma_ascii_lower_idempotent,
};

verus! {

/// When the recorder starts a new segment by time.
#[derive(Debug, Clone, Copy, PartialEq, Eq, Structural)]
pub enum RotationPolicy {
    Never,
    Hourly,
    Daily,
}

/// The policy a configuration word names: `hour`/`hourly`, `day`/`daily`
/// in any letter case; anything else never rotates.
pub open spec fn policy_of(value: Seq<char>) -> RotationPolicy {
    let l = ascii_lower(value);
    if l == "hour"@ || l == "hourly"@ {
        RotationPolicy::Hourly
    } else if l == "day"@ || l == "daily"@ {
        RotationPolicy::Daily
    } else {
        RotationPolicy::Never
    }
}

/// `{:04}` of a year: four digits, or a minus sign and three digits.
pub open spec fn year_text(y: int) -> Seq<char> {
    if y >= 0 {
        decimal_padded(y as nat, 4)
    } else {
        "-"@ + decimal_padded((-y) as nat, 3)
    }
}

/// The bucket a calendar time falls in: `YYYYMMDDHH` hourly, `YYYYMMDD` daily.
pub open spec fn bucket_of(policy: RotationPolicy, ct: CalendarTime) -> Option<Seq<char>> {
    let day = year_text(ct.year as int) + decimal_padded(ct.month as nat, 2) + decimal_padded(
        ct.day as nat,
        2,
    );
    match policy {
        RotationPolicy::Never => None,
        RotationPolicy::Hourly => Some(day + decimal_padded(ct.hour as nat, 2)),
        RotationPolicy::Daily => Some(day),
    }
}

/// Milliseconds that the calendar conversion covers.
pub open spec fn in_calendar_range(millis: i64) -> bool {
    -8_000_000_000_000_000 <= millis <= 8_000_000_000_000_000
}

/// The bucket of the instant `millis`.
pub open spec fn bucket_at(policy: RotationPolicy, millis: i64, key: Option<Seq<char>>) -> bool {
    exists|ct: CalendarTime| is_calendar_of(ct, millis as int) && key == bucket_of(policy, ct)
}

fn push_year(out: &mut String, y: i32)
    ensures
        final(out)@ == old(out)@ + year_text(y as int),
{
    if y >= 0 {
        push_padded(out, y as u64, 4);
    } else {
        let ghost start = out@;
        append_str(out, "-");
        let m: u64 = if y == i32::MIN {
            2147483648u64
        } else {
            (-y) as u64
        };
        push_padded(out, m, 3);
        assert(out@ == start + ("-"@ + decimal_padded((-y) as nat, 3)));
    }
}

impl RotationPolicy {
    /// The policy a configuration word names.
    pub fn parse(value: &str) -> (r: Self)
        ensures
            r == policy_of(value@),
    {
        let l = lowercase_chars(value);
        if chars_eq(&l, &chars_of("hour")) || chars_eq(&l, &chars_of("hourly")) {
            RotationPolicy::Hourly
        } else if chars_eq(&l, &chars_of("day")) || chars_eq(&l, &chars_of("daily")) {
            RotationPolicy::Daily
        } else {
            RotationPolicy::Never
        }
    }

    fn bucket_key_of(self, ct: &CalendarTime) -> (r: Option<String>)
        ensures
            match r {
                Some(k) => bucket_of(self, *ct) == Some(k@),
                None => bucket_of(self, *ct) is None,
            },
    {
        match self {
            RotationPolicy::Never => None,
            _ => {
                let mut k = String::new();
                push_year(&mut k, ct.year);
                push_padded(&mut k, ct.month as u64, 2);
                push_padded(&mut k, ct.day as u64, 2);
                if self == RotationPolicy::Hourly {
                    push_padded(&mut k, ct.hour as u64, 2);
                }
                Some(k)
            },
        }
    }

    /// The bucket key of the instant `now_millis` (milliseconds since the epoch).
    pub fn bucket_key(self, now_millis: i64) -> (r: Option<String>)
        requires
            in_calendar_range(now_millis),
        ensures
            bucket_at(
                self,
                now_millis,
                match r {
                    Some(k) => Some(k@),
                    None => None,
                },
            ),
    {
        let ct = utc_calendar(now_millis).unwrap();
        self.bucket_key_of(&ct)
    }
}

/// Recording settings from the configuration file.
#[derive(Debug, Clone)]
pub struct RecordConfig {
    pub interval_secs: u64,
    pub output: String,
    pub rotate: String,
    pub max_file_size_mb: Option<u64>,
    pub keep_files: Option<usize>,
}

/// Recording settings in force, command line over configuration.
#[derive(Debug, Clone)]
pub struct RecordRuntimeOptions {
    pub interval_secs: u64,
    pub output: String,
    pub rotate: RotationPolicy,
    pub max_file_size_bytes: Option<u64>,
    pub keep_files: Option<usize>,
}

/// Seconds that an interval text gives: `Ns` seconds, `Nm` minutes, or a bare
/// number of seconds.
pub open spec fn interval_of(value: Seq<char>) -> Option<int> {
    if value.len() > 0 && value.last() == 's' {
        parse_unsigned_spec(value.drop_last(), u64::MAX as int)
    } else if value.len() > 0 && value.last() == 'm' {
        match parse_unsigned_spec(value.drop_last(), u64::MAX as int) {
            Some(n) => Some(n * 60),
            None => None,
        }
    } else {
        parse_unsigned_spec(value, u64::MAX as int)
    }
}

/// Interval units: a count with `m` is sixty times the same count with `s`,
/// and a bare count means seconds.
pub proof fn lemma_interval_units(d: Seq<char>)
    ensures
        interval_of(d + seq!['m']) == match interval_of(d + seq!['s']) {
            Some(n) => Some(n * 60),
            None => None,
        },
        d.len() > 0 && d.last() != 's' && d.last() != 'm' ==> interval_of(d) == interval_of(
            d + seq!['s'],
        ),
{
    assert((d + seq!['m']).drop_last() == d);
    assert((d + seq!['s']).drop_last() == d);
}

/// Rotation names, in any ASCII case: "hour"/"hourly" rotate hourly,
/// "day"/"daily" daily, anything else never.
pub proof fn lemma_policy_names(value: Seq<char>)
    ensures
        ascii_lower(value) == "hour"@ || ascii_lower(value) == "hourly"@ ==> policy_of(value)
            == RotationPolicy::Hourly,
        ascii_lower(value) == "day"@ || ascii_lower(value) == "daily"@ ==> policy_of(value)
            == RotationPolicy::Daily,
        !(ascii_lower(value) == "hour"@ || ascii_lower(value) == "hourly"@ || ascii_lower(value)
            == "day"@ || ascii_lower(value) == "daily"@) ==> policy_of(value) == RotationPolicy::Never,
{
    reveal_strlit("hour");
    reveal_strlit("hourly");
    reveal_strlit("day");
    reveal_strlit("daily");
    let l = ascii_lower(value);
    if l == "day"@ || l == "daily"@ {
        assert(l[0] != "hour"@[0] && l[0] != "hourly"@[0]);
    }
}

/// The interval text, when given, counts no more seconds than a `u64` holds.
pub open spec fn interval_fits(value: Option<&str>) -> bool {
    match value {
        Some(v) => match interval_of(v@) {
            Some(n) => n <= u64::MAX,
            None => true,
        },
        None => true,
    }
}

fn parse_interval(value: Option<&str>) -> (r: Option<u64>)
    requires
        interval_fits(value),
    ensures
        r == match value {
            Some(v) => match interval_of(v@) {
                Some(n) => Some(n as u64),
                None => None,
            },
            None => None,
        },
{
    let value = match value {
        Some(v) => v,
        None => return None,
    };
    let v = chars_of(value);
    let n = v.len();
    if n > 0 && (v[n - 1] == 's' || v[n - 1] == 'm') {
        let mut body: Vec<char> = Vec::new();
        for i in 0..n - 1
            invariant
                n == v@.len(),
                n > 0,
                body@ == v@.take(i as int),
        {
            body.push(v[i]);
            assert(v@.take(i + 1) == v@.take(i as int).push(v@[i as int]));
        }
        assert(body@ == v@.drop_last());
        match parse_u64(&body) {
            Some(x) => {
                if v[n - 1] == 's' {
                    Some(x)
                } else {
                    Some(x * 60)
                }
            },
            None => None,
        }
    } else {
        parse_u64(&v)
    }
}

/// The interval text, when given, counts no more seconds than a `u64` holds
/// (a count of minutes times 60 may not).
pub fn interval_in_range(value: Option<&str>) -> (r: bool)
    ensures
        r == interval_fits(value),
{
    let value = match value {
        Some(v) => v,
        None => return true,
    };
    let v = chars_of(value);
    let n = v.len();
    if n > 0 && v[n - 1] == 'm' {
        let mut body: Vec<char> = Vec::new();
        for i in 0..n - 1
            invariant
                n == v@.len(),
                n > 0,
                body@ == v@.take(i as int),
        {
            body.push(v[i]);
            assert(v@.take(i + 1) == v@.take(i as int).push(v@[i as int]));
        }
        assert(body@ == v@.drop_last());
        match parse_u64(&body) {
            Some(x) => x <= u64::MAX / 60,
            None => true,
        }
    } else {
        true
    }
}

/// The size limit in force, when there is one, fits in bytes in a `u64`.
pub fn size_limit_in_range(cli: Option<u64>, config: Option<u64>) -> (r: bool)
    ensures
        r == size_limit_fits(cli, config),
{
    let chosen = match cli {
        Some(v) => Some(v),
        None => config,
    };
    match chosen {
        Some(v) => {
            assert((v <= 17_592_186_044_415u64) == (v * 1024 * 1024 <= u64::MAX)) by (nonlinear_arith)
                requires
                    0 <= v,
            ;
            v == 0 || v <= 17_592_186_044_415u64
        },
        None => true,
    }
}

/// The file size limit in force, when given and not zero, in megabytes.
pub open spec fn size_limit_mb(cli: Option<u64>, config: Option<u64>) -> Option<u64> {
    let chosen = match cli {
        Some(v) => Some(v),
        None => config,
    };
    match chosen {
        Some(v) => if v > 0 {
            Some(v)
        } else {
            None
        },
        None => None,
    }
}

/// The limit in force, when there is one, fits in bytes in a `u64`.
pub open spec fn size_limit_fits(cli: Option<u64>, config: Option<u64>) -> bool {
    match size_limit_mb(cli, config) {
        Some(v) => v * 1024 * 1024 <= u64::MAX,
        None => true,
    }
}

/// The retention count in force: the command line's, else the configuration's,
/// when not zero.
pub open spec fn keep_count(cli: Option<usize>, config: Option<usize>) -> Option<usize> {
    let chosen = match cli {
        Some(v) => Some(v),
        None => config,
    };
    match chosen {
        Some(v) => if v > 0 {
            Some(v)
        } else {
            None
        },
        None => None,
    }
}

/// The command line's retention count wins over the configuration's whatever
/// the configuration holds; without one the configuration's count applies; a
/// count of zero (from either) means no retention limit, and a limit in force
/// is never zero.
pub proof fn lemma_keep_count_precedence(cli: Option<usize>, config: Option<usize>)
    ensures
        cli matches Some(n) ==> (n > 0 ==> keep_count(cli, config) == Some(n)),
        cli == Some(0usize) ==> keep_count(cli, config) is None,
        config matches Some(n) ==> (cli is None && n > 0 ==> keep_count(cli, config) == Some(n)),
        cli is None ==> (config is None || config == Some(0usize) ==> keep_count(cli, config) is None),
        keep_count(cli, config) matches Some(n) ==> n > 0,
{
}

/// The command line's file size limit wins over the configuration's whatever
/// the configuration holds; without one the configuration's applies; zero
/// from either means no limit, and a limit in force is never zero.
pub proof fn lemma_size_limit_precedence(cli: Option<u64>, config: Option<u64>)
    ensures
        cli matches Some(n) ==> (n > 0 ==> size_limit_mb(cli, config) == Some(n)),
        cli == Some(0u64) ==> size_limit_mb(cli, config) is None,
        config matches Some(n) ==> (cli is None && n > 0 ==> size_limit_mb(cli, config) == Some(n)),
        cli is None ==> (config is None || config == Some(0u64) ==> size_limit_mb(cli, config) is None),
        size_limit_mb(cli, config) matches Some(n) ==> n > 0,
{
}


impl RecordRuntimeOptions {
    /// Each setting from the command line when given there, else from the configuration.
    pub fn from_sources(
        defaults: &RecordConfig,
        interval: Option<&str>,
        output: Option<String>,
        rotate: Option<&str>,
        max_file_size_mb: Option<u64>,
        keep_files: Option<usize>,
    ) -> (r: Self)
        requires
            interval_fits(interval),
            size_limit_fits(max_file_size_mb, defaults.max_file_size_mb),
        ensures
            r.interval_secs == match interval {
                Some(v) => match interval_of(v@) {
                    Some(n) => n as u64,
                    None => defaults.interval_secs,
                },
                None => defaults.interval_secs,
            },
            r.output@ == match output {
                Some(o) => o@,
                None => defaults.output@,
            },
            r.rotate == match rotate {
                Some(v) => policy_of(v@),
                None => policy_of(defaults.rotate@),
            },
            r.max_file_size_bytes == match size_limit_mb(max_file_size_mb, defaults.max_file_size_mb) {
                Some(v) => Some((v * 1024 * 1024) as u64),
                None => None,
            },
            r.keep_files == keep_count(keep_files, defaults.keep_files),
    {
        let interval_secs = match parse_interval(interval) {
            Some(n) => n,
            None => defaults.interval_secs,
        };
        let output = match output {
            Some(o) => o,
            None => defaults.output.clone(),
        };
        let rotate = match rotate {
            Some(v) => RotationPolicy::parse(v),
            None => RotationPolicy::parse(defaults.rotate.as_str()),
        };
        let size = match max_file_size_mb {
            Some(v) => Some(v),
            None => defaults.max_file_size_mb,
        };
        let max_file_size_bytes = match size {
            Some(v) => if v > 0 {
                Some(v * 1024 * 1024)
            } else {
                None
            },
            None => None,
        };
        let keep = match keep_files {
            Some(v) => Some(v),
            None => defaults.keep_files,
        };
        let keep_files = match keep {
            Some(v) => if v > 0 {
                Some(v)
            } else {
                None
            },
            None => None,
        };
        RecordRuntimeOptions { interval_secs, output, rotate, max_file_size_bytes, keep_files }
    }
}

// ---------------------------------------------------------------------------
// Segments
// ---------------------------------------------------------------------------
/// A raw recording segment is named `pulsar_*.jsonl`.
pub open spec fn is_raw_segment(name: Seq<char>) -> bool {
    "pulsar_"@.len() <= name.len() && name.take("pulsar_"@.len() as int) == "pulsar_"@
        && ".jsonl"@.len() <= name.len() && name.skip(name.len() - ".jsonl"@.len()) == ".jsonl"@
}

/// The file name is that of a recording segment.
pub fn is_raw_segment_name(name: &str) -> (r: bool)
    ensures
        r == is_raw_segment(name@),
{
    let n = chars_of(name);
    starts_with_chars(&n, &chars_of("pulsar_")) && ends_with_chars(&n, &chars_of(".jsonl"))
}

/// `name` is the file name of the segment started at `millis`: `pulsar_`,
/// the UTC time as `%Y%m%d_%H%M%S_%3f`, then `.jsonl`.
pub open spec fn segment_name_at(millis: i64, name: Seq<char>) -> bool {
    exists|ct: CalendarTime|
        is_calendar_of(ct, millis as int) && name == "pulsar_"@ + stamp_text(ct) + ".jsonl"@
}

/// The file name of a segment started at `now_millis`.
pub fn segment_file_name(now_millis: i64) -> (r: String)
    requires
        in_calendar_range(now_millis),
    ensures
        segment_name_at(now_millis, r@),
{
    let stamp = utc_stamp(now_millis).unwrap();
    let mut name = "pulsar_".to_string();
    append_str(&mut name, stamp.as_str());
    append_str(&mut name, ".jsonl");
    name
}

/// The segment being written.
#[derive(Debug)]
pub struct ActiveSegment {
    pub name: String,
    pub bucket_key: Option<String>,
    pub bytes_written: u64,
}

/// The rotation state of a recorder: its policy and the segment it writes to.
#[derive(Debug)]
pub struct RecordingState {
    pub rotate: RotationPolicy,
    pub max_file_size_bytes: Option<u64>,
    pub keep_files: Option<usize>,
    pub active: Option<ActiveSegment>,
}

pub open spec fn key_view(k: Option<String>) -> Option<Seq<char>> {
    match k {
        Some(s) => Some(s@),
        None => None,
    }
}

/// A new segment is due when none is open, when the time left the open
/// segment's bucket, or when the open segment reached the size limit.
pub open spec fn rotation_due(
    rotate: RotationPolicy,
    limit: Option<u64>,
    active: Option<ActiveSegment>,
    now_key: Option<Seq<char>>,
) -> bool {
    match active {
        None => true,
        Some(a) => now_key != key_view(a.bucket_key) || match limit {
            Some(l) => a.bytes_written >= l,
            None => false,
        },
    }
}

fn same_key(a: &Option<String>, b: &Option<String>) -> (r: bool)
    ensures
        r == (key_view(*a) == key_view(*b)),
{
    match (a, b) {
        (Some(x), Some(y)) => chars_eq(&chars_of(x.as_str()), &chars_of(y.as_str())),
        (None, None) => true,
        _ => false,
    }
}

impl RecordingState {
    /// A recorder state with no open segment.
    pub fn new(options: &RecordRuntimeOptions) -> (r: Self)
        ensures
            r.rotate == options.rotate,
            r.max_file_size_bytes == options.max_file_size_bytes,
            r.keep_files == options.keep_files,
            r.active is None,
    {
        RecordingState {
            rotate: options.rotate,
            max_file_size_bytes: options.max_file_size_bytes,
            keep_files: options.keep_files,
            active: None,
        }
    }

    /// A snapshot written at `now_millis` needs a new segment.
    pub fn should_rotate(&self, now_millis: i64) -> (r: bool)
        requires
            in_calendar_range(now_millis),
        ensures
            exists|key: Option<Seq<char>>|
                bucket_at(self.rotate, now_millis, key) && r == rotation_due(
                    self.rotate,
                    self.max_file_size_bytes,
                    self.active,
                    key,
                ),
    {
        let now_key = self.rotate.bucket_key(now_millis);
        let ghost kv = key_view(now_key);
        match &self.active {
            None => true,
            Some(a) => {
                if !same_key(&now_key, &a.bucket_key) {
                    return true;
                }
                match self.max_file_size_bytes {
                    Some(limit) => a.bytes_written >= limit,
                    None => false,
                }
            },
        }
    }

    /// The name of the segment a snapshot written at `now_millis` must start,
    /// when one is due; `None` when the open segment takes it.
    pub fn segment_due(&self, now_millis: i64) -> (r: Option<String>)
        requires
            in_calendar_range(now_millis),
        ensures
            exists|key: Option<Seq<char>>|
                bucket_at(self.rotate, now_millis, key) && (r is Some) == rotation_due(
                    self.rotate,
                    self.max_file_size_bytes,
                    self.active,
                    key,
                ),
            r matches Some(n) ==> segment_name_at(now_millis, n@),
    {
        if self.should_rotate(now_millis) {
            Some(segment_file_name(now_millis))
        } else {
            None
        }
    }

    /// Starts writing the segment `name`, begun at `now_millis`.
    pub fn begin_segment(&mut self, name: String, now_millis: i64)
        requires
            in_calendar_range(now_millis),
        ensures
            final(self).rotate == old(self).rotate,
            final(self).max_file_size_bytes == old(self).max_file_size_bytes,
            final(self).keep_files == old(self).keep_files,
            final(self).active matches Some(a) && a.name == name && a.bytes_written == 0
                && bucket_at(old(self).rotate, now_millis, key_view(a.bucket_key)),
    {
        let key = self.rotate.bucket_key(now_millis);
        self.active = Some(ActiveSegment { name, bucket_key: key, bytes_written: 0 });
    }

    /// Counts a written line of `line_len` bytes and its newline.
    pub fn record_line(&mut self, line_len: u64)
        requires
            old(self).active matches Some(a) && a.bytes_written + line_len + 1 <= u64::MAX,
        ensures
            final(self).rotate == old(self).rotate,
            final(self).max_file_size_bytes == old(self).max_file_size_bytes,
            final(self).keep_files == old(self).keep_files,
            final(self).active matches Some(a) && old(self).active matches Some(b) && a.name == b.name
                && a.bucket_key == b.bucket_key && a.bytes_written == b.bytes_written + line_len + 1,
    {
        let mut active = self.active.take().unwrap();
        active.bytes_written = active.bytes_written + line_len + 1;
        self.active = Some(active);
    }
}

impl SortKey for String {
    open spec fn key_le(self, other: Self) -> bool {
        lex_le(self@, other@)
    }

    proof fn lemma_key_total(a: Self, b: Self) {
        lemma_lex_total(a@, b@);
    }

    proof fn lemma_key_trans(a: Self, b: Self, c: Self) {
        lemma_lex_trans(a@, b@, c@);
    }

    fn key_le_exec(&self, other: &Self) -> (r: bool) {
        lex_le_chars(&chars_of(self.as_str()), &chars_of(other.as_str()))
    }
}

pub open spec fn active_name_of(active: Option<ActiveSegment>) -> Option<Seq<char>> {
    match active {
        Some(a) => Some(a.name@),
        None => None,
    }
}

/// The raw segments among file names, in name order.
pub open spec fn raw_segments(names: Seq<String>) -> Seq<String> {
    names.filter(|n: String| is_raw_segment(n@))
}

/// How many of `count` old segments go so that, with the open one, at most
/// `keep` remain.
pub open spec fn removable_count(count: nat, keep: nat, has_active: bool) -> nat {
    let k = if has_active {
        if keep >= 1 {
            (keep - 1) as nat
        } else {
            0
        }
    } else {
        keep
    };
    if count >= k {
        (count - k) as nat
    } else {
        0
    }
}

/// `older` is the name-sorted list of raw segments other than the open one.
pub open spec fn older_segments(names: Seq<String>, active: Option<Seq<char>>, older: Seq<String>) -> bool {
    exists|sorted: Seq<String>|
        stable_sorted(raw_segments(names), sorted) && older == sorted.filter(
            |n: String| Some(n@) != active,
        )
}

impl RecordingState {
    /// The segments to delete so that at most `keep_files` remain (the open one
    /// included), oldest names first; none without a retention count.
    pub fn segments_to_prune(&self, names: Vec<String>) -> (r: Vec<String>)
        ensures
            match self.keep_files {
                None => r@.len() == 0,
                Some(keep) => exists|older: Seq<String>|
                    older_segments(names@, active_name_of(self.active), older) && r@ == older.take(
                        removable_count(older.len(), keep as nat, self.active is Some) as int,
                    ),
            },
    {
        let keep = match self.keep_files {
            Some(k) => k,
            None => return Vec::new(),
        };
        let ghost nv = names@;
        let total = names.len();
        let mut raw: Vec<String> = Vec::new();
        let mut i: usize = 0;
        let mut rest = names;
        let mut rev: Vec<String> = Vec::new();
        while rest.len() > 0
            invariant
                self.keep_files == Some(keep),
                rest@.len() + rev@.len() == nv.len(),
                forall|k: int| 0 <= k < rest@.len() ==> #[trigger] rest@[k] == nv[k],
                forall|k: int| 0 <= k < rev@.len() ==> #[trigger] rev@[k] == nv[nv.len() - 1 - k],
            decreases rest@.len(),
        {
            let x = rest.pop().unwrap();
            rev.push(x);
        }
        while rev.len() > 0
            invariant
                self.keep_files == Some(keep),
                total == nv.len(),
                i + rev@.len() == nv.len(),
                forall|k: int| 0 <= k < rev@.len() ==> #[trigger] rev@[k] == nv[nv.len() - 1 - k],
                raw@ == nv.take(i as int).filter(|n: String| is_raw_segment(n@)),
            decreases rev@.len(),
        {
            let x = rev.pop().unwrap();
            assert(x == nv[i as int]);
            assert(nv.take(i + 1).drop_last() == nv.take(i as int));
            reveal_with_fuel(Seq::filter, 1);
            if is_raw_segment_name(x.as_str()) {
                raw.push(x);
            }
            i = i + 1;
        }
        assert(nv.take(i as int) == nv);
        let sorted = stable_sort(raw);
        let ghost sv = sorted@;
        let total2 = sorted.len();
        let active_name: Option<Vec<char>> = match &self.active {
            Some(a) => Some(chars_of(a.name.as_str())),
            None => None,
        };
        let ghost av = active_name_of(self.active);
        let ghost pred = |n: String| Some(n@) != av;
        let mut older: Vec<String> = Vec::new();
        let mut src = sorted;
        let mut rev2: Vec<String> = Vec::new();
        while src.len() > 0
            invariant
                self.keep_files == Some(keep),
                src@.len() + rev2@.len() == sv.len(),
                forall|k: int| 0 <= k < src@.len() ==> #[trigger] src@[k] == sv[k],
                forall|k: int| 0 <= k < rev2@.len() ==> #[trigger] rev2@[k] == sv[sv.len() - 1 - k],
            decreases src@.len(),
        {
            let x = src.pop().unwrap();
            rev2.push(x);
        }
        let mut j: usize = 0;
        while rev2.len() > 0
            invariant
                self.keep_files == Some(keep),
                total2 == sv.len(),
                j + rev2@.len() == sv.len(),
                forall|k: int| 0 <= k < rev2@.len() ==> #[trigger] rev2@[k] == sv[sv.len() - 1 - k],
                older@ == sv.take(j as int).filter(pred),
                pred == (|n: String| Some(n@) != av),
                match active_name {
                    Some(v) => av == Some(v@),
                    None => av is None,
                },
            decreases rev2@.len(),
        {
            let x = rev2.pop().unwrap();
            assert(x == sv[j as int]);
            assert(sv.take(j + 1).drop_last() == sv.take(j as int));
            reveal_with_fuel(Seq::filter, 1);
            let is_active = match &active_name {
                Some(v) => chars_eq(&chars_of(x.as_str()), v),
                None => false,
            };
            if !is_active {
                older.push(x);
            }
            j = j + 1;
        }
        assert(sv.take(j as int) == sv);
        let k: usize = if self.active.is_some() {
            if keep >= 1 {
                keep - 1
            } else {
                0
            }
        } else {
            keep
        };
        let removable: usize = if older.len() >= k {
            older.len() - k
        } else {
            0
        };
        let ghost ov = older@;
        assert(raw_segments(nv) == nv.filter(|n: String| is_raw_segment(n@)));
        assert(stable_sorted(raw_segments(nv), sv));
        assert(ov == sv.filter(|n: String| Some(n@) != active_name_of(self.active)));
        assert(older_segments(nv, active_name_of(self.active), ov));
        older.truncate(removable);
        assert(older@ == ov.take(removable as int));
        older
    }
}

/// A rotation word names the same policy in any letter case.
pub proof fn lemma_policy_case_insensitive(value: Seq<char>)
    ensures
        policy_of(ascii_lower(value)) == policy_of(value),
{
    lemma_ascii_lower_idempotent(value);
}

/// An hourly bucket is the daily bucket of the same time followed by the
/// two-digit hour; a policy that never rotates has no bucket.
pub proof fn lemma_hourly_extends_daily(ct: CalendarTime)
    ensures
        bucket_of(RotationPolicy::Hourly, ct) == Some(
            bucket_of(RotationPolicy::Daily, ct)->0 + decimal_padded(ct.hour as nat, 2),
        ),
        bucket_of(RotationPolicy::Never, ct) is None,
{
}

/// Pruning removes the oldest segments only, never the open one, and leaves
/// at most `keep` segments, the open one included (a count of zero still
/// keeps the open segment).
pub proof fn lemma_prune_keeps_newest(
    names: Seq<String>,
    active: Option<Seq<char>>,
    keep: nat,
    older: Seq<String>,
    pruned: Seq<String>,
)
    requires
        older_segments(names, active, older),
        pruned == older.take(removable_count(older.len(), keep, active is Some) as int),
    ensures
        keep >= 1 || active is None ==> older.len() - pruned.len() + (if active is Some {
            1int
        } else {
            0
        }) <= keep,
        forall|i: int| 0 <= i < pruned.len() ==> Some((#[trigger] pruned[i])@) != active,
        forall|i: int, j: int|
            0 <= i < pruned.len() <= j < older.len() ==> lex_le(
                (#[trigger] pruned[i])@,
                (#[trigger] older[j])@,
            ),
{
    let sorted = choose|sorted: Seq<String>|
        stable_sorted(raw_segments(names), sorted) && older == sorted.filter(
            |n: String| Some(n@) != active,
        );
    let pred = |n: String| Some(n@) != active;
    let p = choose|p: Seq<int>| stable_perm(raw_segments(names), sorted, p);
    assert(sorted_by_key(sorted));
    lemma_filter_sorted(sorted, pred);
    broadcast use vstd::seq_lib::group_filter_ensures;
    assert forall|i: int| 0 <= i < pruned.len() implies Some((#[trigger] pruned[i])@) != active by {
        assert(pruned[i] == older[i]);
        assert(pred(older[i]));
    }
    assert forall|i: int, j: int|
        0 <= i < pruned.len() <= j < older.len() implies lex_le(
        (#[trigger] pruned[i])@,
        (#[trigger] older[j])@,
    ) by {
        assert(pruned[i] == older[i]);
        assert(older[i].key_le(older[j]));
    }
}

/// An instant falls in exactly one bucket of a policy.
pub proof fn lemma_bucket_unique(
    policy: RotationPolicy,
    millis: i64,
    a: Option<Seq<char>>,
    b: Option<Seq<char>>,
)
    requires
        bucket_at(policy, millis, a),
        bucket_at(policy, millis, b),
    ensures
        a == b,
{
    let ca = choose|ct: CalendarTime| is_calendar_of(ct, millis as int) && a == bucket_of(policy, ct);
    let cb = choose|ct: CalendarTime| is_calendar_of(ct, millis as int) && b == bucket_of(policy, ct);
    lemma_calendar_unique(ca, cb, millis as int);
}

/// A segment begun at an instant is not due for rotation at that instant,
/// unless the size limit is zero bytes.
pub proof fn lemma_fresh_segment_not_due(
    rotate: RotationPolicy,
    limit: Option<u64>,
    segment: ActiveSegment,
    now_millis: i64,
    now_key: Option<Seq<char>>,
)
    requires
        bucket_at(rotate, now_millis, key_view(segment.bucket_key)),
        bucket_at(rotate, now_millis, now_key),
        segment.bytes_written == 0,
        limit != Some(0u64),
    ensures
        !rotation_due(rotate, limit, Some(segment), now_key),
{
    lemma_bucket_unique(rotate, now_millis, key_view(segment.bucket_key), now_key);
}

/// Without time-based rotation, a segment is replaced only when it reaches
/// the size limit.
pub proof fn lemma_never_rotates_by_time(
    limit: Option<u64>,
    segment: ActiveSegment,
    began_millis: i64,
    now_millis: i64,
    now_key: Option<Seq<char>>,
)
    requires
        bucket_at(RotationPolicy::Never, began_millis, key_view(segment.bucket_key)),
        bucket_at(RotationPolicy::Never, now_millis, now_key),
    ensures
        rotation_due(RotationPolicy::Never, limit, Some(segment), now_key) == match limit {
            Some(l) => segment.bytes_written >= l,
            None => false,
        },
{
}

/// Every segment the recorder starts is one that pruning counts as a raw segment.
pub proof fn lemma_segment_names_are_raw(millis: i64, name: Seq<char>)
    requires
        segment_name_at(millis, name),
    ensures
        is_raw_segment(name),
{
    reveal_strlit("pulsar_");
    reveal_strlit(".jsonl");
    let ct = choose|ct: CalendarTime|
        is_calendar_of(ct, millis as int) && name == "pulsar_"@ + stamp_text(ct) + ".jsonl"@;
    let mid = stamp_text(ct);
    assert(name.take(7) =~= "pulsar_"@);
    assert(name.skip(name.len() - 6) =~= ".jsonl"@);
}

/// For instants of four-digit years, segment names sort as the instants do,
/// so pruning the first names in `str` order prunes the oldest segments.
#[verifier::spinoff_prover]
#[verifier::rlimit(40)]
pub proof fn lemma_segment_names_follow_time(
    a: i64,
    b: i64,
    ca: CalendarTime,
    cb: CalendarTime,
    name_a: Seq<char>,
    name_b: Seq<char>,
)
    requires
        is_calendar_of(ca, a as int),
        is_calendar_of(cb, b as int),
        0 <= ca.year <= 9999,
        0 <= cb.year <= 9999,
        a <= b,
        segment_name_at(a, name_a),
        segment_name_at(b, name_b),
    ensures
        lex_le(name_a, name_b),
{
    let xa = choose|ct: CalendarTime|
        is_calendar_of(ct, a as int) && name_a == "pulsar_"@ + stamp_text(ct) + ".jsonl"@;
    let xb = choose|ct: CalendarTime|
        is_calendar_of(ct, b as int) && name_b == "pulsar_"@ + stamp_text(ct) + ".jsonl"@;
    lemma_calendar_unique(xa, ca, a as int);
    lemma_calendar_unique(xb, cb, b as int);
    lemma_readings_follow_time(ca, cb, a as int, b as int);
    lemma_stamp_order(ca, cb);
    let sa = stamp_text(ca);
    let sb = stamp_text(cb);
    assert(name_a =~= "pulsar_"@ + (sa + ".jsonl"@));
    assert(name_b =~= "pulsar_"@ + (sb + ".jsonl"@));
    lemma_lex_common_prefix("pulsar_"@, sa + ".jsonl"@, sb + ".jsonl"@);
    lemma_lex_concat(sa, sb, ".jsonl"@, ".jsonl"@);
    lemma_lex_total(".jsonl"@, ".jsonl"@);
}

/// Where a snapshot lands: when a segment is due, in a new segment named for
/// the instant, whose byte count is the line and its newline; otherwise in the
/// open segment, whose count grows by the same. Either way the segment's
/// bucket is the instant's.
pub proof fn lemma_snapshot_lands(
    old: RecordingState,
    mid: RecordingState,
    fin: RecordingState,
    now_millis: i64,
    due: Option<Seq<char>>,
    line_len: u64,
)
    requires
        exists|key: Option<Seq<char>>|
            bucket_at(old.rotate, now_millis, key) && (due is Some) == rotation_due(
                old.rotate,
                old.max_file_size_bytes,
                old.active,
                key,
            ),
        due matches Some(n) ==> ((mid.active matches Some(a) && a.name@ == n && a.bytes_written
            == 0 && bucket_at(old.rotate, now_millis, key_view(a.bucket_key))) && segment_name_at(
            now_millis,
            n,
        ) && mid.rotate == old.rotate),
        due is None ==> mid == old,
        fin.active matches Some(a) && mid.active matches Some(b) && a.name == b.name
            && a.bucket_key == b.bucket_key && a.bytes_written == b.bytes_written + line_len + 1,
    ensures
        fin.active matches Some(a) && bucket_at(old.rotate, now_millis, key_view(a.bucket_key))
            && (match due {
            Some(n) => a.name@ == n && segment_name_at(now_millis, a.name@) && a.bytes_written
                == line_len + 1,
            None => (old.active matches Some(o) && a.name == o.name && a.bytes_written
                == o.bytes_written + line_len + 1),
        }),
{
    let key = choose|key: Option<Seq<char>>|
        bucket_at(old.rotate, now_millis, key) && (due is Some) == rotation_due(
            old.rotate,
            old.max_file_size_bytes,
            old.active,
            key,
        );
    if due is None {
        assert(old.active is Some);
        assert(key == key_view(old.active->0.bucket_key));
    }
}

} // verus!
