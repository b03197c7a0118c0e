//! Alert labels and message truncation of the alerts panel.
use vstd::prelude::*;
use crate::collectors::{Alert, AlertLevel};
use crate::log_sources::{keep_first, rank_of};
use crate::tui::dashboard::{Segment, Tone};
use crate::numbers::push_decimal;
use crate::text::decimal;
use crate::reference::Locale;
use crate::text::{append_str, chars_of, push_char};
use crate::tui::i18n::text;

verus! {

/// Short label of an alert level; French says `ALRT` for warnings.
pub open spec fn label_of_level(level: AlertLevel, locale: Locale) -> &'static str {
    match level {
        AlertLevel::Critical => "CRIT",
        AlertLevel::Warning => match locale {
            Locale::Fr => "ALRT",
            Locale::En => "WARN",
        },
        AlertLevel::Info => "INFO",
    }
}

/// Short label of an alert level.
pub fn level_label(level: &AlertLevel, locale: Locale) -> (r: &'static str)
    ensures
        r == label_of_level(*level, locale),
{
    match level {
        AlertLevel::Critical => text(locale, "CRIT", "CRIT"),
        AlertLevel::Warning => text(locale, "ALRT", "WARN"),
        AlertLevel::Info => text(locale, "INFO", "INFO"),
    }
}

/// The text cut to at most `max_chars` characters: when too long, its first
/// `max_chars - 1` characters and an ellipsis.
pub open spec fn truncated(value: Seq<char>, max_chars: nat) -> Seq<char> {
    if value.len() <= max_chars {
        value
    } else {
        value.take(if max_chars >= 1 {
            max_chars - 1
        } else {
            0
        }) + "…"@
    }
}

/// The text cut to at most `max_chars` characters, with an ellipsis when cut.
pub fn truncate_text(value: &str, max_chars: usize) -> (r: String)
    ensures
        r@ == truncated(value@, max_chars as nat),
{
    let v = chars_of(value);
    if v.len() <= max_chars {
        return value.to_string();
    }
    let keep: usize = if max_chars >= 1 {
        max_chars - 1
    } else {
        0
    };
    let mut r = String::new();
    for i in 0..keep
        invariant
            keep < v.len(),
            r@ == v@.take(i as int),
    {
        push_char(&mut r, v[i]);
        assert(v@.take(i + 1) == v@.take(i as int).push(v@[i as int]));
    }
    append_str(&mut r, "…");
    r
}

/// A text that fits is kept whole; a longer one is cut to exactly
/// `max_chars` characters (for a limit of at least one), ending in an ellipsis
/// after a prefix of the text.
pub proof fn lemma_truncated_fits(value: Seq<char>, max_chars: nat)
    ensures
        value.len() <= max_chars ==> truncated(value, max_chars) == value,
        value.len() > max_chars && max_chars >= 1 ==> truncated(value, max_chars).len() == max_chars,
        value.len() > max_chars ==> truncated(value, max_chars).last() == '…'
            && truncated(value, max_chars).drop_last() =~= value.take(
            truncated(value, max_chars).len() - 1,
        ),
{
    reveal_strlit("…");
}

/// One line of the alerts panel: the level label, how it is drawn, and the
/// message cut to the panel's width.
#[derive(Debug, Clone)]
pub struct AlertLine {
    pub label: &'static str,
    pub tone: Tone,
    pub message: String,
}

/// Warnings and critical alerts are drawn as alerts, the rest highlighted.
pub open spec fn tone_of_level(level: AlertLevel) -> Tone {
    match level {
        AlertLevel::Critical | AlertLevel::Warning => Tone::Alert,
        AlertLevel::Info => Tone::Highlight,
    }
}

/// Within a language, different levels get different four-letter labels,
/// and only English and French differ, on warnings; an alert is drawn as an
/// alert exactly when it is a warning or worse.
pub proof fn lemma_level_labels(a: AlertLevel, b: AlertLevel, locale: Locale)
    ensures
        a != b ==> label_of_level(a, locale)@ != label_of_level(b, locale)@,
        label_of_level(a, locale)@.len() == 4,
        a != AlertLevel::Warning ==> label_of_level(a, Locale::Fr) == label_of_level(a, Locale::En),
        (tone_of_level(a) == Tone::Alert) <==> rank_of(a) >= 2,
{
    reveal_strlit("CRIT");
    reveal_strlit("ALRT");
    reveal_strlit("WARN");
    reveal_strlit("INFO");
    if a != b {
        assert(label_of_level(a, locale)@[0] != label_of_level(b, locale)@[0]);
    }
}

/// The lines of the alerts panel: one per alert, as many as the panel is
/// tall, each message cut to the width less five columns.
pub open spec fn alert_lines_view(alerts: Seq<Alert>, height: nat, width: nat, locale: Locale) -> Seq<
    (&'static str, Tone, Seq<char>),
> {
    keep_first(alerts, height).map_values(
        |a: Alert|
            (
                label_of_level(a.level, locale),
                tone_of_level(a.level),
                truncated(
                    a.message@,
                    if width >= 5 {
                        (width - 5) as nat
                    } else {
                        0
                    },
                ),
            ),
    )
}

/// The lines of the alerts panel for its height and width.
pub fn alert_lines(alerts: &[Alert], height: u16, width: u16, locale: Locale) -> (r: Vec<AlertLine>)
    ensures
        r@.map_values(|l: AlertLine| (l.label, l.tone, l.message@)) == alert_lines_view(
            alerts@,
            height as nat,
            width as nat,
            locale,
        ),
{
    let max_chars: usize = if width >= 5 {
        (width - 5) as usize
    } else {
        0
    };
    let count: usize = if alerts.len() < height as usize {
        alerts.len()
    } else {
        height as usize
    };
    let ghost want = alert_lines_view(alerts@, height as nat, width as nat, locale);
    let mut r: Vec<AlertLine> = Vec::new();
    for i in 0..count
        invariant
            count <= alerts@.len(),
            count == keep_first(alerts@, height as nat).len(),
            want == alert_lines_view(alerts@, height as nat, width as nat, locale),
            max_chars == (if width >= 5 {
                (width - 5) as nat
            } else {
                0
            }),
            r@.map_values(|l: AlertLine| (l.label, l.tone, l.message@)) == want.take(i as int),
    {
        let alert = &alerts[i];
        let tone = match alert.level {
            AlertLevel::Critical | AlertLevel::Warning => Tone::Alert,
            AlertLevel::Info => Tone::Highlight,
        };
        let line = AlertLine {
            label: level_label(&alert.level, locale),
            tone,
            message: truncate_text(alert.message.as_str(), max_chars),
        };
        let ghost before = r@;
        assert(keep_first(alerts@, height as nat)[i as int] == alerts@[i as int]);
        assert(tone == tone_of_level(alerts@[i as int].level));
        assert(want[i as int] == (line.label, line.tone, line.message@));
        r.push(line);
        assert(r@.map_values(|l: AlertLine| (l.label, l.tone, l.message@)) =~= before.map_values(
            |l: AlertLine| (l.label, l.tone, l.message@),
        ).push(want[i as int]));
        assert(want.take(i + 1) =~= want.take(i as int).push(want[i as int]));
    }
    assert(want.take(count as int) =~= want);
    r
}

/// The panel title: ` ◉ ALERTES (n) ` or ` ◉ ALERTS (n) `, drawn as an alert
/// when the panel is highlighted.
pub fn alerts_title(count: usize, locale: Locale, highlighted: bool) -> (r: Segment)
    ensures
        r.text@ == " ◉ "@ + (match locale {
            Locale::Fr => "ALERTES"@,
            Locale::En => "ALERTS"@,
        }) + " ("@ + decimal(count as nat) + ") "@,
        r.tone == (if highlighted {
            Tone::Alert
        } else {
            Tone::Title
        }),
{
    let mut t = " ◉ ".to_string();
    append_str(&mut t, text(locale, "ALERTES", "ALERTS"));
    append_str(&mut t, " (");
    push_decimal(&mut t, count as u64);
    append_str(&mut t, ") ");
    Segment {
        text: t,
        tone: if highlighted {
            Tone::Alert
        } else {
            Tone::Title
        },
    }
}

/// What the panel says when there is no alert.
pub fn no_alerts_text(locale: Locale) -> (r: &'static str)
    ensures
        r == (match locale {
            Locale::Fr => "Aucune alerte active",
            Locale::En => "No active alerts",
        }),
{
    text(locale, "Aucune alerte active", "No active alerts")
}

} // verus!
