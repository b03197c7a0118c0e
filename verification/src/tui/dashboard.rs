//! Dashboard state: which panels show, the operator mode that presets them,
//! and how the reference pane ranks and highlights entries.
use vstd::prelude::*;
use crate::calendar::{clock_text, is_calendar_of, CalendarTime};
use crate::external::utc_clock;
use crate::numbers::push_decimal;
use crate::reference::{
    catalog, catalog_hits, catalog_views, panel_has_match, panel_matches_query, search, view_of,
    Locale, ReferenceEntry, SearchHit,
};
use crate::sort::{stable_sort, stable_sorted};
use crate::text::{append_str, chars_eq, chars_of, decimal, normalize_spec};

verus! {

/// The monitoring panels.
#[derive(Debug, Clone, Copy, PartialEq, Eq, Structural)]
pub enum Panel {
    System,
    Cpu,
    Memory,
    Linux,
    Disk,
    Network,
    Alerts,
    Process,
}

/// Which panels are shown.
#[derive(Debug, Clone, Copy, PartialEq, Eq, Structural)]
pub struct PanelVisibility {
    pub system: bool,
    pub cpu: bool,
    pub memory: bool,
    pub linux: bool,
    pub disk: bool,
    pub network: bool,
    pub alerts: bool,
    pub process: bool,
}

pub open spec fn shows(v: PanelVisibility, panel: Panel) -> bool {
    match panel {
        Panel::System => v.system,
        Panel::Cpu => v.cpu,
        Panel::Memory => v.memory,
        Panel::Linux => v.linux,
        Panel::Disk => v.disk,
        Panel::Network => v.network,
        Panel::Alerts => v.alerts,
        Panel::Process => v.process,
    }
}

/// The visibility with one panel flipped.
pub open spec fn toggled(v: PanelVisibility, panel: Panel) -> PanelVisibility {
    match panel {
        Panel::System => PanelVisibility { system: !v.system, ..v },
        Panel::Cpu => PanelVisibility { cpu: !v.cpu, ..v },
        Panel::Memory => PanelVisibility { memory: !v.memory, ..v },
        Panel::Linux => PanelVisibility { linux: !v.linux, ..v },
        Panel::Disk => PanelVisibility { disk: !v.disk, ..v },
        Panel::Network => PanelVisibility { network: !v.network, ..v },
        Panel::Alerts => PanelVisibility { alerts: !v.alerts, ..v },
        Panel::Process => PanelVisibility { process: !v.process, ..v },
    }
}

pub open spec fn b2n(b: bool) -> nat {
    if b {
        1
    } else {
        0
    }
}

/// Number of panels shown.
pub open spec fn shown_count(v: PanelVisibility) -> nat {
    b2n(v.system) + b2n(v.cpu) + b2n(v.memory) + b2n(v.linux) + b2n(v.disk) + b2n(v.network)
        + b2n(v.alerts) + b2n(v.process)
}

pub open spec fn all_shown() -> PanelVisibility {
    PanelVisibility {
        system: true,
        cpu: true,
        memory: true,
        linux: true,
        disk: true,
        network: true,
        alerts: true,
        process: true,
    }
}

impl Default for PanelVisibility {
    /// Every panel shown.
    fn default() -> (r: Self)
        ensures
            r == all_shown(),
    {
        PanelVisibility {
            system: true,
            cpu: true,
            memory: true,
            linux: true,
            disk: true,
            network: true,
            alerts: true,
            process: true,
        }
    }
}

impl PanelVisibility {
    /// Shows a hidden panel or hides a shown one.
    pub fn toggle(&mut self, panel: Panel)
        ensures
            *final(self) == toggled(*old(self), panel),
    {
        match panel {
            Panel::System => self.system = !self.system,
            Panel::Cpu => self.cpu = !self.cpu,
            Panel::Memory => self.memory = !self.memory,
            Panel::Linux => self.linux = !self.linux,
            Panel::Disk => self.disk = !self.disk,
            Panel::Network => self.network = !self.network,
            Panel::Alerts => self.alerts = !self.alerts,
            Panel::Process => self.process = !self.process,
        }
    }

    /// The panel is shown.
    pub fn is_visible(&self, panel: Panel) -> (r: bool)
        ensures
            r == shows(*self, panel),
    {
        match panel {
            Panel::System => self.system,
            Panel::Cpu => self.cpu,
            Panel::Memory => self.memory,
            Panel::Linux => self.linux,
            Panel::Disk => self.disk,
            Panel::Network => self.network,
            Panel::Alerts => self.alerts,
            Panel::Process => self.process,
        }
    }

    /// How many panels are shown.
    pub fn visible_count(&self) -> (r: usize)
        ensures
            r == shown_count(*self),
    {
        let flags = [
            self.system,
            self.cpu,
            self.memory,
            self.linux,
            self.disk,
            self.network,
            self.alerts,
            self.process,
        ];
        let mut count: usize = 0;
        for i in 0..8
            invariant
                flags@ == seq![
                    self.system,
                    self.cpu,
                    self.memory,
                    self.linux,
                    self.disk,
                    self.network,
                    self.alerts,
                    self.process,
                ],
                count == count_true(flags@.take(i as int)),
                count <= i,
        {
            assert(flags@.take(i + 1).drop_last() == flags@.take(i as int));
            if flags[i] {
                count = count + 1;
            }
        }
        assert(flags@.take(8) == flags@);
        proof {
            reveal_with_fuel(count_true, 9);
        }
        count
    }
}

pub open spec fn count_true(s: Seq<bool>) -> nat
    decreases s.len(),
{
    if s.len() == 0 {
        0
    } else {
        count_true(s.drop_last()) + b2n(s.last())
    }
}

/// The operator modes, each with its preset panels.
#[derive(Debug, Clone, Copy, PartialEq, Eq, Structural)]
pub enum OperatorMode {
    Overview,
    Storage,
    Network,
    Process,
    Pressure,
    Full,
}

/// The panels that each operator mode shows.
pub open spec fn preset(mode: OperatorMode) -> PanelVisibility {
    match mode {
        OperatorMode::Overview => PanelVisibility {
            system: true,
            cpu: true,
            memory: true,
            linux: false,
            disk: false,
            network: false,
            alerts: true,
            process: true,
        },
        OperatorMode::Storage => PanelVisibility {
            system: false,
            cpu: false,
            memory: true,
            linux: true,
            disk: true,
            network: false,
            alerts: true,
            process: true,
        },
        OperatorMode::Network => PanelVisibility {
            system: true,
            cpu: true,
            memory: false,
            linux: true,
            disk: false,
            network: true,
            alerts: true,
            process: false,
        },
        OperatorMode::Process => PanelVisibility {
            system: true,
            cpu: true,
            memory: true,
            linux: false,
            disk: false,
            network: false,
            alerts: true,
            process: true,
        },
        OperatorMode::Pressure => PanelVisibility {
            system: false,
            cpu: true,
            memory: true,
            linux: true,
            disk: true,
            network: false,
            alerts: true,
            process: false,
        },
        OperatorMode::Full => all_shown(),
    }
}

pub open spec fn in_words(s: Seq<char>, ws: Seq<Seq<char>>) -> bool {
    exists|i: int| 0 <= i < ws.len() && ws[i] == s
}

/// The panels and categories that a mode ranks first in the reference index.
pub open spec fn prefers(mode: OperatorMode, panel: Seq<char>, category: Seq<char>) -> bool {
    match mode {
        OperatorMode::Overview => in_words(
            panel,
            seq!["system"@, "cpu"@, "memory"@, "alerts"@, "process"@],
        ),
        OperatorMode::Storage => in_words(panel, seq!["disk"@, "linux"@, "memory"@, "alerts"@]),
        OperatorMode::Network => in_words(panel, seq!["network"@, "system"@, "cpu"@, "linux"@]),
        OperatorMode::Process => in_words(panel, seq!["process"@, "cpu"@, "memory"@, "alerts"@]),
        OperatorMode::Pressure => in_words(
            panel,
            seq!["memory"@, "linux"@, "alerts"@, "disk"@, "cpu"@],
        ) || in_words(category, seq!["memory"@, "linux"@, "disk"@]),
        OperatorMode::Full => true,
    }
}

/// Rank of a catalog entry in the unsearched index: preferred entries count
/// down from 10 000, the others from 1 000, both by catalog position.
pub open spec fn bias(mode: OperatorMode, panel: Seq<char>, category: Seq<char>, index: nat) -> nat {
    let base: nat = if prefers(mode, panel, category) {
        10_000
    } else {
        1_000
    };
    if index <= base {
        (base - index) as nat
    } else {
        0
    }
}

fn one_of(s: &str, words: &[&str]) -> (r: bool)
    ensures
        r == in_words(s@, words@.map_values(|w: &str| w@)),
{
    let v = chars_of(s);
    let ghost wv = words@.map_values(|w: &str| w@);
    for i in 0..words.len()
        invariant
            v@ == s@,
            wv == words@.map_values(|w: &str| w@),
            forall|k: int| 0 <= k < i ==> wv[k] != s@,
    {
        if chars_eq(&v, &chars_of(words[i])) {
            assert(wv[i as int] == s@);
            return true;
        }
    }
    false
}

/// The name a mode is shown by.
pub open spec fn label_of(mode: OperatorMode) -> &'static str {
    match mode {
        OperatorMode::Overview => "overview",
        OperatorMode::Storage => "storage",
        OperatorMode::Network => "network",
        OperatorMode::Process => "process",
        OperatorMode::Pressure => "pressure",
        OperatorMode::Full => "full",
    }
}

impl OperatorMode {
    /// The name the mode is shown by.
    pub fn label(self) -> (r: &'static str)
        ensures
            r == label_of(self),
    {
        match self {
            OperatorMode::Overview => "overview",
            OperatorMode::Storage => "storage",
            OperatorMode::Network => "network",
            OperatorMode::Process => "process",
            OperatorMode::Pressure => "pressure",
            OperatorMode::Full => "full",
        }
    }

    /// The panels the mode shows.
    pub fn visibility(self) -> (r: PanelVisibility)
        ensures
            r == preset(self),
    {
        match self {
            OperatorMode::Overview => PanelVisibility {
                system: true,
                cpu: true,
                memory: true,
                linux: false,
                disk: false,
                network: false,
                alerts: true,
                process: true,
            },
            OperatorMode::Storage => PanelVisibility {
                system: false,
                cpu: false,
                memory: true,
                linux: true,
                disk: true,
                network: false,
                alerts: true,
                process: true,
            },
            OperatorMode::Network => PanelVisibility {
                system: true,
                cpu: true,
                memory: false,
                linux: true,
                disk: false,
                network: true,
                alerts: true,
                process: false,
            },
            OperatorMode::Process => PanelVisibility {
                system: true,
                cpu: true,
                memory: true,
                linux: false,
                disk: false,
                network: false,
                alerts: true,
                process: true,
            },
            OperatorMode::Pressure => PanelVisibility {
                system: false,
                cpu: true,
                memory: true,
                linux: true,
                disk: true,
                network: false,
                alerts: true,
                process: false,
            },
            OperatorMode::Full => PanelVisibility::default(),
        }
    }

    /// Rank of a catalog entry in the unsearched index of the mode.
    pub fn reference_bias(self, panel: &str, category: &str, index: usize) -> (r: usize)
        ensures
            r == bias(self, panel@, category@, index as nat),
    {
        let w1: &[&str] = &["system", "cpu", "memory", "alerts", "process"];
        let w2: &[&str] = &["disk", "linux", "memory", "alerts"];
        let w3: &[&str] = &["network", "system", "cpu", "linux"];
        let w4: &[&str] = &["process", "cpu", "memory", "alerts"];
        let w5: &[&str] = &["memory", "linux", "alerts", "disk", "cpu"];
        let w6: &[&str] = &["memory", "linux", "disk"];
        assert(w1@.map_values(|w: &str| w@) =~= seq!["system"@, "cpu"@, "memory"@, "alerts"@, "process"@]);
        assert(w2@.map_values(|w: &str| w@) =~= seq!["disk"@, "linux"@, "memory"@, "alerts"@]);
        assert(w3@.map_values(|w: &str| w@) =~= seq!["network"@, "system"@, "cpu"@, "linux"@]);
        assert(w4@.map_values(|w: &str| w@) =~= seq!["process"@, "cpu"@, "memory"@, "alerts"@]);
        assert(w5@.map_values(|w: &str| w@) =~= seq!["memory"@, "linux"@, "alerts"@, "disk"@, "cpu"@]);
        assert(w6@.map_values(|w: &str| w@) =~= seq!["memory"@, "linux"@, "disk"@]);
        let preferred = match self {
            OperatorMode::Overview => one_of(panel, w1),
            OperatorMode::Storage => one_of(panel, w2),
            OperatorMode::Network => one_of(panel, w3),
            OperatorMode::Process => one_of(panel, w4),
            OperatorMode::Pressure => one_of(panel, w5) || one_of(category, w6),
            OperatorMode::Full => true,
        };
        if preferred {
            10_000usize.saturating_sub(index)
        } else {
            1_000usize.saturating_sub(index)
        }
    }
}

/// State of the reference pane: shown, typing, the query and the selection.
#[derive(Debug, Clone)]
pub struct ReferenceUiState {
    pub visible: bool,
    pub input_active: bool,
    pub query: String,
    pub selected: usize,
}

impl Default for ReferenceUiState {
    fn default() -> (r: Self)
        ensures
            !r.visible && !r.input_active && r.query@.len() == 0 && r.selected == 0,
    {
        ReferenceUiState { visible: false, input_active: false, query: String::new(), selected: 0 }
    }
}

/// The dashboard: theme name, shown panels and operator mode.
pub struct Dashboard {
    pub theme_name: String,
    visibility: PanelVisibility,
    operator_mode: OperatorMode,
}

/// The key that the reference catalog uses for a panel.
pub open spec fn panel_key_of(panel: Panel) -> &'static str {
    match panel {
        Panel::System => "system",
        Panel::Cpu => "cpu",
        Panel::Memory => "memory",
        Panel::Linux => "linux",
        Panel::Disk => "disk",
        Panel::Network => "network",
        Panel::Alerts => "alerts",
        Panel::Process => "process",
    }
}

/// The unsearched index of a mode: every entry in French, ranked by the mode's bias.
pub open spec fn biased_index(mode: OperatorMode) -> Seq<SearchHit> {
    catalog().map(
        |i: int, e: ReferenceEntry|
            SearchHit {
                score: bias(mode, e.panel@, e.panel@, i as nat) as usize,
                entry: view_of(e, Locale::Fr),
            },
    )
}

impl Dashboard {
    pub closed spec fn shown(&self) -> PanelVisibility {
        self.visibility
    }

    pub closed spec fn mode(&self) -> OperatorMode {
        self.operator_mode
    }

    pub closed spec fn theme(&self) -> Seq<char> {
        self.theme_name@
    }

    /// A dashboard in full mode with every panel shown, using the named theme.
    pub fn new(theme_name: &str) -> (r: Self)
        ensures
            r.theme() == theme_name@,
            r.shown() == all_shown(),
            r.mode() == OperatorMode::Full,
    {
        Dashboard {
            theme_name: theme_name.to_string(),
            visibility: PanelVisibility::default(),
            operator_mode: OperatorMode::Full,
        }
    }

    /// Switches to the theme that follows the current one (`next_theme_name`).
    pub fn cycle_theme(&mut self, next_theme_name: &str)
        ensures
            final(self).theme() == next_theme_name@,
            final(self).shown() == old(self).shown(),
            final(self).mode() == old(self).mode(),
    {
        self.theme_name = next_theme_name.to_string();
    }

    /// Shows a hidden panel or hides a shown one.
    pub fn toggle_panel(&mut self, panel: Panel)
        ensures
            final(self).shown() == toggled(old(self).shown(), panel),
            final(self).mode() == old(self).mode(),
            final(self).theme() == old(self).theme(),
    {
        self.visibility.toggle(panel);
    }

    /// Enters a mode and shows its preset panels.
    pub fn set_operator_mode(&mut self, mode: OperatorMode)
        ensures
            final(self).mode() == mode,
            final(self).shown() == preset(mode),
            final(self).theme() == old(self).theme(),
    {
        self.operator_mode = mode;
        self.visibility = mode.visibility();
    }

    /// The current operator mode.
    pub fn operator_mode(&self) -> (r: OperatorMode)
        ensures
            r == self.mode(),
    {
        self.operator_mode
    }

    /// The panel is shown.
    pub fn is_panel_visible(&self, panel: Panel) -> (r: bool)
        ensures
            r == shows(self.shown(), panel),
    {
        self.visibility.is_visible(panel)
    }

    /// How many panels are shown.
    pub fn visible_count(&self) -> (r: usize)
        ensures
            r == shown_count(self.shown()),
    {
        self.visibility.visible_count()
    }

    /// The catalog key of a panel.
    pub fn panel_key(&self, panel: Panel) -> (r: &'static str)
        ensures
            r == panel_key_of(panel),
    {
        match panel {
            Panel::System => "system",
            Panel::Cpu => "cpu",
            Panel::Memory => "memory",
            Panel::Linux => "linux",
            Panel::Disk => "disk",
            Panel::Network => "network",
            Panel::Alerts => "alerts",
            Panel::Process => "process",
        }
    }

    /// A panel is highlighted when some reference entry of it matches the query.
    pub fn panel_highlighted(&self, panel: Panel, reference: &ReferenceUiState) -> (r: bool)
        ensures
            r == (normalize_spec(reference.query@).len() > 0 && panel_has_match(
                panel_key_of(panel)@,
                normalize_spec(reference.query@),
            )),
    {
        panel_matches_query(self.panel_key(panel), reference.query.as_str())
    }

    /// The shown panels among `panels`, in order.
    pub fn visible_panels(&self, panels: &[Panel]) -> (r: Vec<Panel>)
        ensures
            r@ == panels@.filter(|p: Panel| shows(self.shown(), p)),
    {
        let mut r: Vec<Panel> = Vec::new();
        for i in 0..panels.len()
            invariant
                r@ == panels@.take(i as int).filter(|p: Panel| shows(self.shown(), p)),
        {
            assert(panels@.take(i + 1).drop_last() == panels@.take(i as int));
            reveal_with_fuel(Seq::filter, 1);
            if self.visibility.is_visible(panels[i]) {
                r.push(panels[i]);
            }
        }
        assert(panels@.take(panels.len() as int) == panels@);
        r
    }

    /// The reference pane's entries: the whole index ranked by the mode when
    /// the query is empty, otherwise the search hits.
    pub fn reference_hits(&self, reference: &ReferenceUiState) -> (r: Vec<SearchHit>)
        ensures
            reference.query@.len() == 0 ==> stable_sorted(biased_index(self.mode()), r@),
            reference.query@.len() > 0 ==> stable_sorted(
                catalog_hits(normalize_spec(reference.query@), Locale::Fr),
                r@,
            ),
    {
        if chars_of(reference.query.as_str()).len() == 0 {
            let views = catalog_views(Locale::Fr);
            let ghost want = biased_index(self.operator_mode);
            let mut hits: Vec<SearchHit> = Vec::new();
            for i in 0..views.len()
                invariant
                    views@ == catalog().map_values(|e: ReferenceEntry| view_of(e, Locale::Fr)),
                    want == biased_index(self.operator_mode),
                    hits@ == want.take(i as int),
            {
                let entry = views[i];
                let score = self.operator_mode.reference_bias(entry.panel, entry.panel, i);
                hits.push(SearchHit { score, entry });
                assert(want.take(i + 1) == want.take(i as int).push(want[i as int]));
            }
            assert(want.take(views.len() as int) == want);
            stable_sort(hits)
        } else {
            search(reference.query.as_str(), Locale::Fr)
        }
    }
}

// ---------------------------------------------------------------------------
// Header and footer lines
// ---------------------------------------------------------------------------
/// How a piece of the header or footer line is drawn.
#[derive(Debug, Clone, Copy, PartialEq, Eq, Structural)]
pub enum Tone {
    Plain,
    Title,
    Highlight,
    Muted,
    Alert,
}

/// A piece of text and how it is drawn.
#[derive(Debug, Clone)]
pub struct Segment {
    pub text: String,
    pub tone: Tone,
}

pub open spec fn segments_view(v: Seq<Segment>) -> Seq<(Seq<char>, Tone)> {
    v.map_values(|s: Segment| (s.text@, s.tone))
}

fn push_segment(out: &mut Vec<Segment>, text: String, tone: Tone)
    ensures
        segments_view(final(out)@) == segments_view(old(out)@).push((text@, tone)),
{
    let ghost before = out@;
    out.push(Segment { text, tone });
    assert(segments_view(out@) =~= segments_view(before).push((text@, tone)));
}

/// `key:label` when the panel shows, `key:label off` when it is hidden.
#[verifier::opaque]
pub open spec fn toggle_view(key: Seq<char>, label: Seq<char>, visible: bool) -> (Seq<char>, Tone) {
    if visible {
        (key + ":"@ + label, Tone::Highlight)
    } else {
        (key + ":"@ + label + " off"@, Tone::Muted)
    }
}

/// The footer toggle of one panel.
pub fn toggle_segment(key: &str, label: &str, visible: bool) -> (r: Segment)
    ensures
        (r.text@, r.tone) == toggle_view(key@, label@, visible),
{
    reveal(toggle_view);
    let mut text = String::new();
    append_str(&mut text, key);
    append_str(&mut text, ":");
    append_str(&mut text, label);
    if visible {
        Segment { text, tone: Tone::Highlight }
    } else {
        append_str(&mut text, " off");
        Segment { text, tone: Tone::Muted }
    }
}

/// The key hints of the footer, the `esc` hint depending on what is open.
pub open spec fn footer_keys(theme: Seq<char>, input_active: bool, visible: bool) -> Seq<
    (Seq<char>, Tone),
> {
    seq![
        (" q"@, Tone::Highlight),
        (":quit  "@, Tone::Plain),
        ("r"@, Tone::Highlight),
        (":refresh  "@, Tone::Plain),
        ("t"@, Tone::Highlight),
        (":theme("@ + theme + ")  "@, Tone::Plain),
        ("/"@, Tone::Highlight),
        (":search  "@, Tone::Plain),
        ("?"@, Tone::Highlight),
        (":index  "@, Tone::Plain),
        ("esc"@, Tone::Highlight),
        (if input_active {
            ":close search  "@
        } else if visible {
            ":close index  "@
        } else {
            ":clear  "@
        }, Tone::Plain),
    ]
}

/// The operator mode hints of the footer.
pub open spec fn footer_modes() -> Seq<(Seq<char>, Tone)> {
    seq![
        ("1"@, Tone::Highlight),
        (":overview  "@, Tone::Plain),
        ("2"@, Tone::Highlight),
        (":storage  "@, Tone::Plain),
        ("3"@, Tone::Highlight),
        (":network  "@, Tone::Plain),
        ("4"@, Tone::Highlight),
        (":process  "@, Tone::Plain),
        ("5"@, Tone::Highlight),
        (":pressure  "@, Tone::Plain),
        ("6"@, Tone::Highlight),
        (":full  "@, Tone::Plain),
    ]
}

/// The panel toggles of the footer, one per panel.
pub open spec fn footer_toggles(v: PanelVisibility) -> Seq<(Seq<char>, Tone)> {
    seq![
        toggle_view("s"@, "sys"@, v.system),
        (" "@, Tone::Plain),
        toggle_view("c"@, "cpu"@, v.cpu),
        (" "@, Tone::Plain),
        toggle_view("m"@, "mem"@, v.memory),
        (" "@, Tone::Plain),
        toggle_view("l"@, "linux"@, v.linux),
        (" "@, Tone::Plain),
        toggle_view("d"@, "disk"@, v.disk),
        (" "@, Tone::Plain),
        toggle_view("n"@, "net"@, v.network),
        (" "@, Tone::Plain),
        toggle_view("a"@, "alerts"@, v.alerts),
        (" "@, Tone::Plain),
        toggle_view("p"@, "proc"@, v.process),
    ]
}

/// The counters of the footer: shown panels, alerts by level, the query.
pub open spec fn footer_status(
    v: PanelVisibility,
    query: Seq<char>,
    alerts: nat,
    warnings: nat,
    criticals: nat,
) -> Seq<(Seq<char>, Tone)> {
    seq![
        ("  visible:"@ + decimal(shown_count(v)) + "/8  "@, Tone::Plain),
        ("alerts:"@ + decimal(alerts) + " w:"@ + decimal(warnings) + " c:"@ + decimal(criticals)
            + "  "@, if alerts > 0 {
            Tone::Alert
        } else {
            Tone::Highlight
        }),
        ("  "@, Tone::Plain),
        if query.len() == 0 {
            ("reference:all"@, Tone::Muted)
        } else {
            ("reference:"@ + query, Tone::Highlight)
        },
        ("  Pulsar v0.1.0 — Kevin Vanden-Brande"@, Tone::Plain),
    ]
}

/// The header line: title, host, system, uptime and clock, the mode, and
/// the search state.
pub open spec fn header_view(
    hostname: Option<&str>,
    os_name: Option<&str>,
    uptime_seconds: Option<u64>,
    clock: Seq<char>,
    mode: OperatorMode,
    query: Seq<char>,
) -> Seq<(Seq<char>, Tone)> {
    let host = match hostname {
        Some(h) => h@,
        None => "unknown"@,
    };
    let os = match os_name {
        Some(o) => o@,
        None => seq![],
    };
    let uptime = match uptime_seconds {
        Some(u) => uptime_text(u as nat),
        None => seq![],
    };
    seq![
        (" ◉ PULSAR "@, Tone::Title),
        ("  "@ + host + "  "@ + os + "  "@ + uptime + "  "@ + clock, Tone::Plain),
        ("  "@, Tone::Plain),
        ("mode:"@ + label_of(mode)@, Tone::Highlight),
        ("  "@, Tone::Plain),
        if query.len() == 0 {
            ("index:off"@, Tone::Muted)
        } else {
            ("search:"@ + query, Tone::Highlight)
        },
    ]
}

/// The clock of a snapshot taken at `timestamp` seconds: its UTC `HH:MM:SS`,
/// or nothing when the calendar has no date for it.
pub fn snapshot_clock(timestamp: i64) -> (r: String)
    ensures
        r@.len() == 0 || exists|ct: CalendarTime|
            is_calendar_of(ct, timestamp * 1000) && r@ == clock_text(ct),
        -8_000_000_000_000 <= timestamp <= 8_000_000_000_000 ==> exists|ct: CalendarTime|
            is_calendar_of(ct, timestamp * 1000) && r@ == clock_text(ct),
{
    match utc_clock(timestamp) {
        Some(s) => s,
        None => String::new(),
    }
}

/// The first position of a selection that must stay on one of `count` items.
pub fn clamp_selection(selected: usize, count: usize) -> (r: usize)
    ensures
        r == (if count == 0 {
            0
        } else if selected < count {
            selected as int
        } else {
            count - 1
        }),
{
    let last = if count == 0 {
        0
    } else {
        count - 1
    };
    if selected < last {
        selected
    } else {
        last
    }
}

/// Which parts of the monitoring area are drawn: the stack of panels above
/// (its left and right columns) and the process panel below.
#[derive(Debug, Clone, Copy, PartialEq, Eq, Structural)]
pub enum MonitoringLayout {
    TopAndProcess { left: bool, right: bool },
    TopOnly { left: bool, right: bool },
    ProcessOnly,
    AllHidden,
}

pub open spec fn left_shown(v: PanelVisibility) -> bool {
    v.system || v.cpu || v.memory || v.linux
}

pub open spec fn right_shown(v: PanelVisibility) -> bool {
    v.disk || v.network || v.alerts
}

pub open spec fn layout_of(v: PanelVisibility) -> MonitoringLayout {
    let left = left_shown(v);
    let right = right_shown(v);
    if left || right {
        if v.process {
            MonitoringLayout::TopAndProcess { left, right }
        } else {
            MonitoringLayout::TopOnly { left, right }
        }
    } else if v.process {
        MonitoringLayout::ProcessOnly
    } else {
        MonitoringLayout::AllHidden
    }
}

/// The panels of the left column of the monitoring area, top to bottom.
pub open spec fn left_stack() -> Seq<Panel> {
    seq![Panel::System, Panel::Cpu, Panel::Memory, Panel::Linux]
}

/// The panels of the right column of the monitoring area, top to bottom.
pub open spec fn right_stack() -> Seq<Panel> {
    seq![Panel::Disk, Panel::Network, Panel::Alerts]
}

/// Every panel, in the order the monitoring area stacks them.
pub open spec fn monitoring_order() -> Seq<Panel> {
    left_stack() + right_stack() + seq![Panel::Process]
}

/// The shown panels of a column when the layout keeps it, else none.
pub open spec fn column(stack: Seq<Panel>, v: PanelVisibility, kept: bool) -> Seq<Panel> {
    if kept {
        stack.filter(|p: Panel| shows(v, p))
    } else {
        Seq::empty()
    }
}

/// The panels the monitoring area draws for a layout, in order: each
/// column that the layout keeps lists its shown panels (as `visible_panels`
/// gives them), then the process panel below when the layout has it.
pub open spec fn drawn_panels(v: PanelVisibility) -> Seq<Panel> {
    match layout_of(v) {
        MonitoringLayout::TopAndProcess { left, right } => column(left_stack(), v, left) + column(
            right_stack(),
            v,
            right,
        ) + seq![Panel::Process],
        MonitoringLayout::TopOnly { left, right } => column(left_stack(), v, left) + column(
            right_stack(),
            v,
            right,
        ),
        MonitoringLayout::ProcessOnly => seq![Panel::Process],
        MonitoringLayout::AllHidden => Seq::empty(),
    }
}

/// The hint drawn when every panel is hidden.
pub fn all_hidden_hint() -> (r: &'static str)
    ensures
        r == "All panels hidden. Toggle with s/c/m/l/d/n/a/p.",
{
    "All panels hidden. Toggle with s/c/m/l/d/n/a/p."
}

impl Dashboard {
    /// The layout of the monitoring area for the shown panels.
    pub fn monitoring_layout(&self) -> (r: MonitoringLayout)
        ensures
            r == layout_of(self.shown()),
    {
        let v = &self.visibility;
        let left = v.system || v.cpu || v.memory || v.linux;
        let right = v.disk || v.network || v.alerts;
        if left || right {
            if v.process {
                MonitoringLayout::TopAndProcess { left, right }
            } else {
                MonitoringLayout::TopOnly { left, right }
            }
        } else if v.process {
            MonitoringLayout::ProcessOnly
        } else {
            MonitoringLayout::AllHidden
        }
    }

    /// The header line for the snapshot's host facts and clock text.
    pub fn header_segments(
        &self,
        hostname: Option<&str>,
        os_name: Option<&str>,
        uptime_seconds: Option<u64>,
        clock: &str,
        reference: &ReferenceUiState,
    ) -> (r: Vec<Segment>)
        ensures
            segments_view(r@) == header_view(
                hostname,
                os_name,
                uptime_seconds,
                clock@,
                self.mode(),
                reference.query@,
            ),
    {
        let mut out: Vec<Segment> = Vec::new();
        push_segment(&mut out, " ◉ PULSAR ".to_string(), Tone::Title);
        let mut line = "  ".to_string();
        match hostname {
            Some(h) => append_str(&mut line, h),
            None => append_str(&mut line, "unknown"),
        }
        append_str(&mut line, "  ");
        match os_name {
            Some(o) => append_str(&mut line, o),
            None => {},
        }
        append_str(&mut line, "  ");
        match uptime_seconds {
            Some(u) => {
                let up = format_uptime(u);
                append_str(&mut line, up.as_str());
            },
            None => {},
        }
        append_str(&mut line, "  ");
        append_str(&mut line, clock);
        push_segment(&mut out, line, Tone::Plain);
        push_segment(&mut out, "  ".to_string(), Tone::Plain);
        let mut mode = "mode:".to_string();
        append_str(&mut mode, self.operator_mode.label());
        push_segment(&mut out, mode, Tone::Highlight);
        push_segment(&mut out, "  ".to_string(), Tone::Plain);
        if chars_of(reference.query.as_str()).len() == 0 {
            push_segment(&mut out, "index:off".to_string(), Tone::Muted);
        } else {
            let mut q = "search:".to_string();
            append_str(&mut q, reference.query.as_str());
            push_segment(&mut out, q, Tone::Highlight);
        }
        assert(segments_view(out@) =~= header_view(
            hostname,
            os_name,
            uptime_seconds,
            clock@,
            self.mode(),
            reference.query@,
        ));
        out
    }

    /// The footer line: key hints, mode hints, panel toggles and counters.
    pub fn footer_segments(
        &self,
        reference: &ReferenceUiState,
        alerts: usize,
        warnings: usize,
        criticals: usize,
    ) -> (r: Vec<Segment>)
        ensures
            segments_view(r@) == footer_keys(
                self.theme(),
                reference.input_active,
                reference.visible,
            ) + footer_modes() + footer_toggles(self.shown()) + footer_status(
                self.shown(),
                reference.query@,
                alerts as nat,
                warnings as nat,
                criticals as nat,
            ),
    {
        let mut out: Vec<Segment> = Vec::new();
        assert(segments_view(out@) =~= Seq::<(Seq<char>, Tone)>::empty());
        push_footer_keys(&mut out, self.theme_name.as_str(), reference.input_active, reference.visible);
        push_footer_modes(&mut out);
        push_footer_toggles(&mut out, self.visibility);
        push_footer_status(&mut out, self.visibility, reference.query.as_str(), alerts, warnings, criticals);
        assert(segments_view(out@) =~= footer_keys(
            self.theme(),
            reference.input_active,
            reference.visible,
        ) + footer_modes() + footer_toggles(self.shown()) + footer_status(
            self.shown(),
            reference.query@,
            alerts as nat,
            warnings as nat,
            criticals as nat,
        ));
        out
    }
}

fn push_footer_keys(out: &mut Vec<Segment>, theme_name: &str, input_active: bool, visible: bool)
    ensures
        segments_view(final(out)@) == segments_view(old(out)@) + footer_keys(
            theme_name@,
            input_active,
            visible,
        ),
{
    let ghost start = segments_view(out@);
    push_segment(out, " q".to_string(), Tone::Highlight);
    push_segment(out, ":quit  ".to_string(), Tone::Plain);
    push_segment(out, "r".to_string(), Tone::Highlight);
    push_segment(out, ":refresh  ".to_string(), Tone::Plain);
    push_segment(out, "t".to_string(), Tone::Highlight);
    let mut theme = ":theme(".to_string();
    append_str(&mut theme, theme_name);
    append_str(&mut theme, ")  ");
    push_segment(out, theme, Tone::Plain);
    push_segment(out, "/".to_string(), Tone::Highlight);
    push_segment(out, ":search  ".to_string(), Tone::Plain);
    push_segment(out, "?".to_string(), Tone::Highlight);
    push_segment(out, ":index  ".to_string(), Tone::Plain);
    push_segment(out, "esc".to_string(), Tone::Highlight);
    let esc = if input_active {
        ":close search  "
    } else if visible {
        ":close index  "
    } else {
        ":clear  "
    };
    push_segment(out, esc.to_string(), Tone::Plain);
    assert(segments_view(out@) =~= start + footer_keys(theme_name@, input_active, visible));
}

fn push_footer_modes(out: &mut Vec<Segment>)
    ensures
        segments_view(final(out)@) == segments_view(old(out)@) + footer_modes(),
{
    let ghost start = segments_view(out@);
    push_segment(out, "1".to_string(), Tone::Highlight);
    push_segment(out, ":overview  ".to_string(), Tone::Plain);
    push_segment(out, "2".to_string(), Tone::Highlight);
    push_segment(out, ":storage  ".to_string(), Tone::Plain);
    push_segment(out, "3".to_string(), Tone::Highlight);
    push_segment(out, ":network  ".to_string(), Tone::Plain);
    push_segment(out, "4".to_string(), Tone::Highlight);
    push_segment(out, ":process  ".to_string(), Tone::Plain);
    push_segment(out, "5".to_string(), Tone::Highlight);
    push_segment(out, ":pressure  ".to_string(), Tone::Plain);
    push_segment(out, "6".to_string(), Tone::Highlight);
    push_segment(out, ":full  ".to_string(), Tone::Plain);
    assert(segments_view(out@) =~= start + footer_modes());
}

fn push_toggle(out: &mut Vec<Segment>, key: &str, label: &str, visible: bool)
    ensures
        segments_view(final(out)@) == segments_view(old(out)@).push(toggle_view(key@, label@, visible)),
{
    let t = toggle_segment(key, label, visible);
    push_segment(out, t.text, t.tone);
}

#[verifier::spinoff_prover]
#[verifier::rlimit(30)]
fn push_footer_toggles(out: &mut Vec<Segment>, v: PanelVisibility)
    ensures
        segments_view(final(out)@) == segments_view(old(out)@) + footer_toggles(v),
{
    let ghost start = segments_view(out@);
    push_toggle(out, "s", "sys", v.system);
    push_segment(out, " ".to_string(), Tone::Plain);
    push_toggle(out, "c", "cpu", v.cpu);
    push_segment(out, " ".to_string(), Tone::Plain);
    push_toggle(out, "m", "mem", v.memory);
    push_segment(out, " ".to_string(), Tone::Plain);
    push_toggle(out, "l", "linux", v.linux);
    push_segment(out, " ".to_string(), Tone::Plain);
    push_toggle(out, "d", "disk", v.disk);
    push_segment(out, " ".to_string(), Tone::Plain);
    push_toggle(out, "n", "net", v.network);
    push_segment(out, " ".to_string(), Tone::Plain);
    push_toggle(out, "a", "alerts", v.alerts);
    push_segment(out, " ".to_string(), Tone::Plain);
    push_toggle(out, "p", "proc", v.process);
    assert(segments_view(out@) =~= start + footer_toggles(v));
}

fn push_footer_status(
    out: &mut Vec<Segment>,
    v: PanelVisibility,
    query: &str,
    alerts: usize,
    warnings: usize,
    criticals: usize,
)
    ensures
        segments_view(final(out)@) == segments_view(old(out)@) + footer_status(
            v,
            query@,
            alerts as nat,
            warnings as nat,
            criticals as nat,
        ),
{
    let ghost start = segments_view(out@);
    let mut visible = "  visible:".to_string();
    push_decimal(&mut visible, v.visible_count() as u64);
    append_str(&mut visible, "/8  ");
    push_segment(out, visible, Tone::Plain);
    let mut counts = "alerts:".to_string();
    push_decimal(&mut counts, alerts as u64);
    append_str(&mut counts, " w:");
    push_decimal(&mut counts, warnings as u64);
    append_str(&mut counts, " c:");
    push_decimal(&mut counts, criticals as u64);
    append_str(&mut counts, "  ");
    push_segment(
        out,
        counts,
        if alerts > 0 {
            Tone::Alert
        } else {
            Tone::Highlight
        },
    );
    push_segment(out, "  ".to_string(), Tone::Plain);
    if chars_of(query).len() == 0 {
        push_segment(out, "reference:all".to_string(), Tone::Muted);
    } else {
        let mut q = "reference:".to_string();
        append_str(&mut q, query);
        push_segment(out, q, Tone::Highlight);
    }
    push_segment(out, "  Pulsar v0.1.0 — Kevin Vanden-Brande".to_string(), Tone::Plain);
    assert(segments_view(out@) =~= start + footer_status(
        v,
        query@,
        alerts as nat,
        warnings as nat,
        criticals as nat,
    ));
}

/// `up Nd Nh Nm`, `up Nh Nm` or `up Nm`, leaving out leading zero units.
pub open spec fn uptime_text(secs: nat) -> Seq<char> {
    let days = secs / 86400;
    let hours = (secs % 86400) / 3600;
    let mins = (secs % 3600) / 60;
    if days > 0 {
        "up "@ + decimal(days) + "d "@ + decimal(hours) + "h "@ + decimal(mins) + "m"@
    } else if hours > 0 {
        "up "@ + decimal(hours) + "h "@ + decimal(mins) + "m"@
    } else {
        "up "@ + decimal(mins) + "m"@
    }
}

/// The uptime as the header shows it.
pub fn format_uptime(secs: u64) -> (r: String)
    ensures
        r@ == uptime_text(secs as nat),
{
    let days = secs / 86400;
    let hours = (secs % 86400) / 3600;
    let mins = (secs % 3600) / 60;
    let mut r = "up ".to_string();
    if days > 0 {
        push_decimal(&mut r, days);
        append_str(&mut r, "d ");
        push_decimal(&mut r, hours);
        append_str(&mut r, "h ");
    } else if hours > 0 {
        push_decimal(&mut r, hours);
        append_str(&mut r, "h ");
    }
    push_decimal(&mut r, mins);
    append_str(&mut r, "m");
    r
}

/// Toggling a panel twice restores the visibility.
pub proof fn lemma_toggle_twice(v: PanelVisibility, panel: Panel)
    ensures
        toggled(toggled(v, panel), panel) == v,
{
}

/// Toggling a panel flips that panel and no other.
pub proof fn lemma_toggle_flips_one(v: PanelVisibility, panel: Panel, other: Panel)
    ensures
        shows(toggled(v, panel), other) == if other == panel {
            !shows(v, other)
        } else {
            shows(v, other)
        },
{
}

/// At most the eight panels show; full mode shows all eight.
pub proof fn lemma_shown_count_bounds(v: PanelVisibility)
    ensures
        shown_count(v) <= 8,
        shown_count(preset(OperatorMode::Full)) == 8,
        forall|p: Panel| #[trigger] shows(preset(OperatorMode::Full), p),
{
}

/// Every operator mode keeps the alerts panel in view.
pub proof fn lemma_modes_show_alerts(mode: OperatorMode)
    ensures
        shows(preset(mode), Panel::Alerts),
{
}

/// Each operator mode shows the panels it is named for (storage the disk
/// panel, network the network panel, process the process panel, pressure the
/// memory panel) and every panel whose entries it ranks first in the
/// reference index; every mode but full shows five panels, full all eight.
pub proof fn lemma_modes_show_their_panels(mode: OperatorMode, p: Panel)
    ensures
        prefers(mode, panel_key_of(p)@, seq![]) ==> shows(preset(mode), p),
        shows(preset(OperatorMode::Storage), Panel::Disk),
        shows(preset(OperatorMode::Network), Panel::Network),
        shows(preset(OperatorMode::Process), Panel::Process),
        shows(preset(OperatorMode::Pressure), Panel::Memory),
        mode != OperatorMode::Full ==> shown_count(preset(mode)) == 5,
        shown_count(preset(OperatorMode::Full)) == 8,
{
    reveal_strlit("system");
    reveal_strlit("cpu");
    reveal_strlit("memory");
    reveal_strlit("linux");
    reveal_strlit("disk");
    reveal_strlit("network");
    reveal_strlit("alerts");
    reveal_strlit("process");
    let key = panel_key_of(p)@;
    let e: Seq<char> = seq![];
    let ws = match mode {
        OperatorMode::Overview => seq!["system"@, "cpu"@, "memory"@, "alerts"@, "process"@],
        OperatorMode::Storage => seq!["disk"@, "linux"@, "memory"@, "alerts"@],
        OperatorMode::Network => seq!["network"@, "system"@, "cpu"@, "linux"@],
        OperatorMode::Process => seq!["process"@, "cpu"@, "memory"@, "alerts"@],
        _ => seq!["memory"@, "linux"@, "alerts"@, "disk"@, "cpu"@],
    };
    if mode == OperatorMode::Pressure && in_words(e, seq!["memory"@, "linux"@, "disk"@]) {
        let i = choose|i: int| 0 <= i < 3 && seq!["memory"@, "linux"@, "disk"@][i] == e;
        assert(seq!["memory"@, "linux"@, "disk"@][i].len() > 0);
    }
    if mode != OperatorMode::Full && in_words(key, ws) && !shows(preset(mode), p) {
        let i = choose|i: int| 0 <= i < ws.len() && ws[i] == key;
        assert(ws[i][0] == key[0] && ws[i].len() == key.len());
    }
}

/// Modes are shown by distinct names; the network and process modes carry
/// the names of the panels they are for.
pub proof fn lemma_mode_labels(a: OperatorMode, b: OperatorMode)
    ensures
        a != b ==> label_of(a)@ != label_of(b)@,
        label_of(OperatorMode::Network)@ == panel_key_of(Panel::Network)@,
        label_of(OperatorMode::Process)@ == panel_key_of(Panel::Process)@,
{
    reveal_strlit("overview");
    reveal_strlit("storage");
    reveal_strlit("network");
    reveal_strlit("process");
    reveal_strlit("pressure");
    reveal_strlit("full");
    if a != b && label_of(a)@ == label_of(b)@ {
        assert(label_of(a)@[0] == label_of(b)@[0] && label_of(a)@.len() == label_of(b)@.len());
    }
}

/// In the unsearched index, an entry that the mode prefers ranks above one
/// it does not (within the first 9 000 catalog positions), and among entries
/// of one kind the earlier catalog position ranks higher.
pub proof fn lemma_bias_prefers(
    mode: OperatorMode,
    panel_a: Seq<char>,
    category_a: Seq<char>,
    i: nat,
    panel_b: Seq<char>,
    category_b: Seq<char>,
    j: nat,
)
    ensures
        prefers(mode, panel_a, category_a) && !prefers(mode, panel_b, category_b) && i < 9_000
            ==> bias(mode, panel_a, category_a, i) > bias(mode, panel_b, category_b, j),
        prefers(mode, panel_a, category_a) == prefers(mode, panel_b, category_b) && i < j && i
            < 1_000 ==> bias(mode, panel_a, category_a, i) > bias(mode, panel_b, category_b, j),
{
}

spec fn one_if(b: bool, p: Panel) -> Seq<Panel> {
    if b {
        seq![p]
    } else {
        Seq::empty()
    }
}

proof fn lemma_filter_step(s: Seq<Panel>, v: PanelVisibility)
    requires
        s.len() > 0,
    ensures
        s.filter(|p: Panel| shows(v, p)) == s.drop_last().filter(|p: Panel| shows(v, p)) + one_if(
            shows(v, s.last()),
            s.last(),
        ),
{
    reveal_with_fuel(Seq::filter, 1);
    assert(s.drop_last().filter(|p: Panel| shows(v, p)).push(s.last()) == s.drop_last().filter(
        |p: Panel| shows(v, p),
    ) + seq![s.last()]);
    assert(s.drop_last().filter(|p: Panel| shows(v, p)) + Seq::<Panel>::empty() == s.drop_last().filter(
        |p: Panel| shows(v, p),
    ));
}

proof fn lemma_filter_empty(v: PanelVisibility)
    ensures
        Seq::<Panel>::empty().filter(|p: Panel| shows(v, p)) == Seq::<Panel>::empty(),
{
    reveal_with_fuel(Seq::filter, 1);
}

/// The monitoring area draws exactly the shown panels, each once, in the
/// order System, Cpu, Memory, Linux (left column), Disk, Network, Alerts
/// (right column), Process (below); it shows the all-hidden hint exactly
/// when no panel is shown.
pub proof fn lemma_monitoring_draws_shown(v: PanelVisibility)
    ensures
        drawn_panels(v) == monitoring_order().filter(|p: Panel| shows(v, p)),
        (layout_of(v) == MonitoringLayout::AllHidden) <==> shown_count(v) == 0,
{
    let o = monitoring_order();
    let l = left_stack();
    let r = right_stack();
    lemma_filter_empty(v);
    assert(o.take(0) == Seq::<Panel>::empty());
    lemma_filter_step(o.take(1), v);
    assert(o.take(1).drop_last() == o.take(0));
    lemma_filter_step(o.take(2), v);
    assert(o.take(2).drop_last() == o.take(1));
    lemma_filter_step(o.take(3), v);
    assert(o.take(3).drop_last() == o.take(2));
    lemma_filter_step(o.take(4), v);
    assert(o.take(4).drop_last() == o.take(3));
    lemma_filter_step(o.take(5), v);
    assert(o.take(5).drop_last() == o.take(4));
    lemma_filter_step(o.take(6), v);
    assert(o.take(6).drop_last() == o.take(5));
    lemma_filter_step(o.take(7), v);
    assert(o.take(7).drop_last() == o.take(6));
    lemma_filter_step(o, v);
    assert(o.drop_last() == o.take(7));
    assert(o.take(4) == l);
    lemma_filter_step(r, v);
    lemma_filter_step(r.drop_last(), v);
    lemma_filter_step(r.drop_last().drop_last(), v);
    assert(r.drop_last().drop_last().drop_last() == Seq::<Panel>::empty());
    assert(drawn_panels(v) == o.filter(|p: Panel| shows(v, p)));
}

} // verus!
