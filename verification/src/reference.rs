//! The shared reference catalog: stable entry ids, panels, aliases, tags and
//! localized explanations, with the search and panel-highlight queries that
//! the dashboard and the API use.
use vstd::prelude::*;
use crate::sort::{
    SortKey, stable_sort, stable_sorted, sorted_by_key, stable_perm, lemma_filter_map_keeps,
    lemma_sorted_same_elements, lemma_sorted_pair, lemma_filter_map_sources, lemma_filter_map_same_len,
};
use crate::text::{
    ascii_lower, chars_eq, chars_of, contains_chars, has_substring, lex_le, lex_le_chars,
    lemma_lex_total, lemma_lex_trans, lemma_ascii_lower_idempotent, lowercase_chars, normalize, normalize_spec, split_words,
    words,
};

verus! {

/// Who an entry is written for.
#[derive(Debug, Clone, Copy, PartialEq, Eq, Structural)]
pub enum Audience {
    Beginner,
    Expert,
}

/// The language of the texts.
#[derive(Debug, Clone, Copy, PartialEq, Eq, Structural)]
pub enum Locale {
    Fr,
    En,
}

/// The locale that a language tag selects: English for `en`, `en-us` and
/// `en-gb` in any letter case, French otherwise.
pub open spec fn locale_of(tag: Seq<char>) -> Locale {
    let t = ascii_lower(tag);
    if t == "en"@ || t == "en-us"@ || t == "en-gb"@ {
        Locale::En
    } else {
        Locale::Fr
    }
}

impl Locale {
    /// The locale a language tag selects.
    pub fn parse(value: &str) -> (r: Self)
        ensures
            r == locale_of(value@),
    {
        let lowered = lowercase_chars(value);
        if chars_eq(&lowered, &chars_of("en")) || chars_eq(&lowered, &chars_of("en-us"))
            || chars_eq(&lowered, &chars_of("en-gb")) {
            Locale::En
        } else {
            Locale::Fr
        }
    }
}

/// The texts of an entry in one language.
#[derive(Debug, Clone, Copy)]
pub struct ReferenceText {
    pub title: &'static str,
    pub summary: &'static str,
    pub beginner: &'static str,
    pub expert: &'static str,
}

/// One entry of the reference catalog.
#[derive(Debug, Clone, Copy)]
pub struct ReferenceEntry {
    pub id: &'static str,
    pub panel: &'static str,
    pub audience: Audience,
    pub aliases: &'static [&'static str],
    pub tags: &'static [&'static str],
    pub fr: ReferenceText,
    pub en: ReferenceText,
}

/// An entry with its texts in one language.
#[derive(Debug, Clone, Copy)]
pub struct ReferenceEntryView {
    pub id: &'static str,
    pub panel: &'static str,
    pub audience: Audience,
    pub title: &'static str,
    pub summary: &'static str,
    pub beginner: &'static str,
    pub expert: &'static str,
    pub aliases: &'static [&'static str],
    pub tags: &'static [&'static str],
}

/// A search result: the entry and its score.
#[derive(Debug, Clone, Copy)]
pub struct SearchHit {
    pub score: usize,
    pub entry: ReferenceEntryView,
}

/// The reference catalog, in its fixed order.
pub open spec fn catalog() -> Seq<ReferenceEntry> {
    seq![
        ReferenceEntry {
            id: "cpu.usage",
            panel: "cpu",
            audience: Audience::Beginner,
            aliases: &["cpu", "usage", "global cpu", "processor"],
            tags: &["cpu", "usage", "global", "processor"],
            fr: ReferenceText {
                title: "CPU global",
                summary: "Montre la charge CPU totale observee sur l'hote.",
                beginner: "Plus la valeur se rapproche de 100%, plus le processeur est occupe.",
                expert: "Le pourcentage agrege additionne user, nice, system, irq, softirq et steal selon la source OS.",
            },
            en: ReferenceText {
                title: "Global CPU",
                summary: "Shows total CPU load observed on the host.",
                beginner: "The closer the value is to 100%, the busier the processor is.",
                expert: "The aggregate percentage combines user, nice, system, irq, softirq and steal depending on OS source data.",
            },
        },
        ReferenceEntry {
            id: "cpu.load",
            panel: "cpu",
            audience: Audience::Beginner,
            aliases: &["load", "load average", "1m", "5m", "15m"],
            tags: &["cpu", "load", "scheduler"],
            fr: ReferenceText {
                title: "Load average",
                summary: "Mesure la pression sur l'ordonnanceur sur 1, 5 et 15 minutes.",
                beginner: "Une load au-dessus du nombre de CPU peut signaler une file d'attente importante.",
                expert: "La semantique varie selon l'OS, mais reste utile comme signal de contention globale.",
            },
            en: ReferenceText {
                title: "Load average",
                summary: "Measures scheduler pressure over 1, 5 and 15 minutes.",
                beginner: "A load value above CPU count can indicate meaningful run queue pressure.",
                expert: "OS semantics differ, but it remains a useful host-level contention signal.",
            },
        },
        ReferenceEntry {
            id: "cpu.iowait",
            panel: "cpu",
            audience: Audience::Expert,
            aliases: &["iowait", "io wait", "cpu wait"],
            tags: &["cpu", "disk", "latency", "linux"],
            fr: ReferenceText {
                title: "CPU iowait",
                summary: "Temps passe par le CPU a attendre des IO blocantes.",
                beginner: "Une hausse d'iowait peut pointer vers un stockage lent ou sature.",
                expert: "Sur Linux, cette mesure vient des compteurs CPU et doit etre lue avec la latence disque et la queue depth.",
            },
            en: ReferenceText {
                title: "CPU iowait",
                summary: "CPU time spent waiting on blocking IO.",
                beginner: "Rising iowait can indicate slow or saturated storage.",
                expert: "On Linux this comes from CPU accounting and should be read alongside disk latency and queue depth.",
            },
        },
        ReferenceEntry {
            id: "memory.pressure",
            panel: "memory",
            audience: Audience::Beginner,
            aliases: &["memory pressure", "pressure", "available memory"],
            tags: &["memory", "pressure", "available", "swap"],
            fr: ReferenceText {
                title: "Pression memoire",
                summary: "Indice derive pour estimer la tension sur la memoire de l'hote.",
                beginner: "Une forte pression memoire signifie qu'il reste peu de marge avant swap ou reclaim agressif.",
                expert: "Pulsar derive ce score a partir de la memoire disponible, de l'usage et des compteurs associes.",
            },
            en: ReferenceText {
                title: "Memory pressure",
                summary: "Derived index estimating how stressed host memory is.",
                beginner: "High pressure means little margin remains before swap or aggressive reclaim.",
                expert: "Pulsar derives this score from available memory, usage and related counters.",
            },
        },
        ReferenceEntry {
            id: "memory.swap",
            panel: "memory",
            audience: Audience::Beginner,
            aliases: &["swap", "paging", "swpin", "swpout"],
            tags: &["memory", "swap", "paging"],
            fr: ReferenceText {
                title: "Swap",
                summary: "Montre l'utilisation de l'espace d'echange disque par la memoire virtuelle.",
                beginner: "Une forte activite swap peut ralentir fortement la machine.",
                expert: "Le swap doit etre interprete avec la pression memoire, pgin/pgout et les alertes.",
            },
            en: ReferenceText {
                title: "Swap",
                summary: "Shows disk-backed virtual memory usage.",
                beginner: "Heavy swap activity can slow the host down significantly.",
                expert: "Read swap together with memory pressure, pgin/pgout and alerts.",
            },
        },
        ReferenceEntry {
            id: "disk.await",
            panel: "disk",
            audience: Audience::Expert,
            aliases: &["await", "latency", "disk latency", "storage latency"],
            tags: &["disk", "await", "latency", "storage"],
            fr: ReferenceText {
                title: "Disk await",
                summary: "Latence moyenne observee par IO terminee.",
                beginner: "Plus cette valeur monte, plus les operations disque prennent du temps.",
                expert: "Pulsar la derive des compteurs de temps et d'IO completes, utile avec util% et queue depth.",
            },
            en: ReferenceText {
                title: "Disk await",
                summary: "Average latency observed per completed IO.",
                beginner: "Higher values mean disk operations take longer to finish.",
                expert: "Pulsar derives it from IO completion and timing counters; read it with util% and queue depth.",
            },
        },
        ReferenceEntry {
            id: "disk.queue_depth",
            panel: "disk",
            audience: Audience::Expert,
            aliases: &["queue depth", "qd", "io queue"],
            tags: &["disk", "queue", "latency", "saturation"],
            fr: ReferenceText {
                title: "Queue depth",
                summary: "Approximation du nombre moyen d'IO en attente ou en cours.",
                beginner: "Une queue depth qui monte avec la latence indique souvent une saturation.",
                expert: "Cette valeur vient du temps IO pondere, donc elle reste une approximation aggregate par device.",
            },
            en: ReferenceText {
                title: "Queue depth",
                summary: "Approximation of the average number of pending or active IOs.",
                beginner: "If queue depth rises with latency, storage saturation is likely.",
                expert: "This comes from weighted IO time, so it remains an aggregated per-device approximation.",
            },
        },
        ReferenceEntry {
            id: "network.tcp",
            panel: "network",
            audience: Audience::Beginner,
            aliases: &["tcp", "connections", "established", "listen", "time_wait"],
            tags: &["network", "tcp", "connections", "listen"],
            fr: ReferenceText {
                title: "Connexions TCP",
                summary: "Resume l'etat courant des connexions reseau TCP.",
                beginner: "Established montre les connexions actives, Listen les sockets en attente, TimeWait les fins de session recentes.",
                expert: "Une hausse anormale de TimeWait, retrans ou syn peut signaler un probleme applicatif ou reseau.",
            },
            en: ReferenceText {
                title: "TCP connections",
                summary: "Summarizes the current state of TCP network connections.",
                beginner: "Established shows active sessions, Listen waiting sockets, TimeWait recent closed sessions.",
                expert: "Unusual rises in TimeWait, retrans or syn states can point to application or network issues.",
            },
        },
        ReferenceEntry {
            id: "network.retrans",
            panel: "network",
            audience: Audience::Expert,
            aliases: &["retrans", "retransmits", "packet loss"],
            tags: &["network", "retrans", "loss", "tcp"],
            fr: ReferenceText {
                title: "Retransmissions",
                summary: "Compteur de segments TCP retransmis.",
                beginner: "Une hausse peut indiquer perte reseau, congestion ou cible lente.",
                expert: "A lire avec le debit, les erreurs, l'etat des connexions et la saturation applicative.",
            },
            en: ReferenceText {
                title: "Retransmissions",
                summary: "Counter of retransmitted TCP segments.",
                beginner: "Rising values can indicate packet loss, congestion or a slow peer.",
                expert: "Read together with throughput, errors, connection states and application saturation.",
            },
        },
        ReferenceEntry {
            id: "linux.psi",
            panel: "linux",
            audience: Audience::Expert,
            aliases: &["psi", "pressure stall", "stall", "linux pressure"],
            tags: &["linux", "psi", "pressure", "cpu", "memory", "io"],
            fr: ReferenceText {
                title: "PSI Linux",
                summary: "Pressure Stall Information mesure le temps perdu a cause de CPU, memoire ou IO.",
                beginner: "Si PSI monte, des taches restent bloquees faute de ressources.",
                expert: "Le avg10 est tres utile pour voir une degradation recente, surtout combine a cgroup et alerts.",
            },
            en: ReferenceText {
                title: "Linux PSI",
                summary: "Pressure Stall Information measures time lost to CPU, memory or IO pressure.",
                beginner: "When PSI rises, tasks are getting stalled by missing resources.",
                expert: "avg10 is especially useful for recent degradation, particularly with cgroup and alert context.",
            },
        },
        ReferenceEntry {
            id: "linux.cgroup",
            panel: "linux",
            audience: Audience::Expert,
            aliases: &["cgroup", "container", "cpu throttle", "memory max"],
            tags: &["linux", "cgroup", "container", "limits"],
            fr: ReferenceText {
                title: "Cgroup v2",
                summary: "Expose les limites et usages de ressources du groupe de controle courant.",
                beginner: "Pratique pour savoir si le processus tourne dans un conteneur ou sous quotas.",
                expert: "La memoire max, les pids et le throttling CPU aident a differencier un probleme host d'une limite imposee.",
            },
            en: ReferenceText {
                title: "Cgroup v2",
                summary: "Shows resource limits and usage for the current control group.",
                beginner: "Useful to tell whether the process runs inside a container or quota.",
                expert: "Memory max, pid limits and CPU throttling help separate host pressure from imposed limits.",
            },
        },
        ReferenceEntry {
            id: "process.cpu",
            panel: "process",
            audience: Audience::Beginner,
            aliases: &["process cpu", "top process", "pid", "threads"],
            tags: &["process", "cpu", "pid", "top"],
            fr: ReferenceText {
                title: "Top processus",
                summary: "Liste les processus les plus visibles selon CPU et autres compteurs.",
                beginner: "Commencez ici pour voir quel processus consomme CPU, memoire ou descripteurs.",
                expert: "La vue est utile pour un tri rapide, mais doit etre recroisee avec watch, snapshot ou replay.",
            },
            en: ReferenceText {
                title: "Top processes",
                summary: "Lists the most visible processes by CPU and related counters.",
                beginner: "Start here to see which process is using CPU, memory or file descriptors.",
                expert: "This is a fast triage view and should be cross-checked with watch, snapshot or replay.",
            },
        },
        ReferenceEntry {
            id: "process.jvm",
            panel: "process",
            audience: Audience::Expert,
            aliases: &["jvm", "java", "jvm detection"],
            tags: &["process", "jvm", "java"],
            fr: ReferenceText {
                title: "Detection JVM",
                summary: "Marque certains processus comme JVM selon des heuristiques simples.",
                beginner: "Le tag JVM aide a reperer rapidement une application Java dans la liste.",
                expert: "Ce n'est pas encore une detection profonde de runtime; le signal reste heuristique.",
            },
            en: ReferenceText {
                title: "JVM detection",
                summary: "Marks some processes as JVMs using simple heuristics.",
                beginner: "The JVM tag helps spot Java applications quickly in the process list.",
                expert: "This is not deep runtime detection yet; the signal is still heuristic.",
            },
        },
        ReferenceEntry {
            id: "alerts",
            panel: "alerts",
            audience: Audience::Beginner,
            aliases: &["alerts", "warning", "critical", "health"],
            tags: &["alerts", "health", "thresholds"],
            fr: ReferenceText {
                title: "Alertes",
                summary: "Les alertes synthetisent les signaux les plus urgents du snapshot.",
                beginner: "Utilisez-les comme point d'entree, puis remontez vers CPU, memoire, disque ou reseau.",
                expert: "Les alertes actuelles sont locales et basees sur seuils; elles donnent du contexte mais pas une RCA complete.",
            },
            en: ReferenceText {
                title: "Alerts",
                summary: "Alerts summarize the most urgent signals in the current snapshot.",
                beginner: "Use them as an entry point, then drill into CPU, memory, disk or network.",
                expert: "Current alerts are local and threshold-based; they provide context, not full RCA.",
            },
        },
    ]
}

fn catalog_entries() -> (r: Vec<ReferenceEntry>)
    ensures
        r@ == catalog(),
{
    vec![
        ReferenceEntry {
            id: "cpu.usage",
            panel: "cpu",
            audience: Audience::Beginner,
            aliases: &["cpu", "usage", "global cpu", "processor"],
            tags: &["cpu", "usage", "global", "processor"],
            fr: ReferenceText {
                title: "CPU global",
                summary: "Montre la charge CPU totale observee sur l'hote.",
                beginner: "Plus la valeur se rapproche de 100%, plus le processeur est occupe.",
                expert: "Le pourcentage agrege additionne user, nice, system, irq, softirq et steal selon la source OS.",
            },
            en: ReferenceText {
                title: "Global CPU",
                summary: "Shows total CPU load observed on the host.",
                beginner: "The closer the value is to 100%, the busier the processor is.",
                expert: "The aggregate percentage combines user, nice, system, irq, softirq and steal depending on OS source data.",
            },
        },
        ReferenceEntry {
            id: "cpu.load",
            panel: "cpu",
            audience: Audience::Beginner,
            aliases: &["load", "load average", "1m", "5m", "15m"],
            tags: &["cpu", "load", "scheduler"],
            fr: ReferenceText {
                title: "Load average",
                summary: "Mesure la pression sur l'ordonnanceur sur 1, 5 et 15 minutes.",
                beginner: "Une load au-dessus du nombre de CPU peut signaler une file d'attente importante.",
                expert: "La semantique varie selon l'OS, mais reste utile comme signal de contention globale.",
            },
            en: ReferenceText {
                title: "Load average",
                summary: "Measures scheduler pressure over 1, 5 and 15 minutes.",
                beginner: "A load value above CPU count can indicate meaningful run queue pressure.",
                expert: "OS semantics differ, but it remains a useful host-level contention signal.",
            },
        },
        ReferenceEntry {
            id: "cpu.iowait",
            panel: "cpu",
            audience: Audience::Expert,
            aliases: &["iowait", "io wait", "cpu wait"],
            tags: &["cpu", "disk", "latency", "linux"],
            fr: ReferenceText {
                title: "CPU iowait",
                summary: "Temps passe par le CPU a attendre des IO blocantes.",
                beginner: "Une hausse d'iowait peut pointer vers un stockage lent ou sature.",
                expert: "Sur Linux, cette mesure vient des compteurs CPU et doit etre lue avec la latence disque et la queue depth.",
            },
            en: ReferenceText {
                title: "CPU iowait",
                summary: "CPU time spent waiting on blocking IO.",
                beginner: "Rising iowait can indicate slow or saturated storage.",
                expert: "On Linux this comes from CPU accounting and should be read alongside disk latency and queue depth.",
            },
        },
        ReferenceEntry {
            id: "memory.pressure",
            panel: "memory",
            audience: Audience::Beginner,
            aliases: &["memory pressure", "pressure", "available memory"],
            tags: &["memory", "pressure", "available", "swap"],
            fr: ReferenceText {
                title: "Pression memoire",
                summary: "Indice derive pour estimer la tension sur la memoire de l'hote.",
                beginner: "Une forte pression memoire signifie qu'il reste peu de marge avant swap ou reclaim agressif.",
                expert: "Pulsar derive ce score a partir de la memoire disponible, de l'usage et des compteurs associes.",
            },
            en: ReferenceText {
                title: "Memory pressure",
                summary: "Derived index estimating how stressed host memory is.",
                beginner: "High pressure means little margin remains before swap or aggressive reclaim.",
                expert: "Pulsar derives this score from available memory, usage and related counters.",
            },
        },
        ReferenceEntry {
            id: "memory.swap",
            panel: "memory",
            audience: Audience::Beginner,
            aliases: &["swap", "paging", "swpin", "swpout"],
            tags: &["memory", "swap", "paging"],
            fr: ReferenceText {
                title: "Swap",
                summary: "Montre l'utilisation de l'espace d'echange disque par la memoire virtuelle.",
                beginner: "Une forte activite swap peut ralentir fortement la machine.",
                expert: "Le swap doit etre interprete avec la pression memoire, pgin/pgout et les alertes.",
            },
            en: ReferenceText {
                title: "Swap",
                summary: "Shows disk-backed virtual memory usage.",
                beginner: "Heavy swap activity can slow the host down significantly.",
                expert: "Read swap together with memory pressure, pgin/pgout and alerts.",
            },
        },
        ReferenceEntry {
            id: "disk.await",
            panel: "disk",
            audience: Audience::Expert,
            aliases: &["await", "latency", "disk latency", "storage latency"],
            tags: &["disk", "await", "latency", "storage"],
            fr: ReferenceText {
                title: "Disk await",
                summary: "Latence moyenne observee par IO terminee.",
                beginner: "Plus cette valeur monte, plus les operations disque prennent du temps.",
                expert: "Pulsar la derive des compteurs de temps et d'IO completes, utile avec util% et queue depth.",
            },
            en: ReferenceText {
                title: "Disk await",
                summary: "Average latency observed per completed IO.",
                beginner: "Higher values mean disk operations take longer to finish.",
                expert: "Pulsar derives it from IO completion and timing counters; read it with util% and queue depth.",
            },
        },
        ReferenceEntry {
            id: "disk.queue_depth",
            panel: "disk",
            audience: Audience::Expert,
            aliases: &["queue depth", "qd", "io queue"],
            tags: &["disk", "queue", "latency", "saturation"],
            fr: ReferenceText {
                title: "Queue depth",
                summary: "Approximation du nombre moyen d'IO en attente ou en cours.",
                beginner: "Une queue depth qui monte avec la latence indique souvent une saturation.",
                expert: "Cette valeur vient du temps IO pondere, donc elle reste une approximation aggregate par device.",
            },
            en: ReferenceText {
                title: "Queue depth",
                summary: "Approximation of the average number of pending or active IOs.",
                beginner: "If queue depth rises with latency, storage saturation is likely.",
                expert: "This comes from weighted IO time, so it remains an aggregated per-device approximation.",
            },
        },
        ReferenceEntry {
            id: "network.tcp",
            panel: "network",
            audience: Audience::Beginner,
            aliases: &["tcp", "connections", "established", "listen", "time_wait"],
            tags: &["network", "tcp", "connections", "listen"],
            fr: ReferenceText {
                title: "Connexions TCP",
                summary: "Resume l'etat courant des connexions reseau TCP.",
                beginner: "Established montre les connexions actives, Listen les sockets en attente, TimeWait les fins de session recentes.",
                expert: "Une hausse anormale de TimeWait, retrans ou syn peut signaler un probleme applicatif ou reseau.",
            },
            en: ReferenceText {
                title: "TCP connections",
                summary: "Summarizes the current state of TCP network connections.",
                beginner: "Established shows active sessions, Listen waiting sockets, TimeWait recent closed sessions.",
                expert: "Unusual rises in TimeWait, retrans or syn states can point to application or network issues.",
            },
        },
        ReferenceEntry {
            id: "network.retrans",
            panel: "network",
            audience: Audience::Expert,
            aliases: &["retrans", "retransmits", "packet loss"],
            tags: &["network", "retrans", "loss", "tcp"],
            fr: ReferenceText {
                title: "Retransmissions",
                summary: "Compteur de segments TCP retransmis.",
                beginner: "Une hausse peut indiquer perte reseau, congestion ou cible lente.",
                expert: "A lire avec le debit, les erreurs, l'etat des connexions et la saturation applicative.",
            },
            en: ReferenceText {
                title: "Retransmissions",
                summary: "Counter of retransmitted TCP segments.",
                beginner: "Rising values can indicate packet loss, congestion or a slow peer.",
                expert: "Read together with throughput, errors, connection states and application saturation.",
            },
        },
        ReferenceEntry {
            id: "linux.psi",
            panel: "linux",
            audience: Audience::Expert,
            aliases: &["psi", "pressure stall", "stall", "linux pressure"],
            tags: &["linux", "psi", "pressure", "cpu", "memory", "io"],
            fr: ReferenceText {
                title: "PSI Linux",
                summary: "Pressure Stall Information mesure le temps perdu a cause de CPU, memoire ou IO.",
                beginner: "Si PSI monte, des taches restent bloquees faute de ressources.",
                expert: "Le avg10 est tres utile pour voir une degradation recente, surtout combine a cgroup et alerts.",
            },
            en: ReferenceText {
                title: "Linux PSI",
                summary: "Pressure Stall Information measures time lost to CPU, memory or IO pressure.",
                beginner: "When PSI rises, tasks are getting stalled by missing resources.",
                expert: "avg10 is especially useful for recent degradation, particularly with cgroup and alert context.",
            },
        },
        ReferenceEntry {
            id: "linux.cgroup",
            panel: "linux",
            audience: Audience::Expert,
            aliases: &["cgroup", "container", "cpu throttle", "memory max"],
            tags: &["linux", "cgroup", "container", "limits"],
            fr: ReferenceText {
                title: "Cgroup v2",
                summary: "Expose les limites et usages de ressources du groupe de controle courant.",
                beginner: "Pratique pour savoir si le processus tourne dans un conteneur ou sous quotas.",
                expert: "La memoire max, les pids et le throttling CPU aident a differencier un probleme host d'une limite imposee.",
            },
            en: ReferenceText {
                title: "Cgroup v2",
                summary: "Shows resource limits and usage for the current control group.",
                beginner: "Useful to tell whether the process runs inside a container or quota.",
                expert: "Memory max, pid limits and CPU throttling help separate host pressure from imposed limits.",
            },
        },
        ReferenceEntry {
            id: "process.cpu",
            panel: "process",
            audience: Audience::Beginner,
            aliases: &["process cpu", "top process", "pid", "threads"],
            tags: &["process", "cpu", "pid", "top"],
            fr: ReferenceText {
                title: "Top processus",
                summary: "Liste les processus les plus visibles selon CPU et autres compteurs.",
                beginner: "Commencez ici pour voir quel processus consomme CPU, memoire ou descripteurs.",
                expert: "La vue est utile pour un tri rapide, mais doit etre recroisee avec watch, snapshot ou replay.",
            },
            en: ReferenceText {
                title: "Top processes",
                summary: "Lists the most visible processes by CPU and related counters.",
                beginner: "Start here to see which process is using CPU, memory or file descriptors.",
                expert: "This is a fast triage view and should be cross-checked with watch, snapshot or replay.",
            },
        },
        ReferenceEntry {
            id: "process.jvm",
            panel: "process",
            audience: Audience::Expert,
            aliases: &["jvm", "java", "jvm detection"],
            tags: &["process", "jvm", "java"],
            fr: ReferenceText {
                title: "Detection JVM",
                summary: "Marque certains processus comme JVM selon des heuristiques simples.",
                beginner: "Le tag JVM aide a reperer rapidement une application Java dans la liste.",
                expert: "Ce n'est pas encore une detection profonde de runtime; le signal reste heuristique.",
            },
            en: ReferenceText {
                title: "JVM detection",
                summary: "Marks some processes as JVMs using simple heuristics.",
                beginner: "The JVM tag helps spot Java applications quickly in the process list.",
                expert: "This is not deep runtime detection yet; the signal is still heuristic.",
            },
        },
        ReferenceEntry {
            id: "alerts",
            panel: "alerts",
            audience: Audience::Beginner,
            aliases: &["alerts", "warning", "critical", "health"],
            tags: &["alerts", "health", "thresholds"],
            fr: ReferenceText {
                title: "Alertes",
                summary: "Les alertes synthetisent les signaux les plus urgents du snapshot.",
                beginner: "Utilisez-les comme point d'entree, puis remontez vers CPU, memoire, disque ou reseau.",
                expert: "Les alertes actuelles sont locales et basees sur seuils; elles donnent du contexte mais pas une RCA complete.",
            },
            en: ReferenceText {
                title: "Alerts",
                summary: "Alerts summarize the most urgent signals in the current snapshot.",
                beginner: "Use them as an entry point, then drill into CPU, memory, disk or network.",
                expert: "Current alerts are local and threshold-based; they provide context, not full RCA.",
            },
        },
    ]
}

/// The localized view of an entry.
pub open spec fn view_of(e: ReferenceEntry, locale: Locale) -> ReferenceEntryView {
    let text = match locale {
        Locale::Fr => e.fr,
        Locale::En => e.en,
    };
    ReferenceEntryView {
        id: e.id,
        panel: e.panel,
        audience: e.audience,
        title: text.title,
        summary: text.summary,
        beginner: text.beginner,
        expert: text.expert,
        aliases: e.aliases,
        tags: e.tags,
    }
}

/// The texts a query is matched against: id, panel, both titles and
/// summaries, then the aliases and the tags.
pub open spec fn search_terms_spec(e: ReferenceEntry) -> Seq<Seq<char>> {
    seq![e.id@, e.panel@, e.fr.title@, e.fr.summary@, e.en.title@, e.en.summary@] + e.aliases@.map_values(
        |a: &str| a@,
    ) + e.tags@.map_values(|t: &str| t@)
}

/// Score of one term against a normalized query: 100 when the normalized
/// term is the query, 60 when it contains it, 30 when it contains every word
/// of it, 0 otherwise.
pub open spec fn term_score(term: Seq<char>, query: Seq<char>) -> nat {
    let t = normalize_spec(term);
    if t == query {
        100
    } else if has_substring(t, query) {
        60
    } else if forall|k: int| 0 <= k < words(query).len() ==> has_substring(t, #[trigger] words(query)[k]) {
        30
    } else {
        0
    }
}

/// The best term score of a list of terms.
pub open spec fn best_score(terms: Seq<Seq<char>>, query: Seq<char>) -> nat
    decreases terms.len(),
{
    if terms.len() == 0 {
        0
    } else {
        let a = best_score(terms.drop_last(), query);
        let b = term_score(terms.last(), query);
        if a >= b {
            a
        } else {
            b
        }
    }
}

/// Score of an entry against a normalized query: 1 for the empty query,
/// otherwise its best term score when that is not zero.
pub open spec fn entry_score(e: ReferenceEntry, query: Seq<char>) -> Option<nat> {
    if query.len() == 0 {
        Some(1)
    } else {
        let m = best_score(search_terms_spec(e), query);
        if m == 0 {
            None
        } else {
            Some(m)
        }
    }
}

pub open spec fn hit_of(e: ReferenceEntry, query: Seq<char>, locale: Locale) -> Option<SearchHit> {
    match entry_score(e, query) {
        Some(s) => Some(SearchHit { score: s as usize, entry: view_of(e, locale) }),
        None => None,
    }
}

/// The hits of a normalized query, in catalog order.
pub open spec fn catalog_hits(query: Seq<char>, locale: Locale) -> Seq<SearchHit> {
    catalog().filter_map(|e: ReferenceEntry| hit_of(e, query, locale))
}

/// Some catalog entry of the panel matches the normalized query.
pub open spec fn panel_has_match(panel: Seq<char>, query: Seq<char>) -> bool {
    exists|i: int|
        0 <= i < catalog().len() && (#[trigger] catalog()[i]).panel@ == panel && entry_score(
            catalog()[i],
            query,
        ) is Some
}

impl SortKey for SearchHit {
    /// Higher score first, then title in `str` order.
    open spec fn key_le(self, other: Self) -> bool {
        self.score > other.score || (self.score == other.score && lex_le(
            self.entry.title@,
            other.entry.title@,
        ))
    }

    proof fn lemma_key_total(a: Self, b: Self) {
        lemma_lex_total(a.entry.title@, b.entry.title@);
    }

    proof fn lemma_key_trans(a: Self, b: Self, c: Self) {
        if a.score == b.score && b.score == c.score {
            lemma_lex_trans(a.entry.title@, b.entry.title@, c.entry.title@);
        }
    }

    fn key_le_exec(&self, other: &Self) -> (r: bool) {
        if self.score != other.score {
            self.score > other.score
        } else {
            lex_le_chars(&chars_of(self.entry.title), &chars_of(other.entry.title))
        }
    }
}

fn to_view(entry: &ReferenceEntry, locale: Locale) -> (r: ReferenceEntryView)
    ensures
        r == view_of(*entry, locale),
{
    let text = match locale {
        Locale::Fr => entry.fr,
        Locale::En => entry.en,
    };
    ReferenceEntryView {
        id: entry.id,
        panel: entry.panel,
        audience: entry.audience,
        title: text.title,
        summary: text.summary,
        beginner: text.beginner,
        expert: text.expert,
        aliases: entry.aliases,
        tags: entry.tags,
    }
}

/// Every catalog entry, localized.
pub fn catalog_views(locale: Locale) -> (r: Vec<ReferenceEntryView>)
    ensures
        r@ == catalog().map_values(|e: ReferenceEntry| view_of(e, locale)),
{
    let entries = catalog_entries();
    let mut r: Vec<ReferenceEntryView> = Vec::new();
    for i in 0..entries.len()
        invariant
            entries@ == catalog(),
            r@ == catalog().take(i as int).map_values(|e: ReferenceEntry| view_of(e, locale)),
    {
        r.push(to_view(&entries[i], locale));
        assert(catalog().take(i + 1) == catalog().take(i as int).push(catalog()[i as int]));
    }
    assert(catalog().take(entries.len() as int) == catalog());
    r
}

fn search_terms(entry: &ReferenceEntry) -> (r: Vec<&'static str>)
    ensures
        r@.map_values(|s: &str| s@) == search_terms_spec(*entry),
{
    let mut terms: Vec<&'static str> = Vec::new();
    terms.push(entry.id);
    terms.push(entry.panel);
    terms.push(entry.fr.title);
    terms.push(entry.fr.summary);
    terms.push(entry.en.title);
    terms.push(entry.en.summary);
    let ghost head = terms@;
    for i in 0..entry.aliases.len()
        invariant
            terms@ == head + entry.aliases@.take(i as int),
    {
        terms.push(entry.aliases[i]);
        assert(entry.aliases@.take(i + 1) == entry.aliases@.take(i as int).push(entry.aliases@[i as int]));
    }
    assert(entry.aliases@.take(entry.aliases@.len() as int) == entry.aliases@);
    let ghost mid = terms@;
    for i in 0..entry.tags.len()
        invariant
            terms@ == mid + entry.tags@.take(i as int),
    {
        terms.push(entry.tags[i]);
        assert(entry.tags@.take(i + 1) == entry.tags@.take(i as int).push(entry.tags@[i as int]));
    }
    assert(entry.tags@.take(entry.tags@.len() as int) == entry.tags@);
    assert(terms@.map_values(|s: &str| s@) =~= search_terms_spec(*entry));
    terms
}

/// Every word of the query occurs in the normalized term.
fn contains_all_parts(term: &Vec<char>, parts: &Vec<Vec<char>>) -> (r: bool)
    ensures
        r == forall|k: int| 0 <= k < parts@.len() ==> has_substring(term@, #[trigger] parts@[k]@),
{
    for k in 0..parts.len()
        invariant
            forall|m: int| 0 <= m < k ==> has_substring(term@, #[trigger] parts@[m]@),
    {
        if !contains_chars(term, &parts[k]) {
            return false;
        }
    }
    true
}

fn score_term(term: &str, query: &Vec<char>, parts: &Vec<Vec<char>>) -> (r: usize)
    requires
        parts@.len() == words(query@).len(),
        forall|k: int| 0 <= k < parts@.len() ==> #[trigger] parts@[k]@ == words(query@)[k],
    ensures
        r == term_score(term@, query@),
{
    let normalized = normalize(term);
    if chars_eq(&normalized, query) {
        100
    } else if contains_chars(&normalized, query) {
        60
    } else if contains_all_parts(&normalized, parts) {
        assert forall|k: int| 0 <= k < words(query@).len() implies has_substring(
            normalized@,
            #[trigger] words(query@)[k],
        ) by {
            assert(parts@[k]@ == words(query@)[k]);
        }
        30
    } else {
        assert(!(forall|k: int|
            0 <= k < words(query@).len() ==> has_substring(normalized@, #[trigger] words(query@)[k])))
            by {
            let k = choose|k: int| 0 <= k < parts@.len() && !has_substring(normalized@, #[trigger] parts@[k]@);
            assert(parts@[k]@ == words(query@)[k]);
        }
        0
    }
}

fn score_entry(entry: &ReferenceEntry, query: &Vec<char>) -> (r: Option<usize>)
    ensures
        match entry_score(*entry, query@) {
            Some(s) => r == Some(s as usize),
            None => r is None,
        },
{
    if query.len() == 0 {
        return Some(1);
    }
    let terms = search_terms(entry);
    let parts = split_words(query);
    let ghost tv = terms@.map_values(|s: &str| s@);
    let mut score: usize = 0;
    for i in 0..terms.len()
        invariant
            tv == terms@.map_values(|s: &str| s@),
            tv == search_terms_spec(*entry),
            parts@.len() == words(query@).len(),
            forall|k: int| 0 <= k < parts@.len() ==> #[trigger] parts@[k]@ == words(query@)[k],
            score == best_score(tv.take(i as int), query@),
            score <= 100,
    {
        let s = score_term(terms[i], query, &parts);
        assert(tv.take(i + 1).drop_last() == tv.take(i as int));
        assert(tv.take(i + 1).last() == terms@[i as int]@);
        if s > score {
            score = s;
        }
    }
    assert(tv.take(terms.len() as int) == tv);
    if score == 0 {
        None
    } else {
        Some(score)
    }
}

/// Entries matching the query, best score first and then by title.
pub fn search(query: &str, locale: Locale) -> (r: Vec<SearchHit>)
    ensures
        stable_sorted(catalog_hits(normalize_spec(query@), locale), r@),
{
    let normalized = normalize(query);
    let entries = catalog_entries();
    let ghost q = normalized@;
    let ghost f = |e: ReferenceEntry| hit_of(e, q, locale);
    let mut hits: Vec<SearchHit> = Vec::new();
    for i in 0..entries.len()
        invariant
            entries@ == catalog(),
            normalized@ == q,
            f == (|e: ReferenceEntry| hit_of(e, q, locale)),
            hits@ == catalog().take(i as int).filter_map(f),
    {
        let s = score_entry(&entries[i], &normalized);
        let ghost pre = catalog().take(i as int);
        assert(catalog().take(i + 1).drop_last() == pre);
        assert(catalog().take(i + 1).last() == entries@[i as int]);
        match s {
            Some(score) => {
                hits.push(SearchHit { score, entry: to_view(&entries[i], locale) });
            },
            None => {},
        }
    }
    assert(catalog().take(entries.len() as int) == catalog());
    stable_sort(hits)
}

/// Some entry of `panel` matches the query; an empty query highlights nothing.
pub fn panel_matches_query(panel: &str, query: &str) -> (r: bool)
    ensures
        r == (normalize_spec(query@).len() > 0 && panel_has_match(panel@, normalize_spec(query@))),
{
    let normalized = normalize(query);
    if normalized.len() == 0 {
        return false;
    }
    let entries = catalog_entries();
    let panel_chars = chars_of(panel);
    for i in 0..entries.len()
        invariant
            entries@ == catalog(),
            panel_chars@ == panel@,
            normalized@ == normalize_spec(query@),
            normalized@.len() > 0,
            forall|m: int|
                0 <= m < i ==> !((#[trigger] catalog()[m]).panel@ == panel@ && entry_score(
                    catalog()[m],
                    normalized@,
                ) is Some),
    {
        if chars_eq(&chars_of(entries[i].panel), &panel_chars) {
            let sc = score_entry(&entries[i], &normalized);
            if sc.is_some() {
                assert(entries@[i as int] == catalog()[i as int]);
                assert(entry_score(catalog()[i as int], normalized@) is Some);
                assert((catalog()[i as int]).panel@ == panel@);
                assert(panel_has_match(panel@, normalized@));
                return true;
            }
        }
    }
    false
}

/// A language tag selects the same locale in any letter case.
pub proof fn lemma_locale_case_insensitive(tag: Seq<char>)
    ensures
        locale_of(ascii_lower(tag)) == locale_of(tag),
{
    lemma_ascii_lower_idempotent(tag);
}

/// A hit of a search stands for a catalog entry: it carries the entry's
/// localized view and its score.
proof fn lemma_hit_source(query: Seq<char>, locale: Locale, h: SearchHit)
    requires
        catalog_hits(query, locale).contains(h),
    ensures
        exists|c: int|
            0 <= c < catalog().len() && hit_of(#[trigger] catalog()[c], query, locale) == Some(h),
{
    let f = |e: ReferenceEntry| hit_of(e, query, locale);
    catalog().lemma_filter_map_contains(f, h);
    let t = choose|t: ReferenceEntry| #[trigger] catalog().contains(t) && f(t) == Some(h);
    let c = choose|c: int| 0 <= c < catalog().len() && catalog()[c] == t;
    assert(hit_of(catalog()[c], query, locale) == Some(h));
}

/// Every catalog entry that scores is a hit of the search.
proof fn lemma_hit_listed(query: Seq<char>, locale: Locale, c: int)
    requires
        0 <= c < catalog().len(),
        entry_score(catalog()[c], query) is Some,
    ensures
        catalog_hits(query, locale).contains(hit_of(catalog()[c], query, locale)->0),
{
    let f = |e: ReferenceEntry| hit_of(e, query, locale);
    assert(f(catalog()[c]) is Some);
    lemma_filter_map_keeps(catalog(), f, c);
}

/// For a query that is not blank, a panel is highlighted exactly when the
/// search lists an entry of that panel; a blank query highlights nothing.
pub proof fn lemma_highlight_iff_listed(
    panel: Seq<char>,
    query: Seq<char>,
    locale: Locale,
    hits: Seq<SearchHit>,
)
    requires
        stable_sorted(catalog_hits(normalize_spec(query), locale), hits),
    ensures
        (normalize_spec(query).len() > 0 && panel_has_match(panel, normalize_spec(query))) <==> (
        normalize_spec(query).len() > 0 && exists|i: int|
            0 <= i < hits.len() && (#[trigger] hits[i]).entry.panel@ == panel),
{
    let q = normalize_spec(query);
    let all = catalog_hits(q, locale);
    if q.len() > 0 {
        if panel_has_match(panel, q) {
            let c = choose|c: int|
                0 <= c < catalog().len() && (#[trigger] catalog()[c]).panel@ == panel
                    && entry_score(catalog()[c], q) is Some;
            lemma_hit_listed(q, locale, c);
            let h = hit_of(catalog()[c], q, locale)->0;
            lemma_sorted_same_elements(all, hits, h);
            let i = choose|i: int| 0 <= i < hits.len() && hits[i] == h;
            assert(hits[i].entry.panel@ == panel);
        }
        if exists|i: int| 0 <= i < hits.len() && (#[trigger] hits[i]).entry.panel@ == panel {
            let i = choose|i: int| 0 <= i < hits.len() && (#[trigger] hits[i]).entry.panel@ == panel;
            let h = hits[i];
            lemma_sorted_same_elements(all, hits, h);
            assert(hits.contains(h));
            lemma_hit_source(q, locale, h);
            let c = choose|c: int|
                0 <= c < catalog().len() && hit_of(#[trigger] catalog()[c], q, locale) == Some(h);
            assert(catalog()[c].panel@ == panel);
            assert(panel_has_match(panel, q));
        }
    }
}

/// Every hit of a search is the hit of its own catalog entry, and no two
/// hits share an id.
pub proof fn lemma_hits_distinct(query: Seq<char>, locale: Locale, hits: Seq<SearchHit>)
    requires
        stable_sorted(catalog_hits(query, locale), hits),
    ensures
        hits.len() == catalog_hits(query, locale).len(),
        forall|i: int|
            #![trigger hits[i]]
            0 <= i < hits.len() ==> exists|c: int|
                0 <= c < catalog().len() && hit_of(#[trigger] catalog()[c], query, locale) == Some(
                    hits[i],
                ),
        forall|i: int, j: int|
            0 <= i < j < hits.len() ==> (#[trigger] hits[i]).entry.id@ != (#[trigger] hits[j]).entry.id@,
{
    let all = catalog_hits(query, locale);
    let f = |e: ReferenceEntry| hit_of(e, query, locale);
    let idx = lemma_filter_map_sources(catalog(), f);
    let p = choose|p: Seq<int>| stable_perm(all, hits, p);
    assert forall|i: int| #![trigger hits[i]] 0 <= i < hits.len() implies exists|c: int|
        0 <= c < catalog().len() && hit_of(#[trigger] catalog()[c], query, locale) == Some(hits[i]) by {
        assert(hits[i] == all[p[i]]);
        assert(f(catalog()[idx[p[i]]]) == Some(all[p[i]]));
    }
    assert forall|i: int, j: int| 0 <= i < j < hits.len() implies (#[trigger] hits[i]).entry.id@
        != (#[trigger] hits[j]).entry.id@ by {
        let (ci, cj) = (idx[p[i]], idx[p[j]]);
        assert(hits[i] == all[p[i]] && hits[j] == all[p[j]]);
        assert(f(catalog()[ci]) == Some(all[p[i]]));
        assert(f(catalog()[cj]) == Some(all[p[j]]));
        assert(p[i] != p[j]);
        if p[i] < p[j] {
            assert(ci < cj);
            lemma_catalog_ids_distinct(ci, cj);
        } else {
            assert(cj < ci);
            lemma_catalog_ids_distinct(cj, ci);
        }
    }
}

/// The locale changes only the texts of the hits: the searches in two locales
/// list as many hits, no id twice, and each hit of one has a hit of the same
/// id and score in the other. Ids being distinct and the counts equal, the
/// (id, score) pairs of the two searches are the same up to order.
#[verifier::spinoff_prover]
pub proof fn lemma_search_locale_independent(
    query: Seq<char>,
    a: Locale,
    b: Locale,
    hits_a: Seq<SearchHit>,
    hits_b: Seq<SearchHit>,
)
    requires
        stable_sorted(catalog_hits(normalize_spec(query), a), hits_a),
        stable_sorted(catalog_hits(normalize_spec(query), b), hits_b),
    ensures
        hits_a.len() == hits_b.len(),
        forall|i: int, j: int|
            0 <= i < j < hits_a.len() ==> (#[trigger] hits_a[i]).entry.id@ != (
            #[trigger] hits_a[j]).entry.id@,
        forall|i: int, j: int|
            0 <= i < j < hits_b.len() ==> (#[trigger] hits_b[i]).entry.id@ != (
            #[trigger] hits_b[j]).entry.id@,
        forall|i: int|
            0 <= i < hits_a.len() ==> exists|j: int|
                0 <= j < hits_b.len() && (#[trigger] hits_b[j]).entry.id == (
                #[trigger] hits_a[i]).entry.id && hits_b[j].score == hits_a[i].score,
{
    let q = normalize_spec(query);
    lemma_locale_same_len(q, a, b, hits_a, hits_b);
    assert(forall|i: int, j: int|
        0 <= i < j < hits_a.len() ==> (#[trigger] hits_a[i]).entry.id@ != (
        #[trigger] hits_a[j]).entry.id@) by {
        lemma_hits_distinct(q, a, hits_a);
    }
    assert(forall|i: int, j: int|
        0 <= i < j < hits_b.len() ==> (#[trigger] hits_b[i]).entry.id@ != (
        #[trigger] hits_b[j]).entry.id@) by {
        lemma_hits_distinct(q, b, hits_b);
    }
    assert(forall|i: int|
        0 <= i < hits_a.len() ==> exists|j: int|
            0 <= j < hits_b.len() && (#[trigger] hits_b[j]).entry.id == (
            #[trigger] hits_a[i]).entry.id && hits_b[j].score == hits_a[i].score) by {
        lemma_listed_everywhere(q, a, b, hits_a, hits_b);
    }
}

proof fn lemma_locale_same_len(
    q: Seq<char>,
    a: Locale,
    b: Locale,
    hits_a: Seq<SearchHit>,
    hits_b: Seq<SearchHit>,
)
    requires
        stable_sorted(catalog_hits(q, a), hits_a),
        stable_sorted(catalog_hits(q, b), hits_b),
    ensures
        hits_a.len() == hits_b.len(),
{
    lemma_hits_len(q, a, hits_a);
    lemma_hits_len(q, b, hits_b);
    let fa = |e: ReferenceEntry| hit_of(e, q, a);
    let fb = |e: ReferenceEntry| hit_of(e, q, b);
    assert forall|x: ReferenceEntry| (#[trigger] fa(x) is Some) == (fb(x) is Some) by {}
    lemma_filter_map_same_len(catalog(), fa, fb);
}

proof fn lemma_listed_everywhere(
    q: Seq<char>,
    a: Locale,
    b: Locale,
    hits_a: Seq<SearchHit>,
    hits_b: Seq<SearchHit>,
)
    requires
        stable_sorted(catalog_hits(q, a), hits_a),
        stable_sorted(catalog_hits(q, b), hits_b),
    ensures
        forall|i: int|
            0 <= i < hits_a.len() ==> exists|j: int|
                0 <= j < hits_b.len() && (#[trigger] hits_b[j]).entry.id == (
                #[trigger] hits_a[i]).entry.id && hits_b[j].score == hits_a[i].score,
{
    assert forall|i: int| 0 <= i < hits_a.len() implies exists|j: int|
        0 <= j < hits_b.len() && (#[trigger] hits_b[j]).entry.id == (#[trigger] hits_a[i]).entry.id
            && hits_b[j].score == hits_a[i].score by {
        lemma_listed_in_other_locale(q, a, b, hits_a, hits_b, hits_a[i]);
    }
}

proof fn lemma_hits_len(q: Seq<char>, l: Locale, hits: Seq<SearchHit>)
    requires
        stable_sorted(catalog_hits(q, l), hits),
    ensures
        hits.len() == catalog_hits(q, l).len(),
{
    let p = choose|p: Seq<int>| stable_perm(catalog_hits(q, l), hits, p);
}

proof fn lemma_listed_in_other_locale(
    q: Seq<char>,
    a: Locale,
    b: Locale,
    hits_a: Seq<SearchHit>,
    hits_b: Seq<SearchHit>,
    h: SearchHit,
)
    requires
        stable_sorted(catalog_hits(q, a), hits_a),
        stable_sorted(catalog_hits(q, b), hits_b),
        hits_a.contains(h),
    ensures
        exists|j: int|
            0 <= j < hits_b.len() && (#[trigger] hits_b[j]).entry.id == h.entry.id && hits_b[j].score
                == h.score,
{
    lemma_sorted_same_elements(catalog_hits(q, a), hits_a, h);
    lemma_hit_source(q, a, h);
    let c = choose|c: int| 0 <= c < catalog().len() && hit_of(#[trigger] catalog()[c], q, a) == Some(h);
    lemma_hit_listed(q, b, c);
    let h2 = hit_of(catalog()[c], q, b)->0;
    lemma_sorted_same_elements(catalog_hits(q, b), hits_b, h2);
    let j = choose|j: int| 0 <= j < hits_b.len() && hits_b[j] == h2;
    assert(hits_b[j].entry.id == h.entry.id);
}

/// Hits come best score first.
pub proof fn lemma_hits_by_score(hits_source: Seq<SearchHit>, hits: Seq<SearchHit>, i: int, j: int)
    requires
        stable_sorted(hits_source, hits),
        0 <= i < j < hits.len(),
    ensures
        hits[i].score >= hits[j].score,
{
    let p = choose|p: Seq<int>| stable_perm(hits_source, hits, p);
    assert(hits[i].key_le(hits[j]));
}

/// The best score of a list of terms is the largest term score in it: no
/// term scores more, and a non-empty list has a term that scores exactly it.
pub proof fn lemma_best_score_is_max(terms: Seq<Seq<char>>, query: Seq<char>)
    ensures
        forall|k: int| 0 <= k < terms.len() ==> term_score(#[trigger] terms[k], query) <= best_score(terms, query),
        terms.len() > 0 ==> exists|k: int| 0 <= k < terms.len() && term_score(#[trigger] terms[k], query) == best_score(terms, query),
        terms.len() == 0 ==> best_score(terms, query) == 0,
    decreases terms.len(),
{
    if terms.len() > 0 {
        let init = terms.drop_last();
        lemma_best_score_is_max(init, query);
        assert forall|k: int| 0 <= k < terms.len() implies term_score(#[trigger] terms[k], query) <= best_score(terms, query) by {
            if k < terms.len() - 1 {
                assert(terms[k] == init[k]);
            }
        }
        if best_score(init, query) >= term_score(terms.last(), query) && init.len() > 0 {
            let k = choose|k: int| 0 <= k < init.len() && term_score(#[trigger] init[k], query) == best_score(init, query);
            assert(terms[k] == init[k]);
        } else {
            assert(term_score(terms[terms.len() - 1], query) == best_score(terms, query));
        }
    }
}

/// How an entry is scored against a normalized query: 1 for the empty
/// query; otherwise no score when every search term scores 0, else the
/// largest score of its search terms (100 exact, 60 substring, 30 all words).
pub proof fn lemma_entry_score_rule(e: ReferenceEntry, query: Seq<char>)
    ensures
        query.len() == 0 ==> entry_score(e, query) == Some(1nat),
        query.len() > 0 ==> (entry_score(e, query) is None <==> forall|k: int|
            0 <= k < search_terms_spec(e).len() ==> term_score(#[trigger] search_terms_spec(e)[k], query) == 0),
        query.len() > 0 && entry_score(e, query) is Some ==> {
            let s = entry_score(e, query)->0;
            &&& forall|k: int| 0 <= k < search_terms_spec(e).len() ==> term_score(#[trigger] search_terms_spec(e)[k], query) <= s
            &&& exists|k: int| 0 <= k < search_terms_spec(e).len() && term_score(#[trigger] search_terms_spec(e)[k], query) == s
        },
{
    let terms = search_terms_spec(e);
    lemma_best_score_is_max(terms, query);
    assert(terms.len() >= 6);
    if query.len() > 0 && best_score(terms, query) > 0 {
        let k = choose|k: int| 0 <= k < terms.len() && term_score(#[trigger] terms[k], query) == best_score(terms, query);
        assert(term_score(terms[k], query) != 0);
    }
}

/// How one text scores against a normalized query: 100 when its normalized
/// form is the query, at least 60 when that form contains the query, at
/// least 30 when it contains every word of the query, and never anything but
/// 100, 60, 30 or 0.
pub proof fn lemma_term_score_levels(term: Seq<char>, query: Seq<char>)
    ensures
        normalize_spec(term) == query ==> term_score(term, query) == 100,
        has_substring(normalize_spec(term), query) ==> term_score(term, query) >= 60,
        (forall|k: int| 0 <= k < words(query).len() ==> has_substring(normalize_spec(term), #[trigger] words(query)[k]))
            ==> term_score(term, query) >= 30,
        term_score(term, query) == 100 || term_score(term, query) == 60 || term_score(term, query) == 30
            || term_score(term, query) == 0,
        term_score(term, query) == 100 ==> normalize_spec(term) == query,
{
}

/// A term of the list that normalizes to the query gives the list its
/// highest possible score, 100.
proof fn lemma_exact_term_best(terms: Seq<Seq<char>>, query: Seq<char>, k: int)
    requires
        0 <= k < terms.len(),
        normalize_spec(terms[k]) == query,
    ensures
        best_score(terms, query) == 100,
{
    lemma_best_score_is_max(terms, query);
    let j = choose|j: int| 0 <= j < terms.len() && term_score(#[trigger] terms[j], query) == best_score(terms, query);
    assert(term_score(terms[k], query) == 100);
    assert(term_score(terms[j], query) <= 100);
}

/// An entry is found with the full score 100 by every non-blank query that
/// one of its texts normalizes to: its id, its panel, its title or summary in
/// either language, any of its aliases and any of its tags.
pub proof fn lemma_exact_text_scores_full(e: ReferenceEntry, query: Seq<char>, t: int)
    requires
        query.len() > 0,
        ({
            ||| normalize_spec(e.id@) == query
            ||| normalize_spec(e.panel@) == query
            ||| normalize_spec(e.fr.title@) == query
            ||| normalize_spec(e.fr.summary@) == query
            ||| normalize_spec(e.en.title@) == query
            ||| normalize_spec(e.en.summary@) == query
            ||| 0 <= t < e.aliases@.len() && normalize_spec(e.aliases@[t]@) == query
            ||| 0 <= t < e.tags@.len() && normalize_spec(e.tags@[t]@) == query
        }),
    ensures
        entry_score(e, query) == Some(100nat),
{
    let terms = search_terms_spec(e);
    let na = e.aliases@.len();
    assert(terms[0] == e.id@);
    assert(terms[1] == e.panel@);
    assert(terms[2] == e.fr.title@);
    assert(terms[3] == e.fr.summary@);
    assert(terms[4] == e.en.title@);
    assert(terms[5] == e.en.summary@);
    if normalize_spec(e.id@) == query {
        lemma_exact_term_best(terms, query, 0);
    } else if normalize_spec(e.panel@) == query {
        lemma_exact_term_best(terms, query, 1);
    } else if normalize_spec(e.fr.title@) == query {
        lemma_exact_term_best(terms, query, 2);
    } else if normalize_spec(e.fr.summary@) == query {
        lemma_exact_term_best(terms, query, 3);
    } else if normalize_spec(e.en.title@) == query {
        lemma_exact_term_best(terms, query, 4);
    } else if normalize_spec(e.en.summary@) == query {
        lemma_exact_term_best(terms, query, 5);
    } else if 0 <= t < na && normalize_spec(e.aliases@[t]@) == query {
        assert(terms[6 + t] == e.aliases@[t]@);
        lemma_exact_term_best(terms, query, 6 + t);
    } else {
        assert(terms[6 + na + t] == e.tags@[t]@);
        lemma_exact_term_best(terms, query, 6 + na + t);
    }
}

/// A search whose normalized query is exactly one of a catalog entry's tags
/// lists that entry with score 100, and highlights the entry's panel.
pub proof fn lemma_search_finds_tag(
    query: Seq<char>,
    locale: Locale,
    hits: Seq<SearchHit>,
    c: int,
    t: int,
)
    requires
        0 <= c < catalog().len(),
        0 <= t < catalog()[c].tags@.len(),
        normalize_spec(query).len() > 0,
        normalize_spec(catalog()[c].tags@[t]@) == normalize_spec(query),
        stable_sorted(catalog_hits(normalize_spec(query), locale), hits),
    ensures
        hits.contains(SearchHit { score: 100, entry: view_of(catalog()[c], locale) }),
        panel_has_match(catalog()[c].panel@, normalize_spec(query)),
{
    let q = normalize_spec(query);
    lemma_exact_text_scores_full(catalog()[c], q, t);
    lemma_hit_listed(q, locale, c);
    lemma_sorted_same_elements(catalog_hits(q, locale), hits, hit_of(catalog()[c], q, locale)->0);
    assert(catalog()[c].panel@ == catalog()[c].panel@);
}

/// A query that normalizes to nothing lists the whole catalog, each entry
/// with score 1, in title order.
pub proof fn lemma_blank_query_lists_all(query: Seq<char>, locale: Locale, hits: Seq<SearchHit>)
    requires
        normalize_spec(query).len() == 0,
        stable_sorted(catalog_hits(normalize_spec(query), locale), hits),
    ensures
        hits.len() == catalog().len(),
        forall|i: int| 0 <= i < hits.len() ==> (#[trigger] hits[i]).score == 1,
        forall|i: int, j: int|
            0 <= i < j < hits.len() ==> lex_le(
                (#[trigger] hits[i]).entry.title@,
                (#[trigger] hits[j]).entry.title@,
            ),
        forall|c: int|
            0 <= c < catalog().len() ==> hits.contains(
                SearchHit { score: 1, entry: view_of(#[trigger] catalog()[c], locale) },
            ),
{
    let q = normalize_spec(query);
    let f = |e: ReferenceEntry| hit_of(e, q, locale);
    lemma_filter_map_all_some(catalog(), f);
    let p = choose|p: Seq<int>| stable_perm(catalog_hits(q, locale), hits, p);
    assert forall|i: int| 0 <= i < hits.len() implies (#[trigger] hits[i]).score == 1 by {
        let all = catalog_hits(q, locale);
        assert(hits[i] == all[p[i]]);
        lemma_sorted_same_elements(all, hits, hits[i]);
        assert(all.contains(hits[i]));
        lemma_hit_source(q, locale, hits[i]);
    }
    assert forall|i: int, j: int| 0 <= i < j < hits.len() implies lex_le(
        (#[trigger] hits[i]).entry.title@,
        (#[trigger] hits[j]).entry.title@,
    ) by {
        assert(hits[i].score == 1 && hits[j].score == 1);
        lemma_sorted_pair(catalog_hits(q, locale), hits, i, j);
    }
    assert forall|c: int| 0 <= c < catalog().len() implies hits.contains(
        SearchHit { score: 1, entry: view_of(#[trigger] catalog()[c], locale) },
    ) by {
        lemma_hit_listed(q, locale, c);
        lemma_sorted_same_elements(catalog_hits(q, locale), hits, hit_of(catalog()[c], q, locale)->0);
    }
}

/// `filter_map` by a function that keeps everything keeps the length.
proof fn lemma_filter_map_all_some<A, B>(s: Seq<A>, f: spec_fn(A) -> Option<B>)
    requires
        forall|x: A| #[trigger] f(x) is Some,
    ensures
        s.filter_map(f).len() == s.len(),
    decreases s.len(),
{
    if s.len() > 0 {
        lemma_filter_map_all_some(s.drop_last(), f);
        assert(f(s.last()) is Some);
    }
}

/// First character, length and last character of an id: enough to tell the
/// catalog's ids apart.
spec fn id_key(id: Seq<char>) -> (char, nat, char) {
    (id[0], id.len(), id.last())
}

/// Entry ids are stable keys: no two catalog entries share one, and a
/// localized view keeps its entry's id.
pub proof fn lemma_catalog_ids_distinct(i: int, j: int)
    requires
        0 <= i < j < catalog().len(),
    ensures
        catalog()[i].id@ != catalog()[j].id@,
        view_of(catalog()[i], Locale::Fr).id == view_of(catalog()[i], Locale::En).id,
{
    let c = catalog();
    reveal_strlit("cpu.usage");
    reveal_strlit("cpu.load");
    reveal_strlit("cpu.iowait");
    reveal_strlit("memory.pressure");
    reveal_strlit("memory.swap");
    reveal_strlit("disk.await");
    reveal_strlit("disk.queue_depth");
    reveal_strlit("network.tcp");
    reveal_strlit("network.retrans");
    reveal_strlit("linux.psi");
    reveal_strlit("linux.cgroup");
    reveal_strlit("process.cpu");
    reveal_strlit("process.jvm");
    reveal_strlit("alerts");
    assert(id_key(c[0].id@) == ('c', 9nat, 'e'));
    assert(id_key(c[1].id@) == ('c', 8nat, 'd'));
    assert(id_key(c[2].id@) == ('c', 10nat, 't'));
    assert(id_key(c[3].id@) == ('m', 15nat, 'e'));
    assert(id_key(c[4].id@) == ('m', 11nat, 'p'));
    assert(id_key(c[5].id@) == ('d', 10nat, 't'));
    assert(id_key(c[6].id@) == ('d', 16nat, 'h'));
    assert(id_key(c[7].id@) == ('n', 11nat, 'p'));
    assert(id_key(c[8].id@) == ('n', 15nat, 's'));
    assert(id_key(c[9].id@) == ('l', 9nat, 'i'));
    assert(id_key(c[10].id@) == ('l', 12nat, 'p'));
    assert(id_key(c[11].id@) == ('p', 11nat, 'u'));
    assert(id_key(c[12].id@) == ('p', 11nat, 'm'));
    assert(id_key(c[13].id@) == ('a', 6nat, 's'));
    assert(id_key(c[i].id@) != id_key(c[j].id@));
}

} // verus!
