use sysray::reference::{catalog_views, panel_matches_query, search, Locale};

#[test]
fn search_finds_alias_match() {
    let hits = search("latency", Locale::En);
    assert!(hits.iter().any(|hit| hit.entry.id == "disk.await"));
}

#[test]
fn panel_query_match_is_detected() {
    assert!(panel_matches_query("memory", "swap"));
    assert!(!panel_matches_query("network", "swap"));
}

#[test]
fn locale_parse_accepts_english_tags_in_any_case() {
    assert_eq!(Locale::parse("en"), Locale::En);
    assert_eq!(Locale::parse("EN-us"), Locale::En);
    assert_eq!(Locale::parse("en-GB"), Locale::En);
    assert_eq!(Locale::parse("fr"), Locale::Fr);
    assert_eq!(Locale::parse("de"), Locale::Fr);
    assert_eq!(Locale::parse(""), Locale::Fr);
}

#[test]
fn catalog_views_localize_every_entry() {
    let fr = catalog_views(Locale::Fr);
    let en = catalog_views(Locale::En);
    assert_eq!(fr.len(), 14);
    assert_eq!(en.len(), 14);
    for (a, b) in fr.iter().zip(en.iter()) {
        assert_eq!(a.id, b.id);
        assert_eq!(a.panel, b.panel);
    }
    assert_eq!(en[0].id, "cpu.usage");
    assert_ne!(fr[0].title, en[0].title);
}

#[test]
fn exact_alias_scores_one_hundred() {
    let hits = search("swap", Locale::En);
    let swap = hits.iter().find(|hit| hit.entry.id == "memory.swap").unwrap();
    assert_eq!(swap.score, 100);
    assert_eq!(hits[0].score, 100);
}

#[test]
fn hits_come_best_score_first() {
    let hits = search("latency", Locale::En);
    assert!(!hits.is_empty());
    for pair in hits.windows(2) {
        assert!(pair[0].score >= pair[1].score);
        if pair[0].score == pair[1].score {
            assert!(pair[0].entry.title <= pair[1].entry.title);
        }
    }
}

#[test]
fn blank_query_lists_whole_catalog_with_score_one() {
    let hits = search("  --  ", Locale::Fr);
    assert_eq!(hits.len(), 14);
    assert!(hits.iter().all(|hit| hit.score == 1));
}

#[test]
fn query_is_normalized_before_matching() {
    let upper = search("  SWAP!! ", Locale::En);
    let plain = search("swap", Locale::En);
    assert_eq!(upper.len(), plain.len());
    for (a, b) in upper.iter().zip(plain.iter()) {
        assert_eq!(a.entry.id, b.entry.id);
        assert_eq!(a.score, b.score);
    }
}

#[test]
fn every_word_of_query_matches_with_score_thirty() {
    let hits = search("latency storage", Locale::En);
    let await_hit = hits.iter().find(|hit| hit.entry.id == "disk.await").unwrap();
    assert!(await_hit.score >= 30);
    let none = search("zzzz-no-such-term", Locale::En);
    assert!(none.is_empty());
}

#[test]
fn search_membership_does_not_depend_on_locale() {
    let fr = search("pressure", Locale::Fr);
    let en = search("pressure", Locale::En);
    assert_eq!(fr.len(), en.len());
    for hit in &fr {
        assert!(en.iter().any(|other| other.entry.id == hit.entry.id && other.score == hit.score));
    }
}

#[test]
fn highlight_matches_search_panels() {
    let hits = search("swap", Locale::Fr);
    for panel in ["system", "cpu", "memory", "linux", "disk", "network", "alerts", "process"] {
        let listed = hits.iter().any(|hit| hit.entry.panel == panel);
        assert_eq!(panel_matches_query(panel, "swap"), listed);
    }
    assert!(!panel_matches_query("memory", "   "));
}
