use std::str::FromStr;

use citeproc::cite::{Cite, Cluster, ClusterNumber, IntraNote, Locator};
use citeproc::flip_flop::Formatting;
use citeproc::processor::{CiteId, Processor, SupportedFormat};
use citeproc::reference::Reference;
use citeproc::style_types::{CslType, Element, LocatorType, Position, Style};
use citeproc::variables::Variable;

fn style_title_only() -> Style {
    Style {
        citation: vec![Element::Variable(Variable::Title)],
        layout_delimiter: "; ".into(),
        layout_prefix: "(".into(),
        layout_suffix: ")".into(),
        layout_formatting: Formatting {
            font_style: None,
            font_weight: None,
            font_variant: None,
        },
        near_note_distance: 5,
        has_bibliography: false,
        default_locale: "en-US".into(),
    }
}

fn reference_with_title(id: &str, title: &str) -> Reference {
    Reference {
        id: id.into(),
        csl_type: CslType::Book,
        language: None,
        ordinary: vec![(Variable::Title, title.into())],
        number: vec![],
        name: vec![],
        date: vec![],
    }
}

fn basic_cite(ref_id: &str) -> Cite {
    Cite {
        ref_id: ref_id.into(),
        locator: None,
        prefix: String::new(),
        suffix: String::new(),
        suppression: None,
    }
}

fn note_cluster(id: u32, note: u32, cites: Vec<Cite>) -> Cluster {
    Cluster {
        id,
        number: ClusterNumber::Note(IntraNote::Single(note)),
        cites,
    }
}

#[test]
fn renders_clusters_with_delimiter_and_affixes() {
    let mut proc = Processor::new(style_title_only(), true, SupportedFormat::TestHtml);
    proc.set_references(vec![
        reference_with_title("a", "Alpha"),
        reference_with_title("b", "Beta"),
    ]);
    proc.init_clusters(vec![note_cluster(
        1,
        1,
        vec![basic_cite("a"), basic_cite("b")],
    )]);
    assert_eq!(proc.get_cluster(1), "(Alpha; Beta)");
}

#[test]
fn missing_reference_renders_empty() {
    let mut proc = Processor::new(style_title_only(), true, SupportedFormat::TestHtml);
    proc.init_clusters(vec![note_cluster(7, 1, vec![basic_cite("nowhere")])]);
    assert_eq!(proc.get_cluster(7), "()");
}

#[test]
fn batched_updates_deliver_changed_clusters() {
    let mut proc = Processor::new(style_title_only(), true, SupportedFormat::TestHtml);
    proc.set_references(vec![reference_with_title("a", "Alpha")]);
    proc.init_clusters(vec![note_cluster(1, 1, vec![basic_cite("a")])]);

    let summary = proc.batched_updates();
    assert_eq!(summary.clusters.len(), 1);
    assert_eq!(summary.clusters[0].0, 1);
    assert_eq!(summary.clusters[0].1, "(Alpha)");

    // nothing stale: the next batch is empty
    let summary = proc.batched_updates();
    assert!(summary.clusters.is_empty());

    // a reference change shows up in the next batch
    proc.insert_reference(reference_with_title("a", "Alpha2"));
    let summary = proc.batched_updates();
    assert_eq!(summary.clusters.len(), 1);
    assert_eq!(summary.clusters[0].1, "(Alpha2)");
}

#[test]
fn updates_not_saved_means_empty_batches() {
    let mut proc = Processor::new(style_title_only(), false, SupportedFormat::Html);
    proc.set_references(vec![reference_with_title("a", "Alpha")]);
    proc.init_clusters(vec![note_cluster(1, 1, vec![basic_cite("a")])]);
    let summary = proc.batched_updates();
    assert!(summary.clusters.is_empty());
    // outputs are still available on demand
    assert_eq!(proc.get_cluster(1), "(Alpha)");
}

#[test]
fn drain_discards_pending_updates() {
    let mut proc = Processor::new(style_title_only(), true, SupportedFormat::TestHtml);
    proc.set_references(vec![reference_with_title("a", "Alpha")]);
    proc.init_clusters(vec![note_cluster(1, 1, vec![basic_cite("a")])]);
    proc.drain();
    let summary = proc.batched_updates();
    assert!(summary.clusters.is_empty());
}

#[test]
fn incremental_outputs_match_fresh_processor() {
    // mutate a long-lived processor, then seed a fresh one with the
    // final inputs: the outputs agree
    let mut long_lived = Processor::new(style_title_only(), true, SupportedFormat::TestHtml);
    long_lived.set_references(vec![reference_with_title("a", "Old")]);
    long_lived.init_clusters(vec![note_cluster(1, 1, vec![basic_cite("a")])]);
    long_lived.drain();
    long_lived.insert_reference(reference_with_title("a", "New"));
    long_lived.insert_cluster(note_cluster(2, 2, vec![basic_cite("a")]));
    let batch = long_lived.batched_updates();

    let mut fresh = Processor::new(style_title_only(), true, SupportedFormat::TestHtml);
    fresh.set_references(vec![reference_with_title("a", "New")]);
    fresh.init_clusters(vec![
        note_cluster(1, 1, vec![basic_cite("a")]),
        note_cluster(2, 2, vec![basic_cite("a")]),
    ]);

    for (id, out) in batch.clusters.iter() {
        assert_eq!(*out, fresh.get_cluster(*id));
    }
    assert_eq!(long_lived.get_cluster(1), fresh.get_cluster(1));
    assert_eq!(long_lived.get_cluster(2), fresh.get_cluster(2));
}

#[test]
fn cluster_management() {
    let mut proc = Processor::test_db();
    proc.set_style(style_title_only());
    proc.set_references(vec![reference_with_title("a", "Alpha")]);
    proc.init_clusters(vec![note_cluster(1, 1, vec![basic_cite("a")])]);

    proc.insert_cluster(note_cluster(2, 2, vec![basic_cite("a")]));
    assert_eq!(proc.get_cluster(2), "(Alpha)");

    // replacing an existing cluster keeps its position
    proc.insert_cluster(note_cluster(1, 1, vec![]));
    assert_eq!(proc.get_cluster(1), "()");

    proc.remove_cluster(1);
    assert_eq!(proc.get_cluster(2), "(Alpha)");

    proc.renumber_clusters(&vec![(2, ClusterNumber::Note(IntraNote::Single(9)))]);
    let positions = proc.cite_positions();
    assert_eq!(positions.len(), 1);
}

#[test]
fn get_cite_and_get_reference() {
    let mut proc = Processor::new(style_title_only(), false, SupportedFormat::Rtf);
    proc.set_references(vec![reference_with_title("a", "Alpha")]);
    proc.init_clusters(vec![note_cluster(1, 1, vec![basic_cite("a")])]);

    let cite = proc.get_cite(CiteId {
        cluster_id: 1,
        index: 0,
    });
    assert_eq!(cite.ref_id, "a");

    assert!(proc.get_reference(&"a".to_string()).is_some());
    assert!(proc.get_reference(&"zzz".to_string()).is_none());
    assert_eq!(proc.get_style().near_note_distance, 5);
}

#[test]
fn locales_and_languages() {
    let mut proc = Processor::new(style_title_only(), false, SupportedFormat::Html);
    assert!(!proc.has_cached_locale(&"fr-FR".to_string()));
    proc.store_locales(vec![("fr-FR".to_string(), "<locale/>".to_string())]);
    assert!(proc.has_cached_locale(&"fr-FR".to_string()));

    let mut with_lang = reference_with_title("a", "Alpha");
    with_lang.language = Some("de-DE".into());
    proc.set_references(vec![with_lang]);
    let langs = proc.get_langs_in_use();
    assert!(langs.contains(&"de-DE".to_string()));
    assert!(langs.contains(&"en-US".to_string()));
    assert_eq!(langs.len(), 2);
}

#[test]
fn supported_format_from_str() {
    assert_eq!(SupportedFormat::from_str("html"), Ok(SupportedFormat::Html));
    assert_eq!(SupportedFormat::from_str("rtf"), Ok(SupportedFormat::Rtf));
    assert_eq!(SupportedFormat::from_str("latex"), Err(()));
    assert_eq!(SupportedFormat::from_str(""), Err(()));
}

#[test]
fn positions_ibid_and_notes() {
    // two identical cites in immediate succession: the second is Ibid;
    // a different locator makes it IbidWithLocator; a distant note
    // makes a repeat FarNote
    let mut style = style_title_only();
    style.near_note_distance = 2;
    let mut proc = Processor::new(style, false, SupportedFormat::Html);
    proc.set_references(vec![reference_with_title("a", "Alpha")]);

    let with_locator = Cite {
        ref_id: "a".into(),
        locator: Some(Locator {
            loc_type: LocatorType::Page,
            value: 12,
        }),
        prefix: String::new(),
        suffix: String::new(),
        suppression: None,
    };

    proc.init_clusters(vec![
        note_cluster(1, 1, vec![basic_cite("a"), basic_cite("a"), with_locator]),
        note_cluster(2, 2, vec![basic_cite("b")]),
        note_cluster(3, 9, vec![basic_cite("a")]),
    ]);

    let positions = proc.cite_positions();
    assert_eq!(positions[0][0].0, Position::First);
    assert_eq!(positions[0][1].0, Position::Ibid);
    assert_eq!(positions[0][2].0, Position::IbidWithLocator);
    // note 9 is more than near-note-distance 2 from note 1, and the
    // immediately preceding cite is for another reference
    assert_eq!(positions[2][0].0, Position::FarNote);
    // first-reference-note-number resolves to the first citing note
    assert_eq!(positions[2][0].1, Some(1));
}

#[test]
fn positions_near_note() {
    let mut proc = Processor::new(style_title_only(), false, SupportedFormat::Html);
    proc.set_references(vec![reference_with_title("a", "Alpha")]);
    proc.init_clusters(vec![
        note_cluster(1, 1, vec![basic_cite("a")]),
        note_cluster(2, 2, vec![basic_cite("b")]),
        note_cluster(3, 3, vec![basic_cite("a")]),
    ]);
    let positions = proc.cite_positions();
    // distance 2 is within the default near-note threshold of 5
    assert_eq!(positions[2][0].0, Position::NearNote);
}

#[test]
fn colliding_references_render_year_suffixes() {
    // two references with identical rendered author-and-year, each
    // cited once: the outputs carry the suffixes "a" and "b"
    let style = Style {
        citation: vec![
            Element::Variable(Variable::Title),
            Element::YearSuffix,
        ],
        layout_delimiter: "; ".into(),
        layout_prefix: "(".into(),
        layout_suffix: ")".into(),
        layout_formatting: Formatting {
            font_style: None,
            font_weight: None,
            font_variant: None,
        },
        near_note_distance: 5,
        has_bibliography: false,
        default_locale: "en-US".into(),
    };
    let mut proc = Processor::new(style, true, SupportedFormat::TestHtml);
    proc.set_references(vec![
        reference_with_title("doe-a", "Doe 1999"),
        reference_with_title("doe-b", "Doe 1999"),
        reference_with_title("other", "Roe 2001"),
    ]);
    proc.init_clusters(vec![
        note_cluster(1, 1, vec![basic_cite("doe-a")]),
        note_cluster(2, 2, vec![basic_cite("doe-b")]),
        note_cluster(3, 3, vec![basic_cite("other")]),
    ]);
    assert_eq!(proc.get_cluster(1), "(Doe 1999a)");
    assert_eq!(proc.get_cluster(2), "(Doe 1999b)");
    // a reference that collides with nothing gets no suffix
    assert_eq!(proc.get_cluster(3), "(Roe 2001)");
}

#[test]
fn rendering_reflects_resolved_positions() {
    // a branch on position: the first citation renders the title, a
    // repeat within the near-note threshold renders the branch text
    let style = Style {
        citation: vec![citeproc::style_types::Element::Choose(
            citeproc::style_types::Condition::HasPosition(Position::Subsequent),
            vec![citeproc::style_types::Element::Value("already cited".into())],
            vec![Element::Variable(Variable::Title)],
        )],
        ..style_title_only()
    };
    let mut proc = Processor::new(style, false, SupportedFormat::TestHtml);
    proc.set_references(vec![reference_with_title("a", "Alpha")]);
    proc.init_clusters(vec![
        note_cluster(1, 1, vec![basic_cite("a")]),
        note_cluster(2, 2, vec![basic_cite("a")]),
    ]);
    assert_eq!(proc.get_cluster(1), "(Alpha)");
    assert_eq!(proc.get_cluster(2), "(already cited)");
}
