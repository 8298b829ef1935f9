use citeproc::flip_flop::Formatting;
use citeproc::processor::{Processor, SupportedFormat};
use citeproc::reference::Reference;
use citeproc::style_types::{Condition, CslType, Element, LocatorType, Style};
use citeproc::variables::{AnyVariable, NumberVariable};
use citeproc::variables::Variable;

fn style_with_tagged_url() -> Style {
    // <group><text value="tag"/><text variable="URL"/></group>
    Style {
        citation: vec![Element::Group(vec![
            Element::Value("tag".into()),
            Element::Variable(Variable::URL),
        ])],
        layout_delimiter: "; ".into(),
        layout_prefix: String::new(),
        layout_suffix: String::new(),
        layout_formatting: Formatting {
            font_style: None,
            font_weight: None,
            font_variant: None,
        },
        near_note_distance: 5,
        has_bibliography: false,
        default_locale: "en-US".into(),
    }
}

fn reference_with(id: &str, vars: Vec<(Variable, &str)>) -> Reference {
    Reference {
        id: id.into(),
        csl_type: CslType::Webpage,
        language: None,
        ordinary: vars.into_iter().map(|(v, s)| (v, s.to_string())).collect(),
        number: vec![],
        name: vec![],
        date: vec![],
    }
}

fn cluster_of(id: u32, ref_id: &str) -> citeproc::cite::Cluster {
    citeproc::cite::Cluster {
        id,
        number: citeproc::cite::ClusterNumber::InText(1),
        cites: vec![citeproc::cite::Cite {
            ref_id: ref_id.into(),
            locator: None,
            prefix: String::new(),
            suffix: String::new(),
            suppression: None,
        }],
    }
}

#[test]
fn group_renders_iff_variable_present() {
    let mut proc = Processor::new(style_with_tagged_url(), false, SupportedFormat::TestHtml);
    proc.set_references(vec![
        reference_with("with-url", vec![(Variable::URL, "http://example.com")]),
        reference_with("without-url", vec![(Variable::Title, "A Title")]),
    ]);
    proc.init_clusters(vec![cluster_of(1, "with-url"), cluster_of(2, "without-url")]);

    // with the URL present the group renders, tag included
    assert_eq!(proc.get_cluster(1), "taghttp://example.com");
    // without it the whole group is suppressed: no tag appears
    assert_eq!(proc.get_cluster(2), "");
}

#[test]
fn empty_variable_counts_as_missing() {
    let mut proc = Processor::new(style_with_tagged_url(), false, SupportedFormat::TestHtml);
    proc.set_references(vec![reference_with("empty-url", vec![(Variable::URL, "")])]);
    proc.init_clusters(vec![cluster_of(1, "empty-url")]);
    assert_eq!(proc.get_cluster(1), "");
}

#[test]
fn group_of_plain_text_renders() {
    let style = Style {
        citation: vec![Element::Group(vec![
            Element::Value("only".into()),
            Element::Value(" text".into()),
        ])],
        ..style_with_tagged_url()
    };
    let mut proc = Processor::new(style, false, SupportedFormat::TestHtml);
    proc.set_references(vec![reference_with("r", vec![])]);
    proc.init_clusters(vec![cluster_of(1, "r")]);
    assert_eq!(proc.get_cluster(1), "only text");
}

#[test]
fn choose_resolves_branches() {
    // a branch on locator presence: cites with a locator render the
    // then-side, cites without it the else-side
    let style = Style {
        citation: vec![Element::Choose(
            Condition::HasVariable(AnyVariable::Number(NumberVariable::Locator)),
            vec![Element::Value("pinpointed".into())],
            vec![Element::Value("whole work".into())],
        )],
        ..style_with_tagged_url()
    };
    let mut proc = Processor::new(style, false, SupportedFormat::TestHtml);
    proc.set_references(vec![reference_with("r", vec![])]);
    let mut with_loc = cluster_of(1, "r");
    with_loc.cites[0].locator = Some(citeproc::cite::Locator {
        loc_type: LocatorType::Page,
        value: 3,
    });
    proc.init_clusters(vec![with_loc, cluster_of(2, "r")]);
    assert_eq!(proc.get_cluster(1), "pinpointed");
    assert_eq!(proc.get_cluster(2), "whole work");
}

#[test]
fn choose_on_reference_type() {
    let style = Style {
        citation: vec![Element::Choose(
            Condition::IsType(CslType::Webpage),
            vec![Element::Variable(Variable::URL)],
            vec![Element::Variable(Variable::Title)],
        )],
        ..style_with_tagged_url()
    };
    let mut proc = Processor::new(style, false, SupportedFormat::TestHtml);
    proc.set_references(vec![reference_with(
        "r",
        vec![(Variable::URL, "http://x"), (Variable::Title, "T")],
    )]);
    proc.init_clusters(vec![cluster_of(1, "r")]);
    // the reference is a webpage, so the URL side is chosen
    assert_eq!(proc.get_cluster(1), "http://x");
}
