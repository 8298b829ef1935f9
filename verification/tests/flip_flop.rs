use citeproc::flip_flop::{
    FlipFlopState, FontStyle, FontVariant, FontWeight, FormatCmd, Formatting, InlineElement,
    MicroNode, QuoteType,
};

fn italic() -> Formatting {
    Formatting {
        font_style: Some(FontStyle::Italic),
        font_weight: None,
        font_variant: None,
    }
}

#[test]
fn from_formatting_records_surroundings() {
    let st = FlipFlopState::from_formatting(italic());
    assert!(st.in_emph);
    assert_eq!(st.emph, FontStyle::Italic);
    assert!(!st.in_strong);
    assert!(!st.in_small_caps);
    assert!(!st.in_outer_quotes);

    let st = FlipFlopState::from_formatting(Formatting {
        font_style: None,
        font_weight: Some(FontWeight::Bold),
        font_variant: Some(FontVariant::SmallCaps),
    });
    assert!(!st.in_emph);
    assert!(st.in_strong);
    assert!(st.in_small_caps);
}

#[test]
fn italic_inside_italic_flips_to_normal() {
    // micro-markup italics inside an italic surrounding become upright
    let st = FlipFlopState::from_formatting(italic());
    let input = vec![InlineElement::Micro(vec![MicroNode::Formatted(
        vec![MicroNode::Text("inner".into())],
        FormatCmd::FontStyleItalic,
    )])];
    let out = st.flip_flop_inlines(&input);
    match &out[0] {
        InlineElement::Micro(nodes) => match &nodes[0] {
            MicroNode::Formatted(_, cmd) => assert_eq!(*cmd, FormatCmd::FontStyleNormal),
            other => panic!("unexpected micro node {:?}", other),
        },
        other => panic!("unexpected inline {:?}", other),
    }

    // outside of italics the command stays as it was
    let st = FlipFlopState::default();
    let out = st.flip_flop_inlines(&input);
    match &out[0] {
        InlineElement::Micro(nodes) => match &nodes[0] {
            MicroNode::Formatted(_, cmd) => assert_eq!(*cmd, FormatCmd::FontStyleItalic),
            other => panic!("unexpected micro node {:?}", other),
        },
        other => panic!("unexpected inline {:?}", other),
    }
}

#[test]
fn repeated_formatting_wrapper_is_dropped() {
    // a Formatted(italic) inside an italic surrounding loses its own
    // font-style command
    let st = FlipFlopState::from_formatting(italic());
    let input = vec![InlineElement::Formatted(
        vec![InlineElement::Text("x".into())],
        italic(),
    )];
    let out = st.flip_flop_inlines(&input);
    match &out[0] {
        InlineElement::Formatted(_, f) => assert_eq!(f.font_style, None),
        other => panic!("unexpected inline {:?}", other),
    }
}

#[test]
fn quotes_alternate_with_nesting() {
    let st = FlipFlopState::default();
    let input = vec![InlineElement::Quoted(
        QuoteType::DoubleQuote,
        vec![InlineElement::Quoted(
            QuoteType::DoubleQuote,
            vec![InlineElement::Text("q".into())],
        )],
    )];
    let out = st.flip_flop_inlines(&input);
    match &out[0] {
        InlineElement::Quoted(outer, inner) => {
            assert_eq!(*outer, QuoteType::SingleQuote);
            match &inner[0] {
                InlineElement::Quoted(inner_q, _) => {
                    assert_eq!(*inner_q, QuoteType::DoubleQuote)
                }
                other => panic!("unexpected inline {:?}", other),
            }
        }
        other => panic!("unexpected inline {:?}", other),
    }
}

#[test]
fn plain_text_is_left_alone() {
    let st = FlipFlopState::default();
    let input = vec![InlineElement::Text("plain".into())];
    let out = st.flip_flop_inlines(&input);
    match &out[0] {
        InlineElement::Text(s) => assert_eq!(s, "plain"),
        other => panic!("unexpected inline {:?}", other),
    }
}
