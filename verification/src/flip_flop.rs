//! Flip-flop formatting.
//!
//! Italic, bold and small-caps formatting and quotation marks toggle on
//! nested re-application: an italic phrase inside an italic sentence is
//! set upright, an inner quotation gets single quotes inside double
//! ones. The renderer carries a state capturing the formatting of the
//! surrounding text and inverts on nesting; rewriting a finished inline
//! tree under that state is a pure function.

use vstd::prelude::*;

verus! {

/// Font style of a formatted run.
#[derive(Debug, Clone, Copy, PartialEq, Eq, Structural)]
pub enum FontStyle {
    Normal,
    Italic,
    Oblique,
}

/// Font weight of a formatted run.
#[derive(Debug, Clone, Copy, PartialEq, Eq, Structural)]
pub enum FontWeight {
    Normal,
    Bold,
    Light,
}

/// Font variant of a formatted run.
#[derive(Debug, Clone, Copy, PartialEq, Eq, Structural)]
pub enum FontVariant {
    Normal,
    SmallCaps,
}

/// The formatting bundle a style node may carry.
#[derive(Debug, Clone, Copy, PartialEq, Eq, Structural)]
pub struct Formatting {
    pub font_style: Option<FontStyle>,
    pub font_weight: Option<FontWeight>,
    pub font_variant: Option<FontVariant>,
}

/// Kind of quotation marks around a quoted run.
#[derive(Debug, Clone, Copy, PartialEq, Eq, Structural)]
pub enum QuoteType {
    SingleQuote,
    DoubleQuote,
}

/// A formatting command carried by a micro-formatted node.
#[derive(Debug, Clone, Copy, PartialEq, Eq, Structural)]
pub enum FormatCmd {
    FontStyleItalic,
    FontStyleOblique,
    FontStyleNormal,
    FontWeightBold,
    FontWeightLight,
    FontWeightNormal,
    FontVariantSmallCaps,
    FontVariantNormal,
    VerticalAlignSuperscript,
    VerticalAlignSubscript,
    VerticalAlignBaseline,
}

/// A node of micro-formatted text (parsed from inline markup in field
/// values).
#[derive(Debug)]
pub enum MicroNode {
    Text(String),
    Formatted(Vec<MicroNode>, FormatCmd),
    NoCase(Vec<MicroNode>),
}

/// An inline element of rendered output.
#[derive(Debug)]
pub enum InlineElement {
    Text(String),
    Micro(Vec<MicroNode>),
    Formatted(Vec<InlineElement>, Formatting),
    Quoted(QuoteType, Vec<InlineElement>),
    Anchor { title: String, url: String, content: Vec<InlineElement> },
}

/// Ghost image of a `MicroNode`.
pub enum SpecMicroNode {
    Text(Seq<char>),
    Formatted(Seq<SpecMicroNode>, FormatCmd),
    NoCase(Seq<SpecMicroNode>),
}

/// Ghost image of an `InlineElement`.
pub enum SpecInline {
    Text(Seq<char>),
    Micro(Seq<SpecMicroNode>),
    Formatted(Seq<SpecInline>, Formatting),
    Quoted(QuoteType, Seq<SpecInline>),
    Anchor { title: Seq<char>, url: Seq<char>, content: Seq<SpecInline> },
}

/// View of one micro node.
pub open spec fn micro_view(n: MicroNode) -> SpecMicroNode
    decreases n,
{
    match n {
        MicroNode::Text(s) => SpecMicroNode::Text(s@),
        MicroNode::Formatted(nodes, cmd) => SpecMicroNode::Formatted(micros_view(nodes@), cmd),
        MicroNode::NoCase(nodes) => SpecMicroNode::NoCase(micros_view(nodes@)),
    }
}

/// View of a list of micro nodes.
pub open spec fn micros_view(s: Seq<MicroNode>) -> Seq<SpecMicroNode>
    decreases s,
{
    if s.len() == 0 {
        Seq::empty()
    } else {
        seq![micro_view(s[0])] + micros_view(s.drop_first())
    }
}

/// View of one inline element.
pub open spec fn inline_view(i: InlineElement) -> SpecInline
    decreases i,
{
    match i {
        InlineElement::Text(s) => SpecInline::Text(s@),
        InlineElement::Micro(nodes) => SpecInline::Micro(micros_view(nodes@)),
        InlineElement::Formatted(ils, f) => SpecInline::Formatted(inlines_view(ils@), f),
        InlineElement::Quoted(q, ils) => SpecInline::Quoted(q, inlines_view(ils@)),
        InlineElement::Anchor { title, url, content } => SpecInline::Anchor {
            title: title@,
            url: url@,
            content: inlines_view(content@),
        },
    }
}

/// View of a list of inline elements.
pub open spec fn inlines_view(s: Seq<InlineElement>) -> Seq<SpecInline>
    decreases s,
{
    if s.len() == 0 {
        Seq::empty()
    } else {
        seq![inline_view(s[0])] + inlines_view(s.drop_first())
    }
}

impl View for MicroNode {
    type V = SpecMicroNode;

    open spec fn view(&self) -> SpecMicroNode {
        micro_view(*self)
    }
}

impl View for InlineElement {
    type V = SpecInline;

    open spec fn view(&self) -> SpecInline {
        inline_view(*self)
    }
}

/// The view of a list indexes pointwise.
pub proof fn lemma_inlines_view_index(s: Seq<InlineElement>)
    ensures
        inlines_view(s).len() == s.len(),
        forall|i: int| 0 <= i < s.len() ==> inlines_view(s)[i] == inline_view(s[i]),
    decreases s,
{
    if s.len() > 0 {
        lemma_inlines_view_index(s.drop_first());
        assert forall|i: int| 0 <= i < s.len() implies inlines_view(s)[i] == inline_view(
            s[i],
        ) by {
            if i > 0 {
                assert(s.drop_first()[i - 1] == s[i]);
            }
        }
    }
}

/// The view of a micro list indexes pointwise.
pub proof fn lemma_micros_view_index(s: Seq<MicroNode>)
    ensures
        micros_view(s).len() == s.len(),
        forall|i: int| 0 <= i < s.len() ==> micros_view(s)[i] == micro_view(s[i]),
    decreases s,
{
    if s.len() > 0 {
        lemma_micros_view_index(s.drop_first());
        assert forall|i: int| 0 <= i < s.len() implies micros_view(s)[i] == micro_view(s[i]) by {
            if i > 0 {
                assert(s.drop_first()[i - 1] == s[i]);
            }
        }
    }
}

/// The formatting state of the text surrounding a subtree.
#[derive(Debug, Clone, Copy, PartialEq, Eq, Structural)]
pub struct FlipFlopState {
    pub in_emph: bool,
    pub emph: FontStyle,
    pub in_strong: bool,
    pub in_small_caps: bool,
    pub in_outer_quotes: bool,
}

impl Default for FlipFlopState {
    /// Outside of any formatting: upright, regular weight, no quotes.
    fn default() -> (r: Self)
        ensures
            r == (FlipFlopState {
                in_emph: false,
                emph: FontStyle::Normal,
                in_strong: false,
                in_small_caps: false,
                in_outer_quotes: false,
            }),
    {
        FlipFlopState {
            in_emph: false,
            emph: FontStyle::Normal,
            in_strong: false,
            in_small_caps: false,
            in_outer_quotes: false,
        }
    }
}

// ---------------------------------------------------------------------
// The rewrite itself, first as a specification
// ---------------------------------------------------------------------

/// State and formatting after entering a `Formatted` wrapper: the
/// wrapper's own commands that repeat the surrounding state are dropped,
/// and the state records what is now in force.
pub open spec fn spec_enter_formatted(st: FlipFlopState, f: Formatting) -> (
    FlipFlopState,
    Formatting,
) {
    let (st1, f1) = match f.font_style {
        Option::Some(fs) => (
            FlipFlopState {
                in_emph: fs == FontStyle::Italic || fs == FontStyle::Oblique,
                emph: fs,
                ..st
            },
            if fs == st.emph {
                Formatting { font_style: Option::None, ..f }
            } else {
                f
            },
        ),
        Option::None => (st, f),
    };
    let (st2, f2) = match f.font_weight {
        Option::Some(fw) => (
            FlipFlopState { in_strong: fw == FontWeight::Bold, ..st1 },
            if st1.in_strong == (fw == FontWeight::Bold) && fw == FontWeight::Bold {
                Formatting { font_weight: Option::None, ..f1 }
            } else {
                f1
            },
        ),
        Option::None => (st1, f1),
    };
    match f.font_variant {
        Option::Some(fv) => (
            FlipFlopState { in_small_caps: fv == FontVariant::SmallCaps, ..st2 },
            if st2.in_small_caps == (fv == FontVariant::SmallCaps) {
                Formatting { font_variant: Option::None, ..f2 }
            } else {
                f2
            },
        ),
        Option::None => (st2, f2),
    }
}

/// Rewrite of one inline element under a state; `None` leaves the
/// element as it is.
pub open spec fn spec_flip_flop(i: SpecInline, st: FlipFlopState) -> Option<SpecInline>
    decreases i,
{
    match i {
        SpecInline::Micro(nodes) => Option::Some(
            SpecInline::Micro(spec_flip_flop_nodes(nodes, st)),
        ),
        SpecInline::Formatted(ils, f) => {
            let r = spec_enter_formatted(st, f);
            Option::Some(SpecInline::Formatted(spec_flip_flop_inlines(ils, r.0), r.1))
        },
        SpecInline::Quoted(_q, ils) => {
            let flop = FlipFlopState { in_outer_quotes: !st.in_outer_quotes, ..st };
            let subs = spec_flip_flop_inlines(ils, flop);
            if !st.in_outer_quotes {
                Option::Some(SpecInline::Quoted(QuoteType::SingleQuote, subs))
            } else {
                Option::Some(SpecInline::Quoted(QuoteType::DoubleQuote, subs))
            }
        },
        SpecInline::Anchor { title, url, content } => Option::Some(
            SpecInline::Anchor { title, url, content: spec_flip_flop_inlines(content, st) },
        ),
        SpecInline::Text(_) => Option::None,
    }
}

/// Rewrite of a list of inline elements; elements the rewrite declines
/// stay unchanged.
pub open spec fn spec_flip_flop_inlines(s: Seq<SpecInline>, st: FlipFlopState) -> Seq<SpecInline>
    decreases s,
{
    if s.len() == 0 {
        Seq::empty()
    } else {
        let head = match spec_flip_flop(s[0], st) {
            Option::Some(x) => x,
            Option::None => s[0],
        };
        seq![head] + spec_flip_flop_inlines(s.drop_first(), st)
    }
}

/// Rewrite of one micro node under a state.
pub open spec fn spec_flip_flop_node(n: SpecMicroNode, st: FlipFlopState) -> Option<SpecMicroNode>
    decreases n,
{
    match n {
        SpecMicroNode::Formatted(nodes, cmd) => match cmd {
            FormatCmd::FontStyleItalic => {
                let flop = FlipFlopState { in_emph: !st.in_emph, ..st };
                let subs = spec_flip_flop_nodes(nodes, flop);
                if st.in_emph {
                    Option::Some(SpecMicroNode::Formatted(subs, FormatCmd::FontStyleNormal))
                } else {
                    Option::Some(SpecMicroNode::Formatted(subs, cmd))
                }
            },
            FormatCmd::FontWeightBold => {
                let flop = FlipFlopState { in_strong: !st.in_strong, ..st };
                let subs = spec_flip_flop_nodes(nodes, flop);
                if st.in_strong {
                    Option::Some(SpecMicroNode::Formatted(subs, FormatCmd::FontWeightNormal))
                } else {
                    Option::Some(SpecMicroNode::Formatted(subs, cmd))
                }
            },
            FormatCmd::FontVariantSmallCaps => {
                let flop = FlipFlopState { in_small_caps: !st.in_small_caps, ..st };
                let subs = spec_flip_flop_nodes(nodes, flop);
                if st.in_small_caps {
                    Option::Some(SpecMicroNode::Formatted(subs, FormatCmd::FontVariantNormal))
                } else {
                    Option::Some(SpecMicroNode::Formatted(subs, cmd))
                }
            },
            _ => Option::Some(SpecMicroNode::Formatted(spec_flip_flop_nodes(nodes, st), cmd)),
        },
        SpecMicroNode::Text(_) => Option::None,
        SpecMicroNode::NoCase(nodes) => Option::Some(
            SpecMicroNode::NoCase(spec_flip_flop_nodes(nodes, st)),
        ),
    }
}

/// Rewrite of a list of micro nodes; nodes the rewrite declines stay
/// unchanged.
pub open spec fn spec_flip_flop_nodes(s: Seq<SpecMicroNode>, st: FlipFlopState) -> Seq<
    SpecMicroNode,
>
    decreases s,
{
    if s.len() == 0 {
        Seq::empty()
    } else {
        let head = match spec_flip_flop_node(s[0], st) {
            Option::Some(x) => x,
            Option::None => s[0],
        };
        seq![head] + spec_flip_flop_nodes(s.drop_first(), st)
    }
}

// ---------------------------------------------------------------------
// Executable rewrite
// ---------------------------------------------------------------------

impl FlipFlopState {
    /// Start state under a formatting bundle already in force.
    pub fn from_formatting(f: Formatting) -> (r: Self)
        ensures
            r == spec_from_formatting(f),
    {
        FlipFlopState {
            emph: match f.font_style {
                Option::Some(fs) => fs,
                Option::None => FontStyle::Normal,
            },
            in_emph: matches!(
                f.font_style,
                Option::Some(FontStyle::Italic) | Option::Some(FontStyle::Oblique)
            ),
            in_strong: matches!(f.font_weight, Option::Some(FontWeight::Bold)),
            in_small_caps: matches!(f.font_variant, Option::Some(FontVariant::SmallCaps)),
            in_outer_quotes: false,
        }
    }

    /// Rewrite a list of inline elements under this state.
    pub fn flip_flop_inlines(&self, inlines: &Vec<InlineElement>) -> (r: Vec<InlineElement>)
        ensures
            inlines_view(r@) == spec_flip_flop_inlines(inlines_view(inlines@), *self),
        decreases inlines@,
    {
        let mut out: Vec<InlineElement> = Vec::new();
        let mut i: usize = 0;
        proof {
            lemma_inlines_view_index(inlines@);
        }
        while i < inlines.len()
            invariant
                i <= inlines@.len(),
                inlines_view(out@) == spec_flip_flop_inlines_prefix(
                    inlines_view(inlines@),
                    *self,
                    i as int,
                ),
                out@.len() == i,
            decreases inlines@.len() - i,
        {
            proof {
                lemma_inlines_view_index(inlines@);
            }
            assert(decreases_to!(inlines@ => inlines@[i as int]));
            let element = match flip_flop(&inlines[i], self) {
                Option::Some(x) => x,
                Option::None => clone_inline(&inlines[i]),
            };
            let ghost prev = out@;
            out.push(element);
            i = i + 1;
            proof {
                assert(out@.drop_last() =~= prev);
                lemma_inlines_view_push(prev, out@.last());
                lemma_prefix_step(inlines_view(inlines@), *self, i as int);
            }
        }
        proof {
            lemma_inlines_view_index(inlines@);
            lemma_prefix_full(inlines_view(inlines@), *self);
        }
        out
    }
}

/// What `from_formatting` builds.
pub open spec fn spec_from_formatting(f: Formatting) -> FlipFlopState {
    FlipFlopState {
        emph: match f.font_style {
            Option::Some(fs) => fs,
            Option::None => FontStyle::Normal,
        },
        in_emph: f.font_style == Option::Some(FontStyle::Italic) || f.font_style == Option::Some(
            FontStyle::Oblique,
        ),
        in_strong: f.font_weight == Option::Some(FontWeight::Bold),
        in_small_caps: f.font_variant == Option::Some(FontVariant::SmallCaps),
        in_outer_quotes: false,
    }
}

/// The first `k` elements of the rewrite of a list.
pub open spec fn spec_flip_flop_inlines_prefix(
    s: Seq<SpecInline>,
    st: FlipFlopState,
    k: int,
) -> Seq<SpecInline> {
    spec_flip_flop_inlines(s, st).take(k)
}

proof fn lemma_prefix_step(s: Seq<SpecInline>, st: FlipFlopState, k: int)
    requires
        1 <= k <= s.len(),
    ensures
        spec_flip_flop_inlines_prefix(s, st, k) == spec_flip_flop_inlines_prefix(s, st, k - 1).push(
            match spec_flip_flop(s[k - 1], st) {
                Option::Some(x) => x,
                Option::None => s[k - 1],
            },
        ),
{
    lemma_flip_flop_inlines_index(s, st);
    assert(spec_flip_flop_inlines(s, st).take(k) =~= spec_flip_flop_inlines(s, st).take(
        k - 1,
    ).push(spec_flip_flop_inlines(s, st)[k - 1]));
}

proof fn lemma_prefix_full(s: Seq<SpecInline>, st: FlipFlopState)
    ensures
        spec_flip_flop_inlines_prefix(s, st, s.len() as int) == spec_flip_flop_inlines(s, st),
{
    lemma_flip_flop_inlines_index(s, st);
    assert(spec_flip_flop_inlines(s, st).take(s.len() as int) =~= spec_flip_flop_inlines(s, st));
}

/// The rewrite of a list indexes pointwise.
pub proof fn lemma_flip_flop_inlines_index(s: Seq<SpecInline>, st: FlipFlopState)
    ensures
        spec_flip_flop_inlines(s, st).len() == s.len(),
        forall|i: int| 0 <= i < s.len() ==> spec_flip_flop_inlines(s, st)[i] == (
        match spec_flip_flop(s[i], st) {
            Option::Some(x) => x,
            Option::None => s[i],
        }),
    decreases s,
{
    if s.len() > 0 {
        lemma_flip_flop_inlines_index(s.drop_first(), st);
        assert forall|i: int| 0 <= i < s.len() implies spec_flip_flop_inlines(s, st)[i] == (
        match spec_flip_flop(s[i], st) {
            Option::Some(x) => x,
            Option::None => s[i],
        }) by {
            if i > 0 {
                assert(s.drop_first()[i - 1] == s[i]);
            }
        }
    }
}

/// The rewrite of a micro list indexes pointwise.
pub proof fn lemma_flip_flop_nodes_index(s: Seq<SpecMicroNode>, st: FlipFlopState)
    ensures
        spec_flip_flop_nodes(s, st).len() == s.len(),
        forall|i: int| 0 <= i < s.len() ==> spec_flip_flop_nodes(s, st)[i] == (
        match spec_flip_flop_node(s[i], st) {
            Option::Some(x) => x,
            Option::None => s[i],
        }),
    decreases s,
{
    if s.len() > 0 {
        lemma_flip_flop_nodes_index(s.drop_first(), st);
        assert forall|i: int| 0 <= i < s.len() implies spec_flip_flop_nodes(s, st)[i] == (
        match spec_flip_flop_node(s[i], st) {
            Option::Some(x) => x,
            Option::None => s[i],
        }) by {
            if i > 0 {
                assert(s.drop_first()[i - 1] == s[i]);
            }
        }
    }
}

/// A verified deep copy of a micro node (the rewrite needs copies of the
/// nodes it leaves unchanged).
fn clone_micro(n: &MicroNode) -> (r: MicroNode)
    ensures
        r@ == n@,
    decreases *n,
{
    match n {
        MicroNode::Text(s) => MicroNode::Text(clone_string(s)),
        MicroNode::Formatted(nodes, cmd) => MicroNode::Formatted(clone_micros(nodes), *cmd),
        MicroNode::NoCase(nodes) => MicroNode::NoCase(clone_micros(nodes)),
    }
}

fn clone_micros(nodes: &Vec<MicroNode>) -> (r: Vec<MicroNode>)
    ensures
        micros_view(r@) == micros_view(nodes@),
        r@.len() == nodes@.len(),
    decreases nodes@,
{
    let mut out: Vec<MicroNode> = Vec::new();
    let mut i: usize = 0;
    proof {
        lemma_micros_view_index(nodes@);
    }
    while i < nodes.len()
        invariant
            i <= nodes@.len(),
            out@.len() == i,
            micros_view(out@) == micros_view(nodes@).take(i as int),
        decreases nodes@.len() - i,
    {
        assert(decreases_to!(nodes@ => nodes@[i as int]));
        let ghost prev = out@;
        let c = clone_micro(&nodes[i]);
        out.push(c);
        i = i + 1;
        proof {
            assert(out@.drop_last() =~= prev);
            lemma_micros_view_push(prev, out@.last());
            lemma_micros_view_index(nodes@);
            assert(micros_view(nodes@).take(i as int) =~= micros_view(nodes@).take(i - 1).push(
                micros_view(nodes@)[i - 1],
            ));
        }
    }
    proof {
        lemma_micros_view_index(nodes@);
        assert(micros_view(nodes@).take(i as int) =~= micros_view(nodes@));
    }
    out
}

fn clone_inline(i: &InlineElement) -> (r: InlineElement)
    ensures
        r@ == i@,
    decreases *i,
{
    match i {
        InlineElement::Text(s) => InlineElement::Text(clone_string(s)),
        InlineElement::Micro(nodes) => InlineElement::Micro(clone_micros(nodes)),
        InlineElement::Formatted(ils, f) => InlineElement::Formatted(clone_inlines(ils), *f),
        InlineElement::Quoted(q, ils) => InlineElement::Quoted(*q, clone_inlines(ils)),
        InlineElement::Anchor { title, url, content } => InlineElement::Anchor {
            title: clone_string(title),
            url: clone_string(url),
            content: clone_inlines(content),
        },
    }
}

fn clone_inlines(ils: &Vec<InlineElement>) -> (r: Vec<InlineElement>)
    ensures
        inlines_view(r@) == inlines_view(ils@),
        r@.len() == ils@.len(),
    decreases ils@,
{
    let mut out: Vec<InlineElement> = Vec::new();
    let mut i: usize = 0;
    proof {
        lemma_inlines_view_index(ils@);
    }
    while i < ils.len()
        invariant
            i <= ils@.len(),
            out@.len() == i,
            inlines_view(out@) == inlines_view(ils@).take(i as int),
        decreases ils@.len() - i,
    {
        assert(decreases_to!(ils@ => ils@[i as int]));
        let ghost prev = out@;
        let c = clone_inline(&ils[i]);
        out.push(c);
        i = i + 1;
        proof {
            assert(out@.drop_last() =~= prev);
            lemma_inlines_view_push(prev, out@.last());
            lemma_inlines_view_index(ils@);
            assert(inlines_view(ils@).take(i as int) =~= inlines_view(ils@).take(i - 1).push(
                inlines_view(ils@)[i - 1],
            ));
        }
    }
    proof {
        lemma_inlines_view_index(ils@);
        assert(inlines_view(ils@).take(i as int) =~= inlines_view(ils@));
    }
    out
}

fn clone_string(s: &String) -> (r: String)
    ensures
        r@ == s@,
{
    s.clone()
}

/// Appending one element appends its view.
proof fn lemma_inlines_view_push(s: Seq<InlineElement>, x: InlineElement)
    ensures
        inlines_view(s.push(x)) == inlines_view(s).push(inline_view(x)),
{
    lemma_inlines_view_index(s.push(x));
    lemma_inlines_view_index(s);
    assert(inlines_view(s.push(x)) =~= inlines_view(s).push(inline_view(x)));
}

/// Appending one node appends its view.
proof fn lemma_micros_view_push(s: Seq<MicroNode>, x: MicroNode)
    ensures
        micros_view(s.push(x)) == micros_view(s).push(micro_view(x)),
{
    lemma_micros_view_index(s.push(x));
    lemma_micros_view_index(s);
    assert(micros_view(s.push(x)) =~= micros_view(s).push(micro_view(x)));
}

/// Rewrite one inline element, or decline (plain text is left alone).
fn flip_flop(inline: &InlineElement, state: &FlipFlopState) -> (r: Option<InlineElement>)
    ensures
        match r {
            Option::Some(out) => spec_flip_flop(inline@, *state) == Option::Some(out@),
            Option::None => spec_flip_flop(inline@, *state) is None,
        },
    decreases *inline,
{
    match inline {
        InlineElement::Micro(nodes) => {
            let subs = flip_flop_nodes(nodes, state);
            Option::Some(InlineElement::Micro(subs))
        },
        InlineElement::Formatted(ils, f) => {
            let mut flop = *state;
            let mut new_f = *f;
            if let Option::Some(fs) = f.font_style {
                let samey = fs == state.emph;
                if samey {
                    new_f.font_style = Option::None;
                }
                flop.in_emph = matches!(fs, FontStyle::Italic | FontStyle::Oblique);
                flop.emph = fs;
            }
            if let Option::Some(fw) = f.font_weight {
                let want = matches!(fw, FontWeight::Bold);
                if flop.in_strong == want && want {
                    new_f.font_weight = Option::None;
                }
                flop.in_strong = want;
            }
            if let Option::Some(fv) = f.font_variant {
                let want_small_caps = matches!(fv, FontVariant::SmallCaps);
                if flop.in_small_caps == want_small_caps {
                    new_f.font_variant = Option::None;
                }
                flop.in_small_caps = want_small_caps;
            }
            proof {
                assert((flop, new_f) == spec_enter_formatted(*state, *f));
            }
            let subs = flop.flip_flop_inlines(ils);
            Option::Some(InlineElement::Formatted(subs, new_f))
        },
        InlineElement::Quoted(_q, ils) => {
            let mut flop = *state;
            flop.in_outer_quotes = !flop.in_outer_quotes;
            let subs = flop.flip_flop_inlines(ils);
            if !state.in_outer_quotes {
                Option::Some(InlineElement::Quoted(QuoteType::SingleQuote, subs))
            } else {
                Option::Some(InlineElement::Quoted(QuoteType::DoubleQuote, subs))
            }
        },
        InlineElement::Anchor { title, url, content } => {
            let subs = state.flip_flop_inlines(content);
            Option::Some(
                InlineElement::Anchor {
                    title: clone_string(title),
                    url: clone_string(url),
                    content: subs,
                },
            )
        },
        InlineElement::Text(_) => Option::None,
    }
}

/// Rewrite a list of micro nodes under a state.
fn flip_flop_nodes(nodes: &Vec<MicroNode>, state: &FlipFlopState) -> (r: Vec<MicroNode>)
    ensures
        micros_view(r@) == spec_flip_flop_nodes(micros_view(nodes@), *state),
    decreases nodes@,
{
    let mut out: Vec<MicroNode> = Vec::new();
    let mut i: usize = 0;
    proof {
        lemma_micros_view_index(nodes@);
        lemma_flip_flop_nodes_index(micros_view(nodes@), *state);
    }
    while i < nodes.len()
        invariant
            i <= nodes@.len(),
            out@.len() == i,
            micros_view(out@) == spec_flip_flop_nodes(micros_view(nodes@), *state).take(i as int),
        decreases nodes@.len() - i,
    {
        proof {
            lemma_micros_view_index(nodes@);
            lemma_flip_flop_nodes_index(micros_view(nodes@), *state);
        }
        assert(decreases_to!(nodes@ => nodes@[i as int]));
        let element = match flip_flop_node(&nodes[i], state) {
            Option::Some(x) => x,
            Option::None => clone_micro(&nodes[i]),
        };
        let ghost prev = out@;
        out.push(element);
        i = i + 1;
        proof {
            assert(out@.drop_last() =~= prev);
            lemma_micros_view_push(prev, out@.last());
            let sv = micros_view(nodes@);
            let full = spec_flip_flop_nodes(sv, *state);
            assert(full.take(i as int) =~= full.take(i - 1).push(full[i - 1]));
        }
    }
    proof {
        lemma_micros_view_index(nodes@);
        lemma_flip_flop_nodes_index(micros_view(nodes@), *state);
        assert(spec_flip_flop_nodes(micros_view(nodes@), *state).take(i as int)
            =~= spec_flip_flop_nodes(micros_view(nodes@), *state));
    }
    out
}

/// Rewrite one micro node, or decline (plain text is left alone).
fn flip_flop_node(node: &MicroNode, state: &FlipFlopState) -> (r: Option<MicroNode>)
    ensures
        match r {
            Option::Some(out) => spec_flip_flop_node(node@, *state) == Option::Some(out@),
            Option::None => spec_flip_flop_node(node@, *state) is None,
        },
    decreases *node,
{
    match node {
        MicroNode::Formatted(nodes, cmd) => {
            match cmd {
                FormatCmd::FontStyleItalic => {
                    let mut flop = *state;
                    flop.in_emph = !flop.in_emph;
                    let subs = flip_flop_nodes(nodes, &flop);
                    if state.in_emph {
                        Option::Some(MicroNode::Formatted(subs, FormatCmd::FontStyleNormal))
                    } else {
                        Option::Some(MicroNode::Formatted(subs, *cmd))
                    }
                },
                FormatCmd::FontWeightBold => {
                    let mut flop = *state;
                    flop.in_strong = !flop.in_strong;
                    let subs = flip_flop_nodes(nodes, &flop);
                    if state.in_strong {
                        Option::Some(MicroNode::Formatted(subs, FormatCmd::FontWeightNormal))
                    } else {
                        Option::Some(MicroNode::Formatted(subs, *cmd))
                    }
                },
                FormatCmd::FontVariantSmallCaps => {
                    let mut flop = *state;
                    flop.in_small_caps = !flop.in_small_caps;
                    let subs = flip_flop_nodes(nodes, &flop);
                    if state.in_small_caps {
                        Option::Some(MicroNode::Formatted(subs, FormatCmd::FontVariantNormal))
                    } else {
                        Option::Some(MicroNode::Formatted(subs, *cmd))
                    }
                },
                _ => {
                    let subs = flip_flop_nodes(nodes, state);
                    Option::Some(MicroNode::Formatted(subs, *cmd))
                },
            }
        },
        MicroNode::Text(_) => Option::None,
        MicroNode::NoCase(nodes) => {
            let subs = flip_flop_nodes(nodes, state);
            Option::Some(MicroNode::NoCase(subs))
        },
    }
}

} // verus!
