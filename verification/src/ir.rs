//! The intermediate representation and its builder.
//!
//! Evaluating a style subtree against a cite context yields a tree of
//! IR nodes; its in-order leaf flattening is the rendered output. While
//! building, each subtree carries a group-vars summary, and a
//! conditional group renders iff its summary is not `OnlyEmpty`.

use vstd::prelude::*;
use vstd::string::*;
use crate::group_vars::GroupVars;
use crate::ref_context::{RefContext, spec_has_variable};
use crate::reference::Reference;
use crate::style_types::{
    Condition, Element, LocatorType, Position, SpecElement, Style, element_view, element_wf,
    elements_view, elements_wf, lemma_elements_view_index,
};
use crate::variables::AnyVariable;

verus! {

/// A node of the intermediate representation.
#[derive(Debug)]
pub enum IrNode {
    /// A run of text.
    TextRun(String),
    /// A conditional group that passed the suppression test, with its
    /// summary.
    CondGroup(Vec<IrNode>, GroupVars),
    /// The contents of the branch a `choose` resolved to.
    Branch(Vec<IrNode>),
    /// A node that produced nothing.
    Empty,
}

/// Ghost image of an `IrNode`.
pub enum SpecIr {
    TextRun(Seq<char>),
    CondGroup(Seq<SpecIr>, GroupVars),
    Branch(Seq<SpecIr>),
    Empty,
}

/// View of one IR node.
pub open spec fn ir_view(n: IrNode) -> SpecIr
    decreases n,
{
    match n {
        IrNode::TextRun(s) => SpecIr::TextRun(s@),
        IrNode::CondGroup(children, gv) => SpecIr::CondGroup(irs_view(children@), gv),
        IrNode::Branch(children) => SpecIr::Branch(irs_view(children@)),
        IrNode::Empty => SpecIr::Empty,
    }
}

/// View of a list of IR nodes.
pub open spec fn irs_view(s: Seq<IrNode>) -> Seq<SpecIr>
    decreases s,
{
    if s.len() == 0 {
        Seq::empty()
    } else {
        seq![ir_view(s[0])] + irs_view(s.drop_first())
    }
}

impl View for IrNode {
    type V = SpecIr;

    open spec fn view(&self) -> SpecIr {
        ir_view(*self)
    }
}

/// The view of an IR list indexes pointwise.
pub proof fn lemma_irs_view_index(s: Seq<IrNode>)
    ensures
        irs_view(s).len() == s.len(),
        forall|i: int| 0 <= i < s.len() ==> irs_view(s)[i] == ir_view(s[i]),
    decreases s,
{
    if s.len() > 0 {
        lemma_irs_view_index(s.drop_first());
        assert forall|i: int| 0 <= i < s.len() implies irs_view(s)[i] == ir_view(s[i]) by {
            if i > 0 {
                assert(s.drop_first()[i - 1] == s[i]);
            }
        }
    }
}

// ---------------------------------------------------------------------
// Building, first as a specification
// ---------------------------------------------------------------------

/// The suffix index as the specification sees it.
pub open spec fn opt_index_view(o: Option<usize>) -> Option<int> {
    match o {
        Option::Some(n) => Option::Some(n as int),
        Option::None => Option::None,
    }
}

/// Whether a condition holds of the cite context: variable presence,
/// type and numeric tests consult the reference, position tests the
/// resolved position; the disambiguate condition is false outside the
/// disambiguation engine's exploration.
pub open spec fn spec_eval_condition(
    style: Style,
    reference: Reference,
    locator_type: Option<LocatorType>,
    position: Position,
    cond: Condition,
) -> bool {
    match cond {
        Condition::HasVariable(v) => spec_has_variable(
            style,
            reference,
            locator_type,
            position,
            v,
        ),
        Condition::IsType(t) => reference.csl_type == t,
        Condition::IsNumeric(v) => match v {
            AnyVariable::Number(num) => reference.number_map().contains_key(num)
                && reference.number_map()[num] is Num,
            _ => false,
        },
        Condition::HasPosition(p) => position.spec_matches(p),
        Condition::Disambiguate => false,
    }
}

/// What one element builds to, against the cite context: the IR node
/// and the group-vars summary it contributes to its parent.
pub open spec fn spec_build_element(
    e: SpecElement,
    style: Style,
    reference: Reference,
    locator_type: Option<LocatorType>,
    position: Position,
    year_suffix: Option<int>,
) -> (SpecIr, GroupVars)
    decreases e,
{
    match e {
        SpecElement::Value(s) => (SpecIr::TextRun(s), GroupVars::NoneSeen),
        SpecElement::Variable(v) => {
            let ord = reference.ordinary_map();
            if ord.contains_key(v) && ord[v]@.len() > 0 {
                (SpecIr::TextRun(ord[v]@), GroupVars::DidRender)
            } else {
                (SpecIr::Empty, GroupVars::OnlyEmpty)
            }
        },
        SpecElement::Group(children) => {
            let built = spec_build_elements(children, style, reference, locator_type, position, year_suffix);
            let summary = spec_summary(built);
            if summary != GroupVars::OnlyEmpty {
                (SpecIr::CondGroup(irs_of(built), summary), summary)
            } else {
                (SpecIr::Empty, GroupVars::OnlyEmpty)
            }
        },
        SpecElement::Choose(cond, then_branch, else_branch) => {
            let chosen = if spec_eval_condition(style, reference, locator_type, position, cond) {
                then_branch
            } else {
                else_branch
            };
            let built = spec_build_elements(chosen, style, reference, locator_type, position, year_suffix);
            (SpecIr::Branch(irs_of(built)), spec_summary(built))
        },
        SpecElement::YearSuffix => {
            match year_suffix {
                Option::Some(n) => (
                    SpecIr::TextRun(crate::year_suffix::spec_suffix_letters(n)),
                    GroupVars::DidRender,
                ),
                Option::None => (SpecIr::Empty, GroupVars::OnlyEmpty),
            }
        },
    }
}

/// What a list of elements builds to.
pub open spec fn spec_build_elements(
    s: Seq<SpecElement>,
    style: Style,
    reference: Reference,
    locator_type: Option<LocatorType>,
    position: Position,
    year_suffix: Option<int>,
) -> Seq<(SpecIr, GroupVars)>
    decreases s,
{
    if s.len() == 0 {
        Seq::empty()
    } else {
        seq![spec_build_element(s[0], style, reference, locator_type, position, year_suffix)]
            + spec_build_elements(s.drop_first(), style, reference, locator_type, position, year_suffix)
    }
}

/// The group-vars summary of a list of built elements, folded with the
/// neighbour rule from `NoneSeen`.
pub open spec fn spec_summary(built: Seq<(SpecIr, GroupVars)>) -> GroupVars {
    crate::group_vars::summary_of(built.map_values(|p: (SpecIr, GroupVars)| p.1))
}

/// The IR nodes of a list of built elements.
pub open spec fn irs_of(built: Seq<(SpecIr, GroupVars)>) -> Seq<SpecIr> {
    built.map_values(|p: (SpecIr, GroupVars)| p.0)
}

/// The in-order leaf flattening of an IR node: the rendered output.
pub open spec fn spec_flatten(n: SpecIr) -> Seq<char>
    decreases n,
{
    match n {
        SpecIr::TextRun(s) => s,
        SpecIr::CondGroup(children, gv) => if gv != GroupVars::OnlyEmpty {
            spec_flatten_list(children)
        } else {
            Seq::empty()
        },
        SpecIr::Branch(children) => spec_flatten_list(children),
        SpecIr::Empty => Seq::empty(),
    }
}

/// Flattening of a list of IR nodes.
pub open spec fn spec_flatten_list(s: Seq<SpecIr>) -> Seq<char>
    decreases s,
{
    if s.len() == 0 {
        Seq::empty()
    } else {
        spec_flatten(s[0]) + spec_flatten_list(s.drop_first())
    }
}

/// The rendering of one cite: every top-level element built and
/// flattened in order.
pub open spec fn spec_render_elements(
    s: Seq<SpecElement>,
    style: Style,
    reference: Reference,
    locator_type: Option<LocatorType>,
    position: Position,
    year_suffix: Option<int>,
) -> Seq<char> {
    spec_flatten_list(irs_of(spec_build_elements(s, style, reference, locator_type, position, year_suffix)))
}

// ---------------------------------------------------------------------
// The group-suppression law, stated against the builder
// ---------------------------------------------------------------------

/// For every group subtree, the built IR renders (is not `Empty`) iff
/// the group-vars summary of its children is not `OnlyEmpty`. In
/// particular a group of only fixed text renders, and a group
/// referencing only missing or empty variables does not.
pub proof fn lemma_group_renders_iff_not_only_empty(
    children: Seq<SpecElement>,
    style: Style,
    reference: Reference,
    locator_type: Option<LocatorType>,
    position: Position,
    year_suffix: Option<int>,
)
    ensures
        ({
            let built = spec_build_element(
                SpecElement::Group(children),
                style,
                reference,
                locator_type,
                position,
                year_suffix,
            );
            let inner = spec_build_elements(children, style, reference, locator_type, position, year_suffix);
            &&& (built.0 != SpecIr::Empty <==> spec_summary(inner) != GroupVars::OnlyEmpty)
            &&& built.1 == if spec_summary(inner) != GroupVars::OnlyEmpty {
                spec_summary(inner)
            } else {
                GroupVars::OnlyEmpty
            }
        }),
{
    let built = spec_build_elements(children, style, reference, locator_type, position, year_suffix);
    let summary = spec_summary(built);
    if summary != GroupVars::OnlyEmpty {
        assert(spec_build_element(
            SpecElement::Group(children),
            style,
            reference,
            locator_type,
            position,
            year_suffix,
        ).0 == SpecIr::CondGroup(irs_of(built), summary));
    }
}

/// A group whose elements reference no variable at all (fixed text
/// only) summarises to `NoneSeen` and renders.
pub proof fn lemma_group_of_values_renders(
    children: Seq<SpecElement>,
    style: Style,
    reference: Reference,
    locator_type: Option<LocatorType>,
    position: Position,
    year_suffix: Option<int>,
)
    requires
        forall|i: int| 0 <= i < children.len() ==> children[i] is Value,
    ensures
        spec_build_element(
            SpecElement::Group(children),
            style,
            reference,
            locator_type,
            position,
            year_suffix,
        ).0 != SpecIr::Empty,
    decreases children.len(),
{
    let built = spec_build_elements(children, style, reference, locator_type, position, year_suffix);
    lemma_build_elements_index(children, style, reference, locator_type, position, year_suffix);
    let gvs = built.map_values(|p: (SpecIr, GroupVars)| p.1);
    assert(forall|i: int| 0 <= i < gvs.len() ==> gvs[i] == GroupVars::NoneSeen);
    crate::group_vars::lemma_group_of_plain_text_renders(gvs);
    lemma_group_renders_iff_not_only_empty(children, style, reference, locator_type, position, year_suffix);
}

/// A group that references at least one variable and renders none of
/// them is suppressed.
pub proof fn lemma_group_of_empty_variables_suppressed(
    children: Seq<SpecElement>,
    style: Style,
    reference: Reference,
    locator_type: Option<LocatorType>,
    position: Position,
    year_suffix: Option<int>,
)
    requires
        exists|i: int|
            0 <= i < children.len() && (#[trigger] spec_build_element(
                children[i],
                style,
                reference,
                locator_type,
                position,
                year_suffix,
            )).1 == GroupVars::OnlyEmpty,
        forall|i: int|
            0 <= i < children.len() && (#[trigger] spec_build_element(
                children[i],
                style,
                reference,
                locator_type,
                position,
                year_suffix,
            )).1 == GroupVars::DidRender ==> false,
    ensures
        spec_build_element(
            SpecElement::Group(children),
            style,
            reference,
            locator_type,
            position,
            year_suffix,
        ).0 == SpecIr::Empty,
{
    let built = spec_build_elements(children, style, reference, locator_type, position, year_suffix);
    lemma_build_elements_index(children, style, reference, locator_type, position, year_suffix);
    let gvs = built.map_values(|p: (SpecIr, GroupVars)| p.1);
    let i = choose|i: int|
        0 <= i < children.len() && (#[trigger] spec_build_element(
            children[i],
            style,
            reference,
            locator_type,
            position,
            year_suffix,
        )).1 == GroupVars::OnlyEmpty;
    assert(gvs[i] == GroupVars::OnlyEmpty);
    assert(forall|j: int| 0 <= j < gvs.len() ==> gvs[j] != GroupVars::DidRender);
    crate::group_vars::lemma_group_of_only_empty_is_suppressed(gvs);
    lemma_group_renders_iff_not_only_empty(children, style, reference, locator_type, position, year_suffix);
}

/// The built list indexes pointwise.
pub proof fn lemma_build_elements_index(
    s: Seq<SpecElement>,
    style: Style,
    reference: Reference,
    locator_type: Option<LocatorType>,
    position: Position,
    year_suffix: Option<int>,
)
    ensures
        spec_build_elements(s, style, reference, locator_type, position, year_suffix).len() == s.len(),
        forall|i: int|
            0 <= i < s.len() ==> (#[trigger] spec_build_elements(
                s,
                style,
                reference,
                locator_type,
                position,
                year_suffix,
            )[i]) == spec_build_element(s[i], style, reference, locator_type, position, year_suffix),
    decreases s,
{
    if s.len() > 0 {
        lemma_build_elements_index(s.drop_first(), style, reference, locator_type, position, year_suffix);
        assert forall|i: int| 0 <= i < s.len() implies spec_build_elements(
            s,
            style,
            reference,
            locator_type,
            position,
            year_suffix,
        )[i] == spec_build_element(s[i], style, reference, locator_type, position, year_suffix) by {
            if i > 0 {
                assert(s.drop_first()[i - 1] == s[i]);
            }
        }
    }
}

// ---------------------------------------------------------------------
// Executable builder
// ---------------------------------------------------------------------

/// Build the IR of one element against a cite context.
pub fn build_element(e: &Element, ctx: &RefContext) -> (r: (IrNode, GroupVars))
    requires
        ctx.reference.wf(),
        element_wf(e@),
    ensures
        (r.0@, r.1) == spec_build_element(
            e@,
            *ctx.style,
            *ctx.reference,
            ctx.locator_type,
            ctx.position,
            opt_index_view(ctx.year_suffix_index),
        ),
    decreases *e,
{
    match e {
        Element::Value(s) => (IrNode::TextRun(clone_string(s)), GroupVars::NoneSeen),
        Element::Variable(v) => {
            match ctx.get_ordinary(*v, false) {
                Option::Some(s) => {
                    if s.unicode_len() > 0 {
                        (IrNode::TextRun(String::from_str(s)), GroupVars::DidRender)
                    } else {
                        (IrNode::Empty, GroupVars::OnlyEmpty)
                    }
                },
                Option::None => (IrNode::Empty, GroupVars::OnlyEmpty),
            }
        },
        Element::Group(children) => {
            let (irs, gvs_summary) = build_elements(children, ctx);
            if gvs_summary.should_render_tree() {
                (IrNode::CondGroup(irs, gvs_summary), gvs_summary)
            } else {
                (IrNode::Empty, GroupVars::OnlyEmpty)
            }
        },
        Element::Choose(cond, then_branch, else_branch) => {
            let holds = eval_condition(*cond, ctx);
            let (irs, gvs_summary) = if holds {
                build_elements(then_branch, ctx)
            } else {
                build_elements(else_branch, ctx)
            };
            (IrNode::Branch(irs), gvs_summary)
        },
        Element::YearSuffix => {
            match ctx.year_suffix_index {
                Option::Some(n) => (
                    IrNode::TextRun(crate::year_suffix::year_suffix_letters(n)),
                    GroupVars::DidRender,
                ),
                Option::None => (IrNode::Empty, GroupVars::OnlyEmpty),
            }
        },
    }
}

/// Evaluate a branch condition against the cite context.
fn eval_condition(cond: Condition, ctx: &RefContext) -> (r: bool)
    requires
        ctx.reference.wf(),
        crate::style_types::condition_wf(cond),
    ensures
        r == spec_eval_condition(
            *ctx.style,
            *ctx.reference,
            ctx.locator_type,
            ctx.position,
            cond,
        ),
{
    match cond {
        Condition::HasVariable(v) => ctx.has_variable(v),
        Condition::IsType(t) => {
            let ty = ctx.csl_type();
            ty == t
        },
        Condition::IsNumeric(v) => ctx.is_numeric(v),
        Condition::HasPosition(p) => {
            let pos = ctx.position();
            pos.matches(p)
        },
        Condition::Disambiguate => ctx.is_disambiguate(),
    }
}

/// Build a list of elements, returning the IR nodes and the folded
/// group-vars summary.
pub fn build_elements(elements: &Vec<Element>, ctx: &RefContext) -> (r: (Vec<IrNode>, GroupVars))
    requires
        ctx.reference.wf(),
        elements_wf(elements_view(elements@)),
    ensures
        ({
            let built = spec_build_elements(
                elements_view(elements@),
                *ctx.style,
                *ctx.reference,
                ctx.locator_type,
                ctx.position,
                opt_index_view(ctx.year_suffix_index),
            );
            irs_view(r.0@) == irs_of(built) && r.1 == spec_summary(built)
        }),
    decreases elements@,
{
    let ghost style = *ctx.style;
    let ghost reference = *ctx.reference;
    let ghost locator_type = ctx.locator_type;
    let ghost position = ctx.position;
    let ghost year_suffix = opt_index_view(ctx.year_suffix_index);
    let ghost sv = elements_view(elements@);
    let mut irs: Vec<IrNode> = Vec::new();
    let mut summary = GroupVars::new();
    let mut i: usize = 0;
    proof {
        lemma_elements_view_index(elements@);
        lemma_build_elements_index(sv, style, reference, locator_type, position, year_suffix);
        assert(irs_view(irs@) =~= irs_of(
            spec_build_elements(sv, style, reference, locator_type, position, year_suffix),
        ).take(0));
        assert(spec_build_elements(sv, style, reference, locator_type, position, year_suffix).map_values(
            |p: (SpecIr, GroupVars)| p.1,
        ).take(0) =~= Seq::<GroupVars>::empty());
    }
    while i < elements.len()
        invariant
            i <= elements@.len(),
            ctx.reference.wf(),
            elements_wf(elements_view(elements@)),
            style == *ctx.style,
            reference == *ctx.reference,
            locator_type == ctx.locator_type,
            position == ctx.position,
            year_suffix == opt_index_view(ctx.year_suffix_index),
            sv == elements_view(elements@),
            sv.len() == elements@.len(),
            irs@.len() == i,
            irs_view(irs@) == irs_of(
                spec_build_elements(sv, style, reference, locator_type, position, year_suffix),
            ).take(i as int),
            summary == crate::group_vars::summary_of(
                spec_build_elements(sv, style, reference, locator_type, position, year_suffix).map_values(
                    |p: (SpecIr, GroupVars)| p.1,
                ).take(i as int),
            ),
        decreases elements@.len() - i,
    {
        proof {
            lemma_elements_view_index(elements@);
            lemma_build_elements_index(sv, style, reference, locator_type, position, year_suffix);
            assert(element_wf(sv[i as int]));
        }
        assert(decreases_to!(elements@ => elements@[i as int]));
        let (ir, gv) = build_element(&elements[i], ctx);
        let ghost prev_irs = irs@;
        irs.push(ir);
        summary = summary.neighbour(gv);
        i = i + 1;
        proof {
            assert(irs@.drop_last() =~= prev_irs);
            lemma_irs_view_push(prev_irs, irs@.last());
            let built = spec_build_elements(sv, style, reference, locator_type, position, year_suffix);
            let irseq = irs_of(built);
            let gvseq = built.map_values(|p: (SpecIr, GroupVars)| p.1);
            assert(irseq[i - 1] == built[i - 1].0);
            assert(gvseq[i - 1] == built[i - 1].1);
            assert(irseq.take(i as int) =~= irseq.take(i - 1).push(irseq[i - 1]));
            assert(gvseq.take(i as int) =~= gvseq.take(i - 1).push(gvseq[i - 1]));
            assert(gvseq.take(i as int).drop_last() =~= gvseq.take(i - 1));
        }
    }
    proof {
        let built = spec_build_elements(sv, style, reference, locator_type, position, year_suffix);
        assert(irs_of(built).take(i as int) =~= irs_of(built));
        assert(built.map_values(|p: (SpecIr, GroupVars)| p.1).take(i as int) =~= built.map_values(
            |p: (SpecIr, GroupVars)| p.1,
        ));
    }
    (irs, summary)
}

/// Appending one node appends its view.
proof fn lemma_irs_view_push(s: Seq<IrNode>, x: IrNode)
    ensures
        irs_view(s.push(x)) == irs_view(s).push(ir_view(x)),
{
    lemma_irs_view_index(s.push(x));
    lemma_irs_view_index(s);
    assert(irs_view(s.push(x)) =~= irs_view(s).push(ir_view(x)));
}

/// Flatten one IR node into its rendered text.
pub fn flatten(n: &IrNode) -> (r: Vec<char>)
    ensures
        r@ == spec_flatten(n@),
    decreases *n,
{
    match n {
        IrNode::TextRun(s) => crate::natural_sort::str_chars(s.as_str()),
        IrNode::CondGroup(children, gv) => {
            if gv.should_render_tree() {
                flatten_list(children)
            } else {
                Vec::new()
            }
        },
        IrNode::Branch(children) => flatten_list(children),
        IrNode::Empty => Vec::new(),
    }
}

/// Flatten a list of IR nodes.
pub fn flatten_list(nodes: &Vec<IrNode>) -> (r: Vec<char>)
    ensures
        r@ == spec_flatten_list(irs_view(nodes@)),
    decreases nodes@,
{
    let ghost sv = irs_view(nodes@);
    let mut out: Vec<char> = Vec::new();
    let mut i: usize = 0;
    proof {
        lemma_irs_view_index(nodes@);
        lemma_flatten_list_prefix(sv, 0);
        assert(out@ =~= spec_flatten_prefix(sv, 0));
    }
    while i < nodes.len()
        invariant
            i <= nodes@.len(),
            sv == irs_view(nodes@),
            sv.len() == nodes@.len(),
            out@ == spec_flatten_prefix(sv, i as int),
        decreases nodes@.len() - i,
    {
        proof {
            lemma_irs_view_index(nodes@);
        }
        assert(decreases_to!(nodes@ => nodes@[i as int]));
        let piece = flatten(&nodes[i]);
        let mut j: usize = 0;
        while j < piece.len()
            invariant
                j <= piece@.len(),
                out@ == spec_flatten_prefix(sv, i as int) + piece@.take(j as int),
                0 <= i < sv.len(),
                piece@ == spec_flatten(sv[i as int]),
            decreases piece@.len() - j,
        {
            out.push(piece[j]);
            j = j + 1;
            proof {
                assert(out@ =~= spec_flatten_prefix(sv, i as int) + piece@.take(j as int));
            }
        }
        i = i + 1;
        proof {
            assert(piece@.take(piece@.len() as int) =~= piece@);
            lemma_flatten_prefix_step(sv, i as int);
        }
    }
    proof {
        lemma_flatten_prefix_full(sv);
    }
    out
}

/// The flattening of the first `k` nodes.
pub open spec fn spec_flatten_prefix(s: Seq<SpecIr>, k: int) -> Seq<char> {
    spec_flatten_list(s.take(k))
}

proof fn lemma_flatten_list_prefix(s: Seq<SpecIr>, k: int)
    requires
        k == 0,
    ensures
        spec_flatten_prefix(s, 0) == Seq::<char>::empty(),
{
    assert(s.take(0) =~= Seq::<SpecIr>::empty());
}

proof fn lemma_flatten_prefix_step(s: Seq<SpecIr>, k: int)
    requires
        1 <= k <= s.len(),
    ensures
        spec_flatten_prefix(s, k) == spec_flatten_prefix(s, k - 1) + spec_flatten(s[k - 1]),
    decreases k,
{
    lemma_flatten_append(s.take(k - 1), s[k - 1]);
    assert(s.take(k) =~= s.take(k - 1).push(s[k - 1]));
}

proof fn lemma_flatten_prefix_full(s: Seq<SpecIr>)
    ensures
        spec_flatten_prefix(s, s.len() as int) == spec_flatten_list(s),
{
    assert(s.take(s.len() as int) =~= s);
}

/// Flattening distributes over appending one node.
proof fn lemma_flatten_append(s: Seq<SpecIr>, x: SpecIr)
    ensures
        spec_flatten_list(s.push(x)) == spec_flatten_list(s) + spec_flatten(x),
    decreases s.len(),
{
    if s.len() == 0 {
        assert(s.push(x)[0] == x);
        assert(s.push(x).drop_first() =~= Seq::<SpecIr>::empty());
        assert(spec_flatten_list(s.push(x).drop_first()) == Seq::<char>::empty());
        assert(spec_flatten_list(s.push(x)) =~= spec_flatten(x));
        assert(spec_flatten_list(s) + spec_flatten(x) =~= spec_flatten(x));
    } else {
        assert(s.push(x).drop_first() =~= s.drop_first().push(x));
        assert(s.push(x)[0] == s[0]);
        lemma_flatten_append(s.drop_first(), x);
        assert(spec_flatten_list(s.push(x)) == spec_flatten(s[0]) + (spec_flatten_list(
            s.drop_first(),
        ) + spec_flatten(x)));
        assert(spec_flatten(s[0]) + (spec_flatten_list(s.drop_first()) + spec_flatten(x)) =~= (
        spec_flatten(s[0]) + spec_flatten_list(s.drop_first())) + spec_flatten(x));
    }
}

/// Render one cite: build every top-level element and flatten the
/// results in order.
pub fn render_elements(elements: &Vec<Element>, ctx: &RefContext) -> (r: Vec<char>)
    requires
        ctx.reference.wf(),
        elements_wf(elements_view(elements@)),
    ensures
        r@ == spec_render_elements(
            elements_view(elements@),
            *ctx.style,
            *ctx.reference,
            ctx.locator_type,
            ctx.position,
            opt_index_view(ctx.year_suffix_index),
        ),
{
    let (irs, _summary) = build_elements(elements, ctx);
    let r = flatten_list(&irs);
    r
}

fn clone_string(s: &String) -> (r: String)
    ensures
        r@ == s@,
{
    s.clone()
}

} // verus!
