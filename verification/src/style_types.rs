//! Value types of the style language that the core consumes: item
//! types, locator types, cite positions, the free-condition set, and the
//! compiled style subset the renderer evaluates.

use vstd::prelude::*;
use crate::variables::Variable;
use crate::flip_flop::Formatting;

verus! {

/// The bibliographic type of a reference.
#[derive(Debug, Clone, Copy, PartialEq, Eq, Hash, Structural)]
pub enum CslType {
    Article,
    ArticleJournal,
    ArticleMagazine,
    ArticleNewspaper,
    Bill,
    Book,
    Broadcast,
    Chapter,
    Dataset,
    Entry,
    EntryDictionary,
    EntryEncyclopedia,
    Figure,
    Graphic,
    Interview,
    LegalCase,
    Legislation,
    Manuscript,
    MotionPicture,
    MusicalScore,
    Pamphlet,
    PaperConference,
    Patent,
    PersonalCommunication,
    Post,
    PostWeblog,
    Report,
    Review,
    ReviewBook,
    Song,
    Speech,
    Thesis,
    Treaty,
    Webpage,
}

/// The kind of pinpointer a cite's locator carries.
#[derive(Debug, Clone, Copy, PartialEq, Eq, Hash, Structural)]
pub enum LocatorType {
    Book,
    Chapter,
    Column,
    Figure,
    Folio,
    Issue,
    Line,
    Note,
    Opus,
    Page,
    Paragraph,
    Part,
    Section,
    SubVerbo,
    Verse,
    Volume,
}

/// A cite's relation to earlier cites of the same reference.
#[derive(Debug, Clone, Copy, PartialEq, Eq, Hash, Structural)]
pub enum Position {
    First,
    Ibid,
    IbidWithLocator,
    Subsequent,
    NearNote,
    FarNote,
}

impl Position {
    /// Whether this position satisfies a position test in a style
    /// condition: a position matches itself, and every position other
    /// than `First` counts as `Subsequent`.
    pub fn matches(self, test: Position) -> (r: bool)
        ensures
            r == self.spec_matches(test),
    {
        self == test || (test == Position::Subsequent && self != Position::First)
    }

    /// What `matches` returns.
    pub open spec fn spec_matches(self, test: Position) -> bool {
        self == test || (test == Position::Subsequent && self != Position::First)
    }
}

/// The set of boolean facts about a cite under which a rendering would
/// be produced: position bits, the locator type if one is present, and
/// whether a year suffix is in play.
#[derive(Debug, Clone, Copy, PartialEq, Eq, Structural)]
pub struct FreeCond {
    pub ibid: bool,
    pub ibid_with_locator: bool,
    pub near_note: bool,
    pub far_note: bool,
    pub subsequent: bool,
    pub year_suffix: bool,
    pub locator: Option<LocatorType>,
}

impl FreeCond {
    /// The locator type this condition set fixes, if any.
    pub fn to_loc_type(&self) -> (r: Option<LocatorType>)
        ensures
            r == self.locator,
    {
        self.locator
    }
}

/// The position that a free-condition set implies, most specific bit
/// first; a set that mentions no position bit implies `First`.
pub open spec fn position_of_free_cond(fc: FreeCond) -> Position {
    if fc.ibid_with_locator {
        Position::IbidWithLocator
    } else if fc.ibid {
        Position::Ibid
    } else if fc.near_note {
        Position::NearNote
    } else if fc.far_note {
        Position::FarNote
    } else if fc.subsequent {
        Position::Subsequent
    } else {
        Position::First
    }
}

impl From<FreeCond> for Position {
    fn from(fc: FreeCond) -> (r: Self) {
        if fc.ibid_with_locator {
            Position::IbidWithLocator
        } else if fc.ibid {
            Position::Ibid
        } else if fc.near_note {
            Position::NearNote
        } else if fc.far_note {
            Position::FarNote
        } else if fc.subsequent {
            Position::Subsequent
        } else {
            Position::First
        }
    }
}

impl vstd::std_specs::convert::FromSpecImpl<FreeCond> for Position {
    open spec fn obeys_from_spec() -> bool {
        true
    }

    open spec fn from_spec(fc: FreeCond) -> Self {
        position_of_free_cond(fc)
    }
}

/// A condition a `choose` branch tests against the cite context.
#[derive(Debug, Clone, Copy, PartialEq, Eq, Structural)]
pub enum Condition {
    /// The context answers "is this variable present?" with yes.
    HasVariable(crate::variables::AnyVariable),
    /// The reference is of this bibliographic type.
    IsType(CslType),
    /// The variable holds a genuinely numeric value.
    IsNumeric(crate::variables::AnyVariable),
    /// The cite's position satisfies this position test.
    HasPosition(Position),
    /// The context is exploring the style's disambiguation branch.
    Disambiguate,
}

/// One node of the compiled citation layout that the renderer
/// evaluates.
#[derive(Debug)]
pub enum Element {
    /// A fixed piece of text; it references no variable.
    Value(String),
    /// The text of an ordinary variable of the reference; empty when
    /// the reference lacks it.
    Variable(Variable),
    /// A conditional group: renders only if it references at least one
    /// variable that produced output, or none at all.
    Group(Vec<Element>),
    /// A resolved branch: only the side the condition picks
    /// contributes to the output.
    Choose(Condition, Vec<Element>, Vec<Element>),
    /// The year-suffix slot: renders the letters of the suffix the
    /// disambiguation layer assigned to the cited reference, if any.
    YearSuffix,
}

/// Ghost image of an `Element`.
pub enum SpecElement {
    Value(Seq<char>),
    Variable(Variable),
    Group(Seq<SpecElement>),
    Choose(Condition, Seq<SpecElement>, Seq<SpecElement>),
    YearSuffix,
}

/// View of one element.
pub open spec fn element_view(e: Element) -> SpecElement
    decreases e,
{
    match e {
        Element::Value(s) => SpecElement::Value(s@),
        Element::Variable(v) => SpecElement::Variable(v),
        Element::Group(children) => SpecElement::Group(elements_view(children@)),
        Element::Choose(cond, then_branch, else_branch) => SpecElement::Choose(
            cond,
            elements_view(then_branch@),
            elements_view(else_branch@),
        ),
        Element::YearSuffix => SpecElement::YearSuffix,
    }
}

/// Conditions the renderer can evaluate: the `hereinafter` and
/// `year-suffix` variables are not representable as free conditions and
/// may not be tested.
pub open spec fn condition_wf(c: Condition) -> bool {
    match c {
        Condition::HasVariable(v) => v != crate::variables::AnyVariable::Ordinary(
            Variable::Hereinafter,
        ) && v != crate::variables::AnyVariable::Ordinary(Variable::YearSuffix),
        _ => true,
    }
}

/// Every condition in the subtree is one the renderer can evaluate.
pub open spec fn element_wf(e: SpecElement) -> bool
    decreases e,
{
    match e {
        SpecElement::Value(_) => true,
        SpecElement::Variable(_) => true,
        SpecElement::Group(children) => elements_wf(children),
        SpecElement::Choose(cond, then_branch, else_branch) => condition_wf(cond) && elements_wf(
            then_branch,
        ) && elements_wf(else_branch),
        SpecElement::YearSuffix => true,
    }
}

/// Every condition in the list is one the renderer can evaluate.
pub open spec fn elements_wf(s: Seq<SpecElement>) -> bool
    decreases s,
{
    forall|i: int| 0 <= i < s.len() ==> element_wf(#[trigger] s[i])
}

/// View of a list of elements.
pub open spec fn elements_view(s: Seq<Element>) -> Seq<SpecElement>
    decreases s,
{
    if s.len() == 0 {
        Seq::empty()
    } else {
        seq![element_view(s[0])] + elements_view(s.drop_first())
    }
}

impl View for Element {
    type V = SpecElement;

    open spec fn view(&self) -> SpecElement {
        element_view(*self)
    }
}

/// The view of an element list indexes pointwise.
pub proof fn lemma_elements_view_index(s: Seq<Element>)
    ensures
        elements_view(s).len() == s.len(),
        forall|i: int| 0 <= i < s.len() ==> elements_view(s)[i] == element_view(s[i]),
    decreases s,
{
    if s.len() > 0 {
        lemma_elements_view_index(s.drop_first());
        assert forall|i: int| 0 <= i < s.len() implies elements_view(s)[i] == element_view(
            s[i],
        ) by {
            if i > 0 {
                assert(s.drop_first()[i - 1] == s[i]);
            }
        }
    }
}

/// The compiled style, reduced to what the core reads: the citation
/// layout with its delimiter and formatting, the near-note threshold,
/// whether a bibliography exists, and the default locale.
#[derive(Debug)]
pub struct Style {
    pub citation: Vec<Element>,
    pub layout_delimiter: String,
    pub layout_prefix: String,
    pub layout_suffix: String,
    pub layout_formatting: Formatting,
    pub near_note_distance: u32,
    pub has_bibliography: bool,
    pub default_locale: String,
}

} // verus!
