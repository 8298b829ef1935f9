//! The read-only context that a style's conditionals consult: a
//! reference plus per-cite context (locator type, position, whether a
//! year suffix is available). The virtual variables `locator`,
//! `first-reference-note-number` and `citation-number` are answered
//! from that context rather than from the reference's maps.

use vstd::prelude::*;
use crate::reference::{DateOrRange, NumericValue, Reference};
use crate::style_types::{CslType, FreeCond, LocatorType, Position, Style};
use crate::variables::{AnyVariable, NumberVariable, Variable};

verus! {

/// A reference viewed under one concrete cite context.
pub struct RefContext<'a> {
    pub style: &'a Style,
    pub reference: &'a Reference,
    pub locator_type: Option<LocatorType>,
    pub position: Position,
    pub year_suffix: bool,
    /// The suffix index the disambiguation layer assigned to the cited
    /// reference, when rendering a concrete cite; exploring a
    /// free-condition set fixes only the availability bit above.
    pub year_suffix_index: Option<usize>,
}

/// Whether a context answers "is this variable present?" with yes; the
/// virtual variables are answered from the cite context and the style.
pub open spec fn spec_has_variable(
    style: Style,
    reference: Reference,
    locator_type: Option<LocatorType>,
    position: Position,
    var: AnyVariable,
) -> bool {
    match var {
        AnyVariable::Number(v) => match v {
            NumberVariable::Locator => locator_type is Some,
            NumberVariable::FirstReferenceNoteNumber => position.spec_matches(
                Position::Subsequent,
            ),
            NumberVariable::CitationNumber => style.has_bibliography,
            _ => reference.number_map().contains_key(v),
        },
        AnyVariable::Ordinary(v) => reference.ordinary_map().contains_key(v),
        AnyVariable::Date(v) => reference.date_map().contains_key(v),
        AnyVariable::Name(v) => reference.name_map().contains_key(v),
    }
}

impl<'a> RefContext<'a> {
    /// Build a context from a free-condition set: the set fixes the
    /// locator type, the position and the year-suffix bit.
    pub fn from_free_cond(
        fc: FreeCond,
        style: &'a Style,
        reference: &'a Reference,
    ) -> (r: RefContext<'a>)
        ensures
            r.style == style,
            r.reference == reference,
            r.locator_type == fc.locator,
            r.position == crate::style_types::position_of_free_cond(fc),
            r.year_suffix == fc.year_suffix,
            r.year_suffix_index is None,
    {
        let locator_type = fc.to_loc_type();
        let position = Position::from(fc);
        RefContext {
            style,
            reference,
            locator_type,
            position,
            year_suffix: fc.year_suffix,
            year_suffix_index: Option::None,
        }
    }

    /// The key an ordinary-variable lookup resolves to: under the
    /// `short` form, the title and the container title fall back to
    /// their short variants.
    pub open spec fn spec_ordinary_key(var: Variable, short_form: bool) -> Variable {
        if var == Variable::Title && short_form {
            Variable::TitleShort
        } else if var == Variable::ContainerTitle && short_form {
            Variable::ContainerTitleShort
        } else {
            var
        }
    }

    /// The text of an ordinary variable, resolving the `short` form
    /// fallback for the title and the container title.
    pub fn get_ordinary(&self, var: Variable, short_form: bool) -> (r: Option<&str>)
        requires
            self.reference.wf(),
        ensures
            ({
                let key = Self::spec_ordinary_key(var, short_form);
                match r {
                    Option::Some(s) => self.reference.ordinary_map().contains_key(key) && s@
                        == self.reference.ordinary_map()[key]@,
                    Option::None => !self.reference.ordinary_map().contains_key(key),
                }
            }),
    {
        let key = if matches!(var, Variable::Title) && short_form {
            Variable::TitleShort
        } else if matches!(var, Variable::ContainerTitle) && short_form {
            Variable::ContainerTitleShort
        } else {
            var
        };
        match self.reference.ordinary_get(key) {
            Option::Some(s) => Option::Some(s.as_str()),
            Option::None => Option::None,
        }
    }

    /// The value of a number variable, from the reference's map.
    pub fn get_number(&self, var: NumberVariable) -> (r: Option<&NumericValue>)
        requires
            self.reference.wf(),
        ensures
            match r {
                Option::Some(v) => self.reference.number_map().contains_key(var) && *v
                    == self.reference.number_map()[var],
                Option::None => !self.reference.number_map().contains_key(var),
            },
    {
        self.reference.number_get(var)
    }

    /// Whether the style's conditional sees the variable as present.
    /// The `hereinafter` and `year-suffix` variables are not
    /// representable as free conditions and are excluded.
    pub fn has_variable(&self, var: AnyVariable) -> (r: bool)
        requires
            self.reference.wf(),
            var != AnyVariable::Ordinary(Variable::Hereinafter),
            var != AnyVariable::Ordinary(Variable::YearSuffix),
        ensures
            r == spec_has_variable(
                *self.style,
                *self.reference,
                self.locator_type,
                self.position,
                var,
            ),
    {
        match var {
            AnyVariable::Number(v) => match v {
                NumberVariable::Locator => self.locator_type.is_some(),
                NumberVariable::FirstReferenceNoteNumber => self.position.matches(
                    Position::Subsequent,
                ),
                NumberVariable::CitationNumber => self.style.has_bibliography,
                _ => self.get_number(v).is_some(),
            },
            AnyVariable::Ordinary(v) => self.reference.ordinary_get(v).is_some(),
            AnyVariable::Date(v) => self.reference.date_get(v).is_some(),
            AnyVariable::Name(v) => self.reference.name_get(v).is_some(),
        }
    }

    /// Whether the variable holds a genuinely numeric value; only
    /// number variables can.
    pub fn is_numeric(&self, var: AnyVariable) -> (r: bool)
        requires
            self.reference.wf(),
        ensures
            r == match var {
                AnyVariable::Number(num) => self.reference.number_map().contains_key(num)
                    && self.reference.number_map()[num] is Num,
                _ => false,
            },
    {
        match var {
            AnyVariable::Number(num) => match self.get_number(num) {
                Option::Some(val) => val.is_numeric(),
                Option::None => false,
            },
            _ => false,
        }
    }

    /// The reference's bibliographic type.
    pub fn csl_type(&self) -> (r: CslType)
        ensures
            r == self.reference.csl_type,
    {
        self.reference.csl_type
    }

    /// The value of a date variable, from the reference's map.
    pub fn get_date(&self, dvar: crate::variables::DateVariable) -> (r: Option<&DateOrRange>)
        requires
            self.reference.wf(),
        ensures
            match r {
                Option::Some(v) => self.reference.date_map().contains_key(dvar) && *v
                    == self.reference.date_map()[dvar],
                Option::None => !self.reference.date_map().contains_key(dvar),
            },
    {
        self.reference.date_get(dvar)
    }

    /// The cite position this context fixes.
    pub fn position(&self) -> (r: Position)
        ensures
            r == self.position,
    {
        self.position
    }

    /// A reference context never renders under the `disambiguate`
    /// condition; the disambiguation engine substitutes contexts to
    /// explore it.
    pub fn is_disambiguate(&self) -> (r: bool)
        ensures
            r == false,
    {
        false
    }

    /// The style in force.
    pub fn style(&self) -> (r: &Style)
        ensures
            r == self.style,
    {
        self.style
    }
}

} // verus!
