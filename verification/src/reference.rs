//! Bibliographic references: four maps keyed by variable name —
//! ordinary text, numeric values, name lists, dates — plus a type tag
//! and an optional language, all immutable once inserted.

use vstd::prelude::*;
use crate::names::Name;
use crate::natural_sort::CmpDate;
use crate::style_types::CslType;
use crate::variables::{DateVariable, NameVariable, NumberVariable, Variable};

verus! {

/// A numeric variable's value: either a genuinely numeric value or a
/// piece of text that did not parse as one.
#[derive(Debug, Clone, PartialEq, Eq, Hash)]
pub enum NumericValue {
    Num(u32),
    Str(String),
}

impl NumericValue {
    /// Whether the value parsed as numeric.
    pub fn is_numeric(&self) -> (r: bool)
        ensures
            r == (self is Num),
    {
        matches!(self, NumericValue::Num(_))
    }
}

/// A date variable's value: a single date, a range, or a literal that
/// did not parse.
#[derive(Debug, Clone, PartialEq, Eq, Hash)]
pub enum DateOrRange {
    Single(CmpDate),
    Range(CmpDate, CmpDate),
    Literal(String),
}

/// A bibliographic reference.
#[derive(Debug)]
pub struct Reference {
    pub id: String,
    pub csl_type: CslType,
    pub language: Option<String>,
    pub ordinary: Vec<(Variable, String)>,
    pub number: Vec<(NumberVariable, NumericValue)>,
    pub name: Vec<(NameVariable, Vec<Name>)>,
    pub date: Vec<(DateVariable, DateOrRange)>,
}

/// The map a key-value list stands for; a repeated key keeps its last
/// value.
pub open spec fn pairs_to_map<K, V>(s: Seq<(K, V)>) -> Map<K, V>
    decreases s.len(),
{
    if s.len() == 0 {
        Map::empty()
    } else {
        pairs_to_map(s.drop_last()).insert(s.last().0, s.last().1)
    }
}

/// No key occurs twice.
pub open spec fn keys_unique<K, V>(s: Seq<(K, V)>) -> bool {
    forall|i: int, j: int| 0 <= i < j < s.len() ==> (#[trigger] s[i]).0 != (#[trigger] s[j]).0
}

/// A key is in the map iff some pair carries it, and, when keys are
/// unique, the map holds that pair's value.
pub proof fn lemma_pairs_to_map<K, V>(s: Seq<(K, V)>, k: K)
    ensures
        pairs_to_map(s).contains_key(k) <==> exists|i: int| 0 <= i < s.len() && (#[trigger] s[i]).0
            == k,
        forall|i: int|
            0 <= i < s.len() && keys_unique(s) && (#[trigger] s[i]).0 == k ==> pairs_to_map(
                s,
            ).contains_key(k) && pairs_to_map(s)[k] == s[i].1,
    decreases s.len(),
{
    if s.len() > 0 {
        lemma_pairs_to_map(s.drop_last(), k);
        assert(keys_unique(s) ==> keys_unique(s.drop_last())) by {
            if keys_unique(s) {
                assert forall|i: int, j: int| 0 <= i < j < s.drop_last().len() implies (
                #[trigger] s.drop_last()[i]).0 != (#[trigger] s.drop_last()[j]).0 by {
                    assert(s.drop_last()[i] == s[i]);
                    assert(s.drop_last()[j] == s[j]);
                }
            }
        }
        if pairs_to_map(s).contains_key(k) {
            if s.last().0 != k {
                let i = choose|i: int|
                    0 <= i < s.drop_last().len() && (#[trigger] s.drop_last()[i]).0 == k;
                assert(s[i] == s.drop_last()[i]);
            }
        }
        if exists|i: int| 0 <= i < s.len() && (#[trigger] s[i]).0 == k {
            let i = choose|i: int| 0 <= i < s.len() && (#[trigger] s[i]).0 == k;
            if i < s.len() - 1 {
                assert(s.drop_last()[i] == s[i]);
            }
        }
        assert forall|i: int|
            0 <= i < s.len() && keys_unique(s) && (#[trigger] s[i]).0 == k implies pairs_to_map(
            s,
        ).contains_key(k) && pairs_to_map(s)[k] == s[i].1 by {
            if i == s.len() - 1 {
                assert(s.last() == s[i]);
            } else {
                assert(s.drop_last()[i] == s[i]);
                assert(s[i].0 != s.last().0);
            }
        }
    }
}

impl Reference {
    /// Well-formedness: each of the four maps binds a variable at most
    /// once.
    pub open spec fn wf(&self) -> bool {
        keys_unique(self.ordinary@) && keys_unique(self.number@) && keys_unique(self.name@)
            && keys_unique(self.date@)
    }

    /// The ordinary-variable map this reference holds.
    pub open spec fn ordinary_map(&self) -> Map<Variable, String> {
        pairs_to_map(self.ordinary@)
    }

    /// The number-variable map this reference holds.
    pub open spec fn number_map(&self) -> Map<NumberVariable, NumericValue> {
        pairs_to_map(self.number@)
    }

    /// The name-variable map this reference holds.
    pub open spec fn name_map(&self) -> Map<NameVariable, Vec<Name>> {
        pairs_to_map(self.name@)
    }

    /// The date-variable map this reference holds.
    pub open spec fn date_map(&self) -> Map<DateVariable, DateOrRange> {
        pairs_to_map(self.date@)
    }

    /// Look up an ordinary variable.
    pub fn ordinary_get(&self, var: Variable) -> (r: Option<&String>)
        requires
            self.wf(),
        ensures
            match r {
                Option::Some(s) => self.ordinary_map().contains_key(var) && *s
                    == self.ordinary_map()[var],
                Option::None => !self.ordinary_map().contains_key(var),
            },
    {
        proof {
            lemma_pairs_to_map(self.ordinary@, var);
        }
        let mut i: usize = 0;
        while i < self.ordinary.len()
            invariant
                i <= self.ordinary@.len(),
                self.wf(),
                forall|j: int| 0 <= j < i ==> (#[trigger] self.ordinary@[j]).0 != var,
            decreases self.ordinary@.len() - i,
        {
            if self.ordinary[i].0 == var {
                proof {
                    lemma_pairs_to_map(self.ordinary@, var);
                }
                return Option::Some(&self.ordinary[i].1);
            }
            i = i + 1;
        }
        proof {
            lemma_pairs_to_map(self.ordinary@, var);
        }
        Option::None
    }

    /// Look up a number variable.
    pub fn number_get(&self, var: NumberVariable) -> (r: Option<&NumericValue>)
        requires
            self.wf(),
        ensures
            match r {
                Option::Some(v) => self.number_map().contains_key(var) && *v
                    == self.number_map()[var],
                Option::None => !self.number_map().contains_key(var),
            },
    {
        proof {
            lemma_pairs_to_map(self.number@, var);
        }
        let mut i: usize = 0;
        while i < self.number.len()
            invariant
                i <= self.number@.len(),
                self.wf(),
                forall|j: int| 0 <= j < i ==> (#[trigger] self.number@[j]).0 != var,
            decreases self.number@.len() - i,
        {
            if self.number[i].0 == var {
                proof {
                    lemma_pairs_to_map(self.number@, var);
                }
                return Option::Some(&self.number[i].1);
            }
            i = i + 1;
        }
        proof {
            lemma_pairs_to_map(self.number@, var);
        }
        Option::None
    }

    /// Look up a name variable.
    pub fn name_get(&self, var: NameVariable) -> (r: Option<&Vec<Name>>)
        requires
            self.wf(),
        ensures
            match r {
                Option::Some(v) => self.name_map().contains_key(var) && *v == self.name_map()[var],
                Option::None => !self.name_map().contains_key(var),
            },
    {
        proof {
            lemma_pairs_to_map(self.name@, var);
        }
        let mut i: usize = 0;
        while i < self.name.len()
            invariant
                i <= self.name@.len(),
                self.wf(),
                forall|j: int| 0 <= j < i ==> (#[trigger] self.name@[j]).0 != var,
            decreases self.name@.len() - i,
        {
            if self.name[i].0 == var {
                proof {
                    lemma_pairs_to_map(self.name@, var);
                }
                return Option::Some(&self.name[i].1);
            }
            i = i + 1;
        }
        proof {
            lemma_pairs_to_map(self.name@, var);
        }
        Option::None
    }

    /// Look up a date variable.
    pub fn date_get(&self, var: DateVariable) -> (r: Option<&DateOrRange>)
        requires
            self.wf(),
        ensures
            match r {
                Option::Some(v) => self.date_map().contains_key(var) && *v == self.date_map()[var],
                Option::None => !self.date_map().contains_key(var),
            },
    {
        proof {
            lemma_pairs_to_map(self.date@, var);
        }
        let mut i: usize = 0;
        while i < self.date.len()
            invariant
                i <= self.date@.len(),
                self.wf(),
                forall|j: int| 0 <= j < i ==> (#[trigger] self.date@[j]).0 != var,
            decreases self.date@.len() - i,
        {
            if self.date[i].0 == var {
                proof {
                    lemma_pairs_to_map(self.date@, var);
                }
                return Option::Some(&self.date[i].1);
            }
            i = i + 1;
        }
        proof {
            lemma_pairs_to_map(self.date@, var);
        }
        Option::None
    }
}

} // verus!
