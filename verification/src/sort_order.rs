//! Order-theoretic laws of the natural comparison.
//!
//! Natural comparison behaves as a total order on sort keys whose token
//! streams line up: it is antisymmetric on all inputs, and transitive
//! on keys whose tokens pairwise have comparable kinds (the serializer
//! produces such keys for any one sort criterion). Two keys can compare
//! equal without being identical characters — a number segment is
//! compared by value, so differently padded digits coincide — which is
//! why transitivity is stated for the comparison itself rather than
//! via identity.

use vstd::prelude::*;
use core::cmp::Ordering;
use crate::natural_sort::{
    lower_key, spec_ci_cmp, spec_cmp_date, spec_cmp_date_token, spec_cmp_token, spec_natural_cmp,
    spec_next_token, spec_plain_cmp, spec_str_cmp, lemma_next_token_bounds, CmpDate, SpecDateToken,
    SpecToken,
};

verus! {

/// The opposite of an ordering.
pub open spec fn flip(o: Ordering) -> Ordering {
    match o {
        Ordering::Less => Ordering::Greater,
        Ordering::Equal => Ordering::Equal,
        Ordering::Greater => Ordering::Less,
    }
}

// ---------------------------------------------------------------------
// Character-string comparisons
// ---------------------------------------------------------------------

proof fn lemma_plain_antisym(a: Seq<char>, b: Seq<char>)
    ensures
        spec_plain_cmp(b, a) == flip(spec_plain_cmp(a, b)),
    decreases a.len() + b.len(),
{
    if a.len() > 0 && b.len() > 0 && a[0] as u32 == b[0] as u32 {
        lemma_plain_antisym(a.skip(1), b.skip(1));
    }
}

proof fn lemma_ci_antisym(a: Seq<char>, b: Seq<char>)
    ensures
        spec_ci_cmp(b, a) == flip(spec_ci_cmp(a, b)),
    decreases a.len() + b.len(),
{
    if a.len() > 0 && b.len() > 0 && lower_key(a[0]) == lower_key(b[0]) {
        lemma_ci_antisym(a.skip(1), b.skip(1));
    }
}

/// Two strings that compare equal by scalar value are identical.
proof fn lemma_plain_eq(a: Seq<char>, b: Seq<char>)
    requires
        spec_plain_cmp(a, b) == Ordering::Equal,
    ensures
        a == b,
    decreases a.len() + b.len(),
{
    if a.len() == 0 && b.len() == 0 {
        assert(a =~= b);
    } else {
        lemma_plain_eq(a.skip(1), b.skip(1));
        assert(a[0] as u32 == b[0] as u32);
        crate::natural_sort::lemma_char_u32_eq(a[0], b[0]);
        assert(a =~= seq![a[0]] + a.skip(1));
        assert(b =~= seq![b[0]] + b.skip(1));
    }
}

/// Comparing equal case-insensitively means equal lengths and equal
/// folded keys throughout.
proof fn lemma_ci_eq_pointwise(a: Seq<char>, b: Seq<char>)
    requires
        spec_ci_cmp(a, b) == Ordering::Equal,
    ensures
        a.len() == b.len(),
        forall|i: int| 0 <= i < a.len() ==> lower_key(a[i]) == lower_key(b[i]),
    decreases a.len() + b.len(),
{
    if a.len() > 0 && b.len() > 0 && lower_key(a[0]) == lower_key(b[0]) {
        lemma_ci_eq_pointwise(a.skip(1), b.skip(1));
        assert forall|i: int| 0 <= i < a.len() implies lower_key(a[i]) == lower_key(b[i]) by {
            if i > 0 {
                assert(a.skip(1)[i - 1] == a[i]);
                assert(b.skip(1)[i - 1] == b[i]);
            }
        }
    }
}

/// A string equal to another under case folding compares the same way
/// against any third string.
proof fn lemma_ci_replace(a: Seq<char>, b: Seq<char>, c: Seq<char>)
    requires
        spec_ci_cmp(a, b) == Ordering::Equal,
    ensures
        spec_ci_cmp(a, c) == spec_ci_cmp(b, c),
    decreases a.len() + c.len(),
{
    lemma_ci_eq_pointwise(a, b);
    if a.len() > 0 && c.len() > 0 && lower_key(a[0]) == lower_key(c[0]) {
        assert(spec_ci_cmp(a.skip(1), b.skip(1)) == Ordering::Equal);
        lemma_ci_replace(a.skip(1), b.skip(1), c.skip(1));
    }
}

/// Non-strict transitivity of the scalar comparison, with strictness
/// carried through.
proof fn lemma_plain_trans(a: Seq<char>, b: Seq<char>, c: Seq<char>)
    requires
        spec_plain_cmp(a, b) != Ordering::Greater,
        spec_plain_cmp(b, c) != Ordering::Greater,
    ensures
        spec_plain_cmp(a, c) != Ordering::Greater,
        spec_plain_cmp(a, b) == Ordering::Less || spec_plain_cmp(b, c) == Ordering::Less
            ==> spec_plain_cmp(a, c) == Ordering::Less,
    decreases a.len() + b.len() + c.len(),
{
    if a.len() == 0 {
        if c.len() > 0 {
            assert(spec_plain_cmp(a, c) == Ordering::Less);
        }
    } else {
        // a nonempty; b nonempty since plain(a,b) != Greater; likewise c
        if (a[0] as u32) < (b[0] as u32) {
            assert(b.len() > 0);
            if (b[0] as u32) <= (c[0] as u32) {
                assert((a[0] as u32) < (c[0] as u32));
            }
        } else {
            assert(a[0] as u32 == b[0] as u32);
            if (b[0] as u32) < (c[0] as u32) {
                assert((a[0] as u32) < (c[0] as u32));
            } else {
                assert(b[0] as u32 == c[0] as u32);
                lemma_plain_trans(a.skip(1), b.skip(1), c.skip(1));
            }
        }
    }
}

/// Non-strict transitivity of the case-insensitive comparison, with
/// strictness carried through.
proof fn lemma_ci_trans(a: Seq<char>, b: Seq<char>, c: Seq<char>)
    requires
        spec_ci_cmp(a, b) != Ordering::Greater,
        spec_ci_cmp(b, c) != Ordering::Greater,
    ensures
        spec_ci_cmp(a, c) != Ordering::Greater,
        spec_ci_cmp(a, b) == Ordering::Less || spec_ci_cmp(b, c) == Ordering::Less
            ==> spec_ci_cmp(a, c) == Ordering::Less,
    decreases a.len() + b.len() + c.len(),
{
    if a.len() == 0 {
        if c.len() > 0 {
            assert(spec_ci_cmp(a, c) == Ordering::Less);
        }
    } else {
        if lower_key(a[0]) < lower_key(b[0]) {
            assert(b.len() > 0);
        } else {
            assert(lower_key(a[0]) == lower_key(b[0]));
            if lower_key(b[0]) < lower_key(c[0]) {
            } else {
                assert(lower_key(b[0]) == lower_key(c[0]));
                lemma_ci_trans(a.skip(1), b.skip(1), c.skip(1));
            }
        }
    }
}

/// Antisymmetry of the natural string comparison.
proof fn lemma_str_antisym(a: Seq<char>, b: Seq<char>)
    ensures
        spec_str_cmp(b, a) == flip(spec_str_cmp(a, b)),
{
    lemma_ci_antisym(a, b);
    lemma_plain_antisym(a, b);
}

/// Equal natural strings are identical.
proof fn lemma_str_eq(a: Seq<char>, b: Seq<char>)
    requires
        spec_str_cmp(a, b) == Ordering::Equal,
    ensures
        a == b,
{
    lemma_plain_eq(a, b);
}

/// Transitivity of the natural string comparison.
proof fn lemma_str_trans(a: Seq<char>, b: Seq<char>, c: Seq<char>)
    requires
        spec_str_cmp(a, b) == Ordering::Less,
        spec_str_cmp(b, c) == Ordering::Less,
    ensures
        spec_str_cmp(a, c) == Ordering::Less,
{
    if spec_ci_cmp(a, b) == Ordering::Less {
        if spec_ci_cmp(b, c) == Ordering::Less {
            lemma_ci_trans(a, b, c);
        } else {
            assert(spec_ci_cmp(b, c) == Ordering::Equal);
            lemma_ci_antisym(b, c);
            lemma_ci_replace(c, b, a);
            lemma_ci_antisym(a, c);
            lemma_ci_antisym(a, b);
        }
    } else {
        assert(spec_ci_cmp(a, b) == Ordering::Equal);
        assert(spec_plain_cmp(a, b) == Ordering::Less);
        if spec_ci_cmp(b, c) == Ordering::Less {
            lemma_ci_replace(a, b, c);
        } else {
            assert(spec_ci_cmp(b, c) == Ordering::Equal);
            assert(spec_plain_cmp(b, c) == Ordering::Less);
            lemma_ci_replace(a, b, c);
            lemma_plain_trans(a, b, c);
        }
    }
}

// ---------------------------------------------------------------------
// Token comparisons
// ---------------------------------------------------------------------

/// Token kinds that the comparison can decide between: plain text
/// against plain text, number against number, and parsed date segments
/// against parsed date segments or literal against literal. Citation
/// numbers are consumed up front and never compared here.
pub open spec fn kinds_compatible(a: SpecToken, b: SpecToken) -> bool {
    match (a, b) {
        (SpecToken::Str(_), SpecToken::Str(_)) => true,
        (SpecToken::Num(_), SpecToken::Num(_)) => true,
        (SpecToken::Date(x), SpecToken::Date(y)) => ((x is Literal) <==> (y is Literal)),
        _ => false,
    }
}

/// Compatible tokens always get an answer.
proof fn lemma_cmp_token_some(a: SpecToken, b: SpecToken)
    requires
        kinds_compatible(a, b),
    ensures
        spec_cmp_token(a, b) is Some,
{
}

/// Antisymmetry of the token comparison.
proof fn lemma_cmp_token_antisym(a: SpecToken, b: SpecToken)
    ensures
        spec_cmp_token(b, a) == (match spec_cmp_token(a, b) {
            Option::Some(o) => Option::Some(flip(o)),
            Option::None => Option::<Ordering>::None,
        }),
{
    match (a, b) {
        (SpecToken::Str(x), SpecToken::Str(y)) => {
            lemma_str_antisym(x, y);
        },
        (SpecToken::Date(x), SpecToken::Date(y)) => {
            match (x, y) {
                (SpecDateToken::Literal(p), SpecDateToken::Literal(q)) => {
                    lemma_plain_antisym(p, q);
                },
                _ => {},
            }
        },
        _ => {},
    }
}

/// A token that compares equal to another compares the same way as it
/// against any compatible third token.
proof fn lemma_cmp_token_replace(a: SpecToken, b: SpecToken, c: SpecToken)
    requires
        kinds_compatible(a, b),
        kinds_compatible(b, c),
        spec_cmp_token(a, b) == Option::Some(Ordering::Equal),
    ensures
        spec_cmp_token(a, c) == spec_cmp_token(b, c),
{
    match (a, b, c) {
        (SpecToken::Str(x), SpecToken::Str(y), SpecToken::Str(_)) => {
            lemma_str_eq(x, y);
        },
        (SpecToken::Date(x), SpecToken::Date(y), SpecToken::Date(_)) => {
            match (x, y) {
                (SpecDateToken::Literal(p), SpecDateToken::Literal(q)) => {
                    lemma_plain_eq(p, q);
                },
                _ => {},
            }
        },
        _ => {},
    }
}

/// Transitivity of the token comparison.
proof fn lemma_cmp_token_trans(a: SpecToken, b: SpecToken, c: SpecToken)
    requires
        kinds_compatible(a, b),
        kinds_compatible(b, c),
        spec_cmp_token(a, b) == Option::Some(Ordering::Less),
        spec_cmp_token(b, c) == Option::Some(Ordering::Less),
    ensures
        spec_cmp_token(a, c) == Option::Some(Ordering::Less),
{
    match (a, b, c) {
        (SpecToken::Str(x), SpecToken::Str(y), SpecToken::Str(z)) => {
            lemma_str_trans(x, y, z);
        },
        (SpecToken::Date(x), SpecToken::Date(y), SpecToken::Date(z)) => {
            match (x, y, z) {
                (
                    SpecDateToken::Literal(p),
                    SpecDateToken::Literal(q),
                    SpecDateToken::Literal(r),
                ) => {
                    lemma_plain_trans(p, q, r);
                },
                _ => {},
            }
        },
        _ => {},
    }
}

// ---------------------------------------------------------------------
// Whole-key comparison
// ---------------------------------------------------------------------

/// Two sort keys line up when their token streams have the same length
/// and pairwise compatible kinds.
pub open spec fn keys_aligned(a: Seq<char>, b: Seq<char>) -> bool
    decreases a.len(),
{
    match (spec_next_token(a), spec_next_token(b)) {
        (Option::None, Option::None) => true,
        (Option::Some((ta, na)), Option::Some((tb, nb))) => {
            if 1 <= na <= a.len() {
                kinds_compatible(ta, tb) && keys_aligned(a.skip(na), b.skip(nb))
            } else {
                kinds_compatible(ta, tb)
            }
        },
        _ => false,
    }
}

/// Natural comparison is antisymmetric: swapping the keys flips the
/// answer. This holds of every pair of keys.
pub proof fn lemma_natural_cmp_antisymmetric(a: Seq<char>, b: Seq<char>)
    ensures
        spec_natural_cmp(b, a) == flip(spec_natural_cmp(a, b)),
    decreases a.len(),
{
    lemma_next_token_bounds(a);
    lemma_next_token_bounds(b);
    match (spec_next_token(a), spec_next_token(b)) {
        (Option::Some((ta, na)), Option::Some((tb, nb))) => {
            lemma_cmp_token_antisym(ta, tb);
            match spec_cmp_token(ta, tb) {
                Option::Some(o) => {
                    if o == Ordering::Equal {
                        lemma_natural_cmp_antisymmetric(a.skip(na), b.skip(nb));
                    }
                },
                Option::None => {
                    lemma_natural_cmp_antisymmetric(a.skip(na), b.skip(nb));
                },
            }
        },
        _ => {},
    }
}

/// Natural comparison is transitive on keys that line up: if `a` sorts
/// before `b` and `b` before `c`, then `a` sorts before `c`.
pub proof fn lemma_natural_cmp_transitive(a: Seq<char>, b: Seq<char>, c: Seq<char>)
    requires
        keys_aligned(a, b),
        keys_aligned(b, c),
        spec_natural_cmp(a, b) == Ordering::Less,
        spec_natural_cmp(b, c) == Ordering::Less,
    ensures
        spec_natural_cmp(a, c) == Ordering::Less,
    decreases a.len(),
{
    lemma_next_token_bounds(a);
    lemma_next_token_bounds(b);
    lemma_next_token_bounds(c);
    match (spec_next_token(a), spec_next_token(b), spec_next_token(c)) {
        (Option::Some((ta, na)), Option::Some((tb, nb)), Option::Some((tc, nc))) => {
            lemma_cmp_token_some(ta, tb);
            lemma_cmp_token_some(tb, tc);
            let x = spec_cmp_token(ta, tb).unwrap();
            let y = spec_cmp_token(tb, tc).unwrap();
            assert(x != Ordering::Greater);
            assert(y != Ordering::Greater);
            if x == Ordering::Less {
                if y == Ordering::Less {
                    lemma_cmp_token_trans(ta, tb, tc);
                } else {
                    lemma_cmp_token_antisym(tb, tc);
                    lemma_cmp_token_antisym(ta, tb);
                    lemma_cmp_token_replace(tc, tb, ta);
                    lemma_cmp_token_antisym(ta, tc);
                }
            } else {
                assert(x == Ordering::Equal);
                if y == Ordering::Less {
                    lemma_cmp_token_replace(ta, tb, tc);
                } else {
                    assert(y == Ordering::Equal);
                    lemma_cmp_token_replace(ta, tb, tc);
                    lemma_natural_cmp_transitive(a.skip(na), b.skip(nb), c.skip(nc));
                }
            }
        },
        _ => {},
    }
}

/// A key that compares equal to another under alignment compares the
/// same way as it against any third aligned key: equal keys are
/// interchangeable in the order. Together with antisymmetry and
/// transitivity this makes natural comparison a total order on the
/// classes of keys it cannot tell apart (a number segment is compared
/// by value, so "01" and "1" inside number delimiters coincide).
pub proof fn lemma_natural_cmp_equal_replace(a: Seq<char>, b: Seq<char>, c: Seq<char>)
    requires
        keys_aligned(a, b),
        keys_aligned(b, c),
        spec_natural_cmp(a, b) == Ordering::Equal,
    ensures
        spec_natural_cmp(a, c) == spec_natural_cmp(b, c),
    decreases a.len(),
{
    lemma_next_token_bounds(a);
    lemma_next_token_bounds(b);
    lemma_next_token_bounds(c);
    match (spec_next_token(a), spec_next_token(b), spec_next_token(c)) {
        (Option::Some((ta, na)), Option::Some((tb, nb)), Option::Some((tc, nc))) => {
            lemma_cmp_token_some(ta, tb);
            let x = spec_cmp_token(ta, tb).unwrap();
            assert(x == Ordering::Equal);
            lemma_cmp_token_replace(ta, tb, tc);
            lemma_natural_cmp_equal_replace(a.skip(na), b.skip(nb), c.skip(nc));
        },
        _ => {},
    }
}


// ---------------------------------------------------------------------
// Date-ordering laws
// ---------------------------------------------------------------------

/// Missing date parts count as zero, so a less specific date precedes a
/// more specific one sharing its prefix: a bare year comes before any
/// month of that year, and a year-month before any day of that month.
pub proof fn lemma_less_specific_date_first(d1: CmpDate, d2: CmpDate)
    requires
        d1.year == d2.year,
        (d1.month == 0 && d2.month > 0) || (d1.month == d2.month && d1.day == 0 && d2.day > 0),
    ensures
        spec_cmp_date(d1, d2) == Ordering::Less,
{
}

/// Years compare as signed integers, so years before the common era
/// (negative) invert naturally: 100 BC precedes 44 BC precedes any
/// common-era year.
pub proof fn lemma_bc_years_invert(d1: CmpDate, d2: CmpDate)
    requires
        d1.year < d2.year,
    ensures
        spec_cmp_date(d1, d2) == Ordering::Less,
{
}

/// Ranges compare by start then end, and a single date is its own end,
/// so a range whose end lies past its start sorts after the single
/// date equal to that start.
pub proof fn lemma_range_after_single_date(d: CmpDate, e: CmpDate)
    requires
        spec_cmp_date(d, e) == Ordering::Less,
    ensures
        spec_cmp_date_token(SpecDateToken::Single(d), SpecDateToken::Range(d, e)) == Option::Some(
            Ordering::Less,
        ),
        spec_cmp_date_token(SpecDateToken::Range(d, e), SpecDateToken::Single(d)) == Option::Some(
            Ordering::Greater,
        ),
{
}

/// A date segment at the front of both keys decides the whole
/// comparison whenever the dates differ: the token-level date order
/// above is the key order there.
pub proof fn lemma_leading_date_token_decides(a: Seq<char>, b: Seq<char>, c: Ordering)
    requires
        spec_next_token(a) matches Option::Some(p) && p.0 is Date,
        spec_next_token(b) matches Option::Some(q) && q.0 is Date,
        ({
            &&& spec_next_token(a) matches Option::Some(p)
            &&& spec_next_token(b) matches Option::Some(q)
            &&& spec_cmp_token(p.0, q.0) == Option::Some(c)
        }),
        c != Ordering::Equal,
    ensures
        spec_natural_cmp(a, b) == c,
{
    lemma_next_token_bounds(a);
    lemma_next_token_bounds(b);
}

} // verus!
