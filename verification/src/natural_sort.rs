//! Natural comparison of sort keys.
//!
//! Sortable fields are serialized into composite strings in which dates,
//! numbers and citation numbers are wrapped in private-use delimiters
//! (U+E000..U+E005) with a known format between them. Comparison
//! tokenizes both strings and compares token by token with typed
//! semantics: plain text naturally (case-insensitive primary,
//! case-sensitive tie-break with uppercase first), numbers numerically,
//! dates by (year, month, day) with missing parts treated as zero so a
//! less specific date precedes a more specific one sharing its prefix,
//! and ranges by start date then end date. Mixed token kinds are not
//! comparable at that position and iteration continues.

use vstd::prelude::*;
use vstd::string::*;
use core::cmp::Ordering;

verus! {

/// Opens a date segment.
pub const DATE_START: char = '\u{E000}';
/// Closes a date segment.
pub const DATE_END: char = '\u{E001}';
/// Opens a number segment.
pub const NUM_START: char = '\u{E002}';
/// Closes a number segment.
pub const NUM_END: char = '\u{E003}';
/// Opens a citation-number segment.
pub const CITATION_NUM_START: char = '\u{E004}';
/// Closes a citation-number segment.
pub const CITATION_NUM_END: char = '\u{E005}';

/// Opens a date segment (string form, for building affixes).
pub const DATE_START_STR: &'static str = "\u{E000}";
/// Closes a date segment (string form).
pub const DATE_END_STR: &'static str = "\u{E001}";
/// Opens a number segment (string form).
pub const NUM_START_STR: &'static str = "\u{E002}";
/// Closes a number segment (string form).
pub const NUM_END_STR: &'static str = "\u{E003}";
/// Opens a citation-number segment (string form).
pub const CITATION_NUM_START_STR: &'static str = "\u{E004}";
/// Closes a citation-number segment (string form).
pub const CITATION_NUM_END_STR: &'static str = "\u{E005}";

/// A prefix and suffix pair wrapped around a rendered segment.
#[derive(Debug, Clone)]
pub struct Affixes {
    pub prefix: String,
    pub suffix: String,
}

/// Affixes that wrap a number so the comparison recognises it.
pub fn num_affixes() -> (r: Affixes)
    ensures
        r.prefix@ == seq![NUM_START],
        r.suffix@ == seq![NUM_END],
{
    proof {
        reveal_strlit("\u{E002}");
        reveal_strlit("\u{E003}");
        assert(NUM_START_STR@ =~= seq![NUM_START]);
        assert(NUM_END_STR@ =~= seq![NUM_END]);
    }
    Affixes { prefix: String::from_str(NUM_START_STR), suffix: String::from_str(NUM_END_STR) }
}

/// Affixes that wrap a citation number so the comparison recognises it.
pub fn citation_number_affixes() -> (r: Affixes)
    ensures
        r.prefix@ == seq![CITATION_NUM_START],
        r.suffix@ == seq![CITATION_NUM_END],
{
    proof {
        reveal_strlit("\u{E004}");
        reveal_strlit("\u{E005}");
        assert(CITATION_NUM_START_STR@ =~= seq![CITATION_NUM_START]);
        assert(CITATION_NUM_END_STR@ =~= seq![CITATION_NUM_END]);
    }
    Affixes {
        prefix: String::from_str(CITATION_NUM_START_STR),
        suffix: String::from_str(CITATION_NUM_END_STR),
    }
}

/// A date reduced to its comparison key: missing month or day are zero,
/// years before the common era are negative.
#[derive(Debug, Clone, Copy, PartialEq, Eq, Hash, Structural)]
pub struct CmpDate {
    pub year: i32,
    pub month: u8,
    pub day: u8,
}

/// The contents of a date segment: a single date, a range, or — when the
/// segment does not parse as a date — the raw text.
#[derive(Debug, Clone)]
pub enum DateToken {
    Single(CmpDate),
    Range(CmpDate, CmpDate),
    Literal(Vec<char>),
}

/// One token of a sort key.
#[derive(Debug, Clone)]
pub enum Token {
    Str(Vec<char>),
    Num(u32),
    CitationNumber(u32),
    Date(DateToken),
}

/// Ghost counterpart of `DateToken`.
pub enum SpecDateToken {
    Single(CmpDate),
    Range(CmpDate, CmpDate),
    Literal(Seq<char>),
}

/// Ghost counterpart of `Token`.
pub enum SpecToken {
    Str(Seq<char>),
    Num(int),
    CitationNumber(int),
    Date(SpecDateToken),
}

impl View for DateToken {
    type V = SpecDateToken;

    open spec fn view(&self) -> SpecDateToken {
        match self {
            DateToken::Single(d) => SpecDateToken::Single(*d),
            DateToken::Range(d, e) => SpecDateToken::Range(*d, *e),
            DateToken::Literal(v) => SpecDateToken::Literal(v@),
        }
    }
}

impl View for Token {
    type V = SpecToken;

    open spec fn view(&self) -> SpecToken {
        match self {
            Token::Str(v) => SpecToken::Str(v@),
            Token::Num(n) => SpecToken::Num(*n as int),
            Token::CitationNumber(n) => SpecToken::CitationNumber(*n as int),
            Token::Date(d) => SpecToken::Date(d@),
        }
    }
}

// ---------------------------------------------------------------------
// Character classes and digit runs
// ---------------------------------------------------------------------

/// A character that belongs to a plain-text token: anything that does not
/// open a date, number or citation-number segment.
pub open spec fn is_plain_char(c: char) -> bool {
    c != DATE_START && c != NUM_START && c != CITATION_NUM_START
}

/// An ASCII digit.
pub open spec fn is_digit_char(c: char) -> bool {
    48 <= c as u32 <= 57
}

/// Numeric value of an ASCII digit.
pub open spec fn digit_val(c: char) -> int {
    c as u32 - 48
}


/// Value of a string of ASCII digits, most significant first.
pub open spec fn digits_value(s: Seq<char>) -> int
    decreases s.len(),
{
    if s.len() == 0 {
        0
    } else {
        digits_value(s.drop_last()) * 10 + digit_val(s.last())
    }
}

/// Length of the longest prefix of plain-text characters.
pub open spec fn plain_run_len(s: Seq<char>) -> int
    decreases s.len(),
{
    if s.len() == 0 || !is_plain_char(s[0]) {
        0
    } else {
        1 + plain_run_len(s.skip(1))
    }
}

/// Length of the longest prefix of ASCII digits.
pub open spec fn digit_run_len(s: Seq<char>) -> int
    decreases s.len(),
{
    if s.len() == 0 || !is_digit_char(s[0]) {
        0
    } else {
        1 + digit_run_len(s.skip(1))
    }
}

/// Index of the first occurrence of `c` in `s`.
pub open spec fn find_char(s: Seq<char>, c: char) -> Option<int>
    decreases s.len(),
{
    if s.len() == 0 {
        Option::None
    } else if s[0] == c {
        Option::Some(0int)
    } else {
        match find_char(s.skip(1), c) {
            Option::Some(i) => Option::Some(i + 1),
            Option::None => Option::None,
        }
    }
}

proof fn lemma_plain_run_len_bounds(s: Seq<char>)
    ensures
        0 <= plain_run_len(s) <= s.len(),
        forall|i: int| 0 <= i < plain_run_len(s) ==> is_plain_char(s[i]),
        plain_run_len(s) < s.len() ==> !is_plain_char(s[plain_run_len(s)]),
    decreases s.len(),
{
    if s.len() > 0 && is_plain_char(s[0]) {
        lemma_plain_run_len_bounds(s.skip(1));
        assert forall|i: int| 0 <= i < plain_run_len(s) implies is_plain_char(s[i]) by {
            if i > 0 {
                assert(s.skip(1)[i - 1] == s[i]);
            }
        }
    }
}

proof fn lemma_digit_run_len_bounds(s: Seq<char>)
    ensures
        0 <= digit_run_len(s) <= s.len(),
        forall|i: int| 0 <= i < digit_run_len(s) ==> is_digit_char(s[i]),
        digit_run_len(s) < s.len() ==> !is_digit_char(s[digit_run_len(s)]),
    decreases s.len(),
{
    if s.len() > 0 && is_digit_char(s[0]) {
        lemma_digit_run_len_bounds(s.skip(1));
        assert forall|i: int| 0 <= i < digit_run_len(s) implies is_digit_char(s[i]) by {
            if i > 0 {
                assert(s.skip(1)[i - 1] == s[i]);
            }
        }
    }
}

proof fn lemma_find_char_bounds(s: Seq<char>, c: char)
    ensures
        match find_char(s, c) {
            Option::Some(i) => 0 <= i < s.len() && s[i] == c && forall|j: int|
                0 <= j < i ==> s[j] != c,
            Option::None => forall|j: int| 0 <= j < s.len() ==> s[j] != c,
        },
    decreases s.len(),
{
    if s.len() > 0 && s[0] != c {
        lemma_find_char_bounds(s.skip(1), c);
        match find_char(s.skip(1), c) {
            Option::Some(i) => {
                assert(s.skip(1)[i] == s[i + 1]);
                assert forall|j: int| 0 <= j < i + 1 implies s[j] != c by {
                    if j > 0 {
                        assert(s.skip(1)[j - 1] == s[j]);
                    }
                }
            },
            Option::None => {
                assert forall|j: int| 0 <= j < s.len() implies s[j] != c by {
                    if j > 0 {
                        assert(s.skip(1)[j - 1] == s[j]);
                    }
                }
            },
        }
    }
}

// ---------------------------------------------------------------------
// Date parsing (a small EDTF subset: [-]YYYY[-MM[-DD]], optionally
// followed by "/" and a second such date)
// ---------------------------------------------------------------------

/// Parse a single date at the front of `s`; returns the date and how many
/// characters it consumed.
pub open spec fn spec_parse_single_date(s: Seq<char>) -> Option<(CmpDate, int)> {
    let neg = s.len() > 0 && s[0] == '-';
    let body = if neg {
        s.skip(1)
    } else {
        s
    };
    if body.len() >= 4 && is_digit_char(body[0]) && is_digit_char(body[1]) && is_digit_char(
        body[2],
    ) && is_digit_char(body[3]) {
        let ymag = digits_value(body.take(4));
        let year = if neg {
            -ymag
        } else {
            ymag
        };
        let afterx = body.skip(4);
        let base: int = if neg {
            5
        } else {
            4
        };
        if afterx.len() >= 3 && afterx[0] == '-' && is_digit_char(afterx[1]) && is_digit_char(
            afterx[2],
        ) {
            let month = digits_value(afterx.subrange(1, 3));
            let aftery = afterx.skip(3);
            if aftery.len() >= 3 && aftery[0] == '-' && is_digit_char(aftery[1]) && is_digit_char(
                aftery[2],
            ) {
                let day = digits_value(aftery.subrange(1, 3));
                Option::Some(
                    (
                        CmpDate { year: year as i32, month: month as u8, day: day as u8 },
                        base + 6,
                    ),
                )
            } else {
                Option::Some((CmpDate { year: year as i32, month: month as u8, day: 0 }, base + 3))
            }
        } else {
            Option::Some((CmpDate { year: year as i32, month: 0, day: 0 }, base))
        }
    } else {
        Option::None
    }
}

/// Parse the full contents of a date segment: a single date or a range,
/// consuming everything; anything else is kept as literal text.
pub open spec fn spec_parse_date_content(s: Seq<char>) -> SpecDateToken {
    match spec_parse_single_date(s) {
        Option::Some((d1, n1)) => if n1 == s.len() {
            SpecDateToken::Single(d1)
        } else if n1 < s.len() && s[n1] == '/' {
            match spec_parse_single_date(s.skip(n1 + 1)) {
                Option::Some((d2, n2)) => if n1 + 1 + n2 == s.len() {
                    SpecDateToken::Range(d1, d2)
                } else {
                    SpecDateToken::Literal(s)
                },
                Option::None => SpecDateToken::Literal(s),
            }
        } else {
            SpecDateToken::Literal(s)
        },
        Option::None => SpecDateToken::Literal(s),
    }
}

// ---------------------------------------------------------------------
// Tokenization
// ---------------------------------------------------------------------

/// The next token of `s` and the number of characters it occupies, or
/// `None` when `s` is empty or no token can be read at its front.
pub open spec fn spec_next_token(s: Seq<char>) -> Option<(SpecToken, int)> {
    if s.len() == 0 {
        Option::None
    } else if is_plain_char(s[0]) {
        let n = plain_run_len(s);
        Option::Some((SpecToken::Str(s.take(n)), n))
    } else if s[0] == NUM_START || s[0] == CITATION_NUM_START {
        let rest = s.skip(1);
        let d = if digit_run_len(rest) > 8 {
            8
        } else {
            digit_run_len(rest)
        };
        let close = if s[0] == NUM_START {
            NUM_END
        } else {
            CITATION_NUM_END
        };
        if d >= 1 && d < rest.len() && rest[d] == close {
            let value = digits_value(rest.take(d));
            if s[0] == NUM_START {
                Option::Some((SpecToken::Num(value), d + 2))
            } else {
                Option::Some((SpecToken::CitationNumber(value), d + 2))
            }
        } else {
            Option::None
        }
    } else {
        // s[0] == DATE_START
        let rest = s.skip(1);
        match find_char(rest, DATE_END) {
            Option::Some(i) => Option::Some(
                (SpecToken::Date(spec_parse_date_content(rest.take(i))), i + 2),
            ),
            Option::None => Option::None,
        }
    }
}

/// Every token occupies at least one and at most all of the remaining
/// characters, so tokenization makes progress.
pub proof fn lemma_next_token_bounds(s: Seq<char>)
    ensures
        match spec_next_token(s) {
            Option::Some((t, n)) => 1 <= n <= s.len(),
            Option::None => true,
        },
{
    if s.len() > 0 {
        if is_plain_char(s[0]) {
            lemma_plain_run_len_bounds(s);
            assert(plain_run_len(s) >= 1);
        } else if s[0] == NUM_START || s[0] == CITATION_NUM_START {
            lemma_digit_run_len_bounds(s.skip(1));
        } else {
            lemma_find_char_bounds(s.skip(1), DATE_END);
        }
    }
}

// ---------------------------------------------------------------------
// Token comparison
// ---------------------------------------------------------------------

/// Primary comparison key of a plain character: uppercase ASCII letters
/// fold onto their lowercase forms.
pub open spec fn lower_key(c: char) -> int {
    if 65 <= c as u32 <= 90 {
        c as u32 + 32
    } else {
        c as u32 as int
    }
}

/// Lexicographic comparison of two character strings by the folded key.
pub open spec fn spec_ci_cmp(a: Seq<char>, b: Seq<char>) -> Ordering
    decreases a.len() + b.len(),
{
    if a.len() == 0 && b.len() == 0 {
        Ordering::Equal
    } else if a.len() == 0 {
        Ordering::Less
    } else if b.len() == 0 {
        Ordering::Greater
    } else if lower_key(a[0]) < lower_key(b[0]) {
        Ordering::Less
    } else if lower_key(a[0]) > lower_key(b[0]) {
        Ordering::Greater
    } else {
        spec_ci_cmp(a.skip(1), b.skip(1))
    }
}

/// Plain lexicographic comparison of two character strings by scalar
/// value; uppercase letters come first, which serves as the tie-break.
pub open spec fn spec_plain_cmp(a: Seq<char>, b: Seq<char>) -> Ordering
    decreases a.len() + b.len(),
{
    if a.len() == 0 && b.len() == 0 {
        Ordering::Equal
    } else if a.len() == 0 {
        Ordering::Less
    } else if b.len() == 0 {
        Ordering::Greater
    } else if (a[0] as u32) < (b[0] as u32) {
        Ordering::Less
    } else if (a[0] as u32) > (b[0] as u32) {
        Ordering::Greater
    } else {
        spec_plain_cmp(a.skip(1), b.skip(1))
    }
}

/// Natural comparison of plain text: case-insensitive primary,
/// case-sensitive tie-break.
pub open spec fn spec_str_cmp(a: Seq<char>, b: Seq<char>) -> Ordering {
    if spec_ci_cmp(a, b) != Ordering::Equal {
        spec_ci_cmp(a, b)
    } else {
        spec_plain_cmp(a, b)
    }
}

/// Comparison of two integers as an `Ordering`.
pub open spec fn spec_int_cmp(a: int, b: int) -> Ordering {
    if a < b {
        Ordering::Less
    } else if a > b {
        Ordering::Greater
    } else {
        Ordering::Equal
    }
}

/// Dates compare by year, then month, then day; missing parts are zero.
pub open spec fn spec_cmp_date(a: CmpDate, b: CmpDate) -> Ordering {
    if a.year != b.year {
        spec_int_cmp(a.year as int, b.year as int)
    } else if a.month != b.month {
        spec_int_cmp(a.month as int, b.month as int)
    } else {
        spec_int_cmp(a.day as int, b.day as int)
    }
}

/// Start and end keys of a date segment: a single date is its own end, so
/// a range sharing its start comes after the single date whenever the
/// range extends past it.
pub open spec fn date_start_of(d: SpecDateToken) -> CmpDate
    recommends
        !(d is Literal),
{
    match d {
        SpecDateToken::Single(a) => a,
        SpecDateToken::Range(a, _) => a,
        SpecDateToken::Literal(_) => CmpDate { year: 0, month: 0, day: 0 },
    }
}

/// End key of a date segment.
pub open spec fn date_end_of(d: SpecDateToken) -> CmpDate
    recommends
        !(d is Literal),
{
    match d {
        SpecDateToken::Single(a) => a,
        SpecDateToken::Range(_, b) => b,
        SpecDateToken::Literal(_) => CmpDate { year: 0, month: 0, day: 0 },
    }
}

/// Comparison of two date segments. Two parsed segments compare by start
/// then end; two literal segments compare as plain text; a parsed and a
/// literal segment are not comparable.
pub open spec fn spec_cmp_date_token(a: SpecDateToken, b: SpecDateToken) -> Option<Ordering> {
    match (a, b) {
        (SpecDateToken::Literal(x), SpecDateToken::Literal(y)) => Option::Some(
            spec_plain_cmp(x, y),
        ),
        (SpecDateToken::Literal(_), _) => Option::None,
        (_, SpecDateToken::Literal(_)) => Option::None,
        _ => {
            let s = spec_cmp_date(date_start_of(a), date_start_of(b));
            if s != Ordering::Equal {
                Option::Some(s)
            } else {
                Option::Some(spec_cmp_date(date_end_of(a), date_end_of(b)))
            }
        },
    }
}

/// Comparison of two tokens. Tokens of different kinds are not
/// comparable; citation numbers are never compared here because a key
/// that begins with one has already been compared by its extracted
/// citation number.
pub open spec fn spec_cmp_token(a: SpecToken, b: SpecToken) -> Option<Ordering> {
    match (a, b) {
        (SpecToken::Str(x), SpecToken::Str(y)) => Option::Some(spec_str_cmp(x, y)),
        (SpecToken::Num(x), SpecToken::Num(y)) => Option::Some(spec_int_cmp(x, y)),
        (SpecToken::Date(x), SpecToken::Date(y)) => spec_cmp_date_token(x, y),
        _ => Option::None,
    }
}

/// Token-by-token natural comparison: the first position at which the two
/// keys have comparable, unequal tokens decides; when either key runs out
/// of tokens the keys compare equal.
pub open spec fn spec_natural_cmp(a: Seq<char>, b: Seq<char>) -> Ordering
    decreases a.len(),
{
    match (spec_next_token(a), spec_next_token(b)) {
        (Option::Some((ta, na)), Option::Some((tb, nb))) => {
            if 1 <= na <= a.len() && 1 <= nb <= b.len() {
                match spec_cmp_token(ta, tb) {
                    Option::Some(c) => if c != Ordering::Equal {
                        c
                    } else {
                        spec_natural_cmp(a.skip(na), b.skip(nb))
                    },
                    Option::None => spec_natural_cmp(a.skip(na), b.skip(nb)),
                }
            } else {
                Ordering::Equal
            }
        },
        _ => Ordering::Equal,
    }
}

/// The citation number at the front of a sort key, if the key begins with
/// a citation-number segment.
pub open spec fn spec_extract_citation_number(s: Seq<char>) -> Option<int> {
    match spec_next_token(s) {
        Option::Some((SpecToken::CitationNumber(n), _)) => Option::Some(n),
        _ => Option::None,
    }
}

// ---------------------------------------------------------------------
// Executable code
// ---------------------------------------------------------------------

/// Collect the characters of a string slice.
pub fn str_chars(s: &str) -> (r: Vec<char>)
    ensures
        r@ == s@,
{
    let n = s.unicode_len();
    let mut r: Vec<char> = Vec::new();
    let mut i: usize = 0;
    while i < n
        invariant
            n == s@.len(),
            i <= n,
            r@ == s@.take(i as int),
        decreases n - i,
    {
        let c = s.get_char(i);
        r.push(c);
        i = i + 1;
        proof {
            assert(r@ =~= s@.take(i as int));
        }
    }
    proof {
        assert(r@ =~= s@);
    }
    r
}

/// Relies on `String`'s `FromIterator` over characters: collecting
/// yields exactly the given characters.
#[verifier::external_body]
pub(crate) fn chars_to_string(v: &Vec<char>) -> (r: String)
    ensures
        r@ == v@,
{
    v.iter().collect()
}

/// Copy of `v[from..to]`.
fn subvec(v: &Vec<char>, from: usize, to: usize) -> (r: Vec<char>)
    requires
        from <= to <= v@.len(),
    ensures
        r@ == v@.subrange(from as int, to as int),
{
    let mut r: Vec<char> = Vec::new();
    let mut i: usize = from;
    while i < to
        invariant
            from <= i <= to <= v@.len(),
            r@ == v@.subrange(from as int, i as int),
        decreases to - i,
    {
        r.push(v[i]);
        i = i + 1;
        proof {
            assert(r@ =~= v@.subrange(from as int, i as int));
        }
    }
    r
}

fn is_digit(c: char) -> (r: bool)
    ensures
        r == is_digit_char(c),
{
    let u = c as u32;
    48 <= u && u <= 57
}

/// Number of ASCII digits at `pos`, capped at 8: a number segment holds
/// at most eight digits.
fn take_8_digits(v: &Vec<char>, pos: usize) -> (r: usize)
    requires
        pos <= v@.len(),
    ensures
        r == if digit_run_len(v@.skip(pos as int)) > 8 {
            8int
        } else {
            digit_run_len(v@.skip(pos as int))
        },
        pos + r <= v@.len(),
{
    proof {
        lemma_digit_run_len_bounds(v@.skip(pos as int));
    }
    let ghost full = digit_run_len(v@.skip(pos as int));
    let mut i: usize = 0;
    while i < 8 && v.len() - pos > i && is_digit(v[pos + i])
        invariant
            pos <= v@.len(),
            i <= 8,
            full == digit_run_len(v@.skip(pos as int)),
            0 <= full <= v@.len() - pos,
            i <= full,
            pos + i <= v@.len(),
            digit_run_len(v@.skip((pos + i) as int)) == full - i,
        decreases 8 - i,
    {
        proof {
            let tail = v@.skip((pos + i) as int);
            assert(tail[0] == v@[(pos + i) as int]);
            assert(tail.skip(1) =~= v@.skip((pos + i + 1) as int));
            lemma_digit_run_len_bounds(tail.skip(1));
            assert(digit_run_len(tail) == 1 + digit_run_len(tail.skip(1)));
        }
        i = i + 1;
    }
    proof {
        if i < 8 {
            let tail = v@.skip((pos + i) as int);
            if pos + i < v@.len() {
                assert(tail[0] == v@[(pos + i) as int]);
            }
            assert(digit_run_len(tail) == 0);
        }
    }
    i
}

/// Value of the digits `v[pos..pos+count]`.
fn digits_to_u32(v: &Vec<char>, pos: usize, count: usize) -> (r: u32)
    requires
        pos + count <= v@.len(),
        count <= 9,
        forall|i: int| pos <= i < pos + count ==> is_digit_char(v@[i]),
    ensures
        r == digits_value(v@.subrange(pos as int, (pos + count) as int)),
{
    let n = v.len();
    let mut r: u32 = 0;
    let mut i: usize = 0;
    while i < count
        invariant
            n == v@.len(),
            pos + count <= v@.len(),
            count <= 9,
            i <= count,
            forall|j: int| pos <= j < pos + count ==> is_digit_char(v@[j]),
            r == digits_value(v@.subrange(pos as int, (pos + i) as int)),
            r <= 999999999,
        decreases count - i,
    {
        proof {
            lemma_digits_value_bound(v@.subrange(pos as int, (pos + i) as int));
            assert(forall|j: int|
                0 <= j < i ==> is_digit_char(
                    #[trigger] v@.subrange(pos as int, (pos + i) as int)[j],
                ));
        }
        let c = v[pos + i];
        proof {
            assert(is_digit_char(v@[(pos + i) as int]));
        }
        let d: u32 = (c as u32) - 48;
        assert(r <= 99999999) by {
            lemma_digits_value_digits(v@.subrange(pos as int, (pos + i) as int));
        }
        r = r * 10 + d;
        i = i + 1;
        proof {
            let sub = v@.subrange(pos as int, (pos + i) as int);
            assert(sub.drop_last() =~= v@.subrange(pos as int, (pos + i - 1) as int));
            assert(sub.last() == v@[pos + i - 1]);
        }
    }
    proof {
        assert(v@.subrange(pos as int, (pos + i) as int) =~= v@.subrange(
            pos as int,
            (pos + count) as int,
        ));
    }
    r
}

/// The value of a digit string is non-negative.
proof fn lemma_digits_value_bound(s: Seq<char>)
    requires
        forall|i: int| 0 <= i < s.len() ==> is_digit_char(s[i]),
    ensures
        digits_value(s) >= 0,
    decreases s.len(),
{
    if s.len() > 0 {
        assert(forall|i: int| 0 <= i < s.len() - 1 ==> is_digit_char(#[trigger] s.drop_last()[i]));
        lemma_digits_value_bound(s.drop_last());
    }
}

/// Ten to the `n`.
spec fn pow10(n: nat) -> int
    decreases n,
{
    if n == 0 {
        1
    } else {
        10 * pow10((n - 1) as nat)
    }
}

/// A digit string of length at most eight stays below ten to the eighth.
proof fn lemma_digits_value_digits(s: Seq<char>)
    requires
        forall|i: int| 0 <= i < s.len() ==> is_digit_char(s[i]),
        s.len() <= 8,
    ensures
        digits_value(s) < 100000000,
    decreases s.len(),
{
    lemma_digits_value_digits8(s, 8);
    assert(pow10(8) == 100000000) by {
        reveal_with_fuel(pow10, 9);
    }
}

/// A digit string of length at most `k` stays below ten to the `k`.
proof fn lemma_digits_value_digits8(s: Seq<char>, k: int)
    requires
        forall|i: int| 0 <= i < s.len() ==> is_digit_char(s[i]),
        0 <= s.len() <= k <= 9,
    ensures
        digits_value(s) < pow10(k as nat),
    decreases s.len(),
{
    lemma_pow10_positive(k as nat);
    if s.len() > 0 {
        assert(forall|i: int| 0 <= i < s.len() - 1 ==> is_digit_char(#[trigger] s.drop_last()[i]));
        lemma_digits_value_digits8(s.drop_last(), k - 1);
        let v = digits_value(s.drop_last());
        assert(pow10(k as nat) == 10 * pow10((k - 1) as nat));
        assert(v * 10 <= (pow10((k - 1) as nat) - 1) * 10) by (nonlinear_arith)
            requires
                v <= pow10((k - 1) as nat) - 1,
        ;
        assert(digit_val(s.last()) <= 9);
    }
}

/// Powers of ten are positive.
proof fn lemma_pow10_positive(n: nat)
    ensures
        pow10(n) >= 1,
    decreases n,
{
    if n > 0 {
        lemma_pow10_positive((n - 1) as nat);
    }
}

/// Parse an unsigned decimal, as the number and citation-number segments
/// hold it.
pub fn to_u32(s: &str) -> (r: u32)
    requires
        1 <= s@.len() <= 9,
        forall|i: int| 0 <= i < s@.len() ==> is_digit_char(s@[i]),
    ensures
        r == digits_value(s@),
{
    let v = str_chars(s);
    let r = digits_to_u32(&v, 0, v.len());
    proof {
        assert(v@.subrange(0, v@.len() as int) =~= s@);
    }
    r
}

/// Parse a single date at `pos` in the date-segment text.
fn parse_single_date(v: &Vec<char>, pos: usize) -> (r: Option<(CmpDate, usize)>)
    requires
        pos <= v@.len(),
    ensures
        match r {
            Option::Some((d, n)) => spec_parse_single_date(v@.skip(pos as int)) == Option::Some(
                (d, n as int),
            ) && pos + n <= v@.len() && n >= 1,
            Option::None => spec_parse_single_date(v@.skip(pos as int)) is None,
        },
{
    let ghost s = v@.skip(pos as int);
    let neg = pos < v.len() && v[pos] == '-';
    let bpos = if neg {
        pos + 1
    } else {
        pos
    };
    let ghost body = if neg {
        s.skip(1)
    } else {
        s
    };
    proof {
        assert(body =~= v@.skip(bpos as int));
        assert forall|i: int| 0 <= i < body.len() implies body[i] == v@[bpos + i] by {}
    }
    if v.len() - bpos >= 4 && is_digit(v[bpos]) && is_digit(v[bpos + 1]) && is_digit(v[bpos + 2])
        && is_digit(v[bpos + 3]) {
        let ymag = digits_to_u32(v, bpos, 4);
        proof {
            assert(v@.subrange(bpos as int, bpos + 4int) =~= body.take(4));
            lemma_digits_value_bound(body.take(4));
            lemma_digits_value_digits(body.take(4));
        }
        let year: i32 = if neg {
            -(ymag as i32)
        } else {
            ymag as i32
        };
        let ghost afterx = body.skip(4);
        proof {
            assert(afterx =~= v@.skip(bpos + 4int));
            assert forall|i: int| 0 <= i < afterx.len() implies afterx[i] == v@[bpos + 4 + i] by {}
        }
        if v.len() - bpos - 4 >= 3 && v[bpos + 4] == '-' && is_digit(v[bpos + 5]) && is_digit(
            v[bpos + 6],
        ) {
            let month = digits_to_u32(v, bpos + 5, 2);
            proof {
                assert(v@.subrange(bpos + 5int, bpos + 7int) =~= afterx.subrange(1, 3));
                lemma_digits_value_bound(afterx.subrange(1, 3));
                lemma_digits_value_digits(afterx.subrange(1, 3));
            }
            let ghost aftery = afterx.skip(3);
            proof {
                assert(aftery =~= v@.skip(bpos + 7int));
                assert forall|i: int| 0 <= i < aftery.len() implies aftery[i] == v@[bpos + 7
                    + i] by {}
            }
            if v.len() - bpos - 7 >= 3 && v[bpos + 7] == '-' && is_digit(v[bpos + 8]) && is_digit(
                v[bpos + 9],
            ) {
                let day = digits_to_u32(v, bpos + 8, 2);
                proof {
                    assert(v@.subrange(bpos + 8int, bpos + 10int) =~= aftery.subrange(1, 3));
                    lemma_digits_value_bound(aftery.subrange(1, 3));
                    lemma_digits_value_digits(aftery.subrange(1, 3));
                }
                let n: usize = if neg {
                    11
                } else {
                    10
                };
                Option::Some((CmpDate { year, month: month as u8, day: day as u8 }, n))
            } else {
                let n: usize = if neg {
                    8
                } else {
                    7
                };
                Option::Some((CmpDate { year, month: month as u8, day: 0 }, n))
            }
        } else {
            let n: usize = if neg {
                5
            } else {
                4
            };
            Option::Some((CmpDate { year, month: 0, day: 0 }, n))
        }
    } else {
        Option::None
    }
}

/// Parse the contents of a date segment.
fn parse_date_content(content: Vec<char>) -> (r: DateToken)
    ensures
        r@ == spec_parse_date_content(content@),
{
    match parse_single_date(&content, 0) {
        Option::Some((d1, n1)) => {
            proof {
                assert(content@.skip(0) =~= content@);
            }
            if n1 == content.len() {
                DateToken::Single(d1)
            } else if content[n1] == '/' {
                match parse_single_date(&content, n1 + 1) {
                    Option::Some((d2, n2)) => {
                        if n1 + 1 + n2 == content.len() {
                            DateToken::Range(d1, d2)
                        } else {
                            DateToken::Literal(content)
                        }
                    },
                    Option::None => DateToken::Literal(content),
                }
            } else {
                DateToken::Literal(content)
            }
        },
        Option::None => {
            proof {
                assert(content@.skip(0) =~= content@);
            }
            DateToken::Literal(content)
        },
    }
}

/// Read the token that starts at `pos`, returning it and the position
/// just past it.
pub fn next_token(v: &Vec<char>, pos: usize) -> (r: Option<(Token, usize)>)
    requires
        pos <= v@.len(),
    ensures
        match r {
            Option::Some((t, newpos)) => pos < newpos <= v@.len() && spec_next_token(
                v@.skip(pos as int),
            ) == Option::Some((t@, newpos - pos as int)),
            Option::None => spec_next_token(v@.skip(pos as int)) is None,
        },
{
    let ghost s = v@.skip(pos as int);
    proof {
        assert forall|i: int| 0 <= i < s.len() implies s[i] == v@[pos + i] by {}
    }
    if pos >= v.len() {
        return Option::None;
    }
    let c0 = v[pos];
    if !(c0 == DATE_START || c0 == NUM_START || c0 == CITATION_NUM_START) {
        // plain-text token
        proof {
            lemma_plain_run_len_bounds(s);
        }
        let mut i: usize = pos;
        loop
            invariant
                pos <= i <= v@.len(),
                s == v@.skip(pos as int),
                i - pos <= plain_run_len(s),
                forall|j: int| pos <= j < i ==> is_plain_char(v@[j]),
                plain_run_len(v@.skip(i as int)) == plain_run_len(s) - (i - pos),
                0 <= plain_run_len(s) <= s.len(),
            ensures
                i - pos == plain_run_len(s),
            decreases v@.len() - i,
        {
            if i < v.len() {
                let c = v[i];
                if c == DATE_START || c == NUM_START || c == CITATION_NUM_START {
                    proof {
                        assert(v@.skip(i as int)[0] == v@[i as int]);
                    }
                    break ;
                }
                proof {
                    let tail = v@.skip(i as int);
                    assert(tail[0] == v@[i as int]);
                    assert(tail.skip(1) =~= v@.skip(i + 1));
                    lemma_plain_run_len_bounds(tail.skip(1));
                    assert(plain_run_len(tail) == 1 + plain_run_len(tail.skip(1)));
                }
                i = i + 1;
            } else {
                break ;
            }
        }
        let run = subvec(v, pos, i);
        proof {
            assert(run@ =~= s.take(plain_run_len(s)));
        }
        return Option::Some((Token::Str(run), i));
    }
    if c0 == NUM_START || c0 == CITATION_NUM_START {
        let ghost rest = s.skip(1);
        proof {
            assert(rest =~= v@.skip(pos + 1int));
            assert forall|i: int| 0 <= i < rest.len() implies rest[i] == v@[pos + 1 + i] by {}
        }
        let d = take_8_digits(v, pos + 1);
        let close = if c0 == NUM_START {
            NUM_END
        } else {
            CITATION_NUM_END
        };
        if d >= 1 && pos + 1 + d < v.len() && v[pos + 1 + d] == close {
            proof {
                lemma_digit_run_len_bounds(rest);
                assert(v@.subrange(pos + 1int, pos + 1 + d as int) =~= rest.take(d as int));
                assert forall|j: int| pos + 1 <= j < pos + 1 + d implies is_digit_char(
                    v@[j],
                ) by {
                    assert(rest[j - pos - 1] == v@[j]);
                    assert(is_digit_char(rest[j - pos - 1]));
                }
            }
            let value = digits_to_u32(v, pos + 1, d);
            if c0 == NUM_START {
                return Option::Some((Token::Num(value), pos + d + 2));
            } else {
                return Option::Some((Token::CitationNumber(value), pos + d + 2));
            }
        } else {
            return Option::None;
        }
    }
    // c0 == DATE_START: scan for the closing delimiter
    let ghost rest = s.skip(1);
    proof {
        assert(rest =~= v@.skip(pos + 1int));
        assert forall|i: int| 0 <= i < rest.len() implies rest[i] == v@[pos + 1 + i] by {}
        lemma_find_char_bounds(rest, DATE_END);
    }
    let mut i: usize = pos + 1;
    loop
        invariant
            pos + 1 <= i <= v@.len(),
            rest == v@.skip(pos + 1int),
            forall|j: int| pos + 1 <= j < i ==> v@[j] != DATE_END,
        ensures
            (i < v@.len() && v@[i as int] == DATE_END && forall|j: int|
                pos + 1 <= j < i ==> v@[j] != DATE_END) || (i == v@.len() && forall|j: int|
                pos + 1 <= j < i ==> v@[j] != DATE_END),
        decreases v@.len() - i,
    {
        if i < v.len() {
            if v[i] == DATE_END {
                break ;
            }
            i = i + 1;
        } else {
            break ;
        }
    }
    if i >= v.len() {
        proof {
            if find_char(rest, DATE_END) is Some {
                let k = find_char(rest, DATE_END).unwrap();
                assert(rest[k] == v@[pos + 1 + k]);
            }
        }
        return Option::None;
    }
    proof {
        let fc = find_char(rest, DATE_END);
        if fc is None {
            assert(rest[i - pos - 1] == v@[i as int]);
            assert(false);
        }
        let k = fc.unwrap();
        assert(rest[k] == v@[pos + 1 + k]);
        if k < i - pos - 1 {
            assert(false);
        }
        if k > i - pos - 1 {
            assert(rest[i - pos - 1] == v@[i as int]);
            assert(false);
        }
        assert(k == i - pos - 1);
    }
    let content = subvec(v, pos + 1, i);
    proof {
        assert(content@ =~= rest.take(i - pos - 1));
    }
    let date = parse_date_content(content);
    Option::Some((Token::Date(date), i + 1))
}

fn cmp_chars_ci(a: &Vec<char>, b: &Vec<char>) -> (r: Ordering)
    ensures
        r == spec_ci_cmp(a@, b@),
{
    proof {
        assert(a@.skip(0) =~= a@);
        assert(b@.skip(0) =~= b@);
    }
    let mut i: usize = 0;
    loop
        invariant
            i <= a@.len(),
            i <= b@.len(),
            spec_ci_cmp(a@, b@) == spec_ci_cmp(a@.skip(i as int), b@.skip(i as int)),
        ensures
            spec_ci_cmp(a@, b@) == spec_ci_cmp(a@.skip(i as int), b@.skip(i as int)),
            i == a@.len() || i == b@.len() || lower_key(a@[i as int]) != lower_key(b@[i as int]),
        decreases a@.len() - i,
    {
        if i == a.len() || i == b.len() {
            break ;
        }
        let ca = a[i];
        let cb = b[i];
        let cau = ca as u32;
        let cbu = cb as u32;
        let ka: u32 = if 65 <= cau && cau <= 90 {
            cau + 32
        } else {
            cau
        };
        let kb: u32 = if 65 <= cbu && cbu <= 90 {
            cbu + 32
        } else {
            cbu
        };
        proof {
            assert(a@.skip(i as int)[0] == a@[i as int]);
            assert(b@.skip(i as int)[0] == b@[i as int]);
            assert(ka == lower_key(a@[i as int]));
            assert(kb == lower_key(b@[i as int]));
        }
        if ka != kb {
            break ;
        }
        proof {
            assert(a@.skip(i as int).skip(1) =~= a@.skip(i + 1));
            assert(b@.skip(i as int).skip(1) =~= b@.skip(i + 1));
        }
        i = i + 1;
    }
    let ghost sa = a@.skip(i as int);
    let ghost sb = b@.skip(i as int);
    if i == a.len() && i == b.len() {
        proof {
            assert(sa.len() == 0 && sb.len() == 0);
        }
        Ordering::Equal
    } else if i == a.len() {
        proof {
            assert(sa.len() == 0 && sb.len() > 0);
        }
        Ordering::Less
    } else if i == b.len() {
        Ordering::Greater
    } else {
        let ca = a[i];
        let cb = b[i];
        let cau = ca as u32;
        let cbu = cb as u32;
        let ka: u32 = if 65 <= cau && cau <= 90 {
            cau + 32
        } else {
            cau
        };
        let kb: u32 = if 65 <= cbu && cbu <= 90 {
            cbu + 32
        } else {
            cbu
        };
        proof {
            assert(sa[0] == a@[i as int]);
            assert(sb[0] == b@[i as int]);
            assert(ka == lower_key(a@[i as int]));
            assert(kb == lower_key(b@[i as int]));
        }
        if ka < kb {
            Ordering::Less
        } else {
            Ordering::Greater
        }
    }
}

fn cmp_chars_plain(a: &Vec<char>, b: &Vec<char>) -> (r: Ordering)
    ensures
        r == spec_plain_cmp(a@, b@),
{
    proof {
        assert(a@.skip(0) =~= a@);
        assert(b@.skip(0) =~= b@);
    }
    let mut i: usize = 0;
    loop
        invariant
            i <= a@.len(),
            i <= b@.len(),
            spec_plain_cmp(a@, b@) == spec_plain_cmp(a@.skip(i as int), b@.skip(i as int)),
        ensures
            spec_plain_cmp(a@, b@) == spec_plain_cmp(a@.skip(i as int), b@.skip(i as int)),
            i == a@.len() || i == b@.len() || (a@[i as int] as u32) != (b@[i as int] as u32),
        decreases a@.len() - i,
    {
        if i == a.len() || i == b.len() {
            break ;
        }
        let cau = a[i] as u32;
        let cbu = b[i] as u32;
        proof {
            assert(a@.skip(i as int)[0] == a@[i as int]);
            assert(b@.skip(i as int)[0] == b@[i as int]);
        }
        if cau != cbu {
            break ;
        }
        proof {
            assert(a@.skip(i as int).skip(1) =~= a@.skip(i + 1));
            assert(b@.skip(i as int).skip(1) =~= b@.skip(i + 1));
        }
        i = i + 1;
    }
    let ghost sa = a@.skip(i as int);
    let ghost sb = b@.skip(i as int);
    if i == a.len() && i == b.len() {
        Ordering::Equal
    } else if i == a.len() {
        proof {
            assert(sa.len() == 0 && sb.len() > 0);
        }
        Ordering::Less
    } else if i == b.len() {
        Ordering::Greater
    } else {
        let cau = a[i] as u32;
        let cbu = b[i] as u32;
        proof {
            assert(sa[0] == a@[i as int]);
            assert(sb[0] == b@[i as int]);
        }
        if cau < cbu {
            Ordering::Less
        } else {
            Ordering::Greater
        }
    }
}

fn cmp_u32(a: u32, b: u32) -> (r: Ordering)
    ensures
        r == spec_int_cmp(a as int, b as int),
{
    if a < b {
        Ordering::Less
    } else if a > b {
        Ordering::Greater
    } else {
        Ordering::Equal
    }
}

fn cmp_i32(a: i32, b: i32) -> (r: Ordering)
    ensures
        r == spec_int_cmp(a as int, b as int),
{
    if a < b {
        Ordering::Less
    } else if a > b {
        Ordering::Greater
    } else {
        Ordering::Equal
    }
}

/// Compare two dates by year, month, day.
pub fn cmp_date(a: &CmpDate, b: &CmpDate) -> (r: Ordering)
    ensures
        r == spec_cmp_date(*a, *b),
{
    if a.year != b.year {
        cmp_i32(a.year, b.year)
    } else if a.month != b.month {
        cmp_u32(a.month as u32, b.month as u32)
    } else {
        cmp_u32(a.day as u32, b.day as u32)
    }
}

fn date_start_end(d: &DateToken) -> (r: (CmpDate, CmpDate))
    requires
        !(d@ is Literal),
    ensures
        r.0 == date_start_of(d@),
        r.1 == date_end_of(d@),
{
    match d {
        DateToken::Single(a) => (*a, *a),
        DateToken::Range(a, b) => (*a, *b),
        DateToken::Literal(_) => (
            CmpDate { year: 0, month: 0, day: 0 },
            CmpDate { year: 0, month: 0, day: 0 },
        ),
    }
}

fn cmp_date_token(a: &DateToken, b: &DateToken) -> (r: Option<Ordering>)
    ensures
        r == spec_cmp_date_token(a@, b@),
{
    match (a, b) {
        (DateToken::Literal(x), DateToken::Literal(y)) => Option::Some(cmp_chars_plain(x, y)),
        (DateToken::Literal(_), _) => Option::None,
        (_, DateToken::Literal(_)) => Option::None,
        _ => {
            let (sa, ea) = date_start_end(a);
            let (sb, eb) = date_start_end(b);
            let s = cmp_date(&sa, &sb);
            if !matches!(s, Ordering::Equal) {
                Option::Some(s)
            } else {
                Option::Some(cmp_date(&ea, &eb))
            }
        },
    }
}

/// Compare two tokens; `None` when their kinds do not match or both are
/// citation numbers.
pub fn cmp_token(a: &Token, b: &Token) -> (r: Option<Ordering>)
    ensures
        r == spec_cmp_token(a@, b@),
{
    match (a, b) {
        (Token::Str(x), Token::Str(y)) => {
            let ci = cmp_chars_ci(x, y);
            if !matches!(ci, Ordering::Equal) {
                Option::Some(ci)
            } else {
                Option::Some(cmp_chars_plain(x, y))
            }
        },
        (Token::Num(x), Token::Num(y)) => Option::Some(cmp_u32(*x, *y)),
        (Token::Date(x), Token::Date(y)) => cmp_date_token(x, y),
        _ => Option::None,
    }
}

/// Natural comparison of two sort keys.
pub fn natural_cmp(a: &str, b: &str) -> (r: Ordering)
    ensures
        r == spec_natural_cmp(a@, b@),
{
    let av = str_chars(a);
    let bv = str_chars(b);
    natural_cmp_chars(&av, &bv)
}

/// Natural comparison over already-collected characters.
pub fn natural_cmp_chars(a: &Vec<char>, b: &Vec<char>) -> (r: Ordering)
    ensures
        r == spec_natural_cmp(a@, b@),
{
    proof {
        assert(a@.skip(0) =~= a@);
        assert(b@.skip(0) =~= b@);
    }
    let mut pa: usize = 0;
    let mut pb: usize = 0;
    loop
        invariant
            pa <= a@.len(),
            pb <= b@.len(),
            spec_natural_cmp(a@, b@) == spec_natural_cmp(a@.skip(pa as int), b@.skip(pb as int)),
        decreases a@.len() - pa,
    {
        let ta = next_token(a, pa);
        let tb = next_token(b, pb);
        match (ta, tb) {
            (Option::Some((ta, na)), Option::Some((tb, nb))) => {
                let c = cmp_token(&ta, &tb);
                proof {
                    assert(a@.skip(pa as int).skip(na - pa as int) =~= a@.skip(na as int));
                    assert(b@.skip(pb as int).skip(nb - pb as int) =~= b@.skip(nb as int));
                }
                match c {
                    Option::Some(c) => {
                        if !matches!(c, Ordering::Equal) {
                            return c;
                        }
                        pa = na;
                        pb = nb;
                    },
                    Option::None => {
                        pa = na;
                        pb = nb;
                    },
                }
            },
            _ => {
                return Ordering::Equal;
            },
        }
    }
}

/// The citation number encoded at the front of a sort key, if any.
pub fn extract_citation_number(s: &str) -> (r: Option<u32>)
    ensures
        match r {
            Option::Some(n) => spec_extract_citation_number(s@) == Option::Some(n as int),
            Option::None => spec_extract_citation_number(s@) is None,
        },
{
    let v = str_chars(s);
    proof {
        assert(v@.skip(0) =~= v@);
    }
    match next_token(&v, 0) {
        Option::Some((Token::CitationNumber(n), _)) => Option::Some(n),
        _ => Option::None,
    }
}

/// Characters that cast to the same scalar value are the same
/// character.
pub proof fn lemma_char_u32_eq(a: char, b: char)
    requires
        a as u32 == b as u32,
    ensures
        a == b,
{
    vstd::utf8::char_u32_cast(a, a as u32);
    vstd::utf8::char_u32_cast(b, b as u32);
}

/// A non-empty sort key, ordered by natural comparison.
#[derive(Debug)]
pub struct NaturalCmp(pub String);

impl NaturalCmp {
    /// Wrap a sort key; an empty key has no order and is rejected.
    pub fn new(s: String) -> (r: Option<Self>)
        ensures
            match r {
                Option::Some(n) => s@.len() > 0 && n.0@ == s@,
                Option::None => s@.len() == 0,
            },
    {
        if s.as_str().unicode_len() == 0 {
            Option::None
        } else {
            Option::Some(NaturalCmp(s))
        }
    }

    /// Natural comparison of the wrapped keys.
    pub fn compare(&self, other: &Self) -> (r: Ordering)
        ensures
            r == spec_natural_cmp(self.0@, other.0@),
    {
        natural_cmp(self.0.as_str(), other.0.as_str())
    }
}

impl PartialEq for NaturalCmp {
    /// Keys are equal when their text is.
    fn eq(&self, other: &Self) -> (r: bool) {
        self.0.eq(&other.0)
    }
}

impl vstd::std_specs::cmp::PartialEqSpecImpl for NaturalCmp {
    open spec fn obeys_eq_spec() -> bool {
        true
    }

    open spec fn eq_spec(&self, other: &Self) -> bool {
        self.0@ == other.0@
    }
}

impl PartialOrd for NaturalCmp {
    /// Keys are ordered by natural comparison.
    fn partial_cmp(&self, other: &Self) -> (r: Option<Ordering>) {
        Option::Some(natural_cmp(self.0.as_str(), other.0.as_str()))
    }
}

impl vstd::std_specs::cmp::PartialOrdSpecImpl for NaturalCmp {
    open spec fn obeys_partial_cmp_spec() -> bool {
        true
    }

    open spec fn partial_cmp_spec(&self, other: &Self) -> Option<Ordering> {
        Option::Some(spec_natural_cmp(self.0@, other.0@))
    }
}

} // verus!

