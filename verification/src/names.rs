//! Person names and particle parsing.
//!
//! A person name arrives with its particles possibly embedded in the
//! `family` or `given` text ("van der Vlist", "Givenname d'"). Unless
//! the input already supplied a non-dropping particle, a dropping
//! particle or a suffix, or asked for its particles to be left alone,
//! parsing extracts them into their dedicated fields: leading lowercase
//! particles of the family name become the non-dropping particle,
//! trailing lowercase particles of the given name become the dropping
//! particle, and a comma in the given name splits off a suffix.
//! Apostrophes in the parsed fields are normalized to U+2019.

use vstd::prelude::*;
use vstd::string::*;
use crate::natural_sort::{chars_to_string, str_chars};

verus! {

/// The parts of a personal name.
#[derive(Default, Debug, Eq, PartialEq, Hash, Clone)]
pub struct PersonName {
    pub family: Option<String>,
    pub given: Option<String>,
    pub non_dropping_particle: Option<String>,
    pub dropping_particle: Option<String>,
    pub suffix: Option<String>,
    pub static_particles: bool,
    pub comma_suffix: bool,
}

/// A name in a reference: either a parsed personal name or a literal
/// (an institution, say) rendered as-is.
#[derive(Debug, Eq, PartialEq, Hash, Clone)]
pub enum Name {
    Literal { literal: String },
    Person(PersonName),
}

/// Ghost image of a `PersonName`.
pub struct PersonNameView {
    pub family: Option<Seq<char>>,
    pub given: Option<Seq<char>>,
    pub non_dropping_particle: Option<Seq<char>>,
    pub dropping_particle: Option<Seq<char>>,
    pub suffix: Option<Seq<char>>,
    pub static_particles: bool,
    pub comma_suffix: bool,
}

/// View of an optional string.
pub open spec fn opt_view(s: Option<String>) -> Option<Seq<char>> {
    match s {
        Option::Some(x) => Option::Some(x@),
        Option::None => Option::None,
    }
}

impl View for PersonName {
    type V = PersonNameView;

    open spec fn view(&self) -> PersonNameView {
        PersonNameView {
            family: opt_view(self.family),
            given: opt_view(self.given),
            non_dropping_particle: opt_view(self.non_dropping_particle),
            dropping_particle: opt_view(self.dropping_particle),
            suffix: opt_view(self.suffix),
            static_particles: self.static_particles,
            comma_suffix: self.comma_suffix,
        }
    }
}

// ---------------------------------------------------------------------
// Trusted view of the outside helpers
// ---------------------------------------------------------------------

/// Whether a character counts as whitespace, as `char::is_whitespace`
/// answers it.
pub uninterp spec fn is_whitespace_char(c: char) -> bool;

/// Whether a character is lowercase, as `char::is_lowercase` answers it.
pub uninterp spec fn is_lowercase_char(c: char) -> bool;

/// Length in characters of the leading family-particle match, if the
/// family-particle pattern matches at the start of the text.
pub uninterp spec fn family_particle_len(s: Seq<char>) -> Option<int>;

/// Length in characters of the leading given-particle match on the
/// reversed given name, if the given-particle pattern matches there.
pub uninterp spec fn given_particle_len(s: Seq<char>) -> Option<int>;

/// Character range of the first comma-with-surrounding-space match in a
/// given name, if there is one.
pub uninterp spec fn comma_match_range(s: Seq<char>) -> Option<(int, int)>;

/// Relies on `char::is_whitespace`: the result depends on the character
/// alone; a plain space is whitespace.
#[verifier::external_body]
fn char_is_whitespace(c: char) -> (r: bool)
    ensures
        r == is_whitespace_char(c),
        c == ' ' ==> r,
{
    c.is_whitespace()
}

/// Relies on `char::is_lowercase`: the result depends on the character
/// alone.
#[verifier::external_body]
fn char_is_lowercase(c: char) -> (r: bool)
    ensures
        r == is_lowercase_char(c),
{
    c.is_lowercase()
}

/// Relies on `regex::Regex::find` with the anchored family-particle
/// pattern (one or more non-space characters followed by a hyphen, an
/// apostrophe-like mark or whitespace, then optional whitespace): a
/// match is a non-empty prefix of the text, and the same text always
/// matches the same way.
#[verifier::external_body]
fn find_family_particle(s: &Vec<char>) -> (r: Option<usize>)
    ensures
        match r {
            Option::Some(n) => 1 <= n <= s@.len() && family_particle_len(s@) == Option::Some(
                n as int,
            ),
            Option::None => family_particle_len(s@) is None,
        },
{
    let text: String = s.iter().collect();
    let re = regex::Regex::new("^\\S+(?:\\-|\u{02bb}|\u{2019}|\\s|\')\\s*").unwrap();
    re.find(&text).map(|m| text[..m.end()].chars().count())
}

/// Relies on `regex::Regex::find` with the anchored given-particle
/// pattern (an optional apostrophe-like mark or space, one or more
/// non-space characters, then optional whitespace), applied to the
/// reversed given name: a match is a non-empty prefix of the text, and
/// the same text always matches the same way.
#[verifier::external_body]
fn find_given_particle(s: &Vec<char>) -> (r: Option<usize>)
    ensures
        match r {
            Option::Some(n) => 1 <= n <= s@.len() && given_particle_len(s@) == Option::Some(
                n as int,
            ),
            Option::None => given_particle_len(s@) is None,
        },
{
    let text: String = s.iter().collect();
    let re = regex::Regex::new("^(?:\u{02bb}\\s|\u{2019}\\s|\\s|'\\s)?\\S+\\s*").unwrap();
    re.find(&text).map(|m| text[..m.end()].chars().count())
}

/// Relies on `regex::Regex::find` with the comma pattern (optional
/// whitespace, a comma, an optional exclamation mark, optional
/// whitespace): the match contains the comma, so it is non-empty and
/// lies within the text; `find` returns the leftmost match, and a
/// comma anywhere starts a match by itself, so no comma occurs before
/// the match begins; the same text always matches the same way.
#[verifier::external_body]
fn find_comma(s: &Vec<char>) -> (r: Option<(usize, usize)>)
    ensures
        match r {
            Option::Some((a, b)) => 0 <= a < b <= s@.len() && comma_match_range(s@)
                == Option::Some((a as int, b as int)) && forall|k: int|
                0 <= k < a ==> s@[k] != ',',
            Option::None => comma_match_range(s@) is None,
        },
{
    let text: String = s.iter().collect();
    let re = regex::Regex::new("\\s*,!?\\s*").unwrap();
    re.find(&text).map(
        |m| (text[..m.start()].chars().count(), text[..m.end()].chars().count()),
    )
}

// ---------------------------------------------------------------------
// Specification of the parse
// ---------------------------------------------------------------------

/// Apostrophe normalization: every ASCII apostrophe becomes U+2019.
pub open spec fn replace_apos(s: Seq<char>) -> Seq<char> {
    s.map_values(|c: char| if c == '\'' { '\u{2019}' } else { c })
}

/// A character that is skipped when looking for the first letter of a
/// particle: whitespace and apostrophe-like marks.
pub open spec fn is_particle_filler(c: char) -> bool {
    is_whitespace_char(c) || c == '-' || c == '\'' || c == '\u{02bb}' || c == '\u{2019}'
}

/// The first character of a candidate particle that is not whitespace or
/// an apostrophe-like mark.
pub open spec fn first_relevant_char(s: Seq<char>) -> Option<char>
    decreases s.len(),
{
    if s.len() == 0 {
        Option::None
    } else if is_particle_filler(s[0]) {
        first_relevant_char(s.skip(1))
    } else {
        Option::Some(s[0])
    }
}

/// A candidate particle counts only when its first relevant character is
/// lowercase; an uppercase word ends the particle scan.
pub open spec fn lowercase_led(p: Seq<char>) -> bool {
    match first_relevant_char(p) {
        Option::Some(c) => is_lowercase_char(c),
        Option::None => false,
    }
}

/// Number of characters eaten off the front of a family name by
/// repeatedly taking lowercase-led particle matches.
pub open spec fn family_eaten(s: Seq<char>) -> int
    decreases s.len(),
{
    match family_particle_len(s) {
        Option::Some(n) => if 1 <= n <= s.len() && lowercase_led(s.take(n)) {
            n + family_eaten(s.skip(n))
        } else {
            0
        },
        Option::None => 0,
    }
}

/// Number of characters eaten off the front of a reversed given name by
/// repeatedly taking particle matches whose reversal is lowercase-led.
pub open spec fn given_eaten(s: Seq<char>) -> int
    decreases s.len(),
{
    match given_particle_len(s) {
        Option::Some(n) => if 1 <= n <= s.len() && lowercase_led(s.take(n).reverse()) {
            n + given_eaten(s.skip(n))
        } else {
            0
        },
        Option::None => 0,
    }
}

/// What is eaten stays within the string.
pub proof fn lemma_family_eaten_bounds(s: Seq<char>)
    ensures
        0 <= family_eaten(s) <= s.len(),
    decreases s.len(),
{
    match family_particle_len(s) {
        Option::Some(n) => {
            if 1 <= n <= s.len() && lowercase_led(s.take(n)) {
                lemma_family_eaten_bounds(s.skip(n));
            }
        },
        Option::None => {},
    }
}

/// What is eaten stays within the string.
pub proof fn lemma_given_eaten_bounds(s: Seq<char>)
    ensures
        0 <= given_eaten(s) <= s.len(),
    decreases s.len(),
{
    match given_particle_len(s) {
        Option::Some(n) => {
            if 1 <= n <= s.len() && lowercase_led(s.take(n).reverse()) {
                lemma_given_eaten_bounds(s.skip(n));
            }
        },
        Option::None => {},
    }
}

/// Leading whitespace removed.
pub open spec fn trim_start_spec(s: Seq<char>) -> Seq<char>
    decreases s.len(),
{
    if s.len() > 0 && is_whitespace_char(s[0]) {
        trim_start_spec(s.skip(1))
    } else {
        s
    }
}

/// Trailing whitespace removed.
pub open spec fn trim_end_spec(s: Seq<char>) -> Seq<char>
    decreases s.len(),
{
    if s.len() > 0 && is_whitespace_char(s.last()) {
        trim_end_spec(s.drop_last())
    } else {
        s
    }
}

/// Whitespace removed from both ends.
pub open spec fn trim_spec(s: Seq<char>) -> Seq<char> {
    trim_end_spec(trim_start_spec(s))
}

/// What `trim_last` leaves: the trimmed string, except that a particle
/// that ended in an apostrophe-like mark followed by a space keeps one
/// trailing space.
pub open spec fn trim_last_spec(s: Seq<char>) -> Seq<char> {
    let t = trim_spec(s);
    if t.len() == 0 {
        t
    } else if s.len() > 0 && s.last() == ' ' && (t.last() == '\'' || t.last() == '\u{2019}') {
        t.push(' ')
    } else {
        t
    }
}

/// The literal suffix "et al".
pub open spec fn et_al_seq() -> Seq<char> {
    seq!['e', 't', ' ', 'a', 'l']
}

/// The literal suffix "et al.".
pub open spec fn et_al_dot_seq() -> Seq<char> {
    seq!['e', 't', ' ', 'a', 'l', '.']
}

/// What suffix parsing yields on a given name: the text after the first
/// comma becomes the suffix (with a comma-with-bang forcing a comma
/// before the suffix when rendered), and the given name is cut at the
/// comma. An "et al" suffix is left alone.
pub open spec fn parse_suffix_spec(g: Seq<char>, has_dropping_particle: bool) -> Option<
    (Seq<char>, bool, Seq<char>),
> {
    match comma_match_range(g) {
        Option::Some((a, b)) => if 0 <= a < b <= g.len() {
            let suf = g.skip(b);
            if (suf == et_al_seq() || suf == et_al_dot_seq()) && !has_dropping_particle {
                Option::None
            } else {
                Option::Some((suf, trim_spec(g.subrange(a, b)).len() == 2, g.take(a)))
            }
        } else {
            Option::None
        },
        Option::None => Option::None,
    }
}

/// What particle splitting yields on a family name: the eaten prefix
/// (trimmed, with a particle-final apostrophe keeping its space) becomes
/// the non-dropping particle and the rest stays the family name.
pub open spec fn family_split_spec(f: Seq<char>) -> (Option<Seq<char>>, Seq<char>) {
    let e = family_eaten(f);
    if e > 0 {
        (
            Option::Some(replace_apos(trim_last_spec(f.take(e)))),
            replace_apos(f.skip(e)),
        )
    } else {
        (Option::None, replace_apos(f))
    }
}

/// What particle splitting yields on a given name: the eaten tail
/// (trimmed) becomes the dropping particle and the rest stays the given
/// name.
pub open spec fn given_split_spec(g: Seq<char>) -> (Option<Seq<char>>, Seq<char>) {
    let e = given_eaten(g.reverse());
    if e > 0 {
        (
            Option::Some(replace_apos(trim_spec(g.skip(g.len() - e)))),
            replace_apos(g.take(g.len() - e)),
        )
    } else {
        (Option::None, replace_apos(g))
    }
}

/// Replace apostrophes inside an optional field.
pub open spec fn opt_replace(s: Option<Seq<char>>) -> Option<Seq<char>> {
    match s {
        Option::Some(x) => Option::Some(replace_apos(x)),
        Option::None => Option::None,
    }
}

/// The whole of particle parsing, as a function of the incoming name.
/// When any particle field or the suffix was pre-supplied, or static
/// particles were requested, nothing is parsed and only apostrophes are
/// normalized; otherwise the family gives up its leading particles, the
/// given name gives up a suffix and its trailing particles.
pub open spec fn pn_parsed(p: PersonNameView) -> PersonNameView {
    if p.static_particles || p.non_dropping_particle is Some || p.dropping_particle is Some
        || p.suffix is Some {
        PersonNameView {
            family: opt_replace(p.family),
            given: opt_replace(p.given),
            non_dropping_particle: opt_replace(p.non_dropping_particle),
            dropping_particle: opt_replace(p.dropping_particle),
            ..p
        }
    } else {
        let fr = match p.family {
            Option::Some(f) => {
                let r = family_split_spec(f);
                (r.0, Option::Some(r.1))
            },
            Option::None => (Option::None, Option::None),
        };
        let sr = match p.given {
            Option::Some(g) => {
                match parse_suffix_spec(g, false) {
                    Option::Some((suf, fc, rest)) => (Option::Some(suf), fc, Option::Some(rest)),
                    Option::None => (Option::None, p.comma_suffix, Option::Some(g)),
                }
            },
            Option::None => (Option::None, p.comma_suffix, Option::None),
        };
        let gr = match sr.2 {
            Option::Some(g1) => {
                let r = given_split_spec(g1);
                (r.0, Option::Some(r.1))
            },
            Option::None => (Option::None, Option::None),
        };
        PersonNameView {
            family: fr.1,
            given: gr.1,
            non_dropping_particle: fr.0,
            dropping_particle: gr.0,
            suffix: sr.0,
            static_particles: p.static_particles,
            comma_suffix: sr.1,
        }
    }
}

// ---------------------------------------------------------------------
// Executable helpers
// ---------------------------------------------------------------------

/// Apostrophe normalization over collected characters.
fn replace_apos_chars(v: &Vec<char>) -> (r: Vec<char>)
    ensures
        r@ == replace_apos(v@),
{
    let mut r: Vec<char> = Vec::new();
    let mut i: usize = 0;
    while i < v.len()
        invariant
            i <= v@.len(),
            r@ == replace_apos(v@.take(i as int)),
        decreases v@.len() - i,
    {
        let c = v[i];
        if c == '\'' {
            r.push('\u{2019}');
        } else {
            r.push(c);
        }
        i = i + 1;
        proof {
            assert(r@ =~= replace_apos(v@.take(i as int)));
        }
    }
    proof {
        assert(v@.take(i as int) =~= v@);
    }
    r
}

/// Normalize the apostrophes of a string: every ASCII apostrophe becomes
/// U+2019.
pub fn replace_apostrophes(s: &str) -> (r: String)
    ensures
        r@ == replace_apos(s@),
{
    let v = str_chars(s);
    let out = replace_apos_chars(&v);
    chars_to_string(&out)
}

/// Copy of `v[from..to]`.
fn subvec_chars(v: &Vec<char>, from: usize, to: usize) -> (r: Vec<char>)
    requires
        from <= to <= v@.len(),
    ensures
        r@ == v@.subrange(from as int, to as int),
{
    let mut r: Vec<char> = Vec::new();
    let mut i: usize = from;
    while i < to
        invariant
            from <= i <= to <= v@.len(),
            r@ == v@.subrange(from as int, i as int),
        decreases to - i,
    {
        r.push(v[i]);
        i = i + 1;
        proof {
            assert(r@ =~= v@.subrange(from as int, i as int));
        }
    }
    r
}

/// Reverse of a character vector.
fn reverse_chars(v: &Vec<char>) -> (r: Vec<char>)
    ensures
        r@ == v@.reverse(),
{
    let mut r: Vec<char> = Vec::new();
    let mut i: usize = v.len();
    while i > 0
        invariant
            i <= v@.len(),
            r@.len() == v@.len() - i,
            forall|j: int| 0 <= j < r@.len() ==> r@[j] == v@[v@.len() - 1 - j],
        decreases i,
    {
        i = i - 1;
        r.push(v[i]);
    }
    proof {
        assert(r@ =~= v@.reverse());
    }
    r
}

/// First character of a candidate particle that is not whitespace or an
/// apostrophe-like mark.
fn first_relevant(v: &Vec<char>, from: usize, to: usize) -> (r: Option<char>)
    requires
        from <= to <= v@.len(),
    ensures
        r == first_relevant_char(v@.subrange(from as int, to as int)),
{
    let mut i: usize = from;
    while i < to
        invariant
            from <= i <= to <= v@.len(),
            first_relevant_char(v@.subrange(from as int, to as int)) == first_relevant_char(
                v@.subrange(i as int, to as int),
            ),
        decreases to - i,
    {
        let c = v[i];
        let ws = char_is_whitespace(c);
        proof {
            assert(v@.subrange(i as int, to as int)[0] == v@[i as int]);
            assert(v@.subrange(i as int, to as int).skip(1) =~= v@.subrange(i + 1, to as int));
        }
        if !(ws || c == '-' || c == '\'' || c == '\u{02bb}' || c == '\u{2019}') {
            return Option::Some(c);
        }
        i = i + 1;
    }
    proof {
        assert(v@.subrange(i as int, to as int).len() == 0);
    }
    Option::None
}

/// Whether a candidate particle is lowercase-led.
fn lowercase_led_exec(v: &Vec<char>, from: usize, to: usize) -> (r: bool)
    requires
        from <= to <= v@.len(),
    ensures
        r == lowercase_led(v@.subrange(from as int, to as int)),
{
    match first_relevant(v, from, to) {
        Option::Some(c) => char_is_lowercase(c),
        Option::None => false,
    }
}

/// Trim whitespace from both ends of collected characters.
fn trim_chars(v: &Vec<char>) -> (r: Vec<char>)
    ensures
        r@ == trim_spec(v@),
{
    proof {
        assert(v@.skip(0) =~= v@);
    }
    let mut start: usize = 0;
    while start < v.len() && char_is_whitespace(v[start])
        invariant
            start <= v@.len(),
            trim_start_spec(v@) == trim_start_spec(v@.skip(start as int)),
        decreases v@.len() - start,
    {
        proof {
            assert(v@.skip(start as int)[0] == v@[start as int]);
            assert(v@.skip(start as int).skip(1) =~= v@.skip(start + 1));
        }
        start = start + 1;
    }
    proof {
        if start < v@.len() {
            assert(v@.skip(start as int)[0] == v@[start as int]);
        }
        assert(trim_start_spec(v@.skip(start as int)) == v@.skip(start as int));
    }
    let ghost t = v@.skip(start as int);
    proof {
        assert(v@.subrange(start as int, v@.len() as int) =~= t);
    }
    let mut end: usize = v.len();
    while end > start && char_is_whitespace(v[end - 1])
        invariant
            start <= end <= v@.len(),
            t == v@.skip(start as int),
            trim_start_spec(v@) == t,
            trim_end_spec(t) == trim_end_spec(v@.subrange(start as int, end as int)),
        decreases end,
    {
        proof {
            let cur = v@.subrange(start as int, end as int);
            assert(cur.last() == v@[end - 1]);
            assert(cur.drop_last() =~= v@.subrange(start as int, end - 1));
        }
        end = end - 1;
    }
    proof {
        let cur = v@.subrange(start as int, end as int);
        if end > start {
            assert(cur.last() == v@[end - 1]);
        }
        assert(trim_end_spec(cur) == cur);
        assert(v@.subrange(start as int, v@.len() as int) =~= v@.skip(start as int));
    }
    subvec_chars(v, start, end)
}

/// Trim a particle, but keep one trailing space after a particle-final
/// apostrophe.
pub fn trim_last(string: &mut String)
    ensures
        final(string)@ == trim_last_spec(old(string)@),
{
    let v = str_chars(string.as_str());
    let t = trim_chars(&v);
    if t.len() == 0 {
        *string = chars_to_string(&t);
        return ;
    }
    let last_was_space = v.len() > 0 && v[v.len() - 1] == ' ';
    let t_last = t[t.len() - 1];
    if last_was_space && (t_last == '\'' || t_last == '\u{2019}') {
        let mut t2 = t;
        t2.push(' ');
        *string = chars_to_string(&t2);
    } else {
        *string = chars_to_string(&t);
    }
}

/// Cut a suffix off a given name at its first comma; see
/// `parse_suffix_spec`.
fn parse_suffix(given: &mut Vec<char>, has_dropping_particle: bool) -> (r: Option<
    (Vec<char>, bool),
>)
    ensures
        match r {
            Option::Some((suf, fc)) => parse_suffix_spec(old(given)@, has_dropping_particle)
                == Option::Some((suf@, fc, final(given)@)) && forall|k: int|
                0 <= k < final(given)@.len() ==> final(given)@[k] != ',',
            Option::None => parse_suffix_spec(old(given)@, has_dropping_particle) is None
                && final(given)@ == old(given)@,
        },
{
    match find_comma(given) {
        Option::Some((a, b)) => {
            let suf = subvec_chars(given, b, given.len());
            proof {
                assert(suf@ =~= given@.skip(b as int));
            }
            let is_et_al = is_et_al_chars(&suf);
            if is_et_al && !has_dropping_particle {
                return Option::None;
            }
            let comma_text = subvec_chars(given, a, b);
            let trimmed = trim_chars(&comma_text);
            let force = trimmed.len() == 2;
            let cut = subvec_chars(given, 0, a);
            proof {
                assert(cut@ =~= given@.take(a as int));
            }
            *given = cut;
            Option::Some((suf, force))
        },
        Option::None => Option::None,
    }
}

/// Whether the characters spell "et al" or "et al.".
fn is_et_al_chars(v: &Vec<char>) -> (r: bool)
    ensures
        r == (v@ == et_al_seq() || v@ == et_al_dot_seq()),
{
    if v.len() == 5 {
        let r = v[0] == 'e' && v[1] == 't' && v[2] == ' ' && v[3] == 'a' && v[4] == 'l';
        proof {
            if r {
                assert(v@ =~= et_al_seq());
            } else {
                assert(v@ != et_al_seq());
                assert(v@.len() != et_al_dot_seq().len());
            }
        }
        r
    } else if v.len() == 6 {
        let r = v[0] == 'e' && v[1] == 't' && v[2] == ' ' && v[3] == 'a' && v[4] == 'l' && v[5]
            == '.';
        proof {
            if r {
                assert(v@ =~= et_al_dot_seq());
            } else {
                assert(v@ != et_al_dot_seq());
                assert(v@.len() != et_al_seq().len());
            }
        }
        r
    } else {
        proof {
            assert(v@.len() != et_al_seq().len() && v@.len() != et_al_dot_seq().len());
        }
        false
    }
}

/// How many characters of `v` (from `from` on) the family-particle scan
/// eats.
fn family_eaten_exec(v: &Vec<char>) -> (r: usize)
    ensures
        r == family_eaten(v@),
        r <= v@.len(),
{
    proof {
        assert(v@.skip(0) =~= v@);
    }
    let mut eaten: usize = 0;
    loop
        invariant
            eaten <= v@.len(),
            family_eaten(v@) == eaten + family_eaten(v@.skip(eaten as int)),
        ensures
            eaten == family_eaten(v@),
        decreases v@.len() - eaten,
    {
        let rest = subvec_chars(v, eaten, v.len());
        proof {
            assert(rest@ =~= v@.skip(eaten as int));
        }
        match find_family_particle(&rest) {
            Option::Some(n) => {
                let led = lowercase_led_exec(v, eaten, eaten + n);
                proof {
                    assert(v@.subrange(eaten as int, (eaten + n) as int) =~= v@.skip(
                        eaten as int,
                    ).take(n as int));
                    lemma_family_eaten_bounds(v@.skip(eaten as int).skip(n as int));
                    assert(v@.skip(eaten as int).skip(n as int) =~= v@.skip((eaten + n) as int));
                }
                if !led {
                    proof {
                        assert(family_eaten(v@.skip(eaten as int)) == 0);
                    }
                    break ;
                }
                eaten = eaten + n;
            },
            Option::None => {
                proof {
                    assert(family_eaten(v@.skip(eaten as int)) == 0);
                }
                break ;
            },
        }
    }
    proof {
        lemma_family_eaten_bounds(v@);
    }
    eaten
}

/// How many characters of the (already reversed) given name the
/// given-particle scan eats.
fn given_eaten_exec(rv: &Vec<char>) -> (r: usize)
    ensures
        r == given_eaten(rv@),
        r <= rv@.len(),
{
    proof {
        assert(rv@.skip(0) =~= rv@);
    }
    let mut eaten: usize = 0;
    loop
        invariant
            eaten <= rv@.len(),
            given_eaten(rv@) == eaten + given_eaten(rv@.skip(eaten as int)),
        ensures
            eaten == given_eaten(rv@),
        decreases rv@.len() - eaten,
    {
        let rest = subvec_chars(rv, eaten, rv.len());
        proof {
            assert(rest@ =~= rv@.skip(eaten as int));
        }
        match find_given_particle(&rest) {
            Option::Some(n) => {
                let particle = subvec_chars(rv, eaten, eaten + n);
                let rev_particle = reverse_chars(&particle);
                let led = lowercase_led_full(&rev_particle);
                proof {
                    assert(particle@ =~= rv@.skip(eaten as int).take(n as int));
                    lemma_given_eaten_bounds(rv@.skip(eaten as int).skip(n as int));
                    assert(rv@.skip(eaten as int).skip(n as int) =~= rv@.skip((eaten + n) as int));
                }
                if !led {
                    proof {
                        assert(given_eaten(rv@.skip(eaten as int)) == 0);
                    }
                    break ;
                }
                eaten = eaten + n;
            },
            Option::None => {
                proof {
                    assert(given_eaten(rv@.skip(eaten as int)) == 0);
                }
                break ;
            },
        }
    }
    proof {
        lemma_given_eaten_bounds(rv@);
    }
    eaten
}

/// Whether a whole vector is lowercase-led.
fn lowercase_led_full(v: &Vec<char>) -> (r: bool)
    ensures
        r == lowercase_led(v@),
{
    let r = lowercase_led_exec(v, 0, v.len());
    proof {
        assert(v@.subrange(0, v@.len() as int) =~= v@);
    }
    r
}

impl PersonName {
    /// Extract embedded particles and a suffix, and normalize
    /// apostrophes; see `pn_parsed` for the full statement.
    pub fn parse_particles(&mut self)
        ensures
            final(self)@ == pn_parsed(old(self)@),
    {
        if self.static_particles || self.non_dropping_particle.is_some()
            || self.dropping_particle.is_some() || self.suffix.is_some() {
            let f = match &self.family {
                Option::Some(x) => Option::Some(replace_apostrophes(x.as_str())),
                Option::None => Option::None,
            };
            self.family = f;
            let g = match &self.given {
                Option::Some(x) => Option::Some(replace_apostrophes(x.as_str())),
                Option::None => Option::None,
            };
            self.given = g;
            let ndp = match &self.non_dropping_particle {
                Option::Some(x) => Option::Some(replace_apostrophes(x.as_str())),
                Option::None => Option::None,
            };
            self.non_dropping_particle = ndp;
            let dp = match &self.dropping_particle {
                Option::Some(x) => Option::Some(replace_apostrophes(x.as_str())),
                Option::None => Option::None,
            };
            self.dropping_particle = dp;
            return ;
        }
        let fam = match &self.family {
            Option::Some(f) => Option::Some(str_chars(f.as_str())),
            Option::None => Option::None,
        };
        if let Option::Some(fv) = fam {
            let e = family_eaten_exec(&fv);
            if e > 0 {
                let particles = subvec_chars(&fv, 0, e);
                proof {
                    assert(particles@ =~= fv@.take(e as int));
                }
                let mut nondrops = chars_to_string(&particles);
                trim_last(&mut nondrops);
                self.non_dropping_particle = Option::Some(
                    replace_apostrophes(nondrops.as_str()),
                );
                let remain = subvec_chars(&fv, e, fv.len());
                proof {
                    assert(remain@ =~= fv@.skip(e as int));
                }
                let remain2 = replace_apos_chars(&remain);
                self.family = Option::Some(chars_to_string(&remain2));
            } else {
                let f2 = replace_apos_chars(&fv);
                self.family = Option::Some(chars_to_string(&f2));
            }
        }
        let giv = match &self.given {
            Option::Some(g) => Option::Some(str_chars(g.as_str())),
            Option::None => Option::None,
        };
        if let Option::Some(gv) = giv {
            let mut gv = gv;
            match parse_suffix(&mut gv, false) {
                Option::Some((suf, force)) => {
                    self.suffix = Option::Some(chars_to_string(&suf));
                    self.comma_suffix = force;
                },
                Option::None => {},
            }
            let rv = reverse_chars(&gv);
            let e = given_eaten_exec(&rv);
            proof {
                assert(rv@.len() == gv@.len());
            }
            if e > 0 {
                let drops = subvec_chars(&gv, gv.len() - e, gv.len());
                proof {
                    assert(drops@ =~= gv@.skip((gv@.len() - e) as int));
                }
                let trimmed = trim_chars(&drops);
                let dp = replace_apos_chars(&trimmed);
                self.dropping_particle = Option::Some(chars_to_string(&dp));
                let remain = subvec_chars(&gv, 0, gv.len() - e);
                proof {
                    assert(remain@ =~= gv@.take((gv@.len() - e) as int));
                }
                let remain2 = replace_apos_chars(&remain);
                self.given = Option::Some(chars_to_string(&remain2));
            } else {
                let g2 = replace_apos_chars(&gv);
                self.given = Option::Some(chars_to_string(&g2));
            }
        }
    }
}

/// In-place trimming of a string's surrounding whitespace.
pub trait TrimInPlace: View<V = Seq<char>> {
    /// Remove leading and trailing whitespace.
    fn trim_in_place(&mut self)
        ensures
            final(self)@ == trim_spec(old(self)@),
    ;

    /// Remove leading whitespace.
    fn trim_start_in_place(&mut self)
        ensures
            final(self)@ == trim_start_spec(old(self)@),
    ;

    /// Remove trailing whitespace.
    fn trim_end_in_place(&mut self)
        ensures
            final(self)@ == trim_end_spec(old(self)@),
    ;
}

/// Leading whitespace removed from collected characters.
fn trim_start_chars(v: &Vec<char>) -> (r: Vec<char>)
    ensures
        r@ == trim_start_spec(v@),
{
    proof {
        assert(v@.skip(0) =~= v@);
    }
    let mut start: usize = 0;
    while start < v.len() && char_is_whitespace(v[start])
        invariant
            start <= v@.len(),
            trim_start_spec(v@) == trim_start_spec(v@.skip(start as int)),
        decreases v@.len() - start,
    {
        proof {
            assert(v@.skip(start as int)[0] == v@[start as int]);
            assert(v@.skip(start as int).skip(1) =~= v@.skip(start + 1));
        }
        start = start + 1;
    }
    proof {
        if start < v@.len() {
            assert(v@.skip(start as int)[0] == v@[start as int]);
        }
        assert(trim_start_spec(v@.skip(start as int)) == v@.skip(start as int));
        assert(v@.subrange(start as int, v@.len() as int) =~= v@.skip(start as int));
    }
    subvec_chars(v, start, v.len())
}

/// Trailing whitespace removed from collected characters.
fn trim_end_chars(v: &Vec<char>) -> (r: Vec<char>)
    ensures
        r@ == trim_end_spec(v@),
{
    proof {
        assert(v@.take(v@.len() as int) =~= v@);
    }
    let mut end: usize = v.len();
    while end > 0 && char_is_whitespace(v[end - 1])
        invariant
            end <= v@.len(),
            trim_end_spec(v@) == trim_end_spec(v@.take(end as int)),
        decreases end,
    {
        proof {
            let cur = v@.take(end as int);
            assert(cur.last() == v@[end - 1]);
            assert(cur.drop_last() =~= v@.take(end - 1));
        }
        end = end - 1;
    }
    proof {
        let cur = v@.take(end as int);
        if end > 0 {
            assert(cur.last() == v@[end - 1]);
        }
        assert(trim_end_spec(cur) == cur);
        assert(v@.subrange(0, end as int) =~= v@.take(end as int));
    }
    subvec_chars(v, 0, end)
}

impl TrimInPlace for String {
    fn trim_in_place(&mut self) {
        let v = str_chars(self.as_str());
        let t = trim_chars(&v);
        *self = chars_to_string(&t);
    }

    fn trim_start_in_place(&mut self) {
        let v = str_chars(self.as_str());
        let t = trim_start_chars(&v);
        *self = chars_to_string(&t);
    }

    fn trim_end_in_place(&mut self) {
        let v = str_chars(self.as_str());
        let t = trim_end_chars(&v);
        *self = chars_to_string(&t);
    }
}

// ---------------------------------------------------------------------
// Properties of the parse
// ---------------------------------------------------------------------

/// Apostrophe normalization leaves no ASCII apostrophe behind.
pub open spec fn apos_free(s: Seq<char>) -> bool {
    forall|i: int| 0 <= i < s.len() ==> s[i] != '\''
}

/// Whatever goes through `replace_apos` is free of ASCII apostrophes.
pub proof fn lemma_replace_apos_free(s: Seq<char>)
    ensures
        apos_free(replace_apos(s)),
{
    assert forall|i: int| 0 <= i < replace_apos(s).len() implies replace_apos(s)[i] != '\'' by {
        assert(replace_apos(s)[i] == if s[i] == '\'' {
            '\u{2019}'
        } else {
            s[i]
        });
    }
}

/// After particle parsing, the family, given and particle fields carry
/// no ASCII apostrophe: every one of them has passed through apostrophe
/// normalization. (The suffix is taken verbatim from the given name and
/// is not normalized.)
pub proof fn lemma_parsed_fields_apos_free(p: PersonNameView)
    ensures
        pn_parsed(p).family matches Option::Some(f) ==> apos_free(f),
        pn_parsed(p).given matches Option::Some(g) ==> apos_free(g),
        pn_parsed(p).non_dropping_particle matches Option::Some(n) ==> apos_free(n),
        pn_parsed(p).dropping_particle matches Option::Some(d) ==> apos_free(d),
{
    if p.static_particles || p.non_dropping_particle is Some || p.dropping_particle is Some
        || p.suffix is Some {
        match p.family {
            Option::Some(x) => lemma_replace_apos_free(x),
            Option::None => {},
        }
        match p.given {
            Option::Some(x) => lemma_replace_apos_free(x),
            Option::None => {},
        }
        match p.non_dropping_particle {
            Option::Some(x) => lemma_replace_apos_free(x),
            Option::None => {},
        }
        match p.dropping_particle {
            Option::Some(x) => lemma_replace_apos_free(x),
            Option::None => {},
        }
    } else {
        match p.family {
            Option::Some(f) => {
                let e = family_eaten(f);
                lemma_replace_apos_free(f.skip(e));
                lemma_replace_apos_free(trim_last_spec(f.take(e)));
                lemma_replace_apos_free(f);
            },
            Option::None => {},
        }
        match p.given {
            Option::Some(g) => {
                let g1 = match parse_suffix_spec(g, false) {
                    Option::Some((_suf, _fc, rest)) => rest,
                    Option::None => g,
                };
                let e = given_eaten(g1.reverse());
                lemma_replace_apos_free(trim_spec(g1.skip(g1.len() - e)));
                lemma_replace_apos_free(g1.take(g1.len() - e));
                lemma_replace_apos_free(g1);
            },
            Option::None => {},
        }
    }
}

/// After the family particles are eaten, the remaining family name
/// admits no further lowercase-led particle match: the scan stopped for
/// a reason.
pub proof fn lemma_family_fully_split(f: Seq<char>)
    ensures
        family_eaten(f.skip(family_eaten(f))) == 0,
    decreases f.len(),
{
    let e = family_eaten(f);
    match family_particle_len(f) {
        Option::Some(n) => {
            if 1 <= n <= f.len() && lowercase_led(f.take(n)) {
                lemma_family_fully_split(f.skip(n));
                lemma_family_eaten_bounds(f.skip(n));
                assert(f.skip(n).skip(e - n) =~= f.skip(e));
            } else {
                assert(f.skip(0) =~= f);
            }
        },
        Option::None => {
            assert(f.skip(0) =~= f);
        },
    }
}

/// After particle parsing (when nothing was pre-supplied), the family
/// name that remains carries no leading particle: the scan that moved
/// particles out stopped only because no further lowercase-led particle
/// match exists at its front. The statement is over the text before
/// apostrophe normalization, which is the text the particle matcher
/// sees.
pub proof fn lemma_no_leading_family_particle(p: PersonNameView)
    requires
        !p.static_particles,
        p.non_dropping_particle is None,
        p.dropping_particle is None,
        p.suffix is None,
        p.family is Some,
    ensures
        ({
            let f = p.family.unwrap();
            &&& pn_parsed(p).family == Option::Some(replace_apos(f.skip(family_eaten(f))))
            &&& family_eaten(f.skip(family_eaten(f))) == 0
        }),
{
    let f = p.family.unwrap();
    lemma_family_fully_split(f);
    lemma_family_eaten_bounds(f);
    let e = family_eaten(f);
    let r = family_split_spec(f);
    assert(pn_parsed(p).family == Option::Some(r.1));
    if e == 0 {
        assert(f.skip(0) =~= f);
    }
}

/// After the given-name particles are eaten, the remaining reversed
/// given name admits no further particle match whose reversal is
/// lowercase-led.
pub proof fn lemma_given_fully_split(s: Seq<char>)
    ensures
        given_eaten(s.skip(given_eaten(s))) == 0,
    decreases s.len(),
{
    let e = given_eaten(s);
    match given_particle_len(s) {
        Option::Some(n) => {
            if 1 <= n <= s.len() && lowercase_led(s.take(n).reverse()) {
                lemma_given_fully_split(s.skip(n));
                lemma_given_eaten_bounds(s.skip(n));
                assert(s.skip(n).skip(e - n) =~= s.skip(e));
            } else {
                assert(s.skip(0) =~= s);
            }
        },
        Option::None => {
            assert(s.skip(0) =~= s);
        },
    }
}

} // verus!
