//! Support for driving the processor from a test-case description: the
//! test mode, the output format wrapper, and the output fix-up that
//! undoes over-eager escaping of solidus characters.

use vstd::prelude::*;
use vstd::string::*;
use crate::natural_sort::{chars_to_string, str_chars};
use crate::processor::SupportedFormat;

verus! {

/// What a test case exercises.
#[derive(Copy, Clone, Debug, PartialEq, Eq, Structural)]
pub enum Mode {
    Citation,
    Bibliography,
}

impl Default for Mode {
    /// Test cases exercise citations unless they say otherwise.
    fn default() -> (r: Self)
        ensures
            r == Mode::Citation,
    {
        Mode::Citation
    }
}

/// The output format a test case asks for.
#[derive(Copy, Clone, Debug, PartialEq, Eq, Structural)]
pub struct Format(pub SupportedFormat);

impl Default for Format {
    /// Test cases render with the test flavour of HTML by default.
    fn default() -> (r: Self)
        ensures
            r == Format(SupportedFormat::TestHtml),
    {
        Format(SupportedFormat::TestHtml)
    }
}

/// Whether the text starts with the escape sequence for a solidus.
pub open spec fn solidus_escape_at(s: Seq<char>) -> bool {
    s.len() >= 6 && s[0] == '&' && s[1] == '#' && s[2] == 'x' && s[3] == '2' && s[4] == 'f'
        && s[5] == ';'
}

/// The text with every solidus escape replaced by a plain solidus: a
/// solidus needs no escaping when it is not adjacent to angle brackets.
pub open spec fn unescape_solidus_spec(s: Seq<char>) -> Seq<char>
    decreases s.len(),
{
    if s.len() == 0 {
        Seq::empty()
    } else if solidus_escape_at(s) {
        seq!['/'] + unescape_solidus_spec(s.skip(6))
    } else {
        seq![s[0]] + unescape_solidus_spec(s.skip(1))
    }
}

/// Undo the escaping of solidus characters in rendered output.
pub fn unescape_solidus(s: &str) -> (r: String)
    ensures
        r@ == unescape_solidus_spec(s@),
{
    let v = str_chars(s);
    let mut out: Vec<char> = Vec::new();
    let mut i: usize = 0;
    proof {
        assert(v@.skip(0) =~= v@);
        assert(out@ + unescape_solidus_spec(v@.skip(0)) =~= unescape_solidus_spec(v@));
    }
    while i < v.len()
        invariant
            i <= v@.len(),
            out@ + unescape_solidus_spec(v@.skip(i as int)) == unescape_solidus_spec(v@),
        decreases v@.len() - i,
    {
        let ghost suffix = v@.skip(i as int);
        proof {
            assert forall|k: int| 0 <= k < suffix.len() implies suffix[k] == v@[i + k] by {}
        }
        let six_left = v.len() - i >= 6;
        let is_escape = six_left && v[i] == '&' && v[i + 1] == '#' && v[i + 2] == 'x'
            && v[i + 3] == '2' && v[i + 4] == 'f' && v[i + 5] == ';';
        if is_escape {
            out.push('/');
            i = i + 6;
            proof {
                assert(solidus_escape_at(suffix));
                assert(suffix.skip(6) =~= v@.skip(i as int));
                assert(out@ + unescape_solidus_spec(v@.skip(i as int)) =~= unescape_solidus_spec(
                    v@,
                ));
            }
        } else {
            out.push(v[i]);
            i = i + 1;
            proof {
                assert(!solidus_escape_at(suffix));
                assert(suffix.skip(1) =~= v@.skip(i as int));
                assert(out@ + unescape_solidus_spec(v@.skip(i as int)) =~= unescape_solidus_spec(
                    v@,
                ));
            }
        }
    }
    proof {
        assert(v@.skip(i as int).len() == 0);
        assert(out@ =~= unescape_solidus_spec(v@));
    }
    chars_to_string(&out)
}

} // verus!
