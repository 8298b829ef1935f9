use std::cmp::Ordering;

use citeproc::natural_sort::{
    citation_number_affixes, extract_citation_number, natural_cmp, num_affixes, to_u32, NaturalCmp,
};

#[test]
fn extract_cnum() {
    let mut string = String::new();
    string.push_str("\u{E004}");
    string.push_str("00000008");
    string.push_str("\u{E005}");
    assert_eq!(extract_citation_number(&string), Some(8));
}

#[test]
fn natural_cmp_strings() {
    assert_eq!(natural_cmp("a", "z"), Ordering::Less, "a - z");
    assert_eq!(natural_cmp("z", "a"), Ordering::Greater, "z - a");
    assert_eq!(
        natural_cmp("a\u{E000}2009-04-07\u{E001}", "a\u{E000}2008-04-07\u{E001}"),
        Ordering::Greater,
        "2009 > 2008"
    );
    assert_eq!(
        natural_cmp("a\u{E000}2009-05-07\u{E001}", "a\u{E000}2009-04-07\u{E001}"),
        Ordering::Greater
    );
    assert_eq!(
        natural_cmp("a\u{E000}-0100\u{E001}", "a\u{E000}0100\u{E001}"),
        Ordering::Less,
        "100BC < 100AD"
    );

    // 2000, May 2000, May 1st 2000
    assert_eq!(
        natural_cmp("a\u{E000}2000\u{E001}", "a\u{E000}2000-04\u{E001}"),
        Ordering::Less,
        "2000 < May 2000"
    );
    assert_eq!(
        natural_cmp("a\u{E000}2000-04\u{E001}", "a\u{E000}2000-04-01\u{E001}"),
        Ordering::Less,
        "May 2000 < May 1st 2000"
    );

    assert_eq!(
        natural_cmp(
            "a\u{E000}2009-04-07\u{E001}",
            "a\u{E000}2009-04-07/2010-05-09\u{E001}"
        ),
        Ordering::Less,
        "2009 < 2009/2010"
    );

    assert_eq!(
        natural_cmp("\u{e000}-0044-03-15\u{e001}", "\u{e000}-0100-07-13\u{e001}"),
        Ordering::Greater,
        "44BC > 100BC"
    );

    // Numbers
    assert_eq!(
        natural_cmp("\u{E002}1000\u{E003}", "\u{E002}1000\u{E003}"),
        Ordering::Equal,
        "1000 == 1000"
    );
    assert_eq!(
        natural_cmp("\u{E002}1000\u{E003}", "\u{E002}2000\u{E003}"),
        Ordering::Less,
        "1000 < 2000"
    );

    // Case insensitive only means that "a" is before "B" even though it appears later in ascii,
    // i.e. both "A" and "a" sort the same relative to "B" and "b".
    // Tie-breakers between "A" and "a" are deterministically caps-first
    // You still never get Ordering::Equal unless they are identical
    assert_eq!(natural_cmp("Aaa", "ABC"), Ordering::Less);
    assert_eq!(natural_cmp("AAA", "Aaa"), Ordering::Less);
}

#[test]
fn bc_years_in_order() {
    // -0100 < -0044 < 0050 < 0100, wrapped as date segments
    let keys = [
        "\u{E000}-0100\u{E001}",
        "\u{E000}-0044\u{E001}",
        "\u{E000}0050\u{E001}",
        "\u{E000}0100\u{E001}",
    ];
    for w in keys.windows(2) {
        assert_eq!(natural_cmp(w[0], w[1]), Ordering::Less, "{} < {}", w[0], w[1]);
    }
}

#[test]
fn to_u32_values() {
    assert_eq!(to_u32("00000008"), 8);
    assert_eq!(to_u32("1000"), 1000);
    assert_eq!(to_u32("9"), 9);
    assert_eq!(to_u32("99999999"), 99999999);
}

#[test]
fn affixes_are_private_use_delimiters() {
    let n = num_affixes();
    assert_eq!(n.prefix, "\u{E002}");
    assert_eq!(n.suffix, "\u{E003}");
    let c = citation_number_affixes();
    assert_eq!(c.prefix, "\u{E004}");
    assert_eq!(c.suffix, "\u{E005}");
}

#[test]
fn extract_cnum_absent() {
    assert_eq!(extract_citation_number("plain text"), None);
    assert_eq!(extract_citation_number("\u{E002}12\u{E003}"), None);
    assert_eq!(extract_citation_number(""), None);
}

#[test]
fn natural_cmp_wrapper_type() {
    assert!(NaturalCmp::new(String::new()).is_none());
    let a = NaturalCmp::new(String::from("alpha")).unwrap();
    let b = NaturalCmp::new(String::from("beta")).unwrap();
    assert_eq!(a.compare(&b), Ordering::Less);
    assert_eq!(b.compare(&a), Ordering::Greater);
    assert_eq!(a.compare(&a), Ordering::Equal);
}

#[test]
fn mixed_tokens_skip_position() {
    // A number segment against a date segment is not comparable there;
    // the decision falls to the next comparable position.
    assert_eq!(
        natural_cmp("\u{E002}1000\u{E003}a", "\u{E000}2000\u{E001}b"),
        Ordering::Less
    );
}

#[test]
fn order_laws_on_sample_keys() {
    // the proved laws, observed on concrete keys: swapping the
    // arguments flips the answer, and chains of Less compose
    let keys = [
        "AAA",
        "Aaa",
        "ABC",
        "a\u{E000}2000\u{E001}",
        "a\u{E000}2000-04\u{E001}",
        "a\u{E000}2000-04-01\u{E001}",
        "\u{E002}10\u{E003}",
        "\u{E002}20\u{E003}",
    ];
    for a in keys.iter() {
        for b in keys.iter() {
            assert_eq!(natural_cmp(b, a), natural_cmp(a, b).reverse());
            for c in keys.iter() {
                if natural_cmp(a, b) == Ordering::Less && natural_cmp(b, c) == Ordering::Less {
                    assert_eq!(natural_cmp(a, c), Ordering::Less);
                }
            }
        }
    }
    // equal keys need not be identical text: number segments compare by value
    assert_eq!(
        natural_cmp("\u{E002}01\u{E003}", "\u{E002}1\u{E003}"),
        Ordering::Equal
    );
}
