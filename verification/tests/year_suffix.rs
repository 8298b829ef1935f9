use citeproc::year_suffix::{year_suffix_letters, year_suffixes, YearSuffixEntry};

fn entry(ref_id: &str, collision_key: &str, sort_key: &str) -> YearSuffixEntry {
    YearSuffixEntry {
        ref_id: ref_id.into(),
        collision_key: collision_key.into(),
        sort_key: sort_key.into(),
    }
}

#[test]
fn colliding_references_get_suffixes_in_sort_key_order() {
    // two references with identical author and year, each cited once:
    // suffixes follow the sort-key order, not the input order
    let entries = vec![
        entry("later", "doe-1999", "zeta"),
        entry("earlier", "doe-1999", "alpha"),
    ];
    let assigned = year_suffixes(&entries);
    assert_eq!(assigned.len(), 2);
    assert_eq!(assigned[0], ("later".to_string(), 1));
    assert_eq!(assigned[1], ("earlier".to_string(), 0));
    assert_eq!(year_suffix_letters(assigned[1].1), "a");
    assert_eq!(year_suffix_letters(assigned[0].1), "b");
}

#[test]
fn non_colliding_references_get_none() {
    let entries = vec![
        entry("a", "doe-1999", "one"),
        entry("b", "roe-2001", "two"),
    ];
    let assigned = year_suffixes(&entries);
    assert!(assigned.is_empty());
}

#[test]
fn three_way_collision_and_tie_break() {
    let entries = vec![
        entry("x", "k", "m"),
        entry("y", "k", "m"),
        entry("z", "k", "a"),
    ];
    let assigned = year_suffixes(&entries);
    // "a" sorts first; equal keys "m" keep their list order
    assert_eq!(assigned[0], ("x".to_string(), 1));
    assert_eq!(assigned[1], ("y".to_string(), 2));
    assert_eq!(assigned[2], ("z".to_string(), 0));
}

#[test]
fn suffix_letters_roll_over() {
    assert_eq!(year_suffix_letters(0), "a");
    assert_eq!(year_suffix_letters(25), "z");
    assert_eq!(year_suffix_letters(26), "aa");
    assert_eq!(year_suffix_letters(27), "ab");
    assert_eq!(year_suffix_letters(51), "az");
    assert_eq!(year_suffix_letters(52), "ba");
}
