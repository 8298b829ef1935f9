use citeproc::harness::{unescape_solidus, Format, Mode};
use citeproc::processor::SupportedFormat;

#[test]
fn defaults() {
    assert_eq!(Mode::default(), Mode::Citation);
    assert_eq!(Format::default(), Format(SupportedFormat::TestHtml));
}

#[test]
fn unescape_solidus_cases() {
    assert_eq!(unescape_solidus("a&#x2f;b"), "a/b");
    assert_eq!(unescape_solidus("&#x2f;&#x2f;"), "//");
    assert_eq!(unescape_solidus("nothing here"), "nothing here");
    assert_eq!(unescape_solidus("&#x2f"), "&#x2f");
    assert_eq!(unescape_solidus(""), "");
}
