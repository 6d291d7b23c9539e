use utf8_chars::ToUTF8Chars;
use utf8_chars::UTF8Char;

#[test]
fn utf8_chars() {
    let mut chars = "A\u{b1}\u{26bd}\u{1fae5}".utf8_chars();

    assert_eq!(chars.next(), Some("A".into()));
    assert_eq!(chars.next(), Some("\u{b1}".into()));
    assert_eq!(chars.next(), Some("\u{26bd}".into()));
    assert_eq!(chars.next(), Some("\u{1fae5}".into()));
    assert_eq!(chars.next(), None);
}

#[test]
fn utf8_char_single_zero_width_joiner() {
    let mut chars = "\u{1f468}\u{200d}\u{1f9b0}".utf8_chars();

    assert_eq!(chars.next(), Some("\u{1f468}\u{200d}\u{1f9b0}".into()));
    assert_eq!(chars.next(), None);
}

#[test]
fn utf8_char_multiple_zero_width_joiners() {
    let mut chars = "\u{1f468}\u{200d}\u{1f469}\u{200d}\u{1f466}".utf8_chars();

    assert_eq!(chars.next(), Some("\u{1f468}\u{200d}\u{1f469}\u{200d}\u{1f466}".into()));
    assert_eq!(chars.next(), None);
}

#[test]
fn utf_8_char_variation_selector_zero_width_joiner() {
    let mut chars = "\u{1f3f3}\u{fe0f}\u{200d}\u{1f308}".utf8_chars();

    assert_eq!(chars.next(), Some("\u{1f3f3}\u{fe0f}\u{200d}\u{1f308}".into()));
    assert_eq!(chars.next(), None);
}

#[test]
fn reconstruction_concatenates_back_to_the_input() {
    let inputs = [
        "",
        "A\u{b1}\u{26bd}\u{1fae5}",
        "\u{1f3f3}\u{fe0f}\u{200d}\u{1f308}x\u{1f468}\u{200d}\u{1f466}",
        "\u{fe0f}\u{200d}\u{200d}",
    ];
    for input in inputs {
        let mut rebuilt = String::new();
        let mut chars = input.utf8_chars();
        while let Some(c) = chars.next() {
            rebuilt.push_str(c.as_str());
        }
        assert_eq!(rebuilt, input);
    }
}

#[test]
fn rescan_yields_identical_sequence() {
    let text = "\u{1f3f3}\u{fe0f}\u{200d}\u{1f308}A\u{1f468}\u{200d}\u{1f9b0}";
    let mut first_pass = Vec::new();
    let mut chars = text.utf8_chars();
    while let Some(c) = chars.next() {
        first_pass.push(c.as_str());
    }
    let mut second_pass = Vec::new();
    let mut chars = text.utf8_chars();
    while let Some(c) = chars.next() {
        second_pass.push(c.as_str());
    }
    assert_eq!(first_pass, second_pass);
}

#[test]
fn exhausted_segmenter_stays_exhausted() {
    let mut chars = "A".utf8_chars();
    assert_eq!(chars.next(), Some("A".into()));
    assert_eq!(chars.next(), None);
    assert_eq!(chars.next(), None);
    assert_eq!(chars.next(), None);
}

#[test]
fn empty_input_is_exhausted_at_once() {
    let mut chars = "".utf8_chars();
    assert_eq!(chars.next(), None);
    assert_eq!(chars.next(), None);
}

#[test]
fn dangling_joiner_closes_its_unit() {
    let mut chars = "\u{1f468}\u{200d}".utf8_chars();
    assert_eq!(chars.next(), Some("\u{1f468}\u{200d}".into()));
    assert_eq!(chars.next(), None);
}

#[test]
fn leading_joiner_is_its_own_unit() {
    let mut chars = "\u{200d}A".utf8_chars();
    assert_eq!(chars.next(), Some("\u{200d}".into()));
    assert_eq!(chars.next(), Some("A".into()));
    assert_eq!(chars.next(), None);
}

#[test]
fn variation_selector_extends_its_base() {
    let mut chars = "A\u{fe0f}B".utf8_chars();
    assert_eq!(chars.next(), Some("A\u{fe0f}".into()));
    assert_eq!(chars.next(), Some("B".into()));
    assert_eq!(chars.next(), None);
}

#[test]
fn as_str_views_the_wrapped_bytes() {
    let c = UTF8Char::from("\u{1f308}");
    assert_eq!(c.as_str(), "\u{1f308}");
    let mut chars = "\u{26bd}A".utf8_chars();
    assert_eq!(chars.next().unwrap().as_str(), "\u{26bd}");
    assert_eq!(chars.next().unwrap().as_str(), "A");
}

#[test]
fn is_compares_against_text() {
    let c = UTF8Char::from("\u{26bd}");
    assert!(c.is("\u{26bd}"));
    assert!(!c.is("A"));
    assert!(!c.is(""));
}

#[test]
fn equality_is_byte_for_byte() {
    assert_eq!(UTF8Char::from("A"), UTF8Char::from("A"));
    assert_ne!(UTF8Char::from("A"), UTF8Char::from("B"));
    assert_ne!(UTF8Char::from("A"), UTF8Char::from("A\u{fe0f}"));
}

#[test]
fn variation_selector_recognizer_consumes_nothing_on_miss() {
    let bytes = "A\u{fe0f}".as_bytes();
    assert!(utf8_chars::variation_selector(bytes).is_none());
    let (sel, rest) = utf8_chars::variation_selector("\u{fe0f}A".as_bytes()).unwrap();
    assert_eq!(sel, "\u{fe0f}".as_bytes());
    assert_eq!(rest, "A".as_bytes());
}

#[test]
fn zero_width_joiner_recognizer_takes_joiner_and_next() {
    assert!(utf8_chars::zero_width_joiner("A\u{200d}B".as_bytes()).is_none());
    let (grp, rest) = utf8_chars::zero_width_joiner("\u{200d}BC".as_bytes()).unwrap();
    assert_eq!(grp, "\u{200d}B".as_bytes());
    assert_eq!(rest, "C".as_bytes());
    let (grp, rest) = utf8_chars::zero_width_joiner("\u{200d}".as_bytes()).unwrap();
    assert_eq!(grp, "\u{200d}".as_bytes());
    assert_eq!(rest, "".as_bytes());
}

#[test]
fn named_constants_hold_the_two_code_points() {
    assert_eq!(utf8_chars::VARIATION_SELECTOR, "\u{fe0f}");
    assert_eq!(utf8_chars::ZERO_WIDTH_JOINER, "\u{200d}");
    assert_eq!(utf8_chars::VARIATION_SELECTOR_SCALAR, 0xfe0f);
    assert_eq!(utf8_chars::ZERO_WIDTH_JOINER_SCALAR, 0x200d);
}

#[test]
fn quoted_renders_text_between_quote_marks() {
    assert_eq!(UTF8Char::from("A").quoted(), "'A'");
    assert_eq!(UTF8Char::from("\u{26bd}").quoted(), "'\u{26bd}'");
}
