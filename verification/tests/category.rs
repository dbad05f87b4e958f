use sakoku::category::Category;
use sakoku::checker::Violation;

fn violation(char_display: Option<char>) -> Violation {
    Violation {
        line: 1,
        column: 1,
        byte: 0,
        char_display,
    }
}

#[test]
fn cjk_representatives() {
    // U+4E00 CJK UNIFIED IDEOGRAPH, U+3042 HIRAGANA LETTER A,
    // U+30A2 KATAKANA LETTER A, U+AC00 HANGUL SYLLABLE.
    for c in ['\u{4E00}', '\u{3042}', '\u{30A2}', '\u{AC00}'] {
        assert_eq!(
            Category::classify(&violation(Some(c))),
            Category::Cjk,
            "expected {c:?} to classify as Cjk"
        );
    }
}

#[test]
fn fullwidth_representatives() {
    // U+FF21 FULLWIDTH LATIN CAPITAL LETTER A, U+3000 IDEOGRAPHIC SPACE,
    // U+00A0 NO-BREAK SPACE.
    for c in ['\u{FF21}', '\u{3000}', '\u{00A0}'] {
        assert_eq!(
            Category::classify(&violation(Some(c))),
            Category::Fullwidth,
            "expected {c:?} to classify as Fullwidth"
        );
    }
}

#[test]
fn homoglyph_representatives() {
    // U+0430 CYRILLIC SMALL LETTER A, U+03B1 GREEK SMALL LETTER ALPHA.
    for c in ['\u{0430}', '\u{03B1}'] {
        assert_eq!(
            Category::classify(&violation(Some(c))),
            Category::Homoglyph,
            "expected {c:?} to classify as Homoglyph"
        );
    }
}

#[test]
fn arm_order_boundary_u3000_is_fullwidth() {
    assert_eq!(
        Category::classify(&violation(Some('\u{3000}'))),
        Category::Fullwidth
    );
}

#[test]
fn arm_order_boundary_u3001_is_cjk() {
    assert_eq!(
        Category::classify(&violation(Some('\u{3001}'))),
        Category::Cjk
    );
}

#[test]
fn arm_order_boundary_uff5e_is_fullwidth() {
    assert_eq!(
        Category::classify(&violation(Some('\u{FF5E}'))),
        Category::Fullwidth
    );
}

#[test]
fn arm_order_boundary_uff61_is_cjk() {
    assert_eq!(
        Category::classify(&violation(Some('\u{FF61}'))),
        Category::Cjk
    );
}

#[test]
fn arm_order_boundary_gap_between_fullwidth_and_cjk_is_other() {
    // U+FF5F and U+FF60 fall in the gap between the Fullwidth ASCII
    // variants block and the Halfwidth Katakana block, and are not on
    // the default allowlist, so they fall through to Other.
    assert_eq!(
        Category::classify(&violation(Some('\u{FF5F}'))),
        Category::Other
    );
    assert_eq!(
        Category::classify(&violation(Some('\u{FF60}'))),
        Category::Other
    );
}

#[test]
fn default_allowlist_chars_are_symbol() {
    // U+2014 EM DASH and an emoji code point are both accepted by
    // is_default_allowed(), so they surface only under --strict.
    for c in ['\u{2014}', '\u{1F600}'] {
        assert_eq!(
            Category::classify(&violation(Some(c))),
            Category::Symbol,
            "expected {c:?} to classify as Symbol"
        );
    }
}

#[test]
fn allowlisted_greek_math_symbols_are_symbol_not_homoglyph() {
    // U+0394 GREEK CAPITAL LETTER DELTA, U+03BC GREEK SMALL LETTER MU,
    // U+03C0 GREEK SMALL LETTER PI sit in the Greek and Coptic range that
    // Homoglyph would otherwise claim, but they are math notation.
    for c in ['\u{0394}', '\u{03BC}', '\u{03C0}'] {
        assert_eq!(
            Category::classify(&violation(Some(c))),
            Category::Symbol,
            "expected {c:?} to classify as Symbol, not Homoglyph"
        );
    }
}

#[test]
fn undecodable_byte_is_other() {
    assert_eq!(Category::classify(&violation(None)), Category::Other);
}

#[test]
fn label_returns_expected_strings() {
    assert_eq!(Category::Cjk.label(), "cjk");
    assert_eq!(Category::Fullwidth.label(), "fullwidth");
    assert_eq!(Category::Homoglyph.label(), "homoglyph");
    assert_eq!(Category::Symbol.label(), "symbol");
    assert_eq!(Category::Other.label(), "other");
}
