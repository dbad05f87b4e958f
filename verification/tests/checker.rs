use sakoku::checker::{CheckOptions, check_bytes};

const DEFAULT: CheckOptions = CheckOptions { strict: false };
const STRICT: CheckOptions = CheckOptions { strict: true };

#[test]
fn ascii_only_no_violations() {
    let content = b"let x = 42;\nfn main() {}\n";
    assert!(check_bytes(content, DEFAULT).is_empty());
    assert!(check_bytes(content, STRICT).is_empty());
}

#[test]
fn japanese_chars_detected_default() {
    // CJK must remain detected at the default level (homoglyph / typo risk).
    let content = "let x = \"あいう\";".as_bytes();
    let violations = check_bytes(content, DEFAULT);
    assert_eq!(violations.len(), 3);
    assert_eq!(violations[0].char_display, Some('あ'));
    assert_eq!(violations[1].char_display, Some('い'));
    assert_eq!(violations[2].char_display, Some('う'));
}

#[test]
fn japanese_chars_detected_strict() {
    let content = "let x = \"あいう\";".as_bytes();
    let violations = check_bytes(content, STRICT);
    assert_eq!(violations.len(), 3);
    assert_eq!(violations[0].char_display, Some('あ'));
    assert_eq!(violations[1].char_display, Some('い'));
    assert_eq!(violations[2].char_display, Some('う'));
}

#[test]
fn ascii_only_no_violations_strict() {
    // The strict gate must not start flagging tab/CR/LF/printable ASCII.
    let content = b"line1\r\nline2\ttabbed\n";
    assert!(check_bytes(content, STRICT).is_empty());
}

#[test]
fn tab_cr_lf_allowed() {
    let content = b"line1\r\nline2\ttabbed";
    assert!(check_bytes(content, DEFAULT).is_empty());
}

#[test]
fn null_byte_detected() {
    let content = b"hello\x00world";
    let violations = check_bytes(content, DEFAULT);
    assert_eq!(violations.len(), 1);
    assert_eq!(violations[0].byte, 0x00);
    assert_eq!(violations[0].char_display, None);
}

#[test]
fn del_detected() {
    let content = b"hello\x7Fworld";
    let violations = check_bytes(content, DEFAULT);
    assert_eq!(violations.len(), 1);
    assert_eq!(violations[0].byte, 0x7F);
    assert_eq!(violations[0].char_display, None);
}

#[test]
fn empty_input_no_violations() {
    assert!(check_bytes(b"", DEFAULT).is_empty());
}

#[test]
fn line_and_col_tracking() {
    let content = "abc\nあ".as_bytes();
    let violations = check_bytes(content, DEFAULT);
    assert_eq!(violations.len(), 1);
    assert_eq!(violations[0].line, 2);
    assert_eq!(violations[0].column, 1);
    assert_eq!(violations[0].char_display, Some('あ'));
}

#[test]
fn legacy_allowed_unicode_still_allowed_at_default() {
    // The long-standing set of tolerated symbols stays accepted at the default level.
    let allowed = "°±×–—•…←↑→↓↔↕↖↗↘↙↺↻⏸≠≤≥▶○●⚠─│┌┐└┘├┤┬┴┼✓✗⠇⠋⠏⠙⠦⠧⠴⠸⠹⠼";
    let violations = check_bytes(allowed.as_bytes(), DEFAULT);
    assert!(
        violations.is_empty(),
        "unexpected violations for legacy allowlist: {violations:?}"
    );
}

#[test]
fn legacy_allowed_unicode_detected_in_strict() {
    // Every one of those symbols is reported under --strict.
    let allowed = "°±×–—•…←↑→↓↔↕↖↗↘↙↺↻⏸≠≤≥▶○●⚠─│┌┐└┘├┤┬┴┼✓✗⠇⠋⠏⠙⠦⠧⠴⠸⠹⠼";
    let violations = check_bytes(allowed.as_bytes(), STRICT);
    assert_eq!(
        violations.len(),
        allowed.chars().count(),
        "strict mode must report every legacy-allowlist char"
    );
}

#[test]
fn allowed_unicode_mixed_with_disallowed() {
    let content = "result → \u{3042}".as_bytes();
    let violations = check_bytes(content, DEFAULT);
    assert_eq!(violations.len(), 1);
    assert_eq!(violations[0].char_display, Some('あ'));
}

// --- Default allowlist coverage by category ---

#[test]
fn category_typography_allowed_at_default() {
    // §©®°¶·—–…''""•‣†‡‹›™
    let sample = "\u{00A7}\u{00A9}\u{00AE}\u{00B0}\u{00B6}\u{00B7}\u{2014}\u{2013}\u{2026}\
                 \u{2018}\u{2019}\u{201C}\u{201D}\u{2022}\u{2023}\u{2020}\u{2021}\
                 \u{2039}\u{203A}\u{2122}";
    assert!(check_bytes(sample.as_bytes(), DEFAULT).is_empty());
    assert!(!check_bytes(sample.as_bytes(), STRICT).is_empty());
}

#[test]
fn category_math_allowed_at_default() {
    // ±µ×÷πμ∆∑√∞≈≠≤≥
    let sample = "\u{00B1}\u{00B5}\u{00D7}\u{00F7}\u{03C0}\u{03BC}\
                 \u{2206}\u{2211}\u{221A}\u{221E}\u{2248}\u{2260}\u{2264}\u{2265}";
    assert!(check_bytes(sample.as_bytes(), DEFAULT).is_empty());
    assert!(!check_bytes(sample.as_bytes(), STRICT).is_empty());
}

#[test]
fn category_arrows_allowed_at_default() {
    // → ← ↑ ↓ ↔ ↕ ⇒ ⇐ ⇑ ⇓ ❯ ❮ ❱ ❰ › ‣
    let sample = "\u{2192}\u{2190}\u{2191}\u{2193}\u{2194}\u{2195}\
                 \u{21D2}\u{21D0}\u{21D1}\u{21D3}\u{276F}\u{276E}\u{2771}\u{2770}";
    assert!(check_bytes(sample.as_bytes(), DEFAULT).is_empty());
    assert!(!check_bytes(sample.as_bytes(), STRICT).is_empty());
}

#[test]
fn category_accented_latin_allowed_at_default() {
    // naïve, café, Zürich, São, chōonpu, Ångström
    let sample = "na\u{00EF}ve caf\u{00E9} Z\u{00FC}rich S\u{00E3}o ch\u{014D}onpu \u{00C5}ngstr\u{00F6}m";
    assert!(check_bytes(sample.as_bytes(), DEFAULT).is_empty());
    assert!(!check_bytes(sample.as_bytes(), STRICT).is_empty());
}

#[test]
fn category_spanish_punctuation_allowed_at_default() {
    // ¿Cómo estás? ¡Hola! — inverted question / exclamation are in upper Latin-1.
    let sample = "\u{00BF}C\u{00F3}mo est\u{00E1}s? \u{00A1}Hola!";
    assert!(check_bytes(sample.as_bytes(), DEFAULT).is_empty());
    assert!(!check_bytes(sample.as_bytes(), STRICT).is_empty());
}

#[test]
fn category_vietnamese_allowed_at_default() {
    // Nguyễn Văn Đức — Latin Extended Additional precomposed.
    let sample = "Nguy\u{1EC5}n V\u{0103}n \u{0110}\u{1EE9}c";
    assert!(check_bytes(sample.as_bytes(), DEFAULT).is_empty());
    assert!(!check_bytes(sample.as_bytes(), STRICT).is_empty());
}

#[test]
fn category_misc_symbols_and_arrows_allowed_at_default() {
    // ⭐ U+2B50, ⬆ U+2B06, ⬇ U+2B07, ⬛ U+2B1B, ⬜ U+2B1C
    let sample = "\u{2B50}\u{2B06}\u{2B07}\u{2B1B}\u{2B1C}";
    assert!(check_bytes(sample.as_bytes(), DEFAULT).is_empty());
    assert!(!check_bytes(sample.as_bytes(), STRICT).is_empty());
}

#[test]
fn category_greek_delta_allowed_at_default() {
    // Capital Δ (U+0394) and INCREMENT ∆ (U+2206) are both math-flavored.
    let sample = "\u{0394}t = end - start; volume \u{2206}V";
    assert!(check_bytes(sample.as_bytes(), DEFAULT).is_empty());
    assert!(!check_bytes(sample.as_bytes(), STRICT).is_empty());
}

#[test]
fn category_box_drawing_and_shapes_allowed_at_default() {
    // ─│┌┐└┘├┤┬┴┼ █ ▓ ▒ ░ ○ ● ▶
    let sample = "\u{2500}\u{2502}\u{250C}\u{2510}\u{2514}\u{2518}\u{251C}\u{2524}\
                 \u{252C}\u{2534}\u{253C}\u{2588}\u{2593}\u{2592}\u{2591}\
                 \u{25CB}\u{25CF}\u{25B6}";
    assert!(check_bytes(sample.as_bytes(), DEFAULT).is_empty());
    assert!(!check_bytes(sample.as_bytes(), STRICT).is_empty());
}

#[test]
fn category_emoji_allowed_at_default() {
    // single emoji, ZWJ family, flag, heart with VS16
    // 👨‍👩‍👧 = man + ZWJ + woman + ZWJ + girl
    // 🇯🇵 = REGIONAL INDICATOR J + REGIONAL INDICATOR P
    // ❤️ = heart + VS16
    let sample = "\u{1F600} \u{1F468}\u{200D}\u{1F469}\u{200D}\u{1F467} \
                 \u{1F1EF}\u{1F1F5} \u{2764}\u{FE0F}";
    assert!(check_bytes(sample.as_bytes(), DEFAULT).is_empty());
    assert!(!check_bytes(sample.as_bytes(), STRICT).is_empty());
}

#[test]
fn category_zero_width_allowed_at_default() {
    // U+200B ZWSP, U+200C ZWNJ, U+200E LRM, U+2060 WJ, U+FEFF BOM
    let sample = "\u{200B}\u{200C}\u{200E}\u{2060}\u{FEFF}";
    assert!(check_bytes(sample.as_bytes(), DEFAULT).is_empty());
    assert!(!check_bytes(sample.as_bytes(), STRICT).is_empty());
}

#[test]
fn nbsp_still_detected_at_default() {
    // U+00A0 NO-BREAK SPACE is a common typo source — keep detected.
    let sample = "a\u{00A0}b".as_bytes();
    let violations = check_bytes(sample, DEFAULT);
    assert_eq!(violations.len(), 1);
    assert_eq!(violations[0].char_display, Some('\u{00A0}'));
}

#[test]
fn fullwidth_ascii_still_detected_at_default() {
    // U+FF21 FULLWIDTH LATIN CAPITAL LETTER A — homoglyph risk.
    let sample = "let \u{FF21} = 1;".as_bytes();
    let violations = check_bytes(sample, DEFAULT);
    assert!(
        violations
            .iter()
            .any(|v| v.char_display == Some('\u{FF21}'))
    );
}

#[test]
fn cyrillic_still_detected_at_default() {
    // U+0430 CYRILLIC SMALL LETTER A — Latin 'a' homoglyph.
    let sample = "let v\u{0430}lue = 1;".as_bytes();
    let violations = check_bytes(sample, DEFAULT);
    assert!(
        violations
            .iter()
            .any(|v| v.char_display == Some('\u{0430}'))
    );
}

#[test]
fn regression_pin_seher_ts_hits() {
    // ❯ ≈ — … ≤ → ō plus a ZWJ family emoji — these are the exact
    // characters that tripped sakoku in seher-ts/sdk before the default
    // allowlist landed.
    let sample = "\u{276F} \u{2248} \u{2014} \u{2026} \u{2264} \u{2192} \u{014D} \
                 \u{1F468}\u{200D}\u{1F469}\u{200D}\u{1F467}";
    assert!(
        check_bytes(sample.as_bytes(), DEFAULT).is_empty(),
        "regression: {sample:?} must be allowed at default"
    );
}

#[test]
fn ignore_marker_still_works_at_default() {
    // Marker should suppress disallowed CJK on the next line, even though
    // the allowlist is broader.
    let content = "// sakoku-ignore-next-line\nlet x = \"\u{3042}\";\n".as_bytes();
    assert!(check_bytes(content, DEFAULT).is_empty());
}
