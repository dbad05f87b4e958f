use vstd::prelude::*;
use vstd::slice::slice_subrange;
use vstd::utf8::{
    char_is_scalar, char_u32_cast, decode_first_scalar, encode_scalar, encode_utf8,
    encode_utf8_first_scalar, is_scalar, length_of_first_scalar, valid_first_scalar,
    decode_utf8_first_scalar, pop_first_scalar, valid_utf8,
};

verus! {

/// The bytes that may stand in an ASCII-only source file: tab, line feed,
/// carriage return and printable ASCII.
pub open spec fn spec_is_allowed(byte: u8) -> bool {
    byte == 0x09 || byte == 0x0A || byte == 0x0D || (0x20 <= byte && byte <= 0x7E)
}

/// Returns `true` if the byte is permitted in ASCII-only source files.
///
/// Allowed: Tab (0x09), LF (0x0A), CR (0x0D), and printable ASCII (0x20-0x7E).
pub fn is_allowed(byte: u8) -> (r: bool)
    ensures
        r == spec_is_allowed(byte),
{
    matches!(byte, 0x09 | 0x0A | 0x0D | 0x20..=0x7E)
}

/// A single non-ASCII byte found in the content.
#[derive(Debug, Clone, Copy)]
pub struct Violation {
    /// 1-indexed line number.
    pub line: usize,
    /// 1-indexed byte column.
    pub column: usize,
    /// The offending byte value.
    pub byte: u8,
    /// The Unicode character starting at this byte, if decodable as UTF-8.
    pub char_display: Option<char>,
}

/// Configures how `check_bytes` interprets non-ASCII bytes.
#[derive(Debug, Clone, Copy)]
pub struct CheckOptions {
    /// When `true`, disable the default allowlist of common Unicode
    /// characters: every non-ASCII byte is reported.
    pub strict: bool,
}

impl Default for CheckOptions {
    fn default() -> (r: Self)
        ensures
            !r.strict,
    {
        CheckOptions { strict: false }
    }
}

/// True when `c` lies in the closed range `lo..=hi`.
pub open spec fn in_range(c: char, lo: char, hi: char) -> bool {
    lo <= c && c <= hi
}

/// The default allowlist of common, low-risk Unicode characters.
pub open spec fn spec_is_default_allowed(c: char) -> bool {
    // Typography singletons in General Punctuation.
    ||| c == '\u{2013}' || c == '\u{2014}' || c == '\u{2018}' || c == '\u{2019}'
    ||| c == '\u{201C}' || c == '\u{201D}' || c == '\u{2020}' || c == '\u{2021}'
    ||| c == '\u{2022}' || c == '\u{2023}' || c == '\u{2026}' || c == '\u{2039}'
    ||| c == '\u{203A}' || c == '\u{2122}'
    // Math and the Greek letters used as math symbols.
    ||| c == '\u{0394}' || c == '\u{03BC}' || c == '\u{03C0}' || c == '\u{2206}'
    ||| c == '\u{2211}' || c == '\u{221A}' || c == '\u{221E}' || c == '\u{2248}'
    ||| c == '\u{2260}' || c == '\u{2264}' || c == '\u{2265}'
    // Prompt arrow ornaments.
    ||| c == '\u{276E}' || c == '\u{276F}' || c == '\u{2770}' || c == '\u{2771}'
    // Zero-width and bidi controls, variation selectors, BOM.
    ||| c == '\u{200B}' || c == '\u{200C}' || c == '\u{200D}' || c == '\u{200E}'
    ||| c == '\u{200F}' || c == '\u{2060}' || c == '\u{FE0E}' || c == '\u{FE0F}'
    ||| c == '\u{FEFF}'
    // Ranges.
    ||| in_range(c, '\u{00A1}', '\u{024F}')
    ||| in_range(c, '\u{1E00}', '\u{1EFF}')
    ||| in_range(c, '\u{2190}', '\u{21FF}')
    ||| in_range(c, '\u{23E9}', '\u{23FA}')
    ||| in_range(c, '\u{2500}', '\u{25FF}')
    ||| in_range(c, '\u{2600}', '\u{27BF}')
    ||| in_range(c, '\u{2B00}', '\u{2BFF}')
    ||| in_range(c, '\u{2800}', '\u{28FF}')
    ||| in_range(c, '\u{1F1E6}', '\u{1F1FF}')
    ||| in_range(c, '\u{1F300}', '\u{1FAFF}')
    ||| in_range(c, '\u{E0020}', '\u{E007F}')
}

/// Returns `true` if the Unicode character is on the default allowlist of
/// common, low-risk characters.
pub fn is_default_allowed(c: char) -> (r: bool)
    ensures
        r == spec_is_default_allowed(c),
{
    matches!(
        c,
        '\u{2013}' | '\u{2014}' | '\u{2018}' | '\u{2019}' | '\u{201C}' | '\u{201D}'
        | '\u{2020}' | '\u{2021}' | '\u{2022}' | '\u{2023}' | '\u{2026}' | '\u{2039}'
        | '\u{203A}' | '\u{2122}'
        | '\u{0394}' | '\u{03BC}' | '\u{03C0}' | '\u{2206}' | '\u{2211}' | '\u{221A}'
        | '\u{221E}' | '\u{2248}' | '\u{2260}' | '\u{2264}' | '\u{2265}'
        | '\u{276E}' | '\u{276F}' | '\u{2770}' | '\u{2771}'
        | '\u{200B}' | '\u{200C}' | '\u{200D}' | '\u{200E}' | '\u{200F}' | '\u{2060}'
        | '\u{FE0E}' | '\u{FE0F}' | '\u{FEFF}'
        | '\u{00A1}'..='\u{024F}'
        | '\u{1E00}'..='\u{1EFF}'
        | '\u{2190}'..='\u{21FF}'
        | '\u{23E9}'..='\u{23FA}'
        | '\u{2500}'..='\u{25FF}'
        | '\u{2600}'..='\u{27BF}'
        | '\u{2B00}'..='\u{2BFF}'
        | '\u{2800}'..='\u{28FF}'
        | '\u{1F1E6}'..='\u{1F1FF}'
        | '\u{1F300}'..='\u{1FAFF}'
        | '\u{E0020}'..='\u{E007F}'
    )
}

/* Decoding the character that starts at a non-ASCII byte */

/// The character whose UTF-8 encoding starts `bytes`, when `bytes` starts with
/// a well-formed multi-byte UTF-8 sequence; `None` otherwise (continuation
/// bytes, truncated or invalid sequences, and single ASCII bytes).
pub open spec fn spec_decode_char(bytes: Seq<u8>) -> Option<char> {
    if bytes.len() > 0 && bytes[0] >= 0x80 && valid_first_scalar(bytes) {
        Some(decode_first_scalar(bytes) as char)
    } else {
        None
    }
}

/// Converts a scalar value to a `char`.
///
/// Calls `char::from_u32`, which std documents to return `Some` exactly when
/// the value is a Unicode scalar value (at most U+10FFFF and not a surrogate),
/// and then the `char` with that value. The contract claims exactly that.
#[verifier::external_body]
fn char_from_scalar(v: u32) -> (r: Option<char>)
    ensures
        is_scalar(v) ==> r == Some(v as char),
        !is_scalar(v) ==> r is None,
{
    char::from_u32(v)
}

/// Tries to decode one non-ASCII UTF-8 character starting at `bytes[0]`.
///
/// Returns `None` for continuation bytes, truncated sequences, or invalid encodings.
fn try_decode_char(bytes: &[u8]) -> (r: Option<char>)
    ensures
        r == spec_decode_char(bytes@),
{
    if bytes.len() == 0 {
        return None;
    }
    let first = bytes[0];
    if first < 0xC0 || first >= 0xF8 {
        return None;
    }
    let len: usize = if first < 0xE0 {
        2
    } else if first < 0xF0 {
        3
    } else {
        4
    };
    if bytes.len() < len {
        return None;
    }
    let b1 = bytes[1];
    if !(0x80 <= b1 && b1 <= 0xBF) {
        return None;
    }
    if len == 2 {
        let cp: u32 = (((first & 0x1F) as u32) << 6) | ((b1 & 0x3F) as u32);
        assert((((first & 0x1F) as u32) << 6) | ((b1 & 0x3F) as u32) <= 0x7FF) by (bit_vector);
        if cp < 0x80 {
            return None;
        }
        return char_from_scalar(cp);
    }
    let b2 = bytes[2];
    if !(0x80 <= b2 && b2 <= 0xBF) {
        return None;
    }
    if len == 3 {
        let cp: u32 = (((first & 0x0F) as u32) << 12) | (((b1 & 0x3F) as u32) << 6) | ((b2
            & 0x3F) as u32);
        assert((((first & 0x0F) as u32) << 12) | (((b1 & 0x3F) as u32) << 6) | ((b2
            & 0x3F) as u32) <= 0xFFFF) by (bit_vector);
        if cp < 0x800 || (0xD800 <= cp && cp <= 0xDFFF) {
            return None;
        }
        return char_from_scalar(cp);
    }
    let b3 = bytes[3];
    if !(0x80 <= b3 && b3 <= 0xBF) {
        return None;
    }
    let cp: u32 = (((first & 0x07) as u32) << 18) | (((b1 & 0x3F) as u32) << 12) | (((b2
        & 0x3F) as u32) << 6) | ((b3 & 0x3F) as u32);
    if cp < 0x10000 || cp > 0x10FFFF {
        return None;
    }
    char_from_scalar(cp)
}


/* Lines and columns */

/// Number of line feeds among the first `i` bytes of `content`.
pub open spec fn newlines_before(content: Seq<u8>, i: int) -> nat
    decreases i,
{
    if i <= 0 {
        0
    } else {
        newlines_before(content, i - 1) + if content[i - 1] == 0x0A {
            1nat
        } else {
            0nat
        }
    }
}

/// The 1-indexed line on which byte `i` of `content` sits.
pub open spec fn line_at(content: Seq<u8>, i: int) -> int {
    newlines_before(content, i) + 1int
}

/// The index of the first byte of the line on which byte `i` sits.
pub open spec fn line_start(content: Seq<u8>, i: int) -> int
    decreases i,
{
    if i <= 0 {
        0
    } else if content[i - 1] == 0x0A {
        i
    } else {
        line_start(content, i - 1)
    }
}

/// The 1-indexed byte column of byte `i` of `content`.
pub open spec fn column_at(content: Seq<u8>, i: int) -> int {
    i - line_start(content, i) + 1
}

proof fn lemma_line_bounds(content: Seq<u8>, i: int)
    requires
        0 <= i <= content.len(),
    ensures
        newlines_before(content, i) <= i,
        0 <= line_start(content, i) <= i,
    decreases i,
{
    if i > 0 {
        lemma_line_bounds(content, i - 1);
    }
}

/// Bytes `a..b` hold no line feed, so lines and line starts agree at `a` and `b`.
proof fn lemma_same_line(content: Seq<u8>, a: int, b: int)
    requires
        0 <= a <= b <= content.len(),
        forall|j: int| a <= j < b ==> content[j] != 0x0A,
    ensures
        newlines_before(content, b) == newlines_before(content, a),
        line_start(content, b) == line_start(content, a),
    decreases b - a,
{
    if a < b {
        lemma_same_line(content, a, b - 1);
    }
}

/// Every position from the start of `q`'s line up to `q` lies on `q`'s line,
/// and every position before that start lies on an earlier line.
proof fn lemma_line_of_earlier(content: Seq<u8>, p: int, q: int)
    requires
        0 <= p <= q <= content.len(),
    ensures
        p >= line_start(content, q) ==> newlines_before(content, p) == newlines_before(content, q),
        p < line_start(content, q) ==> newlines_before(content, p) < newlines_before(content, q),
    decreases q - p,
{
    lemma_line_bounds(content, q);
    if p < q {
        lemma_line_of_earlier(content, p, q - 1);
        if content[q - 1] == 0x0A {
            lemma_monotone_newlines(content, p, q - 1);
        }
    }
}

proof fn lemma_monotone_newlines(content: Seq<u8>, p: int, q: int)
    requires
        0 <= p <= q <= content.len(),
    ensures
        newlines_before(content, p) <= newlines_before(content, q),
    decreases q - p,
{
    if p < q {
        lemma_monotone_newlines(content, p, q - 1);
    }
}

/* The suppression marker */

/// The bytes of `sakoku-ignore-next-line` (ASCII).
pub open spec fn ignore_marker() -> Seq<u8> {
    seq![
        0x73u8, 0x61, 0x6B, 0x6F, 0x6B, 0x75, 0x2D, 0x69, 0x67, 0x6E, 0x6F, 0x72,
        0x65, 0x2D, 0x6E, 0x65, 0x78, 0x74, 0x2D, 0x6C, 0x69, 0x6E, 0x65,
    ]
}

/// The suppression marker occurs in `content` at byte `q`.
pub open spec fn marker_at(content: Seq<u8>, q: int) -> bool {
    0 <= q && q + 23 <= content.len() && forall|j: int|
        0 <= j < 23 ==> #[trigger] content[q + j] == ignore_marker()[j]
}

/// Line `n` of `content` follows a line that carries the suppression marker.
pub open spec fn is_suppressed_line(content: Seq<u8>, n: int) -> bool {
    exists|q: int| #[trigger] marker_at(content, q) && line_at(content, q) + 1 == n
}

/// Whether the suppression marker occurs in `content` at byte `q`.
fn has_marker_at(content: &[u8], q: usize) -> (r: bool)
    ensures
        r == marker_at(content@, q as int),
{
    if q > content.len() || content.len() - q < 23 {
        return false;
    }
    let r = content[q] == 0x73 && content[q + 1] == 0x61 && content[q + 2] == 0x6B
        && content[q + 3] == 0x6F && content[q + 4] == 0x6B && content[q + 5] == 0x75
        && content[q + 6] == 0x2D && content[q + 7] == 0x69 && content[q + 8] == 0x67
        && content[q + 9] == 0x6E && content[q + 10] == 0x6F && content[q + 11] == 0x72
        && content[q + 12] == 0x65 && content[q + 13] == 0x2D && content[q + 14] == 0x6E
        && content[q + 15] == 0x65 && content[q + 16] == 0x78 && content[q + 17] == 0x74
        && content[q + 18] == 0x2D && content[q + 19] == 0x6C && content[q + 20] == 0x69
        && content[q + 21] == 0x6E && content[q + 22] == 0x65;
    proof {
        if !r {
            let s = content@;
            let qi = q as int;
            if marker_at(s, qi) {
                assert(s[qi + 0] == ignore_marker()[0]);
                assert(s[qi + 1] == ignore_marker()[1]);
                assert(s[qi + 2] == ignore_marker()[2]);
                assert(s[qi + 3] == ignore_marker()[3]);
                assert(s[qi + 4] == ignore_marker()[4]);
                assert(s[qi + 5] == ignore_marker()[5]);
                assert(s[qi + 6] == ignore_marker()[6]);
                assert(s[qi + 7] == ignore_marker()[7]);
                assert(s[qi + 8] == ignore_marker()[8]);
                assert(s[qi + 9] == ignore_marker()[9]);
                assert(s[qi + 10] == ignore_marker()[10]);
                assert(s[qi + 11] == ignore_marker()[11]);
                assert(s[qi + 12] == ignore_marker()[12]);
                assert(s[qi + 13] == ignore_marker()[13]);
                assert(s[qi + 14] == ignore_marker()[14]);
                assert(s[qi + 15] == ignore_marker()[15]);
                assert(s[qi + 16] == ignore_marker()[16]);
                assert(s[qi + 17] == ignore_marker()[17]);
                assert(s[qi + 18] == ignore_marker()[18]);
                assert(s[qi + 19] == ignore_marker()[19]);
                assert(s[qi + 20] == ignore_marker()[20]);
                assert(s[qi + 21] == ignore_marker()[21]);
                assert(s[qi + 22] == ignore_marker()[22]);
            }
        }
    }
    r
}


/// Every line that follows a line carrying the suppression marker, in
/// increasing order, each once.
fn find_suppressed_lines(content: &[u8]) -> (r: Vec<usize>)
    requires
        content@.len() < usize::MAX,
    ensures
        forall|k: int| 0 <= k < r@.len() ==> is_suppressed_line(content@, #[trigger] r@[k] as int),
        forall|n: int|
            #[trigger] is_suppressed_line(content@, n) ==> exists|k: int|
                0 <= k < r@.len() && r@[k] == n,
        forall|k: int, l: int| 0 <= k < l < r@.len() ==> r@[k] < r@[l],
{
    let ghost s = content@;
    let mut suppressed: Vec<usize> = Vec::new();
    let mut line: usize = 1;
    let mut marked = false;
    let mut q: usize = 0;
    while q < content.len()
        invariant
            s == content@,
            s.len() < usize::MAX,
            0 <= q <= s.len(),
            line == line_at(s, q as int),
            marked <==> exists|p: int| line_start(s, q as int) <= p < q && #[trigger] marker_at(s, p),
            forall|k: int| 0 <= k < suppressed@.len() ==> #[trigger] suppressed@[k] <= line,
            forall|k: int|
                0 <= k < suppressed@.len() ==> is_suppressed_line(s, #[trigger] suppressed@[k] as int),
            forall|p: int|
                0 <= p < line_start(s, q as int) && #[trigger] marker_at(s, p) ==> exists|k: int|
                    0 <= k < suppressed@.len() && suppressed@[k] == line_at(s, p) + 1,
            forall|k: int, l: int| 0 <= k < l < suppressed@.len() ==> suppressed@[k] < suppressed@[l],
        decreases s.len() - q,
    {
        proof {
            lemma_line_bounds(s, q as int);
        }
        if content[q] == 0x0A {
            let ghost before = suppressed@;
            if marked {
                proof {
                    let p = choose|p: int| line_start(s, q as int) <= p < q && #[trigger] marker_at(s, p);
                    lemma_line_of_earlier(s, p, q as int);
                    assert(line_at(s, p) + 1 == line + 1);
                    assert(is_suppressed_line(s, line + 1));
                }
                suppressed.push(line + 1);
            }
            proof {
                assert(line_start(s, q + 1) == q + 1);
                assert forall|p: int|
                    0 <= p < line_start(s, q + 1) && #[trigger] marker_at(s, p) implies exists|k: int|
                    0 <= k < suppressed@.len() && suppressed@[k] == line_at(s, p) + 1 by {
                    if p >= line_start(s, q as int) {
                        if p == q {
                            assert(s[p + 0] == ignore_marker()[0]);
                        }
                        lemma_line_of_earlier(s, p, q as int);
                        assert(suppressed@[suppressed@.len() - 1] == line_at(s, p) + 1);
                    } else {
                        let k = choose|k: int| 0 <= k < before.len() && before[k] == line_at(s, p) + 1;
                        assert(suppressed@[k] == before[k]);
                    }
                }
            }
            line = line + 1;
            marked = false;
        } else {
            proof {
                lemma_same_line(s, q as int, q + 1);
            }
            if !marked && has_marker_at(content, q) {
                marked = true;
            }
        }
        q = q + 1;
    }
    let ghost before = suppressed@;
    if marked {
        proof {
            let p = choose|p: int| line_start(s, q as int) <= p < q && #[trigger] marker_at(s, p);
            lemma_line_bounds(s, q as int);
            lemma_line_bounds(s, p);
            lemma_line_of_earlier(s, p, q as int);
            assert(is_suppressed_line(s, line + 1));
        }
        suppressed.push(line + 1);
    }
    proof {
        lemma_line_bounds(s, q as int);
        assert forall|n: int| #[trigger] is_suppressed_line(s, n) implies exists|k: int|
            0 <= k < suppressed@.len() && suppressed@[k] == n by {
            let p = choose|p: int| #[trigger] marker_at(s, p) && line_at(s, p) + 1 == n;
            if p >= line_start(s, q as int) {
                lemma_line_of_earlier(s, p, q as int);
                assert(suppressed@[suppressed@.len() - 1] == n);
            } else {
                let k = choose|k: int| 0 <= k < before.len() && before[k] == line_at(s, p) + 1;
                assert(suppressed@[k] == before[k]);
            }
        }
    }
    suppressed
}


/* Scanning */

/// How far the scan moves on from byte `i`: a whole character when `i` starts
/// a decodable multi-byte character, one byte otherwise.
pub open spec fn advance_at(content: Seq<u8>, i: int) -> int {
    if !spec_is_allowed(content[i]) && spec_decode_char(content.skip(i)) is Some {
        length_of_first_scalar(content.skip(i))
    } else {
        1
    }
}

/// The default allowlist accepts the character that starts at byte `i`.
pub open spec fn accepted_by_allowlist(content: Seq<u8>, options: CheckOptions, i: int) -> bool {
    !options.strict && (spec_decode_char(content.skip(i)) matches Some(c)
        && spec_is_default_allowed(c))
}

/// Byte `i`, where the scan stops, is reported as a violation.
pub open spec fn is_reported(content: Seq<u8>, options: CheckOptions, i: int) -> bool {
    &&& !spec_is_allowed(content[i])
    &&& !accepted_by_allowlist(content, options, i)
    &&& !is_suppressed_line(content, line_at(content, i))
}

/// The violation that byte `i` of `content` stands for.
pub open spec fn violation_at(content: Seq<u8>, i: int) -> Violation {
    Violation {
        line: line_at(content, i) as usize,
        column: column_at(content, i) as usize,
        byte: content[i],
        char_display: spec_decode_char(content.skip(i)),
    }
}

/// The violations found by a scan that stops at byte `i` and then moves on
/// character by character to the end of `content`.
pub open spec fn violations_from(content: Seq<u8>, options: CheckOptions, i: int) -> Seq<Violation>
    decreases content.len() - i,
{
    if 0 <= i < content.len() {
        let rest = violations_from(content, options, i + advance_at(content, i));
        if is_reported(content, options, i) {
            seq![violation_at(content, i)] + rest
        } else {
            rest
        }
    } else {
        seq![]
    }
}

/// Every violation in `content` under `options`, in the order of the bytes.
pub open spec fn spec_check_bytes(content: Seq<u8>, options: CheckOptions) -> Seq<Violation> {
    violations_from(content, options, 0)
}

/// Whether `lines` holds `line`.
fn contains_line(lines: &Vec<usize>, line: usize) -> (r: bool)
    ensures
        r == lines@.contains(line),
{
    let mut k: usize = 0;
    while k < lines.len()
        invariant
            0 <= k <= lines@.len(),
            forall|j: int| 0 <= j < k ==> lines@[j] != line,
        decreases lines@.len() - k,
    {
        if lines[k] == line {
            return true;
        }
        k = k + 1;
    }
    false
}

/// Scans `content` byte by byte and returns every non-ASCII violation found.
///
/// Multi-byte UTF-8 characters are reported as a single violation at the lead byte,
/// and the column counter advances by the full character width.
///
/// Lines preceded by a `sakoku-ignore-next-line` marker are excluded from results.
///
/// Characters covered by [`is_default_allowed`] are silently accepted unless
/// `options.strict` is `true`, in which case every non-ASCII byte is reported.
pub fn check_bytes(content: &[u8], options: CheckOptions) -> (r: Vec<Violation>)
    requires
        content@.len() < usize::MAX,
    ensures
        r@ == spec_check_bytes(content@, options),
{
    let ghost s = content@;
    let suppressed = find_suppressed_lines(content);
    let mut violations: Vec<Violation> = Vec::new();
    let mut line: usize = 1;
    let mut col: usize = 1;
    let mut i: usize = 0;
    while i < content.len()
        invariant
            s == content@,
            s.len() < usize::MAX,
            0 <= i <= s.len(),
            line == line_at(s, i as int),
            col == column_at(s, i as int),
            violations_from(s, options, 0) == violations@ + violations_from(s, options, i as int),
            forall|k: int|
                0 <= k < suppressed@.len() ==> is_suppressed_line(s, #[trigger] suppressed@[k] as int),
            forall|n: int|
                #[trigger] is_suppressed_line(s, n) ==> exists|k: int|
                    0 <= k < suppressed@.len() && suppressed@[k] == n,
        decreases s.len() - i,
    {
        proof {
            lemma_line_bounds(s, i as int);
        }
        let byte = content[i];
        if is_allowed(byte) {
            if byte == 0x0A {
                line = line + 1;
                col = 1;
            } else {
                proof {
                    lemma_same_line(s, i as int, i + 1);
                }
                col = col + 1;
            }
            i = i + 1;
        } else {
            let char_display = try_decode_char(slice_subrange(content, i, content.len()));
            let advance: usize = match char_display {
                Some(_) => if byte < 0xE0 {
                    2
                } else if byte < 0xF0 {
                    3
                } else {
                    4
                },
                None => 1,
            };
            proof {
                let t = s.skip(i as int);
                assert(t[0] == byte);
                assert(advance == advance_at(s, i as int));
                assert forall|j: int| i <= j < i + advance implies s[j] != 0x0A by {
                    assert(s[j] == t[j - i]);
                }
                lemma_same_line(s, i as int, i + advance);
            }
            let accepted = match char_display {
                Some(c) => !options.strict && is_default_allowed(c),
                None => false,
            };
            if !accepted {
                let is_suppressed = contains_line(&suppressed, line);
                proof {
                    if is_suppressed_line(s, line as int) {
                        let k = choose|k: int| 0 <= k < suppressed@.len() && suppressed@[k] == line;
                        assert(suppressed@[k] == line);
                    }
                    if is_suppressed {
                        let k = choose|k: int| 0 <= k < suppressed@.len() && suppressed@[k] == line;
                        assert(is_suppressed_line(s, suppressed@[k] as int));
                    }
                }
                if !is_suppressed {
                    let v = Violation { line, column: col, byte, char_display };
                    assert(v == violation_at(s, i as int));
                    violations.push(v);
                }
            }
            col = col + advance;
            i = i + advance;
        }
    }
    violations
}


/* Laws of the scan */

/// Every violation found from byte `i` on stands for a reported byte at or
/// after `i`.
proof fn lemma_violations_are_reported_bytes(content: Seq<u8>, options: CheckOptions, i: int)
    requires
        0 <= i,
    ensures
        forall|k: int|
            0 <= k < violations_from(content, options, i).len() ==> exists|j: int|
                i <= j < content.len() && is_reported(content, options, j)
                    && #[trigger] violations_from(content, options, i)[k] == violation_at(
                    content,
                    j,
                ),
    decreases content.len() - i,
{
    if 0 <= i < content.len() {
        let next = i + advance_at(content, i);
        lemma_violations_are_reported_bytes(content, options, next);
        let rest = violations_from(content, options, next);
        let all = violations_from(content, options, i);
        assert forall|k: int| 0 <= k < all.len() implies exists|j: int|
            i <= j < content.len() && is_reported(content, options, j) && #[trigger] all[k]
                == violation_at(content, j) by {
            if is_reported(content, options, i) {
                if k == 0 {
                    assert(all[0] == violation_at(content, i));
                } else {
                    assert(all[k] == rest[k - 1]);
                }
            } else {
                assert(all[k] == rest[k]);
            }
        }
    }
}

/// What every reported violation carries: a byte that is not allowed, the
/// line and column at which it sits, a line that no suppression marker
/// covers, and -- at the default level -- a character outside the default
/// allowlist.
pub proof fn law_violations_are_flagged_bytes(content: Seq<u8>, options: CheckOptions)
    requires
        content.len() < usize::MAX,
    ensures
        forall|k: int|
            0 <= k < spec_check_bytes(content, options).len() ==> {
                let v = #[trigger] spec_check_bytes(content, options)[k];
                &&& !spec_is_allowed(v.byte)
                &&& !is_suppressed_line(content, v.line as int)
                &&& (!options.strict ==> !(v.char_display matches Some(c)
                    && spec_is_default_allowed(c)))
            },
{
    lemma_violations_are_reported_bytes(content, options, 0);
    assert forall|k: int| 0 <= k < spec_check_bytes(content, options).len() implies {
        let v = #[trigger] spec_check_bytes(content, options)[k];
        &&& !spec_is_allowed(v.byte)
        &&& !is_suppressed_line(content, v.line as int)
        &&& (!options.strict ==> !(v.char_display matches Some(c) && spec_is_default_allowed(c)))
    } by {
        let j = choose|j: int|
            0 <= j < content.len() && is_reported(content, options, j) && #[trigger] spec_check_bytes(
                content,
                options,
            )[k] == violation_at(content, j);
        lemma_line_bounds(content, j);
    }
}

/// Content made only of allowed bytes (tab, line feed, carriage return and
/// printable ASCII) has no violation, at any level.
pub proof fn law_allowed_content_is_clean(content: Seq<u8>, options: CheckOptions)
    requires
        forall|i: int| 0 <= i < content.len() ==> spec_is_allowed(#[trigger] content[i]),
    ensures
        spec_check_bytes(content, options).len() == 0,
{
    lemma_violations_are_reported_bytes(content, options, 0);
    if spec_check_bytes(content, options).len() > 0 {
        let j = choose|j: int|
            0 <= j < content.len() && is_reported(content, options, j) && #[trigger] spec_check_bytes(
                content,
                options,
            )[0] == violation_at(content, j);
        assert(spec_is_allowed(content[j]));
    }
}

/// The violations that remain once those whose character is on the default
/// allowlist are dropped.
pub open spec fn without_allowlisted(vs: Seq<Violation>) -> Seq<Violation>
    decreases vs.len(),
{
    if vs.len() == 0 {
        Seq::empty()
    } else if vs[0].char_display matches Some(c) && spec_is_default_allowed(c) {
        without_allowlisted(vs.drop_first())
    } else {
        seq![vs[0]] + without_allowlisted(vs.drop_first())
    }
}

proof fn lemma_default_from_strict(content: Seq<u8>, i: int)
    requires
        0 <= i,
    ensures
        violations_from(content, CheckOptions { strict: false }, i) == without_allowlisted(
            violations_from(content, CheckOptions { strict: true }, i),
        ),
    decreases content.len() - i,
{
    if 0 <= i < content.len() {
        let next = i + advance_at(content, i);
        lemma_default_from_strict(content, next);
        let strict_rest = violations_from(content, CheckOptions { strict: true }, next);
        if is_reported(content, CheckOptions { strict: true }, i) {
            let all = seq![violation_at(content, i)] + strict_rest;
            assert(all.drop_first() =~= strict_rest);
            assert(all[0] == violation_at(content, i));
        }
    }
}

/// The default level reports exactly what strict mode reports, less the
/// characters on the default allowlist, in the same order and at the same
/// places.
pub proof fn law_default_is_strict_without_allowlist(content: Seq<u8>)
    ensures
        spec_check_bytes(content, CheckOptions { strict: false }) == without_allowlisted(
            spec_check_bytes(content, CheckOptions { strict: true }),
        ),
{
    lemma_default_from_strict(content, 0);
}

proof fn lemma_lines_in_order(content: Seq<u8>, options: CheckOptions, i: int)
    requires
        0 <= i <= content.len(),
        content.len() < usize::MAX,
    ensures
        forall|k: int|
            0 <= k < violations_from(content, options, i).len() ==> line_at(content, i)
                <= #[trigger] violations_from(content, options, i)[k].line,
        forall|k: int, l: int|
            0 <= k < l < violations_from(content, options, i).len() ==> violations_from(
                content,
                options,
                i,
            )[k].line <= violations_from(content, options, i)[l].line,
    decreases content.len() - i,
{
    if i < content.len() {
        let next = i + advance_at(content, i);
        lemma_lines_in_order(content, options, next);
        lemma_monotone_newlines(content, i, next);
        lemma_line_bounds(content, i);
        let rest = violations_from(content, options, next);
        let all = violations_from(content, options, i);
        if is_reported(content, options, i) {
            assert forall|k: int| 0 < k < all.len() implies all[k] == rest[k - 1] by {}
            assert(all[0].line == line_at(content, i));
        }
    }
}

/// Violations come in the order of the content: their lines never decrease.
pub proof fn law_violations_in_line_order(content: Seq<u8>, options: CheckOptions)
    requires
        content.len() < usize::MAX,
    ensures
        forall|k: int, l: int|
            0 <= k < l < spec_check_bytes(content, options).len() ==> spec_check_bytes(
                content,
                options,
            )[k].line <= spec_check_bytes(content, options)[l].line,
{
    lemma_lines_in_order(content, options, 0);
}


/// The decoder finds a non-ASCII character at the start of its own UTF-8
/// encoding, whatever follows it, and the scan then moves on by the whole
/// encoding.
pub proof fn law_decode_finds_encoded_char(c: char, rest: Seq<u8>)
    requires
        c as u32 >= 0x80,
    ensures
        spec_decode_char(encode_scalar(c as u32) + rest) == Some(c),
        length_of_first_scalar(encode_scalar(c as u32) + rest) == encode_scalar(c as u32).len(),
{
    let chars = seq![c];
    encode_utf8_first_scalar(chars);
    assert(chars.drop_first() =~= Seq::<char>::empty());
    assert(encode_utf8(Seq::<char>::empty()) =~= Seq::<u8>::empty());
    assert(encode_utf8(chars) =~= encode_scalar(c as u32));
    let e = encode_scalar(c as u32);
    let b = e + rest;
    assert(e.len() >= 1);
    let e0 = e[0];
    assert((e0 & 0x7F) as u32 <= 0x7F) by (bit_vector);
    assert(b[0] == e[0]);
    assert(e.len() >= 2 ==> b[1] == e[1]);
    assert(e.len() >= 3 ==> b[2] == e[2]);
    assert(e.len() >= 4 ==> b[3] == e[3]);
    assert(valid_first_scalar(b));
    assert(decode_first_scalar(b) == decode_first_scalar(e));
    char_u32_cast(c, decode_first_scalar(b));
}


/// What strict mode shows for each character of a text, in order: the
/// character itself for every non-ASCII character, `None` for every ASCII
/// byte that is not allowed, nothing for allowed ASCII.
pub open spec fn flagged_displays(chars: Seq<char>) -> Seq<Option<char>>
    decreases chars.len(),
{
    if chars.len() == 0 {
        Seq::empty()
    } else if chars[0] as u32 >= 0x80 {
        seq![Some(chars[0])] + flagged_displays(chars.drop_first())
    } else if spec_is_allowed(chars[0] as u32 as u8) {
        flagged_displays(chars.drop_first())
    } else {
        seq![None] + flagged_displays(chars.drop_first())
    }
}

proof fn lemma_strict_follows_characters(content: Seq<u8>, i: int, tail: Seq<char>)
    requires
        0 <= i <= content.len(),
        content.skip(i) == encode_utf8(tail),
        forall|q: int| !#[trigger] marker_at(content, q),
    ensures
        violations_from(content, CheckOptions { strict: true }, i).map_values(
            |v: Violation| v.char_display,
        ) == flagged_displays(tail),
    decreases tail.len(),
{
    let strict = CheckOptions { strict: true };
    if tail.len() == 0 {
        assert(content.skip(i).len() == 0);
        assert(violations_from(content, strict, i) =~= Seq::<Violation>::empty());
    } else {
        let c = tail[0];
        char_is_scalar(c);
        let e = encode_scalar(c as u32);
        let after = encode_utf8(tail.drop_first());
        assert(content.skip(i) == e + after);
        assert(is_scalar(c as u32));
        if c as u32 >= 0x80 {
            law_decode_finds_encoded_char(c, after);
            assert(e.len() >= 2);
            assert(content[i] == (e + after)[0]);
            let e0 = e[0];
            assert(e0 >= 0x80) by {
                assert((e + after)[0] == e0);
            }
        } else {
            let cu = c as u32;
            assert(cu < 0x80 ==> (cu & 0x7F) as u8 == cu as u8) by (bit_vector);
            assert(e =~= seq![cu as u8]);
            assert(content[i] == (e + after)[0]);
        }
        let next = i + e.len();
        assert(advance_at(content, i) == e.len());
        assert(content.skip(next) =~= after) by {
            assert forall|j: int| 0 <= j < after.len() implies content.skip(next)[j] == after[j] by {
                assert(content.skip(next)[j] == content.skip(i)[j + e.len()]);
            }
        }
        lemma_strict_follows_characters(content, next, tail.drop_first());
        assert(!is_suppressed_line(content, line_at(content, i)));
        let rest = violations_from(content, strict, next);
        let all = violations_from(content, strict, i);
        let f = |v: Violation| v.char_display;
        if is_reported(content, strict, i) {
            assert(all.map_values(f) =~= seq![all[0].char_display] + rest.map_values(f));
        }
    }
}

/// In strict mode, a text without suppression markers has one violation per
/// non-ASCII character -- reported once, at its lead byte, with the character
/// itself -- and one per ASCII byte that is not allowed, in the order of the
/// text.
pub proof fn law_strict_reports_each_character_once(chars: Seq<char>)
    requires
        forall|q: int| !#[trigger] marker_at(encode_utf8(chars), q),
    ensures
        spec_check_bytes(encode_utf8(chars), CheckOptions { strict: true }).map_values(
            |v: Violation| v.char_display,
        ) == flagged_displays(chars),
{
    let content = encode_utf8(chars);
    assert(content.skip(0) =~= content);
    lemma_strict_follows_characters(content, 0, chars);
}


/// The bytes that the scan accepts: tab, line feed, carriage return and the
/// printable ASCII range 0x20-0x7E; every other byte, including NUL and DEL,
/// is flagged.
pub proof fn law_allowed_bytes(b: u8)
    ensures
        spec_is_allowed(b) <==> (b == 9 || b == 10 || b == 13 || (32 <= b && b <= 126)),
{
}

/// The default allowlist, stated range by range: typography, math and the
/// Greek math letters, prompt ornaments, zero-width and bidi controls,
/// variation selectors and BOM, upper Latin-1 and Latin Extended-A/B,
/// Latin Extended Additional, Arrows, media controls, box drawing and shapes,
/// misc symbols and Dingbats, misc symbols and arrows, Braille, regional
/// indicators, the emoji blocks U+1F300-U+1FAFF and the tag characters.
/// Everything else -- CJK, Hangul, kana, full-width ASCII, Cyrillic, the rest
/// of Greek, U+00A0, the bidi overrides U+202A-U+202E -- is not on it.
pub proof fn law_allowlist_members(c: char)
    ensures
        spec_is_default_allowed(c) <==> {
            ||| c == '\u{2013}' || c == '\u{2014}' || c == '\u{2018}' || c == '\u{2019}'
            ||| c == '\u{201C}' || c == '\u{201D}' || c == '\u{2020}' || c == '\u{2021}'
            ||| c == '\u{2022}' || c == '\u{2023}' || c == '\u{2026}' || c == '\u{2039}'
            ||| c == '\u{203A}' || c == '\u{2122}'
            ||| c == '\u{0394}' || c == '\u{03BC}' || c == '\u{03C0}' || c == '\u{2206}'
            ||| c == '\u{2211}' || c == '\u{221A}' || c == '\u{221E}' || c == '\u{2248}'
            ||| c == '\u{2260}' || c == '\u{2264}' || c == '\u{2265}'
            ||| c == '\u{276E}' || c == '\u{276F}' || c == '\u{2770}' || c == '\u{2771}'
            ||| ('\u{200B}' <= c && c <= '\u{200F}') || c == '\u{2060}'
            ||| c == '\u{FE0E}' || c == '\u{FE0F}' || c == '\u{FEFF}'
            ||| '\u{00A1}' <= c && c <= '\u{024F}'
            ||| '\u{1E00}' <= c && c <= '\u{1EFF}'
            ||| '\u{2190}' <= c && c <= '\u{21FF}'
            ||| '\u{23E9}' <= c && c <= '\u{23FA}'
            ||| '\u{2500}' <= c && c <= '\u{25FF}'
            ||| '\u{2600}' <= c && c <= '\u{27BF}'
            ||| '\u{2B00}' <= c && c <= '\u{2BFF}'
            ||| '\u{2800}' <= c && c <= '\u{28FF}'
            ||| '\u{1F1E6}' <= c && c <= '\u{1F1FF}'
            ||| '\u{1F300}' <= c && c <= '\u{1FAFF}'
            ||| '\u{E0020}' <= c && c <= '\u{E007F}'
        },
        ('\u{3040}' <= c && c <= '\u{9FFF}') || ('\u{AC00}' <= c && c <= '\u{D7A3}') || ('\u{FF00}'
            <= c && c <= '\u{FF5F}') || ('\u{0400}' <= c && c <= '\u{04FF}') || c == '\u{00A0}'
            || ('\u{202A}' <= c && c <= '\u{202E}') ==> !spec_is_default_allowed(c),
{
}

/// Every character of `chars` is fine at the default level: an allowed ASCII
/// byte, or a non-ASCII character on the default allowlist.
pub open spec fn all_accepted_at_default(chars: Seq<char>) -> bool {
    forall|k: int|
        0 <= k < chars.len() ==> if (#[trigger] chars[k]) as u32 >= 0x80 {
            spec_is_default_allowed(chars[k])
        } else {
            spec_is_allowed(chars[k] as u32 as u8)
        }
}

proof fn lemma_default_accepts_characters(content: Seq<u8>, i: int, tail: Seq<char>)
    requires
        0 <= i <= content.len(),
        content.skip(i) == encode_utf8(tail),
        all_accepted_at_default(tail),
    ensures
        violations_from(content, CheckOptions { strict: false }, i).len() == 0,
    decreases tail.len(),
{
    let default = CheckOptions { strict: false };
    if tail.len() == 0 {
        assert(content.skip(i).len() == 0);
    } else {
        let c = tail[0];
        char_is_scalar(c);
        let e = encode_scalar(c as u32);
        let after = encode_utf8(tail.drop_first());
        assert(content.skip(i) == e + after);
        if c as u32 >= 0x80 {
            law_decode_finds_encoded_char(c, after);
            assert(e.len() >= 2);
            assert(content[i] == (e + after)[0]);
            let e0 = e[0];
            assert(e0 >= 0x80) by {
                assert((e + after)[0] == e0);
            }
        } else {
            let cu = c as u32;
            assert(cu < 0x80 ==> (cu & 0x7F) as u8 == cu as u8) by (bit_vector);
            assert(e =~= seq![cu as u8]);
            assert(content[i] == (e + after)[0]);
        }
        let next = i + e.len();
        assert(advance_at(content, i) == e.len());
        assert(content.skip(next) =~= after) by {
            assert forall|j: int| 0 <= j < after.len() implies content.skip(next)[j] == after[j] by {
                assert(content.skip(next)[j] == content.skip(i)[j + e.len()]);
            }
        }
        let rest = tail.drop_first();
        assert forall|k: int| 0 <= k < rest.len() implies (if (#[trigger] rest[k]) as u32 >= 0x80 {
            spec_is_default_allowed(rest[k])
        } else {
            spec_is_allowed(rest[k] as u32 as u8)
        }) by {
            assert(rest[k] == tail[k + 1]);
        }
        lemma_default_accepts_characters(content, next, rest);
        assert(!is_reported(content, default, i));
    }
}

/// Text made of allowed ASCII and characters on the default allowlist has no
/// violation at the default level, whatever else it holds.
pub proof fn law_default_accepts_allowlisted_text(chars: Seq<char>)
    requires
        all_accepted_at_default(chars),
    ensures
        spec_check_bytes(encode_utf8(chars), CheckOptions { strict: false }).len() == 0,
{
    let content = encode_utf8(chars);
    assert(content.skip(0) =~= content);
    lemma_default_accepts_characters(content, 0, chars);
}

/// The suppression marker works wherever it stands on its line: when bytes
/// `q..q+23` spell `sakoku-ignore-next-line`, no violation is reported on the
/// line after the one holding byte `q`, whatever surrounds the marker.
pub proof fn law_marker_suppresses_next_line(content: Seq<u8>, options: CheckOptions, q: int)
    requires
        content.len() < usize::MAX,
        0 <= q,
        q + 23 <= content.len(),
        content.subrange(q, q + 23) == seq![
            0x73u8, 0x61, 0x6B, 0x6F, 0x6B, 0x75, 0x2D, 0x69, 0x67, 0x6E, 0x6F, 0x72,
            0x65, 0x2D, 0x6E, 0x65, 0x78, 0x74, 0x2D, 0x6C, 0x69, 0x6E, 0x65,
        ],
    ensures
        forall|k: int|
            0 <= k < spec_check_bytes(content, options).len() ==> (#[trigger] spec_check_bytes(
                content,
                options,
            )[k]).line != line_at(content, q) + 1,
{
    assert forall|j: int| 0 <= j < 23 implies #[trigger] content[q + j] == ignore_marker()[j] by {
        assert(content[q + j] == content.subrange(q, q + 23)[j]);
    }
    assert(marker_at(content, q));
    law_violations_are_flagged_bytes(content, options);
    assert forall|k: int| 0 <= k < spec_check_bytes(content, options).len() implies (
    #[trigger] spec_check_bytes(content, options)[k]).line != line_at(content, q) + 1 by {
        let v = spec_check_bytes(content, options)[k];
        if v.line == line_at(content, q) + 1 {
            assert(is_suppressed_line(content, v.line as int));
        }
    }
}


/// Number of line feed bytes in `s`.
pub open spec fn count_line_feeds(s: Seq<u8>) -> nat
    decreases s.len(),
{
    if s.len() == 0 {
        0
    } else {
        count_line_feeds(s.drop_last()) + if s.last() == 0x0A {
            1nat
        } else {
            0nat
        }
    }
}

proof fn lemma_newlines_count(content: Seq<u8>, i: int)
    requires
        0 <= i <= content.len(),
    ensures
        newlines_before(content, i) == count_line_feeds(content.take(i)),
        0 <= line_start(content, i) <= i,
        forall|t: int| line_start(content, i) <= t < i ==> content[t] != 0x0A,
        line_start(content, i) == 0 || content[line_start(content, i) - 1] == 0x0A,
    decreases i,
{
    if i > 0 {
        lemma_newlines_count(content, i - 1);
        assert(content.take(i).drop_last() =~= content.take(i - 1));
    }
}

/// Where each violation comes from: a byte of the content with the reported
/// value, on the line numbered one more than the line feeds before it, at the
/// column numbered one more than the bytes between it and the previous line
/// feed (or the start); its character is the one decoded there.
pub proof fn law_violation_positions(content: Seq<u8>, options: CheckOptions)
    requires
        content.len() < usize::MAX,
    ensures
        forall|k: int|
            0 <= k < spec_check_bytes(content, options).len() ==> exists|j: int|
                {
                    let v = #[trigger] spec_check_bytes(content, options)[k];
                    let start = j - v.column + 1;
                    &&& 0 <= j < content.len()
                    &&& #[trigger] content[j] == v.byte
                    &&& v.char_display == spec_decode_char(content.skip(j))
                    &&& v.line == count_line_feeds(content.take(j)) + 1
                    &&& 0 <= start <= j
                    &&& forall|t: int| start <= t < j ==> content[t] != 0x0A
                    &&& (start == 0 || content[start - 1] == 0x0A)
                },
{
    lemma_violations_are_reported_bytes(content, options, 0);
    assert forall|k: int| 0 <= k < spec_check_bytes(content, options).len() implies exists|j: int|
        {
            let v = #[trigger] spec_check_bytes(content, options)[k];
            let start = j - v.column + 1;
            &&& 0 <= j < content.len()
            &&& #[trigger] content[j] == v.byte
            &&& v.char_display == spec_decode_char(content.skip(j))
            &&& v.line == count_line_feeds(content.take(j)) + 1
            &&& 0 <= start <= j
            &&& forall|t: int| start <= t < j ==> content[t] != 0x0A
            &&& (start == 0 || content[start - 1] == 0x0A)
        } by {
        let j = choose|j: int|
            0 <= j < content.len() && is_reported(content, options, j) && #[trigger] spec_check_bytes(
                content,
                options,
            )[k] == violation_at(content, j);
        lemma_newlines_count(content, j);
        lemma_line_bounds(content, j);
        let v = spec_check_bytes(content, options)[k];
        assert(v.column as int == column_at(content, j));
        assert(j - v.column + 1 == line_start(content, j));
    }
}


/// The decoder only ever answers with the character whose UTF-8 encoding the
/// bytes start with, and never for an ASCII lead byte: together with
/// `law_decode_finds_encoded_char`, `Some(c)` exactly when the bytes start
/// with the encoding of the non-ASCII character `c`.
pub proof fn law_decoded_char_is_encoded_there(b: Seq<u8>)
    ensures
        spec_decode_char(b) matches Some(c) ==> {
            &&& c as u32 >= 0x80
            &&& encode_scalar(c as u32).len() <= b.len()
            &&& b.take(encode_scalar(c as u32).len() as int) == encode_scalar(c as u32)
        },
        b.len() > 0 && b[0] < 0x80 ==> spec_decode_char(b) is None,
{
    if let Some(c) = spec_decode_char(b) {
        let w = b.take(length_of_first_scalar(b));
        assert(w[0] == b[0]);
        assert(w.len() >= 2 ==> w[1] == b[1]);
        assert(w.len() >= 3 ==> w[2] == b[2]);
        assert(w.len() >= 4 ==> w[3] == b[3]);
        assert(valid_first_scalar(w));
        assert(decode_first_scalar(w) == decode_first_scalar(b));
        assert(length_of_first_scalar(w) == w.len());
        assert(pop_first_scalar(w) =~= Seq::<u8>::empty());
        assert(valid_utf8(Seq::<u8>::empty()));
        assert(valid_utf8(w));
        decode_utf8_first_scalar(w);
        assert(w.subrange(0, length_of_first_scalar(w)) =~= w);
        assert(encode_scalar(c as u32) == w);
        char_is_scalar(c);
    }
}

} // verus!
