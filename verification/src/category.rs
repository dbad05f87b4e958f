use vstd::prelude::*;

use crate::checker::{
    CheckOptions, Violation, in_range, is_default_allowed, law_violations_are_flagged_bytes,
    spec_check_bytes, spec_is_default_allowed,
};

verus! {

/// Classifies a non-ASCII violation by the remediation a coding agent should
/// take, not by which Unicode block the character happens to live in.
///
/// - `Fullwidth`: deterministic, mechanical substitutions.
/// - `Cjk`: natural-language text that needs a translation pass.
/// - `Homoglyph`: look-alikes of Latin letters, a security concern rather
///   than a language one.
/// - `Symbol`: characters the default allowlist tolerates; they only appear
///   as violations under `--strict`.
/// - `Other`: everything left over, including undecodable bytes.
///
/// The declaration order is the order in which summaries list categories.
#[derive(Debug, Clone, Copy, PartialEq, Eq, Structural, PartialOrd, Ord)]
pub enum Category {
    /// Natural-language CJK/Hangul script text: needs translation, not a
    /// mechanical substitution.
    Cjk,
    /// Deterministically machine-replaceable with an ASCII equivalent
    /// (including U+3000 IDEOGRAPHIC SPACE and U+00A0 NO-BREAK SPACE).
    Fullwidth,
    /// Resembles a Latin letter closely enough to be a homoglyph attack
    /// vector (Greek and Cyrillic).
    Homoglyph,
    /// Already accepted by the default allowlist; this variant only ever
    /// appears when scanning with `--strict`.
    Symbol,
    /// Everything else, including bytes that failed to decode as UTF-8.
    Other,
}

/// Full-width ASCII variants, the ideographic space and the no-break space.
pub open spec fn is_fullwidth_char(c: char) -> bool {
    c == '\u{00A0}' || c == '\u{3000}' || in_range(c, '\u{FF01}', '\u{FF5E}')
}

/// CJK, Hangul, Hiragana and Katakana text.
pub open spec fn is_cjk_char(c: char) -> bool {
    ||| in_range(c, '\u{1100}', '\u{11FF}')
    ||| in_range(c, '\u{3001}', '\u{303F}')
    ||| in_range(c, '\u{3040}', '\u{30FF}')
    ||| in_range(c, '\u{3400}', '\u{4DBF}')
    ||| in_range(c, '\u{4E00}', '\u{9FFF}')
    ||| in_range(c, '\u{AC00}', '\u{D7A3}')
    ||| in_range(c, '\u{F900}', '\u{FAFF}')
    ||| in_range(c, '\u{FF61}', '\u{FF9F}')
}

/// Greek and Cyrillic letters, except the three Greek letters used as math
/// symbols (U+0394 Delta, U+03BC mu, U+03C0 pi).
pub open spec fn is_homoglyph_char(c: char) -> bool {
    (in_range(c, '\u{0370}', '\u{03FF}') || in_range(c, '\u{0400}', '\u{04FF}')) && !(c
        == '\u{0394}' || c == '\u{03BC}' || c == '\u{03C0}')
}

/// The category of a violation whose decoded character is `c` (`None` for an
/// undecodable byte). The first matching rule wins: full-width, then CJK,
/// then homoglyph, then the default allowlist.
pub open spec fn spec_classify(c: Option<char>) -> Category {
    match c {
        None => Category::Other,
        Some(c) => if is_fullwidth_char(c) {
            Category::Fullwidth
        } else if is_cjk_char(c) {
            Category::Cjk
        } else if is_homoglyph_char(c) {
            Category::Homoglyph
        } else if spec_is_default_allowed(c) {
            Category::Symbol
        } else {
            Category::Other
        },
    }
}

/// The label of a category.
pub open spec fn spec_label(c: Category) -> Seq<char> {
    match c {
        Category::Cjk => "cjk"@,
        Category::Fullwidth => "fullwidth"@,
        Category::Homoglyph => "homoglyph"@,
        Category::Symbol => "symbol"@,
        Category::Other => "other"@,
    }
}

/// The position of a category in declaration order.
pub open spec fn rank(c: Category) -> int {
    match c {
        Category::Cjk => 0,
        Category::Fullwidth => 1,
        Category::Homoglyph => 2,
        Category::Symbol => 3,
        Category::Other => 4,
    }
}

impl Category {
    /// Classifies a violation by remediation strategy.
    ///
    /// `None` (an undecodable byte) always maps to [`Category::Other`].
    /// `Fullwidth` and `Cjk` are checked first; the Greek/Cyrillic
    /// `Homoglyph` check excludes U+0394, U+03BC and U+03C0, which are on the
    /// default allowlist as math symbols and so classify as `Symbol`.
    pub fn classify(v: &Violation) -> (r: Self)
        ensures
            r == spec_classify(v.char_display),
    {
        let c = match v.char_display {
            None => return Category::Other,
            Some(c) => c,
        };
        match c {
            '\u{00A0}' | '\u{3000}' | '\u{FF01}'..='\u{FF5E}' => Category::Fullwidth,
            '\u{1100}'..='\u{11FF}'
            | '\u{3001}'..='\u{303F}'
            | '\u{3040}'..='\u{30FF}'
            | '\u{3400}'..='\u{4DBF}'
            | '\u{4E00}'..='\u{9FFF}'
            | '\u{AC00}'..='\u{D7A3}'
            | '\u{F900}'..='\u{FAFF}'
            | '\u{FF61}'..='\u{FF9F}' => Category::Cjk,
            // Delta, mu and pi are on the default allowlist as math symbols,
            // not homoglyph risks.
            '\u{0394}' | '\u{03BC}' | '\u{03C0}' => Category::Symbol,
            '\u{0370}'..='\u{03FF}' | '\u{0400}'..='\u{04FF}' => Category::Homoglyph,
            _ => if is_default_allowed(c) {
                Category::Symbol
            } else {
                Category::Other
            },
        }
    }

    /// Returns the lowercase, machine-stable label for this category.
    pub fn label(self) -> (r: &'static str)
        ensures
            r@ == spec_label(self),
    {
        match self {
            Category::Cjk => "cjk",
            Category::Fullwidth => "fullwidth",
            Category::Homoglyph => "homoglyph",
            Category::Symbol => "symbol",
            Category::Other => "other",
        }
    }
}


/// A violation falls in `Symbol` only when its character is on the default
/// allowlist, so the default level -- which lets those characters through --
/// never reports a `Symbol`; the category only appears under `--strict`.
pub proof fn law_symbol_only_under_strict(content: Seq<u8>)
    requires
        content.len() < usize::MAX,
    ensures
        forall|k: int|
            0 <= k < spec_check_bytes(content, CheckOptions { strict: false }).len()
                ==> spec_classify(
                #[trigger] spec_check_bytes(content, CheckOptions { strict: false })[k].char_display,
            ) != Category::Symbol,
{
    law_violations_are_flagged_bytes(content, CheckOptions { strict: false });
}


/// CJK, Hangul and kana characters -- and nothing else -- classify as `Cjk`:
/// Hangul Jamo U+1100-U+11FF, CJK Symbols and Punctuation U+3001-U+303F,
/// Hiragana and Katakana U+3040-U+30FF, CJK Extension A U+3400-U+4DBF,
/// CJK Unified Ideographs U+4E00-U+9FFF, Hangul Syllables U+AC00-U+D7A3,
/// CJK Compatibility Ideographs U+F900-U+FAFF, Halfwidth Katakana
/// U+FF61-U+FF9F.
pub proof fn law_cjk_ranges(c: char)
    ensures
        spec_classify(Some(c)) == Category::Cjk <==> {
            ||| '\u{1100}' <= c && c <= '\u{11FF}'
            ||| '\u{3001}' <= c && c <= '\u{303F}'
            ||| '\u{3040}' <= c && c <= '\u{30FF}'
            ||| '\u{3400}' <= c && c <= '\u{4DBF}'
            ||| '\u{4E00}' <= c && c <= '\u{9FFF}'
            ||| '\u{AC00}' <= c && c <= '\u{D7A3}'
            ||| '\u{F900}' <= c && c <= '\u{FAFF}'
            ||| '\u{FF61}' <= c && c <= '\u{FF9F}'
        },
{
}

/// The no-break space U+00A0, the ideographic space U+3000 and the full-width
/// ASCII variants U+FF01-U+FF5E -- and nothing else -- classify as
/// `Fullwidth`.
pub proof fn law_fullwidth_ranges(c: char)
    ensures
        spec_classify(Some(c)) == Category::Fullwidth <==> (c == '\u{00A0}' || c == '\u{3000}'
            || ('\u{FF01}' <= c && c <= '\u{FF5E}')),
{
}

/// Greek and Coptic U+0370-U+03FF and Cyrillic U+0400-U+04FF classify as
/// `Homoglyph`, except Delta U+0394, mu U+03BC and pi U+03C0, which classify
/// as `Symbol`; nothing else is a `Homoglyph`.
pub proof fn law_homoglyph_ranges(c: char)
    ensures
        spec_classify(Some(c)) == Category::Homoglyph <==> (('\u{0370}' <= c && c <= '\u{04FF}')
            && c != '\u{0394}' && c != '\u{03BC}' && c != '\u{03C0}'),
        (c == '\u{0394}' || c == '\u{03BC}' || c == '\u{03C0}') ==> spec_classify(Some(c))
            == Category::Symbol,
{
}

/// An undecodable byte is `Other`; a decoded character is `Symbol` exactly
/// when the default allowlist accepts it and no earlier category claims it.
pub proof fn law_symbol_and_other(c: char)
    ensures
        spec_classify(None) == Category::Other,
        spec_classify(Some(c)) == Category::Symbol ==> spec_is_default_allowed(c),
        !spec_is_default_allowed(c) && !(c == '\u{00A0}' || c == '\u{3000}' || ('\u{FF01}' <= c
            && c <= '\u{FF9F}') || ('\u{0370}' <= c && c <= '\u{04FF}') || ('\u{1100}' <= c && c
            <= '\u{11FF}') || ('\u{3001}' <= c && c <= '\u{4DBF}') || ('\u{4E00}' <= c && c
            <= '\u{9FFF}') || ('\u{AC00}' <= c && c <= '\u{D7A3}') || ('\u{F900}' <= c && c
            <= '\u{FAFF}')) ==> spec_classify(Some(c)) == Category::Other,
{
}

} // verus!
