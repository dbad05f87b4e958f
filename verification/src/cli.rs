use vstd::prelude::*;
use vstd::std_specs::convert::FromSpecImpl;

use crate::category::Category;
use crate::checker::CheckOptions;

verus! {

/// Output format for reporting violations.
#[derive(Debug, Clone, Copy, PartialEq, Eq, Structural)]
pub enum OutputFormat {
    /// Compact per-file digest, the default: one line per file, e.g.
    /// `path/to/file.md:12 [cjk] (3)` when every violation sits on one line,
    /// or `path/to/other.md [cjk,fullwidth] (287)` when they span more.
    Compact,
    /// GCC/Clang-compatible, one line per violating character.
    Gcc,
}

impl Default for OutputFormat {
    fn default() -> (r: Self)
        ensures
            r == OutputFormat::Compact,
    {
        OutputFormat::Compact
    }
}

/// Character category used to filter reported violations via `--only`.
///
/// This mirrors [`Category`] but is a type of its own, so that the
/// command-line parser's string conversions stay out of the classification
/// module.
#[derive(Debug, Clone, Copy, PartialEq, Eq, Structural)]
pub enum CategoryArg {
    /// CJK / Hangul text that needs translation.
    Cjk,
    /// Full-width ASCII, ideographic space, NBSP: mechanically replaceable.
    Fullwidth,
    /// Cyrillic / Greek: possible homoglyph attack, needs a human security audit.
    Homoglyph,
    /// Characters on the default allowlist (only reported under --strict).
    Symbol,
    /// Everything else.
    Other,
}

/// The category that a command-line category names.
pub open spec fn category_of_arg(value: CategoryArg) -> Category {
    match value {
        CategoryArg::Cjk => Category::Cjk,
        CategoryArg::Fullwidth => Category::Fullwidth,
        CategoryArg::Homoglyph => Category::Homoglyph,
        CategoryArg::Symbol => Category::Symbol,
        CategoryArg::Other => Category::Other,
    }
}

impl From<CategoryArg> for Category {
    fn from(value: CategoryArg) -> (r: Self) {
        match value {
            CategoryArg::Cjk => Category::Cjk,
            CategoryArg::Fullwidth => Category::Fullwidth,
            CategoryArg::Homoglyph => Category::Homoglyph,
            CategoryArg::Symbol => Category::Symbol,
            CategoryArg::Other => Category::Other,
        }
    }
}

impl FromSpecImpl<CategoryArg> for Category {
    open spec fn obeys_from_spec() -> bool {
        true
    }

    open spec fn from_spec(value: CategoryArg) -> Category {
        category_of_arg(value)
    }
}

/// The command-line settings: files or directories to check, or standard
/// input, and how to report what is found.
#[derive(Debug)]
pub struct Cli {
    /// Files or directories to check (required unless `stdin` is set).
    pub paths: Vec<String>,
    /// Read from standard input instead of files.
    pub stdin: bool,
    /// Disable the default allowlist of common Unicode characters.
    pub strict: bool,
    /// Output format.
    pub format: OutputFormat,
    /// Only report characters in these categories; empty means all.
    pub only: Vec<CategoryArg>,
    /// Maximum number of files to list; unlimited when `None`.
    pub max_files: Option<usize>,
}

impl Cli {
    /// The scan options these settings ask for.
    pub fn check_options(&self) -> (r: CheckOptions)
        ensures
            r.strict == self.strict,
    {
        CheckOptions { strict: self.strict }
    }

    /// The categories that `only` selects, in the order given.
    pub fn only_categories(&self) -> (r: Vec<Category>)
        ensures
            r@ == self.only@.map_values(|a: CategoryArg| category_of_arg(a)),
    {
        let mut r: Vec<Category> = Vec::new();
        let mut k: usize = 0;
        while k < self.only.len()
            invariant
                0 <= k <= self.only@.len(),
                r@ == self.only@.take(k as int).map_values(|a: CategoryArg| category_of_arg(a)),
            decreases self.only@.len() - k,
        {
            r.push(Category::from(self.only[k]));
            proof {
                assert(self.only@.take(k + 1).map_values(|a: CategoryArg| category_of_arg(a))
                    =~= self.only@.take(k as int).map_values(|a: CategoryArg| category_of_arg(a)).push(
                    category_of_arg(self.only@[k as int]),
                ));
            }
            k = k + 1;
        }
        proof {
            assert(self.only@.take(self.only@.len() as int) =~= self.only@);
        }
        r
    }
}

/// The process exit status for a finished run: 1 when violations were
/// reported, 0 otherwise. (Errors exit with 2 before any report.)
pub fn exit_status(had_violations: bool) -> (r: u8)
    ensures
        r == (if had_violations {
            1u8
        } else {
            0u8
        }),
{
    if had_violations {
        1
    } else {
        0
    }
}

} // verus!
