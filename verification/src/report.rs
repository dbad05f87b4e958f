use vstd::prelude::*;

use crate::category::{Category, rank, spec_classify, spec_label};
use crate::checker::Violation;
use crate::cli::OutputFormat;
use crate::walker::FileResult;

verus! {

/* Text building blocks */

/// The digits `0`-`9` and `A`-`F`, indexed by their value.
pub open spec fn hex_digits() -> Seq<char> {
    seq!['0', '1', '2', '3', '4', '5', '6', '7', '8', '9', 'A', 'B', 'C', 'D', 'E', 'F']
}

/// The decimal representation of `n`, without leading zeros.
pub open spec fn decimal(n: nat) -> Seq<char>
    decreases n,
{
    if n < 10 {
        seq![hex_digits()[n as int]]
    } else {
        decimal(n / 10).push(hex_digits()[(n % 10) as int])
    }
}

/// The two-digit upper-case hexadecimal representation of `b`.
pub open spec fn hex2(b: u8) -> Seq<char> {
    seq![hex_digits()[(b / 16) as int], hex_digits()[(b % 16) as int]]
}

/// Appends one character to a string.
///
/// Calls `String::push`, which std documents to append the given `char` to
/// the end of the string; the contract claims exactly that.
#[verifier::external_body]
fn push_char(s: &mut String, c: char)
    ensures
        final(s)@ == old(s)@.push(c),
{
    s.push(c);
}

/// The digit character for a value below 16.
fn digit_char(d: u8) -> (c: char)
    requires
        d < 16,
    ensures
        c == hex_digits()[d as int],
{
    match d {
        0 => '0',
        1 => '1',
        2 => '2',
        3 => '3',
        4 => '4',
        5 => '5',
        6 => '6',
        7 => '7',
        8 => '8',
        9 => '9',
        10 => 'A',
        11 => 'B',
        12 => 'C',
        13 => 'D',
        14 => 'E',
        _ => 'F',
    }
}

/// Appends the decimal representation of `n` to `out`.
fn push_decimal(out: &mut String, n: usize)
    ensures
        final(out)@ == old(out)@ + decimal(n as nat),
    decreases n,
{
    if n >= 10 {
        push_decimal(out, n / 10);
    }
    push_char(out, digit_char((n % 10) as u8));
}

/* The GCC/Clang-style line */

/// The GCC/Clang-style line for violation `v` in the file at `path`:
/// `path:line:col: non-ASCII byte 0xXX ('char')`, the last part only when
/// the byte starts a decodable character.
pub open spec fn violation_text(path: Seq<char>, v: Violation) -> Seq<char> {
    path + ":"@ + decimal(v.line as nat) + ":"@ + decimal(v.column as nat)
        + ": non-ASCII byte 0x"@ + hex2(v.byte) + match v.char_display {
        Some(c) => " ('"@ + seq![c] + "')"@,
        None => Seq::empty(),
    }
}

/// Formats a single violation in GCC/Clang-style: `path:line:col: non-ASCII byte 0xXX ('char')`.
pub fn format_violation(path: &str, v: &Violation) -> (r: String)
    ensures
        r@ == violation_text(path@, *v),
{
    let mut out = String::from_str(path);
    out.append(":");
    push_decimal(&mut out, v.line);
    out.append(":");
    push_decimal(&mut out, v.column);
    out.append(": non-ASCII byte 0x");
    push_char(&mut out, digit_char(v.byte / 16));
    push_char(&mut out, digit_char(v.byte % 16));
    match v.char_display {
        Some(c) => {
            out.append(" ('");
            push_char(&mut out, c);
            out.append("')");
        },
        None => {},
    }
    out
}


/* Per-file digest */

/// Every violation in `vs` sits on line `l`.
pub open spec fn all_on_line(vs: Seq<Violation>, l: usize) -> bool {
    forall|i: int| 0 <= i < vs.len() ==> #[trigger] vs[i].line == l
}

/// The line on which every violation in `vs` sits, when there is exactly one
/// such line.
pub open spec fn single_line_of(vs: Seq<Violation>) -> Option<usize> {
    if vs.len() > 0 && all_on_line(vs, vs[0].line) {
        Some(vs[0].line)
    } else {
        None
    }
}

/// Some violation in `vs` falls in category `c`.
pub open spec fn has_category(vs: Seq<Violation>, c: Category) -> bool {
    exists|i: int| 0 <= i < vs.len() && spec_classify(#[trigger] vs[i].char_display) == c
}

/// `[c]` when some violation in `vs` falls in category `c`, else empty.
pub open spec fn category_if_present(vs: Seq<Violation>, c: Category) -> Seq<Category> {
    if has_category(vs, c) {
        seq![c]
    } else {
        Seq::empty()
    }
}

/// The categories present among `vs`, each once, in declaration order.
pub open spec fn categories_of(vs: Seq<Violation>) -> Seq<Category> {
    category_if_present(vs, Category::Cjk) + category_if_present(vs, Category::Fullwidth)
        + category_if_present(vs, Category::Homoglyph) + category_if_present(
        vs,
        Category::Symbol,
    ) + category_if_present(vs, Category::Other)
}

/// Per-file digest of `Violation`s, used to render the compact output format.
///
/// A line number is only kept when the violations in a file sit on exactly
/// one line: once they are scattered across two or more lines, the caller
/// ends up reading the whole file to fix it anyway.
pub struct FileSummary {
    /// The violating line number, when every violation in the file sits on
    /// that single line; `None` when the violations span two or more lines.
    pub single_line: Option<usize>,
    /// Categories present among the violations, sorted and deduped in
    /// `Category`'s declaration order.
    pub categories: Vec<Category>,
    /// Number of violations summarized (i.e. `violations.len()`).
    pub count: usize,
}

/// Builds a `FileSummary` from a single file's violations.
pub fn summarize(violations: &[Violation]) -> (r: FileSummary)
    ensures
        r.count == violations@.len(),
        r.single_line == single_line_of(violations@),
        r.categories@ == categories_of(violations@),
{
    let ghost vs = violations@;
    let count = violations.len();
    let mut same_line = true;
    let mut cjk = false;
    let mut fullwidth = false;
    let mut homoglyph = false;
    let mut symbol = false;
    let mut other = false;
    let mut i: usize = 0;
    while i < count
        invariant
            vs == violations@,
            count == vs.len(),
            0 <= i <= count,
            i > 0 ==> (same_line <==> all_on_line(vs.take(i as int), vs[0].line)),
            i == 0 ==> same_line,
            cjk <==> has_category(vs.take(i as int), Category::Cjk),
            fullwidth <==> has_category(vs.take(i as int), Category::Fullwidth),
            homoglyph <==> has_category(vs.take(i as int), Category::Homoglyph),
            symbol <==> has_category(vs.take(i as int), Category::Symbol),
            other <==> has_category(vs.take(i as int), Category::Other),
        decreases count - i,
    {
        let ghost before = vs.take(i as int);
        let ghost after = vs.take(i + 1);
        if violations[i].line != violations[0].line {
            same_line = false;
        }
        match Category::classify(&violations[i]) {
            Category::Cjk => cjk = true,
            Category::Fullwidth => fullwidth = true,
            Category::Homoglyph => homoglyph = true,
            Category::Symbol => symbol = true,
            Category::Other => other = true,
        }
        proof {
            assert forall|j: int| 0 <= j < i implies after[j] == before[j] by {}
            assert(after[i as int] == vs[i as int]);
            if i > 0 {
                assert(all_on_line(after, vs[0].line) <==> (all_on_line(before, vs[0].line)
                    && vs[i as int].line == vs[0].line));
            } else {
                assert(all_on_line(after, vs[0].line));
            }
            assert forall|c: Category| #[trigger] has_category(after, c) <==> (has_category(
                before,
                c,
            ) || spec_classify(vs[i as int].char_display) == c) by {
                if has_category(before, c) {
                    let j = choose|j: int|
                        0 <= j < before.len() && spec_classify(#[trigger] before[j].char_display)
                            == c;
                    assert(after[j] == before[j]);
                }
                if has_category(after, c) && !(spec_classify(vs[i as int].char_display) == c) {
                    let j = choose|j: int|
                        0 <= j < after.len() && spec_classify(#[trigger] after[j].char_display)
                            == c;
                    assert(before[j] == after[j]);
                }
            }
        }
        i = i + 1;
    }
    proof {
        assert(vs.take(count as int) =~= vs);
    }
    let single_line = if count > 0 && same_line {
        Some(violations[0].line)
    } else {
        None
    };
    let mut categories: Vec<Category> = Vec::new();
    if cjk {
        categories.push(Category::Cjk);
    }
    let ghost c1 = categories@;
    if fullwidth {
        categories.push(Category::Fullwidth);
    }
    let ghost c2 = categories@;
    if homoglyph {
        categories.push(Category::Homoglyph);
    }
    let ghost c3 = categories@;
    if symbol {
        categories.push(Category::Symbol);
    }
    let ghost c4 = categories@;
    if other {
        categories.push(Category::Other);
    }
    proof {
        assert(c1 =~= category_if_present(vs, Category::Cjk));
        assert(c2 =~= c1 + category_if_present(vs, Category::Fullwidth));
        assert(c3 =~= c2 + category_if_present(vs, Category::Homoglyph));
        assert(c4 =~= c3 + category_if_present(vs, Category::Symbol));
        assert(categories@ =~= c4 + category_if_present(vs, Category::Other));
    }
    FileSummary { single_line, categories, count }
}


/* Pieces of the compact format */

/// The category list rendered as `cjk,fullwidth`.
pub open spec fn categories_text(cs: Seq<Category>) -> Seq<char>
    decreases cs.len(),
{
    if cs.len() == 0 {
        Seq::empty()
    } else if cs.len() == 1 {
        spec_label(cs[0])
    } else {
        categories_text(cs.drop_last()) + ","@ + spec_label(cs.last())
    }
}

/// Renders a category list as `cjk,fullwidth`.
fn format_categories(categories: &[Category]) -> (r: String)
    ensures
        r@ == categories_text(categories@),
{
    let ghost cs = categories@;
    let mut out = String::new();
    let mut k: usize = 0;
    while k < categories.len()
        invariant
            cs == categories@,
            0 <= k <= cs.len(),
            out@ == categories_text(cs.take(k as int)),
        decreases cs.len() - k,
    {
        proof {
            assert(cs.take(k + 1).drop_last() =~= cs.take(k as int));
        }
        if k > 0 {
            out.append(",");
        } else {
            assert(cs.take(0) =~= Seq::<Category>::empty());
        }
        out.append(categories[k].label());
        k = k + 1;
    }
    proof {
        assert(cs.take(cs.len() as int) =~= cs);
    }
    out
}

/// The English plural suffix for `n`: empty for one, `s` otherwise.
pub open spec fn plural_text(n: nat) -> Seq<char> {
    if n == 1 {
        ""@
    } else {
        "s"@
    }
}

/// Returns the English plural suffix ("" or "s") for `n`.
fn plural(n: usize) -> (r: &'static str)
    ensures
        r@ == plural_text(n as nat),
{
    if n == 1 {
        ""
    } else {
        "s"
    }
}

/// The `{N} file(s), {M} char(s)` summary line, without its line feed.
pub open spec fn summary_line_text(files: nat, chars: nat) -> Seq<char> {
    decimal(files) + " file"@ + plural_text(files) + ", "@ + decimal(chars) + " char"@
        + plural_text(chars)
}

/// Renders the `{N} file(s), {M} char(s)` summary line, e.g.
/// `1 file, 1 char` or `2 files, 5 chars`.
fn summary_line(files: usize, chars: usize) -> (r: String)
    ensures
        r@ == summary_line_text(files as nat, chars as nat),
{
    let mut out = String::new();
    push_decimal(&mut out, files);
    out.append(" file");
    out.append(plural(files));
    out.append(", ");
    push_decimal(&mut out, chars);
    out.append(" char");
    out.append(plural(chars));
    out
}

/// The `... and {K} more file(s)` line for the files that a cap hid, or
/// nothing when none were hidden.
pub open spec fn notice_text(total: nat, shown: nat) -> Seq<char> {
    if total > shown {
        "... and "@ + decimal((total - shown) as nat) + " more file"@ + plural_text(
            (total - shown) as nat,
        ) + "\n"@
    } else {
        Seq::empty()
    }
}

/// Appends the `... and {K} more file(s)` truncation notice, if any files
/// were hidden by a `max_files` cap.
fn write_truncation_notice(out: &mut String, total: usize, shown: usize)
    ensures
        final(out)@ == old(out)@ + notice_text(total as nat, shown as nat),
{
    let hidden = total.saturating_sub(shown);
    if hidden > 0 {
        out.append("... and ");
        push_decimal(out, hidden);
        out.append(" more file");
        out.append(plural(hidden));
        out.append("\n");
    }
}

/* Filtering by category */

/// Violation `v` passes the `only` filter: an empty filter keeps everything.
pub open spec fn passes_filter(only: Seq<Category>, v: Violation) -> bool {
    only.len() == 0 || only.contains(spec_classify(v.char_display))
}

/// The violations of `vs` that pass the `only` filter, in their order.
pub open spec fn filtered(vs: Seq<Violation>, only: Seq<Category>) -> Seq<Violation>
    decreases vs.len(),
{
    if vs.len() == 0 {
        Seq::empty()
    } else if passes_filter(only, vs.last()) {
        filtered(vs.drop_last(), only).push(vs.last())
    } else {
        filtered(vs.drop_last(), only)
    }
}

/// Whether `only` holds category `c`.
fn contains_category(only: &[Category], c: Category) -> (r: bool)
    ensures
        r == only@.contains(c),
{
    let mut k: usize = 0;
    while k < only.len()
        invariant
            0 <= k <= only@.len(),
            forall|j: int| 0 <= j < k ==> only@[j] != c,
        decreases only@.len() - k,
    {
        if only[k] == c {
            return true;
        }
        k = k + 1;
    }
    false
}

/// Filters `violations` down to those in `only`; an empty `only` means "keep
/// everything".
fn filter_violations(violations: &[Violation], only: &[Category]) -> (r: Vec<Violation>)
    ensures
        r@ == filtered(violations@, only@),
{
    let ghost vs = violations@;
    let mut kept: Vec<Violation> = Vec::new();
    let mut i: usize = 0;
    while i < violations.len()
        invariant
            vs == violations@,
            0 <= i <= vs.len(),
            kept@ == filtered(vs.take(i as int), only@),
        decreases vs.len() - i,
    {
        proof {
            assert(vs.take(i + 1).drop_last() =~= vs.take(i as int));
        }
        let v = violations[i];
        if only.len() == 0 || contains_category(only, Category::classify(&v)) {
            kept.push(v);
        }
        i = i + 1;
    }
    proof {
        assert(vs.take(vs.len() as int) =~= vs);
    }
    kept
}


/* Rendering */

/// A file's path and violations, as plain values.
pub open spec fn file_view(f: FileResult) -> (Seq<char>, Seq<Violation>) {
    (f.path@, f.violations@)
}

/// The files of `results` that keep violations after the `only` filter, in
/// their order, each with the violations it keeps.
pub open spec fn reported_files(results: Seq<FileResult>, only: Seq<Category>) -> Seq<
    (Seq<char>, Seq<Violation>),
>
    decreases results.len(),
{
    if results.len() == 0 {
        Seq::empty()
    } else {
        let rest = reported_files(results.drop_last(), only);
        let kept = filtered(results.last().violations@, only);
        if kept.len() == 0 {
            rest
        } else {
            rest.push((results.last().path@, kept))
        }
    }
}

/// Total number of violations over `files`.
pub open spec fn total_chars(files: Seq<(Seq<char>, Seq<Violation>)>) -> nat
    decreases files.len(),
{
    if files.len() == 0 {
        0
    } else {
        total_chars(files.drop_last()) + files.last().1.len()
    }
}

/// How many of `total` files are listed under the cap `max_files`.
pub open spec fn shown_count(total: nat, max_files: Option<usize>) -> nat {
    match max_files {
        Some(m) => if (m as nat) < total {
            m as nat
        } else {
            total
        },
        None => total,
    }
}

/// One row of the compact format: `path:line [categories] (count)` when every
/// violation sits on one line, `path [categories] (count)` otherwise.
pub open spec fn compact_row(path: Seq<char>, vs: Seq<Violation>) -> Seq<char> {
    path + match single_line_of(vs) {
        Some(l) => ":"@ + decimal(l as nat),
        None => Seq::empty(),
    } + " ["@ + categories_text(categories_of(vs)) + "] ("@ + decimal(vs.len()) + ")\n"@
}

/// The compact rows of `files`, in order.
pub open spec fn compact_rows(files: Seq<(Seq<char>, Seq<Violation>)>) -> Seq<char>
    decreases files.len(),
{
    if files.len() == 0 {
        Seq::empty()
    } else {
        compact_rows(files.drop_last()) + compact_row(files.last().0, files.last().1)
    }
}

/// The whole compact report: nothing when no file keeps a violation, else the
/// summary line, one row per listed file and the truncation notice.
pub open spec fn compact_text(
    results: Seq<FileResult>,
    only: Seq<Category>,
    max_files: Option<usize>,
) -> Seq<char> {
    let files = reported_files(results, only);
    if files.len() == 0 {
        Seq::empty()
    } else {
        let shown = shown_count(files.len(), max_files);
        summary_line_text(files.len(), total_chars(files)) + "\n"@ + compact_rows(
            files.take(shown as int),
        ) + notice_text(files.len(), shown)
    }
}

/// One GCC/Clang-style line per violation of `vs`, in order.
pub open spec fn gcc_lines(path: Seq<char>, vs: Seq<Violation>) -> Seq<char>
    decreases vs.len(),
{
    if vs.len() == 0 {
        Seq::empty()
    } else {
        gcc_lines(path, vs.drop_last()) + violation_text(path, vs.last()) + "\n"@
    }
}

/// The GCC/Clang-style lines of every violation of `files`, file by file.
pub open spec fn gcc_files(files: Seq<(Seq<char>, Seq<Violation>)>) -> Seq<char>
    decreases files.len(),
{
    if files.len() == 0 {
        Seq::empty()
    } else {
        gcc_files(files.drop_last()) + gcc_lines(files.last().0, files.last().1)
    }
}

/// The whole GCC/Clang-style report: nothing when no file keeps a violation,
/// else the lines of the listed files and the truncation notice.
pub open spec fn gcc_text(
    results: Seq<FileResult>,
    only: Seq<Category>,
    max_files: Option<usize>,
) -> Seq<char> {
    let files = reported_files(results, only);
    if files.len() == 0 {
        Seq::empty()
    } else {
        let shown = shown_count(files.len(), max_files);
        gcc_files(files.take(shown as int)) + notice_text(files.len(), shown)
    }
}

/// The report of `results` in `format`.
pub open spec fn rendered_text(
    results: Seq<FileResult>,
    format: OutputFormat,
    only: Seq<Category>,
    max_files: Option<usize>,
) -> Seq<char> {
    match format {
        OutputFormat::Compact => compact_text(results, only, max_files),
        OutputFormat::Gcc => gcc_text(results, only, max_files),
    }
}

proof fn lemma_total_chars_prefix(files: Seq<(Seq<char>, Seq<Violation>)>, k: int)
    requires
        0 <= k < files.len(),
    ensures
        total_chars(files.take(k + 1)) == total_chars(files.take(k)) + files[k].1.len(),
        total_chars(files.take(k + 1)) <= total_chars(files),
    decreases files.len() - k,
{
    assert(files.take(k + 1).drop_last() =~= files.take(k));
    if k + 1 == files.len() {
        assert(files.take(k + 1) =~= files);
    } else {
        lemma_total_chars_prefix(files, k + 1);
    }
}

/// The results that keep violations after the `only` filter, each holding
/// only the violations it keeps.
fn collect_reported(results: &[FileResult], only: &[Category]) -> (r: Vec<FileResult>)
    ensures
        r@.map_values(|f: FileResult| file_view(f)) == reported_files(results@, only@),
{
    let ghost rs = results@;
    let mut files: Vec<FileResult> = Vec::new();
    let mut i: usize = 0;
    while i < results.len()
        invariant
            rs == results@,
            0 <= i <= rs.len(),
            files@.map_values(|f: FileResult| file_view(f)) == reported_files(
                rs.take(i as int),
                only@,
            ),
        decreases rs.len() - i,
    {
        proof {
            assert(rs.take(i + 1).drop_last() =~= rs.take(i as int));
        }
        let kept = filter_violations(results[i].violations.as_slice(), only);
        if kept.len() > 0 {
            let ghost before = files@;
            files.push(FileResult { path: results[i].path.clone(), violations: kept });
            proof {
                assert(files@.map_values(|f: FileResult| file_view(f)) =~= before.map_values(
                    |f: FileResult| file_view(f),
                ).push((rs[i as int].path@, kept@)));
            }
        }
        i = i + 1;
    }
    proof {
        assert(rs.take(rs.len() as int) =~= rs);
    }
    files
}

/// Appends the compact row of the file at `path` with `violations`.
fn push_compact_row(out: &mut String, path: &str, violations: &[Violation])
    ensures
        final(out)@ == old(out)@ + compact_row(path@, violations@),
{
    let ghost start = out@;
    let summary = summarize(violations);
    out.append(path);
    let ghost with_path = out@;
    match summary.single_line {
        Some(line) => {
            out.append(":");
            push_decimal(out, line);
        },
        None => {},
    }
    let ghost with_line = out@;
    assert(with_line =~= with_path + match single_line_of(violations@) {
        Some(l) => ":"@ + decimal(l as nat),
        None => Seq::empty(),
    });
    out.append(" [");
    let categories = format_categories(summary.categories.as_slice());
    out.append(categories.as_str());
    out.append("] (");
    push_decimal(out, summary.count);
    out.append(")\n");
    assert(out@ =~= start + compact_row(path@, violations@));
}

/// Renders the compact, per-file digest format (see [`render`]).
fn render_compact(results: &[FileResult], only: &[Category], max_files: Option<usize>) -> (r: (
    String,
    bool,
))
    requires
        total_chars(reported_files(results@, only@)) <= usize::MAX,
    ensures
        r.0@ == compact_text(results@, only@, max_files),
        r.1 == (reported_files(results@, only@).len() > 0),
{
    let files = collect_reported(results, only);
    let ghost fv = files@.map_values(|f: FileResult| file_view(f));
    let total_files = files.len();
    if total_files == 0 {
        return (String::new(), false);
    }
    let mut total: usize = 0;
    let mut k: usize = 0;
    while k < total_files
        invariant
            fv == files@.map_values(|f: FileResult| file_view(f)),
            fv == reported_files(results@, only@),
            total_files == fv.len(),
            total_chars(fv) <= usize::MAX,
            0 <= k <= total_files,
            total == total_chars(fv.take(k as int)),
        decreases total_files - k,
    {
        proof {
            lemma_total_chars_prefix(fv, k as int);
        }
        total = total + files[k].violations.len();
        k = k + 1;
    }
    proof {
        assert(fv.take(total_files as int) =~= fv);
    }
    let mut out = summary_line(total_files, total);
    out.append("\n");
    let shown: usize = match max_files {
        Some(m) => if m < total_files {
            m
        } else {
            total_files
        },
        None => total_files,
    };
    let ghost head = out@;
    let mut k: usize = 0;
    while k < shown
        invariant
            fv == files@.map_values(|f: FileResult| file_view(f)),
            total_files == fv.len(),
            shown <= total_files,
            0 <= k <= shown,
            out@ == head + compact_rows(fv.take(k as int)),
        decreases shown - k,
    {
        proof {
            assert(fv.take(k + 1).drop_last() =~= fv.take(k as int));
        }
        push_compact_row(&mut out, files[k].path.as_str(), files[k].violations.as_slice());
        k = k + 1;
    }
    write_truncation_notice(&mut out, total_files, shown);
    (out, true)
}

/// Renders the GCC/Clang-compatible format (see [`render`]).
fn render_gcc(results: &[FileResult], only: &[Category], max_files: Option<usize>) -> (r: (
    String,
    bool,
))
    ensures
        r.0@ == gcc_text(results@, only@, max_files),
        r.1 == (reported_files(results@, only@).len() > 0),
{
    let files = collect_reported(results, only);
    let ghost fv = files@.map_values(|f: FileResult| file_view(f));
    let total_files = files.len();
    if total_files == 0 {
        return (String::new(), false);
    }
    let shown: usize = match max_files {
        Some(m) => if m < total_files {
            m
        } else {
            total_files
        },
        None => total_files,
    };
    let mut out = String::new();
    let mut k: usize = 0;
    while k < shown
        invariant
            fv == files@.map_values(|f: FileResult| file_view(f)),
            total_files == fv.len(),
            shown <= total_files,
            0 <= k <= shown,
            out@ == gcc_files(fv.take(k as int)),
        decreases shown - k,
    {
        proof {
            assert(fv.take(k + 1).drop_last() =~= fv.take(k as int));
        }
        let path = files[k].path.as_str();
        let vs = files[k].violations.as_slice();
        let ghost done = out@;
        let mut j: usize = 0;
        while j < vs.len()
            invariant
                vs@ == fv[k as int].1,
                path@ == fv[k as int].0,
                0 <= j <= vs@.len(),
                out@ == done + gcc_lines(path@, vs@.take(j as int)),
            decreases vs@.len() - j,
        {
            proof {
                assert(vs@.take(j + 1).drop_last() =~= vs@.take(j as int));
            }
            let line = format_violation(path, &vs[j]);
            out.append(line.as_str());
            out.append("\n");
            j = j + 1;
        }
        proof {
            assert(vs@.take(vs@.len() as int) =~= vs@);
        }
        k = k + 1;
    }
    write_truncation_notice(&mut out, total_files, shown);
    (out, true)
}

/// Renders `results` in the given `format` and returns the text together with
/// whether anything was reported.
///
/// `only` filters which categories of violation are reported (a
/// `Violation`-level filter, not a file-level one); an empty slice means
/// "report every category". Files that end up with zero violations after
/// filtering are omitted entirely.
///
/// `max_files` caps how many files are listed, in both formats; the rest are
/// summarized as a single `... and K more file(s)` trailer line.
///
/// `results` is rendered in the order given. If nothing is reported, the
/// text is empty -- not even the compact format's summary line.
pub fn render(
    results: &[FileResult],
    format: OutputFormat,
    only: &[Category],
    max_files: Option<usize>,
) -> (r: (String, bool))
    requires
        format == OutputFormat::Compact ==> total_chars(reported_files(results@, only@))
            <= usize::MAX,
    ensures
        r.0@ == rendered_text(results@, format, only@, max_files),
        r.1 == (reported_files(results@, only@).len() > 0),
{
    match format {
        OutputFormat::Compact => render_compact(results, only, max_files),
        OutputFormat::Gcc => render_gcc(results, only, max_files),
    }
}


/* Laws of the report */

/// A summary lists the categories present among the violations, each once,
/// in declaration order, and no other.
pub proof fn law_summary_categories_sorted_and_complete(vs: Seq<Violation>)
    ensures
        forall|k: int, l: int|
            0 <= k < l < categories_of(vs).len() ==> rank(categories_of(vs)[k]) < rank(
                categories_of(vs)[l],
            ),
        forall|c: Category| #[trigger] categories_of(vs).contains(c) <==> has_category(vs, c),
{
    let a = category_if_present(vs, Category::Cjk);
    let b = category_if_present(vs, Category::Fullwidth);
    let c = category_if_present(vs, Category::Homoglyph);
    let d = category_if_present(vs, Category::Symbol);
    let e = category_if_present(vs, Category::Other);
    let cs = categories_of(vs);
    assert(cs == a + b + c + d + e);
    assert forall|k: int| 0 <= k < cs.len() implies #[trigger] has_category(vs, cs[k]) && rank(
        cs[k],
    ) >= 0 && (k > 0 ==> rank(cs[k - 1]) < rank(cs[k])) by {}
    assert forall|x: Category| #[trigger] cs.contains(x) <==> has_category(vs, x) by {
        if has_category(vs, x) {
            match x {
                Category::Cjk => assert(cs[0] == x),
                Category::Fullwidth => assert(cs[a.len() as int] == x),
                Category::Homoglyph => assert(cs[(a.len() + b.len()) as int] == x),
                Category::Symbol => assert(cs[(a.len() + b.len() + c.len()) as int] == x),
                Category::Other => assert(cs[(a.len() + b.len() + c.len() + d.len()) as int]
                    == x),
            }
        }
    }
    assert forall|k: int, l: int| 0 <= k < l < cs.len() implies rank(cs[k]) < rank(cs[l]) by {
        lemma_rank_increasing(cs, k, l);
    }
}

proof fn lemma_rank_increasing(cs: Seq<Category>, k: int, l: int)
    requires
        0 <= k < l < cs.len(),
        forall|j: int| 0 < j < cs.len() ==> rank(cs[j - 1]) < rank(#[trigger] cs[j]),
    ensures
        rank(cs[k]) < rank(cs[l]),
    decreases l - k,
{
    if k + 1 < l {
        lemma_rank_increasing(cs, k, l - 1);
        assert(rank(cs[l - 1]) < rank(cs[l]));
    }
}

/// An empty `only` filter keeps every violation, in order.
pub proof fn law_empty_filter_keeps_everything(vs: Seq<Violation>)
    ensures
        filtered(vs, Seq::empty()) == vs,
    decreases vs.len(),
{
    if vs.len() > 0 {
        law_empty_filter_keeps_everything(vs.drop_last());
        assert(vs.drop_last().push(vs.last()) =~= vs);
    }
}

/// Filtering keeps exactly the violations whose category `only` selects:
/// everything kept passes the filter, and everything that passes is kept.
pub proof fn law_filter_keeps_selected(vs: Seq<Violation>, only: Seq<Category>)
    ensures
        filtered(vs, only).len() <= vs.len(),
        forall|k: int|
            0 <= k < filtered(vs, only).len() ==> passes_filter(
                only,
                #[trigger] filtered(vs, only)[k],
            ),
        forall|k: int|
            0 <= k < vs.len() && passes_filter(only, #[trigger] vs[k]) ==> filtered(
                vs,
                only,
            ).contains(vs[k]),
    decreases vs.len(),
{
    if vs.len() > 0 {
        let init = vs.drop_last();
        law_filter_keeps_selected(init, only);
        let fi = filtered(init, only);
        let f = filtered(vs, only);
        assert forall|k: int| 0 <= k < f.len() implies passes_filter(only, #[trigger] f[k]) by {
            if k < fi.len() {
                assert(f[k] == fi[k]);
            }
        }
        assert forall|k: int| 0 <= k < vs.len() && passes_filter(only, #[trigger] vs[k]) implies f.contains(
            vs[k],
        ) by {
            if k < vs.len() - 1 {
                assert(init[k] == vs[k]);
                let j = choose|j: int| 0 <= j < fi.len() && fi[j] == init[k];
                assert(f[j] == fi[j]);
            } else {
                assert(f[f.len() - 1] == vs[k]);
            }
        }
    }
}

proof fn lemma_reported_files_nonempty(results: Seq<FileResult>, only: Seq<Category>)
    ensures
        forall|k: int|
            0 <= k < reported_files(results, only).len() ==> (#[trigger] reported_files(
                results,
                only,
            )[k]).1.len() > 0,
    decreases results.len(),
{
    if results.len() > 0 {
        lemma_reported_files_nonempty(results.drop_last(), only);
        let rest = reported_files(results.drop_last(), only);
        let all = reported_files(results, only);
        assert forall|k: int| 0 <= k < all.len() implies (#[trigger] all[k]).1.len() > 0 by {
            if k < rest.len() {
                assert(all[k] == rest[k]);
            }
        }
    }
}

proof fn lemma_gcc_files_grow(files: Seq<(Seq<char>, Seq<Violation>)>)
    requires
        forall|k: int| 0 <= k < files.len() ==> (#[trigger] files[k]).1.len() > 0,
    ensures
        files.len() > 0 ==> gcc_files(files).len() > 0,
    decreases files.len(),
{
    if files.len() > 0 {
        let last = files.last();
        assert(last.1.len() > 0);
        assert(gcc_lines(last.0, last.1).len() > 0);
    }
}

/// Something is written exactly when something is reported: the text is
/// empty if and only if no file keeps a violation after the `only` filter
/// (whatever the format and the cap).
pub proof fn law_output_empty_iff_nothing_reported(
    results: Seq<FileResult>,
    format: OutputFormat,
    only: Seq<Category>,
    max_files: Option<usize>,
)
    ensures
        rendered_text(results, format, only, max_files).len() == 0 <==> reported_files(
            results,
            only,
        ).len() == 0,
{
    let files = reported_files(results, only);
    if files.len() > 0 {
        let n = files.len();
        let shown = shown_count(n, max_files);
        assert(decimal(n).len() > 0);
        assert(summary_line_text(n, total_chars(files)).len() > 0);
        lemma_reported_files_nonempty(results, only);
        let listed = files.take(shown as int);
        assert forall|k: int| 0 <= k < listed.len() implies (#[trigger] listed[k]).1.len() > 0 by {
            assert(listed[k] == files[k]);
        }
        lemma_gcc_files_grow(listed);
        if shown < n {
            assert(notice_text(n, shown).len() > 0);
        }
    }
}

/// The compact summary line reports the true totals, whatever the cap:
/// under any two caps the text starts with the same summary line.
pub proof fn law_summary_line_ignores_cap(
    results: Seq<FileResult>,
    only: Seq<Category>,
    max_a: Option<usize>,
    max_b: Option<usize>,
)
    requires
        reported_files(results, only).len() > 0,
    ensures
        ({
            let files = reported_files(results, only);
            let head = summary_line_text(files.len(), total_chars(files)) + "\n"@;
            &&& compact_text(results, only, max_a).take(head.len() as int) == head
            &&& compact_text(results, only, max_b).take(head.len() as int) == head
        }),
{
    let files = reported_files(results, only);
    let head = summary_line_text(files.len(), total_chars(files)) + "\n"@;
    let n = files.len();
    let tail_a = compact_rows(files.take(shown_count(n, max_a) as int)) + notice_text(
        n,
        shown_count(n, max_a),
    );
    let tail_b = compact_rows(files.take(shown_count(n, max_b) as int)) + notice_text(
        n,
        shown_count(n, max_b),
    );
    assert(compact_text(results, only, max_a) =~= head + tail_a);
    assert(compact_text(results, only, max_b) =~= head + tail_b);
    assert((head + tail_a).take(head.len() as int) =~= head);
    assert((head + tail_b).take(head.len() as int) =~= head);
}


/// The value of a digit character `0`-`9` or `A`-`F`.
pub open spec fn digit_value(ch: char) -> int {
    if '0' <= ch && ch <= '9' {
        ch as int - '0' as int
    } else {
        ch as int - 'A' as int + 10
    }
}

/// The number that a string of decimal digits reads as.
pub open spec fn decimal_value(s: Seq<char>) -> int
    decreases s.len(),
{
    if s.len() == 0 {
        0
    } else {
        decimal_value(s.drop_last()) * 10 + digit_value(s.last())
    }
}

proof fn lemma_digit(d: int)
    requires
        0 <= d < 16,
    ensures
        digit_value(hex_digits()[d]) == d,
        d < 10 ==> '0' <= hex_digits()[d] && hex_digits()[d] <= '9',
        d == 0 <==> hex_digits()[d] == '0',
{
    if d == 0 {
    } else if d == 1 {
    } else if d == 2 {
    } else if d == 3 {
    } else if d == 4 {
    } else if d == 5 {
    } else if d == 6 {
    } else if d == 7 {
    } else if d == 8 {
    } else if d == 9 {
    } else if d == 10 {
    } else if d == 11 {
    } else if d == 12 {
    } else if d == 13 {
    } else if d == 14 {
    } else {
    }
}

/// `decimal(n)` is the base-10 numeral of `n`: made of the digits `0`-`9`,
/// without a leading zero (`0` itself is the single digit `0`), and its
/// digits read back as `n`.
pub proof fn law_decimal_is_base_ten(n: nat)
    ensures
        decimal(n).len() > 0,
        forall|k: int|
            0 <= k < decimal(n).len() ==> '0' <= #[trigger] decimal(n)[k] && decimal(n)[k] <= '9',
        n > 0 ==> decimal(n)[0] != '0',
        n == 0 ==> decimal(n) == seq!['0'],
        decimal_value(decimal(n)) == n,
    decreases n,
{
    lemma_digit((n % 10) as int);
    if n >= 10 {
        law_decimal_is_base_ten(n / 10);
        let d = decimal(n);
        let p = decimal(n / 10);
        assert(d == p.push(hex_digits()[(n % 10) as int]));
        assert(d.drop_last() =~= p);
        assert forall|k: int| 0 <= k < d.len() implies '0' <= #[trigger] d[k] && d[k] <= '9' by {
            if k < p.len() {
                assert(d[k] == p[k]);
            }
        }
        assert(d[0] == p[0]);
        assert(decimal_value(d) == decimal_value(p) * 10 + (n % 10));
        assert((n / 10) * 10 + n % 10 == n) by (nonlinear_arith);
    } else {
        let d = decimal(n);
        assert(d.drop_last() =~= Seq::<char>::empty());
        assert(d.last() == hex_digits()[n as int]);
        assert(n % 10 == n);
        assert(decimal_value(d) == decimal_value(d.drop_last()) * 10 + digit_value(d.last()));
    }
}

/// `hex2(b)` is the two-digit base-16 numeral of `b`, upper case.
pub proof fn law_hex2_is_base_sixteen(b: u8)
    ensures
        hex2(b).len() == 2,
        digit_value(hex2(b)[0]) * 16 + digit_value(hex2(b)[1]) == b,
        forall|k: int|
            0 <= k < 2 ==> ('0' <= #[trigger] hex2(b)[k] && hex2(b)[k] <= '9') || ('A' <= hex2(
                b,
            )[k] && hex2(b)[k] <= 'F'),
{
    lemma_digit((b / 16) as int);
    lemma_digit((b % 16) as int);
    lemma_hex_digit_range((b / 16) as int);
    lemma_hex_digit_range((b % 16) as int);
}

proof fn lemma_hex_digit_range(d: int)
    requires
        0 <= d < 16,
    ensures
        ('0' <= hex_digits()[d] && hex_digits()[d] <= '9') || ('A' <= hex_digits()[d]
            && hex_digits()[d] <= 'F'),
{
    lemma_digit(d);
}

/// The cap lists `min(cap, files)` files: with no cap, or a cap at least the
/// number of reported files, every reported file is listed and no notice is
/// written; with a smaller cap `m`, the first `m` files are listed and the
/// notice counts the other ones.
pub proof fn law_cap_lists_min_of_cap_and_files(
    results: Seq<FileResult>,
    only: Seq<Category>,
    max_files: Option<usize>,
)
    requires
        reported_files(results, only).len() > 0,
    ensures
        ({
            let files = reported_files(results, only);
            let n = files.len();
            let head = summary_line_text(n, total_chars(files)) + "\n"@;
            &&& (max_files is None || max_files.unwrap() >= n) ==> {
                &&& compact_text(results, only, max_files) == head + compact_rows(files)
                &&& gcc_text(results, only, max_files) == gcc_files(files)
            }
            &&& (max_files matches Some(m) && m < n) ==> {
                let m = max_files.unwrap() as int;
                let notice = "... and "@ + decimal((n - m) as nat) + " more file"@ + plural_text(
                    (n - m) as nat,
                ) + "\n"@;
                &&& compact_text(results, only, max_files) == head + compact_rows(files.take(m))
                    + notice
                &&& gcc_text(results, only, max_files) == gcc_files(files.take(m)) + notice
            }
        }),
{
    let files = reported_files(results, only);
    let n = files.len();
    assert(files.take(n as int) =~= files);
    let head = summary_line_text(n, total_chars(files)) + "\n"@;
    if max_files is None || max_files.unwrap() >= n {
        assert(notice_text(n, n) =~= Seq::<char>::empty());
        assert(compact_text(results, only, max_files) =~= head + compact_rows(files));
        assert(gcc_text(results, only, max_files) =~= gcc_files(files));
    }
}


/// A summary names a line exactly when every violation sits on it: `Some(l)`
/// means there are violations and all are on line `l`; `None` means there are
/// none, or two of them sit on different lines.
pub proof fn law_single_line_means_one_line(vs: Seq<Violation>)
    ensures
        single_line_of(vs) matches Some(l) ==> vs.len() > 0 && forall|k: int|
            0 <= k < vs.len() ==> #[trigger] vs[k].line == l,
        single_line_of(vs) is None ==> vs.len() == 0 || exists|k: int, m: int|
            0 <= k < vs.len() && 0 <= m < vs.len() && #[trigger] vs[k].line != #[trigger] vs[m].line,
{
    if vs.len() > 0 && single_line_of(vs) is None {
        let k = choose|k: int| 0 <= k < vs.len() && !(#[trigger] vs[k].line == vs[0].line);
        assert(vs[k].line != vs[0].line);
    }
}


/// The category labels, letter by letter.
pub proof fn law_labels()
    ensures
        spec_label(Category::Cjk) == seq!['c', 'j', 'k'],
        spec_label(Category::Fullwidth) == seq!['f', 'u', 'l', 'l', 'w', 'i', 'd', 't', 'h'],
        spec_label(Category::Homoglyph) == seq!['h', 'o', 'm', 'o', 'g', 'l', 'y', 'p', 'h'],
        spec_label(Category::Symbol) == seq!['s', 'y', 'm', 'b', 'o', 'l'],
        spec_label(Category::Other) == seq!['o', 't', 'h', 'e', 'r'],
{
    reveal_strlit("cjk");
    reveal_strlit("fullwidth");
    reveal_strlit("homoglyph");
    reveal_strlit("symbol");
    reveal_strlit("other");
}

/// The GCC/Clang-style line, character by character: the path, `:`, the
/// line, `:`, the column, `: non-ASCII byte 0x`, two hex digits, and, for a
/// decoded character, ` ('c')`.
pub proof fn law_violation_line_shape(path: Seq<char>, v: Violation)
    ensures
        violation_text(path, v) == path + seq![':'] + decimal(v.line as nat) + seq![':'] + decimal(
            v.column as nat,
        ) + seq![':', ' ', 'n', 'o', 'n', '-', 'A', 'S', 'C', 'I', 'I', ' ', 'b', 'y', 't', 'e', ' ', '0', 'x'] + hex2(v.byte) + match v.char_display {
            Some(c) => seq![' ', '(', '\''] + seq![c] + seq!['\'', ')'],
            None => Seq::empty(),
        },
{
    reveal_strlit(":");
    reveal_strlit(": non-ASCII byte 0x");
    reveal_strlit(" ('");
    reveal_strlit("')");
}

/// The summary line and the truncation notice, character by character, with
/// the plural `s` exactly when the count is not one.
pub proof fn law_summary_and_notice_shape(files: nat, chars: nat, total: nat, shown: nat)
    ensures
        plural_text(files) == (if files == 1 {
            Seq::<char>::empty()
        } else {
            seq!['s']
        }),
        summary_line_text(files, chars) == decimal(files) + seq![' ', 'f', 'i', 'l', 'e'] + plural_text(files) + seq![',', ' ']
            + decimal(chars) + seq![' ', 'c', 'h', 'a', 'r'] + plural_text(chars),
        total <= shown ==> notice_text(total, shown) == Seq::<char>::empty(),
        total > shown ==> notice_text(total, shown) == seq!['.', '.', '.', ' ', 'a', 'n', 'd', ' '] + decimal((total - shown) as nat)
            + seq![' ', 'm', 'o', 'r', 'e', ' ', 'f', 'i', 'l', 'e'] + plural_text((total - shown) as nat) + seq!['\n'],
{
    reveal_strlit("");
    reveal_strlit("s");
    reveal_strlit(" file");
    reveal_strlit(", ");
    reveal_strlit(" char");
    reveal_strlit("... and ");
    reveal_strlit(" more file");
    reveal_strlit("\n");
}

/// A compact row, character by character: the path, `:line` when every
/// violation sits on one line, ` [`, the labels joined by `,`, `] (`, the
/// count and `)` with a line feed.
pub proof fn law_compact_row_shape(path: Seq<char>, vs: Seq<Violation>)
    ensures
        compact_row(path, vs) == path + match single_line_of(vs) {
            Some(l) => seq![':'] + decimal(l as nat),
            None => Seq::empty(),
        } + seq![' ', '['] + categories_text(categories_of(vs)) + seq![']', ' ', '('] + decimal(
            vs.len(),
        ) + seq![')', '\n'],
        forall|cs: Seq<Category>|
            #![trigger categories_text(cs)]
            cs.len() >= 2 ==> categories_text(cs) == categories_text(cs.drop_last()) + seq![',']
                + spec_label(cs.last()),
        forall|cs: Seq<Category>|
            #![trigger categories_text(cs)]
            cs.len() == 1 ==> categories_text(cs) == spec_label(cs[0]),
        categories_text(Seq::empty()) == Seq::<char>::empty(),
{
    reveal_strlit(":");
    reveal_strlit(" [");
    reveal_strlit("] (");
    reveal_strlit(")\n");
    reveal_strlit(",");
}

} // verus!
