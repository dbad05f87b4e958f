use sakoku::category::Category;
use sakoku::checker::Violation;
use sakoku::cli::OutputFormat;
use sakoku::report::{format_violation, render, summarize};
use sakoku::walker::FileResult;

fn violation(line: usize, char_display: Option<char>) -> Violation {
    Violation {
        line,
        column: 1,
        byte: 0,
        char_display,
    }
}

fn file_result(path: &str, violations: Vec<Violation>) -> FileResult {
    FileResult {
        path: path.into(),
        violations,
    }
}

/// Renders `results` and returns `(output, had_violations)`.
fn render_to_string(
    results: &[FileResult],
    format: OutputFormat,
    only: &[Category],
    max_files: Option<usize>,
) -> (String, bool) {
    render(results, format, only, max_files)
}

// --- summarize ---

#[test]
fn summarize_single_line_when_every_violation_is_on_one_line() {
    // Two violations on the same line still collapse to one line number.
    let violations = vec![
        violation(3, Some('\u{4E00}')),
        violation(3, Some('\u{3042}')),
    ];
    let summary = summarize(&violations);
    assert_eq!(summary.single_line, Some(3));
    assert_eq!(summary.count, 2);
}

#[test]
fn summarize_no_single_line_when_violations_span_multiple_lines() {
    let violations = vec![
        violation(1, Some('\u{3042}')),
        violation(5, Some('\u{3042}')),
    ];
    let summary = summarize(&violations);
    assert_eq!(summary.single_line, None);
    assert_eq!(summary.count, 2);
}

#[test]
fn summarize_sorts_and_dedups_categories() {
    // U+0430 CYRILLIC SMALL LETTER A -> Homoglyph, U+4E00 CJK UNIFIED
    // IDEOGRAPH -> Cjk; two Cjk violations must not duplicate the entry.
    let violations = vec![
        violation(1, Some('\u{0430}')),
        violation(1, Some('\u{4E00}')),
        violation(2, Some('\u{4E00}')),
    ];
    let summary = summarize(&violations);
    assert_eq!(summary.categories, vec![Category::Cjk, Category::Homoglyph]);
}

// --- render: shared / compact ---

#[test]
fn render_compact_empty_results_is_empty_output_and_false() {
    let (out, had) = render_to_string(&[], OutputFormat::Compact, &[], None);
    assert!(!had);
    assert_eq!(out, "");
}

#[test]
fn render_compact_singular_summary_for_one_file_one_char() {
    let results = vec![file_result("/a.md", vec![violation(1, Some('\u{3042}'))])];
    let (out, had) = render_to_string(&results, OutputFormat::Compact, &[], None);
    assert!(had);
    assert_eq!(out, "1 file, 1 char\n/a.md:1 [cjk] (1)\n");
}

#[test]
fn render_compact_multiple_files_mixes_single_and_multi_line_rows() {
    // /a.md has violations on two lines, so its row omits the line
    // number entirely (just a space after the path); /b.md has all of
    // its violations on one line, so its row keeps the `:line`.
    let results = vec![
        file_result(
            "/a.md",
            vec![
                violation(1, Some('\u{3042}')),
                violation(2, Some('\u{3042}')),
            ],
        ),
        file_result("/b.md", vec![violation(5, Some('\u{FF21}'))]),
    ];
    let (out, had) = render_to_string(&results, OutputFormat::Compact, &[], None);
    assert!(had);
    assert_eq!(
        out,
        "2 files, 3 chars\n/a.md [cjk] (2)\n/b.md:5 [fullwidth] (1)\n"
    );
}

#[test]
fn render_compact_only_filter_narrows_multiline_file_to_single_line() {
    // Unfiltered, /a.md has violations on two lines (line 1 is cjk,
    // line 2 is homoglyph), so no single line number is printed.
    // Restricting to --only cjk drops the line-2 violation, leaving
    // exactly one violating line -- the line number must reappear.
    let results = vec![file_result(
        "/a.md",
        vec![
            violation(1, Some('\u{4E00}')),
            violation(2, Some('\u{0430}')),
        ],
    )];

    let (out_unfiltered, had_unfiltered) =
        render_to_string(&results, OutputFormat::Compact, &[], None);
    assert!(had_unfiltered);
    assert_eq!(
        out_unfiltered,
        "1 file, 2 chars\n/a.md [cjk,homoglyph] (2)\n"
    );

    let (out_filtered, had_filtered) =
        render_to_string(&results, OutputFormat::Compact, &[Category::Cjk], None);
    assert!(had_filtered);
    assert_eq!(out_filtered, "1 file, 1 char\n/a.md:1 [cjk] (1)\n");
}

#[test]
fn render_compact_only_filter_drops_empty_file_but_keeps_others() {
    let results = vec![
        file_result("/a.md", vec![violation(1, Some('\u{0430}'))]),
        file_result("/b.md", vec![violation(2, Some('\u{3042}'))]),
    ];
    let (out, had) = render_to_string(&results, OutputFormat::Compact, &[Category::Cjk], None);
    assert!(had);
    assert_eq!(out, "1 file, 1 char\n/b.md:2 [cjk] (1)\n");
}

#[test]
fn render_compact_only_filter_removing_everything_is_empty_output_and_false() {
    let results = vec![file_result("/a.md", vec![violation(1, Some('\u{0430}'))])];
    let (out, had) = render_to_string(&results, OutputFormat::Compact, &[Category::Cjk], None);
    assert!(!had);
    assert_eq!(out, "");
}

#[test]
fn render_compact_max_files_truncation_singular() {
    let results = vec![
        file_result("/a.md", vec![violation(1, Some('\u{3042}'))]),
        file_result("/b.md", vec![violation(1, Some('\u{3042}'))]),
    ];
    let (out, had) = render_to_string(&results, OutputFormat::Compact, &[], Some(1));
    assert!(had);
    assert_eq!(
        out,
        "2 files, 2 chars\n/a.md:1 [cjk] (1)\n... and 1 more file\n"
    );
}

#[test]
fn render_compact_max_files_truncation_plural() {
    let results = vec![
        file_result("/a.md", vec![violation(1, Some('\u{3042}'))]),
        file_result("/b.md", vec![violation(1, Some('\u{3042}'))]),
        file_result("/c.md", vec![violation(1, Some('\u{3042}'))]),
    ];
    let (out, had) = render_to_string(&results, OutputFormat::Compact, &[], Some(1));
    assert!(had);
    assert_eq!(
        out,
        "3 files, 3 chars\n/a.md:1 [cjk] (1)\n... and 2 more files\n"
    );
}

// --- render: gcc ---

#[test]
fn render_gcc_empty_results_is_empty_output_and_false() {
    let (out, had) = render_to_string(&[], OutputFormat::Gcc, &[], None);
    assert!(!had);
    assert_eq!(out, "");
}

#[test]
fn render_gcc_matches_format_violation_output() {
    let v1 = violation(1, Some('\u{3042}'));
    let v2 = violation(2, Some('\u{FF21}'));
    let results = vec![file_result("/a.md", vec![v1.clone(), v2.clone()])];
    let (out, had) = render_to_string(&results, OutputFormat::Gcc, &[], None);
    assert!(had);
    let expected = format!(
        "{}\n{}\n",
        format_violation("/a.md", &v1),
        format_violation("/a.md", &v2),
    );
    assert_eq!(out, expected);
}

#[test]
fn render_gcc_max_files_truncation_notice() {
    let v = violation(1, Some('\u{3042}'));
    let results = vec![
        file_result("/a.md", vec![v.clone()]),
        file_result("/b.md", vec![v.clone()]),
    ];
    let (out, had) = render_to_string(&results, OutputFormat::Gcc, &[], Some(1));
    assert!(had);
    let expected = format!(
        "{}\n... and 1 more file\n",
        format_violation("/a.md", &v)
    );
    assert_eq!(out, expected);
}

#[test]
fn render_gcc_only_filter_removing_everything_is_empty_output_and_false() {
    let results = vec![file_result("/a.md", vec![violation(1, Some('\u{0430}'))])];
    let (out, had) = render_to_string(&results, OutputFormat::Gcc, &[Category::Cjk], None);
    assert!(!had);
    assert_eq!(out, "");
}
