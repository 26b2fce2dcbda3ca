//! Number formats, table frames and styles.

use codexusage::model::{NumberFormat, UsdAmount};
use codexusage::number::{format_currency, format_short_with_suffix, format_u64, format_u64_with};
use codexusage::table::{
    border_theme, column_widths, detect_border_style_for, detect_table_style_for,
    format_aligned_cells, format_data_row, format_table_cell, is_token_column, paint,
    row_table_element, rule_theme, should_left_align, table_display_width, table_rule,
    table_rule_element, write_table_header, write_table_row, write_table_rule, write_table_title,
    BorderStyle, DisplayRow, DisplayRowKind, TableElement, TableRenderConfig, TableRuleKind,
    TableStyle,
};

fn usd(cost: f64) -> UsdAmount {
    let shown = format!("{cost:.2}");
    UsdAmount {
        cents: shown.replace('.', "").parse().expect("whole cents"),
        positive: cost > 0.0,
    }
}

fn plain() -> TableRenderConfig {
    TableRenderConfig {
        style: TableStyle::Plain,
        borders: BorderStyle::Ascii,
        number_format: NumberFormat::Short,
    }
}

#[test]
fn app_format_helpers_produce_human_readable_output() {
    assert_eq!(format_u64(1_234_567), "1,234,567");
    assert_eq!(format_currency(usd(12.5)), "$12.50");
}

#[test]
fn behavior_checks_format_helpers_produce_human_readable_output() {
    assert_eq!(format_u64(1_234_567), "1,234,567");
    assert_eq!(format_currency(usd(12.5)), "$12.50");
}

#[test]
fn app_short_number_format_uses_three_significant_digits() {
    assert_eq!(format_u64_with(999, NumberFormat::Short), "999");
    assert_eq!(format_u64_with(1_000, NumberFormat::Short), "1K");
    assert_eq!(format_u64_with(1_234, NumberFormat::Short), "1.23K");
    assert_eq!(format_u64_with(12_345, NumberFormat::Short), "12.3K");
    assert_eq!(format_u64_with(123_456, NumberFormat::Short), "123K");
    assert_eq!(format_u64_with(1_234_567, NumberFormat::Short), "1.23M");
    assert_eq!(format_u64_with(12_345_678, NumberFormat::Short), "12.3M");
    assert_eq!(format_u64_with(123_456_789, NumberFormat::Short), "123M");
    assert_eq!(format_u64_with(1_000_000_000, NumberFormat::Short), "1B");
    assert_eq!(format_u64_with(1_200_000_000, NumberFormat::Short), "1.2B");
    assert_eq!(
        format_u64_with(1_000_000_000_000, NumberFormat::Short),
        "1T"
    );
}

#[test]
fn behavior_checks_short_number_format_uses_three_significant_digits() {
    assert_eq!(format_u64_with(999, NumberFormat::Short), "999");
    assert_eq!(format_u64_with(1_000, NumberFormat::Short), "1K");
    assert_eq!(format_u64_with(1_234, NumberFormat::Short), "1.23K");
    assert_eq!(format_u64_with(12_345, NumberFormat::Short), "12.3K");
    assert_eq!(format_u64_with(123_456, NumberFormat::Short), "123K");
    assert_eq!(format_u64_with(1_234_567, NumberFormat::Short), "1.23M");
    assert_eq!(format_u64_with(12_345_678, NumberFormat::Short), "12.3M");
    assert_eq!(format_u64_with(123_456_789, NumberFormat::Short), "123M");
    assert_eq!(format_u64_with(1_000_000_000, NumberFormat::Short), "1B");
    assert_eq!(format_u64_with(1_200_000_000, NumberFormat::Short), "1.2B");
    assert_eq!(
        format_u64_with(1_000_000_000_000, NumberFormat::Short),
        "1T"
    );
}

#[test]
fn app_full_number_format_preserves_grouped_digits() {
    assert_eq!(format_u64_with(1_234_567, NumberFormat::Full), "1,234,567");
}

#[test]
fn behavior_checks_full_number_format_preserves_grouped_digits() {
    assert_eq!(format_u64_with(1_234_567, NumberFormat::Full), "1,234,567");
}

#[test]
fn digits_are_grouped_by_three() {
    assert_eq!(format_u64(0), "0");
    assert_eq!(format_u64(999), "999");
    assert_eq!(format_u64(1_000), "1,000");
    assert_eq!(format_u64(u64::MAX), "18,446,744,073,709,551,615");
}

#[test]
fn short_numbers_round_and_carry_into_the_next_unit() {
    assert_eq!(format_u64_with(0, NumberFormat::Short), "0");
    assert_eq!(format_u64_with(9_995, NumberFormat::Short), "10K");
    assert_eq!(format_u64_with(99_950, NumberFormat::Short), "100K");
    assert_eq!(format_u64_with(999_499, NumberFormat::Short), "999K");
    assert_eq!(format_u64_with(1_005_000, NumberFormat::Short), "1.01M");
}

#[test]
fn short_suffixes_drop_trailing_zeros() {
    assert_eq!(format_short_with_suffix(120, 2, "K"), "1.2K");
    assert_eq!(format_short_with_suffix(100, 2, "K"), "1K");
    assert_eq!(format_short_with_suffix(123, 2, "M"), "1.23M");
    assert_eq!(format_short_with_suffix(7, 0, "B"), "7B");
}

#[test]
fn currency_keeps_two_digits() {
    assert_eq!(format_currency(UsdAmount::zero()), "$0.00");
    assert_eq!(format_currency(usd(0.004)), "$0.00");
    assert_eq!(format_currency(usd(1234.5)), "$1234.50");
}

#[test]
fn app_detect_table_style_requires_tty_and_256_color_support() {
    assert_eq!(
        detect_table_style_for(true, Some("xterm-256color"), None, false),
        TableStyle::Ansi256
    );
    assert_eq!(
        detect_table_style_for(true, Some("xterm-256color"), None, true),
        TableStyle::Plain
    );
    assert_eq!(
        detect_table_style_for(false, Some("xterm-256color"), None, false),
        TableStyle::Plain
    );
    assert_eq!(
        detect_table_style_for(true, Some("xterm"), Some("truecolor"), false),
        TableStyle::Ansi256
    );
}

#[test]
fn behavior_checks_detect_table_style_requires_tty_and_256_color_support() {
    assert_eq!(
        detect_table_style_for(true, Some("xterm-256color"), None, false),
        TableStyle::Ansi256
    );
    assert_eq!(
        detect_table_style_for(true, Some("xterm-256color"), None, true),
        TableStyle::Plain
    );
    assert_eq!(
        detect_table_style_for(false, Some("xterm-256color"), None, false),
        TableStyle::Plain
    );
    assert_eq!(
        detect_table_style_for(true, Some("xterm"), Some("truecolor"), false),
        TableStyle::Ansi256
    );
}

#[test]
fn app_detect_border_style_requires_tty_and_utf8_locale() {
    assert_eq!(
        detect_border_style_for(true, Some("en_US.UTF-8"), None, None),
        BorderStyle::Unicode
    );
    assert_eq!(
        detect_border_style_for(true, None, Some("pl_PL.utf8"), None),
        BorderStyle::Unicode
    );
    assert_eq!(
        detect_border_style_for(true, Some("C"), None, None),
        BorderStyle::Ascii
    );
    assert_eq!(
        detect_border_style_for(false, Some("en_US.UTF-8"), None, None),
        BorderStyle::Ascii
    );
}

#[test]
fn behavior_checks_detect_border_style_requires_tty_and_utf8_locale() {
    assert_eq!(
        detect_border_style_for(true, Some("en_US.UTF-8"), None, None),
        BorderStyle::Unicode
    );
    assert_eq!(
        detect_border_style_for(true, None, Some("pl_PL.utf8"), None),
        BorderStyle::Unicode
    );
    assert_eq!(
        detect_border_style_for(true, Some("C"), None, None),
        BorderStyle::Ascii
    );
    assert_eq!(
        detect_border_style_for(false, Some("en_US.UTF-8"), None, None),
        BorderStyle::Ascii
    );
}

#[test]
fn app_unicode_border_helpers_emit_box_drawing_characters() {
    let headers = ["Date", "Model"];
    let widths: Vec<usize> = vec![10, 8];
    let row = format_data_row(
        &headers,
        BorderStyle::Unicode,
        &widths,
        &["2025-09-11".to_string(), "TOTAL".to_string()],
    );

    assert_eq!(
        table_rule(TableRuleKind::Top, BorderStyle::Unicode, &widths),
        "┌────────────┬──────────┐"
    );
    assert!(row.starts_with('│'));
    assert!(row.contains(" │ "));
    assert!(row.ends_with('│'));
}

#[test]
fn behavior_checks_unicode_border_helpers_emit_box_drawing_characters() {
    let headers = ["Date", "Model"];
    let widths: Vec<usize> = vec![10, 8];
    let row = format_data_row(
        &headers,
        BorderStyle::Unicode,
        &widths,
        &["2025-09-11".to_string(), "TOTAL".to_string()],
    );

    assert_eq!(
        table_rule(TableRuleKind::Top, BorderStyle::Unicode, &widths),
        "┌────────────┬──────────┐"
    );
    assert!(row.starts_with('│'));
    assert!(row.contains(" │ "));
    assert!(row.ends_with('│'));
}

#[test]
fn app_ascii_border_helpers_preserve_ascii_fallback() {
    let headers = ["Date", "Model"];
    let widths: Vec<usize> = vec![10, 8];
    let row = format_data_row(
        &headers,
        BorderStyle::Ascii,
        &widths,
        &["2025-09-11".to_string(), "TOTAL".to_string()],
    );

    assert_eq!(
        table_rule(TableRuleKind::Top, BorderStyle::Ascii, &widths),
        "+------------+----------+"
    );
    assert!(row.starts_with('|'));
    assert!(row.contains(" | "));
    assert!(row.ends_with('|'));
}

#[test]
fn behavior_checks_ascii_border_helpers_preserve_ascii_fallback() {
    let headers = ["Date", "Model"];
    let widths: Vec<usize> = vec![10, 8];
    let row = format_data_row(
        &headers,
        BorderStyle::Ascii,
        &widths,
        &["2025-09-11".to_string(), "TOTAL".to_string()],
    );

    assert_eq!(
        table_rule(TableRuleKind::Top, BorderStyle::Ascii, &widths),
        "+------------+----------+"
    );
    assert!(row.starts_with('|'));
    assert!(row.contains(" | "));
    assert!(row.ends_with('|'));
}

#[test]
fn app_paint_only_emits_ansi_sequences_when_enabled() {
    let plain = paint(TableStyle::Plain, TableElement::Header, "Header");
    let styled = paint(TableStyle::Ansi256, TableElement::Header, "Header");

    assert_eq!(plain, "Header");
    assert!(styled.starts_with("\u{1b}["));
    assert!(styled.ends_with("\u{1b}[0m"));
}

#[test]
fn behavior_checks_paint_only_emits_ansi_sequences_when_enabled() {
    let plain = paint(TableStyle::Plain, TableElement::Header, "Header");
    let styled = paint(TableStyle::Ansi256, TableElement::Header, "Header");

    assert_eq!(plain, "Header");
    assert!(styled.starts_with("\u{1b}["));
    assert!(styled.ends_with("\u{1b}[0m"));
}

#[test]
fn app_styled_rows_keep_border_color_separate_from_row_color() {
    let mut output = String::new();
    let headers = ["Date", "Model"];
    let widths: Vec<usize> = vec![10, 8];
    let cells = vec!["2025-09-11".to_string(), "TOTAL".to_string()];

    write_table_row(
        &mut output,
        TableRenderConfig {
            style: TableStyle::Ansi256,
            borders: BorderStyle::Unicode,
            number_format: NumberFormat::Short,
        },
        &headers,
        &widths,
        &cells,
        TableElement::Subtotal,
    );

    assert!(output.contains("\u{1b}[38;5;24m│\u{1b}[0m"));
    assert!(output.contains("\u{1b}[1;38;5;117m 2025-09-11 \u{1b}[0m"));
    assert!(!output.contains("\u{1b}[1;38;5;117m│"));
}

#[test]
fn behavior_checks_styled_rows_keep_border_color_separate_from_row_color() {
    let mut output = String::new();
    let headers = ["Date", "Model"];
    let widths: Vec<usize> = vec![10, 8];
    let cells = vec!["2025-09-11".to_string(), "TOTAL".to_string()];

    write_table_row(
        &mut output,
        TableRenderConfig {
            style: TableStyle::Ansi256,
            borders: BorderStyle::Unicode,
            number_format: NumberFormat::Short,
        },
        &headers,
        &widths,
        &cells,
        TableElement::Subtotal,
    );

    assert!(output.contains("\u{1b}[38;5;24m│\u{1b}[0m"));
    assert!(output.contains("\u{1b}[1;38;5;117m 2025-09-11 \u{1b}[0m"));
    assert!(!output.contains("\u{1b}[1;38;5;117m│"));
}

#[test]
fn today_column_right_aligns_numbers_but_keeps_updated_date_readable() {
    let headers = ["Metric", "Today", "Burn Rate (/h)"];
    let widths: [usize; 3] = [7, 10, 14];
    let numeric_row = format_data_row(
        &headers,
        BorderStyle::Ascii,
        &widths,
        &["Input".to_string(), "120".to_string(), "240".to_string()],
    );
    let updated_row = format_data_row(
        &headers,
        BorderStyle::Ascii,
        &widths,
        &[
            "Updated".to_string(),
            "2026-01-02".to_string(),
            "00:30:00".to_string(),
        ],
    );

    let numeric_cells = numeric_row.split('|').collect::<Vec<_>>();
    assert_eq!(numeric_cells[2], "        120 ");

    let updated_cells = updated_row.split('|').collect::<Vec<_>>();
    assert_eq!(updated_cells[2], " 2026-01-02 ");
}

#[test]
fn empty_locale_variables_give_way_to_later_ones() {
    assert_eq!(
        detect_border_style_for(true, Some(""), None, Some("en_US.UTF-8")),
        BorderStyle::Unicode
    );
    assert_eq!(
        detect_border_style_for(true, Some("C"), Some("en_US.UTF-8"), None),
        BorderStyle::Ascii
    );
    assert_eq!(
        detect_border_style_for(true, None, None, None),
        BorderStyle::Ascii
    );
}

#[test]
fn terminals_without_colors_get_the_plain_style() {
    assert_eq!(
        detect_table_style_for(true, Some("xterm"), None, false),
        TableStyle::Plain
    );
    assert_eq!(
        detect_table_style_for(true, None, None, false),
        TableStyle::Plain
    );
}

#[test]
fn rules_have_their_own_corners() {
    let widths: [usize; 2] = [3, 2];
    assert_eq!(
        table_rule(TableRuleKind::HeaderSeparator, BorderStyle::Unicode, &widths),
        "├─────┼────┤"
    );
    assert_eq!(
        table_rule(TableRuleKind::Bottom, BorderStyle::Unicode, &widths),
        "└─────┴────┘"
    );
    assert_eq!(
        rule_theme(TableRuleKind::Top, BorderStyle::Ascii).left,
        border_theme(BorderStyle::Ascii).left
    );
    assert_eq!(
        table_rule_element(TableRuleKind::Bottom),
        TableElement::Border
    );
}

#[test]
fn rules_and_rows_span_the_same_columns() {
    let headers = ["Date", "Input"];
    let rows = vec![DisplayRow {
        cells: vec!["2026-01-02".to_string(), "1234567".to_string()],
        kind: DisplayRowKind::Subtotal,
    }];
    let total = DisplayRow {
        cells: vec!["GRAND TOTAL".to_string(), "1".to_string()],
        kind: DisplayRowKind::GrandTotal,
    };
    let widths = column_widths(&headers, &rows, &total, NumberFormat::Short);
    assert_eq!(widths, vec![11, 5]);
    let mut output = String::new();
    write_table_title(&mut output, TableStyle::Plain, "Title");
    write_table_header(&mut output, plain(), &headers, &widths);
    write_table_row(
        &mut output,
        plain(),
        &headers,
        &widths,
        &rows[0].cells,
        row_table_element(rows[0].kind),
    );
    write_table_rule(
        &mut output,
        TableStyle::Plain,
        TableElement::Border,
        &table_rule(TableRuleKind::Bottom, BorderStyle::Ascii, &widths),
    );
    assert_eq!(
        output,
        "Title Codex Usage Report\n+-------------+-------+\n| Date        | Input |\n+-------------+-------+\n| 2026-01-02  | 1.23M |\n+-------------+-------+\n"
    );
    assert_eq!(table_display_width(&widths), 23);
}

#[test]
fn token_columns_shorten_numbers_only() {
    let headers = ["Model", "Input", "Cost"];
    assert!(is_token_column("Input"));
    assert!(!is_token_column("Cost"));
    assert_eq!(
        format_table_cell(&headers, 1, "100000", NumberFormat::Short),
        "100K"
    );
    assert_eq!(
        format_table_cell(&headers, 1, "100000", NumberFormat::Full),
        "100,000"
    );
    assert_eq!(
        format_table_cell(&headers, 2, "100000", NumberFormat::Short),
        "100000"
    );
    assert_eq!(
        format_table_cell(&headers, 1, "n/a", NumberFormat::Short),
        "n/a"
    );
    assert!(should_left_align("Model", "gpt-5"));
    assert!(!should_left_align("Cost", "$1.00"));
    assert_eq!(
        format_aligned_cells(
            &headers,
            &[6, 6, 6],
            &["a".to_string(), "1".to_string(), "$1".to_string()],
            NumberFormat::Short,
        ),
        vec![" a      ", "      1 ", "     $1 "]
    );
}
