//! What is drawn.

use keke::draw::header::truncate;
use keke::draw::input::{wrap_cells, wrap_position};
use keke::draw::markdown;
use keke::draw::plan::body;
use keke::draw::status::tokens;
use keke::draw::subagents::{checkbox, title, wrap};
use keke::draw::turn_status::format_duration;
use keke::picker::{Picker, PickerKind, ProviderChoice};
use keke::selection::{char_at_cell, Selection};
use keke::style::{Line, Span, Style};

fn plain(lines: &[Line]) -> Vec<String> {
    lines
        .iter()
        .map(|line| line.spans.iter().map(|span| span.content.as_str()).collect())
        .collect()
}

#[test]
fn a_long_path_loses_its_head_but_keeps_the_project_name() {
    assert_eq!(truncate("/very/long/prefix/keke", 20, "gpt-5"), "…efix/keke");
}

#[test]
fn a_narrow_bar_with_a_wide_right_side_truncates_to_nothing_without_panicking() {
    assert_eq!(truncate("/keke", 10, "12345678"), "…");
}

#[test]
fn a_short_path_is_left_alone() {
    assert_eq!(truncate("/home/g/keke", 40, "gpt-5"), "/home/g/keke");
}

#[test]
fn an_empty_plan_says_so_rather_than_drawing_nothing() {
    let lines = body("   \n", 60);
    assert!(!lines.is_empty());
    assert!(lines[0].spans.iter().any(|span| span.content.contains("no plan")));
}

#[test]
fn tokens_stay_exact_until_the_column_would_jitter() {
    assert_eq!(tokens(842), "842");
    assert_eq!(tokens(12_345), "12.3k");
    assert_eq!(tokens(1_234_567), "1.2M");
    assert_eq!(tokens(12_345_678), "12.3M");
}

#[test]
fn tokens_round_as_floating_point_does() {
    let shown = |count: u64| {
        if count >= 1_000_000 {
            format!("{:.1}M", count as f64 / 1_000_000.0)
        } else {
            format!("{:.1}k", count as f64 / 1_000.0)
        }
    };
    let mut count: u64 = 10_000;
    while count < 40_000 {
        assert_eq!(tokens(count), shown(count), "{count}");
        count += 1;
    }
    for count in [
        999_949, 999_950, 999_999, 1_000_000, 1_049_999, 1_050_000, 1_150_000, 1_250_000,
        1_350_000, 1_450_000, 9_999_999_999, 123_456_789_012_345, u64::MAX,
    ] {
        assert_eq!(tokens(count), shown(count), "{count}");
    }
}

#[test]
fn a_finished_subagent_is_marked_apart_from_one_that_failed() {
    assert_eq!(checkbox(None).0, "☐");
    assert_eq!(checkbox(Some("completed")).0, "☑");
    assert_eq!(checkbox(Some("timed_out")).0, "☒");
    assert_eq!(checkbox(Some("cancelled")).0, "☒");
}

#[test]
fn a_row_titles_itself_with_the_first_line_of_the_task() {
    assert_eq!(title("find the parser\n\nlook in crates/"), "find the parser");
    assert_eq!(title("  padded  "), "padded");
}

#[test]
fn wrapping_keeps_a_word_longer_than_the_line_whole() {
    assert_eq!(wrap("a bb ccc", 4), vec!["a bb", "ccc"]);
    assert_eq!(
        wrap("crates/keke-subagent/src/host.rs", 8),
        vec!["crates/keke-subagent/src/host.rs"]
    );
}

#[test]
fn a_box_wraps_by_cells() {
    assert_eq!(wrap_cells("abcd", 3), vec!["abc", "d"]);
    assert_eq!(wrap_cells("日本語", 4), vec!["日本", "語"]);
    assert_eq!(wrap_position("日本語", 4, 4), (1, 0));
    assert_eq!(wrap_position("abcd", 4, 3), (1, 1));
}

#[test]
fn markdown_becomes_lines() {
    let lines = plain(&markdown::render("# Title\n\nsome *words* here\n\n- one\n- two\n", 40, Style::new(), ""));
    assert!(lines.iter().any(|line| line.contains("Title")), "{lines:?}");
    assert!(lines.iter().any(|line| line.contains("some words here")), "{lines:?}");
    assert!(lines.iter().any(|line| line.contains("one")), "{lines:?}");
    assert!(!lines.iter().any(|line| line.contains("*words*")), "{lines:?}");
}

#[test]
fn durations_read_as_people_say_them() {
    assert_eq!(format_duration(12), "12s");
}

#[test]
fn a_filter_reads_keys_and_labels_whatever_their_case() {
    let mut picker = Picker::new(PickerKind::Provider);
    let choice = ProviderChoice {
        route: "xai".to_string(),
        display_name: "xAI (API key)".to_string(),
    };
    for ch in "API".chars() {
        picker.push(ch);
    }
    assert!(picker.matches(&choice));
    picker.push('z');
    assert!(!picker.matches(&choice));
}

#[test]
fn a_highlight_keeps_every_character() {
    let mut selection = Selection::default();
    selection.set_rows(3, vec!["hello world".to_string()]);
    selection.press((3, 2));
    selection.drag_to((3, 7));
    let line = Line::of(vec![
        Span::styled("hello ", Style::new().bold()),
        Span::raw("world"),
    ]);
    let marked = selection.highlight(3, line);
    let pieces: Vec<(&str, bool, bool)> = marked
        .spans
        .iter()
        .map(|span| (span.content.as_str(), span.style.bold, span.style.reversed))
        .collect();
    assert_eq!(
        pieces,
        vec![
            ("he", true, false),
            ("llo ", true, true),
            ("wo", false, true),
            ("rld", false, false),
        ]
    );
}

#[test]
fn a_cell_is_a_character() {
    let row: Vec<char> = "a日b".chars().collect();
    assert_eq!(char_at_cell(&row, 0), 0);
    assert_eq!(char_at_cell(&row, 1), 1);
    assert_eq!(char_at_cell(&row, 2), 1);
    assert_eq!(char_at_cell(&row, 3), 2);
    assert_eq!(char_at_cell(&row, 9), 3);
}

#[test]
fn the_usage_figure_keeps_off_the_border() {
    let line = keke::draw::header::line("/home/g/keke", Some("/home/g".to_string()), 12_345, Some(200_000), 40);
    let text: String = line.spans.iter().map(|span| span.content.as_str()).collect();
    assert_eq!(text, format!(" ~/keke{}12.3k/200.0k", " ".repeat(20)));
    assert_eq!(text.chars().count(), 39);
}
