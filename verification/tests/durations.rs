use x2_colon_api::error::ParseError;
use x2_colon_api::parser::{calculate_durations, DurationResult, LineResult, ParseOutput};

fn seconds_of(text: &str) -> u32 {
    calculate_durations(text).expect("the text has durations").total.seconds
}

#[test]
fn text_without_ranges_has_no_durations() {
    assert_eq!(calculate_durations("nothing to see here"), Err(ParseError::NoRangesFound));
    assert_eq!(calculate_durations(""), Err(ParseError::NoRangesFound));
    assert_eq!(calculate_durations("(just a remark)"), Err(ParseError::NoRangesFound));
}

#[test]
fn single_range_is_one_line() {
    let output = calculate_durations("intro (0:00-1:23) outro").unwrap();
    assert_eq!(
        output,
        ParseOutput {
            lines: vec![LineResult {
                id: 1,
                input: "(0:00-1:23)".to_string(),
                result: DurationResult { seconds: 83, format: "1:23".to_string() },
            }],
            total: DurationResult { seconds: 83, format: "1:23".to_string() },
        }
    );
}

#[test]
fn linked_ranges_make_one_line() {
    let output = calculate_durations("(0:00-0:10) + (0:20-0:25)").unwrap();
    assert_eq!(output.lines.len(), 1);
    assert_eq!(output.lines[0].id, 1);
    assert_eq!(output.lines[0].input, "(0:00-0:10) + (0:20-0:25)");
    assert_eq!(output.lines[0].result.seconds, 15);
    assert_eq!(output.lines[0].result.format, "0:15");
    assert_eq!(output.total.seconds, 15);
}

#[test]
fn link_text_is_normalized() {
    let output = calculate_durations("(0:00-0:10)+(0:20-0:25)\n \t+\n(1:00-1:05)").unwrap();
    assert_eq!(output.lines.len(), 1);
    assert_eq!(output.lines[0].input, "(0:00-0:10) + (0:20-0:25) + (1:00-1:05)");
    assert_eq!(output.lines[0].result.seconds, 20);
}

#[test]
fn link_allows_unicode_white_space() {
    let output = calculate_durations("(0:00-0:10)\u{a0}+\u{2003}(0:20-0:25)").unwrap();
    assert_eq!(output.lines.len(), 1);
    assert_eq!(output.lines[0].result.seconds, 15);
}

#[test]
fn anything_but_a_plus_separates_lines() {
    let output = calculate_durations("(0:00-0:10) and (0:20-0:25), (1:00-2:00) ++ (0:00-0:01)")
        .unwrap();
    let ids: Vec<usize> = output.lines.iter().map(|line| line.id).collect();
    let inputs: Vec<&str> = output.lines.iter().map(|line| line.input.as_str()).collect();
    let seconds: Vec<u32> = output.lines.iter().map(|line| line.result.seconds).collect();
    assert_eq!(ids, vec![1, 2, 3, 4]);
    assert_eq!(inputs, vec!["(0:00-0:10)", "(0:20-0:25)", "(1:00-2:00)", "(0:00-0:01)"]);
    assert_eq!(seconds, vec![10, 5, 60, 1]);
    assert_eq!(output.total.seconds, 76);
    assert_eq!(output.total.format, "1:16");
}

#[test]
fn ranges_side_by_side_are_not_linked() {
    let output = calculate_durations("(0:00-0:10)(0:20-0:25)").unwrap();
    assert_eq!(output.lines.len(), 2);
}

#[test]
fn ids_count_lines_not_ranges() {
    let output = calculate_durations("(0:00-0:10) + (0:10-0:20)\n(1:00-1:30)\n(2:00-2:01) + (3:00-3:01)")
        .unwrap();
    let ids: Vec<usize> = output.lines.iter().map(|line| line.id).collect();
    assert_eq!(ids, vec![1, 2, 3]);
    assert_eq!(output.lines[2].input, "(2:00-2:01) + (3:00-3:01)");
}

#[test]
fn total_is_the_sum_of_the_lines() {
    let output = calculate_durations(
        "a (0:00-0:59) b (1:00-2:30) + (0:00:00-1:00:00) c (10:00-10:00) d (0:07-0:08)",
    )
    .unwrap();
    let sum: u32 = output.lines.iter().map(|line| line.result.seconds).sum();
    assert_eq!(output.lines.len(), 4);
    assert_eq!(sum, 59 + 90 + 3600 + 0 + 1);
    assert_eq!(output.total.seconds, sum);
    assert_eq!(output.total.format, "62:30");
}

#[test]
fn all_three_dashes_are_accepted() {
    assert_eq!(seconds_of("(1:00-2:00)"), 60);
    assert_eq!(seconds_of("(1:00\u{2013}2:00)"), 60);
    assert_eq!(seconds_of("(1:00\u{2014}2:00)"), 60);
}

#[test]
fn other_dashes_are_not() {
    assert_eq!(calculate_durations("(1:00\u{2212}2:00)"), Err(ParseError::NoRangesFound));
    assert_eq!(calculate_durations("(1:00~2:00)"), Err(ParseError::NoRangesFound));
}

#[test]
fn seconds_above_59_are_refused() {
    assert_eq!(
        calculate_durations("(0:60-1:00)"),
        Err(ParseError::InvalidSeconds { range: "(0:60-1:00)".to_string(), value: 60 })
    );
    assert_eq!(
        calculate_durations("(0:00-0:60)"),
        Err(ParseError::InvalidSeconds { range: "(0:00-0:60)".to_string(), value: 60 })
    );
}

#[test]
fn minutes_above_59_are_refused_in_the_long_form() {
    assert_eq!(
        calculate_durations("(0:60:00-1:00:00)"),
        Err(ParseError::InvalidMinutes { range: "(0:60:00-1:00:00)".to_string(), value: 60 })
    );
    assert_eq!(
        calculate_durations("(75:00-80:00)"),
        Err(ParseError::InvalidMinutes { range: "(75:00-80:00)".to_string(), value: 75 })
    );
    assert_eq!(
        calculate_durations("(5:00-80:00)"),
        Err(ParseError::InvalidMinutes { range: "(5:00-80:00)".to_string(), value: 80 })
    );
}

#[test]
fn minutes_are_checked_before_seconds() {
    assert_eq!(
        calculate_durations("(0:99-61:00)"),
        Err(ParseError::InvalidMinutes { range: "(0:99-61:00)".to_string(), value: 61 })
    );
    assert_eq!(
        calculate_durations("(0:70-0:80)"),
        Err(ParseError::InvalidSeconds { range: "(0:70-0:80)".to_string(), value: 70 })
    );
}

#[test]
fn bounds_are_checked_before_the_order() {
    assert_eq!(
        calculate_durations("(5:00-0:61)"),
        Err(ParseError::InvalidSeconds { range: "(5:00-0:61)".to_string(), value: 61 })
    );
}

#[test]
fn end_before_start_is_refused() {
    assert_eq!(
        calculate_durations("(1:00-0:30)"),
        Err(ParseError::EndBeforeStart { range: "(1:00-0:30)".to_string() })
    );
}

#[test]
fn empty_range_counts_nothing() {
    let output = calculate_durations("(1:00-1:00)").unwrap();
    assert_eq!(output.total.seconds, 0);
    assert_eq!(output.total.format, "0:00");
}

#[test]
fn first_defect_fails_the_whole_text() {
    assert_eq!(
        calculate_durations("(0:00-0:10) then (2:00-1:00) then (0:61-1:00)"),
        Err(ParseError::EndBeforeStart { range: "(2:00-1:00)".to_string() })
    );
}

#[test]
fn hours_are_counted_and_never_shown() {
    let output = calculate_durations("(1:00:00-2:30:00)").unwrap();
    assert_eq!(output.total.seconds, 5400);
    assert_eq!(output.total.format, "90:00");
    assert_eq!(output.lines[0].result.format, "90:00");
}

#[test]
fn hours_are_not_bounded() {
    let output = calculate_durations("(0:00:00-100:00:01)").unwrap();
    assert_eq!(output.total.seconds, 360_001);
    assert_eq!(output.total.format, "6000:01");
}

#[test]
fn three_fields_are_read_before_two() {
    assert_eq!(seconds_of("(1:23:45-1:23:50)"), 5);
    assert_eq!(seconds_of("(0:01:00-2:00)"), 60);
}

#[test]
fn leading_zeros_are_allowed() {
    assert_eq!(seconds_of("(00:00-0001:030)"), 90);
    assert_eq!(seconds_of("(000000000000:00-00000000000000000001:00)"), 60);
}

#[test]
fn malformed_range_fails_the_text() {
    assert_eq!(
        calculate_durations("(1:00-2:zz)"),
        Err(ParseError::MalformedRange { text: "(1:00-2:zz)".to_string() })
    );
    assert_eq!(
        calculate_durations("ok (0:00-0:10) bad (1:00 - 2:00) rest"),
        Err(ParseError::MalformedRange { text: "(1:00 - 2:00)".to_string() })
    );
}

#[test]
fn malformed_range_wins_over_a_defect_before_it() {
    assert_eq!(
        calculate_durations("(2:00-1:00) and (1:00-:30)"),
        Err(ParseError::MalformedRange { text: "(1:00-:30)".to_string() })
    );
}

#[test]
fn parenthesis_without_a_dash_is_prose() {
    assert_eq!(calculate_durations("(1:00x2:00)"), Err(ParseError::NoRangesFound));
    assert_eq!(seconds_of("(see 1:00) then (0:00-0:05)"), 5);
}

#[test]
fn parenthesis_without_two_colons_is_prose() {
    assert_eq!(seconds_of("(pages 10-12: notes) (0:00-0:07)"), 7);
    assert_eq!(seconds_of("(a-b) (0:00-0:07)"), 7);
}

#[test]
fn unclosed_parenthesis_is_prose() {
    assert_eq!(calculate_durations("(1:00-2:zz"), Err(ParseError::NoRangesFound));
    assert_eq!(seconds_of("(0:00-0:05) (1:00-2:00"), 5);
}

#[test]
fn loose_match_runs_over_an_opening_parenthesis() {
    assert_eq!(
        calculate_durations("(1:00-2:00 and (0:00-0:05)"),
        Err(ParseError::MalformedRange { text: "(1:00-2:00 and (0:00-0:05)".to_string() })
    );
    assert_eq!(
        calculate_durations("(see (0:00-0:05))"),
        Err(ParseError::MalformedRange { text: "(see (0:00-0:05)".to_string() })
    );
}

#[test]
fn loose_match_that_begins_later_is_passed_over() {
    assert_eq!(seconds_of("(see) (0:00-0:05)"), 5);
    assert_eq!(
        calculate_durations("(see) (0:00-0:5x)"),
        Err(ParseError::MalformedRange { text: "(0:00-0:5x)".to_string() })
    );
}

#[test]
fn loose_match_reaches_to_the_first_closing_parenthesis() {
    assert_eq!(
        calculate_durations("(note: 1-2: x) (0:00-0:05) tail)"),
        Err(ParseError::MalformedRange { text: "(note: 1-2: x)".to_string() })
    );
}

#[test]
fn number_beyond_32_bits_is_no_number() {
    assert_eq!(
        calculate_durations("(4294967296:00-4294967297:00)"),
        Err(ParseError::MalformedRange { text: "(4294967296:00-4294967297:00)".to_string() })
    );
    assert_eq!(seconds_of("(4294967295:00:00-4294967295:00:01)"), 1);
}

#[test]
fn total_beyond_32_bits_is_refused() {
    assert_eq!(
        calculate_durations("(0:00:00-1193046:28:16)"),
        Err(ParseError::DurationOverflow)
    );
    let output = calculate_durations("(0:00:00-1193046:28:15)").unwrap();
    assert_eq!(output.total.seconds, u32::MAX);
    assert_eq!(output.total.format, "71582788:15");
    assert_eq!(
        calculate_durations("(0:00:00-1193046:28:15) (0:00-0:01)"),
        Err(ParseError::DurationOverflow)
    );
    assert_eq!(
        calculate_durations("(0:00:00-1193046:28:15) + (0:00-0:01)"),
        Err(ParseError::DurationOverflow)
    );
}

#[test]
fn text_around_ranges_may_hold_any_characters() {
    let output = calculate_durations("caf\u{e9} \u{1f600} (0:00-0:10) \u{2014} na\u{ef}ve (0:10-0:30)")
        .unwrap();
    assert_eq!(output.lines.len(), 2);
    assert_eq!(output.lines[1].input, "(0:10-0:30)");
    assert_eq!(output.total.seconds, 30);
}

#[test]
fn range_text_keeps_its_dash() {
    let output = calculate_durations("(1:00\u{2013}2:00) + (0:00\u{2014}0:01)").unwrap();
    assert_eq!(output.lines[0].input, "(1:00\u{2013}2:00) + (0:00\u{2014}0:01)");
}

#[test]
fn messages_name_the_range_and_the_bound() {
    let message = |text: &str| calculate_durations(text).unwrap_err().message();
    assert_eq!(message("(1:00-2:zz)"), "Malformed timestamp: (1:00-2:zz)");
    assert_eq!(
        message("(1:00-0:30)"),
        "Invalid timestamp range: (1:00-0:30) (end time is before start time)"
    );
    assert_eq!(
        message("(75:00-80:00)"),
        "Invalid timestamp range: (75:00-80:00) (minutes 75 exceeds 59, use H:MM:SS format)"
    );
    assert_eq!(
        message("(0:00-0:4294967295)"),
        "Invalid timestamp range: (0:00-0:4294967295) (seconds 4294967295 exceeds 59)"
    );
    assert_eq!(message("no range"), "No valid timestamps found");
    assert_eq!(message("(0:00:00-1193046:28:16)"), "Total duration is too large");
}
