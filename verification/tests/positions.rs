use x2_colon_api::scanner::find_all_ranges;
use x2_colon_api::text::{bytes_between, chars_of, utf8_len_of};

fn places(text: &str) -> Vec<(usize, usize, usize, usize)> {
    find_all_ranges(&chars_of(text))
        .expect("the text scans")
        .iter()
        .map(|range| (range.start_pos, range.end_pos, range.start_index, range.end_index))
        .collect()
}

#[test]
fn positions_are_byte_offsets() {
    assert_eq!(places("(1:00-2:00)"), vec![(0, 11, 0, 11)]);
    assert_eq!(places("(1:00\u{2013}2:00)"), vec![(0, 13, 0, 11)]);
    assert_eq!(places("(1:00\u{2014}2:00)"), vec![(0, 13, 0, 11)]);
}

#[test]
fn positions_slice_the_text() {
    let text = "caf\u{e9} \u{1f600} (0:00\u{2014}0:10) \u{2014} na\u{ef}ve (0:10-0:30)!";
    let ranges = find_all_ranges(&chars_of(text)).unwrap();
    assert_eq!(ranges.len(), 2);
    for range in &ranges {
        assert_eq!(&text[range.start_pos..range.end_pos], range.text);
    }
    assert_eq!((ranges[0].start_pos, ranges[0].end_pos), (11, 24));
    assert_eq!((ranges[0].start_index, ranges[0].end_index), (7, 18));
    assert_eq!((ranges[1].start_pos, ranges[1].end_pos), (36, 47));
    assert_eq!(ranges[1].end_pos + 1, text.len());
}

#[test]
fn ranges_come_in_order_without_overlap() {
    let ranges = find_all_ranges(&chars_of("(0:00-0:01)(0:02\u{2013}0:03) x (9:00-1:00) \u{e9}(0:04-0:05)"))
        .unwrap();
    assert_eq!(ranges.len(), 4);
    for pair in ranges.windows(2) {
        assert!(pair[0].start_pos < pair[0].end_pos);
        assert!(pair[0].end_pos <= pair[1].start_pos);
        assert!(pair[0].end_index <= pair[1].start_index);
    }
}

#[test]
fn characters_take_one_to_four_bytes() {
    for c in ['\0', 'a', '\u{7f}', '\u{80}', '\u{e9}', '\u{7ff}', '\u{800}', '\u{2013}', '\u{d7ff}',
        '\u{e000}', '\u{ffff}', '\u{10000}', '\u{1f600}', '\u{10ffff}']
    {
        assert_eq!(utf8_len_of(c), c.len_utf8());
    }
    let text = chars_of("a\u{e9}\u{2014}\u{1f600}b");
    assert_eq!(bytes_between(&text, 0, 5), 11);
    assert_eq!(bytes_between(&text, 1, 4), 9);
    assert_eq!(bytes_between(&text, 2, 2), 0);
}
