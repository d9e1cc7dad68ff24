use x2_colon_api::grouping::links;
use x2_colon_api::text::chars_of;

fn listed_white_space(c: char) -> bool {
    matches!(
        c as u32,
        0x0009..=0x000D
            | 0x0020
            | 0x0085
            | 0x00A0
            | 0x1680
            | 0x2000..=0x200A
            | 0x2028
            | 0x2029
            | 0x202F
            | 0x205F
            | 0x3000
    )
}

#[test]
fn white_space_is_the_listed_characters() {
    let mut count = 0;
    for code in 0..=0x10FFFFu32 {
        if let Some(c) = char::from_u32(code) {
            assert_eq!(c.is_whitespace(), listed_white_space(c), "U+{:04X}", code);
            if c.is_whitespace() {
                count += 1;
            }
        }
    }
    assert_eq!(count, 25);
}

#[test]
fn ascii_alphanumerics_are_letters_and_digits() {
    for code in 0..=0x7Fu8 {
        let c = code as char;
        let listed = matches!(c, '0'..='9' | 'a'..='z' | 'A'..='Z');
        assert_eq!(c.is_alphanumeric(), listed, "U+{:04X}", code);
    }
}

#[test]
fn link_is_a_plus_in_white_space() {
    let linked = |between: &str| {
        let text = chars_of(between);
        links(&text, 0, text.len())
    };
    assert!(linked("+"));
    assert!(linked(" + "));
    assert!(linked("\t\r\n+\u{85}\u{a0}\u{1680}\u{2000}\u{200a}\u{2028}\u{2029}\u{202f}\u{205f}\u{3000}"));
    assert!(!linked(""));
    assert!(!linked("   "));
    assert!(!linked("++"));
    assert!(!linked("+ +"));
    assert!(!linked(" +, "));
    assert!(!linked("\u{200b}+"));
    assert!(!linked("x + "));
    let text = chars_of("(a) + (b)");
    assert!(links(&text, 3, 6));
    assert!(!links(&text, 2, 6));
}
