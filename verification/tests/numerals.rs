use klondike::text::repeat_char;
use klondike::text::score_string;
use klondike::text::u64_to_string;

#[test]
fn decimal_renderings() {
    assert_eq!(u64_to_string(0), "0");
    assert_eq!(u64_to_string(7), "7");
    assert_eq!(u64_to_string(10), "10");
    assert_eq!(u64_to_string(52), "52");
    assert_eq!(u64_to_string(12345), "12345");
}

#[test]
fn score_renderings() {
    assert_eq!(score_string(0), "0");
    assert_eq!(score_string(-5), "-5");
    assert_eq!(score_string(32767), "32767");
    assert_eq!(score_string(-32768), "-32768");
}

#[test]
fn repeated_characters() {
    assert_eq!(repeat_char('x', 3), "xxx");
    assert_eq!(repeat_char('─', 2), "──");
    assert_eq!(repeat_char('x', 0), "");
    assert_eq!(repeat_char('x', -2), "");
}
