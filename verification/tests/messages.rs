use sabita_no_lib::text::push_decimal;
use sabita_no_lib::ErrorKind;

fn decimal(value: u64) -> String {
    let mut text = String::new();
    push_decimal(&mut text, value);
    text
}

#[test]
fn an_unmatched_bracket_is_described_with_its_position() {
    assert_eq!(
        ErrorKind::UnmatchedBracket(0).message(),
        "Unmatched bracket at or near index 0"
    );
    assert_eq!(
        ErrorKind::UnmatchedBracket(37).message(),
        "Unmatched bracket at or near index 37"
    );
    assert_eq!(
        ErrorKind::UnmatchedBracket(usize::MAX).message(),
        format!("Unmatched bracket at or near index {}", usize::MAX)
    );
}

#[test]
fn an_invalid_codepoint_is_described_with_its_number() {
    assert_eq!(
        ErrorKind::InvalidCodepoint(55296).message(),
        "Couldn't convert u32 55296 to a char."
    );
    assert_eq!(
        ErrorKind::InvalidCodepoint(u32::MAX).message(),
        "Couldn't convert u32 4294967295 to a char."
    );
}

#[test]
fn the_two_kinds_of_error_are_told_apart() {
    assert_ne!(ErrorKind::UnmatchedBracket(5), ErrorKind::InvalidCodepoint(5));
    assert_ne!(
        ErrorKind::UnmatchedBracket(5).message(),
        ErrorKind::InvalidCodepoint(5).message()
    );
}

#[test]
fn numbers_are_written_in_decimal_without_leading_zeros() {
    assert_eq!(decimal(0), "0");
    assert_eq!(decimal(7), "7");
    assert_eq!(decimal(9), "9");
    assert_eq!(decimal(10), "10");
    assert_eq!(decimal(101), "101");
    assert_eq!(decimal(30_000), "30000");
    assert_eq!(decimal(1_234_567_890), "1234567890");
    assert_eq!(decimal(u64::MAX), "18446744073709551615");
}

#[test]
fn a_number_is_appended_to_what_the_text_holds() {
    let mut text = String::from("cell ");
    push_decimal(&mut text, 42);
    assert_eq!(text, "cell 42");
    push_decimal(&mut text, 0);
    assert_eq!(text, "cell 420");
}
