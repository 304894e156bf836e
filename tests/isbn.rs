use code_parsers::checksum::check_digit;
use code_parsers::isbn::{Isbn, IsbnError};

#[test]
fn check_digit_examples() {
    assert_eq!(check_digit(&[9, 7, 8, 1, 8, 6, 1, 9, 7, 8, 7, 6]), 9);
    assert_eq!(check_digit(&[9, 7, 8, 3, 1, 6, 1, 4, 8, 4, 1, 0]), 0);
    assert_eq!(check_digit(&[0; 12]), 0);
    assert_eq!(check_digit(&[1, 0, 0, 0, 0, 0, 0, 0, 0, 0, 0, 0]), 9);
    assert_eq!(check_digit(&[0, 1, 0, 0, 0, 0, 0, 0, 0, 0, 0, 0]), 7);
}

#[test]
fn hyphenated_isbn_is_accepted() {
    let text = "978-3-16-148410-0";
    let isbn = Isbn::from_str(text).unwrap();
    assert_eq!(isbn.raw(), text);
    assert_eq!(isbn.to_string(), text);
    assert_eq!(isbn.digits()[12], 0);
    assert_eq!(isbn.digits(), &[9, 7, 8, 3, 1, 6, 1, 4, 8, 4, 1, 0, 0]);
}

#[test]
fn separators_anywhere_are_skipped() {
    let isbn = Isbn::from_str(" 9781861978769 ").unwrap();
    assert_eq!(isbn.to_string(), " 9781861978769 ");
    assert!(Isbn::from_str("9-7-8-1-8-6-1-9-7-8-7-6-9").is_ok());
    assert!(Isbn::from_str("isbn: 978 1861 97876 9!").is_ok());
}

#[test]
fn altered_check_digit_is_rejected() {
    assert_eq!(Isbn::from_str("9781861978768"), Err(IsbnError::InvalidCheckDigit));
    assert_eq!(Isbn::from_str("978-3-16-148410-1"), Err(IsbnError::InvalidCheckDigit));
}

#[test]
fn digit_count_is_checked() {
    assert_eq!(Isbn::from_str("978186197876"), Err(IsbnError::TooShort));
    assert_eq!(Isbn::from_str("97818619787690"), Err(IsbnError::TooLong));
    assert_eq!(Isbn::from_str(""), Err(IsbnError::TooShort));
    assert_eq!(Isbn::from_str("978-3-16-148410"), Err(IsbnError::TooShort));
    assert_eq!(Isbn::from_str("978-3-16-148410-0-0"), Err(IsbnError::TooLong));
}

#[test]
fn non_ascii_digits_are_separators() {
    assert_eq!(Isbn::from_str("978186197876٩"), Err(IsbnError::TooShort));
    assert!(Isbn::from_str("é9781861978769é").is_ok());
}

#[test]
fn only_the_right_last_digit_is_accepted() {
    for d in '0'..='9' {
        let text = format!("978316148410{}", d);
        let r = Isbn::from_str(&text);
        if d == '0' {
            assert!(r.is_ok());
        } else {
            assert_eq!(r, Err(IsbnError::InvalidCheckDigit));
        }
    }
}
