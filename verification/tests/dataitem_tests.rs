use biocomputation_ga::dataitem::{DataItem, DataItemParseError};

#[test]
fn test_binary() {
    let item = DataItem::parse("00000 0").expect("binary row should parse");
    assert_eq!(item.as_str(), "00000");
    assert_eq!(item.output(), "0");
}

#[test]
fn test_non_digit() {
    assert_eq!(
        DataItem::parse("abc").unwrap_err(),
        DataItemParseError::InvalidFormat
    );
}

#[test]
fn test_one_ignored() {
    let item = DataItem::parse("0.981136 0.369132 0.498354 0.067417 0.422276 0.803662 1")
        .expect("real-valued row should parse");
    assert_eq!(item.as_str(), "100001");
    assert_eq!(item.output(), "1");
}

#[test]
fn test_num_digits_width() {
    let data_item = DataItem::parse("00001 1").expect("data item input is invalid");
    assert_eq!(data_item.width(), 5);

    let data_item = DataItem::parse("0.981136 0.369132 0.498354 0.067417 0.422276 0.803662 1")
        .expect("data item input is invalid");
    assert_eq!(data_item.width(), 6);
}

#[test]
fn test_non_ascii() {
    assert_eq!(
        DataItem::parse("not_ascii❤").unwrap_err(),
        DataItemParseError::NotValidAscii
    );
}

#[test]
fn test_char_at() {
    let data_item = DataItem::parse("0.981136 0.369132 0.498354 0.067417 0.422276 0.803662 1")
        .expect("data item input is invalid");
    // The example exposes the converted fixed-width symbol string, so the
    // first symbol is the rounding of 0.981136.
    assert_eq!(data_item.char_at(0), Some('1'));
    assert_eq!(data_item.char_at(37), None);
}

#[test]
fn test_rounding_boundary() {
    let item = DataItem::parse("0.500000 0.499999 0.000000 0.999999 0.500001 0.449999 0")
        .expect("boundary row should parse");
    assert_eq!(item.as_str(), "100110");
    assert_eq!(item.output(), "0");
}

#[test]
fn test_six_digit_binary() {
    let item = DataItem::parse("010101 1").expect("six-digit binary row should parse");
    assert_eq!(item.as_str(), "010101");
    assert_eq!(item.output(), "1");
    assert!(item.is_binary());
}

#[test]
fn test_wrong_length_rejected() {
    assert_eq!(
        DataItem::parse("0101 1").unwrap_err(),
        DataItemParseError::InvalidFormat
    );
    assert_eq!(
        DataItem::parse("0101010 1").unwrap_err(),
        DataItemParseError::InvalidFormat
    );
    assert_eq!(
        DataItem::parse("").unwrap_err(),
        DataItemParseError::InvalidFormat
    );
}

#[test]
fn test_equality() {
    let a = DataItem::parse("00000 0").unwrap();
    let b = DataItem::parse("00000 0").unwrap();
    let c = DataItem::parse("00001 0").unwrap();
    assert_eq!(a, b);
    assert_ne!(a, c);
}
