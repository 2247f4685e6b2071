use wasm_resources::text::{check_number, parse_digits, split, split_fields, LINE_FEED};

#[test]
fn split_yields_one_more_piece_than_separators() {
    let pieces = split(b"a\nbb\n", LINE_FEED);
    assert_eq!(pieces, vec![b"a".to_vec(), b"bb".to_vec(), b"".to_vec()]);
    assert_eq!(split(b"", LINE_FEED), vec![b"".to_vec()]);
    assert_eq!(
        split(b"1/2/3", b'/'),
        vec![b"1".to_vec(), b"2".to_vec(), b"3".to_vec()]
    );
    assert_eq!(split(b"1//3", b'/'), vec![b"1".to_vec(), b"".to_vec(), b"3".to_vec()]);
}

#[test]
fn fields_collapse_whitespace() {
    assert_eq!(
        split_fields(b"  v   1  2\t3 \r"),
        vec![b"v".to_vec(), b"1".to_vec(), b"2".to_vec(), b"3".to_vec()]
    );
    assert_eq!(split_fields(b"   \t "), Vec::<Vec<u8>>::new());
    assert_eq!(split_fields(b""), Vec::<Vec<u8>>::new());
}

#[test]
fn parse_digits_reads_decimal_numbers() {
    assert_eq!(parse_digits(b"0"), Some(0));
    assert_eq!(parse_digits(b"42"), Some(42));
    assert_eq!(parse_digits(b"007"), Some(7));
    assert_eq!(parse_digits(b""), None);
    assert_eq!(parse_digits(b"4a"), None);
    assert_eq!(parse_digits(b"-4"), None);
    // Far beyond any machine word.
    assert_eq!(parse_digits(b"99999999999999999999999999999999"), None);
}

#[test]
fn number_tokens_cover_plain_decimal_spellings() {
    assert!(check_number(b"1"));
    assert!(check_number(b"-0.5"));
    assert!(check_number(b"+3"));
    assert!(check_number(b"323.999994"));
    assert!(check_number(b"1."));
    assert!(check_number(b".5"));
    assert!(!check_number(b""));
    assert!(!check_number(b"-"));
    assert!(!check_number(b"."));
    assert!(!check_number(b"1.2.3"));
    assert!(!check_number(b"1e5"));
    assert!(!check_number(b"two"));
}
