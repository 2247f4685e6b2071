use wasm_resources::base::BaseLocation;
use wasm_resources::error::FetchError;
use wasm_resources::fetch::{complete_binary, complete_text, FetchOutcome};

#[test]
fn resolve_joins_base_and_name() {
    let base = BaseLocation::local_directory(b"res".to_vec());
    assert_eq!(base.resolve(b"data.json"), b"res/data.json".to_vec());
}

#[test]
fn resolve_keeps_existing_separator() {
    let base = BaseLocation::local_directory(b"res/".to_vec());
    assert_eq!(base.resolve(b"data.json"), b"res/data.json".to_vec());
}

#[test]
fn resolve_url_base() {
    let base = BaseLocation::base_url(b"http://127.0.0.1:3000/res".to_vec());
    assert_eq!(
        base.resolve(b"wasm-tree.txt"),
        b"http://127.0.0.1:3000/res/wasm-tree.txt".to_vec()
    );
}

#[test]
fn distinct_names_resolve_distinct_locations() {
    let base = BaseLocation::local_directory(b"res".to_vec());
    let first = base.resolve(b"a.txt");
    let second = base.resolve(b"b.txt");
    assert_ne!(first, second);
}

#[test]
fn distinct_fetches_keep_their_own_content() {
    let first = complete_binary(FetchOutcome::Data(b"first content".to_vec())).unwrap();
    let second = complete_binary(FetchOutcome::Data(b"second content".to_vec())).unwrap();
    assert_eq!(first, b"first content".to_vec());
    assert_eq!(second, b"second content".to_vec());
    let first_text = complete_text(FetchOutcome::Data(b"first content".to_vec())).unwrap();
    let second_text = complete_text(FetchOutcome::Data(b"second content".to_vec())).unwrap();
    assert_eq!(first_text, "first content".to_string());
    assert_eq!(second_text, "second content".to_string());
}

#[test]
fn fetch_text_returns_exact_content() {
    let text = complete_text(FetchOutcome::Data(b"{\"a\":1}".to_vec())).unwrap();
    assert_eq!(text, "{\"a\":1}".to_string());
}

#[test]
fn text_and_binary_agree_on_the_same_resource() {
    let content = b"The quick brown fox\njumps over the lazy dog\n";
    let text = complete_text(FetchOutcome::Data(content.to_vec())).unwrap();
    let bytes = complete_binary(FetchOutcome::Data(content.to_vec())).unwrap();
    assert_eq!(text.as_bytes(), bytes.as_slice());
    assert_eq!(String::from_utf8(bytes).unwrap(), text);
}

#[test]
fn missing_resource_is_not_found() {
    assert_eq!(complete_text(FetchOutcome::Absent), Err(FetchError::NotFound));
    assert_eq!(
        complete_binary(FetchOutcome::Absent).unwrap_err(),
        FetchError::NotFound
    );
}

#[test]
fn failed_request_is_a_network_error() {
    assert_eq!(complete_text(FetchOutcome::Failed), Err(FetchError::NetworkError));
    assert_eq!(
        complete_binary(FetchOutcome::Failed).unwrap_err(),
        FetchError::NetworkError
    );
}

#[test]
fn invalid_utf8_is_an_encoding_error() {
    assert_eq!(
        complete_text(FetchOutcome::Data(vec![0xff, 0xfe, 0x01])),
        Err(FetchError::EncodingError)
    );
    // The same bytes are fine as a binary fetch.
    assert_eq!(
        complete_binary(FetchOutcome::Data(vec![0xff, 0xfe, 0x01])).unwrap(),
        vec![0xff, 0xfe, 0x01]
    );
}

#[test]
fn multibyte_text_is_decoded_not_copied() {
    // Two-byte UTF-8 sequences become single characters.
    let bytes = "h\u{e9}llo".as_bytes().to_vec();
    assert_eq!(bytes.len(), 6);
    let text = complete_text(FetchOutcome::Data(bytes)).unwrap();
    assert_eq!(text, "h\u{e9}llo".to_string());
    assert_eq!(text.chars().count(), 5);
}

#[test]
fn error_descriptions_name_each_failure() {
    assert_eq!(
        FetchError::NotFound.describe(),
        "resource not found under the base location"
    );
    assert_eq!(FetchError::NetworkError.describe(), "network request failed");
    assert_eq!(
        FetchError::EncodingError.describe(),
        "resource bytes are not valid UTF-8"
    );
    assert_eq!(
        FetchError::ParseError.describe(),
        "resource text is not a valid model description"
    );
}

#[test]
fn empty_content_is_still_content() {
    // An empty file read successfully is an empty Ok, never an error; a
    // missing file is never an empty Ok.
    assert_eq!(complete_text(FetchOutcome::Data(Vec::new())), Ok(String::new()));
    assert!(complete_binary(FetchOutcome::Absent).is_err());
}
