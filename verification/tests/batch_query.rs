use theseus::batch_query::{batched_query_urls, encode_json_query_value, MAX_REQUEST_SIZE};

#[test]
fn preserves_plus_signs_in_batched_query_values() {
    assert_eq!(encode_json_query_value(&["foo+bar".to_string()]), "%5B%22foo%2Bbar%22%5D");
}

#[test]
fn query_values_escape_json_and_form_characters() {
    assert_eq!(encode_json_query_value(&[]), "%5B%5D");
    assert_eq!(
        encode_json_query_value(&["a b".to_string(), "x_y-z.*".to_string()]),
        "%5B%22a+b%22%2C%22x_y-z.*%22%5D"
    );
    assert_eq!(encode_json_query_value(&["q\"\\\n".to_string()]), "%5B%22q%5C%22%5C%5C%5Cn%22%5D");
    assert_eq!(encode_json_query_value(&["é".to_string()]), "%5B%22%C3%A9%22%5D");
}

#[test]
fn keys_are_split_into_bounded_requests() {
    let keys: Vec<String> = (0..1601).map(|i| format!("k{i}")).collect();
    let urls = batched_query_urls("https://api.example/v2/", "projects?ids=", &keys);
    assert_eq!(urls.len(), 3);
    assert_eq!(MAX_REQUEST_SIZE, 800);
    assert!(urls[0].starts_with("https://api.example/v2/projects?ids=%5B%22k0%22%2C%22k1%22"));
    assert!(urls[1].starts_with("https://api.example/v2/projects?ids=%5B%22k800%22"));
    assert_eq!(urls[2], "https://api.example/v2/projects?ids=%5B%22k1600%22%5D");
    assert!(batched_query_urls("a", "b", &vec![]).is_empty());
}
