use coin_spewer::payload::corrupt_one;
use coin_spewer::payload::encode_csv;
use coin_spewer::payload::encode_json;
use coin_spewer::payload::encode_task;
use coin_spewer::payload::Encoding;
use coin_spewer::random::anagram;

fn strings(v: &[&str]) -> Vec<String> {
    v.iter().map(|s| s.to_string()).collect()
}

fn sorted_chars(s: &str) -> Vec<char> {
    let mut cs: Vec<char> = s.chars().collect();
    cs.sort();
    cs
}

#[test]
fn json_payload_two_tokens() {
    let body = encode_json(&strings(&["BTC", "ETH"]));
    assert_eq!(body, "{\"coins\":[\"BTC\",\"ETH\"]}");
}

#[test]
fn json_payload_single_token() {
    let body = encode_json(&strings(&["DOGE"]));
    assert_eq!(body, "{\"coins\":[\"DOGE\"]}");
}

#[test]
fn json_payload_empty_list() {
    let body = encode_json(&strings(&[]));
    assert_eq!(body, "{\"coins\":[]}");
}

#[test]
fn json_payload_escapes_specials() {
    let body = encode_json(&strings(&["a\"b\\c\nd\u{1}e"]));
    assert_eq!(body, "{\"coins\":[\"a\\\"b\\\\c\\nd\\u0001e\"]}");
}

#[test]
fn json_payload_escapes_tab_and_cr() {
    let body = encode_json(&strings(&["x\ty\rz"]));
    assert_eq!(body, "{\"coins\":[\"x\\ty\\rz\"]}");
}

#[test]
fn json_payload_decodes_with_real_parser() {
    let tokens = strings(&["BTC", "E\"TH", "X\\RP", "A\nDA"]);
    let body = encode_json(&tokens);
    let value: serde_json::Value = serde_json::from_str(&body).unwrap();
    let coins = value.get("coins").unwrap().as_array().unwrap();
    assert_eq!(coins.len(), tokens.len());
    for (coin, token) in coins.iter().zip(tokens.iter()) {
        assert_eq!(coin.as_str().unwrap(), token);
    }
}

#[test]
fn csv_payload_three_tokens() {
    let body = encode_csv(&strings(&["A", "B", "C"]));
    assert_eq!(body, "coins\nA\nB\nC");
}

#[test]
fn csv_payload_empty_list() {
    let body = encode_csv(&strings(&[]));
    assert_eq!(body, "coins");
}

#[test]
fn csv_payload_header_and_lines() {
    let body = encode_csv(&strings(&["XMR", "SOL"]));
    let lines: Vec<&str> = body.split('\n').collect();
    assert_eq!(lines[0], "coins");
    assert_eq!(&lines[1..], &["XMR", "SOL"]);
}

#[test]
fn content_types() {
    assert_eq!(Encoding::Json.content_type(), "application/json");
    assert_eq!(Encoding::Csv.content_type(), "text/csv");
}

#[test]
fn encode_task_keeps_fields() {
    let t = encode_task(7, strings(&["BTC", "ETH"]), true, false);
    assert_eq!(t.index, 7);
    assert_eq!(t.encoding, Encoding::Json);
    assert!(!t.corrupted);
    assert_eq!(t.tokens, strings(&["BTC", "ETH"]));
    assert_eq!(t.body, "{\"coins\":[\"BTC\",\"ETH\"]}");
}

#[test]
fn encode_task_csv() {
    let t = encode_task(0, strings(&["BTC", "ETH"]), false, false);
    assert_eq!(t.encoding, Encoding::Csv);
    assert_eq!(t.body, "coins\nBTC\nETH");
}

#[test]
fn anagram_keeps_characters() {
    for _ in 0..20 {
        let a = anagram("HELLO");
        assert_eq!(a.len(), 5);
        assert_eq!(sorted_chars(&a), sorted_chars("HELLO"));
    }
}

#[test]
fn anagram_of_empty_is_empty() {
    assert_eq!(anagram(""), "");
}

#[test]
fn corruption_touches_exactly_one_position() {
    let original = strings(&["BTC", "ETHEREUM", "XRP"]);
    for _ in 0..20 {
        let mut tokens = original.clone();
        corrupt_one(&mut tokens);
        assert_eq!(tokens.len(), original.len());
        let changed: Vec<usize> =
            (0..tokens.len()).filter(|&i| tokens[i] != original[i]).collect();
        // The anagram may coincide with the original, so at most one changes.
        assert!(changed.len() <= 1);
        for i in 0..tokens.len() {
            assert_eq!(tokens[i].len(), original[i].len());
            assert_eq!(sorted_chars(&tokens[i]), sorted_chars(&original[i]));
        }
    }
}
