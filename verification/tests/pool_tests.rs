use coin_spewer::pool::load_tokens;
use coin_spewer::random::shuffled;

fn strings(v: &[&str]) -> Vec<String> {
    v.iter().map(|s| s.to_string()).collect()
}

#[test]
fn corpus_lines_in_order() {
    assert_eq!(load_tokens("BTC\nETH\nXRP"), strings(&["BTC", "ETH", "XRP"]));
}

#[test]
fn trailing_newline_adds_no_token() {
    assert_eq!(load_tokens("BTC\nETH\n"), strings(&["BTC", "ETH"]));
}

#[test]
fn carriage_returns_before_newlines_are_stripped() {
    assert_eq!(load_tokens("BTC\r\nETH\r\nXRP"), strings(&["BTC", "ETH", "XRP"]));
}

#[test]
fn lone_carriage_return_stays() {
    assert_eq!(load_tokens("BTC\r"), strings(&["BTC\r"]));
}

#[test]
fn empty_corpus_has_no_tokens() {
    assert_eq!(load_tokens(""), Vec::<String>::new());
}

#[test]
fn blank_lines_are_kept() {
    assert_eq!(load_tokens("A\n\nB"), strings(&["A", "", "B"]));
}

#[test]
fn shuffle_keeps_the_tokens() {
    let pool = strings(&["BTC", "ETH", "XRP", "ADA", "SOL"]);
    for _ in 0..10 {
        let mut mixed = shuffled(pool.clone());
        assert_eq!(mixed.len(), pool.len());
        mixed.sort();
        let mut expected = pool.clone();
        expected.sort();
        assert_eq!(mixed, expected);
    }
}
