use coin_spewer::payload::make_tasks;
use coin_spewer::permute::sequence;
use coin_spewer::permute::ConfigError;
use coin_spewer::plan::plan_tasks;

fn strings(v: &[&str]) -> Vec<String> {
    v.iter().map(|s| s.to_string()).collect()
}

#[test]
fn all_two_permutations_of_three() {
    let pool = strings(&["5", "6", "7"]);
    let perms = sequence(&pool, 2, 1000).unwrap();
    let expected: Vec<Vec<String>> = vec![
        strings(&["5", "6"]),
        strings(&["5", "7"]),
        strings(&["6", "5"]),
        strings(&["6", "7"]),
        strings(&["7", "5"]),
        strings(&["7", "6"]),
    ];
    assert_eq!(perms, expected);
}

#[test]
fn limit_truncates() {
    let pool = strings(&["A", "B", "C", "D"]);
    let perms = sequence(&pool, 2, 3).unwrap();
    assert_eq!(perms.len(), 3);
}

#[test]
fn count_never_exceeds_available() {
    let pool = strings(&["A", "B", "C", "D"]);
    // 4 * 3 = 12 two-token orderings exist, fewer than the requested 1000.
    let perms = sequence(&pool, 2, 1000).unwrap();
    assert_eq!(perms.len(), 12);
    for p in &perms {
        assert_eq!(p.len(), 2);
        assert_ne!(p[0], p[1]);
        assert!(pool.contains(&p[0]) && pool.contains(&p[1]));
    }
}

#[test]
fn zero_length_permutation() {
    let pool = strings(&["A", "B"]);
    let perms = sequence(&pool, 0, 10).unwrap();
    assert_eq!(perms, vec![Vec::<String>::new()]);
}

#[test]
fn empty_pool_is_refused() {
    let err = sequence(&Vec::new(), 2, 10).unwrap_err();
    assert!(matches!(err, ConfigError::EmptyPool));
    assert_eq!(err.message(), "the token pool is empty");
}

#[test]
fn oversized_permutation_is_refused() {
    let err = sequence(&strings(&["A", "B"]), 3, 10).unwrap_err();
    assert!(matches!(err, ConfigError::PermutationTooLong));
    assert_eq!(err.message(), "more tokens per task than the pool holds");
}

#[test]
fn three_tasks_over_four_tokens() {
    // pool = A,B,C,D with two tokens per task and three tasks requested:
    // exactly three tasks, each over two distinct pool tokens.
    let pool = ["A", "B", "C", "D"];
    let tasks = plan_tasks("A\nB\nC\nD", 2, 3).unwrap();
    assert_eq!(tasks.len(), 3);
    for (i, task) in tasks.iter().enumerate() {
        assert_eq!(task.index, i);
        assert_eq!(task.tokens.len(), 2);
        if !task.corrupted {
            assert_ne!(task.tokens[0], task.tokens[1]);
            assert!(pool.contains(&task.tokens[0].as_str()));
            assert!(pool.contains(&task.tokens[1].as_str()));
        }
    }
}

#[test]
fn deterministic_tasks_over_four_tokens() {
    let pool = strings(&["A", "B", "C", "D"]);
    let perms = sequence(&pool, 2, 3).unwrap();
    let tasks = make_tasks(perms);
    assert_eq!(tasks.len(), 3);
    for (i, task) in tasks.iter().enumerate() {
        assert_eq!(task.index, i);
        assert_eq!(task.tokens.len(), 2);
        assert!(!task.body.is_empty());
    }
}

#[test]
fn planned_bodies_decode_to_their_tokens() {
    let tasks = plan_tasks("BTC\nETH\nXRP\nADA", 2, 12).unwrap();
    assert_eq!(tasks.len(), 12);
    for task in tasks {
        match task.encoding {
            coin_spewer::payload::Encoding::Json => {
                let value: serde_json::Value = serde_json::from_str(&task.body).unwrap();
                let coins = value.get("coins").unwrap().as_array().unwrap();
                let read: Vec<&str> = coins.iter().map(|c| c.as_str().unwrap()).collect();
                let expected: Vec<&str> = task.tokens.iter().map(|t| t.as_str()).collect();
                assert_eq!(read, expected);
            },
            coin_spewer::payload::Encoding::Csv => {
                let lines: Vec<&str> = task.body.split('\n').collect();
                assert_eq!(lines[0], "coins");
                let expected: Vec<&str> = task.tokens.iter().map(|t| t.as_str()).collect();
                assert_eq!(&lines[1..], &expected[..]);
            },
        }
    }
}

#[test]
fn plan_rejects_oversized_permutations() {
    let err = plan_tasks("A\nB", 3, 10).unwrap_err();
    assert!(matches!(err, ConfigError::PermutationTooLong));
}

#[test]
fn plan_rejects_empty_corpus() {
    let err = plan_tasks("", 1, 10).unwrap_err();
    assert!(matches!(err, ConfigError::EmptyPool));
}
