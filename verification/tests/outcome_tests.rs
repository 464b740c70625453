use coin_spewer::outcome::aggregate;
use coin_spewer::outcome::classify;
use coin_spewer::outcome::u128_to_string;
use coin_spewer::outcome::Outcome;
use coin_spewer::outcome::MAX_RESPONSE_MS;

#[test]
fn threshold_is_400ms() {
    assert_eq!(MAX_RESPONSE_MS, 400);
}

#[test]
fn response_within_threshold_is_success() {
    assert!(matches!(classify("http://h:1/p", Ok(0)), Outcome::Success));
    assert!(matches!(classify("http://h:1/p", Ok(399)), Outcome::Success));
    assert!(matches!(classify("http://h:1/p", Ok(400)), Outcome::Success));
}

#[test]
fn response_over_threshold_is_latency_violation() {
    match classify("http://h:1/p", Ok(401)) {
        Outcome::LatencyViolation { elapsed_ms } => assert_eq!(elapsed_ms, 401),
        _ => panic!("expected a latency violation"),
    }
    assert!(matches!(classify("http://h:1/p", Ok(5000)), Outcome::LatencyViolation { .. }));
}

#[test]
fn http_500_in_50ms_is_success() {
    // The status code of a received response is not inspected: a 500 that
    // arrived in 50ms still classifies by its timing alone.
    let outcome = classify("http://h:1/p", Ok(50));
    assert!(outcome.is_success());
    assert!(matches!(outcome, Outcome::Success));
    assert!(outcome.message().is_none());
}

#[test]
fn transport_failure_keeps_endpoint_and_cause() {
    let outcome = classify("http://host:9/coins", Err("operation timed out".to_string()));
    match &outcome {
        Outcome::TransportFailure { endpoint, cause } => {
            assert_eq!(endpoint, "http://host:9/coins");
            assert_eq!(cause, "operation timed out");
        },
        _ => panic!("expected a transport failure"),
    }
    let message = outcome.message().unwrap();
    assert_eq!(message, "Failed to send task to http://host:9/coins: operation timed out");
    assert!(message.contains("http://host:9/coins"));
    assert!(message.contains("operation timed out"));
}

#[test]
fn latency_message_names_both_durations() {
    let outcome = classify("http://h:1/p", Ok(612));
    let message = outcome.message().unwrap();
    assert_eq!(message, "Failed! Response took 612ms. Maximum 400ms response.");
}

#[test]
fn all_success_aggregates_to_ok() {
    let outcomes = vec![Outcome::Success, Outcome::Success, Outcome::Success];
    assert!(aggregate(&outcomes).is_ok());
    assert!(aggregate(&Vec::new()).is_ok());
}

#[test]
fn first_failure_is_surfaced() {
    let outcomes = vec![
        Outcome::Success,
        Outcome::LatencyViolation { elapsed_ms: 500 },
        Outcome::TransportFailure {
            endpoint: "http://h:1/p".to_string(),
            cause: "connection refused".to_string(),
        },
    ];
    let err = aggregate(&outcomes).unwrap_err();
    assert_eq!(err, "Failed! Response took 500ms. Maximum 400ms response.");
}

#[test]
fn transport_timeout_fails_the_run() {
    // One request that never produced a response: the run fails and the
    // surfaced message names the endpoint and the underlying cause.
    let outcomes = vec![
        Outcome::Success,
        classify("http://target:8080/coins", Err("connection timed out".to_string())),
    ];
    let err = aggregate(&outcomes).unwrap_err();
    assert!(err.contains("http://target:8080/coins"));
    assert!(err.contains("connection timed out"));
}

#[test]
fn decimal_rendering() {
    assert_eq!(u128_to_string(0), "0");
    assert_eq!(u128_to_string(7), "7");
    assert_eq!(u128_to_string(400), "400");
    assert_eq!(u128_to_string(12345), "12345");
    assert_eq!(u128_to_string(u128::MAX), "340282366920938463463374607431768211455");
}
