//! Errors: which are worth retrying, and what they say.

use coin::error::{CoinError, TransportFault};

fn fault(timeout: bool, connect: bool, request: bool) -> CoinError {
    CoinError::Http(TransportFault {
        timeout,
        connect,
        request,
        message: "connection refused".to_string(),
    })
}

fn status(status: u16) -> CoinError {
    CoinError::OpencodeStatus {
        method: "POST".to_string(),
        path: "/session".to_string(),
        status,
        body: "busy".to_string(),
    }
}

#[test]
fn transport_failures_are_worth_retrying() {
    assert!(fault(true, false, false).is_retryable());
    assert!(fault(false, true, false).is_retryable());
    assert!(fault(false, false, true).is_retryable());
    assert!(!fault(false, false, false).is_retryable());
}

#[test]
fn overload_responses_are_worth_retrying() {
    for code in [408u16, 429, 500, 502, 599] {
        assert!(status(code).is_retryable(), "{code}");
    }
    for code in [200u16, 400, 401, 402, 404, 499, 600] {
        assert!(!status(code).is_retryable(), "{code}");
    }
}

#[test]
fn every_error_has_its_sentence_and_the_rest_are_final() {
    let text = |s: &str| s.to_string();
    let sentences = [
        (
            CoinError::OpencodeLaunch(text("not found")),
            "failed to launch opencode: not found. Is opencode installed and on PATH?",
        ),
        (
            CoinError::OpencodeExited { status: text("exit status: 1") },
            "opencode server exited during startup with status exit status: 1",
        ),
        (
            CoinError::PortDiscoveryTimeout { seconds: 30 },
            "timed out after 30s waiting for opencode to report its port",
        ),
        (
            CoinError::HealthTimeout { url: text("http://h"), seconds: 30 },
            "timed out after 30s waiting for opencode to become healthy at http://h",
        ),
        (
            CoinError::decode("session.create", "bad"),
            "could not decode opencode response for session.create: bad",
        ),
        (CoinError::EventStream(text("gone")), "opencode event stream failed: gone"),
        (
            CoinError::Session { session_id: text("ses_1"), message: text("no") },
            "session ses_1 reported an error: no",
        ),
        (CoinError::io("/tmp/x", "denied"), "filesystem error at /tmp/x: denied"),
        (CoinError::Invalid(text("a sentence")), "a sentence"),
        (
            CoinError::MissingDirectory(text("data")),
            "could not determine the data directory for this platform",
        ),
    ];
    for (error, sentence) in sentences {
        assert_eq!(error.to_string(), sentence);
        assert!(!error.is_retryable(), "{error:?}");
    }
    assert_eq!(
        fault(true, false, false).to_string(),
        "opencode request failed: connection refused"
    );
    assert_eq!(status(503).to_string(), "opencode returned 503 for POST /session: busy");
}
