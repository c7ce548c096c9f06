//! Supervision of the server process.

use coin::config::OpencodeConfig;
use coin::error::CoinError;
use coin::opencode::process::{
    after_probe, before_probe, generate_password, launch_plan, parse_listening_url,
    settle_discovery, spell, Discovery, HealthStep, Probe, PASSWORD_LENGTH,
};

#[test]
fn parses_the_listening_line_opencode_prints() {
    // Arrange: the exact line observed from opencode 1.18.20.
    let line = "opencode server listening on http://127.0.0.1:4199";

    // Act
    let url = parse_listening_url(line);

    // Assert
    assert_eq!(url.as_deref(), Some("http://127.0.0.1:4199"));
}

#[test]
fn ignores_lines_without_an_address() {
    // Arrange: the unsecured-server warning precedes the listening line.
    let line = "Warning: OPENCODE_SERVER_PASSWORD is not set; server is unsecured.";

    // Act and assert
    assert_eq!(parse_listening_url(line), None);
}

#[test]
fn trims_trailing_whitespace_from_the_address() {
    // Arrange
    let line = "opencode server listening on http://127.0.0.1:4199  \r";

    // Act
    let url = parse_listening_url(line);

    // Assert
    assert_eq!(url.as_deref(), Some("http://127.0.0.1:4199"));
}

#[test]
fn generated_passwords_have_the_expected_shape() {
    // Act
    let password = generate_password();

    // Assert
    assert_eq!(password.len(), PASSWORD_LENGTH);
    assert!(password.chars().all(|c| c.is_ascii_lowercase()));
}

#[test]
fn generated_passwords_differ_between_calls() {
    // Act and assert: a fixed password would defeat the point.
    assert_ne!(generate_password(), generate_password());
}

#[test]
fn the_first_address_in_a_line_counts() {
    let line = "listening on http://a:1 and http://b:2";
    assert_eq!(
        parse_listening_url(line).as_deref(),
        Some("http://a:1 and http://b:2")
    );
}

#[test]
fn drawn_numbers_spell_letters() {
    assert_eq!(spell(&vec![0, 1, 25, 12]), "abzm");
    assert_eq!(spell(&Vec::new()), "");
}

#[test]
fn passwords_use_more_than_one_letter() {
    let mut letters: Vec<char> = generate_password().chars().collect();
    letters.sort();
    letters.dedup();
    assert!(letters.len() > 1);
}

#[test]
fn the_server_is_launched_on_a_free_loopback_port() {
    let mut config = OpencodeConfig::new("/tmp/somewhere");
    let plan = launch_plan(&config, "secret");
    assert_eq!(plan.executable, "opencode");
    assert_eq!(plan.arguments, vec!["serve", "--port", "0", "--hostname", "127.0.0.1"]);
    assert_eq!(
        plan.environment,
        vec![
            ("OPENCODE_SERVER_PASSWORD".to_string(), "secret".to_string()),
            ("OPENCODE_ENABLE_EXA".to_string(), "1".to_string())
        ]
    );

    config.enable_websearch = false;
    assert_eq!(launch_plan(&config, "secret").environment.len(), 1);
}

#[test]
fn a_found_address_is_taken() {
    let url = "http://127.0.0.1:4199".to_string();
    assert_eq!(settle_discovery(Discovery::Found(url.clone())), Ok(url));
}

#[test]
fn a_failed_discovery_names_its_cause() {
    let failures = [
        (
            Discovery::NotPiped,
            "opencode event stream failed: opencode stdout was not piped",
        ),
        (
            Discovery::Broken { reason: "bad pipe".to_string(), exit: None },
            "opencode event stream failed: reading opencode stdout: bad pipe",
        ),
        (
            Discovery::Broken {
                reason: "bad pipe".to_string(),
                exit: Some("exit status: 1".to_string()),
            },
            "opencode server exited during startup with status exit status: 1",
        ),
        (
            Discovery::Closed { exit: None },
            "opencode event stream failed: opencode stdout closed before reporting a listening address",
        ),
        (
            Discovery::Closed { exit: Some("signal: 9".to_string()) },
            "opencode server exited during startup with status signal: 9",
        ),
        (
            Discovery::TimedOut,
            "timed out after 30s waiting for opencode to report its port",
        ),
    ];
    for (failure, text) in failures {
        let error = settle_discovery(failure).expect_err("no address was found");
        assert_eq!(error.to_string(), text);
    }
}

#[test]
fn only_a_clear_answer_counts_as_ready() {
    let probes = [
        (Probe::Unreachable, false),
        (Probe::Answered { status: 200, healthy: None }, false),
        (Probe::Answered { status: 200, healthy: Some(false) }, false),
        (Probe::Answered { status: 503, healthy: Some(true) }, false),
        (Probe::Answered { status: 200, healthy: Some(true) }, true),
    ];
    for (probe, ready) in probes {
        match after_probe(probe) {
            HealthStep::Ready => assert!(ready, "{probe:?}"),
            HealthStep::Rest => assert!(!ready, "{probe:?}"),
            other => panic!("unexpected {other:?}"),
        }
    }
}

#[test]
fn polling_gives_up_once_time_has_run_out() {
    assert!(matches!(before_probe(false, "http://h"), HealthStep::Ask));
    match before_probe(true, "http://h") {
        HealthStep::GiveUp(error) => {
            assert_eq!(
                error,
                CoinError::HealthTimeout { url: "http://h".to_string(), seconds: 30 }
            );
            assert_eq!(
                error.to_string(),
                "timed out after 30s waiting for opencode to become healthy at http://h"
            );
        }
        other => panic!("expected to give up, got {other:?}"),
    }
}
