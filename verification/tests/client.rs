//! What is asked of the server, and what is made of its answers.

use coin::error::CoinError;
use coin::opencode::client::{
    abort_route, check_response, message_route, prompt_request, HttpClient,
    PromptOptions, ERROR_BODY_LIMIT,
};
use coin::opencode::types::{ModelRef, Provider, ProvidersResponse};

#[test]
fn base_url_loses_its_trailing_slash() {
    // Arrange and act: paths are joined with a leading slash, so a
    // trailing slash on the base would produce a double slash.
    let client = HttpClient::new("http://127.0.0.1:4199/", "opencode", "secret");

    // Assert
    assert_eq!(client.base_url(), "http://127.0.0.1:4199");
}

#[test]
fn credentials_round_trip() {
    // Arrange and act
    let client = HttpClient::new("http://127.0.0.1:4199", "opencode", "secret");

    // Assert
    assert_eq!(client.credentials(), ("opencode", "secret"));
}


#[test]
fn every_trailing_slash_is_dropped() {
    assert_eq!(HttpClient::new("http://h//", "u", "p").base_url(), "http://h");
    assert_eq!(HttpClient::new("http://h", "u", "p").base_url(), "http://h");
    assert_eq!(HttpClient::new("//", "u", "p").base_url(), "");
    assert_eq!(HttpClient::new("", "u", "p").base_url(), "");
}

#[test]
fn routes_are_joined_to_the_base() {
    let client = HttpClient::new("http://127.0.0.1:4199/", "opencode", "secret");
    assert_eq!(client.url("/event"), "http://127.0.0.1:4199/event");
    assert_eq!(message_route("ses_1"), "/session/ses_1/message");
    assert_eq!(abort_route("ses_1"), "/session/ses_1/abort");
}

#[test]
fn a_prompt_leaves_unset_choices_out() {
    let request = prompt_request("hello", &PromptOptions::default());
    assert_eq!(request.parts.len(), 1);
    assert_eq!(request.parts[0].kind, "text");
    assert_eq!(request.parts[0].text, "hello");
    assert_eq!(request.agent, None);
    assert_eq!(request.model, None);
}

#[test]
fn a_prompt_carries_the_choices_made() {
    let model = ModelRef::new("digitalocean", "kimi-k3");
    let options = PromptOptions {
        agent: Some("side-a".to_string()),
        model: Some(model.clone()),
    };
    let request = prompt_request("hello", &options);
    assert_eq!(request.agent.as_deref(), Some("side-a"));
    assert_eq!(request.model, Some(model));
}

#[test]
fn a_success_keeps_its_body_whole() {
    let body = "x".repeat(2 * ERROR_BODY_LIMIT);
    assert_eq!(check_response("GET", "/session", 204, body.clone()), Ok(body));
}

#[test]
fn a_failure_reports_the_start_of_its_body() {
    let body = "x".repeat(ERROR_BODY_LIMIT + 1);
    let error = check_response("POST", "/session", 404, body).expect_err("404 is no success");
    assert_eq!(
        error,
        CoinError::OpencodeStatus {
            method: "POST".to_string(),
            path: "/session".to_string(),
            status: 404,
            body: "x".repeat(ERROR_BODY_LIMIT),
        }
    );
    for status in [199u16, 300, 400, 500] {
        assert!(check_response("GET", "/", status, String::new()).is_err(), "{status}");
    }
}

#[test]
fn a_body_is_cut_in_bytes_and_only_between_characters() {
    // Two bytes each, so 256 of them are exactly the limit.
    let even = "\u{e9}".repeat(300);
    match check_response("GET", "/", 500, even) {
        Err(CoinError::OpencodeStatus { body, .. }) => {
            assert_eq!(body.len(), ERROR_BODY_LIMIT);
            assert_eq!(body.chars().count(), 256);
        }
        other => panic!("expected a status error, got {other:?}"),
    }
    // Three bytes each, so the limit falls inside a character, and the cut
    // before it: 170 of them are 510 bytes.
    let odd = "\u{20ac}".repeat(300);
    assert!(!odd.is_char_boundary(ERROR_BODY_LIMIT));
    match check_response("GET", "/", 500, odd) {
        Err(CoinError::OpencodeStatus { body, .. }) => {
            assert_eq!(body, "\u{20ac}".repeat(170));
        }
        other => panic!("expected a status error, got {other:?}"),
    }
    // Every way the limit can fall against a character of each width.
    for wide in ["\u{e9}", "\u{20ac}", "\u{1f600}"] {
        for lead in ERROR_BODY_LIMIT - 5..ERROR_BODY_LIMIT + 2 {
            let whole = format!("{}{wide}z", "x".repeat(lead));
            let mut end = whole.len().min(ERROR_BODY_LIMIT);
            while !whole.is_char_boundary(end) {
                end -= 1;
            }
            match check_response("GET", "/", 500, whole.clone()) {
                Err(CoinError::OpencodeStatus { body, .. }) => assert_eq!(body, whole[..end]),
                other => panic!("expected a status error, got {other:?}"),
            }
        }
    }
}

#[test]
fn models_are_listed_provider_by_provider() {
    let response = ProvidersResponse {
        providers: vec![
            Provider {
                id: "digitalocean".to_string(),
                models: vec!["kimi-k3".to_string(), "glm-5.3-flash".to_string()],
            },
            Provider {
                id: "openrouter".to_string(),
                models: vec!["z-ai/glm-5.2:free".to_string()],
            },
        ],
    };
    let names: Vec<String> = response.models().iter().map(|m| m.to_string()).collect();
    assert_eq!(
        names,
        vec![
            "digitalocean/kimi-k3",
            "digitalocean/glm-5.3-flash",
            "openrouter/z-ai/glm-5.2:free"
        ]
    );
}
