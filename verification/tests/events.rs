//! Events of the bus.

use coin::error::CoinError;
use coin::opencode::events::{after_item, carries_event, Flow, Item};
use coin::opencode::types::{
    EventKind, Part, PartDelta, PartEnvelope, PartUpdated, Payload, ServerEvent,
    SessionErrorEvent, SessionRef,
};

/// A text of a payload; an empty one where it is absent.
fn text(value: &serde_json::Value, name: &str) -> Option<String> {
    match value.get(name) {
        None => Some(String::new()),
        Some(serde_json::Value::String(text)) => Some(text.clone()),
        Some(_) => None,
    }
}

/// Read a payload as the kind of event its tag stands for.
fn payload(kind: EventKind, value: &serde_json::Value) -> Option<Payload> {
    if kind == EventKind::PermissionAsked {
        return Some(Payload::Raw(value.to_string()));
    }
    if !value.is_object() {
        return None;
    }
    Some(match kind {
        EventKind::PartDelta => Payload::PartDelta(PartDelta {
            session_id: text(value, "sessionID")?,
            message_id: text(value, "messageID")?,
            part_id: text(value, "partID")?,
            field: text(value, "field")?,
            delta: text(value, "delta")?,
        }),
        EventKind::PartUpdated => {
            let part = value.get("part")?;
            Payload::PartUpdated(PartUpdated {
                part: PartEnvelope {
                    session_id: text(part, "sessionID")?,
                    part: Part::Text { id: text(part, "id")?, text: text(part, "text")? },
                },
            })
        }
        EventKind::SessionIdle => Payload::SessionRef(SessionRef {
            session_id: text(value, "sessionID")?,
        }),
        EventKind::SessionError => Payload::SessionError(SessionErrorEvent {
            session_id: text(value, "sessionID")?,
            error: value.get("error").map_or(String::new(), |e| e.to_string()),
        }),
        EventKind::PermissionAsked | EventKind::Other => return None,
    })
}

/// Read an event as the bus publishes it.
fn read(raw: &str) -> ServerEvent {
    let value: serde_json::Value = serde_json::from_str(raw).expect("must be JSON");
    let tag = value.get("type").and_then(|t| t.as_str()).expect("must be tagged");
    let properties = value.get("properties").cloned().unwrap_or_default();
    let payload = payload(EventKind::of(tag), &properties).unwrap_or(Payload::Unusable);
    ServerEvent::interpret(tag, payload)
}

#[test]
fn flow_stop_is_distinct_from_continue() {
    // Guards against a refactor collapsing the enum into a bool.
    assert_ne!(Flow::Continue, Flow::Stop);
}

#[test]
fn session_idle_is_recognised_as_the_completion_signal() {
    // Arrange: the payload shape opencode publishes on turn completion.
    let raw = r#"{"type":"session.idle","properties":{"sessionID":"ses_1"}}"#;

    // Act
    let event = read(raw);

    // Assert
    match event {
        ServerEvent::SessionIdle(session) => assert_eq!(session.session_id, "ses_1"),
        other => panic!("expected SessionIdle, got {other:?}"),
    }
}

#[test]
fn unknown_event_type_deserializes_to_other() {
    // Arrange
    let raw = r#"{"type":"session.archive","properties":{"sessionID":"ses_1"}}"#;

    // Act and assert
    assert!(matches!(read(raw), ServerEvent::Other));
}

#[test]
fn known_event_with_unusable_payload_degrades_to_other() {
    // Arrange: the tag is one we model, but the payload is the wrong shape.
    let raw = r#"{"type":"session.idle","properties":"not-an-object"}"#;

    // Act and assert
    assert!(matches!(read(raw), ServerEvent::Other));
}

#[test]
fn event_without_properties_still_decodes() {
    // Arrange: some events carry no payload at all.
    let raw = r#"{"type":"session.archive"}"#;

    // Act and assert
    assert!(matches!(read(raw), ServerEvent::Other));
}

#[test]
fn part_delta_matches_the_shape_opencode_emits() {
    // Arrange: captured verbatim from opencode 1.18.20's /event stream.
    let raw = r#"{
        "id":"evt_1",
        "type":"message.part.delta",
        "properties":{
            "sessionID":"ses_1",
            "messageID":"msg_1",
            "partID":"prt_1",
            "field":"text",
            "delta":"The"
        }
    }"#;

    // Act and assert
    match read(raw) {
        ServerEvent::PartDelta(delta) => {
            assert_eq!(delta.session_id, "ses_1");
            assert_eq!(delta.message_id, "msg_1");
            assert_eq!(delta.delta, "The");
            assert!(delta.is_text());
        }
        other => panic!("expected a PartDelta, got {other:?}"),
    }
}

#[test]
fn reasoning_deltas_are_not_text() {
    // Arrange: thinking tokens arrive on the same event with a different
    // field, and must not be mixed into the visible transcript.
    let raw = r#"{
        "type":"message.part.delta",
        "properties":{"sessionID":"ses_1","field":"reasoning","delta":"hmm"}
    }"#;

    // Act and assert
    match read(raw) {
        ServerEvent::PartDelta(delta) => assert!(!delta.is_text()),
        other => panic!("expected a PartDelta, got {other:?}"),
    }
}

#[test]
fn every_tag_stands_for_its_kind() {
    let kinds = [
        ("message.part.delta", EventKind::PartDelta),
        ("message.part.updated", EventKind::PartUpdated),
        ("session.idle", EventKind::SessionIdle),
        ("session.error", EventKind::SessionError),
        ("permission.asked", EventKind::PermissionAsked),
        ("message.updated", EventKind::Other),
        ("", EventKind::Other),
    ];
    for (tag, kind) in kinds {
        assert_eq!(EventKind::of(tag), kind, "{tag}");
    }
}

#[test]
fn errors_and_permissions_keep_what_was_sent() {
    let failed = r#"{"type":"session.error","properties":{"sessionID":"s","error":{"a":1}}}"#;
    match read(failed) {
        ServerEvent::SessionError(event) => {
            assert_eq!(event.session_id, "s");
            assert_eq!(event.error, r#"{"a":1}"#);
        }
        other => panic!("expected a SessionError, got {other:?}"),
    }
    let asked = r#"{"type":"permission.asked","properties":{"tool":"bash"}}"#;
    match read(asked) {
        ServerEvent::PermissionAsked(request) => assert_eq!(request, r#"{"tool":"bash"}"#),
        other => panic!("expected a PermissionAsked, got {other:?}"),
    }
}

#[test]
fn a_payload_of_the_wrong_kind_is_ignored() {
    let idle = Payload::SessionRef(SessionRef { session_id: "s".to_string() });
    assert!(matches!(ServerEvent::interpret("message.part.delta", idle), ServerEvent::Other));
}

#[test]
fn keepalives_carry_no_event() {
    assert!(!carries_event(""));
    assert!(!carries_event(" \r\n"));
    assert!(carries_event("{}"));
}

#[test]
fn only_the_handler_ends_a_stream_well() {
    let message = |data: &str, handled| Item::Message { data: data.to_string(), handled };
    assert_eq!(after_item(message("{}", Some(Flow::Stop))), Some(Ok(())));
    assert_eq!(after_item(message("{}", Some(Flow::Continue))), None);
    assert_eq!(after_item(message("{}", None)), None);
    assert_eq!(after_item(message(" ", Some(Flow::Stop))), None);
    assert_eq!(
        after_item(Item::Broken("reset".to_string())),
        Some(Err(CoinError::EventStream("reset".to_string())))
    );
    assert_eq!(
        after_item(Item::Closed),
        Some(Err(CoinError::EventStream(
            "opencode closed the event stream unexpectedly".to_string()
        )))
    );
}
