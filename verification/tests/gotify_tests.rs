use matrix_gotify_bridge::gotify::{GotifyEnvelope, GotifyMessage, GotifyMessageRaw};

fn raw(appid: i64, id: i64, priority: Option<i64>) -> GotifyMessageRaw {
    GotifyMessageRaw {
        appid,
        id,
        title: Some(format!("title {}", id)),
        message: Some("text".to_string()),
        priority,
        extras: serde_json::Value::Null,
    }
}

#[test]
fn missing_priority_reads_as_zero() {
    let m = GotifyMessage::from_raw(raw(3, 4, None), serde_json::Value::Bool(true));
    assert_eq!(m.priority, 0);
    assert_eq!(m.app_id, 3);
    assert_eq!(m.id, 4);
    assert_eq!(m.title.as_deref(), Some("title 4"));
    assert_eq!(m.message.as_deref(), Some("text"));
    assert_eq!(m.raw, serde_json::Value::Bool(true));
    let m = GotifyMessage::from_raw(raw(3, 4, Some(-2)), serde_json::Value::Null);
    assert_eq!(m.priority, -2);
}

#[test]
fn envelope_message_wins() {
    let env = GotifyEnvelope { message: Some(raw(1, 10, Some(5))), other: serde_json::Value::Null };
    let m = GotifyMessage::from_value(Some(env), Some(raw(2, 20, None)), serde_json::Value::Null).unwrap();
    assert_eq!(m.app_id, 1);
    assert_eq!(m.id, 10);
    assert_eq!(m.priority, 5);
}

#[test]
fn empty_envelope_falls_back_to_bare_message() {
    let env = GotifyEnvelope { message: None, other: serde_json::Value::Null };
    let m = GotifyMessage::from_value(Some(env), Some(raw(2, 20, None)), serde_json::Value::Null).unwrap();
    assert_eq!(m.app_id, 2);
    assert_eq!(m.id, 20);
    let m = GotifyMessage::from_value(None, Some(raw(2, 21, None)), serde_json::Value::Null).unwrap();
    assert_eq!(m.id, 21);
}

#[test]
fn nothing_parsed_gives_no_message() {
    let env = GotifyEnvelope { message: None, other: serde_json::Value::Null };
    assert!(GotifyMessage::from_value(Some(env), None, serde_json::Value::Null).is_none());
    assert!(GotifyMessage::from_value(None, None, serde_json::Value::Null).is_none());
}
