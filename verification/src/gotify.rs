//! Gotify messages: the two shapes the stream delivers (a bare message, or an
//! envelope around one) and the message the bridge works with.
use vstd::prelude::*;

verus! {

/// A JSON value, carried through unread.
#[verifier::external_type_specification]
#[verifier::external_body]
pub struct ExJsonValue(serde_json::Value);

/// A message as Gotify sends it.
#[derive(Debug)]
pub struct GotifyMessageRaw {
    pub appid: i64,
    pub id: i64,
    pub title: Option<String>,
    pub message: Option<String>,
    pub priority: Option<i64>,
    pub extras: serde_json::Value,
}

/// An envelope that may hold a message, with whatever else it carries.
#[derive(Debug)]
pub struct GotifyEnvelope {
    pub message: Option<GotifyMessageRaw>,
    pub other: serde_json::Value,
}

/// A message as the bridge routes and renders it.
#[derive(Debug)]
pub struct GotifyMessage {
    pub app_id: i64,
    pub id: i64,
    pub title: Option<String>,
    pub message: Option<String>,
    pub priority: i64,
    pub extras: serde_json::Value,
    pub raw: serde_json::Value,
}

/// `m` is the message made from `raw`, delivered as the JSON value `val`:
/// the fields carried over, a missing priority read as 0.
pub open spec fn made_from(m: GotifyMessage, raw: GotifyMessageRaw, val: serde_json::Value) -> bool {
    &&& m.app_id == raw.appid
    &&& m.id == raw.id
    &&& m.title == raw.title
    &&& m.message == raw.message
    &&& m.priority == match raw.priority {
        Some(p) => p,
        None => 0,
    }
    &&& m.extras == raw.extras
    &&& m.raw == val
}

/// The message a delivery carries: the envelope's message when the delivery
/// parsed as an envelope holding one, else the delivery itself when it parsed
/// as a bare message, else none.
pub open spec fn chosen_message(
    envelope: Option<GotifyEnvelope>,
    bare: Option<GotifyMessageRaw>,
) -> Option<GotifyMessageRaw> {
    match envelope {
        Some(e) if e.message is Some => e.message,
        _ => bare,
    }
}

impl GotifyMessage {
    /// The message made from `raw`, which was delivered as `val`.
    pub fn from_raw(raw: GotifyMessageRaw, val: serde_json::Value) -> (m: GotifyMessage)
        ensures
            made_from(m, raw, val),
    {
        let priority = match raw.priority {
            Some(p) => p,
            None => 0,
        };
        GotifyMessage {
            app_id: raw.appid,
            id: raw.id,
            title: raw.title,
            message: raw.message,
            priority,
            extras: raw.extras,
            raw: val,
        }
    }

    /// The message of a delivery `val`, given what it parsed as: `envelope`
    /// when it parsed as an envelope, `bare` when it parsed as a bare message.
    /// An envelope that holds a message wins; `None` when neither gives one.
    pub fn from_value(
        envelope: Option<GotifyEnvelope>,
        bare: Option<GotifyMessageRaw>,
        val: serde_json::Value,
    ) -> (r: Option<GotifyMessage>)
        ensures
            r is Some <==> chosen_message(envelope, bare) is Some,
            r matches Some(m) ==> made_from(m, chosen_message(envelope, bare)->0, val),
    {
        let chosen = match envelope {
            Some(e) => match e.message {
                Some(m) => Some(m),
                None => bare,
            },
            None => bare,
        };
        match chosen {
            Some(raw) => Some(GotifyMessage::from_raw(raw, val)),
            None => None,
        }
    }
}


/// A delivery that parsed as an envelope holding a message carries that
/// message, whatever the bare parse gave; any other delivery carries the bare
/// message when it parsed as one, and none otherwise.
pub proof fn law_envelope_message_wins(
    envelope: Option<GotifyEnvelope>,
    bare: Option<GotifyMessageRaw>,
    raw: GotifyMessageRaw,
)
    ensures
        (envelope matches Some(e) && e.message == Some(raw)) ==> chosen_message(envelope, bare) == Some(raw),
        !(envelope matches Some(e) && e.message is Some) ==> chosen_message(envelope, bare) == bare,
{
}

} // verus!
