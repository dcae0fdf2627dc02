//! The message codec: the wire envelope `{topic, event, payload, ref}` as
//! text frames, written and read through the JSON collaborator.

use vstd::prelude::*;

use crate::error::Error;

verus! {

#[verifier::external_type_specification]
#[verifier::external_body]
pub struct ExValue(serde_json::Value);

#[verifier::external_type_specification]
#[verifier::external_body]
#[verifier::reject_recursive_types(K)]
#[verifier::reject_recursive_types(V)]
pub struct ExJsonMap<K, V>(serde_json::Map<K, V>);

/// The text that the JSON collaborator writes for one JSON string value:
/// the quoted, escaped form.  It depends on the characters alone.
pub uninterp spec fn json_string_encoding(s: Seq<char>) -> Seq<char>;

/// Relies on serde_json::to_string on a `serde_json::Value::String`:
/// writing a string value never fails, and the text written depends on the
/// characters alone.
#[verifier::external_body]
fn quote_string(s: &str) -> (r: String)
    ensures
        r@ == json_string_encoding(s@),
{
    match serde_json::to_string(&serde_json::Value::String(s.to_string())) {
        Ok(t) => t,
        Err(_) => String::new(),
    }
}

/// Whether the JSON collaborator reads the text as one complete wire
/// envelope: a JSON object whose `topic` and `event` members are strings
/// and whose `payload` member is an object.  A pure function of the text.
pub uninterp spec fn frame_decodes(text: Seq<char>) -> bool;

/// The `topic` member of a text for which `frame_decodes` holds.
pub uninterp spec fn decoded_topic(text: Seq<char>) -> Seq<char>;

/// The `event` member of a text for which `frame_decodes` holds.
pub uninterp spec fn decoded_event(text: Seq<char>) -> Seq<char>;

/// Relies on serde_json's from_str, Value::get, Value::as_str and
/// Value::as_object, chained over the wire envelope's member names: one
/// well-formed JSON document with a string `topic`, a string `event` and
/// an object `payload` yields exactly those three parts; any other text
/// yields nothing.  Every call is a pure function of the text alone.
#[verifier::external_body]
fn parse_frame(text: &str) -> (r: Option<
    (String, String, serde_json::Map<String, serde_json::Value>),
>)
    ensures
        r is Some <==> frame_decodes(text@),
        r matches Some(parts) ==> parts.0@ == decoded_topic(text@) && parts.1@ == decoded_event(
            text@,
        ),
{
    let value: serde_json::Value = serde_json::from_str(text).ok()?;
    let topic = value.get("topic")?.as_str()?.to_string();
    let event = value.get("event")?.as_str()?.to_string();
    let payload = value.get("payload")?.as_object()?.clone();
    Some((topic, event, payload))
}

/// The canonical text of the join handshake frame for `topic`: the
/// four-field wire envelope with event `"phx_join"`, an empty payload and
/// a null ref, keys in sorted order as the JSON collaborator writes them.
pub open spec fn join_frame_text(topic: Seq<char>) -> Seq<char> {
    "{\"event\":\"phx_join\",\"payload\":{},\"ref\":null,\"topic\":"@
        + json_string_encoding(topic) + "}"@
}

/// Encodes the join handshake frame for one topic.
pub fn join_frame(topic: &str) -> (r: String)
    ensures
        r@ == join_frame_text(topic@),
{
    let mut out = String::from_str("{\"event\":\"phx_join\",\"payload\":{},\"ref\":null,\"topic\":");
    let quoted = quote_string(topic);
    out.append(quoted.as_str());
    out.append("}");
    proof {
        assert(out@ =~= join_frame_text(topic@));
    }
    out
}

/// The canonical text of the liveness frame: reserved topic `"phoenix"`,
/// event `"heartbeat"`.
pub open spec fn heartbeat_frame_text() -> Seq<char> {
    "{\"event\":\"heartbeat\",\"payload\":{\"msg\":\"ping\"},\"ref\":null,\"topic\":\"phoenix\"}"@
}

/// Encodes the liveness frame.
pub fn heartbeat_frame() -> (r: String)
    ensures
        r@ == heartbeat_frame_text(),
{
    String::from_str("{\"event\":\"heartbeat\",\"payload\":{\"msg\":\"ping\"},\"ref\":null,\"topic\":\"phoenix\"}")
}

/// One decoded inbound wire envelope: the fields the demultiplexer reads,
/// and the payload object handed through to listeners untouched.
pub struct Frame {
    pub topic: String,
    pub event: String,
    pub payload: serde_json::Map<String, serde_json::Value>,
}

/// Decodes one inbound text frame.  Succeeds exactly when the text is a
/// complete wire envelope — a JSON object carrying a string `topic`, a
/// string `event` and an object `payload` — and then hands back exactly
/// those parts; on any other text it fails with `DecodeError`, which the
/// receive loop treats as a frame to skip.
pub fn decode_frame(text: &str) -> (r: Result<Frame, Error>)
    ensures
        r is Ok <==> frame_decodes(text@),
        r matches Ok(f) ==> f.topic@ == decoded_topic(text@) && f.event@ == decoded_event(text@),
        r matches Err(e) ==> e == Error::DecodeError,
{
    match parse_frame(text) {
        Some((topic, event, payload)) => Ok(Frame { topic, event, payload }),
        None => Err(Error::DecodeError),
    }
}

} // verus!
