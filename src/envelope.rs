use vstd::prelude::*;
use vstd::string::*;
use crate::event::{EventKind, token_of, event_of_token};
use crate::value::{Key, Value, ClassificationError, Failure};
use crate::text::{int_text, json_quoted, join_items, decimal_text, quoted};
use crate::json::{encode, serialize, pair_texts};
use crate::sorted::{Pair, lemma_sorted_form_of};
use crate::session::Session;

verus! {

/// The JSON text of an optional reference.
pub open spec fn ref_text(r: Option<u32>) -> Seq<char> {
    match r {
        Some(n) => int_text(n as int),
        None => "null"@,
    }
}

/// The query text of the connection parameters: `&key=value` for each pair,
/// in order.
pub open spec fn query_text(params: Seq<(String, String)>) -> Seq<char>
    decreases params.len(),
{
    if params.len() == 0 {
        Seq::empty()
    } else {
        query_text(params.drop_last()) + "&"@ + params.last().0@ + "="@ + params.last().1@
    }
}

/// The socket address for a server URL: the websocket route, the protocol
/// version, then the parameters as query pairs.
pub fn connect_url(base: &str, params: &Vec<(String, String)>) -> (r: String)
    ensures
        r@ == base@ + "/websocket?vsn=1.0.0"@ + query_text(params@),
{
    let mut out = String::from_str(base);
    out.append("/websocket?vsn=1.0.0");
    let ghost head = out@;
    let mut i: usize = 0;
    proof {
        assert(params@.take(0) =~= Seq::<(String, String)>::empty());
        assert(out@ =~= head + query_text(params@.take(0)));
    }
    while i < params.len()
        invariant
            i <= params.len(),
            out@ == head + query_text(params@.take(i as int)),
        decreases params.len() - i,
    {
        out.append("&");
        out.append(params[i].0.as_str());
        out.append("=");
        out.append(params[i].1.as_str());
        proof {
            assert(params@.take(i + 1).drop_last() =~= params@.take(i as int));
            assert(out@ =~= head + query_text(params@.take(i + 1)));
        }
        i = i + 1;
    }
    proof {
        assert(params@.take(params.len() as int) =~= params@);
    }
    out
}

/// The wire frame of an envelope whose payload has the JSON text `payload`.
pub open spec fn frame_text(
    join_ref: Option<u32>,
    message_ref: Option<u32>,
    topic: Seq<char>,
    event: Seq<char>,
    payload: Seq<char>,
) -> Seq<char> {
    "{\"join_ref\":"@ + ref_text(join_ref) + ",\"ref\":"@ + ref_text(message_ref)
        + ",\"topic\":"@ + json_quoted(topic) + ",\"event\":"@ + json_quoted(event)
        + ",\"payload\":"@ + payload + "}"@
}

/// Writes an optional reference after `out`.
fn write_ref(r: Option<u32>, out: &mut String)
    ensures
        final(out)@ == old(out)@ + ref_text(r),
{
    match r {
        Some(n) => {
            let t = decimal_text(n as i128);
            out.append(t.as_str());
        },
        None => out.append("null"),
    }
}

/// Encodes an outbound envelope as a wire frame. The payload is written with
/// its keys sorted; a payload with no JSON shape fails the whole frame.
pub fn encode_frame(
    join_ref: Option<u32>,
    message_ref: Option<u32>,
    topic: &str,
    event: &EventKind,
    payload: &Value,
) -> (r: Result<String, ClassificationError>)
    ensures
        match r {
            Ok(s) => encode(*payload, true) is Ok && s@ == frame_text(
                join_ref,
                message_ref,
                topic@,
                token_of(event@),
                encode(*payload, true)->Ok_0,
            ),
            Err(e) => encode(*payload, true) == Err::<Seq<char>, Failure>(e@),
        },
{
    let body = match serialize(payload, true) {
        Ok(b) => b,
        Err(e) => return Err(e),
    };
    let mut out = String::from_str("{\"join_ref\":");
    write_ref(join_ref, &mut out);
    out.append(",\"ref\":");
    write_ref(message_ref, &mut out);
    out.append(",\"topic\":");
    let t = quoted(topic);
    out.append(t.as_str());
    out.append(",\"event\":");
    let tok = event.token();
    let q = quoted(tok.as_str());
    out.append(q.as_str());
    out.append(",\"payload\":");
    out.append(body.as_str());
    out.append("}");
    proof {
        assert(out@ =~= frame_text(join_ref, message_ref, topic@, token_of(event@), body@));
    }
    Ok(out)
}

/// An empty mapping encodes as `{}`.
proof fn lemma_empty_mapping(v: Value)
    requires
        v matches Value::Mapping(es) && es@.len() == 0,
    ensures
        encode(v, true) == Ok::<Seq<char>, Failure>("{}"@),
{
    reveal_strlit("{}");
    if let Value::Mapping(es) = v {
        assert(es@ =~= Seq::<(Key, Value)>::empty());
        lemma_sorted_form_of(Seq::empty());
        assert(pair_texts(Seq::<Pair>::empty()) =~= Seq::empty());
        assert(seq!['{'] + join_items(Seq::empty()) + seq!['}'] =~= "{}"@);
    }
}

/// The frame that joins `topic`, sent with `r` as both its join ref and its
/// message ref and an empty payload.
pub fn join_frame(r: u32, topic: &str) -> (s: String)
    ensures
        s@ == frame_text(Some(r), Some(r), topic@, "phx_join"@, "{}"@),
{
    let payload = Value::Mapping(Vec::new());
    proof {
        lemma_empty_mapping(payload);
    }
    match encode_frame(Some(r), Some(r), topic, &EventKind::Join, &payload) {
        Ok(s) => s,
        // an empty mapping always encodes, so this arm is never taken
        Err(_) => String::new(),
    }
}

/// The keep-alive frame with message ref `r`: event `heartbeat` on the
/// `phoenix` topic, with an empty payload.
pub fn heartbeat_frame(r: u32) -> (s: String)
    ensures
        s@ == frame_text(None, Some(r), "phoenix"@, "heartbeat"@, "{}"@),
{
    let payload = Value::Mapping(Vec::new());
    proof {
        lemma_empty_mapping(payload);
    }
    let event = EventKind::Custom(String::from_str("heartbeat"));
    match encode_frame(None, Some(r), "phoenix", &event, &payload) {
        Ok(s) => s,
        // an empty mapping always encodes, so this arm is never taken
        Err(_) => String::new(),
    }
}

/// An envelope as it came in: refs may be missing, the payload is JSON text.
#[derive(Debug)]
pub struct Inbound {
    pub join_ref: Option<u32>,
    pub message_ref: Option<u32>,
    pub topic: String,
    pub event: EventKind,
    pub payload: String,
}

/// What the handler is called with for one inbound envelope.
#[derive(Debug)]
pub struct HandlerCall {
    pub message_ref: u32,
    pub topic: String,
    pub event: String,
    pub payload: String,
}

/// A missing reference counts as zero.
pub open spec fn ref_or_zero(r: Option<u32>) -> u32 {
    match r {
        Some(n) => n,
        None => 0,
    }
}

/// Builds an inbound envelope from the fields of a received frame, decoding
/// its event token.
pub fn decode_inbound(
    join_ref: Option<u32>,
    message_ref: Option<u32>,
    topic: String,
    event_token: &str,
    payload: String,
) -> (m: Inbound)
    ensures
        m.join_ref == join_ref,
        m.message_ref == message_ref,
        m.topic@ == topic@,
        m.event@ == event_of_token(event_token@),
        m.payload@ == payload@,
{
    Inbound { join_ref, message_ref, topic, event: EventKind::from_token(event_token), payload }
}

/// The handler's arguments for an inbound envelope: its message ref, zero when
/// missing, its topic, its event as a wire token, and its payload text.
pub fn handler_call(m: Inbound) -> (c: HandlerCall)
    ensures
        c.message_ref == ref_or_zero(m.message_ref),
        c.topic@ == m.topic@,
        c.event@ == token_of(m.event@),
        c.payload@ == m.payload@,
{
    let message_ref = match m.message_ref {
        Some(n) => n,
        None => 0,
    };
    let event = m.event.token();
    HandlerCall { message_ref, topic: m.topic, event, payload: m.payload }
}

/// What the dispatch loop receives next.
#[derive(Debug)]
pub enum Incoming {
    /// A decoded envelope.
    Frame(Inbound),
    /// A transport message that carries no envelope (binary, ping, pong, close).
    Control,
    /// The stream ended.
    Ended,
    /// A frame could not be decoded.
    Undecodable,
}

/// How a dispatch loop ended.
#[derive(Debug, Clone, Copy, PartialEq, Eq, Structural)]
pub enum DispatchOutcome {
    StreamEnded,
    DecodeFailed,
    Stopped,
    ConnectionLost,
}

/// What the dispatch loop does with what it received.
#[derive(Debug)]
pub enum DispatchAction {
    /// Call the handler, then wait for the next message.
    Deliver(HandlerCall),
    /// Wait for the next message.
    Skip,
    /// Leave the loop and report the outcome.
    Finish(DispatchOutcome),
}

/// One step of the dispatch loop: a stop request or a broken session ends it
/// first; otherwise an envelope goes to the handler, a control message is
/// passed over, and the end of the stream or an undecodable frame ends it.
pub fn dispatch_step(session: &Session, incoming: Incoming) -> (a: DispatchAction)
    ensures
        session.stop_requested ==> a == DispatchAction::Finish(DispatchOutcome::Stopped),
        !session.stop_requested && session.broken ==> a == DispatchAction::Finish(
            DispatchOutcome::ConnectionLost,
        ),
        !session.stop_requested && !session.broken ==> match incoming {
            Incoming::Frame(m) => match a {
                DispatchAction::Deliver(c) => c.message_ref == ref_or_zero(m.message_ref)
                    && c.topic@ == m.topic@ && c.event@ == token_of(m.event@) && c.payload@
                    == m.payload@,
                _ => false,
            },
            Incoming::Control => a == DispatchAction::Skip,
            Incoming::Ended => a == DispatchAction::Finish(DispatchOutcome::StreamEnded),
            Incoming::Undecodable => a == DispatchAction::Finish(DispatchOutcome::DecodeFailed),
        },
{
    if session.stop_requested {
        DispatchAction::Finish(DispatchOutcome::Stopped)
    } else if session.broken {
        DispatchAction::Finish(DispatchOutcome::ConnectionLost)
    } else {
        match incoming {
            Incoming::Frame(m) => DispatchAction::Deliver(handler_call(m)),
            Incoming::Control => DispatchAction::Skip,
            Incoming::Ended => DispatchAction::Finish(DispatchOutcome::StreamEnded),
            Incoming::Undecodable => DispatchAction::Finish(DispatchOutcome::DecodeFailed),
        }
    }
}

} // verus!
