use vstd::prelude::*;
use vstd::string::*;

verus! {

/// The event of an envelope: one of the protocol's fixed events, or one the
/// application names itself.
#[derive(Debug)]
pub enum EventKind {
    Close,
    Error,
    Join,
    Leave,
    Reply,
    Custom(String),
}

/// What an `EventKind` stands for, with the custom name as characters.
pub ghost enum EventModel {
    Close,
    Error,
    Join,
    Leave,
    Reply,
    Custom(Seq<char>),
}

impl View for EventKind {
    type V = EventModel;

    open spec fn view(&self) -> EventModel {
        match self {
            EventKind::Close => EventModel::Close,
            EventKind::Error => EventModel::Error,
            EventKind::Join => EventModel::Join,
            EventKind::Leave => EventModel::Leave,
            EventKind::Reply => EventModel::Reply,
            EventKind::Custom(s) => EventModel::Custom(s@),
        }
    }
}

/// The wire token of an event.
pub open spec fn token_of(e: EventModel) -> Seq<char> {
    match e {
        EventModel::Close => "phx_close"@,
        EventModel::Error => "phx_error"@,
        EventModel::Join => "phx_join"@,
        EventModel::Leave => "phx_leave"@,
        EventModel::Reply => "phx_reply"@,
        EventModel::Custom(s) => s,
    }
}

/// Whether `t` is one of the five tokens the protocol reserves.
pub open spec fn is_fixed_token(t: Seq<char>) -> bool {
    t == "phx_close"@ || t == "phx_error"@ || t == "phx_join"@ || t == "phx_leave"@ || t
        == "phx_reply"@
}

/// The event that a wire token denotes.
pub open spec fn event_of_token(t: Seq<char>) -> EventModel {
    if t == "phx_close"@ {
        EventModel::Close
    } else if t == "phx_error"@ {
        EventModel::Error
    } else if t == "phx_join"@ {
        EventModel::Join
    } else if t == "phx_leave"@ {
        EventModel::Leave
    } else if t == "phx_reply"@ {
        EventModel::Reply
    } else {
        EventModel::Custom(t)
    }
}

/// Decoding a token and encoding the event again gives the token back; the
/// event is custom exactly when the token is not one of the reserved five.
pub proof fn lemma_event_token_round_trip(t: Seq<char>)
    ensures
        token_of(event_of_token(t)) == t,
        (event_of_token(t) is Custom) <==> !is_fixed_token(t),
        !is_fixed_token(t) ==> event_of_token(t) == EventModel::Custom(t),
{
}

/// Each fixed event encodes to a token that decodes to that same event.
pub proof fn lemma_fixed_event_round_trip(e: EventModel)
    requires
        !(e is Custom),
    ensures
        event_of_token(token_of(e)) == e,
        is_fixed_token(token_of(e)),
{
    reveal_strlit("phx_close");
    reveal_strlit("phx_error");
    reveal_strlit("phx_join");
    reveal_strlit("phx_leave");
    reveal_strlit("phx_reply");
    assert("phx_close"@[4] == 'c' && "phx_error"@[4] == 'e' && "phx_join"@[4] == 'j'
        && "phx_leave"@[4] == 'l' && "phx_reply"@[4] == 'r');
}

impl EventKind {
    /// Decodes a wire token: a reserved token gives its event, any other a
    /// custom event of that name.
    pub fn from_token(t: &str) -> (e: EventKind)
        ensures
            e@ == event_of_token(t@),
    {
        let s = String::from_str(t);
        if s == String::from_str("phx_close") {
            EventKind::Close
        } else if s == String::from_str("phx_error") {
            EventKind::Error
        } else if s == String::from_str("phx_join") {
            EventKind::Join
        } else if s == String::from_str("phx_leave") {
            EventKind::Leave
        } else if s == String::from_str("phx_reply") {
            EventKind::Reply
        } else {
            EventKind::Custom(s)
        }
    }

    /// The wire token of this event.
    pub fn token(&self) -> (s: String)
        ensures
            s@ == token_of(self@),
    {
        match self {
            EventKind::Close => String::from_str("phx_close"),
            EventKind::Error => String::from_str("phx_error"),
            EventKind::Join => String::from_str("phx_join"),
            EventKind::Leave => String::from_str("phx_leave"),
            EventKind::Reply => String::from_str("phx_reply"),
            EventKind::Custom(s) => s.clone(),
        }
    }
}

} // verus!
