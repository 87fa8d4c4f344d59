//! A Phoenix Channels client core: the dynamic value model, its canonical JSON
//! encoding, the message envelope codec and the session's decision logic.
mod envelope;
mod event;
mod json;
mod laws;
mod order;
mod session;
mod sorted;
mod text;
mod value;

pub use envelope::{
    connect_url, decode_inbound, dispatch_step, encode_frame, frame_text, handler_call,
    heartbeat_frame, join_frame, query_text, ref_or_zero, ref_text, DispatchAction,
    DispatchOutcome, HandlerCall, Inbound, Incoming,
};
pub use event::{
    event_of_token, is_fixed_token, lemma_event_token_round_trip, lemma_fixed_event_round_trip,
    token_of, EventKind, EventModel,
};
pub use json::{
    encode, encode_entries, encode_items, pair_text, pair_texts, serialize, text_pairs,
    written_pairs, SerializePyObject,
};
pub use laws::{
    distinct_keys, entries_shaped, items_shaped, json_shaped, lemma_encode_fails_iff_not_shaped,
    lemma_entries_fail_iff_not_shaped, lemma_entries_ok, lemma_items_fail_iff_not_shaped,
    lemma_last_wins_distinct, lemma_same_pairs_same_map, lemma_sorted_encoding_ignores_order,
    lemma_sorted_form_exists, lemma_sorted_mapping_text, occurs_in,
};
pub use order::{
    key_less, key_lt, lemma_key_lt_asymmetric, lemma_key_lt_irreflexive, lemma_key_lt_total,
    lemma_key_lt_transitive,
};
pub use session::{
    after_take, lemma_receiver_taken_once, take_result, HeartbeatAction, Session, SessionError,
    HEARTBEAT_INTERVAL_SECS,
};
pub use sorted::{
    ascending, last_wins, lemma_ascending_unique, lemma_last_wins_ascending,
    lemma_last_wins_domain, lemma_place_pair, lemma_sorted_form_of, lists_in_order, sorted_form,
    Pair,
};
pub use text::{
    digit_char, escaped, escaped_text, hex_digit, int_text, join_items, json_quoted,
    lemma_join_items_push, nat_digits,
};
pub use value::{
    failure_prefix, foreign_failure, key_text, ClassificationError, Failure, FailureKind, Foreign,
    Key, Value,
};
