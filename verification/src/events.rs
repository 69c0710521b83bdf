//! The event log: each event is hashed together with the hash of the one
//! before it, so that the log forms a chain.
use vstd::prelude::*;
use crate::app_error::AppResult;
use crate::hashing::{blake3_hex_prefixed, blake3_prefixed};
use crate::json::{JsonValue, canon, canonical_string};
use crate::text::{push_str, i64_decimal, int_decimal, bytes_of, owned};

verus! {

/// A stored event.
#[derive(Debug)]
pub struct EventRecord {
    pub event_id: i64,
    pub ts_ms: i64,
    pub event_type: String,
    pub payload_json: String,
    pub prev_event_hash: Option<String>,
    pub event_hash: String,
}

/// The text an event's hash is taken of.
pub open spec fn event_hash_text(ts_ms: int, event_type: Seq<char>, payload_json: Seq<char>, prev: Option<Seq<char>>) -> Seq<char> {
    "kc.event.v1\n"@ + int_decimal(ts_ms) + "\n"@ + event_type + "\n"@ + payload_json + "\n"@ + match prev {
        Some(p) => p,
        None => Seq::empty(),
    }
}

pub open spec fn opt_seq(o: Option<String>) -> Option<Seq<char>> {
    match o {
        Some(s) => Some(s@),
        None => None,
    }
}

/// The hash of an event: of its time, type, canonical payload, and the
/// hash of the event before it (empty for the first).
pub fn event_hash_for(ts_ms: i64, event_type: &str, payload_json: &str, prev_event_hash: &Option<String>) -> (r: String)
    ensures
        r@ == blake3_prefixed(vstd::utf8::encode_utf8(event_hash_text(ts_ms as int, event_type@, payload_json@, opt_seq(*prev_event_hash)))),
{
    let mut s = String::new();
    push_str(&mut s, "kc.event.v1\n");
    let t = i64_decimal(ts_ms);
    push_str(&mut s, t.as_str());
    push_str(&mut s, "\n");
    push_str(&mut s, event_type);
    push_str(&mut s, "\n");
    push_str(&mut s, payload_json);
    push_str(&mut s, "\n");
    match prev_event_hash {
        Some(p) => push_str(&mut s, p.as_str()),
        None => {},
    }
    proof {
        assert(s@ =~= event_hash_text(ts_ms as int, event_type@, payload_json@, opt_seq(*prev_event_hash)));
    }
    let b = bytes_of(s.as_str());
    blake3_hex_prefixed(b.as_slice())
}

/// The event to append after the event whose hash is `prev_event_hash`
/// (`None` for the first): its payload as canonical JSON and its chained
/// hash. The id is the store's to give; the record carries 0 until then.
pub fn prepare_event(ts_ms: i64, event_type: &str, payload: &JsonValue, prev_event_hash: Option<String>) -> (r: AppResult<EventRecord>)
    ensures
        r is Ok <==> canon(*payload) is Some,
        r is Err ==> r->Err_0.code@ == "KC_CANON_JSON_FLOAT_FORBIDDEN"@,
        r is Ok ==> {
            let e = r->Ok_0;
            &&& e.ts_ms == ts_ms
            &&& e.event_type@ == event_type@
            &&& e.payload_json@ == canon(*payload)->Some_0
            &&& e.prev_event_hash == prev_event_hash
            &&& e.event_hash@ == blake3_prefixed(vstd::utf8::encode_utf8(
                event_hash_text(ts_ms as int, event_type@, e.payload_json@, opt_seq(prev_event_hash)),
            ))
        },
{
    let payload_json = canonical_string(payload)?;
    let event_hash = event_hash_for(ts_ms, event_type, payload_json.as_str(), &prev_event_hash);
    Ok(EventRecord { event_id: 0, ts_ms, event_type: owned(event_type), payload_json, prev_event_hash, event_hash })
}

/// Each event names the hash of the one before it: the log is a chain.
pub open spec fn chained(log: Seq<EventRecord>) -> bool {
    forall|i: int| 0 < i < log.len() ==> (#[trigger] log[i]).prev_event_hash is Some && log[i].prev_event_hash->Some_0@
        == log[i - 1].event_hash@
}

/// Appending an event prepared after the last one keeps the log a chain.
pub proof fn law_append_keeps_chain(log: Seq<EventRecord>, e: EventRecord)
    requires
        chained(log),
        log.len() > 0 ==> e.prev_event_hash is Some && e.prev_event_hash->Some_0@ == log.last().event_hash@,
    ensures
        chained(log.push(e)),
{
    assert forall|i: int| 0 < i < log.push(e).len() implies (#[trigger] log.push(e)[i]).prev_event_hash is Some
        && log.push(e)[i].prev_event_hash->Some_0@ == log.push(e)[i - 1].event_hash@ by {
        if i < log.len() {
            assert(log.push(e)[i] == log[i]);
            assert(log.push(e)[i - 1] == log[i - 1]);
        } else {
            assert(log.push(e)[i - 1] == log.last());
        }
    }
}

} // verus!
