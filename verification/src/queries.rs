//! The read coordinator's conclusions: what one store answer means for
//! one entity key. The store calls themselves are the transport layer's;
//! the decision over their result is made and checked here.

use vstd::prelude::*;
use crate::errors::{DatabaseQueryFailed, UnknownSdkError};
use crate::event::{decoded_event_matches, spec_decode_event_error, Event};
use crate::attr::RawRecord;
use crate::uid::UuidVal;

verus! {

/// Why reading one entity failed. `NotFound` is recoverable and maps to
/// a not-found answer; a record that was found but does not decode is a
/// corrupt stored entity, an internal error that names the identifier
/// and must never be conflated with `NotFound`.
#[derive(Debug)]
pub enum GetEventError {
    NotFound,
    InvalidStoredEvent(UuidVal),
    DatabaseQueryFailed(DatabaseQueryFailed),
    UnexpectedSdkError(UnknownSdkError),
}

/// Why attaching an image to an entity failed.
#[derive(Debug)]
pub enum AddImageError {
    DatabaseQueryFailed(DatabaseQueryFailed),
    UnexpectedSdkError(UnknownSdkError),
    GetEventError(GetEventError),
}

/// The value an entity's sorting key always holds.
pub fn sort_key_value() -> (r: String)
    ensures
        r@ == "Event"@,
{
    String::from_str("Event")
}

/// Interpret the store's answer for one entity key. An answer without
/// an item list at all breaks the SDK's contract; an empty list means
/// the entity does not exist; otherwise only the first record counts,
/// and a record that fails to decode is reported as a corrupt stored
/// entity carrying the queried identifier.
pub fn interpret_query_result(event_id: UuidVal, items: Option<Vec<RawRecord>>) -> (r: Result<
    Event,
    GetEventError,
>)
    ensures
        match r {
            Ok(ev) => {
                &&& items matches Some(v) && v@.len() > 0
                &&& decoded_event_matches(items->Some_0@[0]@, ev)
            },
            Err(e) => match e {
                GetEventError::UnexpectedSdkError(_) => items is None,
                GetEventError::NotFound => items matches Some(v) && v@.len() == 0,
                GetEventError::InvalidStoredEvent(id) => {
                    &&& id == event_id
                    &&& items matches Some(v) && v@.len() > 0
                    &&& spec_decode_event_error(items->Some_0@[0]@) is Some
                },
                GetEventError::DatabaseQueryFailed(_) => false,
            },
        },
{
    let v = match items {
        None => {
            return Err(
                GetEventError::UnexpectedSdkError(
                    UnknownSdkError(
                        String::from_str("Got a response, but 'items' field is missing"),
                    ),
                ),
            );
        },
        Some(v) => v,
    };
    if v.len() == 0 {
        return Err(GetEventError::NotFound);
    }
    match Event::decode(&v[0]) {
        Ok(ev) => Ok(ev),
        Err(_) => Err(GetEventError::InvalidStoredEvent(event_id)),
    }
}

} // verus!
