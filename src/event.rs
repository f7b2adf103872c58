use vstd::prelude::*;

verus! {

/// Lets `serde_json::Value` stand in fields and signatures; the library
/// carries an event's payload through without looking inside it.
#[verifier::external_type_specification]
#[verifier::external_body]
pub struct ExValue(serde_json::Value);

/// Relies on serde_json's derived `Clone` for `Value`: a deep copy, equal to
/// the value copied.
pub assume_specification[ <serde_json::Value as Clone>::clone ](v: &serde_json::Value) -> (r:
    serde_json::Value)
    ensures
        r == *v,
;

/// An event as a producer reports it.
pub struct HookEvent {
    pub source_app: String,
    pub session_id: String,
    pub hook_event_type: String,
    pub timestamp: String,
    pub payload: serde_json::Value,
}

/// An event as the store keeps it: the reported fields, the id the store
/// assigned and the time it was taken in.
pub struct StoredEvent {
    pub id: u64,
    pub source_app: String,
    pub session_id: String,
    pub hook_event_type: String,
    pub timestamp: String,
    pub payload: serde_json::Value,
    pub created_at: String,
}

/// The record that the store makes of `e` under `id`, taken in at `created_at`.
pub open spec fn stamped(e: HookEvent, id: u64, created_at: String) -> StoredEvent {
    StoredEvent {
        id,
        source_app: e.source_app,
        session_id: e.session_id,
        hook_event_type: e.hook_event_type,
        timestamp: e.timestamp,
        payload: e.payload,
        created_at,
    }
}

impl HookEvent {
    /// The record of this event under `id`, taken in at `created_at`.
    pub fn into_stored(self, id: u64, created_at: String) -> (r: StoredEvent)
        ensures
            r == stamped(self, id, created_at),
    {
        StoredEvent {
            id,
            source_app: self.source_app,
            session_id: self.session_id,
            hook_event_type: self.hook_event_type,
            timestamp: self.timestamp,
            payload: self.payload,
            created_at,
        }
    }
}

impl Clone for StoredEvent {
    fn clone(&self) -> (r: Self)
        ensures
            r == *self,
    {
        StoredEvent {
            id: self.id,
            source_app: self.source_app.clone(),
            session_id: self.session_id.clone(),
            hook_event_type: self.hook_event_type.clone(),
            timestamp: self.timestamp.clone(),
            payload: self.payload.clone(),
            created_at: self.created_at.clone(),
        }
    }
}

} // verus!
