use vstd::prelude::*;
use crate::event::{HookEvent, StoredEvent};
use crate::store::{
    EventStore, StoreModel, RECENT_LIMIT, appended, fresh_model, newest, next_record,
    without_session,
};

verus! {

/// Status of a request that succeeded.
pub const STATUS_OK: u16 = 200;

/// Status of an event that was taken in.
pub const STATUS_CREATED: u16 = 201;

/// A message pushed to the dashboard, on a best-effort basis.
pub enum Notification {
    /// An event was taken in.
    Event(StoredEvent),
    /// The events of a session were deleted.
    SessionDeleted(String),
    /// The store was cleared.
    EventsCleared,
    /// The service listens on this port.
    ServerOnline(u16),
}

/// The reply to a health probe.
pub fn health() -> (r: &'static str)
    ensures
        r@ == seq!['O', 'K'],
{
    proof {
        reveal_strlit("OK");
    }
    "OK"
}

/// Takes in `event`: appends it and replies Created, with the notice of the
/// stored event.
pub fn receive_event(store: &mut EventStore, event: HookEvent) -> (r: (u16, Notification))
    requires
        old(store).wf(),
        old(store)@.next_id < u64::MAX,
    ensures
        final(store).wf(),
        r.0 == STATUS_CREATED,
        r.1 matches Notification::Event(rec) && rec == next_record(old(store)@, event, rec.created_at)
            && final(store)@ == appended(old(store)@, event, rec.created_at),
{
    let rec = store.append(event);
    (STATUS_CREATED, Notification::Event(rec))
}

/// The newest events, at most `RECENT_LIMIT`, oldest first.
pub fn get_recent_events(store: &EventStore) -> (r: Vec<StoredEvent>)
    ensures
        r@ == newest(store@.log, RECENT_LIMIT as nat),
{
    store.recent(RECENT_LIMIT)
}

/// Deletes the events of `session_id` and replies OK, whether or not any
/// matched, with the notice of the deletion.
pub fn delete_session(store: &mut EventStore, session_id: String) -> (r: (u16, Notification))
    requires
        old(store).wf(),
    ensures
        final(store).wf(),
        final(store)@ == (StoreModel {
            log: without_session(old(store)@.log, session_id@),
            next_id: old(store)@.next_id,
        }),
        r.0 == STATUS_OK,
        r.1 == Notification::SessionDeleted(session_id),
{
    store.delete_session(&session_id);
    (STATUS_OK, Notification::SessionDeleted(session_id))
}

/// Clears the store and replies OK, with the notice of the clear.
pub fn clear_events(store: &mut EventStore) -> (r: (u16, Notification))
    ensures
        final(store).wf(),
        final(store)@ == fresh_model(),
        r.0 == STATUS_OK,
        r.1 == Notification::EventsCleared,
{
    store.clear();
    (STATUS_OK, Notification::EventsCleared)
}

} // verus!
