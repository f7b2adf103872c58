use vstd::prelude::*;
use crate::event::{HookEvent, StoredEvent, stamped};

verus! {

/// The most events the store keeps; older ones are evicted first.
pub const CAPACITY: usize = 1000;

/// How many of the newest events a recent query returns at most.
pub const RECENT_LIMIT: usize = 500;

/// What a store holds: its log, oldest first, and the id the next event gets.
pub struct StoreModel {
    pub log: Seq<StoredEvent>,
    pub next_id: nat,
}

/// The model of a store that was just created or cleared.
pub open spec fn fresh_model() -> StoreModel {
    StoreModel { log: Seq::empty(), next_id: 1 }
}

/// The last `CAPACITY` events of `s`, or all of them if there are fewer.
pub open spec fn keep_newest(s: Seq<StoredEvent>) -> Seq<StoredEvent> {
    if s.len() > CAPACITY {
        s.subrange(s.len() - CAPACITY, s.len() as int)
    } else {
        s
    }
}

/// The last `min(limit, s.len())` events of `s`, in their order.
pub open spec fn newest(s: Seq<StoredEvent>, limit: nat) -> Seq<StoredEvent> {
    if s.len() > limit {
        s.subrange(s.len() - limit, s.len() as int)
    } else {
        s
    }
}

/// The event that appending `e` at `created_at` adds to a store in state `m`.
pub open spec fn next_record(m: StoreModel, e: HookEvent, created_at: String) -> StoredEvent {
    stamped(e, m.next_id as u64, created_at)
}

/// The state after appending `e` at `created_at` to a store in state `m`.
pub open spec fn appended(m: StoreModel, e: HookEvent, created_at: String) -> StoreModel {
    StoreModel {
        log: keep_newest(m.log.push(next_record(m, e, created_at))),
        next_id: m.next_id + 1,
    }
}

/// Holds of the events that do not belong to session `sid`.
pub open spec fn other_session(sid: Seq<char>) -> spec_fn(StoredEvent) -> bool {
    |e: StoredEvent| e.session_id@ != sid
}

/// The log without the events of session `sid`, the others in their order.
pub open spec fn without_session(log: Seq<StoredEvent>, sid: Seq<char>) -> Seq<StoredEvent> {
    log.filter(other_session(sid))
}

/// Ids strictly increase along `s`.
pub open spec fn ids_ascending(s: Seq<StoredEvent>) -> bool {
    forall|i: int, j: int| 0 <= i < j < s.len() ==> s[i].id < s[j].id
}

/// The invariant of a store: within capacity, ids strictly increasing and
/// all below the next id, which is at least 1.
pub open spec fn model_wf(m: StoreModel) -> bool {
    &&& m.log.len() <= CAPACITY
    &&& m.next_id >= 1
    &&& ids_ascending(m.log)
    &&& forall|i: int| 0 <= i < m.log.len() ==> m.log[i].id < m.next_id
}

/// A capacity-bounded log of events with sequential id assignment.
pub struct EventStore {
    events: Vec<StoredEvent>,
    next_id: u64,
}

impl View for EventStore {
    type V = StoreModel;

    closed spec fn view(&self) -> StoreModel {
        StoreModel { log: self.events@, next_id: self.next_id as nat }
    }
}

/// Relies on chrono's `Utc::now` and `DateTime::to_rfc3339`: the current time
/// as an RFC 3339 string. It depends on the clock, so nothing is stated of it.
#[verifier::external_body]
fn now_rfc3339() -> (r: String) {
    chrono::Utc::now().to_rfc3339()
}

impl EventStore {
    pub open spec fn wf(&self) -> bool {
        model_wf(self@)
    }

    /// An empty store whose next event gets id 1.
    pub fn new() -> (r: EventStore)
        ensures
            r@ == fresh_model(),
            r.wf(),
    {
        EventStore { events: Vec::new(), next_id: 1 }
    }

    /// Number of events held.
    pub fn len(&self) -> (r: usize)
        ensures
            r == self@.log.len(),
    {
        self.events.len()
    }

    /// The id the next appended event receives.
    pub fn next_id(&self) -> (r: u64)
        ensures
            r == self@.next_id,
    {
        self.next_id
    }

    /// Whether another id can be given out without leaving `u64`.
    pub fn can_append(&self) -> (r: bool)
        ensures
            r == (self@.next_id < u64::MAX),
    {
        self.next_id < u64::MAX
    }

    /// Appends `e`, taken in at `created_at`, under the next id, evicting the
    /// oldest event when the store would exceed its capacity.
    pub fn append_at(&mut self, e: HookEvent, created_at: String) -> (r: StoredEvent)
        requires
            old(self).wf(),
            old(self)@.next_id < u64::MAX,
        ensures
            final(self).wf(),
            r == next_record(old(self)@, e, created_at),
            final(self)@ == appended(old(self)@, e, created_at),
    {
        let ghost m = self@;
        let id = self.next_id;
        self.next_id = id + 1;
        let rec = e.into_stored(id, created_at);
        self.events.push(rec.clone());
        if self.events.len() > CAPACITY {
            self.events.remove(0);
            assert(self.events@ =~= keep_newest(m.log.push(rec)));
        }
        assert(self@.log =~= keep_newest(m.log.push(rec)));
        rec
    }

    /// Appends `e` under the next id, stamped with the current time.
    pub fn append(&mut self, e: HookEvent) -> (r: StoredEvent)
        requires
            old(self).wf(),
            old(self)@.next_id < u64::MAX,
        ensures
            final(self).wf(),
            r == next_record(old(self)@, e, r.created_at),
            final(self)@ == appended(old(self)@, e, r.created_at),
    {
        let created_at = now_rfc3339();
        self.append_at(e, created_at)
    }

    /// The newest `min(limit, len)` events, oldest first.
    pub fn recent(&self, limit: usize) -> (r: Vec<StoredEvent>)
        ensures
            r@ == newest(self@.log, limit as nat),
    {
        let n = self.events.len();
        let start: usize = if n > limit { n - limit } else { 0 };
        let mut out: Vec<StoredEvent> = Vec::new();
        let mut i: usize = start;
        while i < n
            invariant
                n == self.events.len(),
                start <= i <= n,
                out@ =~= self.events@.subrange(start as int, i as int),
            decreases n - i,
        {
            out.push(self.events[i].clone());
            i += 1;
            assert(out@ =~= self.events@.subrange(start as int, i as int));
        }
        assert(out@ =~= newest(self@.log, limit as nat));
        out
    }

    /// Removes every event of session `sid`, keeping the others in order.
    pub fn delete_session(&mut self, sid: &String)
        requires
            old(self).wf(),
        ensures
            final(self).wf(),
            final(self)@ == (StoreModel {
                log: without_session(old(self)@.log, sid@),
                next_id: old(self)@.next_id,
            }),
    {
        let ghost pred = other_session(sid@);
        let mut kept: Vec<StoredEvent> = Vec::new();
        let n = self.events.len();
        let mut i: usize = 0;
        while i < n
            invariant
                n == self.events.len(),
                i <= n,
                pred == other_session(sid@),
                kept@ == self.events@.subrange(0, i as int).filter(pred),
            decreases n - i,
        {
            let ghost before = self.events@.subrange(0, i as int);
            let ghost after = self.events@.subrange(0, i as int + 1);
            assert(after.drop_last() =~= before);
            assert(after.last() == self.events@[i as int]);
            reveal(Seq::filter);
            if self.events[i].session_id != *sid {
                kept.push(self.events[i].clone());
            }
            i += 1;
        }
        assert(self.events@.subrange(0, n as int) =~= self.events@);
        proof {
            lemma_filter_keeps_order(self.events@, pred);
            self.events@.lemma_filter_len(pred);
        }
        self.events = kept;
    }

    /// Empties the store; the next event gets id 1 again.
    pub fn clear(&mut self)
        ensures
            final(self)@ == fresh_model(),
            final(self).wf(),
    {
        self.events.clear();
        self.next_id = 1;
    }
}

/// Filtering keeps ascending ids ascending, and each element of the result
/// is an element of `s`.
pub proof fn lemma_filter_keeps_order(s: Seq<StoredEvent>, pred: spec_fn(StoredEvent) -> bool)
    ensures
        ids_ascending(s) ==> ids_ascending(s.filter(pred)),
        forall|i: int| 0 <= i < s.filter(pred).len() ==> s.contains(#[trigger] s.filter(pred)[i]),
    decreases s.len(),
{
    reveal(Seq::filter);
    if s.len() > 0 {
        lemma_filter_keeps_order(s.drop_last(), pred);
        let f = s.filter(pred);
        let g = s.drop_last().filter(pred);
        assert forall|i: int| 0 <= i < f.len() implies s.contains(#[trigger] f[i]) by {
            if i < g.len() {
                assert(f[i] == g[i]);
                let k = choose|k: int| 0 <= k < s.drop_last().len() && s.drop_last()[k] == g[i];
                assert(s[k] == f[i]);
            } else {
                assert(f[i] == s.last());
                assert(s[s.len() - 1] == f[i]);
            }
        }
        if ids_ascending(s) {
            assert forall|i: int, j: int| 0 <= i < j < f.len() implies f[i].id < f[j].id by {
                assert(f[i] == g[i]);
                if j < g.len() {
                    assert(f[j] == g[j]);
                } else {
                    assert(s.drop_last().contains(g[i]));
                    let k = choose|k: int| 0 <= k < s.drop_last().len() && s.drop_last()[k] == g[i];
                    assert(s[k] == g[i]);
                }
            }
        }
    }
}

/// The state after appending `evs[i]` at `stamps[i]` for each `i` in turn,
/// starting from `m`.
pub open spec fn append_all(m: StoreModel, evs: Seq<HookEvent>, stamps: Seq<String>) -> StoreModel
    decreases evs.len(),
{
    if evs.len() == 0 {
        m
    } else {
        appended(
            append_all(m, evs.drop_last(), stamps.drop_last()),
            evs.last(),
            stamps[evs.len() - 1],
        )
    }
}

/// Ids follow arrival: after `n` appends to a new or cleared store, the next
/// id is `n + 1` and the store holds the newest `min(n, CAPACITY)` events,
/// the event that arrived `j`-th (from 0) under id `j + 1`. So ids run
/// `1..=n` without gap or repeat, and past capacity exactly the most recent
/// `CAPACITY` events remain.
pub proof fn lemma_ids_follow_arrival(evs: Seq<HookEvent>, stamps: Seq<String>)
    requires
        evs.len() == stamps.len(),
        evs.len() < u64::MAX,
    ensures
        ({
            let m = append_all(fresh_model(), evs, stamps);
            let n = evs.len();
            let k = m.log.len();
            &&& m.next_id == n + 1
            &&& k == if n > CAPACITY { CAPACITY as nat } else { n }
            &&& forall|i: int|
                0 <= i < k ==> #[trigger] m.log[i] == stamped(
                    evs[n - k + i],
                    (n - k + i + 1) as u64,
                    stamps[n - k + i],
                )
        }),
    decreases evs.len(),
{
    let n = evs.len();
    if n > 0 {
        let pe = evs.drop_last();
        let ps = stamps.drop_last();
        lemma_ids_follow_arrival(pe, ps);
        let m0 = append_all(fresh_model(), pe, ps);
        let m = append_all(fresh_model(), evs, stamps);
        let k0 = m0.log.len();
        let k = m.log.len();
        let pushed = m0.log.push(next_record(m0, evs.last(), stamps[n - 1]));
        assert(m.log == keep_newest(pushed));
        assert forall|i: int| 0 <= i < k implies #[trigger] m.log[i] == stamped(
            evs[n - k + i],
            (n - k + i + 1) as u64,
            stamps[n - k + i],
        ) by {
            let j = pushed.len() - k + i;
            assert(m.log[i] == pushed[j]);
            if j < k0 {
                assert(m0.log[j] == stamped(pe[n - 1 - k0 + j], (n - 1 - k0 + j + 1) as u64, ps[n - 1 - k0 + j]));
            }
        }
    }
}

/// A recent query of a well-formed store is a suffix of its log, of length
/// `min(limit, len)`, with strictly ascending ids.
pub proof fn lemma_recent_is_ordered_suffix(m: StoreModel, limit: nat)
    requires
        model_wf(m),
    ensures
        ({
            let r = newest(m.log, limit);
            &&& r.len() == if m.log.len() > limit { limit } else { m.log.len() }
            &&& r == m.log.subrange(m.log.len() - r.len(), m.log.len() as int)
            &&& ids_ascending(r)
        }),
{
    let r = newest(m.log, limit);
    if m.log.len() <= limit {
        assert(m.log.subrange(0, m.log.len() as int) =~= m.log);
    }
    assert forall|i: int, j: int| 0 <= i < j < r.len() implies r[i].id < r[j].id by {
        let off = m.log.len() - r.len();
        assert(r[i] == m.log[off + i]);
        assert(r[j] == m.log[off + j]);
    }
}

/// Deleting session `sid` leaves no event of it, keeps every other event,
/// in ascending id order as before, and changes nothing when no event
/// belongs to `sid`.
pub proof fn lemma_delete_session_effect(m: StoreModel, sid: Seq<char>)
    requires
        model_wf(m),
    ensures
        ({
            let r = without_session(m.log, sid);
            &&& forall|i: int| 0 <= i < r.len() ==> (#[trigger] r[i]).session_id@ != sid
            &&& forall|i: int|
                0 <= i < m.log.len() && (#[trigger] m.log[i]).session_id@ != sid ==> r.contains(
                    m.log[i],
                )
            &&& ids_ascending(r)
            &&& (forall|i: int| 0 <= i < m.log.len() ==> (#[trigger] m.log[i]).session_id@ != sid)
                ==> r == m.log
        }),
{
    let pred = other_session(sid);
    let r = without_session(m.log, sid);
    broadcast use vstd::seq_lib::group_filter_ensures;
    lemma_filter_keeps_order(m.log, pred);
    assert forall|i: int| 0 <= i < r.len() implies (#[trigger] r[i]).session_id@ != sid by {
        assert(pred(r[i]));
    }
    assert forall|i: int|
        0 <= i < m.log.len() && (#[trigger] m.log[i]).session_id@ != sid implies r.contains(
        m.log[i],
    ) by {
        assert(pred(m.log[i]));
    }
    if forall|i: int| 0 <= i < m.log.len() ==> (#[trigger] m.log[i]).session_id@ != sid {
        lemma_filter_all_kept(m.log, pred);
    }
}

/// Filtering by a predicate that every element meets changes nothing.
proof fn lemma_filter_all_kept(s: Seq<StoredEvent>, pred: spec_fn(StoredEvent) -> bool)
    requires
        forall|i: int| 0 <= i < s.len() ==> pred(#[trigger] s[i]),
    ensures
        s.filter(pred) == s,
    decreases s.len(),
{
    reveal(Seq::filter);
    if s.len() > 0 {
        assert forall|i: int| 0 <= i < s.drop_last().len() implies pred(#[trigger] s.drop_last()[i]) by {
            assert(s.drop_last()[i] == s[i]);
        }
        lemma_filter_all_kept(s.drop_last(), pred);
        assert(pred(s[s.len() - 1]));
        assert(s.drop_last().push(s.last()) =~= s);
    }
}

/// After a clear, the store is empty and the next appended event gets id 1
/// and is then the only event held.
pub proof fn lemma_clear_then_append(e: HookEvent, created_at: String)
    ensures
        fresh_model().log.len() == 0,
        next_record(fresh_model(), e, created_at).id == 1,
        appended(fresh_model(), e, created_at).log == seq![stamped(e, 1, created_at)],
        appended(fresh_model(), e, created_at).next_id == 2,
{
    assert(appended(fresh_model(), e, created_at).log =~= seq![stamped(e, 1, created_at)]);
}

} // verus!
