//! Session-to-endpoint bindings with a sliding time to live and a bounded
//! number of entries.
//!
//! Times are nanoseconds on a monotonic clock that the caller reads.

use std::collections::VecDeque;

use dashmap::DashMap;
use vstd::prelude::*;

verus! {

/// Second chances granted per eviction under the LRU policy.
pub const EVICTION_SECOND_CHANCES: usize = 8;

/// Nanoseconds in a millisecond.
pub const NANOS_PER_MILLI: u64 = 1_000_000;

/// How a victim is picked when the store is full.
#[derive(Clone, Copy, Debug, PartialEq, Eq, Structural)]
pub enum EvictionPolicy {
    /// Recently accessed entries get a second chance.
    Lru,
    /// The oldest created entry goes first.
    Ttl,
}

/// A session's binding.
#[derive(Clone)]
pub struct SessionEntry {
    /// The upstream endpoint the session is pinned to.
    pub endpoint: String,
    /// When the entry was last accessed.
    pub last_accessed: u64,
    /// When the entry's key was last placed in the eviction queue.
    pub enqueued_at: u64,
    /// Generation of the entry's current occurrence in the eviction queue.
    pub generation: u64,
}

/// A session's binding, as a value.
pub ghost struct EntryView {
    /// The pinned endpoint.
    pub endpoint: Seq<char>,
    /// Last access.
    pub last_accessed: u64,
    /// Last enqueue.
    pub enqueued_at: u64,
    /// Current queue generation.
    pub generation: u64,
}

impl View for SessionEntry {
    type V = EntryView;

    open spec fn view(&self) -> EntryView {
        EntryView {
            endpoint: self.endpoint@,
            last_accessed: self.last_accessed,
            enqueued_at: self.enqueued_at,
            generation: self.generation,
        }
    }
}

/// Time from `earlier` to `now`, zero when `earlier` is later.
pub open spec fn elapsed(now: u64, earlier: u64) -> u64 {
    if now >= earlier {
        (now - earlier) as u64
    } else {
        0
    }
}

/// Whether an entry was idle for the whole time to live.
pub open spec fn expired(entry: EntryView, now: u64, ttl: u64) -> bool {
    elapsed(now, entry.last_accessed) >= ttl
}

/// Whether an entry was idle for the whole time to live.
pub fn entry_expired(entry: &SessionEntry, now: u64, ttl: u64) -> (r: bool)
    ensures
        r == expired(entry@, now, ttl),
{
    now.saturating_sub(entry.last_accessed) >= ttl
}

/// Whether an entry was accessed within the time to live.
pub fn entry_fresh(entry: &SessionEntry, now: u64, ttl: u64) -> (r: bool)
    ensures
        r == !expired(entry@, now, ttl),
{
    now.saturating_sub(entry.last_accessed) < ttl
}

// The concurrent map.

/// `dashmap::DashMap`, a concurrent hash map.
#[verifier::external_type_specification]
#[verifier::external_body]
#[verifier::reject_recursive_types(K)]
#[verifier::reject_recursive_types(V)]
#[verifier::reject_recursive_types(S)]
pub struct ExDashMap<K, V, S>(DashMap<K, V, S>);

/// The bindings that a map holds, by session key.
pub uninterp spec fn bindings(map: DashMap<String, SessionEntry>) -> Map<Seq<char>, EntryView>;

/// No bindings.
pub open spec fn no_entries() -> Map<Seq<char>, EntryView> {
    Map::empty()
}

/// `DashMap::with_capacity`: a map without entries. Far larger capacities than
/// those asked for here could not be allocated.
#[verifier::external_body]
fn map_with_capacity(capacity: usize) -> (r: DashMap<String, SessionEntry>)
    requires
        capacity <= 1024,
    ensures
        bindings(r) == no_entries(),
{
    DashMap::with_capacity(capacity)
}

/// `DashMap::get`: a copy of the entry under `key`, if there is one.
#[verifier::external_body]
fn map_get(map: &DashMap<String, SessionEntry>, key: &str) -> (r: Option<SessionEntry>)
    ensures
        r is Some <==> bindings(*map).dom().contains(key@),
        r matches Some(entry) ==> entry@ == bindings(*map)[key@],
{
    map.get(key).map(|entry| entry.value().clone())
}

/// `DashMap::get_mut`: overwrites the entry under `key` where there is one;
/// a map without that key stays as it is.
#[verifier::external_body]
fn map_set_existing(map: &mut DashMap<String, SessionEntry>, key: &str, entry: SessionEntry)
    ensures
        bindings(*old(map)).dom().contains(key@) ==> bindings(*final(map)) == bindings(
            *old(map),
        ).insert(key@, entry@),
        !bindings(*old(map)).dom().contains(key@) ==> bindings(*final(map)) == bindings(*old(map)),
{
    if let Some(mut slot) = map.get_mut(key) {
        *slot = entry;
    }
}

/// `DashMap::insert`: binds `key` to `entry`, replacing an earlier binding.
#[verifier::external_body]
fn map_insert(map: &mut DashMap<String, SessionEntry>, key: String, entry: SessionEntry)
    ensures
        bindings(*final(map)) == bindings(*old(map)).insert(key@, entry@),
{
    map.insert(key, entry);
}

/// `DashMap::remove`: drops the binding of `key`, if there is one.
#[verifier::external_body]
fn map_remove(map: &mut DashMap<String, SessionEntry>, key: &str)
    ensures
        bindings(*final(map)) == bindings(*old(map)).remove(key@),
{
    map.remove(key);
}

/// `DashMap::remove_if` with the expiry test: drops the binding of `key` where
/// it is expired as of `now`, and says whether it did.
#[verifier::external_body]
fn map_remove_if_expired(
    map: &mut DashMap<String, SessionEntry>,
    key: &str,
    now: u64,
    ttl: u64,
) -> (r: bool)
    ensures
        r == (bindings(*old(map)).dom().contains(key@) && expired(
            bindings(*old(map))[key@],
            now,
            ttl,
        )),
        r ==> bindings(*final(map)) == bindings(*old(map)).remove(key@),
        !r ==> bindings(*final(map)) == bindings(*old(map)),
{
    map.remove_if(key, |_, entry| entry_expired(entry, now, ttl)).is_some()
}

/// `DashMap::retain` with the freshness test: keeps the bindings that are not
/// expired as of `now`.
#[verifier::external_body]
fn map_retain_fresh(map: &mut DashMap<String, SessionEntry>, now: u64, ttl: u64)
    ensures
        bindings(*final(map)) == fresh_entries(bindings(*old(map)), now, ttl),
{
    map.retain(|_, entry| entry_fresh(entry, now, ttl));
}

/// `DashMap::len`: the number of bindings.
#[verifier::external_body]
fn map_len(map: &DashMap<String, SessionEntry>) -> (r: usize)
    ensures
        r == bindings(*map).dom().len(),
{
    map.len()
}

// The store's model.

/// A session store, as a value.
pub ghost struct StoreView {
    /// Bindings by session key.
    pub entries: Map<Seq<char>, EntryView>,
    /// Queue occurrences, oldest first.
    pub queue: Seq<(Seq<char>, u64)>,
    /// The next queue generation.
    pub next_generation: u64,
    /// When the last opportunistic sweep ran, in milliseconds after `epoch`.
    pub last_sweep_ms: u64,
    /// Upper bound on entries before eviction starts.
    pub max_entries: u64,
    /// Idle timeout.
    pub ttl: u64,
    /// Victim selection.
    pub eviction: EvictionPolicy,
    /// When the store was made.
    pub epoch: u64,
}

/// The entries that are not expired as of `now`.
pub open spec fn fresh_entries(
    entries: Map<Seq<char>, EntryView>,
    now: u64,
    ttl: u64,
) -> Map<Seq<char>, EntryView> {
    entries.restrict(
        entries.dom().filter(|key: Seq<char>| !expired(entries[key], now, ttl)),
    )
}

/// Whether a queue occurrence is the current one of an entry.
pub open spec fn is_live(entries: Map<Seq<char>, EntryView>, occ: (Seq<char>, u64)) -> bool {
    entries.dom().contains(occ.0) && entries[occ.0].generation == occ.1
}

/// Whether an entry earns a second chance: under LRU, not expired and accessed
/// since its enqueue.
pub open spec fn spared(v: StoreView, now: u64, key: Seq<char>) -> bool {
    &&& v.eviction == EvictionPolicy::Lru
    &&& !expired(v.entries[key], now, v.ttl)
    &&& v.entries[key].last_accessed > v.entries[key].enqueued_at
}

/// The generation after `g`.
pub open spec fn following(g: u64) -> u64 {
    if g == u64::MAX {
        0
    } else {
        (g + 1) as u64
    }
}

/// The store after the key at the front of the queue is dropped from it.
pub open spec fn popped(v: StoreView) -> StoreView {
    StoreView { queue: v.queue.skip(1), ..v }
}

/// The store after `key` is enqueued again under a new generation.
pub open spec fn requeued(v: StoreView, now: u64, key: Seq<char>) -> StoreView {
    StoreView {
        entries: v.entries.insert(
            key,
            EntryView { enqueued_at: now, generation: v.next_generation, ..v.entries[key] },
        ),
        queue: v.queue.push((key, v.next_generation)),
        next_generation: following(v.next_generation),
        ..v
    }
}

/// One eviction by the clock algorithm: stale occurrences are discarded, a
/// spared entry is enqueued again while chances remain, and the first other
/// live entry is the victim. The flag says whether there was one.
pub open spec fn evicted(v: StoreView, now: u64, chances: nat) -> (StoreView, bool)
    decreases
            if chances < EVICTION_SECOND_CHANCES {
                EVICTION_SECOND_CHANCES - chances
            } else {
                0
            },
            v.queue.len(),
{
    if v.queue.len() == 0 {
        (v, false)
    } else if !is_live(v.entries, v.queue[0]) {
        evicted(popped(v), now, chances)
    } else if spared(v, now, v.queue[0].0) && chances < EVICTION_SECOND_CHANCES {
        evicted(requeued(popped(v), now, v.queue[0].0), now, chances + 1)
    } else {
        (StoreView { entries: v.entries.remove(v.queue[0].0), ..popped(v) }, true)
    }
}

/// Evictions until the store is below its bound or has no victim.
pub open spec fn with_room(v: StoreView, now: u64) -> StoreView
    decreases v.queue.len(),
    via with_room_decreases
{
    if v.entries.dom().len() < v.max_entries {
        v
    } else {
        let (after, found) = evicted(v, now, 0);
        if found {
            with_room(after, now)
        } else {
            after
        }
    }
}

#[via_fn]
proof fn with_room_decreases(v: StoreView, now: u64) {
    lemma_evicted_queue(v, now, 0);
}

/// The store with only the current occurrences in its queue.
pub open spec fn compacted(v: StoreView) -> StoreView {
    StoreView { queue: v.queue.filter(|occ: (Seq<char>, u64)| is_live(v.entries, occ)), ..v }
}

/// Twice the capacity bound, or the largest count.
pub open spec fn queue_bound(max_entries: u64) -> u64 {
    if 2 * max_entries > u64::MAX {
        u64::MAX
    } else {
        (2 * max_entries) as u64
    }
}

/// The store after an occurrence is pushed, compacted where the queue has
/// outgrown its bound.
pub open spec fn enqueued(v: StoreView, key: Seq<char>, generation: u64) -> StoreView {
    let pushed = StoreView { queue: v.queue.push((key, generation)), ..v };
    if pushed.queue.len() > queue_bound(v.max_entries) {
        compacted(pushed)
    } else {
        pushed
    }
}

/// The store after a binding is written.
pub open spec fn after_put(
    v: StoreView,
    key: Seq<char>,
    endpoint: Seq<char>,
    now: u64,
) -> StoreView {
    if v.entries.dom().contains(key) {
        StoreView {
            entries: v.entries.insert(
                key,
                EntryView { endpoint, last_accessed: now, ..v.entries[key] },
            ),
            ..v
        }
    } else {
        let room = with_room(v, now);
        let generation = room.next_generation;
        enqueued(
            StoreView {
                entries: room.entries.insert(
                    key,
                    EntryView { endpoint, last_accessed: now, enqueued_at: now, generation },
                ),
                next_generation: following(generation),
                ..room
            },
            key,
            generation,
        )
    }
}

/// Milliseconds from the store's epoch to `now`.
pub open spec fn millis_since_epoch(v: StoreView, now: u64) -> u64 {
    elapsed(now, v.epoch) / NANOS_PER_MILLI
}

/// Whether at least half the time to live passed since the last sweep.
pub open spec fn sweep_due(v: StoreView, now: u64) -> bool {
    let now_ms = millis_since_epoch(v, now);
    let since = if now_ms >= v.last_sweep_ms {
        now_ms - v.last_sweep_ms
    } else {
        0
    };
    since >= v.ttl / NANOS_PER_MILLI / 2
}

/// The store after a sweep, if one is due.
pub open spec fn after_maybe_sweep(v: StoreView, now: u64) -> StoreView {
    if sweep_due(v, now) {
        StoreView {
            entries: fresh_entries(v.entries, now, v.ttl),
            last_sweep_ms: millis_since_epoch(v, now),
            ..v
        }
    } else {
        v
    }
}

/// What a lookup answers.
pub open spec fn lookup(v: StoreView, key: Seq<char>, now: u64) -> Option<Seq<char>> {
    if v.entries.dom().contains(key) && !expired(v.entries[key], now, v.ttl) {
        Some(v.entries[key].endpoint)
    } else {
        None
    }
}

/// The store after a lookup: a hit refreshes the entry; a miss drops an
/// expired entry and sweeps where that is due.
pub open spec fn after_get(v: StoreView, key: Seq<char>, now: u64) -> StoreView {
    if lookup(v, key, now) is Some {
        StoreView {
            entries: v.entries.insert(key, EntryView { last_accessed: now, ..v.entries[key] }),
            ..v
        }
    } else {
        after_maybe_sweep(StoreView { entries: v.entries.remove(key), ..v }, now)
    }
}

/// A store's invariant: finitely many entries, each with its current
/// occurrence in the queue.
pub open spec fn well_formed(v: StoreView) -> bool {
    &&& v.entries.dom().finite()
    &&& forall|key: Seq<char>| #[trigger]
        v.entries.dom().contains(key) ==> v.queue.contains((key, v.entries[key].generation))
}

proof fn lemma_evicted_queue(v: StoreView, now: u64, chances: nat)
    ensures
        evicted(v, now, chances).1 ==> evicted(v, now, chances).0.queue.len() < v.queue.len(),
        !evicted(v, now, chances).1 ==> evicted(v, now, chances).0.queue.len() == 0,
    decreases
            if chances < EVICTION_SECOND_CHANCES {
                EVICTION_SECOND_CHANCES - chances
            } else {
                0
            },
            v.queue.len(),
{
    if v.queue.len() == 0 {
    } else if !is_live(v.entries, v.queue[0]) {
        lemma_evicted_queue(popped(v), now, chances);
    } else if spared(v, now, v.queue[0].0) && chances < EVICTION_SECOND_CHANCES {
        lemma_evicted_queue(requeued(popped(v), now, v.queue[0].0), now, chances + 1);
    }
}

/// The queue's occurrences, as values.
pub open spec fn queue_view(queue: Seq<(String, u64)>) -> Seq<(Seq<char>, u64)> {
    queue.map_values(|occ: (String, u64)| (occ.0@, occ.1))
}

/// A bounded session-to-endpoint mapping with a sliding time to live.
pub struct SessionStore {
    map: DashMap<String, SessionEntry>,
    max_entries: u64,
    ttl: u64,
    eviction: EvictionPolicy,
    last_sweep_ms: u64,
    epoch: u64,
    eviction_queue: VecDeque<(String, u64)>,
    next_generation: u64,
}

impl View for SessionStore {
    type V = StoreView;

    closed spec fn view(&self) -> StoreView {
        StoreView {
            entries: bindings(self.map),
            queue: queue_view(self.eviction_queue@),
            next_generation: self.next_generation,
            last_sweep_ms: self.last_sweep_ms,
            max_entries: self.max_entries,
            ttl: self.ttl,
            eviction: self.eviction,
            epoch: self.epoch,
        }
    }
}

impl SessionStore {
    /// A store without bindings, made at `now`.
    pub fn new(max_entries: u64, ttl: u64, eviction: EvictionPolicy, now: u64) -> (r: SessionStore)
        ensures
            r@ == empty_store(StoreBounds { max_entries, ttl, eviction }, now),
            well_formed(r@),
    {
        let capacity: usize = if max_entries < 1024 {
            max_entries as usize
        } else {
            1024
        };
        let r = SessionStore {
            map: map_with_capacity(capacity),
            max_entries,
            ttl,
            eviction,
            last_sweep_ms: 0,
            epoch: now,
            eviction_queue: VecDeque::new(),
            next_generation: 0,
        };
        proof {
            assert(r@.queue =~= Seq::empty());
        }
        r
    }

    /// Evicts one entry by the clock algorithm and says whether it did.
    pub fn evict_one(&mut self, now: u64) -> (r: bool)
        ensures
            (final(self)@, r) == evicted(old(self)@, now, 0),
    {
        let mut chances: usize = 0;
        while self.eviction_queue.len() > 0
            invariant
                chances <= EVICTION_SECOND_CHANCES,
                evicted(self@, now, chances as nat) == evicted(old(self)@, now, 0),
            decreases EVICTION_SECOND_CHANCES - chances, self.eviction_queue@.len(),
        {
            let ghost before = self@;
            let occ = self.eviction_queue.pop_front();
            match occ {
                None => {
                    return false;
                },
                Some((key, generation)) => {
                    proof {
                        assert(before.queue[0] == (key@, generation));
                        assert(self@.queue =~= before.queue.skip(1));
                        assert(self@ == popped(before));
                    }
                    match map_get(&self.map, key.as_str()) {
                        None => {},
                        Some(entry) => {
                            if entry.generation == generation {
                                let spare = match self.eviction {
                                    EvictionPolicy::Lru => !entry_expired(&entry, now, self.ttl)
                                        && entry.last_accessed > entry.enqueued_at && chances
                                        < EVICTION_SECOND_CHANCES,
                                    EvictionPolicy::Ttl => false,
                                };
                                if !spare {
                                    map_remove(&mut self.map, key.as_str());
                                    return true;
                                }
                                chances += 1;
                                let regeneration: u64 = self.next_generation;
                                self.next_generation = self.next_generation.wrapping_add(1);
                                map_set_existing(
                                    &mut self.map,
                                    key.as_str(),
                                    SessionEntry {
                                        endpoint: entry.endpoint,
                                        last_accessed: entry.last_accessed,
                                        enqueued_at: now,
                                        generation: regeneration,
                                    },
                                );
                                let ghost mid = self.eviction_queue@;
                                self.eviction_queue.push_back((key, regeneration));
                                proof {
                                    assert(self@.queue =~= queue_view(mid).push(
                                        (key@, regeneration),
                                    ));
                                    assert(self@ == requeued(popped(before), now, key@));
                                }
                            }
                        },
                    }
                },
            }
        }
        false
    }

    /// Evicts until the store is below its bound or has no victim.
    fn make_room(&mut self, now: u64)
        ensures
            final(self)@ == with_room(old(self)@, now),
    {
        while map_len(&self.map) as u64 >= self.max_entries
            invariant_except_break
                with_room(self@, now) == with_room(old(self)@, now),
            ensures
                self@ == with_room(old(self)@, now),
            decreases self.eviction_queue@.len(),
        {
            proof {
                lemma_evicted_queue(self@, now, 0);
            }
            if !self.evict_one(now) {
                break;
            }
        }
    }

    /// Pushes a queue occurrence, compacting the queue where it has outgrown
    /// twice the capacity bound.
    fn enqueue_occurrence(&mut self, key: String, generation: u64)
        ensures
            final(self)@ == enqueued(old(self)@, key@, generation),
    {
        let ghost start = self@;
        self.eviction_queue.push_back((key, generation));
        proof {
            assert(self@.queue =~= start.queue.push((key@, generation)));
        }
        let bound: u64 = if self.max_entries > u64::MAX / 2 {
            u64::MAX
        } else {
            self.max_entries * 2
        };
        if self.eviction_queue.len() as u64 > bound {
            self.compact();
        }
    }

    /// Drops the stale occurrences from the queue.
    fn compact(&mut self)
        ensures
            final(self)@ == compacted(old(self)@),
    {
        let ghost start = self@;
        let ghost live = |occ: (Seq<char>, u64)| is_live(start.entries, occ);
        let mut kept: VecDeque<(String, u64)> = VecDeque::new();
        let ghost mut done: Seq<(Seq<char>, u64)> = Seq::empty();
        proof {
            assert(queue_view(kept@) =~= done.filter(live)) by {
                reveal(Seq::filter);
            }
            assert(done + self@.queue =~= start.queue);
        }
        while self.eviction_queue.len() > 0
            invariant
                start.entries == bindings(self.map),
                live == (|occ: (Seq<char>, u64)| is_live(start.entries, occ)),
                queue_view(kept@) == done.filter(live),
                done + queue_view(self.eviction_queue@) == start.queue,
                self@ == (StoreView { queue: queue_view(self.eviction_queue@), ..start }),
            decreases self.eviction_queue@.len(),
        {
            let ghost rest = queue_view(self.eviction_queue@);
            match self.eviction_queue.pop_front() {
                None => {},
                Some((key, generation)) => {
                    proof {
                        assert(rest[0] == (key@, generation));
                        assert(queue_view(self.eviction_queue@) =~= rest.skip(1));
                        assert(done.push(rest[0]).drop_last() =~= done);
                        reveal(Seq::filter);
                        done = done.push(rest[0]);
                        assert(done + rest.skip(1) =~= start.queue);
                    }
                    let current = match map_get(&self.map, key.as_str()) {
                        Some(entry) => entry.generation == generation,
                        None => false,
                    };
                    if current {
                        let ghost before = kept@;
                        kept.push_back((key, generation));
                        proof {
                            assert(queue_view(kept@) =~= queue_view(before).push(
                                (key@, generation),
                            ));
                        }
                    }
                },
            }
        }
        self.eviction_queue = kept;
        proof {
            assert(done =~= start.queue);
        }
    }

    /// Writes a binding at `now`. A new key evicts down to the capacity bound
    /// first; an update keeps the entry's place in the eviction queue.
    pub fn put(&mut self, key: &str, endpoint: String, now: u64)
        ensures
            final(self)@ == after_put(old(self)@, key@, endpoint@, now),
            well_formed(old(self)@) ==> well_formed(final(self)@),
    {
        proof {
            if well_formed(self@) {
                lemma_put_well_formed(self@, key@, endpoint@, now);
            }
        }
        match map_get(&self.map, key) {
            Some(existing) => {
                map_set_existing(
                    &mut self.map,
                    key,
                    SessionEntry {
                        endpoint,
                        last_accessed: now,
                        enqueued_at: existing.enqueued_at,
                        generation: existing.generation,
                    },
                );
            },
            None => {
                self.make_room(now);
                let generation: u64 = self.next_generation;
                self.next_generation = self.next_generation.wrapping_add(1);
                map_insert(
                    &mut self.map,
                    key.to_owned(),
                    SessionEntry { endpoint, last_accessed: now, enqueued_at: now, generation },
                );
                self.enqueue_occurrence(key.to_owned(), generation);
            },
        }
    }

    /// The endpoint a session is pinned to, as of `now`.
    pub fn get(&mut self, key: &str, now: u64) -> (r: Option<String>)
        ensures
            crate::headers::opt_text(r) == lookup(old(self)@, key@, now),
            final(self)@ == after_get(old(self)@, key@, now),
            well_formed(old(self)@) ==> well_formed(final(self)@),
    {
        proof {
            if well_formed(self@) {
                lemma_get_well_formed(self@, key@, now);
            }
        }
        match map_get(&self.map, key) {
            None => {
                proof {
                    assert(self@.entries.remove(key@) =~= self@.entries);
                }
                self.maybe_sweep(now);
                None
            },
            Some(entry) => {
                if entry_expired(&entry, now, self.ttl) {
                    self.remove_if_expired(key, now);
                    self.maybe_sweep(now);
                    return None;
                }
                let endpoint = entry.endpoint.clone();
                map_set_existing(
                    &mut self.map,
                    key,
                    SessionEntry {
                        endpoint: entry.endpoint,
                        last_accessed: now,
                        enqueued_at: entry.enqueued_at,
                        generation: entry.generation,
                    },
                );
                Some(endpoint)
            },
        }
    }

    /// Drops the binding of `key` where it is still expired as of `now`, and
    /// says whether it did. A binding refreshed since is left alone.
    pub fn remove_if_expired(&mut self, key: &str, now: u64) -> (r: bool)
        ensures
            r == (old(self)@.entries.dom().contains(key@) && expired(
                old(self)@.entries[key@],
                now,
                old(self)@.ttl,
            )),
            r ==> final(self)@ == (StoreView {
                entries: old(self)@.entries.remove(key@),
                ..old(self)@
            }),
            !r ==> final(self)@ == old(self)@,
            well_formed(old(self)@) ==> well_formed(final(self)@),
    {
        map_remove_if_expired(&mut self.map, key, now, self.ttl)
    }

    /// Sweeps where at least half the time to live passed since the last sweep.
    pub fn maybe_sweep(&mut self, now: u64)
        ensures
            final(self)@ == after_maybe_sweep(old(self)@, now),
            well_formed(old(self)@) ==> well_formed(final(self)@),
    {
        let now_ms: u64 = now.saturating_sub(self.epoch) / NANOS_PER_MILLI;
        let interval: u64 = self.ttl / NANOS_PER_MILLI / 2;
        if now_ms.saturating_sub(self.last_sweep_ms) >= interval {
            self.last_sweep_ms = now_ms;
            self.sweep_expired(now);
        }
    }

    /// Drops the bindings that are expired as of `now`.
    pub fn sweep_expired(&mut self, now: u64)
        ensures
            final(self)@ == (StoreView {
                entries: fresh_entries(old(self)@.entries, now, old(self)@.ttl),
                ..old(self)@
            }),
            well_formed(old(self)@) ==> well_formed(final(self)@),
    {
        map_retain_fresh(&mut self.map, now, self.ttl);
        proof {
            if well_formed(old(self)@) {
                assert(self@.entries.dom().subset_of(old(self)@.entries.dom()));
                vstd::set_lib::lemma_len_subset(self@.entries.dom(), old(self)@.entries.dom());
            }
        }
    }

    /// Drops a binding.
    pub fn remove(&mut self, key: &str)
        ensures
            final(self)@ == (StoreView {
                entries: old(self)@.entries.remove(key@),
                ..old(self)@
            }),
            well_formed(old(self)@) ==> well_formed(final(self)@),
    {
        map_remove(&mut self.map, key);
    }

    /// The number of bindings, expired ones included.
    pub fn len(&self) -> (r: usize)
        ensures
            r == self@.entries.dom().len(),
    {
        map_len(&self.map)
    }

    /// Whether there is no binding.
    pub fn is_empty(&self) -> (r: bool)
        ensures
            r == (self@.entries.dom().len() == 0),
    {
        map_len(&self.map) == 0
    }

    /// The length of the eviction queue.
    pub fn eviction_queue_len(&self) -> (r: usize)
        ensures
            r == self@.queue.len(),
    {
        self.eviction_queue.len()
    }

    /// The bounds that the store was made with.
    pub fn bounds(&self) -> (r: StoreBounds)
        ensures
            r == bounds_of(self@),
    {
        StoreBounds { max_entries: self.max_entries, ttl: self.ttl, eviction: self.eviction }
    }
}

// What the operations keep.

/// Whether two states of an entry pin the same endpoint with the same last
/// access.
pub open spec fn same_binding(a: EntryView, b: EntryView) -> bool {
    a.endpoint == b.endpoint && a.last_accessed == b.last_accessed
}

/// Whether `after` holds the bindings of `before` without that of `victim`.
pub open spec fn drops_only(before: StoreView, after: StoreView, victim: Seq<char>) -> bool {
    &&& before.entries.dom().contains(victim)
    &&& after.entries.dom() == before.entries.dom().remove(victim)
    &&& forall|key: Seq<char>| #[trigger]
        after.entries.dom().contains(key) ==> same_binding(before.entries[key], after.entries[key])
}

/// An eviction keeps the store well formed. It finds a victim wherever there
/// is an entry, and every other binding survives it.
pub proof fn law_eviction(v: StoreView, now: u64, chances: nat)
    requires
        well_formed(v),
    ensures
        well_formed(evicted(v, now, chances).0),
        evicted(v, now, chances).1 <==> v.entries.dom().len() > 0,
        evicted(v, now, chances).1 ==> exists|victim: Seq<char>| #[trigger]
            drops_only(v, evicted(v, now, chances).0, victim),
        !evicted(v, now, chances).1 ==> evicted(v, now, chances).0.entries == v.entries,
        same_bounds(v, evicted(v, now, chances).0),
    decreases
            if chances < EVICTION_SECOND_CHANCES {
                EVICTION_SECOND_CHANCES - chances
            } else {
                0
            },
            v.queue.len(),
{
    let after = evicted(v, now, chances).0;
    if v.queue.len() == 0 {
        if v.entries.dom().len() > 0 {
            let key = v.entries.dom().choose();
            assert(v.entries.dom().contains(key));
            assert(v.queue.contains((key, v.entries[key].generation)));
        }
    } else if !is_live(v.entries, v.queue[0]) {
        lemma_pop_stale(v);
        law_eviction(popped(v), now, chances);
        if evicted(v, now, chances).1 {
            let victim = choose|victim: Seq<char>| #[trigger]
                drops_only(popped(v), after, victim);
            assert(drops_only(v, after, victim));
        }
    } else if spared(v, now, v.queue[0].0) && chances < EVICTION_SECOND_CHANCES {
        let key = v.queue[0].0;
        let next = requeued(popped(v), now, key);
        lemma_requeue(v, now);
        law_eviction(next, now, chances + 1);
        assert(next.entries.dom() =~= v.entries.dom());
        if evicted(v, now, chances).1 {
            let victim = choose|victim: Seq<char>| #[trigger] drops_only(next, after, victim);
            assert forall|k: Seq<char>| #[trigger]
                after.entries.dom().contains(k) implies same_binding(
                v.entries[k],
                after.entries[k],
            ) by {
                assert(next.entries.dom().contains(k));
                assert(same_binding(v.entries[k], next.entries[k]));
            }
            assert(drops_only(v, after, victim));
        } else {
            assert(v.entries.dom().contains(key));
            assert(v.entries.dom().len() > 0) by {
                if v.entries.dom().len() == 0 {
                    assert(v.entries.dom() =~= Set::empty());
                }
            }
        }
    } else {
        let key = v.queue[0].0;
        assert(v.entries.dom().len() > 0) by {
            if v.entries.dom().len() == 0 {
                assert(v.entries.dom() =~= Set::empty());
            }
        }
        assert forall|k: Seq<char>| #[trigger]
            after.entries.dom().contains(k) implies after.queue.contains(
            (k, after.entries[k].generation),
        ) by {
            assert(v.entries.dom().contains(k));
            lemma_contains_past_front(v.queue, (k, v.entries[k].generation));
        }
        assert(after.entries.dom() =~= v.entries.dom().remove(key));
        assert(drops_only(v, after, key));
    }
}

/// Whether two states have the same fixed settings.
pub open spec fn same_bounds(a: StoreView, b: StoreView) -> bool {
    &&& a.max_entries == b.max_entries
    &&& a.ttl == b.ttl
    &&& a.eviction == b.eviction
    &&& a.epoch == b.epoch
    &&& a.last_sweep_ms == b.last_sweep_ms
}

proof fn lemma_contains_past_front(queue: Seq<(Seq<char>, u64)>, occ: (Seq<char>, u64))
    requires
        queue.contains(occ),
        queue.len() > 0,
        queue[0] != occ,
    ensures
        queue.skip(1).contains(occ),
{
    let i = choose|i: int| 0 <= i < queue.len() && queue[i] == occ;
    assert(queue.skip(1)[i - 1] == occ);
}

proof fn lemma_pop_stale(v: StoreView)
    requires
        well_formed(v),
        v.queue.len() > 0,
        !is_live(v.entries, v.queue[0]),
    ensures
        well_formed(popped(v)),
{
    assert forall|key: Seq<char>| #[trigger]
        v.entries.dom().contains(key) implies popped(v).queue.contains(
        (key, v.entries[key].generation),
    ) by {
        lemma_contains_past_front(v.queue, (key, v.entries[key].generation));
    }
}

proof fn lemma_requeue(v: StoreView, now: u64)
    requires
        well_formed(v),
        v.queue.len() > 0,
        is_live(v.entries, v.queue[0]),
    ensures
        well_formed(requeued(popped(v), now, v.queue[0].0)),
{
    let key = v.queue[0].0;
    let next = requeued(popped(v), now, key);
    assert(next.entries.dom() =~= v.entries.dom());
    assert forall|k: Seq<char>| #[trigger]
        next.entries.dom().contains(k) implies next.queue.contains(
        (k, next.entries[k].generation),
    ) by {
        if k == key {
            assert(next.queue.last() == (key, v.next_generation));
        } else {
            lemma_contains_past_front(v.queue, (k, v.entries[k].generation));
            let rest = v.queue.skip(1);
            let i = choose|i: int|
                0 <= i < rest.len() && rest[i] == (k, v.entries[k].generation);
            assert(next.queue[i] == rest[i]);
        }
    }
}

/// Making room keeps the store well formed and leaves it below its bound, or
/// empty where the bound is zero. No binding is altered by it.
pub proof fn law_room(v: StoreView, now: u64)
    requires
        well_formed(v),
    ensures
        well_formed(with_room(v, now)),
        same_bounds(v, with_room(v, now)),
        with_room(v, now).entries.dom().len() < v.max_entries || with_room(
            v,
            now,
        ).entries.dom().len() == 0,
        with_room(v, now).entries.dom().subset_of(v.entries.dom()),
        forall|key: Seq<char>| #[trigger]
            with_room(v, now).entries.dom().contains(key) ==> same_binding(
                v.entries[key],
                with_room(v, now).entries[key],
            ),
    decreases v.queue.len(),
{
    if v.entries.dom().len() >= v.max_entries {
        law_eviction(v, now, 0);
        lemma_evicted_queue(v, now, 0);
        let (after, found) = evicted(v, now, 0);
        if found {
            let victim = choose|victim: Seq<char>| #[trigger] drops_only(v, after, victim);
            law_room(after, now);
            assert forall|key: Seq<char>| #[trigger]
                with_room(v, now).entries.dom().contains(key) implies same_binding(
                v.entries[key],
                with_room(v, now).entries[key],
            ) by {
                assert(after.entries.dom().contains(key));
            }
        }
    }
}

proof fn lemma_compacted_well_formed(v: StoreView)
    requires
        well_formed(v),
    ensures
        well_formed(compacted(v)),
{
    broadcast use vstd::seq_lib::group_filter_ensures;
    let live = |occ: (Seq<char>, u64)| is_live(v.entries, occ);
    assert forall|key: Seq<char>| #[trigger]
        v.entries.dom().contains(key) implies compacted(v).queue.contains(
        (key, v.entries[key].generation),
    ) by {
        let occ = (key, v.entries[key].generation);
        assert(v.queue.contains(occ) && live(occ));
        assert(v.queue.filter(live).contains(occ));
    }
}

proof fn lemma_put_well_formed(v: StoreView, key: Seq<char>, endpoint: Seq<char>, now: u64)
    requires
        well_formed(v),
    ensures
        well_formed(after_put(v, key, endpoint, now)),
{
    let after = after_put(v, key, endpoint, now);
    if v.entries.dom().contains(key) {
        assert(after.entries.dom() =~= v.entries.dom());
    } else {
        law_room(v, now);
        let room = with_room(v, now);
        let generation = room.next_generation;
        let pushed = StoreView {
            entries: room.entries.insert(
                key,
                EntryView { endpoint, last_accessed: now, enqueued_at: now, generation },
            ),
            next_generation: following(generation),
            queue: room.queue.push((key, generation)),
            ..room
        };
        assert forall|k: Seq<char>| #[trigger]
            pushed.entries.dom().contains(k) implies pushed.queue.contains(
            (k, pushed.entries[k].generation),
        ) by {
            if k == key {
                assert(pushed.queue.last() == (key, generation));
            } else {
                assert(room.entries.dom().contains(k));
                let i = choose|i: int|
                    0 <= i < room.queue.len() && room.queue[i] == (k, room.entries[k].generation);
                assert(pushed.queue[i] == room.queue[i]);
            }
        }
        lemma_compacted_well_formed(pushed);
    }
}

proof fn lemma_get_well_formed(v: StoreView, key: Seq<char>, now: u64)
    requires
        well_formed(v),
    ensures
        well_formed(after_get(v, key, now)),
{
    if lookup(v, key, now) is Some {
        assert(after_get(v, key, now).entries.dom() =~= v.entries.dom());
    } else {
        let removed = StoreView { entries: v.entries.remove(key), ..v };
        let after = after_maybe_sweep(removed, now);
        assert(after.entries.dom().subset_of(v.entries.dom()));
        vstd::set_lib::lemma_len_subset(after.entries.dom(), v.entries.dom());
    }
}

/// Under the TTL policy the victim is the oldest created entry: the first
/// queue occurrence that is current. Stale occurrences before it, such as those
/// of keys removed and written again, evict nothing.
pub proof fn law_ttl_evicts_oldest(v: StoreView, now: u64, oldest: int)
    requires
        v.eviction == EvictionPolicy::Ttl,
        0 <= oldest < v.queue.len(),
        is_live(v.entries, v.queue[oldest]),
        forall|i: int| 0 <= i < oldest ==> !is_live(v.entries, #[trigger] v.queue[i]),
    ensures
        evicted(v, now, 0) == (
            StoreView {
                entries: v.entries.remove(v.queue[oldest].0),
                queue: v.queue.skip(oldest + 1),
                ..v
            },
            true,
        ),
    decreases oldest,
{
    if oldest > 0 {
        assert(!is_live(v.entries, v.queue[0]));
        assert forall|i: int| 0 <= i < oldest - 1 implies !is_live(
            popped(v).entries,
            #[trigger] popped(v).queue[i],
        ) by {
            assert(popped(v).queue[i] == v.queue[i + 1]);
        }
        assert(popped(v).queue[oldest - 1] == v.queue[oldest]);
        law_ttl_evicts_oldest(popped(v), now, oldest - 1);
        assert(popped(v).queue.skip(oldest) =~= v.queue.skip(oldest + 1));
    }
}

/// A binding written at `now` is what a lookup at `later` answers, as long as
/// the session was idle for less than the time to live.
pub proof fn law_read_back(
    v: StoreView,
    key: Seq<char>,
    endpoint: Seq<char>,
    now: u64,
    later: u64,
)
    requires
        well_formed(v),
    ensures
        lookup(after_put(v, key, endpoint, now), key, later) == if v.ttl > 0 && later - now < v.ttl {
            Some(endpoint)
        } else {
            None
        },
{
    if !v.entries.dom().contains(key) {
        law_room(v, now);
    }
}

/// Writing a binding of one session never alters what another session is
/// pinned to: it keeps its answer, or was evicted to make room.
pub proof fn law_put_keeps_others(
    v: StoreView,
    key: Seq<char>,
    endpoint: Seq<char>,
    other: Seq<char>,
    now: u64,
    later: u64,
)
    requires
        well_formed(v),
        other != key,
    ensures
        lookup(after_put(v, key, endpoint, now), other, later) == lookup(v, other, later)
            || lookup(after_put(v, key, endpoint, now), other, later) is None,
        v.entries.dom().contains(key) || v.entries.dom().len() < v.max_entries ==> lookup(
            after_put(v, key, endpoint, now),
            other,
            later,
        ) == lookup(v, other, later),
{
    if !v.entries.dom().contains(key) {
        law_room(v, now);
    }
}

/// What writing a binding does to a store within its capacity, whatever the
/// generations: it stays within it. An update touches no other entry. A new key
/// below capacity drops none; at capacity exactly one other goes.
pub proof fn law_put_capacity(v: StoreView, key: Seq<char>, endpoint: Seq<char>, now: u64)
    requires
        well_formed(v),
        v.max_entries > 0,
        v.entries.dom().len() <= v.max_entries,
    ensures
        ({
            let after = after_put(v, key, endpoint, now).entries;
            &&& after.dom().len() <= v.max_entries
            &&& v.ttl > 0 ==> lookup(after_put(v, key, endpoint, now), key, now) == Some(endpoint)
            &&& v.entries.dom().contains(key) || v.entries.dom().len() < v.max_entries ==> {
                &&& after.dom() == v.entries.dom().insert(key)
                &&& forall|k: Seq<char>|
                    k != key && #[trigger] v.entries.dom().contains(k) ==> after[k]
                        == v.entries[k]
            }
            &&& !v.entries.dom().contains(key) && v.entries.dom().len() == v.max_entries
                ==> exists|victim: Seq<char>|
                v.entries.dom().contains(victim) && #[trigger] v.entries.dom().remove(
                    victim,
                ).insert(key) == after.dom()
        }),
{
    law_read_back(v, key, endpoint, now, now);
    let after = after_put(v, key, endpoint, now).entries;
    if v.entries.dom().contains(key) {
        assert(after.dom() =~= v.entries.dom().insert(key));
        assert(v.entries.dom().insert(key) =~= v.entries.dom());
    } else if v.entries.dom().len() < v.max_entries {
        assert(after.dom() =~= v.entries.dom().insert(key));
    } else {
        law_eviction(v, now, 0);
        let less = evicted(v, now, 0).0;
        let victim = choose|victim: Seq<char>| #[trigger] drops_only(v, less, victim);
        assert(with_room(less, now) == less);
        assert(with_room(v, now) == less);
        assert(after.dom() =~= v.entries.dom().remove(victim).insert(key));
    }
}

/// Each access restarts the time to live: after a hit at `now` the session
/// still answers at `later` exactly when it was idle for less than it.
pub proof fn law_access_slides_expiry(v: StoreView, key: Seq<char>, now: u64, later: u64)
    requires
        lookup(v, key, now) is Some,
    ensures
        lookup(after_get(v, key, now), key, later) == if later - now < v.ttl {
            lookup(v, key, now)
        } else {
            None
        },
{
}

/// A lookup of an expired session answers nothing and leaves no binding of it.
pub proof fn law_expired_is_dropped(v: StoreView, key: Seq<char>, now: u64)
    requires
        v.entries.dom().contains(key),
        expired(v.entries[key], now, v.ttl),
    ensures
        lookup(v, key, now) is None,
        !after_get(v, key, now).entries.dom().contains(key),
{
}

/// Updating a binding leaves the eviction queue as it is, and so the entry's
/// age under the TTL policy.
pub proof fn law_update_keeps_age(v: StoreView, key: Seq<char>, endpoint: Seq<char>, now: u64)
    requires
        v.entries.dom().contains(key),
    ensures
        after_put(v, key, endpoint, now).queue == v.queue,
        after_put(v, key, endpoint, now).entries[key].generation == v.entries[key].generation,
        after_put(v, key, endpoint, now).entries[key].enqueued_at == v.entries[key].enqueued_at,
{
}

/// Whether the queue is in the order in which its generations were handed out,
/// and all of them are below the next one.
pub open spec fn orderly(v: StoreView) -> bool {
    &&& forall|i: int| 0 <= i < v.queue.len() ==> (#[trigger] v.queue[i]).1 < v.next_generation
    &&& forall|i: int, j: int|
        0 <= i < j < v.queue.len() ==> (#[trigger] v.queue[i]).1 < (#[trigger] v.queue[j]).1
}

/// The place of the first current occurrence in the queue.
spec fn first_live(v: StoreView) -> int
    decreases v.queue.len(),
{
    if v.queue.len() == 0 || is_live(v.entries, v.queue[0]) {
        0
    } else {
        1 + first_live(popped(v))
    }
}

proof fn lemma_first_live(v: StoreView, i: int)
    requires
        0 <= i < v.queue.len(),
        is_live(v.entries, v.queue[i]),
    ensures
        0 <= first_live(v) <= i,
        is_live(v.entries, v.queue[first_live(v)]),
        forall|k: int| 0 <= k < first_live(v) ==> !is_live(v.entries, #[trigger] v.queue[k]),
    decreases v.queue.len(),
{
    if !is_live(v.entries, v.queue[0]) {
        let rest = popped(v);
        assert(rest.queue[i - 1] == v.queue[i]);
        lemma_first_live(rest, i - 1);
        assert forall|k: int| 0 <= k < first_live(v) implies !is_live(
            v.entries,
            #[trigger] v.queue[k],
        ) by {
            if k > 0 {
                assert(rest.queue[k - 1] == v.queue[k]);
            }
        }
    }
}

/// Under the TTL policy the entry that was created first goes: generations are
/// handed out in the order of creation, and no other entry has a lower one than
/// the victim. Every other entry stays as it is.
pub proof fn law_ttl_evicts_first_created(v: StoreView, now: u64)
    requires
        well_formed(v),
        orderly(v),
        v.eviction == EvictionPolicy::Ttl,
        v.entries.dom().len() > 0,
    ensures
        evicted(v, now, 0).1,
        exists|victim: Seq<char>|
            v.entries.dom().contains(victim) && #[trigger] v.entries.remove(victim) == evicted(
                v,
                now,
                0,
            ).0.entries && forall|key: Seq<char>| #[trigger]
                v.entries.dom().contains(key) ==> v.entries[victim].generation
                    <= v.entries[key].generation,
{
    let some = v.entries.dom().choose();
    assert(v.entries.dom().contains(some));
    let occ = (some, v.entries[some].generation);
    assert(v.queue.contains(occ));
    let i = choose|i: int| 0 <= i < v.queue.len() && v.queue[i] == occ;
    lemma_first_live(v, i);
    let first = first_live(v);
    law_ttl_evicts_oldest(v, now, first);
    let victim = v.queue[first].0;
    assert forall|key: Seq<char>| #[trigger]
        v.entries.dom().contains(key) implies v.entries[victim].generation
        <= v.entries[key].generation by {
        let own = (key, v.entries[key].generation);
        assert(v.queue.contains(own));
        let k = choose|k: int| 0 <= k < v.queue.len() && v.queue[k] == own;
        assert(is_live(v.entries, v.queue[k]));
        assert(first <= k);
    }
    assert(v.entries.remove(victim) == evicted(v, now, 0).0.entries);
}

proof fn lemma_evicted_orderly(v: StoreView, now: u64, chances: nat)
    requires
        orderly(v),
        chances <= EVICTION_SECOND_CHANCES,
        v.next_generation + (EVICTION_SECOND_CHANCES - chances) <= u64::MAX,
    ensures
        orderly(evicted(v, now, chances).0),
        v.queue.len() == 0 ==> evicted(v, now, chances).0 == v,
        evicted(v, now, chances).0.next_generation <= v.next_generation + (
        EVICTION_SECOND_CHANCES - chances),
    decreases EVICTION_SECOND_CHANCES - chances, v.queue.len(),
{
    if v.queue.len() == 0 {
    } else if !is_live(v.entries, v.queue[0]) {
        assert(orderly(popped(v)));
        lemma_evicted_orderly(popped(v), now, chances);
    } else if spared(v, now, v.queue[0].0) && chances < EVICTION_SECOND_CHANCES {
        let next = requeued(popped(v), now, v.queue[0].0);
        assert(orderly(next));
        lemma_evicted_orderly(next, now, chances + 1);
    }
}

proof fn lemma_room_orderly(v: StoreView, now: u64)
    requires
        orderly(v),
        v.next_generation + EVICTION_SECOND_CHANCES * v.queue.len() <= u64::MAX,
    ensures
        orderly(with_room(v, now)),
        with_room(v, now).next_generation + EVICTION_SECOND_CHANCES * with_room(v, now).queue.len()
            <= v.next_generation + EVICTION_SECOND_CHANCES * v.queue.len(),
    decreases v.queue.len(),
{
    if v.entries.dom().len() >= v.max_entries && v.queue.len() > 0 {
        lemma_evicted_orderly(v, now, 0);
        lemma_evicted_queue(v, now, 0);
        if evicted(v, now, 0).1 {
            lemma_room_orderly(evicted(v, now, 0).0, now);
        }
    }
}

/// An entry is expired exactly where its last access lies the whole time to live
/// back; with a time to live of zero always.
pub proof fn law_idle_time(entry: EntryView, now: u64, ttl: u64)
    ensures
        expired(entry, now, ttl) <==> ttl == 0 || now - entry.last_accessed >= ttl,
{
}

/// Whether an entry was accessed since it was last enqueued, and less than the
/// time to live before `now`.
pub open spec fn active(entry: EntryView, now: u64, ttl: u64) -> bool {
    &&& entry.last_accessed > entry.enqueued_at
    &&& now - entry.last_accessed < ttl
}

/// An occurrence at the front of the queue that is not the current one of a
/// bound session is discarded, and evicts nothing.
pub proof fn law_stale_front_discarded(v: StoreView, now: u64, chances: nat)
    requires
        v.queue.len() > 0,
        !v.entries.dom().contains(v.queue[0].0) || v.entries[v.queue[0].0].generation
            != v.queue[0].1,
    ensures
        evicted(v, now, chances) == evicted(
            StoreView { queue: v.queue.skip(1), ..v },
            now,
            chances,
        ),
{
}

/// An entry at the front of the queue goes where it was not accessed since its
/// enqueue, or is expired, or the policy knows no second chances. All else stays
/// as it is.
pub proof fn law_idle_front_goes(v: StoreView, now: u64, key: Seq<char>)
    requires
        v.queue.len() > 0,
        v.entries.dom().contains(key),
        v.queue[0] == (key, v.entries[key].generation),
        v.eviction == EvictionPolicy::Ttl || v.ttl == 0 || !active(v.entries[key], now, v.ttl),
    ensures
        evicted(v, now, 0) == (
            StoreView { entries: v.entries.remove(key), queue: v.queue.skip(1), ..v },
            true,
        ),
{
}

proof fn lemma_requeued_only(v: StoreView, now: u64, chances: nat, key: Seq<char>)
    requires
        evicted(v, now, chances).0.entries.dom().contains(key),
    ensures
        v.entries.dom().contains(key),
        evicted(v, now, chances).0.entries[key] == v.entries[key] || {
            let before = v.entries[key];
            let after = evicted(v, now, chances).0.entries[key];
            &&& v.eviction == EvictionPolicy::Lru
            &&& active(before, now, v.ttl)
            &&& after.endpoint == before.endpoint
            &&& after.last_accessed == before.last_accessed
            &&& after.enqueued_at == now
        },
    decreases
            if chances < EVICTION_SECOND_CHANCES {
                EVICTION_SECOND_CHANCES - chances
            } else {
                0
            },
            v.queue.len(),
{
    if v.queue.len() == 0 {
    } else if !is_live(v.entries, v.queue[0]) {
        lemma_requeued_only(popped(v), now, chances, key);
    } else if spared(v, now, v.queue[0].0) && chances < EVICTION_SECOND_CHANCES {
        lemma_requeued_only(requeued(popped(v), now, v.queue[0].0), now, chances + 1, key);
    }
}

/// An eviction alters an entry that survives it in one way only: under LRU, one
/// accessed since its enqueue and not expired is enqueued anew, as of `now`.
pub proof fn law_only_active_spared(v: StoreView, now: u64, key: Seq<char>)
    requires
        evicted(v, now, 0).0.entries.dom().contains(key),
        evicted(v, now, 0).0.entries[key] != v.entries[key],
    ensures
        v.entries.dom().contains(key),
        v.eviction == EvictionPolicy::Lru,
        active(v.entries[key], now, v.ttl),
        evicted(v, now, 0).0.entries[key].endpoint == v.entries[key].endpoint,
        evicted(v, now, 0).0.entries[key].last_accessed == v.entries[key].last_accessed,
        evicted(v, now, 0).0.entries[key].enqueued_at == now,
{
    lemma_requeued_only(v, now, 0, key);
}

/// A second chance is used up by being granted: once an eviction at `now` has
/// spared an entry, no later eviction, from whatever state of the store, spares
/// it again unless it was accessed after `now`. So an entry that stays idle keeps
/// its place, and goes when it reaches the front of the queue.
pub proof fn law_second_chance_once(
    v: StoreView,
    now: u64,
    w: StoreView,
    later: u64,
    key: Seq<char>,
)
    requires
        evicted(v, now, 0).0.entries.dom().contains(key),
        evicted(v, now, 0).0.entries[key] != v.entries[key],
        v.entries[key].last_accessed <= now,
        w.entries.dom().contains(key),
        w.entries[key] == evicted(v, now, 0).0.entries[key],
    ensures
        evicted(w, later, 0).0.entries.dom().contains(key) ==> evicted(w, later, 0).0.entries[key]
            == w.entries[key],
        w.queue.len() > 0 && w.queue[0] == (key, w.entries[key].generation) ==> evicted(
            w,
            later,
            0,
        ) == (StoreView { entries: w.entries.remove(key), queue: w.queue.skip(1), ..w }, true),
{
    lemma_requeued_only(v, now, 0, key);
    if evicted(w, later, 0).0.entries.dom().contains(key) {
        lemma_requeued_only(w, later, 0, key);
    }
    if w.queue.len() > 0 && w.queue[0] == (key, w.entries[key].generation) {
        law_idle_front_goes(w, later, key);
    }
}

/// Under LRU the victim is the first entry of the queue that is not active, or
/// the ninth where the eight before it are: each active one before it is kept
/// and goes to the end of the queue, in order, enqueued as of `now`. Every other
/// entry stays as it is.
pub proof fn law_lru_victim(v: StoreView, now: u64, k: int)
    requires
        v.eviction == EvictionPolicy::Lru,
        v.ttl > 0,
        orderly(v),
        v.next_generation + 8 <= u64::MAX,
        0 <= k <= 8,
        k < v.queue.len(),
        forall|i: int|
            0 <= i <= k ==> v.entries.dom().contains((#[trigger] v.queue[i]).0)
                && v.entries[v.queue[i].0].generation == v.queue[i].1,
        forall|i: int|
            0 <= i < k ==> active(v.entries[(#[trigger] v.queue[i]).0], now, v.ttl),
        k == 8 || !active(v.entries[v.queue[k].0], now, v.ttl),
    ensures
        ({
            let after = evicted(v, now, 0).0;
            &&& evicted(v, now, 0).1
            &&& after.entries.dom() == v.entries.dom().remove(v.queue[k].0)
            &&& after.queue == v.queue.skip(k + 1) + Seq::new(
                k as nat,
                |i: int| (v.queue[i].0, (v.next_generation + i) as u64),
            )
            &&& after.next_generation == v.next_generation + k
            &&& forall|i: int|
                0 <= i < k ==> after.entries[(#[trigger] v.queue[i]).0] == (EntryView {
                    enqueued_at: now,
                    generation: (v.next_generation + i) as u64,
                    ..v.entries[v.queue[i].0]
                })
            &&& forall|key: Seq<char>|
                v.entries.dom().contains(key) && (forall|i: int|
                    0 <= i <= k ==> (#[trigger] v.queue[i]).0 != key) ==> #[trigger]
                after.entries[key] == v.entries[key]
        }),
{
    lemma_lru_victim(v, now, k, 0);
}

proof fn lemma_lru_victim(v: StoreView, now: u64, k: int, chances: nat)
    requires
        v.eviction == EvictionPolicy::Lru,
        v.ttl > 0,
        orderly(v),
        v.next_generation + k <= u64::MAX,
        0 <= k <= 8 - chances,
        k < v.queue.len(),
        forall|i: int| 0 <= i <= k ==> is_live(v.entries, #[trigger] v.queue[i]),
        forall|i: int|
            0 <= i < k ==> active(v.entries[(#[trigger] v.queue[i]).0], now, v.ttl),
        k + chances == 8 || !active(v.entries[v.queue[k].0], now, v.ttl),
    ensures
        ({
            let after = evicted(v, now, chances).0;
            &&& evicted(v, now, chances).1
            &&& after.entries.dom() == v.entries.dom().remove(v.queue[k].0)
            &&& after.queue == v.queue.skip(k + 1) + Seq::new(
                k as nat,
                |i: int| (v.queue[i].0, (v.next_generation + i) as u64),
            )
            &&& after.next_generation == v.next_generation + k
            &&& forall|i: int|
                0 <= i < k ==> after.entries[(#[trigger] v.queue[i]).0] == (EntryView {
                    enqueued_at: now,
                    generation: (v.next_generation + i) as u64,
                    ..v.entries[v.queue[i].0]
                })
            &&& forall|key: Seq<char>|
                v.entries.dom().contains(key) && (forall|i: int|
                    0 <= i <= k ==> (#[trigger] v.queue[i]).0 != key) ==> #[trigger]
                after.entries[key] == v.entries[key]
        }),
    decreases k,
{
    let q = v.queue;
    let after = evicted(v, now, chances).0;
    assert(is_live(v.entries, q[0]));
    if k == 0 {
        assert(!(spared(v, now, q[0].0) && chances < EVICTION_SECOND_CHANCES));
        assert(after.queue =~= q.skip(1) + Seq::new(
            0,
            |i: int| (v.queue[i].0, (v.next_generation + i) as u64),
        ));
        assert forall|key: Seq<char>|
            v.entries.dom().contains(key) && (forall|i: int|
                0 <= i <= k ==> (#[trigger] v.queue[i]).0 != key) implies #[trigger]
        after.entries[key] == v.entries[key] by {
            assert(v.queue[0].0 != key);
        }
    } else {
        assert(active(v.entries[q[0].0], now, v.ttl));
        let next = requeued(popped(v), now, q[0].0);
        assert(next.next_generation == v.next_generation + 1);
        assert forall|i: int| 0 <= i < k implies next.queue[i] == #[trigger] q[i + 1] && q[i + 1].0
            != q[0].0 by {
            assert(is_live(v.entries, q[i + 1]));
            assert(q[0].1 < q[i + 1].1);
        }
        assert forall|i: int| 0 <= i <= k - 1 implies is_live(
            next.entries,
            #[trigger] next.queue[i],
        ) by {
            assert(next.queue[i] == q[i + 1]);
            assert(is_live(v.entries, q[i + 1]));
        }
        assert forall|i: int| 0 <= i < k - 1 implies active(
            next.entries[(#[trigger] next.queue[i]).0],
            now,
            v.ttl,
        ) by {
            assert(next.queue[i] == q[i + 1]);
            assert(active(v.entries[q[i + 1].0], now, v.ttl));
        }
        assert(next.queue[k - 1] == q[(k - 1) + 1]);
        assert(orderly(next));
        lemma_lru_victim(next, now, k - 1, chances + 1);
        assert(after == evicted(next, now, chances + 1).0);
        assert(after.entries.dom() =~= v.entries.dom().remove(q[k].0));
        assert(after.queue =~= q.skip(k + 1) + Seq::new(
            k as nat,
            |i: int| (v.queue[i].0, (v.next_generation + i) as u64),
        )) by {
            assert(next.queue.skip(k) =~= q.skip(k + 1).push((q[0].0, v.next_generation)));
            let tail = Seq::new(
                (k - 1) as nat,
                |i: int| (next.queue[i].0, (next.next_generation + i) as u64),
            );
            let whole = Seq::new(
                k as nat,
                |i: int| (v.queue[i].0, (v.next_generation + i) as u64),
            );
            assert forall|i: int| 0 <= i < k - 1 implies #[trigger] tail[i] == whole[i + 1] by {
                assert(next.queue[i] == q[i + 1]);
            }
            assert(whole =~= seq![(q[0].0, v.next_generation)] + tail);
        }
        assert forall|i: int| 0 <= i < k implies after.entries[(#[trigger] q[i]).0] == (EntryView {
            enqueued_at: now,
            generation: (v.next_generation + i) as u64,
            ..v.entries[q[i].0]
        }) by {
            if i > 0 {
                assert(next.queue[i - 1] == q[(i - 1) + 1]);
            } else {
                assert forall|j: int| 0 <= j <= k - 1 implies (#[trigger] next.queue[j]).0
                    != q[0].0 by {
                    assert(next.queue[j] == q[j + 1]);
                }
                assert(after.entries[q[0].0] == next.entries[q[0].0]);
            }
        }
        assert forall|key: Seq<char>|
            v.entries.dom().contains(key) && (forall|i: int|
                0 <= i <= k ==> (#[trigger] v.queue[i]).0 != key) implies #[trigger]
        after.entries[key] == v.entries[key] by {
            assert(v.queue[0].0 != key);
            assert forall|j: int| 0 <= j <= k - 1 implies (#[trigger] next.queue[j]).0 != key by {
                assert(next.queue[j] == q[j + 1]);
            }
            assert(next.entries.dom().contains(key));
        }
    }
}

/// A new binding starts as accessed and enqueued at `now`, at the end of the
/// queue under the next generation; where there is room nothing else of the
/// store moves, and stale occurrences are dropped only once the queue would
/// outgrow twice the bound.
pub proof fn law_new_binding(v: StoreView, key: Seq<char>, endpoint: Seq<char>, now: u64)
    requires
        !v.entries.dom().contains(key),
        v.entries.dom().len() < v.max_entries,
    ensures
        ({
            let after = after_put(v, key, endpoint, now);
            let entry = EntryView {
                endpoint,
                last_accessed: now,
                enqueued_at: now,
                generation: v.next_generation,
            };
            &&& after.entries == v.entries.insert(key, entry)
            &&& after.next_generation == (v.next_generation + 1) % 0x1_0000_0000_0000_0000
            &&& v.queue.len() < 2 * v.max_entries && v.queue.len() < u64::MAX ==> after.queue
                == v.queue.push((key, v.next_generation))
            &&& v.queue.len() >= 2 * v.max_entries ==> after.queue == v.queue.push(
                (key, v.next_generation),
            ).filter(
                |occ: (Seq<char>, u64)|
                    after.entries.dom().contains(occ.0) && after.entries[occ.0].generation
                        == occ.1,
            )
            &&& same_bounds(v, after)
        }),
{
    let after = after_put(v, key, endpoint, now);
    let live = |occ: (Seq<char>, u64)|
        after.entries.dom().contains(occ.0) && after.entries[occ.0].generation == occ.1;
    let live_too = |occ: (Seq<char>, u64)| is_live(after.entries, occ);
    assert(live =~= live_too);
}

/// An update sets the endpoint and the access time of its own entry, and nothing
/// else of the store.
pub proof fn law_update_is_local(v: StoreView, key: Seq<char>, endpoint: Seq<char>, now: u64)
    requires
        v.entries.dom().contains(key),
    ensures
        after_put(v, key, endpoint, now) == (StoreView {
            entries: v.entries.insert(
                key,
                EntryView {
                    endpoint,
                    last_accessed: now,
                    enqueued_at: v.entries[key].enqueued_at,
                    generation: v.entries[key].generation,
                },
            ),
            ..v
        }),
{
}

/// What a lookup does to a store: a hit sets the access time of its own entry and
/// nothing else. A miss leaves no binding of the session; of the others at most
/// those that are expired go, and the queue stays as it is.
pub proof fn law_lookup_is_local(v: StoreView, key: Seq<char>, now: u64, other: Seq<char>)
    ensures
        ({
            let after = after_get(v, key, now);
            &&& lookup(v, key, now) is Some <==> v.entries.dom().contains(key) && v.ttl > 0 && now
                - v.entries[key].last_accessed < v.ttl
            &&& lookup(v, key, now) is Some ==> lookup(v, key, now) == Some(
                v.entries[key].endpoint,
            ) && after == (StoreView {
                entries: v.entries.insert(
                    key,
                    EntryView {
                        endpoint: v.entries[key].endpoint,
                        last_accessed: now,
                        enqueued_at: v.entries[key].enqueued_at,
                        generation: v.entries[key].generation,
                    },
                ),
                ..v
            })
            &&& lookup(v, key, now) is None ==> {
                &&& !after.entries.dom().contains(key)
                &&& other != key && v.entries.dom().contains(other) && lookup(
                    v,
                    other,
                    now,
                ) is Some ==> after.entries.dom().contains(other) && after.entries[other]
                    == v.entries[other]
                &&& after.entries.dom().contains(other) ==> v.entries.dom().contains(other)
                    && after.entries[other] == v.entries[other]
                &&& after.queue == v.queue
                &&& after.next_generation == v.next_generation
            }
        }),
{
}

/// A sweep runs exactly where at least half the time to live, in whole
/// milliseconds, passed since the last one. It then drops the expired bindings
/// and no others, and the time of the sweep is kept.
pub proof fn law_sweep(v: StoreView, now: u64, key: Seq<char>)
    requires
        v.epoch <= now,
    ensures
        ({
            let after = after_maybe_sweep(v, now);
            let due = (now - v.epoch) / 1_000_000 - v.last_sweep_ms >= v.ttl as int / 2_000_000
                || v.ttl < 2_000_000;
            &&& !due ==> after == v
            &&& due ==> {
                &&& after.last_sweep_ms == (now - v.epoch) / 1_000_000
                &&& after.entries.dom().contains(key) <==> v.entries.dom().contains(key) && v.ttl
                    > 0 && now - v.entries[key].last_accessed < v.ttl
                &&& after.entries.dom().contains(key) ==> after.entries[key] == v.entries[key]
            }
            &&& after.queue == v.queue
            &&& after.next_generation == v.next_generation
            &&& bounds_of(after) == bounds_of(v)
            &&& after.epoch == v.epoch
        }),
{
}

/// A store within its bounds: no more entries than it may hold, and an eviction
/// queue of at most twice as many occurrences.
pub open spec fn bounded(v: StoreView) -> bool {
    &&& well_formed(v)
    &&& orderly(v)
    &&& v.entries.dom().len() <= v.max_entries
    &&& v.queue.len() <= queue_bound(v.max_entries)
}

/// A store starts within its bounds, and lookups, removals and sweeps keep it
/// there.
pub proof fn law_bounded(v: StoreView, key: Seq<char>, now: u64)
    requires
        bounded(v),
    ensures
        bounded(empty_store(bounds_of(v), now)),
        bounded(after_get(v, key, now)),
        bounded(StoreView { entries: v.entries.remove(key), ..v }),
        bounded(StoreView { entries: fresh_entries(v.entries, now, v.ttl), ..v }),
        bounded(after_maybe_sweep(v, now)),
{
    lemma_get_well_formed(v, key, now);
    let looked = after_get(v, key, now).entries;
    let removed = v.entries.remove(key);
    let fresh = fresh_entries(v.entries, now, v.ttl);
    assert(looked.dom().subset_of(v.entries.dom()));
    assert(removed.dom().subset_of(v.entries.dom()));
    assert(fresh.dom().subset_of(v.entries.dom()));
    vstd::set_lib::lemma_len_subset(looked.dom(), v.entries.dom());
    vstd::set_lib::lemma_len_subset(removed.dom(), v.entries.dom());
    vstd::set_lib::lemma_len_subset(fresh.dom(), v.entries.dom());
}

/// Writing a binding keeps a store with a positive bound within its bounds, as
/// long as generations have not run out.
pub proof fn law_put_bounded(v: StoreView, key: Seq<char>, endpoint: Seq<char>, now: u64)
    requires
        bounded(v),
        v.max_entries > 0,
        v.next_generation + EVICTION_SECOND_CHANCES * v.queue.len() < u64::MAX,
    ensures
        bounded(after_put(v, key, endpoint, now)),
        after_put(v, key, endpoint, now).entries.dom().len() <= v.max_entries,
        after_put(v, key, endpoint, now).queue.len() <= 2 * v.max_entries,
{
    lemma_put_well_formed(v, key, endpoint, now);
    if v.entries.dom().contains(key) {
        assert(after_put(v, key, endpoint, now).entries.dom() =~= v.entries.dom());
    } else {
        law_room(v, now);
        lemma_room_orderly(v, now);
        let room = with_room(v, now);
        let generation = room.next_generation;
        let pushed = StoreView {
            entries: room.entries.insert(
                key,
                EntryView { endpoint, last_accessed: now, enqueued_at: now, generation },
            ),
            next_generation: following(generation),
            queue: room.queue.push((key, generation)),
            ..room
        };
        assert(pushed.entries.dom() =~= room.entries.dom().insert(key));
        assert(orderly(pushed));
        lemma_compacted_bounded(pushed);
    }
}

proof fn lemma_compacted_bounded(v: StoreView)
    requires
        orderly(v),
        v.entries.dom().finite(),
    ensures
        orderly(compacted(v)),
        compacted(v).queue.len() <= v.entries.dom().len(),
{
    let live = |occ: (Seq<char>, u64)| is_live(v.entries, occ);
    let kept = v.queue.filter(live);
    lemma_filter_orderly(v.queue, live, v.next_generation);
    broadcast use vstd::seq_lib::group_filter_ensures;

    let keys = kept.map_values(|occ: (Seq<char>, u64)| occ.0);
    assert forall|i: int, j: int| 0 <= i < keys.len() && 0 <= j < keys.len() && i != j implies keys[i]
        != keys[j] by {
        assert(live(kept[i]) && live(kept[j]));
        assert(kept[i].1 != kept[j].1);
    }
    keys.unique_seq_to_set();
    assert(keys.to_set().subset_of(v.entries.dom())) by {
        assert forall|key: Seq<char>| keys.to_set().contains(key) implies v.entries.dom().contains(
            key,
        ) by {
            let i = choose|i: int| 0 <= i < keys.len() && keys[i] == key;
            assert(live(kept[i]));
        }
    }
    vstd::set_lib::lemma_len_subset(keys.to_set(), v.entries.dom());
}

proof fn lemma_filter_orderly(
    queue: Seq<(Seq<char>, u64)>,
    pred: spec_fn((Seq<char>, u64)) -> bool,
    bound: u64,
)
    requires
        forall|i: int| 0 <= i < queue.len() ==> (#[trigger] queue[i]).1 < bound,
        forall|i: int, j: int|
            0 <= i < j < queue.len() ==> (#[trigger] queue[i]).1 < (#[trigger] queue[j]).1,
    ensures
        forall|i: int|
            0 <= i < queue.filter(pred).len() ==> (#[trigger] queue.filter(pred)[i]).1 < bound,
        forall|i: int, j: int|
            0 <= i < j < queue.filter(pred).len() ==> (#[trigger] queue.filter(pred)[i]).1 < (
            #[trigger] queue.filter(pred)[j]).1,
    decreases queue.len(),
{
    reveal(Seq::filter);
    if queue.len() > 0 {
        let front = queue.drop_last();
        lemma_filter_orderly(front, pred, bound);
        let kept = queue.filter(pred);
        if pred(queue.last()) {
            assert(kept == front.filter(pred).push(queue.last()));
            assert forall|i: int, j: int| 0 <= i < j < kept.len() implies (#[trigger] kept[i]).1 < (
            #[trigger] kept[j]).1 by {
                if j == kept.len() - 1 {
                    assert(kept[i] == front.filter(pred)[i]);
                    assert(front.filter(pred).contains(kept[i]));
                    front.lemma_filter_contains_rev(pred, kept[i]);
                    let k = choose|k: int| 0 <= k < front.len() && front[k] == kept[i];
                    assert(queue[k].1 < queue[queue.len() - 1].1);
                }
            }
            assert forall|i: int| 0 <= i < kept.len() implies (#[trigger] kept[i]).1 < bound by {
                if i == kept.len() - 1 {
                    assert(queue[queue.len() - 1].1 < bound);
                }
            }
        }
    }
}

// The registry.

/// The slots that a map holds, by cluster name.
pub uninterp spec fn slots(map: DashMap<String, usize>) -> Map<Seq<char>, usize>;

/// No slots.
pub open spec fn no_slots() -> Map<Seq<char>, usize> {
    Map::empty()
}

/// `DashMap::new`: a map without entries.
#[verifier::external_body]
fn slot_map() -> (r: DashMap<String, usize>)
    ensures
        slots(r) == no_slots(),
{
    DashMap::new()
}

/// `DashMap::get`: the slot under `cluster`, if there is one.
#[verifier::external_body]
fn slot_get(map: &DashMap<String, usize>, cluster: &str) -> (r: Option<usize>)
    ensures
        r is Some <==> slots(*map).dom().contains(cluster@),
        r matches Some(slot) ==> slot == slots(*map)[cluster@],
{
    map.get(cluster).map(|slot| *slot.value())
}

/// `DashMap::insert`: binds `cluster` to `slot`, replacing an earlier binding.
#[verifier::external_body]
fn slot_insert(map: &mut DashMap<String, usize>, cluster: String, slot: usize)
    ensures
        slots(*final(map)) == slots(*old(map)).insert(cluster@, slot),
{
    map.insert(cluster, slot);
}

/// `DashMap::is_empty`: whether the map holds no entry.
#[verifier::external_body]
fn slot_is_empty(map: &DashMap<String, usize>) -> (r: bool)
    ensures
        r <==> slots(*map) == no_slots(),
{
    map.is_empty()
}

/// The bounds that a store was made with.
#[derive(Clone, Copy, Debug, PartialEq, Eq, Structural)]
pub struct StoreBounds {
    /// Upper bound on entries.
    pub max_entries: u64,
    /// Idle timeout.
    pub ttl: u64,
    /// Victim selection.
    pub eviction: EvictionPolicy,
}

/// The bounds of a store.
pub open spec fn bounds_of(v: StoreView) -> StoreBounds {
    StoreBounds { max_entries: v.max_entries, ttl: v.ttl, eviction: v.eviction }
}

/// A cluster's store: its bounds, and the shared handle under which it is used.
pub struct StoreSlot<H> {
    /// Bounds of the store.
    pub bounds: StoreBounds,
    /// The shared handle.
    pub handle: H,
}

/// Session stores per cluster, shared across pipeline reloads. The registry
/// keeps one handle per cluster. A store that was replaced lives on only with
/// those who still hold its handle.
pub struct SessionStoreRegistry<H> {
    current: DashMap<String, usize>,
    stores: Vec<StoreSlot<H>>,
}

impl<H> View for SessionStoreRegistry<H> {
    type V = Map<Seq<char>, StoreSlot<H>>;

    closed spec fn view(&self) -> Map<Seq<char>, StoreSlot<H>> {
        slots(self.current).map_values(|i: usize| self.stores@[i as int])
    }
}

impl<H> SessionStoreRegistry<H> {
    /// Whether every cluster has a place of its own.
    pub closed spec fn wf(&self) -> bool {
        &&& forall|c: Seq<char>| #[trigger]
            slots(self.current).dom().contains(c) ==> slots(self.current)[c] < self.stores@.len()
        &&& forall|c: Seq<char>, d: Seq<char>|
            #![trigger slots(self.current)[c], slots(self.current)[d]]
            slots(self.current).dom().contains(c) && slots(self.current).dom().contains(d) && c != d
                ==> slots(self.current)[c] != slots(self.current)[d]
    }

    /// A registry without stores.
    pub fn new() -> (r: SessionStoreRegistry<H>)
        ensures
            r@ == Map::<Seq<char>, StoreSlot<H>>::empty(),
            r.wf(),
    {
        let r = SessionStoreRegistry { current: slot_map(), stores: Vec::new() };
        proof {
            assert(r@ =~= Map::<Seq<char>, StoreSlot<H>>::empty());
        }
        r
    }

    fn place(&self, cluster: &str) -> (r: usize)
        requires
            self.wf(),
            self@.dom().contains(cluster@),
        ensures
            r < self.stores@.len(),
            self.stores@[r as int] == self@[cluster@],
    {
        match slot_get(&self.current, cluster) {
            Some(i) => i,
            None => 0,
        }
    }

    fn set_slot(&mut self, cluster: &str, slot: StoreSlot<H>)
        requires
            old(self).wf(),
        ensures
            final(self).wf(),
            final(self)@ == old(self)@.insert(cluster@, slot),
    {
        match slot_get(&self.current, cluster) {
            Some(i) => {
                self.stores.set(i, slot);
                proof {
                    assert(self@ =~= old(self)@.insert(cluster@, slot));
                }
            },
            None => {
                let i: usize = self.stores.len();
                self.stores.push(slot);
                slot_insert(&mut self.current, cluster.to_owned(), i);
                proof {
                    assert(self@ =~= old(self)@.insert(cluster@, slot));
                }
            },
        }
    }

    /// Makes `store` the store of `cluster`, under the handle that `share` puts
    /// it behind. The handle of an earlier store of the cluster is dropped.
    pub fn insert<S: FnOnce(SessionStore) -> H>(&mut self, cluster: &str, store: SessionStore, share: S)
        requires
            old(self).wf(),
            call_requires(share, (store,)),
        ensures
            final(self).wf(),
            exists|handle: H|
                call_ensures(share, (store,), handle) && #[trigger] is_registered(
                    old(self)@,
                    final(self)@,
                    cluster@,
                    bounds_of(store@),
                    handle,
                ),
    {
        let bounds = store.bounds();
        let handle = share(store);
        self.set_slot(cluster, StoreSlot { bounds, handle });
        proof {
            assert(is_registered(old(self)@, self@, cluster@, bounds, handle));
        }
    }

    /// The handle of a cluster's store.
    pub fn get(&self, cluster: &str) -> (r: Option<&H>)
        requires
            self.wf(),
        ensures
            r is Some <==> self@.dom().contains(cluster@),
            r matches Some(h) ==> *h == self@[cluster@].handle,
    {
        match slot_get(&self.current, cluster) {
            Some(i) => Some(&self.stores[i].handle),
            None => None,
        }
    }

    /// The handle of a cluster's store with these bounds. A store with other
    /// bounds is replaced by an empty one made at `now`, under the handle that
    /// `share` puts it behind.
    pub fn get_or_create<S: FnOnce(SessionStore) -> H>(
        &mut self,
        cluster: &str,
        bounds: StoreBounds,
        now: u64,
        share: S,
    ) -> (r: &H)
        requires
            old(self).wf(),
            forall|store: SessionStore| #[trigger] call_requires(share, (store,)),
        ensures
            final(self).wf(),
            has_store(final(self)@, cluster@, bounds),
            *r == final(self)@[cluster@].handle,
            has_store(old(self)@, cluster@, bounds) ==> final(self)@ == old(self)@,
            !has_store(old(self)@, cluster@, bounds) ==> exists|store: SessionStore, handle: H|
                #![trigger call_ensures(share, (store,), handle)]
                store@ == empty_store(bounds, now) && call_ensures(share, (store,), handle)
                    && is_registered(old(self)@, final(self)@, cluster@, bounds, handle),
    {
        let reuse = match slot_get(&self.current, cluster) {
            Some(i) => self.stores[i].bounds == bounds,
            None => false,
        };
        if !reuse {
            let store = SessionStore::new(bounds.max_entries, bounds.ttl, bounds.eviction, now);
            self.insert(cluster, store, share);
        }
        let i: usize = self.place(cluster);
        &self.stores[i].handle
    }

    /// Whether no cluster has a store.
    pub fn is_empty(&self) -> (r: bool)
        ensures
            r <==> self@ == Map::<Seq<char>, StoreSlot<H>>::empty(),
    {
        proof {
            if slots(self.current) == no_slots() {
                assert(self@ =~= Map::<Seq<char>, StoreSlot<H>>::empty());
            } else if self@ == Map::<Seq<char>, StoreSlot<H>>::empty() {
                assert(self@.dom() =~= slots(self.current).dom());
                assert(slots(self.current) =~= no_slots());
            }
        }
        slot_is_empty(&self.current)
    }
}

/// Whether `after` is `before` with the store of `cluster` behind `handle`.
pub open spec fn is_registered<H>(
    before: Map<Seq<char>, StoreSlot<H>>,
    after: Map<Seq<char>, StoreSlot<H>>,
    cluster: Seq<char>,
    bounds: StoreBounds,
    handle: H,
) -> bool {
    after == before.insert(cluster, StoreSlot { bounds, handle })
}

/// Whether a cluster's store has these bounds.
pub open spec fn has_store<H>(
    stores: Map<Seq<char>, StoreSlot<H>>,
    cluster: Seq<char>,
    bounds: StoreBounds,
) -> bool {
    stores.dom().contains(cluster) && stores[cluster].bounds == bounds
}

/// A store without bindings, made at `now`.
pub open spec fn empty_store(bounds: StoreBounds, now: u64) -> StoreView {
    StoreView {
        entries: no_entries(),
        queue: Seq::empty(),
        next_generation: 0,
        last_sweep_ms: 0,
        max_entries: bounds.max_entries,
        ttl: bounds.ttl,
        eviction: bounds.eviction,
        epoch: now,
    }
}

/// Asking again with the same bounds answers the same store, whatever clusters
/// were registered in between, so bindings survive a reload that leaves the
/// bounds alone.
pub proof fn law_registry_reuses<H>(
    before: Map<Seq<char>, StoreSlot<H>>,
    after: Map<Seq<char>, StoreSlot<H>>,
    cluster: Seq<char>,
    bounds: StoreBounds,
    other: Seq<char>,
    other_bounds: StoreBounds,
    handle: H,
)
    requires
        has_store(before, cluster, bounds),
        other != cluster,
        is_registered(before, after, other, other_bounds, handle),
    ensures
        has_store(after, cluster, bounds),
        after[cluster] == before[cluster],
        has_store(after, other, other_bounds),
{
}

/// A registered store is reused only where all three bounds are the same; a
/// store made for some bounds has them, no bindings, and its own clock.
pub proof fn law_stores_match_bounds<H>(
    stores: Map<Seq<char>, StoreSlot<H>>,
    cluster: Seq<char>,
    bounds: StoreBounds,
    now: u64,
)
    ensures
        has_store(stores, cluster, bounds) <==> {
            &&& stores.dom().contains(cluster)
            &&& stores[cluster].bounds.max_entries == bounds.max_entries
            &&& stores[cluster].bounds.ttl == bounds.ttl
            &&& stores[cluster].bounds.eviction == bounds.eviction
        },
        bounds_of(empty_store(bounds, now)) == bounds,
        empty_store(bounds, now).max_entries == bounds.max_entries,
        empty_store(bounds, now).ttl == bounds.ttl,
        empty_store(bounds, now).eviction == bounds.eviction,
        empty_store(bounds, now).epoch == now,
        empty_store(bounds, now).last_sweep_ms == 0,
        empty_store(bounds, now).entries == Map::<Seq<char>, EntryView>::empty(),
        empty_store(bounds, now).queue.len() == 0,
{
}

/// What a store answers for a session after it was bound: the endpoint, as long as
/// less than the time to live has passed, and nothing from then on.
pub proof fn law_put_then_get(
    store: &mut SessionStore,
    key: &str,
    endpoint: String,
    now: u64,
    later_store: &mut SessionStore,
    later: u64,
    r: Option<String>,
)
    requires
        well_formed(old(store)@),
        call_ensures(SessionStore::put, (store, key, endpoint, now), ()),
        *old(later_store) == *final(store),
        call_ensures(SessionStore::get, (later_store, key, later), r),
    ensures
        r is Some <==> old(store)@.ttl > 0 && later - now < old(store)@.ttl,
        r is Some ==> r->0@ == endpoint@,
{
    law_read_back(old(store)@, key@, endpoint@, now, later);
}

/// A removed session is not found, and the number of bindings falls by one where
/// it was bound; every other session is found as before.
pub proof fn law_remove_then_get(
    store: &mut SessionStore,
    key: &str,
    later_store: &mut SessionStore,
    looked_up: &str,
    now: u64,
    r: Option<String>,
)
    requires
        well_formed(old(store)@),
        call_ensures(SessionStore::remove, (store, key), ()),
        *old(later_store) == *final(store),
        call_ensures(SessionStore::get, (later_store, looked_up, now), r),
    ensures
        looked_up@ == key@ ==> r is None,
        looked_up@ != key@ ==> crate::headers::opt_text(r) == lookup(
            old(store)@,
            looked_up@,
            now,
        ),
        old(store)@.entries.dom().contains(key@) ==> final(store)@.entries.dom().len() == old(
            store,
        )@.entries.dom().len() - 1,
{
    assert(final(store)@.entries.dom() =~= old(store)@.entries.dom().remove(key@));
}

/// A sweep leaves exactly the bindings that a lookup at the same time would find.
pub proof fn law_sweep_keeps_live(store: &mut SessionStore, now: u64, key: Seq<char>)
    requires
        call_ensures(SessionStore::sweep_expired, (store, now), ()),
    ensures
        final(store)@.entries.dom().contains(key) <==> lookup(old(store)@, key, now) is Some,
        final(store)@.entries.dom().contains(key) ==> final(store)@.entries[key] == old(
            store,
        )@.entries[key],
        final(store)@.queue == old(store)@.queue,
{
}

/// An entry is dropped for its age exactly where a lookup at the same time would
/// not find it though it is bound.
pub proof fn law_expired_removed(store: &mut SessionStore, key: &str, now: u64, r: bool)
    requires
        call_ensures(SessionStore::remove_if_expired, (store, key, now), r),
    ensures
        r <==> old(store)@.entries.dom().contains(key@) && lookup(old(store)@, key@, now) is None,
        !r ==> final(store)@ == old(store)@,
        r ==> final(store)@.entries == old(store)@.entries.remove(key@) && final(store)@.queue
            == old(store)@.queue,
{
}

/// Two evictions in a row: one that the first spares the second does not spare
/// again while the session stays idle. It goes where its place came to the front
/// of the queue, and else stays as the first left it or goes.
pub proof fn law_two_evictions(
    store: &mut SessionStore,
    now: u64,
    found: bool,
    later_store: &mut SessionStore,
    later: u64,
    found_later: bool,
    key: Seq<char>,
)
    requires
        call_ensures(SessionStore::evict_one, (store, now), found),
        *old(later_store) == *final(store),
        call_ensures(SessionStore::evict_one, (later_store, later), found_later),
        old(store)@.entries[key].last_accessed <= now,
        final(store)@.entries.dom().contains(key),
        final(store)@.entries[key] != old(store)@.entries[key],
    ensures
        final(store)@.entries[key].enqueued_at == now,
        final(later_store)@.entries.dom().contains(key) ==> final(later_store)@.entries[key]
            == final(store)@.entries[key],
        final(store)@.queue.len() > 0 && final(store)@.queue[0] == (
            key,
            final(store)@.entries[key].generation,
        ) ==> found_later && final(later_store)@.entries == final(store)@.entries.remove(key),
{
    law_only_active_spared(old(store)@, now, key);
    law_second_chance_once(old(store)@, now, final(store)@, later, key);
}

/// The length counts the bindings, and a store is empty exactly where it is zero.
pub proof fn law_store_length(store: SessionStore, len: usize, empty: bool)
    requires
        call_ensures(SessionStore::len, (&store,), len),
        call_ensures(SessionStore::is_empty, (&store,), empty),
    ensures
        len == store@.entries.dom().len(),
        empty <==> len == 0,
{
}

} // verus!
