//! What the embedding host registers: plugin factories for policy `kind`s the
//! engine does not bundle, and the connector that policy calls share.

use vstd::prelude::*;

use crate::sorted_map::ascending;
use crate::sorted_map::find_pair;
use crate::sorted_map::law_put_find;
use crate::sorted_map::put_pair;
use crate::sorted_map::SortedMap;

verus! {

/// Host registrations by the `kind` they serve. `F` builds a fresh factory
/// each time it is called, so one registration serves every filter instance.
pub struct HostFactories<F> {
    /// Factories by kind.
    pub by_kind: SortedMap<F>,
}

impl<F> HostFactories<F> {
    /// No registrations.
    pub fn new() -> (r: HostFactories<F>)
        ensures
            r.by_kind@ == Seq::<(Seq<char>, F)>::empty(),
    {
        HostFactories { by_kind: SortedMap::new() }
    }

    /// The factory registered for a kind.
    pub fn factory(&self, kind: &str) -> (r: Option<&F>)
        ensures
            r matches Some(f) ==> find_pair(self.by_kind@, kind@) == Some(*f),
            r is None ==> find_pair(self.by_kind@, kind@) is None,
    {
        self.by_kind.get(kind)
    }
}

/// Registers a factory for a `kind`; a later registration of the same kind
/// replaces the earlier one.
pub fn register_policy_plugin_factory<F>(factories: &mut HostFactories<F>, kind: &str, make: F)
    ensures
        final(factories).by_kind@ == put_pair(old(factories).by_kind@, kind@, make),
        ascending(final(factories).by_kind@),
{
    factories.by_kind.put(kind, make);
}

/// Every registration, by kind, in the order of the kinds. Each filter instance
/// builds fresh factories from them after the engine's own, so that a registered
/// kind replaces a bundled one.
pub fn host_plugin_factories<F>(factories: &HostFactories<F>) -> (r: Vec<(String, &F)>)
    ensures
        r@.map_values(|p: (String, &F)| (p.0@, *p.1)) == factories.by_kind@,
        ascending(factories.by_kind@),
{
    let mut out: Vec<(String, &F)> = Vec::new();
    let count: usize = factories.by_kind.len();
    let mut i: usize = 0;
    while i < count
        invariant
            count == factories.by_kind@.len(),
            i <= count,
            out@.len() == i,
            forall|k: int|
                0 <= k < i ==> ((#[trigger] out@[k]).0@, *out@[k].1) == factories.by_kind@[k],
        decreases count - i,
    {
        out.push((factories.by_kind.key_at(i).clone(), factories.by_kind.value_at(i)));
        i += 1;
    }
    proof {
        assert(out@.map_values(|p: (String, &F)| (p.0@, *p.1)) =~= factories.by_kind@);
    }
    out
}

/// How many kinds are registered.
pub fn host_plugin_count<F>(factories: &HostFactories<F>) -> (r: usize)
    ensures
        r == factories.by_kind@.len(),
{
    factories.by_kind.len()
}

/// Registering a kind twice keeps the later factory, and never touches
/// another kind.
pub proof fn law_last_registration_wins<F>(
    registered: Seq<(Seq<char>, F)>,
    kind: Seq<char>,
    first: F,
    second: F,
    other: Seq<char>,
)
    ensures
        find_pair(put_pair(put_pair(registered, kind, first), kind, second), kind) == Some(second),
        other != kind ==> find_pair(
            put_pair(put_pair(registered, kind, first), kind, second),
            other,
        ) == find_pair(registered, other),
{
    law_put_find(registered, kind, first, other);
    law_put_find(put_pair(registered, kind, first), kind, second, other);
}

/// Set-once storage for the connector that policy calls borrow. A connector is
/// known by the number of its pool.
pub struct ConnectorHolder {
    held: Option<u64>,
}

impl View for ConnectorHolder {
    type V = Option<u64>;

    closed spec fn view(&self) -> Option<u64> {
        self.held
    }
}

impl ConnectorHolder {
    /// An empty holder.
    pub fn new() -> (r: ConnectorHolder)
        ensures
            r@ is None,
    {
        ConnectorHolder { held: None }
    }

    /// Stores a pool, or keeps the one already held. Answers whether the held
    /// pool is the one passed in.
    pub fn set(&mut self, pool: u64) -> (r: bool)
        ensures
            final(self)@ == match old(self)@ {
                Some(held) => Some(held),
                None => Some(pool),
            },
            r == (final(self)@ == Some(pool)),
    {
        match self.held {
            Some(held) => held == pool,
            None => {
                self.held = Some(pool);
                true
            },
        }
    }

    /// The held pool, if one was stored.
    pub fn get(&self) -> (r: Option<u64>)
        ensures
            r == self@,
    {
        self.held
    }
}

/// Registers the connector that policy calls share with the data plane.
/// Registering the held pool again succeeds; another one is refused and the
/// first stays.
pub fn set_policy_subrequest_connector(holder: &mut ConnectorHolder, pool: u64) -> (r: bool)
    ensures
        final(holder)@ == match old(holder)@ {
            Some(held) => Some(held),
            None => Some(pool),
        },
        r == (final(holder)@ == Some(pool)),
{
    holder.set(pool)
}

/// The first connector that is registered stays: registering it again succeeds,
/// and any other is refused.
pub proof fn law_first_connector_stays(
    holder: &mut ConnectorHolder,
    first: u64,
    stored: bool,
    later: &mut ConnectorHolder,
    second: u64,
    stored_later: bool,
)
    requires
        old(holder)@ is None,
        call_ensures(ConnectorHolder::set, (holder, first), stored),
        *old(later) == *final(holder),
        call_ensures(ConnectorHolder::set, (later, second), stored_later),
    ensures
        stored,
        stored_later <==> second == first,
        final(later)@ == Some(first),
{
}

} // verus!
