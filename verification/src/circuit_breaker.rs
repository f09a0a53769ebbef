//! Per-cluster circuit breaking: which requests ask a breaker, and what a
//! breaker learns of their outcome.

use vstd::prelude::*;

use crate::actions::bare_rejection;
use crate::actions::FilterAction;
use crate::actions::Rejection;
use crate::actions::RejectionView;
use crate::error::FilterError;
use crate::sorted_map::find_pair;
use crate::sorted_map::put_pair;
use crate::sorted_map::SortedMap;
use crate::text::concat5;

verus! {

/// Breaker settings of one cluster.
pub struct ClusterCircuitBreakerConfig {
    /// Cluster name.
    pub name: String,
    /// Consecutive failures that open the circuit.
    pub consecutive_failures: u32,
    /// Seconds a probe may stay in flight.
    pub half_open_timeout_secs: u64,
    /// Seconds the circuit stays open before a probe.
    pub recovery_window_secs: u64,
}

/// Seconds a probe may stay in flight where none are configured.
pub fn default_half_open_timeout_secs() -> (r: u64)
    ensures
        r == 30,
{
    30
}

/// The settings a breaker runs with.
#[derive(Clone, Copy, Debug, PartialEq, Eq, Structural)]
pub struct BreakerSettings {
    /// Consecutive failures that open the circuit.
    pub threshold: u32,
    /// Seconds the circuit stays open before a probe.
    pub recovery_window_secs: u64,
    /// Seconds a probe may stay in flight.
    pub half_open_timeout_secs: u64,
}

/// The first setting that is zero, if one is.
pub open spec fn zero_setting(cluster: ClusterCircuitBreakerConfig) -> Option<Seq<char>> {
    if cluster.consecutive_failures == 0 {
        Some("consecutive_failures"@)
    } else if cluster.recovery_window_secs == 0 {
        Some("recovery_window_secs"@)
    } else if cluster.half_open_timeout_secs == 0 {
        Some("half_open_timeout_secs"@)
    } else {
        None
    }
}

/// Why a cluster's settings are refused, if they are.
pub open spec fn cluster_error(cluster: ClusterCircuitBreakerConfig) -> Option<Seq<char>> {
    match zero_setting(cluster) {
        Some(field) => Some(
            "circuit_breaker: cluster '"@ + cluster.name@ + "': "@ + field + " must be > 0"@,
        ),
        None => None,
    }
}

/// Refuses settings that a breaker cannot act on: a zero threshold or recovery
/// window never opens or never retries, and a zero probe timeout makes every
/// probe stale at once.
pub fn validate_cluster(cluster: &ClusterCircuitBreakerConfig) -> (r: Result<(), FilterError>)
    ensures
        match cluster_error(*cluster) {
            None => r is Ok,
            Some(m) => r is Err && r->Err_0@ == m,
        },
{
    let field = if cluster.consecutive_failures == 0 {
        "consecutive_failures"
    } else if cluster.recovery_window_secs == 0 {
        "recovery_window_secs"
    } else if cluster.half_open_timeout_secs == 0 {
        "half_open_timeout_secs"
    } else {
        return Ok(());
    };
    Err(
        FilterError::new(
            concat5(
                "circuit_breaker: cluster '",
                cluster.name.as_str(),
                "': ",
                field,
                " must be > 0",
            ),
        ),
    )
}

/// The state of a breaker.
#[derive(Clone, Copy, Debug, PartialEq, Eq, Structural)]
pub enum CircuitState {
    /// Requests pass.
    Closed,
    /// Requests are refused.
    Open,
    /// One probe is in flight.
    HalfOpen,
}

/// What a breaker answers a request.
#[derive(Clone, Copy, Debug, PartialEq, Eq, Structural)]
pub enum CircuitCheck {
    /// The request passes, under this token.
    Allowed(u64),
    /// The request is refused.
    Rejected,
}

/// Whether the gauge reports the breaker as open; a probing one counts.
pub fn logical_open(state: CircuitState) -> (r: bool)
    ensures
        r == (state != CircuitState::Closed),
{
    match state {
        CircuitState::Closed => false,
        _ => true,
    }
}

/// What to publish on the gauge after an operation took a breaker from one
/// state to another: the new value where it flips, nothing otherwise.
pub fn gauge_update(before: CircuitState, after: CircuitState) -> (r: Option<bool>)
    ensures
        r == if (before == CircuitState::Closed) != (after == CircuitState::Closed) {
            Some(after != CircuitState::Closed)
        } else {
            None
        },
{
    if logical_open(before) != logical_open(after) {
        Some(logical_open(after))
    } else {
        None
    }
}

/// The settings a breaker of this cluster runs with.
pub open spec fn settings_of(cluster: ClusterCircuitBreakerConfig) -> BreakerSettings {
    BreakerSettings {
        threshold: cluster.consecutive_failures,
        recovery_window_secs: cluster.recovery_window_secs,
        half_open_timeout_secs: cluster.half_open_timeout_secs,
    }
}

/// The breakers of the clusters, or the first refusal. Of two clusters with one
/// name the later counts.
pub open spec fn breakers_of(clusters: Seq<ClusterCircuitBreakerConfig>) -> Result<
    Seq<(Seq<char>, BreakerSettings)>,
    Seq<char>,
>
    decreases clusters.len(),
{
    if clusters.len() == 0 {
        Ok(Seq::empty())
    } else {
        match breakers_of(clusters.drop_last()) {
            Err(m) => Err(m),
            Ok(before) => match cluster_error(clusters.last()) {
                Some(m) => Err(m),
                None => Ok(put_pair(before, clusters.last().name@, settings_of(clusters.last()))),
            },
        }
    }
}

proof fn lemma_breakers_prefix(clusters: Seq<ClusterCircuitBreakerConfig>, n: int)
    requires
        0 <= n <= clusters.len(),
        breakers_of(clusters.take(n)) is Err,
    ensures
        breakers_of(clusters) == breakers_of(clusters.take(n)),
    decreases clusters.len() - n,
{
    if n == clusters.len() {
        assert(clusters.take(n) =~= clusters);
    } else {
        assert(clusters.take(n + 1).drop_last() =~= clusters.take(n));
        lemma_breakers_prefix(clusters, n + 1);
    }
}

/// Rejects requests to clusters whose circuit is open.
pub struct CircuitBreakerFilter {
    /// Breaker settings by cluster.
    pub breakers: SortedMap<BreakerSettings>,
}

/// The cluster and token that a request was admitted under.
pub struct ActiveCircuitToken {
    /// Cluster whose breaker issued the token.
    pub cluster: String,
    /// The token.
    pub token: u64,
}

/// What the filter reads and leaves on a request.
pub struct CircuitContext {
    /// The cluster the request goes to, if one was selected.
    pub cluster: Option<String>,
    /// The token the request was admitted under, if any.
    pub active: Option<ActiveCircuitToken>,
}

/// Whether a request asks a breaker: its cluster has one.
pub open spec fn guarded(filter: CircuitBreakerFilter, cluster: Option<String>) -> bool {
    cluster matches Some(name) && find_pair(filter.breakers@, name@) is Some
}

/// What a breaker learns: the token it issued, and whether its request went well.
pub struct CircuitOutcome {
    /// Cluster whose breaker learns it.
    pub cluster: String,
    /// The token it issued.
    pub token: u64,
    /// Whether the upstream answered without a server error.
    pub success: bool,
}

impl CircuitBreakerFilter {
    /// Builds the filter.
    pub fn from_config(clusters: &Vec<ClusterCircuitBreakerConfig>) -> (r: Result<
        CircuitBreakerFilter,
        FilterError,
    >)
        ensures
            match breakers_of(clusters@) {
                Ok(breakers) => r is Ok && r->Ok_0.breakers@ == breakers,
                Err(m) => r is Err && r->Err_0@ == m,
            },
    {
        let mut breakers: SortedMap<BreakerSettings> = SortedMap::new();
        let mut i: usize = 0;
        proof {
            assert(clusters@.take(0) =~= Seq::empty());
        }
        while i < clusters.len()
            invariant
                i <= clusters@.len(),
                breakers_of(clusters@.take(i as int)) == Ok::<
                    Seq<(Seq<char>, BreakerSettings)>,
                    Seq<char>,
                >(breakers@),
            decreases clusters@.len() - i,
        {
            let cluster = &clusters[i];
            proof {
                assert(clusters@.take(i + 1).drop_last() =~= clusters@.take(i as int));
                if breakers_of(clusters@.take(i + 1)) is Err {
                    lemma_breakers_prefix(clusters@, i + 1);
                }
            }
            match validate_cluster(cluster) {
                Ok(()) => {},
                Err(e) => {
                    return Err(e);
                },
            }
            breakers.put(
                cluster.name.as_str(),
                BreakerSettings {
                    threshold: cluster.consecutive_failures,
                    recovery_window_secs: cluster.recovery_window_secs,
                    half_open_timeout_secs: cluster.half_open_timeout_secs,
                },
            );
            i += 1;
        }
        proof {
            assert(clusters@.take(clusters@.len() as int) =~= clusters@);
        }
        Ok(CircuitBreakerFilter { breakers })
    }

    /// The filter's name.
    pub fn name(&self) -> (r: &'static str)
        ensures
            r@ == "circuit_breaker"@,
    {
        "circuit_breaker"
    }

    /// The request hook: the cluster whose breaker is to be asked, if any.
    pub fn on_request(&self, ctx: &CircuitContext) -> (r: Option<String>)
        ensures
            r is Some <==> guarded(*self, ctx.cluster),
            r matches Some(name) ==> name@ == ctx.cluster->0@,
    {
        match &ctx.cluster {
            Some(name) => match self.breakers.get(name.as_str()) {
                Some(_) => Some(name.clone()),
                None => None,
            },
            None => None,
        }
    }

    /// After the breaker of `cluster` answered: the request goes on under the
    /// token, or is refused with 503.
    pub fn checked(&self, ctx: &mut CircuitContext, cluster: String, check: CircuitCheck) -> (r:
        FilterAction<()>)
        ensures
            match check {
                CircuitCheck::Allowed(token) => {
                    &&& r is Continue
                    &&& *final(ctx) == (CircuitContext {
                        active: Some(ActiveCircuitToken { cluster, token }),
                        ..*old(ctx)
                    })
                },
                CircuitCheck::Rejected => {
                    &&& r is Reject
                    &&& r->Reject_0@ == (RejectionView {
                        headers: seq![("X-Circuit-State"@, "open"@)],
                        ..bare_rejection(503)
                    })
                    &&& *final(ctx) == *old(ctx)
                },
            },
    {
        match check {
            CircuitCheck::Allowed(token) => {
                ctx.active = Some(ActiveCircuitToken { cluster, token });
                FilterAction::Continue
            },
            CircuitCheck::Rejected => {
                let rejection = Rejection::status(503).with_header("X-Circuit-State", "open");
                proof {
                    assert(rejection@.headers =~= seq![("X-Circuit-State"@, "open"@)]);
                }
                FilterAction::Reject(rejection)
            },
        }
    }

    /// The response hook: what a breaker learns, if the request was admitted by
    /// one. No response at all counts as a failure. The token is used up.
    pub fn on_response(&self, ctx: &mut CircuitContext, status: Option<u16>) -> (r: Option<
        CircuitOutcome,
    >)
        ensures
            *final(ctx) == (CircuitContext { active: None, ..*old(ctx) }),
            match old(ctx).active {
                Some(active) => {
                    &&& r is Some <==> find_pair(self.breakers@, active.cluster@) is Some
                    &&& r matches Some(outcome) ==> outcome == (CircuitOutcome {
                        cluster: active.cluster,
                        token: active.token,
                        success: status matches Some(code) && !(500 <= code < 600),
                    })
                },
                None => r is None,
            },
    {
        match ctx.active.take() {
            None => None,
            Some(active) => {
                let success = match status {
                    Some(code) => !(500 <= code && code < 600),
                    None => false,
                };
                match self.breakers.get(active.cluster.as_str()) {
                    Some(_) => Some(
                        CircuitOutcome { cluster: active.cluster, token: active.token, success },
                    ),
                    None => None,
                }
            },
        }
    }
}

/// Breakers of different clusters are independent: settings of one cluster
/// never change those of another.
pub proof fn law_clusters_isolated(
    clusters: Seq<ClusterCircuitBreakerConfig>,
    added: ClusterCircuitBreakerConfig,
    other: Seq<char>,
)
    requires
        breakers_of(clusters) is Ok,
        cluster_error(added) is None,
        other != added.name@,
    ensures
        breakers_of(clusters.push(added)) is Ok,
        find_pair(breakers_of(clusters.push(added))->Ok_0, other) == find_pair(
            breakers_of(clusters)->Ok_0,
            other,
        ),
        find_pair(breakers_of(clusters.push(added))->Ok_0, added.name@) == Some(settings_of(added)),
{
    assert(clusters.push(added).drop_last() =~= clusters);
    crate::sorted_map::law_put_find(
        breakers_of(clusters)->Ok_0,
        added.name@,
        settings_of(added),
        other,
    );
}

/// Settings are accepted exactly where each of the three is positive; else the
/// first that is zero is named, in the order failures, window, timeout.
pub proof fn law_zero_settings(cluster: ClusterCircuitBreakerConfig)
    ensures
        cluster_error(cluster) is None <==> cluster.consecutive_failures > 0
            && cluster.recovery_window_secs > 0 && cluster.half_open_timeout_secs > 0,
        cluster.consecutive_failures == 0 ==> cluster_error(cluster) == Some(
            "circuit_breaker: cluster '"@ + cluster.name@ + "': "@ + "consecutive_failures"@
                + " must be > 0"@,
        ),
        cluster.consecutive_failures > 0 && cluster.recovery_window_secs == 0 ==> cluster_error(
            cluster,
        ) == Some(
            "circuit_breaker: cluster '"@ + cluster.name@ + "': "@ + "recovery_window_secs"@
                + " must be > 0"@,
        ),
        cluster.consecutive_failures > 0 && cluster.recovery_window_secs > 0
            && cluster.half_open_timeout_secs == 0 ==> cluster_error(cluster) == Some(
            "circuit_breaker: cluster '"@ + cluster.name@ + "': "@ + "half_open_timeout_secs"@
                + " must be > 0"@,
        ),
{
}

/// Each configured cluster has a breaker with its own settings, the last of its
/// name where several have one; a cluster that is not configured has none. The
/// first cluster with refused settings fails the configuration.
pub proof fn law_breakers_configured(
    clusters: Seq<ClusterCircuitBreakerConfig>,
    name: Seq<char>,
)
    ensures
        breakers_of(clusters) is Ok <==> forall|i: int|
            0 <= i < clusters.len() ==> cluster_error(#[trigger] clusters[i]) is None,
        breakers_of(clusters) matches Err(m) ==> exists|i: int|
            0 <= i < clusters.len() && cluster_error(#[trigger] clusters[i]) == Some(m)
                && forall|j: int| 0 <= j < i ==> cluster_error(#[trigger] clusters[j]) is None,
        breakers_of(clusters) matches Ok(breakers) ==> (find_pair(breakers, name) is Some
            <==> exists|i: int| 0 <= i < clusters.len() && (#[trigger] clusters[i]).name@ == name),
    decreases clusters.len(),
{
    if clusters.len() > 0 {
        let front = clusters.drop_last();
        let last = clusters.len() - 1;
        law_breakers_configured(front, name);
        assert forall|i: int| 0 <= i < last implies #[trigger] clusters[i] == front[i] by {}
        assert(clusters[last] == clusters.last());
        match breakers_of(front) {
            Err(m) => {
                let i = choose|i: int|
                    0 <= i < front.len() && cluster_error(#[trigger] front[i]) == Some(m)
                        && forall|j: int| 0 <= j < i ==> cluster_error(#[trigger] front[j]) is None;
                assert(cluster_error(clusters[i]) == Some(m));
                assert forall|j: int| 0 <= j < i implies cluster_error(
                    #[trigger] clusters[j],
                ) is None by {
                    assert(cluster_error(front[j]) is None);
                }
            },
            Ok(before) => {
                assert forall|i: int| 0 <= i < last implies cluster_error(
                    #[trigger] clusters[i],
                ) is None by {
                    assert(cluster_error(front[i]) is None);
                }
                if cluster_error(clusters.last()) is None {
                    crate::sorted_map::law_put_find(
                        before,
                        clusters.last().name@,
                        settings_of(clusters.last()),
                        name,
                    );
                    if find_pair(before, name) is Some {
                        let i = choose|i: int|
                            0 <= i < front.len() && (#[trigger] front[i]).name@ == name;
                        assert(clusters[i].name@ == name);
                    }
                    if clusters.last().name@ != name && (exists|i: int|
                        0 <= i < clusters.len() && (#[trigger] clusters[i]).name@ == name) {
                        let i = choose|i: int|
                            0 <= i < clusters.len() && (#[trigger] clusters[i]).name@ == name;
                        assert(front[i].name@ == name);
                    }
                }
            },
        }
    }
}

/// The breaker of a cluster runs with what the last entry of its name configures,
/// each setting in its place.
pub proof fn law_last_settings_count(clusters: Seq<ClusterCircuitBreakerConfig>, i: int)
    requires
        breakers_of(clusters) is Ok,
        0 <= i < clusters.len(),
        forall|j: int| i < j < clusters.len() ==> (#[trigger] clusters[j]).name@
            != clusters[i].name@,
    ensures
        find_pair(breakers_of(clusters)->Ok_0, clusters[i].name@) == Some(
            BreakerSettings {
                threshold: clusters[i].consecutive_failures,
                recovery_window_secs: clusters[i].recovery_window_secs,
                half_open_timeout_secs: clusters[i].half_open_timeout_secs,
            },
        ),
    decreases clusters.len(),
{
    let front = clusters.drop_last();
    let before = breakers_of(front)->Ok_0;
    crate::sorted_map::law_put_find(
        before,
        clusters.last().name@,
        settings_of(clusters.last()),
        clusters[i].name@,
    );
    if i < clusters.len() - 1 {
        assert(clusters[clusters.len() - 1].name@ != clusters[i].name@);
        assert forall|j: int| i < j < front.len() implies (#[trigger] front[j]).name@
            != front[i].name@ by {
            assert(front[j] == clusters[j]);
        }
        law_last_settings_count(front, i);
    }
}

/// A breaker is asked exactly where a cluster was selected and is configured.
pub proof fn law_guarded_clusters(filter: CircuitBreakerFilter, cluster: Option<String>)
    ensures
        guarded(filter, cluster) <==> cluster is Some && find_pair(
            filter.breakers@,
            cluster->0@,
        ) is Some,
{
}

/// The gauge is published exactly where a breaker turns from closed to anything
/// else or back, and then says which; so after every change it tells the state.
pub proof fn law_gauge_follows(before: CircuitState, after: CircuitState, r: Option<bool>)
    requires
        call_ensures(gauge_update, (before, after), r),
    ensures
        r is Some <==> (before is Closed) != (after is Closed),
        r matches Some(open) ==> (open <==> after is Open || after is HalfOpen),
{
}

/// A request that a breaker admitted is answered for once: the response phase
/// reports the token it was admitted under to the cluster that issued it, as a
/// failure exactly where there was no response or a server error; asked again, it
/// reports nothing.
pub proof fn law_outcome_reported_once(
    filter: CircuitBreakerFilter,
    admitted: &mut CircuitContext,
    cluster: String,
    token: u64,
    action: FilterAction<()>,
    first: &mut CircuitContext,
    status: Option<u16>,
    outcome: Option<CircuitOutcome>,
    second: &mut CircuitContext,
    later_status: Option<u16>,
    nothing: Option<CircuitOutcome>,
)
    requires
        call_ensures(
            CircuitBreakerFilter::checked,
            (&filter, admitted, cluster, CircuitCheck::Allowed(token)),
            action,
        ),
        *old(first) == *final(admitted),
        call_ensures(CircuitBreakerFilter::on_response, (&filter, first, status), outcome),
        *old(second) == *final(first),
        call_ensures(CircuitBreakerFilter::on_response, (&filter, second, later_status), nothing),
        find_pair(filter.breakers@, cluster@) is Some,
    ensures
        action is Continue,
        final(admitted).cluster == old(admitted).cluster,
        outcome is Some,
        outcome->0.cluster == cluster,
        outcome->0.token == token,
        outcome->0.success <==> status is Some && status->0 as int / 100 != 5,
        nothing is None,
        final(first).cluster == old(first).cluster,
{
}

/// A request that a breaker refuses is answered with 503 and the state of the
/// circuit, and nothing is noted on it.
pub proof fn law_refused_by_breaker(
    filter: CircuitBreakerFilter,
    ctx: &mut CircuitContext,
    cluster: String,
    r: FilterAction<()>,
)
    requires
        call_ensures(
            CircuitBreakerFilter::checked,
            (&filter, ctx, cluster, CircuitCheck::Rejected),
            r,
        ),
    ensures
        *final(ctx) == *old(ctx),
        r is Reject,
        r->Reject_0@.status == 503,
        r->Reject_0@.body is None,
        r->Reject_0@.headers.len() == 1,
        r->Reject_0@.headers[0] == ("X-Circuit-State"@, "open"@),
{
}

/// The breaker that a request asks is that of its own cluster, where that is
/// configured.
pub proof fn law_own_breaker_asked(
    filter: CircuitBreakerFilter,
    ctx: CircuitContext,
    r: Option<String>,
)
    requires
        call_ensures(CircuitBreakerFilter::on_request, (&filter, &ctx), r),
    ensures
        r is Some <==> ctx.cluster is Some && find_pair(filter.breakers@, ctx.cluster->0@) is Some,
        r is Some ==> r->0@ == ctx.cluster->0@,
{
}

} // verus!
