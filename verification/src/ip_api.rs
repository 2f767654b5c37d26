//! The IP-API solver: asks a public "what-is-my-ip" service for the caller's
//! external address, caches the answer, and backs off exponentially while
//! the service keeps rate-limiting. The upstream HTTP exchange happens
//! outside; this module decides, from the cache and the clock, whether a
//! call is needed, and folds each response back into the cache.

use vstd::prelude::*;

use crate::addr::{AddressKind, IpAddress};
use crate::crd::{copy_addresses, IpSolverProvider};
use crate::errors::SolverError;

verus! {

/// The longest a rate-limit backoff may grow: two hours, in milliseconds.
pub const RATELIMIT_BACKOFF_MAX_MS: u64 = 7_200_000;

/// How long an answer from ipify is cached, in milliseconds.
pub const IPIFY_CACHE_TTL_MS: u64 = 300_000;

/// How long an answer from my-ip.io is cached, in milliseconds.
pub const MYIP_CACHE_TTL_MS: u64 = 900_000;

/// A classified failure of one upstream provider call.
#[derive(Debug)]
pub enum IpProviderError {
    /// The provider rate-limited us; retry no sooner than `remaining_ms`.
    RateLimited { remaining_ms: u64 },
    /// The request itself failed (transport, non-success status).
    RequestFailed(String),
    /// The provider answered, but not with a usable address.
    InvalidResponse(String),
}

/// The outcome of one upstream provider call, with the TTL the provider's
/// answer should be cached for.
#[derive(Debug)]
pub struct IpProviderResponse {
    pub ttl_ms: u64,
    pub outcome: Result<Vec<IpAddress>, IpProviderError>,
}

/// Structural equality of two provider errors.
pub open spec fn provider_error_eq(a: IpProviderError, b: IpProviderError) -> bool {
    match a {
        IpProviderError::RateLimited { remaining_ms: x } => b matches IpProviderError::RateLimited {
            remaining_ms: y } && x == y,
        IpProviderError::RequestFailed(x) => b matches IpProviderError::RequestFailed(y) && x@
            == y@,
        IpProviderError::InvalidResponse(x) => b matches IpProviderError::InvalidResponse(y) && x@
            == y@,
    }
}

impl IpProviderResponse {
    pub fn new(ttl_ms: u64, outcome: Result<Vec<IpAddress>, IpProviderError>) -> (r:
        IpProviderResponse)
        ensures
            r == (IpProviderResponse { ttl_ms, outcome }),
    {
        IpProviderResponse { ttl_ms, outcome }
    }

    /// Classifies an HTTP exchange that reached the provider: status 429 is
    /// a rate limit, any other non-success status a failed request, a
    /// success without a parsable address an invalid response, and a success
    /// carrying an address is that address.
    pub fn from_http(ttl_ms: u64, status: u16, body_ip: Option<IpAddress>, detail: String) -> (r:
        IpProviderResponse)
        ensures
            r.ttl_ms == ttl_ms,
            status == 429 ==> (r.outcome matches Err(IpProviderError::RateLimited { remaining_ms })
                && remaining_ms == ttl_ms),
            status != 429 && status >= 400 ==> (r.outcome matches Err(
                IpProviderError::RequestFailed(d),
            ) && d@ == detail@),
            status < 400 && body_ip is None ==> (r.outcome matches Err(
                IpProviderError::InvalidResponse(d),
            ) && d@ == detail@),
            body_ip matches Some(ip) ==> (status < 400 ==> (r.outcome matches Ok(a) && a@ == seq![
                ip,
            ])),
    {
        if status == 429 {
            IpProviderResponse {
                ttl_ms,
                outcome: Err(IpProviderError::RateLimited { remaining_ms: ttl_ms }),
            }
        } else if status >= 400 {
            IpProviderResponse { ttl_ms, outcome: Err(IpProviderError::RequestFailed(detail)) }
        } else {
            match body_ip {
                Some(ip) => {
                    let mut addrs: Vec<IpAddress> = Vec::new();
                    addrs.push(ip);
                    IpProviderResponse { ttl_ms, outcome: Ok(addrs) }
                },
                None => IpProviderResponse {
                    ttl_ms,
                    outcome: Err(IpProviderError::InvalidResponse(detail)),
                },
            }
        }
    }
}

impl IpProviderError {
    /// The corresponding query-time solver error.
    pub fn to_solver_error(&self) -> (r: SolverError)
        ensures
            *self matches IpProviderError::RateLimited { .. } ==> r.reason@
                == "rate limited by IP provider"@,
            *self matches IpProviderError::RequestFailed(s) ==> r.reason@
                == "IP provider request failed"@,
            *self matches IpProviderError::InvalidResponse(s) ==> r.reason@
                == "IP provider response is invalid"@,
    {
        match self {
            IpProviderError::RateLimited { .. } => SolverError {
                reason: "rate limited by IP provider".to_owned(),
            },
            IpProviderError::RequestFailed(_) => SolverError {
                reason: "IP provider request failed".to_owned(),
            },
            IpProviderError::InvalidResponse(_) => SolverError {
                reason: "IP provider response is invalid".to_owned(),
            },
        }
    }
}

/// What an IP-API solver remembers between queries: nothing, a fresh answer,
/// or a rate-limit marker. Entries are never evicted eagerly; they expire
/// lazily by timestamp comparison at the next query.
#[derive(Debug)]
pub enum CacheState {
    Empty,
    Fresh { addresses: Vec<IpAddress>, acquired_ms: u64, ttl_ms: u64 },
    RateLimited { acquired_ms: u64, ttl_ms: u64 },
}

/// Whether a cache entry acquired at `acquired_ms` with TTL `ttl_ms` is
/// still valid at `now_ms`.
pub open spec fn unexpired(acquired_ms: u64, ttl_ms: u64, now_ms: u64) -> bool {
    now_ms - acquired_ms <= ttl_ms
}

/// How long a cache entry is still valid at `now_ms` (zero once expired).
pub open spec fn spec_remaining_ms(acquired_ms: u64, ttl_ms: u64, now_ms: u64) -> u64 {
    if now_ms <= acquired_ms {
        ttl_ms
    } else if now_ms - acquired_ms <= ttl_ms {
        (ttl_ms - (now_ms - acquired_ms)) as u64
    } else {
        0
    }
}

/// The TTL after one more rate-limited response on top of a previous one:
/// doubled, capped at the backoff maximum.
pub open spec fn backoff_ttl(prev_ttl_ms: u64) -> u64 {
    if 2 * (prev_ttl_ms as int) <= RATELIMIT_BACKOFF_MAX_MS as int {
        (2 * prev_ttl_ms) as u64
    } else {
        RATELIMIT_BACKOFF_MAX_MS
    }
}

/// Structural equality of two cache states.
pub open spec fn cache_eq(a: CacheState, b: CacheState) -> bool {
    match a {
        CacheState::Empty => b is Empty,
        CacheState::Fresh { addresses: xa, acquired_ms: ta, ttl_ms: la } => b matches
            CacheState::Fresh { addresses: xb, acquired_ms: tb, ttl_ms: lb } && xa@ == xb@ && ta
            == tb && la == lb,
        CacheState::RateLimited { acquired_ms: ta, ttl_ms: la } => b matches
            CacheState::RateLimited { acquired_ms: tb, ttl_ms: lb } && ta == tb && la == lb,
    }
}

/// Whether a query at `now_ms` must call the upstream provider: yes unless
/// an unexpired answer or an unexpired rate-limit marker is cached.
pub open spec fn cache_needs_call(cache: CacheState, now_ms: u64) -> bool {
    match cache {
        CacheState::Empty => true,
        CacheState::Fresh { addresses, acquired_ms, ttl_ms } => !unexpired(
            acquired_ms,
            ttl_ms,
            now_ms,
        ),
        CacheState::RateLimited { acquired_ms, ttl_ms } => !unexpired(
            acquired_ms,
            ttl_ms,
            now_ms,
        ),
    }
}

/// The addresses a query at `now_ms` is served from the cache, if any.
pub open spec fn cache_hit_addresses(cache: CacheState, now_ms: u64) -> Option<Seq<IpAddress>> {
    match cache {
        CacheState::Fresh { addresses, acquired_ms, ttl_ms } => if unexpired(
            acquired_ms,
            ttl_ms,
            now_ms,
        ) {
            Some(addresses@)
        } else {
            None
        },
        _ => None,
    }
}

/// The cache state after folding in an upstream response at `now_ms`:
/// a successful answer is cached for the provider's TTL; a rate limit on top
/// of a cached rate limit doubles the previous TTL (capped); a first rate
/// limit is cached for the provider's TTL; any other failure leaves the
/// cache empty, so a transient failure is never recorded as a rate limit.
pub open spec fn next_cache_state(
    cache: CacheState,
    now_ms: u64,
    resp: IpProviderResponse,
) -> CacheState {
    match resp.outcome {
        Ok(addrs) => CacheState::Fresh {
            addresses: addrs,
            acquired_ms: now_ms,
            ttl_ms: resp.ttl_ms,
        },
        Err(IpProviderError::RateLimited { .. }) => match cache {
            CacheState::RateLimited { acquired_ms, ttl_ms } => CacheState::RateLimited {
                acquired_ms: now_ms,
                ttl_ms: backoff_ttl(ttl_ms),
            },
            _ => CacheState::RateLimited { acquired_ms: now_ms, ttl_ms: resp.ttl_ms },
        },
        Err(_) => CacheState::Empty,
    }
}

/// What a cache lookup decides: serve cached addresses, report a still-valid
/// rate limit, or call the upstream provider.
#[derive(Debug)]
pub enum CacheDecision {
    UseCached(Vec<IpAddress>),
    Backoff { remaining_ms: u64 },
    CallUpstream,
}

/// An IP-API solver instance: the provider it asks and the cached outcome of
/// its last upstream call.
#[derive(Debug)]
pub struct IpApiSolver {
    pub provider: IpSolverProvider,
    pub cache: CacheState,
}

impl IpApiSolver {
    pub fn new(provider: IpSolverProvider) -> (r: IpApiSolver)
        ensures
            r.provider == provider,
            r.cache is Empty,
    {
        IpApiSolver { provider, cache: CacheState::Empty }
    }

    /// The URL the solver's provider answers on for the given family.
    pub fn upstream_url(&self, kind: AddressKind) -> (r: &'static str)
        ensures
            self.provider == IpSolverProvider::MyIp ==> r@ == MyIp::spec_url(kind),
            self.provider == IpSolverProvider::Ipify ==> r@ == Ipify::spec_url(kind),
    {
        match self.provider {
            IpSolverProvider::MyIp => MyIp::new().url(kind),
            IpSolverProvider::Ipify => Ipify::new().url(kind),
        }
    }

    /// The TTL the solver's provider wants its answers cached for.
    pub fn upstream_ttl_ms(&self) -> (r: u64)
        ensures
            self.provider == IpSolverProvider::MyIp ==> r == MYIP_CACHE_TTL_MS,
            self.provider == IpSolverProvider::Ipify ==> r == IPIFY_CACHE_TTL_MS,
    {
        match self.provider {
            IpSolverProvider::MyIp => MYIP_CACHE_TTL_MS,
            IpSolverProvider::Ipify => IPIFY_CACHE_TTL_MS,
        }
    }

    /// Consults the cache: an unexpired answer is served as it is, an
    /// unexpired rate-limit marker is reported without touching the
    /// provider, and anything else requires an upstream call.
    pub fn cache_lookup(&self, now_ms: u64) -> (r: CacheDecision)
        ensures
            r is CallUpstream <==> cache_needs_call(self.cache, now_ms),
            r matches CacheDecision::UseCached(a) ==> cache_hit_addresses(self.cache, now_ms)
                == Some(a@),
            cache_hit_addresses(self.cache, now_ms) is Some <==> r is UseCached,
            r matches CacheDecision::Backoff { remaining_ms } ==> self.cache matches
                CacheState::RateLimited { acquired_ms, ttl_ms } && unexpired(
                acquired_ms,
                ttl_ms,
                now_ms,
            ) && remaining_ms == spec_remaining_ms(acquired_ms, ttl_ms, now_ms),
    {
        match &self.cache {
            CacheState::Empty => CacheDecision::CallUpstream,
            CacheState::Fresh { addresses, acquired_ms, ttl_ms } => {
                if now_ms >= *acquired_ms && now_ms - *acquired_ms > *ttl_ms {
                    CacheDecision::CallUpstream
                } else {
                    CacheDecision::UseCached(copy_addresses(addresses))
                }
            },
            CacheState::RateLimited { acquired_ms, ttl_ms } => {
                if now_ms >= *acquired_ms && now_ms - *acquired_ms > *ttl_ms {
                    CacheDecision::CallUpstream
                } else {
                    let remaining: u64 = if now_ms <= *acquired_ms {
                        *ttl_ms
                    } else {
                        *ttl_ms - (now_ms - *acquired_ms)
                    };
                    CacheDecision::Backoff { remaining_ms: remaining }
                }
            },
        }
    }

    /// Folds an upstream response into the cache and returns what the query
    /// answers: the addresses on success, and on a rate limit the error with
    /// the TTL the solver will now back off for.
    pub fn apply_response(&mut self, now_ms: u64, resp: IpProviderResponse) -> (r: Result<
        Vec<IpAddress>,
        IpProviderError,
    >)
        ensures
            cache_eq(final(self).cache, next_cache_state(old(self).cache, now_ms, resp)),
            final(self).provider == old(self).provider,
            resp.outcome matches Ok(addrs) ==> (r matches Ok(a) && a@ == addrs@),
            resp.outcome matches Err(IpProviderError::RateLimited { .. }) ==> (r matches Err(
                IpProviderError::RateLimited { remaining_ms },
            ) && (final(self).cache matches CacheState::RateLimited { ttl_ms, .. } && remaining_ms
                == ttl_ms)),
            resp.outcome matches Err(e) ==> (!(e matches IpProviderError::RateLimited { .. }) ==> (
            r matches Err(e2) && provider_error_eq(e2, e))),
    {
        match resp.outcome {
            Ok(addrs) => {
                let out = copy_addresses(&addrs);
                self.cache = CacheState::Fresh {
                    addresses: addrs,
                    acquired_ms: now_ms,
                    ttl_ms: resp.ttl_ms,
                };
                Ok(out)
            },
            Err(IpProviderError::RateLimited { .. }) => {
                let new_ttl: u64 = match &self.cache {
                    CacheState::RateLimited { ttl_ms, .. } => {
                        if *ttl_ms <= RATELIMIT_BACKOFF_MAX_MS / 2 {
                            *ttl_ms * 2
                        } else {
                            RATELIMIT_BACKOFF_MAX_MS
                        }
                    },
                    _ => resp.ttl_ms,
                };
                self.cache = CacheState::RateLimited { acquired_ms: now_ms, ttl_ms: new_ttl };
                Err(IpProviderError::RateLimited { remaining_ms: new_ttl })
            },
            Err(e) => {
                self.cache = CacheState::Empty;
                Err(e)
            },
        }
    }
}

/// The ipify provider: URLs and caching TTL.
#[derive(Debug)]
pub struct Ipify {}

impl Ipify {
    pub fn new() -> (r: Ipify) {
        Ipify {  }
    }

    /// The ipify endpoint for the given family.
    pub open spec fn spec_url(kind: AddressKind) -> Seq<char> {
        match kind {
            AddressKind::IPv4 => "https://api.ipify.org?format=json"@,
            AddressKind::IPv6 => "https://api6.ipify.org?format=json"@,
        }
    }

    pub fn url(&self, kind: AddressKind) -> (r: &'static str)
        ensures
            r@ == Ipify::spec_url(kind),
    {
        match kind {
            AddressKind::IPv4 => "https://api.ipify.org?format=json",
            AddressKind::IPv6 => "https://api6.ipify.org?format=json",
        }
    }

    pub fn cache_ttl_ms(&self) -> (r: u64)
        ensures
            r == IPIFY_CACHE_TTL_MS,
    {
        IPIFY_CACHE_TTL_MS
    }
}

/// The my-ip.io provider: URLs and caching TTL.
#[derive(Debug)]
pub struct MyIp {}

impl MyIp {
    pub fn new() -> (r: MyIp) {
        MyIp {  }
    }

    /// The my-ip.io endpoint for the given family.
    pub open spec fn spec_url(kind: AddressKind) -> Seq<char> {
        match kind {
            AddressKind::IPv4 => "https://api4.my-ip.io/v2/ip.json"@,
            AddressKind::IPv6 => "https://api6.my-ip.io/v2/ip.json"@,
        }
    }

    pub fn url(&self, kind: AddressKind) -> (r: &'static str)
        ensures
            r@ == MyIp::spec_url(kind),
    {
        match kind {
            AddressKind::IPv4 => "https://api4.my-ip.io/v2/ip.json",
            AddressKind::IPv6 => "https://api6.my-ip.io/v2/ip.json",
        }
    }

    pub fn cache_ttl_ms(&self) -> (r: u64)
        ensures
            r == MYIP_CACHE_TTL_MS,
    {
        MYIP_CACHE_TTL_MS
    }
}

/// A successful answer at `now_ms` is served from the cache, unchanged, by
/// every later lookup that falls within its TTL: no second upstream call is
/// made, and the addresses are exactly the cached ones. Together with the
/// exact contracts of the pure solvers, this is what makes re-running the
/// pipeline with no upstream state change yield the same addresses.
pub proof fn lemma_success_serves_from_cache(
    cache: CacheState,
    now_ms: u64,
    resp: IpProviderResponse,
    later_ms: u64,
)
    requires
        resp.outcome is Ok,
        later_ms - now_ms <= resp.ttl_ms,
    ensures
        !cache_needs_call(next_cache_state(cache, now_ms, resp), later_ms),
        cache_hit_addresses(next_cache_state(cache, now_ms, resp), later_ms) == Some(
            resp.outcome->Ok_0@,
        ),
{
}

/// Once a cached answer's TTL has elapsed, the next query calls upstream
/// again.
pub proof fn lemma_expired_cache_calls_upstream(
    cache: CacheState,
    now_ms: u64,
    resp: IpProviderResponse,
    later_ms: u64,
)
    requires
        resp.outcome is Ok,
        later_ms - now_ms > resp.ttl_ms,
    ensures
        cache_needs_call(next_cache_state(cache, now_ms, resp), later_ms),
{
}

/// Two consecutive rate-limited responses: whatever the cache held before
/// (as long as it was not already a rate limit), the second backoff TTL is
/// exactly the first response's TTL doubled, capped at the backoff maximum.
pub proof fn lemma_backoff_doubles(
    cache: CacheState,
    now1_ms: u64,
    resp1: IpProviderResponse,
    now2_ms: u64,
    resp2: IpProviderResponse,
)
    requires
        !(cache is RateLimited),
        resp1.outcome matches Err(IpProviderError::RateLimited { .. }),
        resp2.outcome matches Err(IpProviderError::RateLimited { .. }),
    ensures
        next_cache_state(next_cache_state(cache, now1_ms, resp1), now2_ms, resp2) matches
            CacheState::RateLimited { acquired_ms, ttl_ms } && acquired_ms == now2_ms && ttl_ms
            == backoff_ttl(resp1.ttl_ms),
        backoff_ttl(resp1.ttl_ms) as int == if 2 * (resp1.ttl_ms as int) <= (
        RATELIMIT_BACKOFF_MAX_MS as int) {
            2 * (resp1.ttl_ms as int)
        } else {
            RATELIMIT_BACKOFF_MAX_MS as int
        },
{
}

} // verus!
