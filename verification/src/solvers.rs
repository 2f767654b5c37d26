//! The solver instances: the live, stateful counterparts of the solver
//! configurations. A query is driven in two steps: `begin_query` decides
//! from the instance's state what can be answered at once and what upstream
//! call is needed; `finish_upstream` folds the upstream outcome back in.
//! Everything the solvers decide is here; the network calls themselves are
//! made by the caller between the two steps.

use vstd::prelude::*;

use crate::addr::{AddressKind, IpAddress};
use crate::crd::{clone_partial_solvers, copy_addresses, partial_solvers_eq, IpSolverProvider, SolverKind};
use crate::errors::{IpSourceError, SolverError, SourceError};
use crate::ip_api::{
    cache_eq, cache_hit_addresses, cache_needs_call, next_cache_state, CacheDecision, IpApiSolver,
    IpProviderError, IpProviderResponse,
};
use crate::ip_text::{parse_ip_of_family, spec_parse_ip_of_family};
use crate::merge::{valid_mask_sum, Merge};
use crate::svc::{IngressSnapshot, ServiceSnapshot};

verus! {

/// The static solver: literal addresses, filtered to the requested family.
#[derive(Debug)]
pub struct Static {
    addresses: Vec<IpAddress>,
}

/// The addresses of `s` that belong to the given family, in order.
pub open spec fn family_filter(s: Seq<IpAddress>, kind: AddressKind) -> Seq<IpAddress>
    decreases s.len(),
{
    if s.len() == 0 {
        Seq::<IpAddress>::empty()
    } else if s.last().spec_family() == kind {
        family_filter(s.drop_last(), kind).push(s.last())
    } else {
        family_filter(s.drop_last(), kind)
    }
}

impl Static {
    /// The configured literal addresses.
    pub closed spec fn spec_addresses(self) -> Seq<IpAddress> {
        self.addresses@
    }

    pub fn new(addresses: Vec<IpAddress>) -> (r: Static)
        ensures
            r.spec_addresses() == addresses@,
    {
        Static { addresses }
    }

    /// The literal list filtered to the requested family. An address of the
    /// wrong family is dropped, never an error; an all-wrong-family list
    /// yields an empty result.
    pub fn get_addresses(&self, kind: AddressKind) -> (r: Vec<IpAddress>)
        ensures
            r@ == family_filter(self.spec_addresses(), kind),
    {
        let ghost all = self.spec_addresses();
        let n = self.addresses.len();
        let mut out: Vec<IpAddress> = Vec::new();
        let mut i: usize = 0;
        while i < n
            invariant
                i <= n,
                n == all.len(),
                all == self.spec_addresses(),
                out@ == family_filter(all.subrange(0, i as int), kind),
            decreases n - i,
        {
            proof {
                assert(all.subrange(0, i + 1 as int).drop_last() =~= all.subrange(0, i as int));
                assert(all.subrange(0, i + 1 as int).last() == all[i as int]);
            }
            let a = self.addresses[i];
            if a.family() == kind {
                out.push(a);
            }
            i = i + 1;
        }
        proof {
            assert(all.subrange(0, n as int) =~= all);
        }
        out
    }
}

/// The load-balancer-ingress solver: reads the target Service's
/// `status.loadBalancer.ingress` addresses.
#[derive(Debug)]
pub struct LoadBalancerIngress {}

/// The ingress entries of a Service, if its status carries them.
pub open spec fn ingress_entries(svc: ServiceSnapshot) -> Option<Seq<IngressSnapshot>> {
    match svc.status {
        None => None,
        Some(st) => match st.load_balancer {
            None => None,
            Some(lb) => match lb.ingress {
                None => None,
                Some(v) => Some(v@),
            },
        },
    }
}

/// The addresses of the requested family among the ingress entries, in
/// order: each entry's text is parsed in that family, and entries without an
/// address or with unparsable or wrong-family text are skipped silently.
pub open spec fn spec_lb_addresses(entries: Seq<IngressSnapshot>, kind: AddressKind) -> Seq<
    IpAddress,
>
    decreases entries.len(),
{
    if entries.len() == 0 {
        Seq::<IpAddress>::empty()
    } else {
        let rest = spec_lb_addresses(entries.drop_last(), kind);
        match entries.last().ip {
            Some(text) => match spec_parse_ip_of_family(text@, kind) {
                Some(a) => rest.push(a),
                None => rest,
            },
            None => rest,
        }
    }
}

impl LoadBalancerIngress {
    pub fn new() -> (r: LoadBalancerIngress) {
        LoadBalancerIngress {  }
    }

    /// Reads the ingress addresses: fails exactly when the status, its
    /// load-balancer block, or the ingress list is absent, and otherwise
    /// returns the entries parsed in the requested family.
    pub fn get_addresses(&self, kind: AddressKind, svc: &ServiceSnapshot) -> (r: Result<
        Vec<IpAddress>,
        SolverError,
    >)
        ensures
            r is Ok <==> ingress_entries(*svc) is Some,
            r matches Ok(v) ==> (ingress_entries(*svc) matches Some(es) && v@ == spec_lb_addresses(
                es,
                kind,
            )),
            svc.status is None ==> (r matches Err(e) && e.reason@ == "no status field on service"@),
            svc.status matches Some(st) ==> (st.load_balancer is None ==> (r matches Err(e)
                && e.reason@ == "no status.loadBalancer field on service"@)),
            svc.status matches Some(st) ==> (st.load_balancer matches Some(lb) ==> (lb.ingress
                is None ==> (r matches Err(e) && e.reason@
                == "no status.loadBalancer.ingress field on service"@))),
    {
        let entries = match &svc.status {
            None => {
                return Err(SolverError { reason: "no status field on service".to_owned() });
            },
            Some(st) => match &st.load_balancer {
                None => {
                    return Err(
                        SolverError {
                            reason: "no status.loadBalancer field on service".to_owned(),
                        },
                    );
                },
                Some(lb) => match &lb.ingress {
                    None => {
                        return Err(
                            SolverError {
                                reason: "no status.loadBalancer.ingress field on service"
                                    .to_owned(),
                            },
                        );
                    },
                    Some(entries) => entries,
                },
            },
        };
        let ghost es = entries@;
        let n = entries.len();
        let mut out: Vec<IpAddress> = Vec::new();
        let mut i: usize = 0;
        while i < n
            invariant
                i <= n,
                n == es.len(),
                es == entries@,
                out@ == spec_lb_addresses(es.subrange(0, i as int), kind),
            decreases n - i,
        {
            proof {
                assert(es.subrange(0, i + 1 as int).drop_last() =~= es.subrange(0, i as int));
                assert(es.subrange(0, i + 1 as int).last() == es[i as int]);
            }
            match &entries[i].ip {
                Some(text) => {
                    match parse_ip_of_family(text.as_slice(), kind) {
                        Some(a) => {
                            out.push(a);
                        },
                        None => {},
                    }
                },
                None => {},
            }
            i = i + 1;
        }
        proof {
            assert(es.subrange(0, n as int) =~= es);
        }
        Ok(out)
    }
}

/// The DNS solver: the configured hostname whose A or AAAA records are the
/// addresses. The lookup itself happens outside; this type keeps the name
/// and folds the lookup's outcome into a solver result.
#[derive(Debug)]
pub struct DnsHostname {
    host: String,
}

impl DnsHostname {
    /// The configured hostname.
    pub closed spec fn spec_host(self) -> Seq<char> {
        self.host@
    }

    pub fn new(host: String) -> (r: DnsHostname)
        ensures
            r.spec_host() == host@,
    {
        DnsHostname { host }
    }

    pub fn host(&self) -> (r: &String)
        ensures
            r@ == self.spec_host(),
    {
        &self.host
    }

    /// Folds the outcome of the DNS lookup into the solver's answer: the
    /// resolved addresses as they are, or the resolver's failure as a
    /// solver error.
    pub fn accept_lookup(&self, outcome: Result<Vec<IpAddress>, SourceError>) -> (r: Result<
        Vec<IpAddress>,
        SolverError,
    >)
        ensures
            outcome matches Ok(a) ==> (r matches Ok(b) && b@ == a@),
            outcome matches Err(e) ==> (r matches Err(se) && se.reason@ == e.msg@),
    {
        match outcome {
            Ok(a) => Ok(a),
            Err(e) => Err(SolverError { reason: e.msg }),
        }
    }
}

/// A live solver instance: the tagged union over the five solver kinds.
#[derive(Debug)]
pub enum SolverInstance {
    IpApi(IpApiSolver),
    Dns(DnsHostname),
    LoadBalancer(LoadBalancerIngress),
    Static(Static),
    Merge(Merge),
}

/// An upstream call a solver needs before it can answer.
#[derive(Debug)]
pub enum UpstreamCall {
    /// Resolve the A (IPv4) or AAAA (IPv6) records of a hostname.
    DnsLookup { host: String, kind: AddressKind },
    /// Ask a what-is-my-ip provider for the external address.
    IpApiFetch { provider: IpSolverProvider, kind: AddressKind },
}

/// The outcome of an upstream call, handed back to `finish_upstream`.
#[derive(Debug)]
pub enum UpstreamEvent {
    DnsResult(Result<Vec<IpAddress>, SourceError>),
    IpApiResult(IpProviderResponse),
}

/// What beginning a query yields: a finished answer, a needed upstream
/// call, or — for a merge — the instruction to resolve the partial solvers
/// first.
#[derive(Debug)]
pub enum QueryBegin {
    Done(Result<Vec<IpAddress>, SolverError>),
    Upstream(UpstreamCall),
    Composite,
}

/// How finishing a query relates the solver's state before and after the
/// upstream event to the query's answer: a DNS solver passes the lookup's
/// outcome through unchanged; an IP-API solver folds the provider's response
/// into its cache; an event of the wrong shape is an error and changes
/// nothing.
pub open spec fn finish_rel(
    pre: SolverInstance,
    post: SolverInstance,
    now_ms: u64,
    ev: UpstreamEvent,
    r: Result<Vec<IpAddress>, SolverError>,
) -> bool {
    &&& (pre is Dns ==> post == pre)
    &&& (ev matches UpstreamEvent::DnsResult(out) ==> (pre is Dns ==> ((out matches Ok(a) ==> (r
        matches Ok(b) && b@ == a@)) && (out matches Err(e) ==> (r matches Err(se) && se.reason@
        == e.msg@)))))
    &&& (ev matches UpstreamEvent::IpApiResult(resp) ==> (pre matches SolverInstance::IpApi(s)
        ==> {
        &&& post matches SolverInstance::IpApi(s2) && s2.provider == s.provider && cache_eq(
            s2.cache,
            next_cache_state(s.cache, now_ms, resp),
        )
        &&& (resp.outcome matches Ok(addrs) ==> (r matches Ok(a) && a@ == addrs@))
        &&& (resp.outcome is Err ==> r is Err)
        &&& (resp.outcome matches Err(IpProviderError::RateLimited { .. }) ==> (r matches Err(e)
            && e.reason@ == "rate limited by IP provider"@))
    }))
    &&& (!(pre matches SolverInstance::Dns(_) && ev matches UpstreamEvent::DnsResult(_)) && !(pre
        matches SolverInstance::IpApi(_) && ev matches UpstreamEvent::IpApiResult(_)) ==> (r is Err
        && post == pre))
}

/// Finishing a query never changes which configuration an instance is the
/// live form of: at most an IP-API cache moves.
pub proof fn lemma_finish_preserves_config(
    pre: SolverInstance,
    post: SolverInstance,
    now_ms: u64,
    ev: UpstreamEvent,
    r: Result<Vec<IpAddress>, SolverError>,
    k: SolverKind,
)
    requires
        finish_rel(pre, post, now_ms, ev, r),
        pre.matches_config(k),
    ensures
        post.matches_config(k),
{
    match pre {
        SolverInstance::IpApi(s) => match ev {
            UpstreamEvent::IpApiResult(_) => {},
            _ => {},
        },
        _ => {},
    }
}

impl SolverInstance {
    /// Whether this instance is the live form of the given configuration.
    pub open spec fn matches_config(self, k: SolverKind) -> bool {
        match self {
            SolverInstance::IpApi(s) => k matches SolverKind::IpAPI(c) && s.provider == c.provider,
            SolverInstance::Dns(d) => k matches SolverKind::DnsHostname(c) && d.spec_host()
                == c.host@,
            SolverInstance::LoadBalancer(_) => k is LoadBalancerIngress,
            SolverInstance::Static(st) => k matches SolverKind::Static(c) && st.spec_addresses()
                == c.addresses@,
            SolverInstance::Merge(m) => k matches SolverKind::Merge(c) && partial_solvers_eq(
                m.partials(),
                c.partial_solvers@,
            ) && m.wf(),
        }
    }

    /// Whether this instance is newly built: no cached state yet.
    pub open spec fn is_fresh(self) -> bool {
        match self {
            SolverInstance::IpApi(s) => s.cache is Empty,
            _ => true,
        }
    }

    /// Builds the live instance of a configuration. Fails exactly when the
    /// configuration is a merge whose masks do not sum to an all-ones value.
    pub fn build(config: &SolverKind) -> (r: Result<SolverInstance, IpSourceError>)
        ensures
            r matches Ok(inst) ==> inst.matches_config(*config) && inst.is_fresh(),
            r is Err <==> (config matches SolverKind::Merge(c) && !valid_mask_sum(
                c.partial_solvers@,
            )),
    {
        match config {
            SolverKind::IpAPI(c) => Ok(SolverInstance::IpApi(IpApiSolver::new(c.provider))),
            SolverKind::DnsHostname(c) => Ok(
                SolverInstance::Dns(DnsHostname::new(c.host.clone())),
            ),
            SolverKind::LoadBalancerIngress(_) => Ok(
                SolverInstance::LoadBalancer(LoadBalancerIngress::new()),
            ),
            SolverKind::Static(c) => Ok(
                SolverInstance::Static(Static::new(copy_addresses(&c.addresses))),
            ),
            SolverKind::Merge(c) => {
                let ps = clone_partial_solvers(&c.partial_solvers);
                proof {
                    crate::merge::lemma_mask_sum_respects_eq(ps@, c.partial_solvers@);
                }
                let m = Merge::new(ps)?;
                Ok(SolverInstance::Merge(m))
            },
        }
    }

    /// Begins one query: a static or load-balancer solver answers at once; a
    /// DNS or IP-API solver answers from its state or names the upstream
    /// call it needs; a merge asks for its partial solvers to be resolved.
    pub fn begin_query(&self, kind: AddressKind, svc: &ServiceSnapshot, now_ms: u64) -> (r:
        QueryBegin)
        ensures
            *self matches SolverInstance::Static(st) ==> (r matches QueryBegin::Done(res) && res
                matches Ok(v) && v@ == family_filter(st.spec_addresses(), kind)),
            *self matches SolverInstance::LoadBalancer(_) ==> (r matches QueryBegin::Done(res) && (
            res is Ok <==> ingress_entries(*svc) is Some) && (res matches Ok(v)
                ==> (ingress_entries(*svc) matches Some(es) && v@ == spec_lb_addresses(es, kind)))),
            *self matches SolverInstance::Dns(d) ==> (r matches QueryBegin::Upstream(
                UpstreamCall::DnsLookup { host, kind: k2 },
            ) && host@ == d.spec_host() && k2 == kind),
            *self matches SolverInstance::IpApi(s) ==> {
                &&& (cache_hit_addresses(s.cache, now_ms) matches Some(a) ==> (r matches
                    QueryBegin::Done(res) && res matches Ok(v) && v@ == a))
                &&& (cache_needs_call(s.cache, now_ms) ==> (r matches QueryBegin::Upstream(
                    UpstreamCall::IpApiFetch { provider, kind: k2 },
                ) && provider == s.provider && k2 == kind))
                &&& (!(cache_hit_addresses(s.cache, now_ms) is Some) && !cache_needs_call(
                    s.cache,
                    now_ms,
                ) ==> (r matches QueryBegin::Done(res) && res matches Err(e) && e.reason@
                    == "rate limited by IP provider"@))
            },
            *self matches SolverInstance::Merge(_) ==> r is Composite,
    {
        match self {
            SolverInstance::Static(st) => QueryBegin::Done(Ok(st.get_addresses(kind))),
            SolverInstance::LoadBalancer(lb) => QueryBegin::Done(lb.get_addresses(kind, svc)),
            SolverInstance::Dns(d) => QueryBegin::Upstream(
                UpstreamCall::DnsLookup { host: d.host().clone(), kind },
            ),
            SolverInstance::IpApi(s) => match s.cache_lookup(now_ms) {
                CacheDecision::UseCached(v) => QueryBegin::Done(Ok(v)),
                CacheDecision::Backoff { remaining_ms } => QueryBegin::Done(
                    Err(
                        IpProviderError::RateLimited { remaining_ms }.to_solver_error(),
                    ),
                ),
                CacheDecision::CallUpstream => QueryBegin::Upstream(
                    UpstreamCall::IpApiFetch { provider: s.provider, kind },
                ),
            },
            SolverInstance::Merge(_) => QueryBegin::Composite,
        }
    }

    /// Finishes a query that needed an upstream call: a DNS solver passes
    /// the lookup's outcome through unchanged; an IP-API solver folds the
    /// provider's response into its cache. An event of the wrong shape for
    /// the solver is an error and changes nothing.
    pub fn finish_upstream(&mut self, now_ms: u64, ev: UpstreamEvent) -> (r: Result<
        Vec<IpAddress>,
        SolverError,
    >)
        ensures
            finish_rel(*old(self), *final(self), now_ms, ev, r),
    {
        match self {
            SolverInstance::Dns(d) => match ev {
                UpstreamEvent::DnsResult(out) => d.accept_lookup(out),
                _ => Err(
                    SolverError { reason: "unexpected upstream result for solver".to_owned() },
                ),
            },
            SolverInstance::IpApi(s) => match ev {
                UpstreamEvent::IpApiResult(resp) => match s.apply_response(now_ms, resp) {
                    Ok(a) => Ok(a),
                    Err(e) => Err(e.to_solver_error()),
                },
                _ => Err(
                    SolverError { reason: "unexpected upstream result for solver".to_owned() },
                ),
            },
            _ => Err(SolverError { reason: "unexpected upstream result for solver".to_owned() }),
        }
    }
}

} // verus!
