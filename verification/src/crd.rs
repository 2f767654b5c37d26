//! The declarative solver configuration: the tagged union of solver kinds
//! that a cluster configuration resource carries, and structural equality
//! over it. Structural equality is what makes two configurations share one
//! solver instance in the registry.

use vstd::prelude::*;

use crate::addr::IpAddress;

verus! {

/// How a list of solvers is queried: stop at the first solver that returns
/// addresses, or query all of them and aggregate.
#[derive(Debug, Clone, Copy, PartialEq, Eq, Structural)]
pub enum QueryMode {
    FirstFound,
    All,
}

/// The public "what-is-my-ip" service an IP-API solver asks.
#[derive(Debug, Clone, Copy, PartialEq, Eq, Structural)]
pub enum IpSolverProvider {
    MyIp,
    Ipify,
}

/// Configuration of an IP-API solver: which provider to use.
#[derive(Debug, Clone, Copy, PartialEq, Eq, Structural)]
pub struct IpAPIConfig {
    pub provider: IpSolverProvider,
}

/// Configuration of a DNS solver: the hostname whose A/AAAA records are the
/// external addresses.
#[derive(Debug)]
pub struct DnsHostnameConfig {
    pub host: String,
}

/// Configuration of the load-balancer-ingress solver (it has no parameters;
/// it reads the target Service's status).
#[derive(Debug, Clone, Copy, PartialEq, Eq, Structural)]
pub struct LoadBalancerIngressConfig {}

/// Configuration of a static solver: literal addresses to return.
#[derive(Debug)]
pub struct StaticConfig {
    pub addresses: Vec<IpAddress>,
}

/// Configuration of a merge solver: partial solvers whose masked results are
/// summed into one address.
#[derive(Debug)]
pub struct MergeConfig {
    pub partial_solvers: Vec<PartialSolver>,
}

/// One partial solver of a merge: a non-composite solver plus the netmask
/// selecting which bits of its result enter the final address.
#[derive(Debug)]
pub struct PartialSolver {
    pub solver: PartialSolverKind,
    pub mask: IpAddress,
}

/// The solver kinds allowed inside a merge. Merge itself is excluded, so no
/// solver can ever reach itself through nesting.
#[derive(Debug)]
pub enum PartialSolverKind {
    IpAPI(IpAPIConfig),
    DnsHostname(DnsHostnameConfig),
    LoadBalancerIngress(LoadBalancerIngressConfig),
    Static(StaticConfig),
}

/// A solver configuration: the discriminated union a configuration resource
/// names under its `solvers` lists.
#[derive(Debug)]
pub enum SolverKind {
    IpAPI(IpAPIConfig),
    DnsHostname(DnsHostnameConfig),
    LoadBalancerIngress(LoadBalancerIngressConfig),
    Static(StaticConfig),
    Merge(MergeConfig),
}

/// The solvers configured for one address family: an ordered solver list and
/// the mode in which it is queried.
#[derive(Debug)]
pub struct IpSolversConfig {
    pub query_mode: Option<QueryMode>,
    pub solvers: Vec<SolverKind>,
}

/// A cluster configuration resource's payload: solvers for IPv4, IPv6, or
/// both.
#[derive(Debug)]
pub struct ClusterExternalIpSourceSpec {
    pub ipv4: Option<IpSolversConfig>,
    pub ipv6: Option<IpSolversConfig>,
}

/// Structural equality of two DNS solver configurations.
pub open spec fn dns_config_eq(a: DnsHostnameConfig, b: DnsHostnameConfig) -> bool {
    a.host@ == b.host@
}

/// Structural equality of two static solver configurations.
pub open spec fn static_config_eq(a: StaticConfig, b: StaticConfig) -> bool {
    a.addresses@ == b.addresses@
}

/// Structural equality of two partial solver kinds.
pub open spec fn partial_kind_eq(a: PartialSolverKind, b: PartialSolverKind) -> bool {
    match a {
        PartialSolverKind::IpAPI(x) => b matches PartialSolverKind::IpAPI(y) && x == y,
        PartialSolverKind::DnsHostname(x) => b matches PartialSolverKind::DnsHostname(y)
            && dns_config_eq(x, y),
        PartialSolverKind::LoadBalancerIngress(_) => b matches PartialSolverKind::LoadBalancerIngress(_),
        PartialSolverKind::Static(x) => b matches PartialSolverKind::Static(y)
            && static_config_eq(x, y),
    }
}

/// Structural equality of two partial solvers.
pub open spec fn partial_solver_eq(a: PartialSolver, b: PartialSolver) -> bool {
    partial_kind_eq(a.solver, b.solver) && a.mask == b.mask
}

/// Pointwise structural equality of two partial solver lists.
pub open spec fn partial_solvers_eq(a: Seq<PartialSolver>, b: Seq<PartialSolver>) -> bool {
    a.len() == b.len() && forall|i: int|
        0 <= i < a.len() ==> partial_solver_eq(#[trigger] a[i], #[trigger] b[i])
}

/// Structural equality of two solver configurations. Two configurations that
/// are equal under this relation have the same serialized form and share one
/// solver instance.
pub open spec fn solver_kind_eq(a: SolverKind, b: SolverKind) -> bool {
    match a {
        SolverKind::IpAPI(x) => b matches SolverKind::IpAPI(y) && x == y,
        SolverKind::DnsHostname(x) => b matches SolverKind::DnsHostname(y) && dns_config_eq(x, y),
        SolverKind::LoadBalancerIngress(_) => b matches SolverKind::LoadBalancerIngress(_),
        SolverKind::Static(x) => b matches SolverKind::Static(y) && static_config_eq(x, y),
        SolverKind::Merge(x) => b matches SolverKind::Merge(y)
            && partial_solvers_eq(x.partial_solvers@, y.partial_solvers@),
    }
}

impl SolverKind {
    /// The solver configuration a partial solver stands for: the same
    /// configuration, re-tagged in the full union.
    pub fn from_partial(value: &PartialSolverKind) -> (r: SolverKind)
        ensures
            solver_kind_eq(r, value.as_solver_kind()),
    {
        match value {
            PartialSolverKind::IpAPI(c) => SolverKind::IpAPI(*c),
            PartialSolverKind::DnsHostname(c) => SolverKind::DnsHostname(
                DnsHostnameConfig { host: c.host.clone() },
            ),
            PartialSolverKind::LoadBalancerIngress(c) => SolverKind::LoadBalancerIngress(*c),
            PartialSolverKind::Static(c) => SolverKind::Static(
                StaticConfig { addresses: copy_addresses(&c.addresses) },
            ),
        }
    }
}

impl PartialSolverKind {
    /// The full-union form of this partial solver kind.
    pub open spec fn as_solver_kind(self) -> SolverKind {
        match self {
            PartialSolverKind::IpAPI(c) => SolverKind::IpAPI(c),
            PartialSolverKind::DnsHostname(c) => SolverKind::DnsHostname(c),
            PartialSolverKind::LoadBalancerIngress(c) => SolverKind::LoadBalancerIngress(c),
            PartialSolverKind::Static(c) => SolverKind::Static(c),
        }
    }
}

/// A copy of an address list.
pub fn copy_addresses(v: &Vec<IpAddress>) -> (r: Vec<IpAddress>)
    ensures
        r@ == v@,
{
    let mut r: Vec<IpAddress> = Vec::new();
    let mut i: usize = 0;
    while i < v.len()
        invariant
            i <= v.len(),
            r@ == v@.subrange(0, i as int),
        decreases v.len() - i,
    {
        r.push(v[i]);
        i = i + 1;
    }
    proof {
        assert(v@.subrange(0, v@.len() as int) == v@);
    }
    r
}

/// Whether two address lists hold the same addresses in the same order.
pub fn address_lists_equal(a: &Vec<IpAddress>, b: &Vec<IpAddress>) -> (r: bool)
    ensures
        r == (a@ == b@),
{
    if a.len() != b.len() {
        return false;
    }
    let mut i: usize = 0;
    while i < a.len()
        invariant
            i <= a.len(),
            a@.len() == b@.len(),
            forall|j: int| 0 <= j < i ==> a@[j] == b@[j],
        decreases a.len() - i,
    {
        if a[i] != b[i] {
            return false;
        }
        i = i + 1;
    }
    proof {
        assert(a@ =~= b@);
    }
    true
}

/// Whether two partial solver kinds are structurally equal.
pub fn partial_kind_equals(a: &PartialSolverKind, b: &PartialSolverKind) -> (r: bool)
    ensures
        r == partial_kind_eq(*a, *b),
{
    match a {
        PartialSolverKind::IpAPI(x) => match b {
            PartialSolverKind::IpAPI(y) => x.provider == y.provider,
            _ => false,
        },
        PartialSolverKind::DnsHostname(x) => match b {
            PartialSolverKind::DnsHostname(y) => x.host == y.host,
            _ => false,
        },
        PartialSolverKind::LoadBalancerIngress(_) => match b {
            PartialSolverKind::LoadBalancerIngress(_) => true,
            _ => false,
        },
        PartialSolverKind::Static(x) => match b {
            PartialSolverKind::Static(y) => address_lists_equal(&x.addresses, &y.addresses),
            _ => false,
        },
    }
}

/// Whether two partial solvers are structurally equal.
pub fn partial_solver_equals(a: &PartialSolver, b: &PartialSolver) -> (r: bool)
    ensures
        r == partial_solver_eq(*a, *b),
{
    if a.mask != b.mask {
        return false;
    }
    partial_kind_equals(&a.solver, &b.solver)
}

/// Whether two partial solver lists are pointwise structurally equal.
pub fn partial_solvers_equal(a: &Vec<PartialSolver>, b: &Vec<PartialSolver>) -> (r: bool)
    ensures
        r == partial_solvers_eq(a@, b@),
{
    if a.len() != b.len() {
        return false;
    }
    let mut i: usize = 0;
    while i < a.len()
        invariant
            i <= a.len(),
            a@.len() == b@.len(),
            forall|j: int| 0 <= j < i ==> partial_solver_eq(#[trigger] a@[j], #[trigger] b@[j]),
        decreases a.len() - i,
    {
        if !partial_solver_equals(&a[i], &b[i]) {
            return false;
        }
        i = i + 1;
    }
    true
}

/// Whether two solver configurations are structurally equal.
pub fn solver_kind_equals(a: &SolverKind, b: &SolverKind) -> (r: bool)
    ensures
        r == solver_kind_eq(*a, *b),
{
    match a {
        SolverKind::IpAPI(x) => match b {
            SolverKind::IpAPI(y) => x.provider == y.provider,
            _ => false,
        },
        SolverKind::DnsHostname(x) => match b {
            SolverKind::DnsHostname(y) => x.host == y.host,
            _ => false,
        },
        SolverKind::LoadBalancerIngress(_) => match b {
            SolverKind::LoadBalancerIngress(_) => true,
            _ => false,
        },
        SolverKind::Static(x) => match b {
            SolverKind::Static(y) => address_lists_equal(&x.addresses, &y.addresses),
            _ => false,
        },
        SolverKind::Merge(x) => match b {
            SolverKind::Merge(y) => partial_solvers_equal(&x.partial_solvers, &y.partial_solvers),
            _ => false,
        },
    }
}

/// A structurally equal copy of a partial solver kind.
pub fn clone_partial_kind(a: &PartialSolverKind) -> (r: PartialSolverKind)
    ensures
        partial_kind_eq(r, *a),
{
    match a {
        PartialSolverKind::IpAPI(c) => PartialSolverKind::IpAPI(*c),
        PartialSolverKind::DnsHostname(c) => PartialSolverKind::DnsHostname(
            DnsHostnameConfig { host: c.host.clone() },
        ),
        PartialSolverKind::LoadBalancerIngress(c) => PartialSolverKind::LoadBalancerIngress(*c),
        PartialSolverKind::Static(c) => PartialSolverKind::Static(
            StaticConfig { addresses: copy_addresses(&c.addresses) },
        ),
    }
}

/// A pointwise structurally equal copy of a partial solver list.
pub fn clone_partial_solvers(v: &Vec<PartialSolver>) -> (r: Vec<PartialSolver>)
    ensures
        partial_solvers_eq(r@, v@),
{
    let mut r: Vec<PartialSolver> = Vec::new();
    let mut i: usize = 0;
    while i < v.len()
        invariant
            i <= v.len(),
            r@.len() == i,
            forall|j: int| 0 <= j < i ==> partial_solver_eq(#[trigger] r@[j], #[trigger] v@[j]),
        decreases v.len() - i,
    {
        let p = PartialSolver { solver: clone_partial_kind(&v[i].solver), mask: v[i].mask };
        r.push(p);
        i = i + 1;
    }
    r
}

/// A structurally equal copy of a solver configuration.
pub fn clone_solver_kind(a: &SolverKind) -> (r: SolverKind)
    ensures
        solver_kind_eq(r, *a),
{
    match a {
        SolverKind::IpAPI(c) => SolverKind::IpAPI(*c),
        SolverKind::DnsHostname(c) => SolverKind::DnsHostname(
            DnsHostnameConfig { host: c.host.clone() },
        ),
        SolverKind::LoadBalancerIngress(c) => SolverKind::LoadBalancerIngress(*c),
        SolverKind::Static(c) => SolverKind::Static(
            StaticConfig { addresses: copy_addresses(&c.addresses) },
        ),
        SolverKind::Merge(c) => SolverKind::Merge(
            MergeConfig { partial_solvers: clone_partial_solvers(&c.partial_solvers) },
        ),
    }
}

/// Structural equality of solver configurations is symmetric.
pub proof fn lemma_solver_kind_eq_symmetric(a: SolverKind, b: SolverKind)
    requires
        solver_kind_eq(a, b),
    ensures
        solver_kind_eq(b, a),
{
}

/// Structural equality of solver configurations is transitive.
pub proof fn lemma_solver_kind_eq_transitive(a: SolverKind, b: SolverKind, c: SolverKind)
    requires
        solver_kind_eq(a, b),
        solver_kind_eq(b, c),
    ensures
        solver_kind_eq(a, c),
{
    match a {
        SolverKind::Merge(x) => match b {
            SolverKind::Merge(y) => match c {
                SolverKind::Merge(z) => {
                    assert forall|i: int| 0 <= i < x.partial_solvers@.len() implies partial_solver_eq(
                        #[trigger] x.partial_solvers@[i],
                        #[trigger] z.partial_solvers@[i],
                    ) by {
                        assert(partial_solver_eq(x.partial_solvers@[i], y.partial_solvers@[i]));
                        assert(partial_solver_eq(y.partial_solvers@[i], z.partial_solvers@[i]));
                    }
                },
                _ => {},
            },
            _ => {},
        },
        _ => {},
    }
}

} // verus!
