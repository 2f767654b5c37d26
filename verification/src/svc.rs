//! The target Service, as the engine sees it: the fields a solver or the
//! reconciliation decision reads, held as plain values. Also the logic that
//! recognizes an annotated Service and decides whether its `externalIPs`
//! need a patch.

use vstd::prelude::*;

use crate::source::ExternalIpSourceKind;

verus! {

/// The annotation that names the cluster-scoped source of a Service's
/// external IPs.
pub const ANNOTATION_CLUSTER_EXTERNAL_IP_SOURCE: &'static str =
    "externalip.spacebird.dev/cluster-external-ip-source";

/// One entry of a Service's `status.loadBalancer.ingress`: the assigned
/// address, as text, if any.
#[derive(Debug)]
pub struct IngressSnapshot {
    pub ip: Option<Vec<u8>>,
}

/// A Service's `status.loadBalancer`.
#[derive(Debug)]
pub struct LoadBalancerSnapshot {
    pub ingress: Option<Vec<IngressSnapshot>>,
}

/// A Service's `status`.
#[derive(Debug)]
pub struct ServiceStatusSnapshot {
    pub load_balancer: Option<LoadBalancerSnapshot>,
}

/// What the engine reads of a Service: its identity, its annotations, its
/// current `spec.externalIPs` (as text), and its load-balancer status.
#[derive(Debug)]
pub struct ServiceSnapshot {
    pub name: Option<String>,
    pub namespace: Option<String>,
    pub annotations: Option<Vec<(String, String)>>,
    pub external_ips: Option<Vec<Vec<u8>>>,
    pub status: Option<ServiceStatusSnapshot>,
}

/// The first value held under a key in an annotation list, if any.
pub open spec fn spec_annotation_value(entries: Seq<(String, String)>, key: Seq<char>) -> Option<
    Seq<char>,
>
    decreases entries.len(),
{
    if entries.len() == 0 {
        None
    } else if entries[0].0@ == key {
        Some(entries[0].1@)
    } else {
        spec_annotation_value(entries.drop_first(), key)
    }
}

/// Looks an annotation up by key.
pub fn annotation_value<'a>(entries: &'a Vec<(String, String)>, key: &String) -> (r: Option<
    &'a String,
>)
    ensures
        r matches Some(v) ==> spec_annotation_value(entries@, key@) == Some(v@),
        r is None ==> spec_annotation_value(entries@, key@) is None,
{
    let n = entries.len();
    let mut i: usize = 0;
    proof {
        assert(entries@.skip(0) =~= entries@);
    }
    while i < n
        invariant
            i <= n,
            n == entries@.len(),
            spec_annotation_value(entries@, key@) == spec_annotation_value(
                entries@.skip(i as int),
                key@,
            ),
        decreases n - i,
    {
        proof {
            assert(entries@.skip(i as int).drop_first() =~= entries@.skip(i + 1 as int));
            assert(entries@.skip(i as int)[0] == entries@[i as int]);
        }
        if entries[i].0 == *key {
            return Some(&entries[i].1);
        }
        i = i + 1;
    }
    proof {
        assert(entries@.skip(n as int).len() == 0);
    }
    None
}

/// A Service that asked for managed external IPs: the Service itself and
/// the source its annotation names.
#[derive(Debug)]
pub struct ExternalIpSvc {
    svc: ServiceSnapshot,
    source: ExternalIpSourceKind,
}

impl ExternalIpSvc {
    pub closed spec fn spec_svc(self) -> ServiceSnapshot {
        self.svc
    }

    pub closed spec fn spec_source(self) -> ExternalIpSourceKind {
        self.source
    }

    pub fn svc(&self) -> (r: &ServiceSnapshot)
        ensures
            *r == self.spec_svc(),
    {
        &self.svc
    }

    pub fn ip_source(&self) -> (r: &ExternalIpSourceKind)
        ensures
            *r == self.spec_source(),
    {
        &self.source
    }
}

/// Recognizes a Service that carries the cluster-external-ip-source
/// annotation: such a Service is managed, and the annotation's value names
/// the cluster-scoped source that resolves its addresses.
pub fn classify_service(svc: ServiceSnapshot) -> (r: Option<ExternalIpSvc>)
    ensures
        r is Some <==> (svc.annotations matches Some(es) && spec_annotation_value(
            es@,
            ANNOTATION_CLUSTER_EXTERNAL_IP_SOURCE@,
        ) is Some),
        r matches Some(x) ==> {
            &&& x.spec_svc() == svc
            &&& (svc.annotations matches Some(es) && (x.spec_source() matches
                ExternalIpSourceKind::Cluster(v) && Some(v@) == spec_annotation_value(
                es@,
                ANNOTATION_CLUSTER_EXTERNAL_IP_SOURCE@,
            )))
        },
{
    let key: String = ANNOTATION_CLUSTER_EXTERNAL_IP_SOURCE.to_owned();
    let source: Option<String> = match &svc.annotations {
        None => None,
        Some(entries) => match annotation_value(entries, &key) {
            Some(v) => Some(v.clone()),
            None => None,
        },
    };
    match source {
        Some(v) => Some(ExternalIpSvc { svc, source: ExternalIpSourceKind::Cluster(v) }),
        None => None,
    }
}

} // verus!
