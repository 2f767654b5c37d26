//! The resolution engine: solver construction and dispatch, the bitmask
//! merge, the query pipeline in both modes, the deduplicated registry, and
//! the reconciliation decision.

use externalip_manager::addr::{AddressKind, IpAddress};
use externalip_manager::crd::{
    ClusterExternalIpSourceSpec, DnsHostnameConfig, IpSolversConfig, PartialSolver,
    PartialSolverKind, QueryMode, SolverKind, StaticConfig,
};
use externalip_manager::errors::{IpSourceError, SolverError, SourceError};
use externalip_manager::ip_text::parse_ip;
use externalip_manager::manager::{
    address_sets_equal, decide_reconcile, dedup_addresses, ManagerConfig, ReconcileAction,
};
use externalip_manager::merge::Merge;
use externalip_manager::registry::{
    derive_solver_keys, registry_keys_equal, IPSourceRegistry, RegistryKey, SolverRegistry,
};
use externalip_manager::solvers::{
    LoadBalancerIngress, QueryBegin, SolverInstance, Static, UpstreamCall,
};
use externalip_manager::source::{ExternalIpSource, ListQuery, SolverList};
use externalip_manager::svc::{
    classify_service, IngressSnapshot, LoadBalancerSnapshot, ServiceSnapshot,
    ServiceStatusSnapshot,
};

fn addr(text: &str) -> IpAddress {
    parse_ip(text.as_bytes()).expect("test literal must parse")
}

fn empty_svc() -> ServiceSnapshot {
    ServiceSnapshot { name: None, namespace: None, annotations: None, external_ips: None, status: None }
}

fn static_kind(addrs: Vec<IpAddress>) -> SolverKind {
    SolverKind::Static(StaticConfig { addresses: addrs })
}

#[test]
fn static_filters_by_family() {
    // Static with family IPv4 requested against [10.0.0.1, ::1] yields
    // exactly [10.0.0.1]; the wrong-family entry is dropped, not an error.
    let solver = Static::new(vec![addr("10.0.0.1"), addr("::1")]);
    assert_eq!(solver.get_addresses(AddressKind::IPv4), vec![addr("10.0.0.1")]);
    assert_eq!(solver.get_addresses(AddressKind::IPv6), vec![addr("::1")]);
    let wrong_only = Static::new(vec![addr("::1")]);
    assert_eq!(wrong_only.get_addresses(AddressKind::IPv4), Vec::<IpAddress>::new());
}

#[test]
fn load_balancer_reads_ingress() {
    let svc = ServiceSnapshot {
        status: Some(ServiceStatusSnapshot {
            load_balancer: Some(LoadBalancerSnapshot {
                ingress: Some(vec![
                    IngressSnapshot { ip: Some(b"192.0.2.4".to_vec()) },
                    IngressSnapshot { ip: Some(b"::1".to_vec()) },
                    IngressSnapshot { ip: Some(b"garbage".to_vec()) },
                    IngressSnapshot { ip: None },
                ]),
            }),
        }),
        ..empty_svc()
    };
    let lb = LoadBalancerIngress::new();
    assert_eq!(lb.get_addresses(AddressKind::IPv4, &svc).unwrap(), vec![addr("192.0.2.4")]);
    assert_eq!(lb.get_addresses(AddressKind::IPv6, &svc).unwrap(), vec![addr("::1")]);
}

#[test]
fn load_balancer_errors_without_status() {
    let lb = LoadBalancerIngress::new();
    let err = lb.get_addresses(AddressKind::IPv4, &empty_svc()).unwrap_err();
    assert_eq!(err.reason, "no status field on service");
    let no_lb = ServiceSnapshot {
        status: Some(ServiceStatusSnapshot { load_balancer: None }),
        ..empty_svc()
    };
    assert!(lb.get_addresses(AddressKind::IPv4, &no_lb).is_err());
    let no_ingress = ServiceSnapshot {
        status: Some(ServiceStatusSnapshot {
            load_balancer: Some(LoadBalancerSnapshot { ingress: None }),
        }),
        ..empty_svc()
    };
    assert!(lb.get_addresses(AddressKind::IPv4, &no_ingress).is_err());
}

#[test]
fn merge_requires_full_masks() {
    // Masks that sum to the IPv4 all-ones value are accepted.
    let good = vec![
        PartialSolver {
            solver: PartialSolverKind::Static(StaticConfig { addresses: vec![addr("10.0.0.1")] }),
            mask: addr("255.255.255.0"),
        },
        PartialSolver {
            solver: PartialSolverKind::Static(StaticConfig { addresses: vec![addr("203.0.113.77")] }),
            mask: addr("0.0.0.255"),
        },
    ];
    assert!(Merge::new(good).is_ok());
    // Any other sum is a configuration error, deterministically.
    let short = vec![PartialSolver {
        solver: PartialSolverKind::Static(StaticConfig { addresses: vec![addr("10.0.0.1")] }),
        mask: addr("255.255.255.0"),
    }];
    assert!(matches!(Merge::new(short), Err(IpSourceError::Malformed(_))));
    let overlapping = vec![
        PartialSolver {
            solver: PartialSolverKind::Static(StaticConfig { addresses: vec![addr("10.0.0.1")] }),
            mask: addr("255.255.255.255"),
        },
        PartialSolver {
            solver: PartialSolverKind::Static(StaticConfig { addresses: vec![addr("10.0.0.2")] }),
            mask: addr("0.0.0.1"),
        },
    ];
    assert!(Merge::new(overlapping).is_err());
}

#[test]
fn merge_combines_masked_parts() {
    // Partial solvers with masks 255.255.255.0 and 0.0.0.255 returning
    // 10.0.0.1 and 203.0.113.77 yield 10.0.0.77.
    let merge = Merge::new(vec![
        PartialSolver {
            solver: PartialSolverKind::Static(StaticConfig { addresses: vec![addr("10.0.0.1")] }),
            mask: addr("255.255.255.0"),
        },
        PartialSolver {
            solver: PartialSolverKind::Static(StaticConfig { addresses: vec![addr("203.0.113.77")] }),
            mask: addr("0.0.0.255"),
        },
    ])
    .unwrap();
    assert!(merge.check_masks(AddressKind::IPv4).is_ok());
    assert!(merge.check_masks(AddressKind::IPv6).is_err());
    let results = vec![vec![addr("10.0.0.1")], vec![addr("203.0.113.77")]];
    assert_eq!(merge.combine(AddressKind::IPv4, &results).unwrap(), vec![addr("10.0.0.77")]);
}

#[test]
fn merge_uses_last_address_and_rejects_empty() {
    let merge = Merge::new(vec![
        PartialSolver {
            solver: PartialSolverKind::Static(StaticConfig {
                addresses: vec![addr("9.9.9.9"), addr("10.0.0.1")],
            }),
            mask: addr("255.255.255.0"),
        },
        PartialSolver {
            solver: PartialSolverKind::Static(StaticConfig { addresses: vec![addr("0.0.0.77")] }),
            mask: addr("0.0.0.255"),
        },
    ])
    .unwrap();
    // the last address of a multi-address partial result is the one used
    let results = vec![vec![addr("9.9.9.9"), addr("10.0.0.1")], vec![addr("0.0.0.77")]];
    assert_eq!(merge.combine(AddressKind::IPv4, &results).unwrap(), vec![addr("10.0.0.77")]);
    // a partial solver that produced nothing fails the whole merge
    let with_empty = vec![Vec::new(), vec![addr("0.0.0.77")]];
    assert!(merge.combine(AddressKind::IPv4, &with_empty).is_err());
}

#[test]
fn first_found_stops_at_first_producing_solver() {
    // A (empty), B (["1.1.1.1"]): the result is B's, and the query reports
    // itself finished after B, so no later solver is consulted.
    let mut q = ListQuery::new(QueryMode::FirstFound);
    let done = q.absorb(Ok(Vec::new()));
    assert!(!done, "an empty result must not finish the query");
    let done = q.absorb(Ok(vec![addr("1.1.1.1")]));
    assert!(done, "the first non-empty result finishes the query");
    assert_eq!(q.finish().unwrap(), vec![addr("1.1.1.1")]);
}

#[test]
fn first_found_skips_failing_solvers() {
    let mut q = ListQuery::new(QueryMode::FirstFound);
    let done = q.absorb(Err(SolverError { reason: String::from("lookup failed") }));
    assert!(!done, "a failing solver is skipped, not fatal");
    let done = q.absorb(Ok(vec![addr("2.2.2.2")]));
    assert!(done);
    assert_eq!(q.finish().unwrap(), vec![addr("2.2.2.2")]);
}

#[test]
fn all_mode_aggregates_every_result() {
    // A (["1.1.1.1"]), B (["2.2.2.2"]): the result contains both.
    let mut q = ListQuery::new(QueryMode::All);
    assert!(!q.absorb(Ok(vec![addr("1.1.1.1")])));
    assert!(!q.absorb(Ok(vec![addr("2.2.2.2")])));
    let out = q.finish().unwrap();
    assert!(out.contains(&addr("1.1.1.1")));
    assert!(out.contains(&addr("2.2.2.2")));
    assert_eq!(out.len(), 2);
}

#[test]
fn query_fails_when_nothing_was_produced() {
    let mut q = ListQuery::new(QueryMode::FirstFound);
    q.absorb(Ok(Vec::new()));
    q.absorb(Err(SolverError { reason: String::from("down") }));
    assert!(q.finish().is_err());
    let mut q = ListQuery::new(QueryMode::All);
    q.absorb(Ok(Vec::new()));
    assert!(q.finish().is_err());
}

#[test]
fn repeated_query_yields_the_same_set() {
    // Re-running the pipeline with no upstream state change produces an
    // identical result set both times.
    let outcomes: Vec<Result<Vec<IpAddress>, SolverError>> =
        vec![Ok(Vec::new()), Ok(vec![addr("1.1.1.1"), addr("2.2.2.2")])];
    let mut first: Option<Vec<IpAddress>> = None;
    for _run in 0..2 {
        let mut q = ListQuery::new(QueryMode::All);
        for o in &outcomes {
            let copied: Result<Vec<IpAddress>, SolverError> = match o {
                Ok(v) => Ok(v.clone()),
                Err(e) => Err(SolverError { reason: e.reason.clone() }),
            };
            q.absorb(copied);
        }
        let out = q.finish().unwrap();
        match &first {
            None => first = Some(out),
            Some(prev) => assert_eq!(prev, &out),
        }
    }
}

#[test]
fn solver_list_rejects_empty_configuration() {
    let cfg = IpSolversConfig { query_mode: None, solvers: Vec::new() };
    assert!(matches!(SolverList::try_from(cfg), Err(IpSourceError::Malformed(_))));
    let cfg = IpSolversConfig {
        query_mode: None,
        solvers: vec![static_kind(vec![addr("10.0.0.1")])],
    };
    let list = SolverList::try_from(cfg).unwrap();
    assert_eq!(list.mode(), QueryMode::FirstFound);
    assert_eq!(list.solver_count(), 1);
    assert!(!list.start_query().is_finished());
}

#[test]
fn source_needs_at_least_one_family() {
    let none = ClusterExternalIpSourceSpec { ipv4: None, ipv6: None };
    assert!(matches!(
        ExternalIpSource::try_from(String::from("src"), none),
        Err(IpSourceError::Malformed(_)),
    ));
    let some = ClusterExternalIpSourceSpec {
        ipv4: Some(IpSolversConfig {
            query_mode: Some(QueryMode::All),
            solvers: vec![static_kind(vec![addr("10.0.0.1")])],
        }),
        ipv6: None,
    };
    let src = ExternalIpSource::try_from(String::from("src"), some).unwrap();
    assert_eq!(src.name(), "src");
    assert_eq!(src.kind(), "ClusterExternalIPSource");
    assert!(src.v4_list().is_some());
    assert!(src.v6_list().is_none());
}

#[test]
fn source_rejects_invalid_present_block() {
    // a present block with an empty solver list is a configuration error:
    // the whole source is excluded, so it can never resolve to an empty set
    // and blank a Service's addresses
    let only_empty = ClusterExternalIpSourceSpec {
        ipv4: Some(IpSolversConfig { query_mode: None, solvers: Vec::new() }),
        ipv6: None,
    };
    assert!(matches!(
        ExternalIpSource::try_from(String::from("src"), only_empty),
        Err(IpSourceError::Malformed(_)),
    ));
    // even beside a valid block, an invalid one rejects the source
    let half_empty = ClusterExternalIpSourceSpec {
        ipv4: Some(IpSolversConfig {
            query_mode: None,
            solvers: vec![static_kind(vec![addr("10.0.0.1")])],
        }),
        ipv6: Some(IpSolversConfig { query_mode: None, solvers: Vec::new() }),
    };
    assert!(matches!(
        ExternalIpSource::try_from(String::from("src"), half_empty),
        Err(IpSourceError::Malformed(_)),
    ));
}

#[test]
fn source_assembles_both_families() {
    let spec = ClusterExternalIpSourceSpec {
        ipv4: Some(IpSolversConfig {
            query_mode: None,
            solvers: vec![static_kind(vec![addr("10.0.0.1")])],
        }),
        ipv6: Some(IpSolversConfig {
            query_mode: None,
            solvers: vec![static_kind(vec![addr("::1")])],
        }),
    };
    let src = ExternalIpSource::try_from(String::from("src"), spec).unwrap();
    let out = src
        .assemble(Some(Ok(vec![addr("10.0.0.1")])), Some(Ok(vec![addr("::1")])))
        .unwrap();
    assert_eq!(out, vec![addr("10.0.0.1"), addr("::1")]);
    let err = src.assemble(
        Some(Err(IpSourceError::Malformed(String::from("bad")))),
        Some(Ok(vec![addr("::1")])),
    );
    assert!(err.is_err());
}

#[test]
fn registry_shares_one_instance_per_key() {
    // Two structurally identical configurations for the same family yield
    // the same instance slot; a different family gets its own.
    let key = |kind| RegistryKey { solver: static_kind(vec![addr("10.0.0.1")]), kind };
    let mut reg = SolverRegistry::new();
    let wanted = vec![key(AddressKind::IPv4), key(AddressKind::IPv4), key(AddressKind::IPv6)];
    reg.refresh(&wanted).unwrap();
    assert_eq!(reg.len(), 2);
    let i1 = reg.find(&key(AddressKind::IPv4)).unwrap();
    let i2 = reg.find(&key(AddressKind::IPv4)).unwrap();
    assert_eq!(i1, i2, "equal keys must resolve to the same instance");
    let i3 = reg.find(&key(AddressKind::IPv6)).unwrap();
    assert_ne!(i1, i3);
    assert!(registry_keys_equal(&key(AddressKind::IPv4), &key(AddressKind::IPv4)));
}

#[test]
fn registry_refresh_keeps_existing_instances() {
    let key = RegistryKey {
        solver: SolverKind::IpAPI(externalip_manager::crd::IpAPIConfig {
            provider: externalip_manager::crd::IpSolverProvider::MyIp,
        }),
        kind: AddressKind::IPv4,
    };
    let mut reg = SolverRegistry::new();
    reg.refresh(&vec![externalip_manager::registry::clone_registry_key(&key)]).unwrap();
    let i = reg.find(&key).unwrap();
    // warm the instance's cache through a query
    let ev = externalip_manager::solvers::UpstreamEvent::IpApiResult(
        externalip_manager::ip_api::IpProviderResponse::new(500, Ok(vec![addr("9.9.9.9")])),
    );
    reg.finish_upstream(i, 0, ev).unwrap();
    // refreshing with the same key neither duplicates nor resets it
    reg.refresh(&vec![externalip_manager::registry::clone_registry_key(&key)]).unwrap();
    assert_eq!(reg.len(), 1);
    match reg.instance(i) {
        SolverInstance::IpApi(s) => {
            assert!(matches!(s.cache, externalip_manager::ip_api::CacheState::Fresh { .. }))
        }
        other => panic!("expected the IP-API instance, got {:?}", other),
    }
}

#[test]
fn registry_refresh_rejects_invalid_merge() {
    let bad = RegistryKey {
        solver: SolverKind::Merge(externalip_manager::crd::MergeConfig {
            partial_solvers: vec![PartialSolver {
                solver: PartialSolverKind::Static(StaticConfig { addresses: vec![addr("10.0.0.1")] }),
                mask: addr("0.0.0.255"),
            }],
        }),
        kind: AddressKind::IPv4,
    };
    let mut reg = SolverRegistry::new();
    assert!(reg.refresh(&vec![bad]).is_err());
}

#[test]
fn solver_dispatch_names_upstream_calls() {
    let dns = SolverInstance::build(&SolverKind::DnsHostname(DnsHostnameConfig {
        host: String::from("example.org"),
    }))
    .unwrap();
    match dns.begin_query(AddressKind::IPv6, &empty_svc(), 0) {
        QueryBegin::Upstream(UpstreamCall::DnsLookup { host, kind }) => {
            assert_eq!(host, "example.org");
            assert_eq!(kind, AddressKind::IPv6);
        }
        other => panic!("expected a DNS lookup request, got {:?}", other),
    }
    let st = SolverInstance::build(&static_kind(vec![addr("10.0.0.1")])).unwrap();
    match st.begin_query(AddressKind::IPv4, &empty_svc(), 0) {
        QueryBegin::Done(Ok(v)) => assert_eq!(v, vec![addr("10.0.0.1")]),
        other => panic!("expected an immediate answer, got {:?}", other),
    }
    let merge_cfg = SolverKind::Merge(externalip_manager::crd::MergeConfig {
        partial_solvers: vec![PartialSolver {
            solver: PartialSolverKind::Static(StaticConfig { addresses: vec![addr("10.0.0.1")] }),
            mask: addr("255.255.255.255"),
        }],
    });
    let merge = SolverInstance::build(&merge_cfg).unwrap();
    assert!(matches!(merge.begin_query(AddressKind::IPv4, &empty_svc(), 0), QueryBegin::Composite));
}

#[test]
fn dns_outcome_passes_through() {
    let mut dns = SolverInstance::build(&SolverKind::DnsHostname(DnsHostnameConfig {
        host: String::from("example.org"),
    }))
    .unwrap();
    let ok = dns.finish_upstream(
        0,
        externalip_manager::solvers::UpstreamEvent::DnsResult(Ok(vec![addr("192.0.2.1")])),
    );
    assert_eq!(ok.unwrap(), vec![addr("192.0.2.1")]);
    let err = dns.finish_upstream(
        0,
        externalip_manager::solvers::UpstreamEvent::DnsResult(Err(SourceError::new(
            String::from("no records"),
        ))),
    );
    assert_eq!(err.unwrap_err().reason, "no records");
}

#[test]
fn source_registry_parses_and_indexes() {
    let mut reg = IPSourceRegistry::new();
    let configs = vec![
        (
            String::from("good"),
            ClusterExternalIpSourceSpec {
                ipv4: Some(IpSolversConfig {
                    query_mode: None,
                    solvers: vec![static_kind(vec![addr("10.0.0.1")])],
                }),
                ipv6: None,
            },
        ),
        (String::from("bad"), ClusterExternalIpSourceSpec { ipv4: None, ipv6: None }),
        (
            String::from("empty-block"),
            ClusterExternalIpSourceSpec {
                ipv4: Some(IpSolversConfig { query_mode: None, solvers: Vec::new() }),
                ipv6: None,
            },
        ),
    ];
    let errs = reg.refresh(configs).unwrap();
    // one error per malformed resource, under its name, in listing order
    assert_eq!(errs.len(), 2, "each malformed resource is reported, not fatal");
    assert_eq!(errs[0].0, "bad");
    assert_eq!(errs[1].0, "empty-block");
    assert!(matches!(errs[0].1, IpSourceError::Malformed(_)));
    assert!(matches!(errs[1].1, IpSourceError::Malformed(_)));
    assert!(reg.get_cluster(&String::from("good")).is_some());
    assert!(reg.get_cluster(&String::from("bad")).is_none());
    assert!(reg.get_cluster(&String::from("empty-block")).is_none());
    assert_eq!(reg.solvers().len(), 1);
}

#[test]
fn derived_keys_expand_merges() {
    let merge_cfg = SolverKind::Merge(externalip_manager::crd::MergeConfig {
        partial_solvers: vec![PartialSolver {
            solver: PartialSolverKind::Static(StaticConfig { addresses: vec![addr("10.0.0.1")] }),
            mask: addr("255.255.255.255"),
        }],
    });
    let configs = vec![(
        String::from("src"),
        ClusterExternalIpSourceSpec {
            ipv4: Some(IpSolversConfig { query_mode: None, solvers: vec![merge_cfg] }),
            ipv6: None,
        },
    )];
    let keys = derive_solver_keys(&configs);
    // the merge contributes its partial solver's key plus its own
    assert_eq!(keys.len(), 2);
    assert!(matches!(keys[0].solver, SolverKind::Static(_)));
    assert!(matches!(keys[1].solver, SolverKind::Merge(_)));
    assert_eq!(keys[0].kind, AddressKind::IPv4);
}

#[test]
fn classify_service_reads_annotation() {
    let annotated = ServiceSnapshot {
        annotations: Some(vec![
            (String::from("other"), String::from("x")),
            (
                String::from("externalip.spacebird.dev/cluster-external-ip-source"),
                String::from("my-source"),
            ),
        ]),
        ..empty_svc()
    };
    let found = classify_service(annotated).expect("annotated Service must be recognized");
    match found.ip_source() {
        externalip_manager::source::ExternalIpSourceKind::Cluster(name) => {
            assert_eq!(name, "my-source")
        }
    }
    assert!(found.svc().annotations.is_some());
    assert!(classify_service(empty_svc()).is_none());
}

#[test]
fn reconcile_detects_up_to_date_sets() {
    let cfg = ManagerConfig { dry_run: false };
    // same set in a different order, with a duplicate: no patch
    let current = vec![b"1.1.1.1".to_vec(), b"2.2.2.2".to_vec()];
    let resolved = vec![addr("2.2.2.2"), addr("1.1.1.1"), addr("2.2.2.2")];
    assert!(matches!(
        decide_reconcile(&current, &resolved, cfg.dry_run),
        ReconcileAction::AlreadyUpToDate,
    ));
    assert!(address_sets_equal(
        &vec![addr("1.1.1.1"), addr("2.2.2.2")],
        &vec![addr("2.2.2.2"), addr("1.1.1.1")],
    ));
}

#[test]
fn reconcile_patches_with_deduplicated_text() {
    let current = vec![b"1.1.1.1".to_vec()];
    let resolved = vec![addr("10.0.0.77"), addr("10.0.0.77"), addr("::1")];
    match decide_reconcile(&current, &resolved, false) {
        ReconcileAction::Patch { addresses } => {
            assert_eq!(addresses, vec![String::from("10.0.0.77"), String::from("::1")]);
        }
        other => panic!("expected a patch, got {:?}", other),
    }
    assert_eq!(dedup_addresses(&resolved), vec![addr("10.0.0.77"), addr("::1")]);
}

#[test]
fn reconcile_honors_dry_run_and_invalid_entries() {
    let current = vec![b"1.1.1.1".to_vec()];
    let resolved = vec![addr("2.2.2.2")];
    assert!(matches!(
        decide_reconcile(&current, &resolved, true),
        ReconcileAction::SkippedDryRun,
    ));
    let broken = vec![b"1.1.1.1".to_vec(), b"not-an-ip".to_vec()];
    match decide_reconcile(&broken, &resolved, false) {
        ReconcileAction::InvalidCurrentAddress { index } => assert_eq!(index, 1),
        other => panic!("expected the invalid entry to be reported, got {:?}", other),
    }
}
