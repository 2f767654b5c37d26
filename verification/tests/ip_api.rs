//! The IP-API solver's cache and backoff protocol, driven over a simulated
//! clock: answers are cached until their TTL elapses, rate limits are
//! respected without hammering the provider, and repeated rate limits back
//! off exponentially.

use externalip_manager::addr::{AddressKind, IpAddress};
use externalip_manager::crd::IpSolverProvider;
use externalip_manager::ip_api::{
    CacheDecision, CacheState, IpApiSolver, IpProviderError, IpProviderResponse,
};
use externalip_manager::ip_text::parse_ip;

const CACHE_TIMEOUT: u64 = 500;

fn addr(text: &str) -> IpAddress {
    parse_ip(text.as_bytes()).expect("test literal must parse")
}

fn ratelimited(ttl: u64) -> IpProviderResponse {
    IpProviderResponse::new(ttl, Err(IpProviderError::RateLimited { remaining_ms: ttl }))
}

#[test]
fn solver_uses_cache() {
    let expected = vec![addr("0.0.0.0")];
    let mut solv = IpApiSolver::new(IpSolverProvider::MyIp);
    assert!(matches!(solv.cache_lookup(0), CacheDecision::CallUpstream));
    let result = solv
        .apply_response(0, IpProviderResponse::new(CACHE_TIMEOUT, Ok(expected.clone())))
        .expect("successful response must be returned");
    assert_eq!(result, expected);
    // Second call should reuse cached address: no upstream call is asked for,
    // and the cached addresses come back, not the provider's next answer.
    match solv.cache_lookup(CACHE_TIMEOUT / 2) {
        CacheDecision::UseCached(result) => assert_eq!(result, expected),
        other => panic!("expected cached answer, got {:?}", other),
    }
    assert!(!matches!(solv.cache_lookup(CACHE_TIMEOUT / 2), CacheDecision::CallUpstream));
}

#[test]
fn solver_cache_invalidates() {
    let expected = vec![addr("0.0.0.0")];
    let mut solv = IpApiSolver::new(IpSolverProvider::MyIp);
    // first call to fill cache
    solv.apply_response(
        0,
        IpProviderResponse::new(CACHE_TIMEOUT, Ok(vec![addr("1.1.1.1")])),
    )
    .expect("successful response must be returned");
    // Call after the TTL elapsed should go upstream and yield the second address
    match solv.cache_lookup(CACHE_TIMEOUT + 100) {
        CacheDecision::CallUpstream => {}
        other => panic!("expected an upstream call after expiry, got {:?}", other),
    }
    let result = solv
        .apply_response(
            CACHE_TIMEOUT + 100,
            IpProviderResponse::new(CACHE_TIMEOUT, Ok(expected.clone())),
        )
        .expect("successful response must be returned");
    assert_eq!(result, expected);
}

#[test]
fn solver_errors_on_ratelimit() {
    let mut solv = IpApiSolver::new(IpSolverProvider::MyIp);
    let result = solv.apply_response(0, ratelimited(CACHE_TIMEOUT));
    assert!(result.is_err());
}

#[test]
fn solver_waits_after_ratelimit() {
    let expected = vec![addr("0.0.0.0")];
    let mut solv = IpApiSolver::new(IpSolverProvider::MyIp);
    let result = solv.apply_response(0, ratelimited(CACHE_TIMEOUT));
    assert!(result.is_err());
    // Immediate second query, should still return a rate limit error without
    // an upstream call
    match solv.cache_lookup(100) {
        CacheDecision::Backoff { remaining_ms } => assert_eq!(remaining_ms, CACHE_TIMEOUT - 100),
        other => panic!("expected the cached rate limit, got {:?}", other),
    }
    // After the rate-limit TTL elapses, the request goes upstream and succeeds
    assert!(matches!(solv.cache_lookup(CACHE_TIMEOUT + 100), CacheDecision::CallUpstream));
    let result = solv
        .apply_response(
            CACHE_TIMEOUT + 100,
            IpProviderResponse::new(CACHE_TIMEOUT, Ok(expected.clone())),
        )
        .expect("successful response must be returned");
    assert_eq!(result, expected);
}

#[test]
fn solver_exponential_backoff_on_repeated_ratelimit() {
    let mut solv = IpApiSolver::new(IpSolverProvider::MyIp);
    // Trigger ratelimit
    let result = solv.apply_response(0, ratelimited(CACHE_TIMEOUT));
    assert!(result.is_err());
    // Still ratelimited after the first marker expired
    assert!(matches!(solv.cache_lookup(CACHE_TIMEOUT + 100), CacheDecision::CallUpstream));
    let result = solv.apply_response(CACHE_TIMEOUT + 100, ratelimited(CACHE_TIMEOUT));
    assert!(result.is_err());
    // Ratelimited with exponential backoff
    match solv.cache {
        CacheState::RateLimited { ttl_ms, .. } => assert_eq!(ttl_ms, CACHE_TIMEOUT * 2),
        _ => panic!("should have cached ratelimit"),
    }
}

#[test]
fn backoff_caps_at_maximum() {
    let mut solv = IpApiSolver::new(IpSolverProvider::Ipify);
    let base = externalip_manager::ip_api::RATELIMIT_BACKOFF_MAX_MS - 100;
    solv.apply_response(0, ratelimited(base)).unwrap_err();
    solv.apply_response(base + 1, ratelimited(base)).unwrap_err();
    match solv.cache {
        CacheState::RateLimited { ttl_ms, .. } => {
            assert_eq!(ttl_ms, externalip_manager::ip_api::RATELIMIT_BACKOFF_MAX_MS)
        }
        _ => panic!("should have cached ratelimit"),
    }
}

#[test]
fn transient_failure_is_not_recorded() {
    let mut solv = IpApiSolver::new(IpSolverProvider::MyIp);
    let result = solv.apply_response(
        0,
        IpProviderResponse::new(
            CACHE_TIMEOUT,
            Err(IpProviderError::RequestFailed(String::from("connection reset"))),
        ),
    );
    assert!(result.is_err());
    assert!(matches!(solv.cache, CacheState::Empty));
    // the next query calls upstream at once, with no backoff
    assert!(matches!(solv.cache_lookup(1), CacheDecision::CallUpstream));
}

#[test]
fn http_exchanges_are_classified() {
    let ip = addr("203.0.113.9");
    let ok = IpProviderResponse::from_http(300_000, 200, Some(ip), String::new());
    assert_eq!(ok.outcome.unwrap(), vec![ip]);
    let rate = IpProviderResponse::from_http(300_000, 429, None, String::new());
    match rate.outcome {
        Err(IpProviderError::RateLimited { remaining_ms }) => assert_eq!(remaining_ms, 300_000),
        other => panic!("expected a rate limit, got {:?}", other),
    }
    let failed = IpProviderResponse::from_http(300_000, 503, None, String::from("bad gateway"));
    assert!(matches!(failed.outcome, Err(IpProviderError::RequestFailed(_))));
    let invalid = IpProviderResponse::from_http(300_000, 200, None, String::from("no ip"));
    assert!(matches!(invalid.outcome, Err(IpProviderError::InvalidResponse(_))));
}

#[test]
fn provider_urls_select_family() {
    let solv4 = IpApiSolver::new(IpSolverProvider::Ipify);
    assert_eq!(solv4.upstream_url(AddressKind::IPv4), "https://api.ipify.org?format=json");
    assert_eq!(solv4.upstream_url(AddressKind::IPv6), "https://api6.ipify.org?format=json");
    let solvm = IpApiSolver::new(IpSolverProvider::MyIp);
    assert_eq!(solvm.upstream_url(AddressKind::IPv4), "https://api4.my-ip.io/v2/ip.json");
    assert_eq!(solvm.upstream_ttl_ms(), 900_000);
    assert_eq!(externalip_manager::ip_api::Ipify::new().cache_ttl_ms(), 300_000);
    assert_eq!(externalip_manager::ip_api::MyIp::new().cache_ttl_ms(), 900_000);
    assert_eq!(AddressKind::IPv4.as_str(), "IPv4");
    assert_eq!(AddressKind::IPv6.as_str(), "IPv6");
}
