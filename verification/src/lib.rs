//! Address-resolution engine for a Kubernetes `externalIPs` controller.
//!
//! A Service is annotated with the name of a cluster-scoped configuration
//! resource that describes how to discover its external IPv4/IPv6 addresses:
//! through DNS, public "what-is-my-ip" APIs, load-balancer ingress status,
//! static literals, or a bitmask merge of several of those. This crate holds
//! the verified core of that controller: the solver configurations and their
//! validation, the deduplicated solver registry, the per-address-family query
//! pipeline, the IP-API cache with exponential rate-limit backoff, and the
//! bit-exact merge algorithm. Network and Kubernetes I/O stay outside; the
//! functions here take the outcomes of those calls as arguments and make
//! every decision the controller needs.

pub mod addr;
pub mod crd;
pub mod errors;
pub mod ip_api;
pub mod ip_text;
pub mod manager;
pub mod merge;
pub mod registry;
pub mod solvers;
pub mod source;
pub mod svc;
