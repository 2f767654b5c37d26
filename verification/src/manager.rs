//! The reconciliation decision for one Service: compare its current
//! `externalIPs` against the freshly resolved set and decide whether a patch
//! is needed, honoring dry-run mode. A Service whose source could not be
//! resolved keeps its current addresses — no decision here ever blanks them.

use vstd::prelude::*;

use crate::addr::IpAddress;
use crate::ip_text::{format_ip, parse_ip, spec_format_ip, spec_parse_ip};

verus! {

/// The controller's configuration: in dry-run mode mismatches are reported
/// but never patched.
#[derive(Debug, Default, Clone, Copy)]
pub struct ManagerConfig {
    pub dry_run: bool,
}

/// What reconciling one Service comes to.
#[derive(Debug)]
pub enum ReconcileAction {
    /// A current `externalIPs` entry is not a valid address; nothing is
    /// changed. The index names the first offending entry.
    InvalidCurrentAddress { index: usize },
    /// The current addresses already equal the resolved set.
    AlreadyUpToDate,
    /// The sets differ, but dry-run mode forbids the patch.
    SkippedDryRun,
    /// Patch `spec.externalIPs` to these address texts.
    Patch { addresses: Vec<String> },
}

/// The current address texts, parsed — or the index of the first entry that
/// is no valid address.
pub open spec fn spec_parse_current(texts: Seq<Vec<u8>>) -> Result<Seq<IpAddress>, int>
    decreases texts.len(),
{
    if texts.len() == 0 {
        Ok(Seq::<IpAddress>::empty())
    } else {
        match spec_parse_current(texts.drop_last()) {
            Ok(rest) => match spec_parse_ip(texts.last()@) {
                Some(a) => Ok(rest.push(a)),
                None => Err(texts.len() - 1),
            },
            Err(i) => Err(i),
        }
    }
}

/// Whether two address lists denote the same set of addresses.
pub open spec fn same_address_set(a: Seq<IpAddress>, b: Seq<IpAddress>) -> bool {
    (forall|i: int| 0 <= i < a.len() ==> b.contains(#[trigger] a[i])) && (forall|j: int|
        0 <= j < b.len() ==> a.contains(#[trigger] b[j]))
}

/// The addresses of `s` with duplicates dropped, keeping first occurrences
/// in order.
pub open spec fn spec_dedup(s: Seq<IpAddress>) -> Seq<IpAddress>
    decreases s.len(),
{
    if s.len() == 0 {
        Seq::<IpAddress>::empty()
    } else if s.drop_last().contains(s.last()) {
        spec_dedup(s.drop_last())
    } else {
        spec_dedup(s.drop_last()).push(s.last())
    }
}

/// Whether an address list contains an address.
pub fn addresses_contain(v: &Vec<IpAddress>, a: IpAddress) -> (r: bool)
    ensures
        r == v@.contains(a),
{
    let n = v.len();
    let mut i: usize = 0;
    while i < n
        invariant
            i <= n,
            n == v@.len(),
            forall|j: int| 0 <= j < i ==> v@[j] != a,
        decreases n - i,
    {
        if v[i] == a {
            return true;
        }
        i = i + 1;
    }
    false
}

/// Whether two address lists denote the same set.
pub fn address_sets_equal(a: &Vec<IpAddress>, b: &Vec<IpAddress>) -> (r: bool)
    ensures
        r == same_address_set(a@, b@),
{
    let n = a.len();
    let mut i: usize = 0;
    while i < n
        invariant
            i <= n,
            n == a@.len(),
            forall|j: int| 0 <= j < i ==> b@.contains(#[trigger] a@[j]),
        decreases n - i,
    {
        if !addresses_contain(b, a[i]) {
            return false;
        }
        i = i + 1;
    }
    let m = b.len();
    let mut k: usize = 0;
    while k < m
        invariant
            k <= m,
            m == b@.len(),
            forall|j: int| 0 <= j < a@.len() ==> b@.contains(#[trigger] a@[j]),
            forall|j: int| 0 <= j < k ==> a@.contains(#[trigger] b@[j]),
        decreases m - k,
    {
        if !addresses_contain(a, b[k]) {
            return false;
        }
        k = k + 1;
    }
    true
}

/// Deduplication keeps exactly the addresses the list held.
pub proof fn lemma_dedup_contains(s: Seq<IpAddress>)
    ensures
        forall|x: IpAddress| spec_dedup(s).contains(x) == s.contains(x),
    decreases s.len(),
{
    if s.len() > 0 {
        let pre = s.drop_last();
        let a = s.last();
        let d = spec_dedup(s);
        lemma_dedup_contains(pre);
        assert forall|x: IpAddress| d.contains(x) == s.contains(x) by {
            if s.contains(x) {
                let w = choose|w: int| 0 <= w < s.len() && s[w] == x;
                if w < pre.len() {
                    assert(pre[w] == x);
                    assert(pre.contains(x));
                    assert(spec_dedup(pre).contains(x));
                    if pre.contains(a) {
                        assert(d == spec_dedup(pre));
                    } else {
                        let u = choose|u: int|
                            0 <= u < spec_dedup(pre).len() && spec_dedup(pre)[u] == x;
                        assert(d[u] == x);
                    }
                } else {
                    assert(x == a);
                    if pre.contains(a) {
                        assert(spec_dedup(pre).contains(a));
                        assert(d == spec_dedup(pre));
                    } else {
                        assert(d[d.len() - 1] == a);
                    }
                }
            }
            if d.contains(x) {
                let w = choose|w: int| 0 <= w < d.len() && d[w] == x;
                if pre.contains(a) {
                    assert(spec_dedup(pre).contains(x));
                    assert(pre.contains(x));
                    let u = choose|u: int| 0 <= u < pre.len() && pre[u] == x;
                    assert(s[u] == x);
                } else {
                    if w < spec_dedup(pre).len() {
                        assert(spec_dedup(pre)[w] == x);
                        assert(spec_dedup(pre).contains(x));
                        assert(pre.contains(x));
                        let u = choose|u: int| 0 <= u < pre.len() && pre[u] == x;
                        assert(s[u] == x);
                    } else {
                        assert(x == a);
                        assert(s[s.len() - 1] == a);
                    }
                }
            }
        }
    }
}

/// The resolved addresses with duplicates dropped.
pub fn dedup_addresses(v: &Vec<IpAddress>) -> (r: Vec<IpAddress>)
    ensures
        r@ == spec_dedup(v@),
{
    let n = v.len();
    let mut out: Vec<IpAddress> = Vec::new();
    let mut i: usize = 0;
    while i < n
        invariant
            i <= n,
            n == v@.len(),
            out@ == spec_dedup(v@.subrange(0, i as int)),
        decreases n - i,
    {
        proof {
            assert(v@.subrange(0, i + 1 as int).drop_last() =~= v@.subrange(0, i as int));
            assert(v@.subrange(0, i + 1 as int).last() == v@[i as int]);
            lemma_dedup_contains(v@.subrange(0, i as int));
        }
        if !addresses_contain(&out, v[i]) {
            out.push(v[i]);
        }
        i = i + 1;
    }
    proof {
        assert(v@.subrange(0, n as int) =~= v@);
    }
    out
}

/// Decides what to do with one Service: parse its current `externalIPs`
/// (an unparsable entry is an error and nothing changes), compare the
/// current and resolved address sets, and patch — with the resolved
/// addresses deduplicated and formatted — only when the sets differ and
/// dry-run mode is off.
pub fn decide_reconcile(current_texts: &Vec<Vec<u8>>, resolved: &Vec<IpAddress>, dry_run: bool)
    -> (r: ReconcileAction)
    ensures
        r matches ReconcileAction::InvalidCurrentAddress { index } ==> spec_parse_current(
            current_texts@,
        ) == Err::<Seq<IpAddress>, int>(index as int),
        spec_parse_current(current_texts@) is Err <==> r is InvalidCurrentAddress,
        spec_parse_current(current_texts@) matches Ok(cur) ==> {
            &&& (r is AlreadyUpToDate <==> same_address_set(cur, resolved@))
            &&& (r is SkippedDryRun <==> (!same_address_set(cur, resolved@) && dry_run))
            &&& (r matches ReconcileAction::Patch { addresses } ==> (!same_address_set(
                cur,
                resolved@,
            ) && !dry_run && addresses@.len() == spec_dedup(resolved@).len() && forall|i: int|
                0 <= i < addresses@.len() ==> (#[trigger] addresses@[i])@ == spec_format_ip(
                    spec_dedup(resolved@)[i],
                ).map_values(|b: u8| b as char)))
            &&& (!same_address_set(cur, resolved@) && !dry_run ==> r is Patch)
        },
{
    let ghost texts = current_texts@;
    let n = current_texts.len();
    let mut current: Vec<IpAddress> = Vec::new();
    let mut i: usize = 0;
    while i < n
        invariant
            i <= n,
            n == texts.len(),
            texts == current_texts@,
            spec_parse_current(texts.subrange(0, i as int)) == Ok::<Seq<IpAddress>, int>(current@),
        decreases n - i,
    {
        proof {
            assert(texts.subrange(0, i + 1 as int).drop_last() =~= texts.subrange(0, i as int));
            assert(texts.subrange(0, i + 1 as int).last() == texts[i as int]);
        }
        match parse_ip(current_texts[i].as_slice()) {
            Some(a) => {
                current.push(a);
            },
            None => {
                proof {
                    lemma_parse_current_prefix_err(texts, i as int);
                }
                return ReconcileAction::InvalidCurrentAddress { index: i };
            },
        }
        i = i + 1;
    }
    proof {
        assert(texts.subrange(0, n as int) =~= texts);
    }
    if address_sets_equal(&current, resolved) {
        return ReconcileAction::AlreadyUpToDate;
    }
    if dry_run {
        return ReconcileAction::SkippedDryRun;
    }
    let deduped = dedup_addresses(resolved);
    let m = deduped.len();
    let mut addresses: Vec<String> = Vec::new();
    let mut k: usize = 0;
    while k < m
        invariant
            k <= m,
            m == deduped@.len(),
            deduped@ == spec_dedup(resolved@),
            addresses@.len() == k,
            forall|j: int|
                0 <= j < k ==> (#[trigger] addresses@[j])@ == spec_format_ip(
                    spec_dedup(resolved@)[j],
                ).map_values(|b: u8| b as char),
        decreases m - k,
    {
        let s = format_ip(&deduped[k]);
        addresses.push(s);
        k = k + 1;
    }
    ReconcileAction::Patch { addresses }
}

/// Once some prefix of the current texts fails to parse at position `i`,
/// the whole list fails at that position.
proof fn lemma_parse_current_prefix_err(texts: Seq<Vec<u8>>, i: int)
    requires
        0 <= i < texts.len(),
        spec_parse_current(texts.subrange(0, i + 1)) == Err::<Seq<IpAddress>, int>(i),
    ensures
        spec_parse_current(texts) == Err::<Seq<IpAddress>, int>(i),
    decreases texts.len(),
{
    if i + 1 == texts.len() {
        assert(texts.subrange(0, i + 1) =~= texts);
    } else {
        assert(texts.drop_last().subrange(0, i + 1) =~= texts.subrange(0, i + 1));
        lemma_parse_current_prefix_err(texts.drop_last(), i);
    }
}

} // verus!
