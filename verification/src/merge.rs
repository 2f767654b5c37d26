//! The merge solver: assembles one address from bitmask-selected fragments
//! of several partial resolutions. Construction validates that the masks'
//! numeric values sum to exactly the all-ones value of an address width;
//! a query masks each partial solver's last address and sums the parts.

use vstd::prelude::*;

use crate::addr::{AddressKind, IpAddress};
use crate::crd::PartialSolver;
use crate::errors::{IpSourceError, SolverError};

verus! {

/// The all-ones value of a 32-bit IPv4 address, widened to 128 bits.
pub const IPV4_FULL_MASK: u128 = 0xffff_ffff;

/// The sum of the partial solvers' mask values, as an unbounded integer.
pub open spec fn mask_sum(ps: Seq<PartialSolver>) -> int
    decreases ps.len(),
{
    if ps.len() == 0 {
        0
    } else {
        mask_sum(ps.drop_last()) + ps.last().mask.spec_bits()
    }
}

/// Whether the masks sum to the all-ones value of one of the two address
/// widths. This is what construction accepts.
pub open spec fn valid_mask_sum(ps: Seq<PartialSolver>) -> bool {
    mask_sum(ps) == IPV4_FULL_MASK as int || mask_sum(ps) == u128::MAX as int
}

/// Whether every partial solver's mask belongs to the given address family.
pub open spec fn masks_match_kind(ps: Seq<PartialSolver>, kind: AddressKind) -> bool {
    forall|i: int| 0 <= i < ps.len() ==> (#[trigger] ps[i]).mask.spec_family() == kind
}

/// The fragment one partial solver contributes: the numeric value of the
/// last address it resolved, restricted to its mask.
pub open spec fn part_value(ps: PartialSolver, addrs: Seq<IpAddress>) -> u128
    recommends
        addrs.len() > 0,
{
    addrs.last().spec_bits() & ps.mask.spec_bits()
}

/// The sum of all fragments, as an unbounded integer.
pub open spec fn parts_sum(ps: Seq<PartialSolver>, results: Seq<Vec<IpAddress>>) -> int
    recommends
        ps.len() == results.len(),
    decreases ps.len(),
{
    if ps.len() == 0 {
        0
    } else {
        parts_sum(ps.drop_last(), results.drop_last()) + part_value(ps.last(), results.last()@)
    }
}

/// The assembled address: the fragment sum, reinterpreted in the requested
/// address width.
pub open spec fn merged_address(
    kind: AddressKind,
    ps: Seq<PartialSolver>,
    results: Seq<Vec<IpAddress>>,
) -> IpAddress {
    match kind {
        AddressKind::IPv4 => IpAddress::V4(parts_sum(ps, results) as u32),
        AddressKind::IPv6 => IpAddress::V6(parts_sum(ps, results) as u128),
    }
}

/// Restricting a value to a mask never exceeds the mask.
pub proof fn lemma_and_le(x: u128, m: u128)
    ensures
        (x & m) <= m,
{
    assert((x & m) <= m) by (bit_vector);
}

/// A prefix of the partial solver list contributes at most the whole list's
/// mask sum.
pub proof fn lemma_mask_sum_prefix_le(ps: Seq<PartialSolver>, i: int)
    requires
        0 <= i <= ps.len(),
    ensures
        mask_sum(ps.subrange(0, i)) <= mask_sum(ps),
    decreases ps.len(),
{
    if i == ps.len() {
        assert(ps.subrange(0, i) =~= ps);
    } else {
        lemma_mask_sum_prefix_le(ps.drop_last(), i);
        assert(ps.drop_last().subrange(0, i) =~= ps.subrange(0, i));
    }
}

/// The fragment sum never exceeds the mask sum: each fragment is bounded by
/// its own mask.
pub proof fn lemma_parts_le_masks(ps: Seq<PartialSolver>, results: Seq<Vec<IpAddress>>)
    requires
        ps.len() == results.len(),
    ensures
        0 <= parts_sum(ps, results) <= mask_sum(ps),
    decreases ps.len(),
{
    if ps.len() > 0 {
        lemma_parts_le_masks(ps.drop_last(), results.drop_last());
        lemma_and_le(results.last()@.last().spec_bits(), ps.last().mask.spec_bits());
    }
}

/// With IPv4 masks only, the mask sum is bounded by the list length times
/// the IPv4 all-ones value.
pub proof fn lemma_mask_sum_v4_bounded(ps: Seq<PartialSolver>)
    requires
        masks_match_kind(ps, AddressKind::IPv4),
    ensures
        mask_sum(ps) <= ps.len() * (IPV4_FULL_MASK as int),
    decreases ps.len(),
{
    if ps.len() > 0 {
        assert forall|i: int| 0 <= i < ps.drop_last().len() implies (#[trigger] ps.drop_last()[i]).mask.spec_family()
            == AddressKind::IPv4 by {
            assert(ps.drop_last()[i] == ps[i]);
        }
        lemma_mask_sum_v4_bounded(ps.drop_last());
        assert(ps.last().mask.spec_family() == AddressKind::IPv4);
        assert(ps.last().mask.spec_bits() <= IPV4_FULL_MASK);
    }
}

/// Structurally equal partial solver lists have equal mask sums.
pub proof fn lemma_mask_sum_respects_eq(a: Seq<PartialSolver>, b: Seq<PartialSolver>)
    requires
        crate::crd::partial_solvers_eq(a, b),
    ensures
        mask_sum(a) == mask_sum(b),
    decreases a.len(),
{
    if a.len() > 0 {
        assert(crate::crd::partial_solver_eq(a[a.len() - 1], b[b.len() - 1]));
        assert forall|i: int| 0 <= i < a.drop_last().len() implies crate::crd::partial_solver_eq(
            #[trigger] a.drop_last()[i],
            #[trigger] b.drop_last()[i],
        ) by {
            assert(crate::crd::partial_solver_eq(a[i], b[i]));
        }
        lemma_mask_sum_respects_eq(a.drop_last(), b.drop_last());
    }
}

/// The merge solver: a validated list of partial solvers.
#[derive(Debug)]
pub struct Merge {
    partial_solvers: Vec<PartialSolver>,
}

impl Merge {
    /// The partial solvers this merge was built from.
    pub closed spec fn partials(self) -> Seq<PartialSolver> {
        self.partial_solvers@
    }

    /// The construction invariant: the masks sum to an all-ones value.
    pub open spec fn wf(self) -> bool {
        valid_mask_sum(self.partials())
    }

    /// Validates that the partial solvers' masks sum to exactly the all-ones
    /// value of one address width, and keeps them if so. Any other sum is a
    /// configuration error.
    pub fn new(partial_solvers: Vec<PartialSolver>) -> (r: Result<Merge, IpSourceError>)
        ensures
            r is Ok <==> valid_mask_sum(partial_solvers@),
            r matches Ok(m) ==> m.partials() == partial_solvers@ && m.wf(),
            r matches Err(e) ==> e matches IpSourceError::Malformed(_),
    {
        let ghost all = partial_solvers@;
        let n = partial_solvers.len();
        let mut sum: u128 = 0;
        let mut i: usize = 0;
        while i < n
            invariant
                i <= n,
                n == all.len(),
                all == partial_solvers@,
                sum as int == mask_sum(all.subrange(0, i as int)),
            decreases n - i,
        {
            let bits = partial_solvers[i].mask.bits();
            proof {
                assert(all.subrange(0, i + 1 as int).drop_last() =~= all.subrange(0, i as int));
                assert(all.subrange(0, i + 1 as int).last() == all[i as int]);
            }
            match sum.checked_add(bits) {
                Some(s) => {
                    sum = s;
                },
                None => {
                    proof {
                        lemma_mask_sum_prefix_le(all, i + 1 as int);
                    }
                    return Err(
                        IpSourceError::Malformed(
                            "merge part netmasks do not combine to a full address".to_owned(),
                        ),
                    );
                },
            }
            i = i + 1;
        }
        proof {
            assert(all.subrange(0, n as int) =~= all);
        }
        if sum == IPV4_FULL_MASK || sum == u128::MAX {
            Ok(Merge { partial_solvers })
        } else {
            Err(
                IpSourceError::Malformed(
                    "merge part netmasks do not combine to a full address".to_owned(),
                ),
            )
        }
    }

    /// How many partial solvers the merge holds.
    pub fn partial_count(&self) -> (n: usize)
        ensures
            n == self.partials().len(),
    {
        self.partial_solvers.len()
    }

    /// The partial solver at one position.
    pub fn partial_at(&self, i: usize) -> (p: &PartialSolver)
        requires
            i < self.partials().len(),
        ensures
            *p == self.partials()[i as int],
    {
        &self.partial_solvers[i]
    }

    /// Checks that every partial solver's mask belongs to the requested
    /// address family. A mismatch is a resolution error, found at query time
    /// because the same merge may be referenced under both families.
    pub fn check_masks(&self, kind: AddressKind) -> (r: Result<(), SolverError>)
        ensures
            r is Ok <==> masks_match_kind(self.partials(), kind),
    {
        let n = self.partial_solvers.len();
        let mut i: usize = 0;
        while i < n
            invariant
                i <= n,
                n == self.partials().len(),
                forall|j: int| 0 <= j < i ==> (#[trigger] self.partials()[j]).mask.spec_family()
                    == kind,
            decreases n - i,
        {
            if self.partial_solvers[i].mask.family() != kind {
                return Err(
                    SolverError { reason: "mismatched merge mask IP type".to_owned() },
                );
            }
            i = i + 1;
        }
        Ok(())
    }

    /// Assembles the final address from the partial solvers' results:
    /// for each partial solver, the last address it returned is restricted
    /// to the partial's mask, and the fragments are summed and reinterpreted
    /// in the requested width. A partial solver that returned no addresses
    /// fails the whole merge.
    pub fn combine(&self, kind: AddressKind, results: &Vec<Vec<IpAddress>>) -> (r: Result<
        Vec<IpAddress>,
        SolverError,
    >)
        requires
            self.wf(),
            masks_match_kind(self.partials(), kind),
            results@.len() == self.partials().len(),
        ensures
            r is Ok <==> (forall|i: int| 0 <= i < results@.len() ==> (#[trigger] results@[i])@.len()
                > 0),
            r matches Ok(v) ==> v@ == seq![merged_address(kind, self.partials(), results@)],
            r matches Err(e) ==> e.reason@ == "merge partialSolver returned no addresses"@,
    {
        let ghost ps = self.partials();
        let ghost rs = results@;
        let n = self.partial_solvers.len();
        let mut total: u128 = 0;
        let mut i: usize = 0;
        while i < n
            invariant
                i <= n,
                n == ps.len(),
                ps == self.partials(),
                rs == results@,
                rs.len() == ps.len(),
                self.wf(),
                forall|j: int| 0 <= j < i ==> (#[trigger] rs[j])@.len() > 0,
                total as int == parts_sum(ps.subrange(0, i as int), rs.subrange(0, i as int)),
            decreases n - i,
        {
            let res_i = &results[i];
            if res_i.len() == 0 {
                return Err(
                    SolverError { reason: "merge partialSolver returned no addresses".to_owned() },
                );
            }
            let addr = res_i[res_i.len() - 1];
            let part = ip_to_u128(&addr) & ip_to_u128(&self.partial_solvers[i].mask);
            proof {
                assert(ps.subrange(0, i + 1 as int).drop_last() =~= ps.subrange(0, i as int));
                assert(rs.subrange(0, i + 1 as int).drop_last() =~= rs.subrange(0, i as int));
                assert(ps.subrange(0, i + 1 as int).last() == ps[i as int]);
                assert(rs.subrange(0, i + 1 as int).last() == rs[i as int]);
                assert(addr == rs[i as int]@.last());
                lemma_parts_le_masks(ps.subrange(0, i + 1 as int), rs.subrange(0, i + 1 as int));
                lemma_mask_sum_prefix_le(ps, i + 1 as int);
            }
            total = total + part;
            i = i + 1;
        }
        proof {
            assert(ps.subrange(0, n as int) =~= ps);
            assert(rs.subrange(0, n as int) =~= rs);
        }
        match kind {
            AddressKind::IPv4 => {
                proof {
                    lemma_mask_sum_v4_bounded(ps);
                    lemma_parts_le_masks(ps, rs);
                    let len = ps.len() as int;
                    let m = IPV4_FULL_MASK as int;
                    assert(0 <= len <= 0xffff_ffff_ffff_ffffint);
                    assert(len * m <= 0xffff_ffff_ffff_ffffint * m) by (nonlinear_arith)
                        requires
                            0 <= len <= 0xffff_ffff_ffff_ffffint,
                            m == 0xffff_ffffint,
                    ;
                    assert(0xffff_ffff_ffff_ffffint * 0xffff_ffffint < u128::MAX as int);
                    assert(mask_sum(ps) < u128::MAX as int);
                    assert(mask_sum(ps) == IPV4_FULL_MASK as int);
                }
                Ok(vec![IpAddress::V4(total as u32)])
            },
            AddressKind::IPv6 => Ok(vec![IpAddress::V6(total)]),
        }
    }
}

/// The numeric value of an address, widened to 128 bits.
pub fn ip_to_u128(addr: &IpAddress) -> (r: u128)
    ensures
        r == addr.spec_bits(),
{
    addr.bits()
}

} // verus!
