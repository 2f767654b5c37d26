//! The solver registry: a process-wide, deduplicated arena of solver
//! instances, keyed by (solver configuration, address family). Two sources
//! naming structurally equal configurations for the same family share one
//! instance — and so one cache and one backoff state. A refresh only ever
//! adds instances for keys not yet present; existing instances and their
//! cached state are left untouched, and nothing is ever evicted.

use vstd::prelude::*;

use crate::addr::AddressKind;
use crate::crd::{
    clone_solver_kind, lemma_solver_kind_eq_symmetric, lemma_solver_kind_eq_transitive,
    partial_solver_eq, partial_solvers_eq, solver_kind_eq, solver_kind_equals, SolverKind,
};
use crate::errors::{IpSourceError, SolverError};
use crate::merge::{lemma_mask_sum_respects_eq, valid_mask_sum};
use crate::solvers::{finish_rel, SolverInstance, UpstreamEvent};

verus! {

/// What identifies a live solver instance: the configuration and the
/// address family it is queried for.
#[derive(Debug)]
pub struct RegistryKey {
    pub solver: SolverKind,
    pub kind: AddressKind,
}

/// Structural equality of registry keys.
pub open spec fn registry_key_eq(a: RegistryKey, b: RegistryKey) -> bool {
    solver_kind_eq(a.solver, b.solver) && a.kind == b.kind
}

/// Whether two registry keys are structurally equal.
pub fn registry_keys_equal(a: &RegistryKey, b: &RegistryKey) -> (r: bool)
    ensures
        r == registry_key_eq(*a, *b),
{
    a.kind == b.kind && solver_kind_equals(&a.solver, &b.solver)
}

/// A structurally equal copy of a registry key.
pub fn clone_registry_key(a: &RegistryKey) -> (r: RegistryKey)
    ensures
        registry_key_eq(r, *a),
{
    RegistryKey { solver: clone_solver_kind(&a.solver), kind: a.kind }
}

/// A key no instance can ever be built for: a merge whose masks do not sum
/// to an all-ones value.
pub open spec fn key_invalid(k: RegistryKey) -> bool {
    k.solver matches SolverKind::Merge(c) && !valid_mask_sum(c.partial_solvers@)
}

/// A configuration's live form keeps matching any structurally equal
/// configuration.
proof fn lemma_matches_config_respects_eq(inst: SolverInstance, a: SolverKind, b: SolverKind)
    requires
        inst.matches_config(a),
        solver_kind_eq(a, b),
    ensures
        inst.matches_config(b),
{
    match inst {
        SolverInstance::Merge(m) => match a {
            SolverKind::Merge(ca) => match b {
                SolverKind::Merge(cb) => {
                    assert forall|i: int| 0 <= i < m.partials().len() implies partial_solver_eq(
                        #[trigger] m.partials()[i],
                        #[trigger] cb.partial_solvers@[i],
                    ) by {
                        assert(partial_solver_eq(m.partials()[i], ca.partial_solvers@[i]));
                        assert(partial_solver_eq(ca.partial_solvers@[i], cb.partial_solvers@[i]));
                    }
                },
                _ => {},
            },
            _ => {},
        },
        _ => {},
    }
}

/// The registry proper: keys and their instances, in insertion order.
pub struct SolverRegistry {
    keys: Vec<RegistryKey>,
    instances: Vec<SolverInstance>,
}

impl SolverRegistry {
    /// The keys, in insertion order.
    pub closed spec fn spec_keys(self) -> Seq<RegistryKey> {
        self.keys@
    }

    /// The instances, in insertion order.
    pub closed spec fn spec_instances(self) -> Seq<SolverInstance> {
        self.instances@
    }

    pub open spec fn spec_len(self) -> nat {
        self.spec_keys().len()
    }

    pub open spec fn key_at(self, i: int) -> RegistryKey {
        self.spec_keys()[i]
    }

    pub open spec fn instance_at(self, i: int) -> SolverInstance {
        self.spec_instances()[i]
    }

    /// The registry's invariant: no two keys are structurally equal (the
    /// dedup invariant), and every instance is the live form of its key's
    /// configuration.
    pub open spec fn wf(self) -> bool {
        &&& self.spec_instances().len() == self.spec_keys().len()
        &&& forall|i: int, j: int|
            0 <= i < j < self.spec_len() ==> !registry_key_eq(
                #[trigger] self.key_at(i),
                #[trigger] self.key_at(j),
            )
        &&& forall|i: int|
            0 <= i < self.spec_len() ==> (#[trigger] self.instance_at(i)).matches_config(
                self.key_at(i).solver,
            )
    }

    /// Whether some key structurally equal to `k` is present.
    pub open spec fn spec_contains(self, k: RegistryKey) -> bool {
        exists|i: int| 0 <= i < self.spec_len() && registry_key_eq(#[trigger] self.key_at(i), k)
    }

    pub fn new() -> (r: SolverRegistry)
        ensures
            r.wf(),
            r.spec_len() == 0,
    {
        SolverRegistry { keys: Vec::new(), instances: Vec::new() }
    }

    pub fn len(&self) -> (n: usize)
        ensures
            n == self.spec_len(),
    {
        self.keys.len()
    }

    /// Finds the instance registered under a key structurally equal to
    /// `key`, if any.
    pub fn find(&self, key: &RegistryKey) -> (r: Option<usize>)
        ensures
            r matches Some(i) ==> i < self.spec_len() && registry_key_eq(
                self.key_at(i as int),
                *key,
            ),
            r is Some <==> self.spec_contains(*key),
    {
        let n = self.keys.len();
        let mut i: usize = 0;
        while i < n
            invariant
                i <= n,
                n == self.spec_len(),
                forall|j: int| 0 <= j < i ==> !registry_key_eq(#[trigger] self.key_at(j), *key),
            decreases n - i,
        {
            if registry_keys_equal(&self.keys[i], key) {
                return Some(i);
            }
            i = i + 1;
        }
        None
    }

    /// The instance at a position.
    pub fn instance(&self, i: usize) -> (r: &SolverInstance)
        requires
            self.wf(),
            i < self.spec_len(),
        ensures
            *r == self.instance_at(i as int),
    {
        &self.instances[i]
    }

    /// Finishes a query on the instance at `i` with the outcome of its
    /// upstream call. Only that instance changes, and only as the solver's
    /// own transition says.
    pub fn finish_upstream(&mut self, i: usize, now_ms: u64, ev: UpstreamEvent) -> (r: Result<
        Vec<crate::addr::IpAddress>,
        SolverError,
    >)
        requires
            old(self).wf(),
            i < old(self).spec_len(),
        ensures
            final(self).wf(),
            final(self).spec_keys() == old(self).spec_keys(),
            finish_rel(
                old(self).instance_at(i as int),
                final(self).instance_at(i as int),
                now_ms,
                ev,
                r,
            ),
            forall|j: int|
                0 <= j < old(self).spec_len() && j != i ==> final(self).instance_at(j) == old(self).instance_at(j),
    {
        let ghost gev = ev;
        let inst = &mut self.instances[i];
        let r = inst.finish_upstream(now_ms, ev);
        proof {
            assert(self.spec_keys() =~= old(self).spec_keys());
            assert forall|a: int, b: int|
                0 <= a < b < self.spec_len() implies !registry_key_eq(
                #[trigger] self.key_at(a),
                #[trigger] self.key_at(b),
            ) by {
                assert(self.key_at(a) == old(self).key_at(a));
                assert(self.key_at(b) == old(self).key_at(b));
            }
            assert forall|j: int|
                0 <= j < self.spec_len() implies (#[trigger] self.instance_at(j)).matches_config(
                self.key_at(j).solver,
            ) by {
                if j != i {
                    assert(self.instance_at(j) == old(self).instance_at(j));
                } else {
                    crate::solvers::lemma_finish_preserves_config(
                        old(self).instance_at(i as int),
                        self.instance_at(i as int),
                        now_ms,
                        gev,
                        r,
                        self.key_at(i as int).solver,
                    );
                }
            }
        }
        r
    }

    /// Grows the registry to cover every wanted key: a key not yet present
    /// gets a newly built instance; present keys and their cached state are
    /// untouched; nothing is removed. Fails exactly when some wanted key
    /// names a merge whose masks do not sum to an all-ones value.
    pub fn refresh(&mut self, wanted: &Vec<RegistryKey>) -> (r: Result<(), IpSourceError>)
        requires
            old(self).wf(),
        ensures
            final(self).wf(),
            old(self).spec_len() <= final(self).spec_len(),
            final(self).spec_keys().subrange(0, old(self).spec_len() as int) == old(self)
                .spec_keys(),
            final(self).spec_instances().subrange(0, old(self).spec_len() as int) == old(self)
                .spec_instances(),
            forall|i: int|
                old(self).spec_len() <= i < final(self).spec_len() ==> (#[trigger] final(self)
                    .instance_at(i)).is_fresh(),
            r is Ok ==> forall|j: int|
                0 <= j < wanted@.len() ==> final(self).spec_contains(#[trigger] wanted@[j]),
            r is Err <==> exists|j: int|
                0 <= j < wanted@.len() && key_invalid(#[trigger] wanted@[j]),
    {
        let ghost orig = *old(self);
        let n = wanted.len();
        let mut j: usize = 0;
        proof {
            assert(self.spec_keys().subrange(0, orig.spec_len() as int) =~= orig.spec_keys());
            assert(self.spec_instances().subrange(0, orig.spec_len() as int)
                =~= orig.spec_instances());
        }
        while j < n
            invariant
                j <= n,
                n == wanted@.len(),
                orig == *old(self),
                self.wf(),
                orig.spec_len() <= self.spec_len(),
                self.spec_keys().subrange(0, orig.spec_len() as int) == orig.spec_keys(),
                self.spec_instances().subrange(0, orig.spec_len() as int) == orig.spec_instances(),
                forall|i: int|
                    orig.spec_len() <= i < self.spec_len() ==> (#[trigger] self.instance_at(
                        i,
                    )).is_fresh(),
                forall|t: int| 0 <= t < j ==> self.spec_contains(#[trigger] wanted@[t]),
                forall|t: int| 0 <= t < j ==> !key_invalid(#[trigger] wanted@[t]),
            decreases n - j,
        {
            let ghost pre = *self;
            let key = &wanted[j];
            match self.find(key) {
                Some(_) => {
                    proof {
                        self.lemma_contained_key_valid(*key);
                    }
                },
                None => {
                    match SolverInstance::build(&key.solver) {
                        Ok(inst) => {
                            let key2 = clone_registry_key(key);
                            proof {
                                lemma_solver_kind_eq_symmetric(key2.solver, key.solver);
                                lemma_matches_config_respects_eq(
                                    inst,
                                    key.solver,
                                    key2.solver,
                                );
                            }
                            self.keys.push(key2);
                            self.instances.push(inst);
                            proof {
                                assert(self.spec_keys().subrange(0, orig.spec_len() as int)
                                    =~= pre.spec_keys().subrange(0, orig.spec_len() as int));
                                assert(self.spec_instances().subrange(0, orig.spec_len() as int)
                                    =~= pre.spec_instances().subrange(0, orig.spec_len() as int));
                                let last = self.spec_len() - 1;
                                assert(registry_key_eq(self.key_at(last), wanted@[j as int]));
                                assert forall|i: int, i2: int|
                                    0 <= i < i2 < self.spec_len() implies !registry_key_eq(
                                    #[trigger] self.key_at(i),
                                    #[trigger] self.key_at(i2),
                                ) by {
                                    if i2 == last {
                                        assert(self.key_at(i) == pre.key_at(i));
                                        assert(self.key_at(last) == key2);
                                        if registry_key_eq(self.key_at(i), self.key_at(last)) {
                                            lemma_solver_kind_eq_transitive(
                                                pre.key_at(i).solver,
                                                key2.solver,
                                                key.solver,
                                            );
                                            assert(registry_key_eq(pre.key_at(i), *key));
                                            assert(pre.spec_contains(*key));
                                            assert(false);
                                        }
                                    } else {
                                        assert(self.key_at(i) == pre.key_at(i));
                                        assert(self.key_at(i2) == pre.key_at(i2));
                                    }
                                }
                                assert forall|i: int|
                                    0 <= i < self.spec_len() implies (#[trigger] self.instance_at(
                                    i,
                                )).matches_config(self.key_at(i).solver) by {
                                    if i < last {
                                        assert(self.instance_at(i) == pre.instance_at(i));
                                        assert(self.key_at(i) == pre.key_at(i));
                                    } else {
                                        assert(self.instance_at(last) == inst);
                                        assert(self.key_at(last) == key2);
                                    }
                                }
                                assert forall|i: int|
                                    orig.spec_len() <= i < self.spec_len() implies (
                                #[trigger] self.instance_at(i)).is_fresh() by {
                                    if i < last {
                                        assert(self.instance_at(i) == pre.instance_at(i));
                                    } else {
                                        assert(self.instance_at(last) == inst);
                                    }
                                }
                                assert forall|t: int|
                                    0 <= t <= j implies self.spec_contains(
                                    #[trigger] wanted@[t],
                                ) by {
                                    if t < j {
                                        let w = choose|i: int|
                                            0 <= i < pre.spec_len() && registry_key_eq(
                                                #[trigger] pre.key_at(i),
                                                wanted@[t],
                                            );
                                        assert(self.key_at(w) == pre.key_at(w));
                                        assert(registry_key_eq(self.key_at(w), wanted@[t]));
                                    } else {
                                        assert(registry_key_eq(self.key_at(last), wanted@[t]));
                                    }
                                }
                            }
                        },
                        Err(e) => {
                            return Err(e);
                        },
                    }
                },
            }
            j = j + 1;
        }
        Ok(())
    }

    /// A key held in a well-formed registry is never an invalid merge: the
    /// instance registered under it was built, so its masks sum correctly.
    proof fn lemma_contained_key_valid(&self, k: RegistryKey)
        requires
            self.wf(),
            self.spec_contains(k),
        ensures
            !key_invalid(k),
    {
        let i = choose|i: int|
            0 <= i < self.spec_len() && registry_key_eq(#[trigger] self.key_at(i), k);
        if key_invalid(k) {
            match k.solver {
                SolverKind::Merge(c) => {
                    let inst = self.instance_at(i);
                    match inst {
                        SolverInstance::Merge(m) => match self.key_at(i).solver {
                            SolverKind::Merge(ck) => {
                                lemma_mask_sum_respects_eq(m.partials(), ck.partial_solvers@);
                                lemma_mask_sum_respects_eq(
                                    ck.partial_solvers@,
                                    c.partial_solvers@,
                                );
                                assert(false);
                            },
                            _ => {
                                assert(false);
                            },
                        },
                        _ => {
                            assert(false);
                        },
                    }
                },
                _ => {},
            }
        }
    }
}

/// The registry keys one partial solver list contributes: each partial's
/// configuration, re-tagged in the full union, keyed for the given family.
pub open spec fn partial_keys(ps: Seq<crate::crd::PartialSolver>, kind: AddressKind) -> Seq<
    RegistryKey,
>
    decreases ps.len(),
{
    if ps.len() == 0 {
        Seq::<RegistryKey>::empty()
    } else {
        partial_keys(ps.drop_last(), kind).push(
            RegistryKey { solver: ps.last().solver.as_solver_kind(), kind },
        )
    }
}

/// The registry keys one configured solver contributes for one family: the
/// solver's own key — preceded, for a merge, by its partial solvers' keys.
pub open spec fn keys_of_solver(s: SolverKind, kind: AddressKind) -> Seq<RegistryKey> {
    match s {
        SolverKind::Merge(mc) => partial_keys(mc.partial_solvers@, kind).push(
            RegistryKey { solver: s, kind },
        ),
        _ => seq![RegistryKey { solver: s, kind }],
    }
}

/// The registry keys one family block contributes: its solvers' keys, in
/// declaration order.
pub open spec fn keys_of_block(solvers: Seq<SolverKind>, kind: AddressKind) -> Seq<RegistryKey>
    decreases solvers.len(),
{
    if solvers.len() == 0 {
        Seq::<RegistryKey>::empty()
    } else {
        keys_of_block(solvers.drop_last(), kind) + keys_of_solver(solvers.last(), kind)
    }
}

/// The registry keys one configuration resource contributes: its IPv4
/// block's keys under the IPv4 family, then its IPv6 block's under IPv6.
pub open spec fn keys_of_source_spec(sp: crate::crd::ClusterExternalIpSourceSpec) -> Seq<
    RegistryKey,
> {
    (match sp.ipv4 {
        Some(b) => keys_of_block(b.solvers@, AddressKind::IPv4),
        None => Seq::<RegistryKey>::empty(),
    }) + (match sp.ipv6 {
        Some(b) => keys_of_block(b.solvers@, AddressKind::IPv6),
        None => Seq::<RegistryKey>::empty(),
    })
}

/// The registry keys a whole configuration listing contributes.
pub open spec fn keys_of_specs(
    list: Seq<(String, crate::crd::ClusterExternalIpSourceSpec)>,
) -> Seq<RegistryKey>
    decreases list.len(),
{
    if list.len() == 0 {
        Seq::<RegistryKey>::empty()
    } else {
        keys_of_specs(list.drop_last()) + keys_of_source_spec(list.last().1)
    }
}

/// Appends the keys a merge's partial solvers contribute.
fn push_partial_keys(out: &mut Vec<RegistryKey>, ps: &Vec<crate::crd::PartialSolver>, kind: AddressKind)
    ensures
        final(out)@.len() == old(out)@.len() + partial_keys(ps@, kind).len(),
        final(out)@.subrange(0, old(out)@.len() as int) == old(out)@,
        forall|t: int|
            0 <= t < partial_keys(ps@, kind).len() ==> registry_key_eq(
                #[trigger] final(out)@[old(out)@.len() + t],
                partial_keys(ps@, kind)[t],
            ),
{
    let ghost base = out@;
    let n = ps.len();
    let mut j: usize = 0;
    while j < n
        invariant
            j <= n,
            n == ps@.len(),
            out@.len() == base.len() + partial_keys(ps@.subrange(0, j as int), kind).len(),
            out@.subrange(0, base.len() as int) == base,
            partial_keys(ps@.subrange(0, j as int), kind).len() == j,
            forall|t: int|
                0 <= t < j ==> registry_key_eq(
                    #[trigger] out@[base.len() + t],
                    partial_keys(ps@.subrange(0, j as int), kind)[t],
                ),
        decreases n - j,
    {
        let ghost prefix = ps@.subrange(0, j as int);
        let ghost prefix2 = ps@.subrange(0, j + 1 as int);
        proof {
            assert(prefix2.drop_last() =~= prefix);
            assert(prefix2.last() == ps@[j as int]);
        }
        let k = RegistryKey { solver: SolverKind::from_partial(&ps[j].solver), kind };
        out.push(k);
        proof {
            assert(out@.subrange(0, base.len() as int) =~= base);
            assert forall|t: int|
                0 <= t < j + 1 implies registry_key_eq(
                #[trigger] out@[base.len() + t],
                partial_keys(prefix2, kind)[t],
            ) by {
                if t < j {
                    assert(partial_keys(prefix2, kind)[t] == partial_keys(prefix, kind)[t]);
                }
            }
        }
        j = j + 1;
    }
    proof {
        assert(ps@.subrange(0, n as int) =~= ps@);
    }
}

/// Appends the keys one configured solver contributes.
fn push_solver_keys(out: &mut Vec<RegistryKey>, s: &SolverKind, kind: AddressKind)
    ensures
        final(out)@.len() == old(out)@.len() + keys_of_solver(*s, kind).len(),
        final(out)@.subrange(0, old(out)@.len() as int) == old(out)@,
        forall|t: int|
            0 <= t < keys_of_solver(*s, kind).len() ==> registry_key_eq(
                #[trigger] final(out)@[old(out)@.len() + t],
                keys_of_solver(*s, kind)[t],
            ),
{
    let ghost base = out@;
    match s {
        SolverKind::Merge(mc) => {
            push_partial_keys(out, &mc.partial_solvers, kind);
            let own = RegistryKey { solver: clone_solver_kind(s), kind };
            out.push(own);
            proof {
                assert(out@.subrange(0, base.len() as int) =~= base);
                let ks = keys_of_solver(*s, kind);
                let pk = partial_keys(mc.partial_solvers@, kind);
                assert forall|t: int|
                    0 <= t < ks.len() implies registry_key_eq(
                    #[trigger] out@[base.len() + t],
                    ks[t],
                ) by {
                    if t < pk.len() {
                        assert(ks[t] == pk[t]);
                        assert(out@[base.len() + t] == out@.subrange(
                            base.len() as int,
                            out@.len() - 1,
                        )[t]);
                    } else {
                        assert(ks[t] == RegistryKey { solver: *s, kind });
                    }
                }
            }
        },
        _ => {
            let own = RegistryKey { solver: clone_solver_kind(s), kind };
            out.push(own);
            proof {
                assert(out@.subrange(0, base.len() as int) =~= base);
            }
        },
    }
}

/// Appends the keys one family block contributes.
fn push_block_keys(out: &mut Vec<RegistryKey>, solvers: &Vec<SolverKind>, kind: AddressKind)
    ensures
        final(out)@.len() == old(out)@.len() + keys_of_block(solvers@, kind).len(),
        final(out)@.subrange(0, old(out)@.len() as int) == old(out)@,
        forall|t: int|
            0 <= t < keys_of_block(solvers@, kind).len() ==> registry_key_eq(
                #[trigger] final(out)@[old(out)@.len() + t],
                keys_of_block(solvers@, kind)[t],
            ),
{
    let ghost base = out@;
    let n = solvers.len();
    let mut j: usize = 0;
    while j < n
        invariant
            j <= n,
            n == solvers@.len(),
            out@.len() == base.len() + keys_of_block(solvers@.subrange(0, j as int), kind).len(),
            out@.subrange(0, base.len() as int) == base,
            forall|t: int|
                0 <= t < keys_of_block(solvers@.subrange(0, j as int), kind).len()
                    ==> registry_key_eq(
                    #[trigger] out@[base.len() + t],
                    keys_of_block(solvers@.subrange(0, j as int), kind)[t],
                ),
        decreases n - j,
    {
        let ghost prefix = solvers@.subrange(0, j as int);
        let ghost prefix2 = solvers@.subrange(0, j + 1 as int);
        let ghost before = out@;
        proof {
            assert(prefix2.drop_last() =~= prefix);
            assert(prefix2.last() == solvers@[j as int]);
        }
        push_solver_keys(out, &solvers[j], kind);
        proof {
            assert(out@.subrange(0, base.len() as int) =~= before.subrange(
                0,
                base.len() as int,
            ));
            let kb = keys_of_block(prefix, kind);
            let ks = keys_of_solver(solvers@[j as int], kind);
            let kb2 = keys_of_block(prefix2, kind);
            assert(kb2 == kb + ks);
            assert forall|t: int|
                0 <= t < kb2.len() implies registry_key_eq(
                #[trigger] out@[base.len() + t],
                kb2[t],
            ) by {
                if t < kb.len() {
                    assert(out@[base.len() + t] == before.subrange(0, before.len() as int)[base.len()
                        + t]);
                    assert(out@[base.len() + t] == before[base.len() + t]);
                    assert(kb2[t] == kb[t]);
                } else {
                    assert(kb2[t] == ks[t - kb.len()]);
                    assert(out@[before.len() + (t - kb.len())] == out@[base.len() + t]);
                }
            }
        }
        j = j + 1;
    }
    proof {
        assert(solvers@.subrange(0, n as int) =~= solvers@);
    }
}

/// Derives the registry keys a configuration listing wants covered: for
/// every resource and every family block it defines, each configured
/// solver's key — a merge contributing its partial solvers' keys as well as
/// its own — for the family the block belongs to.
pub fn derive_solver_keys(
    configs: &Vec<(String, crate::crd::ClusterExternalIpSourceSpec)>,
) -> (r: Vec<RegistryKey>)
    ensures
        r@.len() == keys_of_specs(configs@).len(),
        forall|t: int|
            0 <= t < r@.len() ==> registry_key_eq(
                #[trigger] r@[t],
                keys_of_specs(configs@)[t],
            ),
{
    let mut out: Vec<RegistryKey> = Vec::new();
    let n = configs.len();
    let mut i: usize = 0;
    while i < n
        invariant
            i <= n,
            n == configs@.len(),
            out@.len() == keys_of_specs(configs@.subrange(0, i as int)).len(),
            forall|t: int|
                0 <= t < out@.len() ==> registry_key_eq(
                    #[trigger] out@[t],
                    keys_of_specs(configs@.subrange(0, i as int))[t],
                ),
        decreases n - i,
    {
        let ghost prefix = configs@.subrange(0, i as int);
        let ghost prefix2 = configs@.subrange(0, i + 1 as int);
        let ghost before = out@;
        proof {
            assert(prefix2.drop_last() =~= prefix);
            assert(prefix2.last() == configs@[i as int]);
        }
        let sp = &configs[i].1;
        match &sp.ipv4 {
            Some(b) => {
                push_block_keys(&mut out, &b.solvers, AddressKind::IPv4);
            },
            None => {},
        }
        let ghost mid = out@;
        match &sp.ipv6 {
            Some(b) => {
                push_block_keys(&mut out, &b.solvers, AddressKind::IPv6);
            },
            None => {},
        }
        proof {
            let k4 = match configs@[i as int].1.ipv4 {
                Some(b) => keys_of_block(b.solvers@, AddressKind::IPv4),
                None => Seq::<RegistryKey>::empty(),
            };
            let k6 = match configs@[i as int].1.ipv6 {
                Some(b) => keys_of_block(b.solvers@, AddressKind::IPv6),
                None => Seq::<RegistryKey>::empty(),
            };
            assert(mid.subrange(0, before.len() as int) =~= before);
            assert(out@.subrange(0, mid.len() as int) =~= mid);
            assert(keys_of_specs(prefix2) == keys_of_specs(prefix) + (k4 + k6));
            assert forall|t: int|
                0 <= t < out@.len() implies registry_key_eq(
                #[trigger] out@[t],
                keys_of_specs(prefix2)[t],
            ) by {
                if t < before.len() {
                    assert(out@[t] == out@.subrange(0, mid.len() as int)[t]);
                    assert(out@[t] == mid[t]);
                    assert(mid[t] == mid.subrange(0, before.len() as int)[t]);
                    assert(mid[t] == before[t]);
                    assert(keys_of_specs(prefix2)[t] == keys_of_specs(prefix)[t]);
                } else if t < mid.len() {
                    assert(out@[t] == out@.subrange(0, mid.len() as int)[t]);
                    assert(out@[t] == mid[t]);
                    assert(registry_key_eq(mid[before.len() + (t - before.len())], k4[t
                        - before.len()]));
                    assert(keys_of_specs(prefix2)[t] == (k4 + k6)[t - before.len()]);
                } else {
                    assert(registry_key_eq(out@[mid.len() + (t - mid.len())], k6[t - mid.len()]));
                    assert(keys_of_specs(prefix2)[t] == (k4 + k6)[t - before.len()]);
                    assert((k4 + k6)[t - before.len()] == k6[t - before.len() - k4.len()]);
                }
            }
        }
        i = i + 1;
    }
    proof {
        assert(configs@.subrange(0, n as int) =~= configs@);
    }
    out
}

/// Containment in the registry is closed under structural key equality.
pub proof fn lemma_contains_respects_eq(reg: SolverRegistry, a: RegistryKey, b: RegistryKey)
    requires
        reg.spec_contains(a),
        registry_key_eq(a, b),
    ensures
        reg.spec_contains(b),
{
    let i = choose|i: int| 0 <= i < reg.spec_len() && registry_key_eq(#[trigger] reg.key_at(i), a);
    lemma_solver_kind_eq_transitive(reg.key_at(i).solver, a.solver, b.solver);
    assert(registry_key_eq(reg.key_at(i), b));
}

/// Invalidity of a key is closed under structural key equality.
pub proof fn lemma_key_invalid_respects_eq(a: RegistryKey, b: RegistryKey)
    requires
        registry_key_eq(a, b),
    ensures
        key_invalid(a) == key_invalid(b),
{
    match a.solver {
        SolverKind::Merge(ca) => match b.solver {
            SolverKind::Merge(cb) => {
                lemma_mask_sum_respects_eq(ca.partial_solvers@, cb.partial_solvers@);
            },
            _ => {},
        },
        _ => {},
    }
}

/// The configuration entries that parse into sources, in listing order.
pub open spec fn valid_configs(
    list: Seq<(String, crate::crd::ClusterExternalIpSourceSpec)>,
) -> Seq<(String, crate::crd::ClusterExternalIpSourceSpec)>
    decreases list.len(),
{
    if list.len() == 0 {
        Seq::empty()
    } else if crate::source::spec_config_valid(list.last().1) {
        valid_configs(list.drop_last()).push(list.last())
    } else {
        valid_configs(list.drop_last())
    }
}

/// The configuration entries that fail to parse, in listing order.
pub open spec fn invalid_configs(
    list: Seq<(String, crate::crd::ClusterExternalIpSourceSpec)>,
) -> Seq<(String, crate::crd::ClusterExternalIpSourceSpec)>
    decreases list.len(),
{
    if list.len() == 0 {
        Seq::empty()
    } else if crate::source::spec_config_valid(list.last().1) {
        invalid_configs(list.drop_last())
    } else {
        invalid_configs(list.drop_last()).push(list.last())
    }
}

/// The name a parsed source is looked up under, searching the most recently
/// parsed entries first.
pub open spec fn spec_source_for(
    sources: Seq<(String, crate::source::ExternalIpSource)>,
    name: Seq<char>,
) -> Option<crate::source::ExternalIpSource>
    decreases sources.len(),
{
    if sources.len() == 0 {
        None
    } else if sources.last().0@ == name {
        Some(sources.last().1)
    } else {
        spec_source_for(sources.drop_last(), name)
    }
}

/// The source registry: the parsed external IP sources by name, and the
/// shared solver registry their queries go through.
pub struct IPSourceRegistry {
    cluster_eip_sources: Vec<(String, crate::source::ExternalIpSource)>,
    pub solvers: SolverRegistry,
}

impl IPSourceRegistry {
    /// The parsed sources, in listing order.
    pub closed spec fn spec_sources(self) -> Seq<(String, crate::source::ExternalIpSource)> {
        self.cluster_eip_sources@
    }

    /// The solver registry, as a specification value.
    pub closed spec fn spec_solvers(self) -> SolverRegistry {
        self.solvers
    }

    pub fn new() -> (r: IPSourceRegistry)
        ensures
            r.spec_solvers().wf(),
            r.spec_solvers().spec_len() == 0,
            r.spec_sources().len() == 0,
    {
        IPSourceRegistry { cluster_eip_sources: Vec::new(), solvers: SolverRegistry::new() }
    }

    /// Rebuilds the sources from a fresh listing of the configuration
    /// resources and grows the solver registry to cover every solver they
    /// reference. Resources that do not parse are reported individually —
    /// one error per failing resource, under its name, in listing order —
    /// without failing the refresh; the refresh itself fails exactly when
    /// some referenced merge's masks do not sum to an all-ones value.
    /// Solver instances already present keep their cached state.
    pub fn refresh(
        &mut self,
        configs: Vec<(String, crate::crd::ClusterExternalIpSourceSpec)>,
    ) -> (r: Result<Vec<(String, IpSourceError)>, IpSourceError>)
        requires
            old(self).spec_solvers().wf(),
        ensures
            final(self).spec_solvers().wf(),
            old(self).spec_solvers().spec_len() <= final(self).spec_solvers().spec_len(),
            final(self).spec_solvers().spec_keys().subrange(
                0,
                old(self).spec_solvers().spec_len() as int,
            ) == old(self).spec_solvers().spec_keys(),
            final(self).spec_solvers().spec_instances().subrange(
                0,
                old(self).spec_solvers().spec_len() as int,
            ) == old(self).spec_solvers().spec_instances(),
            r is Ok ==> forall|t: int|
                0 <= t < keys_of_specs(configs@).len() ==> final(self).spec_solvers().spec_contains(
                    #[trigger] keys_of_specs(configs@)[t],
                ),
            r is Err <==> exists|t: int|
                0 <= t < keys_of_specs(configs@).len() && key_invalid(
                    #[trigger] keys_of_specs(configs@)[t],
                ),
            final(self).spec_sources().len() == valid_configs(configs@).len(),
            forall|i: int|
                0 <= i < valid_configs(configs@).len() ==> {
                    &&& (#[trigger] final(self).spec_sources()[i]).0@ == valid_configs(
                        configs@,
                    )[i].0@
                    &&& crate::source::source_of_config(
                        final(self).spec_sources()[i].1,
                        valid_configs(configs@)[i].0@,
                        valid_configs(configs@)[i].1,
                    )
                },
            r matches Ok(errs) ==> {
                &&& errs@.len() == invalid_configs(configs@).len()
                &&& forall|i: int|
                    0 <= i < errs@.len() ==> (#[trigger] errs@[i]).0@ == invalid_configs(
                        configs@,
                    )[i].0@
                &&& forall|i: int|
                    0 <= i < errs@.len() ==> (#[trigger] errs@[i]).1 matches
                        IpSourceError::Malformed(_)
            },
    {
        let ghost all = configs@;
        let wanted = derive_solver_keys(&configs);
        let mut errs: Vec<(String, IpSourceError)> = Vec::new();
        let mut rest = configs;
        self.cluster_eip_sources = Vec::new();
        let total: usize = rest.len();
        proof {
            assert(all.subrange(0, 0) =~= Seq::empty());
            assert(rest@ =~= all.skip(0));
        }
        let mut done: usize = 0;
        while rest.len() > 0
            invariant
                done <= total,
                total == all.len(),
                rest@ == all.skip(done as int),
                self.solvers == old(self).solvers,
                self.spec_sources().len() == valid_configs(all.subrange(0, done as int)).len(),
                forall|i: int|
                    0 <= i < self.spec_sources().len() ==> {
                        &&& (#[trigger] self.spec_sources()[i]).0@ == valid_configs(
                            all.subrange(0, done as int),
                        )[i].0@
                        &&& crate::source::source_of_config(
                            self.spec_sources()[i].1,
                            valid_configs(all.subrange(0, done as int))[i].0@,
                            valid_configs(all.subrange(0, done as int))[i].1,
                        )
                    },
                errs@.len() == invalid_configs(all.subrange(0, done as int)).len(),
                forall|i: int|
                    0 <= i < errs@.len() ==> (#[trigger] errs@[i]).0@ == invalid_configs(
                        all.subrange(0, done as int),
                    )[i].0@,
                forall|i: int|
                    0 <= i < errs@.len() ==> (#[trigger] errs@[i]).1 matches
                        IpSourceError::Malformed(_),
                valid_configs(all.subrange(0, done as int)).len() <= done,
            decreases rest@.len(),
        {
            let ghost prefix = all.subrange(0, done as int);
            let ghost prefix2 = all.subrange(0, done + 1 as int);
            proof {
                assert(prefix2.drop_last() =~= prefix);
                assert(prefix2.last() == all[done as int]);
                assert(rest@[0] == all[done as int]);
                assert(rest@.len() == total - done);
            }
            proof {
                assert(rest@.len() > 0);
                assert(all.skip(done as int).len() == total - done);
                assert(done < total);
            }
            let entry = rest.remove(0);
            proof {
                assert(rest@ =~= all.skip(done + 1 as int));
            }
            let name = entry.0;
            let err_name = name.clone();
            let spec = entry.1;
            match crate::source::ExternalIpSource::try_from(name, spec) {
                Ok(src) => {
                    let entry_name = src.name();
                    self.cluster_eip_sources.push((entry_name, src));
                },
                Err(e) => {
                    errs.push((err_name, e));
                },
            }
            done = done + 1;
        }
        proof {
            assert(all.subrange(0, total as int) =~= all);
        }
        match self.solvers.refresh(&wanted) {
            Ok(_) => {
                proof {
                    assert forall|t: int|
                        0 <= t < keys_of_specs(all).len() implies self.solvers.spec_contains(
                        #[trigger] keys_of_specs(all)[t],
                    ) by {
                        assert(self.solvers.spec_contains(wanted@[t]));
                        lemma_contains_respects_eq(
                            self.solvers,
                            wanted@[t],
                            keys_of_specs(all)[t],
                        );
                    }
                    assert forall|t: int|
                        0 <= t < keys_of_specs(all).len() implies !key_invalid(
                        #[trigger] keys_of_specs(all)[t],
                    ) by {
                        assert(!key_invalid(wanted@[t]));
                        lemma_key_invalid_respects_eq(wanted@[t], keys_of_specs(all)[t]);
                    }
                }
                Ok(errs)
            },
            Err(e) => {
                proof {
                    let t = choose|t: int|
                        0 <= t < wanted@.len() && key_invalid(#[trigger] wanted@[t]);
                    lemma_key_invalid_respects_eq(wanted@[t], keys_of_specs(all)[t]);
                    assert(key_invalid(keys_of_specs(all)[t]));
                }
                Err(e)
            },
        }
    }

    /// The parsed source of the given name, if any.
    pub fn get_cluster(&self, name: &String) -> (r: Option<&crate::source::ExternalIpSource>)
        ensures
            r matches Some(s) ==> spec_source_for(self.spec_sources(), name@) == Some(*s),
            r is None <==> spec_source_for(self.spec_sources(), name@) is None,
    {
        let n = self.cluster_eip_sources.len();
        let mut i: usize = n;
        proof {
            assert(self.spec_sources().subrange(0, n as int) =~= self.spec_sources());
        }
        while i > 0
            invariant
                i <= n,
                n == self.spec_sources().len(),
                spec_source_for(self.spec_sources(), name@) == spec_source_for(
                    self.spec_sources().subrange(0, i as int),
                    name@,
                ),
            decreases i,
        {
            proof {
                assert(self.spec_sources().subrange(0, i as int).last()
                    == self.spec_sources()[i - 1]);
                assert(self.spec_sources().subrange(0, i as int).drop_last()
                    =~= self.spec_sources().subrange(0, i - 1));
            }
            if self.cluster_eip_sources[i - 1].0 == *name {
                return Some(&self.cluster_eip_sources[i - 1].1);
            }
            i = i - 1;
        }
        proof {
            assert(self.spec_sources().subrange(0, 0) =~= Seq::empty());
        }
        None
    }

    /// The shared solver registry.
    pub fn solvers(&self) -> (r: &SolverRegistry)
        ensures
            *r == self.spec_solvers(),
    {
        &self.solvers
    }
}

/// The same configuration queried for the same address family always leads
/// to the same registry slot: in a well-formed registry no two slots hold
/// structurally equal keys, so structurally equal keys resolve to one
/// shared instance and its cache.
pub proof fn lemma_registry_dedup(reg: SolverRegistry, i: int, j: int)
    requires
        reg.wf(),
        0 <= i < reg.spec_len(),
        0 <= j < reg.spec_len(),
        registry_key_eq(reg.key_at(i), reg.key_at(j)),
    ensures
        i == j,
{
    if i < j {
        assert(!registry_key_eq(reg.key_at(i), reg.key_at(j)));
    }
    if j < i {
        lemma_solver_kind_eq_symmetric(reg.key_at(i).solver, reg.key_at(j).solver);
        assert(!registry_key_eq(reg.key_at(j), reg.key_at(i)));
    }
}

} // verus!
