//! The per-address-family query pipeline: an ordered solver list queried in
//! `FirstFound` or `All` mode, and the external IP source that combines the
//! two families' results for one configuration resource.

use vstd::prelude::*;

use crate::addr::IpAddress;
use crate::crd::{ClusterExternalIpSourceSpec, IpSolversConfig, QueryMode, SolverKind};
use crate::errors::{IpSourceError, SolverError};

verus! {

/// What one solver's query came to, as the pipeline sees it.
pub type SolverOutcome = Result<Vec<IpAddress>, SolverError>;

/// Whether a solver produced at least one address.
pub open spec fn outcome_produced(o: SolverOutcome) -> bool {
    o matches Ok(v) && v@.len() > 0
}

/// The result of a `FirstFound` query over the solvers' outcomes, in
/// declaration order: the addresses of the first solver that produced any;
/// none if every solver was empty or erring.
pub open spec fn first_found(outcomes: Seq<SolverOutcome>) -> Option<Seq<IpAddress>>
    decreases outcomes.len(),
{
    if outcomes.len() == 0 {
        None
    } else {
        match outcomes[0] {
            Ok(v) => if v@.len() > 0 {
                Some(v@)
            } else {
                first_found(outcomes.drop_first())
            },
            Err(_) => first_found(outcomes.drop_first()),
        }
    }
}

/// Everything the solvers produced in an `All` query, in declaration order;
/// erring solvers are skipped.
pub open spec fn all_collected(outcomes: Seq<SolverOutcome>) -> Seq<IpAddress>
    decreases outcomes.len(),
{
    if outcomes.len() == 0 {
        Seq::<IpAddress>::empty()
    } else {
        (match outcomes[0] {
            Ok(v) => v@,
            Err(_) => Seq::<IpAddress>::empty(),
        }) + all_collected(outcomes.drop_first())
    }
}

/// What a solver list's query yields from its solvers' outcomes: by mode,
/// the first non-empty result or the aggregate of all results; none when
/// nothing was produced.
pub open spec fn spec_list_result(mode: QueryMode, outcomes: Seq<SolverOutcome>) -> Option<
    Seq<IpAddress>,
> {
    match mode {
        QueryMode::FirstFound => first_found(outcomes),
        QueryMode::All => if all_collected(outcomes).len() > 0 {
            Some(all_collected(outcomes))
        } else {
            None
        },
    }
}

/// Appending one more outcome leaves an already-decided `FirstFound` query
/// decided the same way, and decides an undecided one exactly by the new
/// outcome.
pub proof fn lemma_first_found_push(outcomes: Seq<SolverOutcome>, o: SolverOutcome)
    ensures
        first_found(outcomes.push(o)) == (match first_found(outcomes) {
            Some(v) => Some(v),
            None => (match o {
                Ok(v) => if v@.len() > 0 {
                    Some(v@)
                } else {
                    None::<Seq<IpAddress>>
                },
                Err(_) => None::<Seq<IpAddress>>,
            }),
        }),
    decreases outcomes.len(),
{
    if outcomes.len() == 0 {
        let p = outcomes.push(o);
        assert(p[0] == o);
        assert(p.drop_first() =~= Seq::<SolverOutcome>::empty());
        assert(first_found(p.drop_first()) is None);
    } else {
        assert(outcomes.push(o)[0] == outcomes[0]);
        assert(outcomes.push(o).drop_first() =~= outcomes.drop_first().push(o));
        lemma_first_found_push(outcomes.drop_first(), o);
    }
}

/// Appending one more outcome extends an `All` query's aggregate by exactly
/// that outcome's addresses.
pub proof fn lemma_all_collected_push(outcomes: Seq<SolverOutcome>, o: SolverOutcome)
    ensures
        all_collected(outcomes.push(o)) == all_collected(outcomes) + (match o {
            Ok(v) => v@,
            Err(_) => Seq::<IpAddress>::empty(),
        }),
    decreases outcomes.len(),
{
    if outcomes.len() == 0 {
        let p = outcomes.push(o);
        assert(p[0] == o);
        assert(p.drop_first() =~= Seq::<SolverOutcome>::empty());
        assert(all_collected(p.drop_first()) =~= Seq::<IpAddress>::empty());
        assert(all_collected(outcomes) =~= Seq::<IpAddress>::empty());
        assert(all_collected(p) =~= all_collected(outcomes) + (match o {
            Ok(v) => v@,
            Err(_) => Seq::<IpAddress>::empty(),
        }));
    } else {
        assert(outcomes.push(o)[0] == outcomes[0]);
        assert(outcomes.push(o).drop_first() =~= outcomes.drop_first().push(o));
        lemma_all_collected_push(outcomes.drop_first(), o);
        assert(all_collected(outcomes.push(o)) =~= all_collected(outcomes) + (match o {
            Ok(v) => v@,
            Err(_) => Seq::<IpAddress>::empty(),
        }));
    }
}

/// A `FirstFound` query stops at the first solver that produces addresses:
/// its result is that solver's addresses, and it is already determined by
/// the outcomes up to and including that solver — nothing after it is
/// consulted.
pub proof fn lemma_first_found_stops(outcomes: Seq<SolverOutcome>, i: int)
    requires
        0 <= i < outcomes.len(),
        outcome_produced(outcomes[i]),
        forall|j: int| 0 <= j < i ==> !outcome_produced(#[trigger] outcomes[j]),
    ensures
        outcomes[i] matches Ok(v) && spec_list_result(QueryMode::FirstFound, outcomes) == Some(v@),
        spec_list_result(QueryMode::FirstFound, outcomes.subrange(0, i + 1)) == spec_list_result(
            QueryMode::FirstFound,
            outcomes,
        ),
    decreases i,
{
    if i == 0 {
        assert(outcomes.subrange(0, 1)[0] == outcomes[0]);
    } else {
        assert(!outcome_produced(outcomes[0]));
        assert forall|j: int| 0 <= j < i - 1 implies !outcome_produced(
            #[trigger] outcomes.drop_first()[j],
        ) by {
            assert(outcomes.drop_first()[j] == outcomes[j + 1]);
        }
        assert(outcomes.drop_first()[i - 1] == outcomes[i]);
        lemma_first_found_stops(outcomes.drop_first(), i - 1);
        assert(outcomes.subrange(0, i + 1)[0] == outcomes[0]);
        assert(outcomes.subrange(0, i + 1).drop_first() =~= outcomes.drop_first().subrange(0, i));
    }
}

/// An `All` query's aggregate contains every address that every successful
/// solver produced.
pub proof fn lemma_all_collects(outcomes: Seq<SolverOutcome>, i: int, k: int)
    requires
        0 <= i < outcomes.len(),
        outcomes[i] matches Ok(v) && 0 <= k < v@.len(),
    ensures
        outcomes[i] matches Ok(v) && all_collected(outcomes).contains(v@[k]),
    decreases i,
{
    if i == 0 {
        let v = outcomes[0]->Ok_0;
        assert(all_collected(outcomes)[k] == v@[k]);
    } else {
        assert(outcomes.drop_first()[i - 1] == outcomes[i]);
        lemma_all_collects(outcomes.drop_first(), i - 1, k);
        let v = outcomes[i]->Ok_0;
        let rest = all_collected(outcomes.drop_first());
        let w = choose|w: int| 0 <= w < rest.len() && rest[w] == v@[k];
        let head = match outcomes[0] {
            Ok(u) => u@,
            Err(_) => Seq::<IpAddress>::empty(),
        };
        assert(all_collected(outcomes)[head.len() + w] == v@[k]);
    }
}

/// How absorbing one solver's outcome changes a running list query: in
/// `FirstFound` mode a non-empty success finishes the query with exactly
/// those addresses, and anything else is skipped; in `All` mode a success's
/// addresses are appended and the query never finishes early.
pub open spec fn absorb_rel(pre: ListQuery, post: ListQuery, outcome: SolverOutcome) -> bool {
    &&& post.spec_mode() == pre.spec_mode()
    &&& match pre.spec_mode() {
        QueryMode::FirstFound => if outcome_produced(outcome) {
            &&& post.spec_finished()
            &&& (outcome matches Ok(v) && post.spec_collected() == v@)
        } else {
            &&& post.spec_finished() == pre.spec_finished()
            &&& post.spec_collected() == pre.spec_collected()
        },
        QueryMode::All => {
            &&& !post.spec_finished()
            &&& post.spec_collected() == pre.spec_collected() + (match outcome {
                Ok(v) => v@,
                Err(_) => Seq::<IpAddress>::empty(),
            })
        },
    }
}

/// A running query over one solver list: what has been collected from the
/// solvers consulted so far, and whether the query is already decided.
#[derive(Debug)]
pub struct ListQuery {
    query_mode: QueryMode,
    collected: Vec<IpAddress>,
    finished: bool,
}

impl ListQuery {
    pub closed spec fn spec_mode(self) -> QueryMode {
        self.query_mode
    }

    pub closed spec fn spec_collected(self) -> Seq<IpAddress> {
        self.collected@
    }

    pub closed spec fn spec_finished(self) -> bool {
        self.finished
    }

    /// Whether this query state is what driving the query over the given
    /// outcomes, in declaration order, produces.
    pub open spec fn consistent(self, outcomes: Seq<SolverOutcome>) -> bool {
        match self.spec_mode() {
            QueryMode::FirstFound => if self.spec_finished() {
                first_found(outcomes) == Some(self.spec_collected()) && self.spec_collected().len()
                    > 0
            } else {
                first_found(outcomes) is None && self.spec_collected().len() == 0
            },
            QueryMode::All => !self.spec_finished() && self.spec_collected() == all_collected(
                outcomes,
            ),
        }
    }

    pub fn new(query_mode: QueryMode) -> (r: ListQuery)
        ensures
            r.spec_mode() == query_mode,
            !r.spec_finished(),
            r.spec_collected().len() == 0,
            r.consistent(Seq::<SolverOutcome>::empty()),
    {
        ListQuery { query_mode, collected: Vec::new(), finished: false }
    }

    /// Whether the query is already decided and no further solver need be
    /// consulted.
    pub fn is_finished(&self) -> (r: bool)
        ensures
            r == self.spec_finished(),
    {
        self.finished
    }

    /// Absorbs the next solver's outcome.
    pub fn absorb(&mut self, outcome: SolverOutcome) -> (done: bool)
        requires
            !old(self).spec_finished(),
        ensures
            absorb_rel(*old(self), *final(self), outcome),
            done == final(self).spec_finished(),
    {
        match self.query_mode {
            QueryMode::FirstFound => {
                match outcome {
                    Ok(v) => {
                        if v.len() > 0 {
                            self.collected = v;
                            self.finished = true;
                        }
                    },
                    Err(_) => {},
                }
            },
            QueryMode::All => {
                match outcome {
                    Ok(v) => {
                        let ghost pre = self.collected@;
                        let n = v.len();
                        let mut k: usize = 0;
                        while k < n
                            invariant
                                k <= n,
                                n == v@.len(),
                                pre == old(self).spec_collected(),
                                self.query_mode == old(self).spec_mode(),
                                self.finished == old(self).spec_finished(),
                                self.collected@ == pre + v@.subrange(0, k as int),
                            decreases n - k,
                        {
                            proof {
                                assert(pre + v@.subrange(0, k + 1 as int) =~= (pre + v@.subrange(
                                    0,
                                    k as int,
                                )).push(v@[k as int]));
                            }
                            self.collected.push(v[k]);
                            k = k + 1;
                        }
                        proof {
                            assert(v@.subrange(0, n as int) =~= v@);
                        }
                    },
                    Err(_) => {
                        proof {
                            assert(self.collected@ =~= self.collected@ + Seq::<
                                IpAddress,
                            >::empty());
                        }
                    },
                }
            },
        }
        self.finished
    }

    /// Ends the query: the collected addresses, or an error when no solver
    /// produced any.
    pub fn finish(self) -> (r: Result<Vec<IpAddress>, IpSourceError>)
        ensures
            r is Ok <==> self.spec_collected().len() > 0,
            r matches Ok(v) ==> v@ == self.spec_collected(),
            r is Err ==> (r matches Err(e) && e matches IpSourceError::Solver(_)),
    {
        if self.collected.len() > 0 {
            Ok(self.collected)
        } else {
            Err(
                IpSourceError::Solver(
                    SolverError {
                        reason: "no IP addresses were returned by any source".to_owned(),
                    },
                ),
            )
        }
    }
}

/// Absorbing the next outcome keeps a query state consistent with the
/// outcomes seen so far.
pub proof fn lemma_absorb_consistent(
    pre: ListQuery,
    post: ListQuery,
    outcome: SolverOutcome,
    outcomes: Seq<SolverOutcome>,
)
    requires
        pre.consistent(outcomes),
        !pre.spec_finished(),
        absorb_rel(pre, post, outcome),
    ensures
        post.consistent(outcomes.push(outcome)),
{
    match pre.spec_mode() {
        QueryMode::FirstFound => {
            lemma_first_found_push(outcomes, outcome);
        },
        QueryMode::All => {
            lemma_all_collected_push(outcomes, outcome);
        },
    }
}

/// Driving a list query over the same solver outcomes always collects the
/// same addresses: with no upstream state change, re-running a query yields
/// an identical result set.
pub proof fn lemma_query_deterministic(
    q1: ListQuery,
    q2: ListQuery,
    outcomes: Seq<SolverOutcome>,
)
    requires
        q1.spec_mode() == q2.spec_mode(),
        q1.consistent(outcomes),
        q2.consistent(outcomes),
    ensures
        q1.spec_collected() == q2.spec_collected(),
{
}

/// A consistent, undriven-further query finishes with exactly what the
/// specification says the list yields over those outcomes.
pub proof fn lemma_finish_consistent(q: ListQuery, outcomes: Seq<SolverOutcome>)
    requires
        q.consistent(outcomes),
    ensures
        (q.spec_collected().len() > 0) <==> spec_list_result(q.spec_mode(), outcomes) is Some,
        spec_list_result(q.spec_mode(), outcomes) matches Some(v) ==> v == q.spec_collected(),
{
}

/// An ordered solver list plus its query mode: the solvers configured for
/// one address family of one source.
#[derive(Debug)]
pub struct SolverList {
    solver_refs: Vec<SolverKind>,
    query_mode: QueryMode,
}

impl SolverList {
    /// The solver configurations, in declaration order.
    pub closed spec fn spec_solvers(self) -> Seq<SolverKind> {
        self.solver_refs@
    }

    pub closed spec fn spec_mode(self) -> QueryMode {
        self.query_mode
    }

    /// A solver list always holds at least one solver.
    pub open spec fn wf(self) -> bool {
        self.spec_solvers().len() > 0
    }

    /// Validates one address family's configuration block: the solver list
    /// must not be empty; a missing query mode defaults to `FirstFound`.
    pub fn try_from(value: IpSolversConfig) -> (r: Result<SolverList, IpSourceError>)
        ensures
            r is Ok <==> value.solvers@.len() > 0,
            r matches Ok(l) ==> {
                &&& l.wf()
                &&& l.spec_solvers() == value.solvers@
                &&& l.spec_mode() == (match value.query_mode {
                    Some(m) => m,
                    None => QueryMode::FirstFound,
                })
            },
            r matches Err(e) ==> e matches IpSourceError::Malformed(_),
    {
        if value.solvers.len() == 0 {
            return Err(IpSourceError::Malformed("sources list is empty".to_owned()));
        }
        let mode = match value.query_mode {
            Some(m) => m,
            None => QueryMode::FirstFound,
        };
        Ok(SolverList { solver_refs: value.solvers, query_mode: mode })
    }

    /// Starts a query of this list.
    pub fn start_query(&self) -> (r: ListQuery)
        ensures
            r.spec_mode() == self.spec_mode(),
            !r.spec_finished(),
            r.consistent(Seq::<SolverOutcome>::empty()),
    {
        ListQuery::new(self.query_mode)
    }

    pub fn solver_count(&self) -> (n: usize)
        ensures
            n == self.spec_solvers().len(),
    {
        self.solver_refs.len()
    }

    pub fn solver_ref(&self, i: usize) -> (r: &SolverKind)
        requires
            i < self.spec_solvers().len(),
        ensures
            *r == self.spec_solvers()[i as int],
    {
        &self.solver_refs[i]
    }

    pub fn mode(&self) -> (r: QueryMode)
        ensures
            r == self.spec_mode(),
    {
        self.query_mode
    }
}

/// Which configuration resource a source came from.
#[derive(Debug)]
pub enum ExternalIpSourceKind {
    Cluster(String),
}

impl ExternalIpSourceKind {
    /// The resource kind's name.
    pub fn kind(&self) -> (r: String)
        ensures
            r@ == "ClusterExternalIPSource"@,
    {
        "ClusterExternalIPSource".to_owned()
    }

    /// The resource's own name.
    pub fn name(&self) -> (r: String)
        ensures
            *self matches ExternalIpSourceKind::Cluster(n) ==> r@ == n@,
    {
        match self {
            ExternalIpSourceKind::Cluster(name) => name.clone(),
        }
    }
}

/// The resolved, validated form of one configuration resource: up to two
/// solver lists, one per address family, at least one present or valid.
#[derive(Debug)]
pub struct ExternalIpSource {
    kind: ExternalIpSourceKind,
    v4: Option<SolverList>,
    v6: Option<SolverList>,
}

/// Whether a configuration resource is well formed: at least one family
/// block is present, and every present block holds at least one solver. A
/// resource that fails this is a configuration error and is excluded from
/// resolution until corrected.
pub open spec fn spec_config_valid(value: ClusterExternalIpSourceSpec) -> bool {
    &&& (value.ipv4 is Some || value.ipv6 is Some)
    &&& (value.ipv4 matches Some(c) ==> c.solvers@.len() > 0)
    &&& (value.ipv6 matches Some(c) ==> c.solvers@.len() > 0)
}

/// Whether a source is the validated form of a named configuration: the
/// name is kept, and each family's solver list is present exactly when the
/// configuration block is, carrying its solvers in order and its query mode
/// (defaulted to `FirstFound`).
pub open spec fn source_of_config(
    src: ExternalIpSource,
    name: Seq<char>,
    value: ClusterExternalIpSourceSpec,
) -> bool {
    &&& src.spec_kind() matches ExternalIpSourceKind::Cluster(n) && n@ == name
    &&& (src.spec_v4() is Some <==> value.ipv4 is Some)
    &&& (value.ipv4 matches Some(c) ==> (src.spec_v4() matches Some(l) ==> {
        &&& l.wf()
        &&& l.spec_solvers() == c.solvers@
        &&& l.spec_mode() == (match c.query_mode {
            Some(m) => m,
            None => QueryMode::FirstFound,
        })
    }))
    &&& (src.spec_v6() is Some <==> value.ipv6 is Some)
    &&& (value.ipv6 matches Some(c) ==> (src.spec_v6() matches Some(l) ==> {
        &&& l.wf()
        &&& l.spec_solvers() == c.solvers@
        &&& l.spec_mode() == (match c.query_mode {
            Some(m) => m,
            None => QueryMode::FirstFound,
        })
    }))
}

impl ExternalIpSource {
    pub closed spec fn spec_kind(self) -> ExternalIpSourceKind {
        self.kind
    }

    pub closed spec fn spec_v4(self) -> Option<SolverList> {
        self.v4
    }

    pub closed spec fn spec_v6(self) -> Option<SolverList> {
        self.v6
    }

    /// Validates a configuration resource: at least one family block must be
    /// present, and every present block must itself validate. A present
    /// block with an empty solver list is a configuration error that rejects
    /// the whole source, so a misconfigured source never resolves to an
    /// empty address set — it is excluded until corrected.
    pub fn try_from(name: String, value: ClusterExternalIpSourceSpec) -> (r: Result<
        ExternalIpSource,
        IpSourceError,
    >)
        ensures
            r is Ok <==> spec_config_valid(value),
            r matches Ok(src) ==> source_of_config(src, name@, value),
            r matches Err(e) ==> e matches IpSourceError::Malformed(_),
    {
        if value.ipv4.is_none() && value.ipv6.is_none() {
            return Err(
                IpSourceError::Malformed(
                    "ClusterExternalIpSource needs at least one source block defined".to_owned(),
                ),
            );
        }
        let v4 = match value.ipv4 {
            Some(c) => Some(SolverList::try_from(c)?),
            None => None,
        };
        let v6 = match value.ipv6 {
            Some(c) => Some(SolverList::try_from(c)?),
            None => None,
        };
        Ok(ExternalIpSource { kind: ExternalIpSourceKind::Cluster(name), v4, v6 })
    }

    pub fn name(&self) -> (r: String)
        ensures
            self.spec_kind() matches ExternalIpSourceKind::Cluster(n) ==> r@ == n@,
    {
        self.kind.name()
    }

    pub fn kind(&self) -> (r: String)
        ensures
            r@ == "ClusterExternalIPSource"@,
    {
        self.kind.kind()
    }

    pub fn v4_list(&self) -> (r: &Option<SolverList>)
        ensures
            *r == self.spec_v4(),
    {
        &self.v4
    }

    pub fn v6_list(&self) -> (r: &Option<SolverList>)
        ensures
            *r == self.spec_v6(),
    {
        &self.v6
    }

    /// Combines the two families' query results into the source's answer:
    /// an error from either family fails the whole query (IPv4 first), and
    /// otherwise the IPv4 addresses are followed by the IPv6 addresses. A
    /// family without a solver list contributes nothing.
    pub fn assemble(
        &self,
        v4_result: Option<Result<Vec<IpAddress>, IpSourceError>>,
        v6_result: Option<Result<Vec<IpAddress>, IpSourceError>>,
    ) -> (r: Result<Vec<IpAddress>, IpSourceError>)
        ensures
            v4_result matches Some(Err(e)) ==> (r matches Err(e2) && e2 == e),
            v6_result matches Some(Err(e)) ==> (!(v4_result matches Some(Err(_))) ==> (r matches
                Err(e2) && e2 == e)),
            r is Ok <==> (!(v4_result matches Some(Err(_))) && !(v6_result matches Some(Err(_)))),
            r matches Ok(v) ==> v@ == (match v4_result {
                Some(Ok(a)) => a@,
                _ => Seq::<IpAddress>::empty(),
            }) + (match v6_result {
                Some(Ok(b)) => b@,
                _ => Seq::<IpAddress>::empty(),
            }),
    {
        let mut out: Vec<IpAddress> = Vec::new();
        let ghost want4 = match &v4_result {
            Some(Ok(a)) => a@,
            _ => Seq::<IpAddress>::empty(),
        };
        let ghost want6 = match &v6_result {
            Some(Ok(b)) => b@,
            _ => Seq::<IpAddress>::empty(),
        };
        match v4_result {
            Some(Ok(a)) => {
                let n = a.len();
                let mut k: usize = 0;
                while k < n
                    invariant
                        k <= n,
                        n == a@.len(),
                        out@ == a@.subrange(0, k as int),
                    decreases n - k,
                {
                    out.push(a[k]);
                    k = k + 1;
                }
                proof {
                    assert(a@.subrange(0, n as int) =~= a@);
                }
            },
            Some(Err(e)) => {
                return Err(e);
            },
            None => {},
        }
        match v6_result {
            Some(Ok(b)) => {
                let n = b.len();
                let mut k: usize = 0;
                while k < n
                    invariant
                        k <= n,
                        n == b@.len(),
                        out@ == want4 + b@.subrange(0, k as int),
                        want4 == (match v4_result {
                            Some(Ok(a)) => a@,
                            _ => Seq::<IpAddress>::empty(),
                        }),
                    decreases n - k,
                {
                    proof {
                        assert(want4 + b@.subrange(0, k + 1 as int) =~= (want4 + b@.subrange(
                            0,
                            k as int,
                        )).push(b@[k as int]));
                    }
                    out.push(b[k]);
                    k = k + 1;
                }
                proof {
                    assert(b@.subrange(0, n as int) =~= b@);
                }
            },
            Some(Err(e)) => {
                return Err(e);
            },
            None => {
                proof {
                    assert(out@ =~= want4 + want6);
                }
            },
        }
        proof {
            assert(out@ =~= want4 + want6);
        }
        Ok(out)
    }
}

} // verus!
