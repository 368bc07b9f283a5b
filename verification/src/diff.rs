//! The diff engine: set-based structural comparison of two networks
//! over their subnets, instances, and route destinations.
use vstd::prelude::*;

verus! {

use crate::model::{
    InstanceModel,
    InstanceResource,
    RouteModel,
    RouteTableModel,
    RouteTableResource,
    SubnetModel,
    SubnetResource,
    VpcModel,
    VpcResource,
};
use crate::strutil::str_eq;

// ------------------------------------------------------------------
// Deterministic set operations on string sequences
// ------------------------------------------------------------------
/// The distinct elements of `s`, each at its first occurrence, in
/// order.
pub open spec fn dedup_first<A>(s: Seq<A>) -> Seq<A>
    decreases s.len(),
{
    if s.len() == 0 {
        Seq::empty()
    } else {
        let rest = dedup_first(s.drop_last());
        if rest.contains(s.last()) {
            rest
        } else {
            rest.push(s.last())
        }
    }
}

/// The distinct elements of `a` that never occur in `b`, in first-
/// occurrence order.
pub open spec fn set_minus(a: Seq<Seq<char>>, b: Seq<Seq<char>>) -> Seq<Seq<char>> {
    dedup_first(a).filter(|x: Seq<char>| !b.contains(x))
}

/// The distinct elements of `a` that also occur in `b`, in first-
/// occurrence order.
pub open spec fn set_common(a: Seq<Seq<char>>, b: Seq<Seq<char>>) -> Seq<Seq<char>> {
    dedup_first(a).filter(|x: Seq<char>| b.contains(x))
}

pub proof fn lemma_dedup_first_contains<A>(s: Seq<A>, x: A)
    ensures
        dedup_first(s).contains(x) <==> s.contains(x),
    decreases s.len(),
{
    if s.len() > 0 {
        lemma_dedup_first_contains(s.drop_last(), x);
        assert(s.contains(x) <==> (s.drop_last().contains(x) || s.last() == x)) by {
            if s.contains(x) {
                let k = choose|k: int| 0 <= k < s.len() && s[k] == x;
                if k < s.len() - 1 {
                    assert(s.drop_last()[k] == x);
                }
            }
            if s.drop_last().contains(x) {
                let k = choose|k: int| 0 <= k < s.drop_last().len() && s.drop_last()[k] == x;
                assert(s[k] == x);
            }
            if s.last() == x {
                assert(s[s.len() - 1] == x);
            }
        }
        let rest = dedup_first(s.drop_last());
        if !rest.contains(s.last()) {
            assert(dedup_first(s) == rest.push(s.last()));
            assert(rest.push(s.last()).contains(x) <==> (rest.contains(x) || s.last() == x)) by {
                if rest.contains(x) {
                    let k = choose|k: int| 0 <= k < rest.len() && rest[k] == x;
                    assert(rest.push(s.last())[k] == x);
                }
                assert(rest.push(s.last())[rest.len() as int] == s.last());
                if rest.push(s.last()).contains(x) {
                    let k = choose|k: int|
                        0 <= k < rest.push(s.last()).len() && rest.push(s.last())[k] == x;
                    if k < rest.len() {
                        assert(rest[k] == x);
                    }
                }
            }
        }
    }
}

proof fn lemma_filter_contains_iff<A>(s: Seq<A>, p: spec_fn(A) -> bool, x: A)
    ensures
        s.filter(p).contains(x) <==> (s.contains(x) && p(x)),
    decreases s.len(),
{
    reveal(Seq::filter);
    if s.len() == 0 {
        assert(s.filter(p) =~= Seq::<A>::empty());
    } else {
        lemma_filter_contains_iff(s.drop_last(), p, x);
        assert(s.contains(x) <==> (s.drop_last().contains(x) || s.last() == x)) by {
            if s.contains(x) {
                let k = choose|k: int| 0 <= k < s.len() && s[k] == x;
                if k < s.len() - 1 {
                    assert(s.drop_last()[k] == x);
                }
            }
            if s.drop_last().contains(x) {
                let k = choose|k: int| 0 <= k < s.drop_last().len() && s.drop_last()[k] == x;
                assert(s[k] == x);
            }
            if s.last() == x {
                assert(s[s.len() - 1] == x);
            }
        }
        let t = s.drop_last().filter(p);
        if p(s.last()) {
            assert(s.filter(p) == t.push(s.last()));
            assert(t.push(s.last()).contains(x) <==> (t.contains(x) || s.last() == x)) by {
                if t.contains(x) {
                    let k = choose|k: int| 0 <= k < t.len() && t[k] == x;
                    assert(t.push(s.last())[k] == x);
                }
                assert(t.push(s.last())[t.len() as int] == s.last());
                if t.push(s.last()).contains(x) {
                    let k = choose|k: int|
                        0 <= k < t.push(s.last()).len() && t.push(s.last())[k] == x;
                    if k < t.len() {
                        assert(t[k] == x);
                    }
                }
            }
        }
    }
}

/// Law: the sequence-level difference means exactly the set
/// difference of the two element sets.
pub proof fn lemma_set_minus_is_difference(a: Seq<Seq<char>>, b: Seq<Seq<char>>)
    ensures
        set_minus(a, b).to_set() == a.to_set().difference(b.to_set()),
{
    assert forall|x: Seq<char>|
        set_minus(a, b).to_set().contains(x) == a.to_set().difference(b.to_set()).contains(x) by {
        lemma_filter_contains_iff(dedup_first(a), |y: Seq<char>| !b.contains(y), x);
        lemma_dedup_first_contains(a, x);
    }
    assert(set_minus(a, b).to_set() =~= a.to_set().difference(b.to_set()));
}

// ------------------------------------------------------------------
// Extraction from the model
// ------------------------------------------------------------------
pub open spec fn subnet_cidrs_model(s: Seq<SubnetModel>) -> Seq<Seq<char>> {
    s.map_values(|x: SubnetModel| x.cidr_block)
}

pub open spec fn instance_types_model(s: Seq<InstanceModel>) -> Seq<Seq<char>> {
    s.map_values(|x: InstanceModel| x.instance_type)
}

/// How many instances are in the given lifecycle state.
pub open spec fn count_in_state(s: Seq<InstanceModel>, state: Seq<char>) -> int
    decreases s.len(),
{
    if s.len() == 0 {
        0
    } else {
        count_in_state(s.drop_last(), state) + if s.last().state == state {
            1int
        } else {
            0int
        }
    }
}

/// The destinations of one table's routes, local routes excluded:
/// every network has a local route, so it carries no differentiating
/// signal.
pub open spec fn non_local_dests(routes: Seq<RouteModel>) -> Seq<Seq<char>>
    decreases routes.len(),
{
    if routes.len() == 0 {
        Seq::empty()
    } else {
        non_local_dests(routes.drop_last()) + if routes.last().target != "local"@ {
            seq![routes.last().destination]
        } else {
            Seq::empty()
        }
    }
}

/// All non-local route destinations of a network, aggregated across
/// its route tables.
pub open spec fn route_dests_model(rts: Seq<RouteTableModel>) -> Seq<Seq<char>>
    decreases rts.len(),
{
    if rts.len() == 0 {
        Seq::empty()
    } else {
        route_dests_model(rts.drop_last()) + non_local_dests(rts.last().routes)
    }
}

// ------------------------------------------------------------------
// The report
// ------------------------------------------------------------------
pub ghost struct DiffReportModel {
    pub subnet_count_a: int,
    pub subnet_count_b: int,
    pub subnets_only_a: Seq<Seq<char>>,
    pub subnets_only_b: Seq<Seq<char>>,
    pub total_a: int,
    pub running_a: int,
    pub total_b: int,
    pub running_b: int,
    pub types_a: Seq<Seq<char>>,
    pub types_b: Seq<Seq<char>>,
    pub rt_count_a: int,
    pub rt_count_b: int,
    pub routes_only_a: Seq<Seq<char>>,
    pub routes_only_b: Seq<Seq<char>>,
    pub routes_common: Seq<Seq<char>>,
}

#[derive(Debug)]
pub struct DiffReport {
    pub subnet_count_a: usize,
    pub subnet_count_b: usize,
    pub subnets_only_a: Vec<String>,
    pub subnets_only_b: Vec<String>,
    pub total_a: usize,
    pub running_a: usize,
    pub total_b: usize,
    pub running_b: usize,
    pub types_a: Vec<String>,
    pub types_b: Vec<String>,
    pub rt_count_a: usize,
    pub rt_count_b: usize,
    pub routes_only_a: Vec<String>,
    pub routes_only_b: Vec<String>,
    pub routes_common: Vec<String>,
}

impl View for DiffReport {
    type V = DiffReportModel;

    open spec fn view(&self) -> DiffReportModel {
        DiffReportModel {
            subnet_count_a: self.subnet_count_a as int,
            subnet_count_b: self.subnet_count_b as int,
            subnets_only_a: self.subnets_only_a.deep_view(),
            subnets_only_b: self.subnets_only_b.deep_view(),
            total_a: self.total_a as int,
            running_a: self.running_a as int,
            total_b: self.total_b as int,
            running_b: self.running_b as int,
            types_a: self.types_a.deep_view(),
            types_b: self.types_b.deep_view(),
            rt_count_a: self.rt_count_a as int,
            rt_count_b: self.rt_count_b as int,
            routes_only_a: self.routes_only_a.deep_view(),
            routes_only_b: self.routes_only_b.deep_view(),
            routes_common: self.routes_common.deep_view(),
        }
    }
}

/// What a comparison of networks A and B reports.
pub open spec fn diff_report_model(
    s1: Seq<SubnetModel>,
    s2: Seq<SubnetModel>,
    i1: Seq<InstanceModel>,
    i2: Seq<InstanceModel>,
    r1: Seq<RouteTableModel>,
    r2: Seq<RouteTableModel>,
) -> DiffReportModel {
    DiffReportModel {
        subnet_count_a: s1.len() as int,
        subnet_count_b: s2.len() as int,
        subnets_only_a: set_minus(subnet_cidrs_model(s1), subnet_cidrs_model(s2)),
        subnets_only_b: set_minus(subnet_cidrs_model(s2), subnet_cidrs_model(s1)),
        total_a: i1.len() as int,
        running_a: count_in_state(i1, "running"@),
        total_b: i2.len() as int,
        running_b: count_in_state(i2, "running"@),
        types_a: dedup_first(instance_types_model(i1)),
        types_b: dedup_first(instance_types_model(i2)),
        rt_count_a: r1.len() as int,
        rt_count_b: r2.len() as int,
        routes_only_a: set_minus(route_dests_model(r1), route_dests_model(r2)),
        routes_only_b: set_minus(route_dests_model(r2), route_dests_model(r1)),
        routes_common: set_common(route_dests_model(r1), route_dests_model(r2)),
    }
}

/// Law: comparison is symmetric — what a comparison of A against B
/// reports as unique to A is exactly what a comparison of B against A
/// reports as unique to B, for subnets and for route destinations.
pub proof fn lemma_diff_symmetry(
    s1: Seq<SubnetModel>,
    s2: Seq<SubnetModel>,
    i1: Seq<InstanceModel>,
    i2: Seq<InstanceModel>,
    r1: Seq<RouteTableModel>,
    r2: Seq<RouteTableModel>,
)
    ensures
        diff_report_model(s1, s2, i1, i2, r1, r2).subnets_only_a == diff_report_model(
            s2,
            s1,
            i2,
            i1,
            r2,
            r1,
        ).subnets_only_b,
        diff_report_model(s1, s2, i1, i2, r1, r2).routes_only_a == diff_report_model(
            s2,
            s1,
            i2,
            i1,
            r2,
            r1,
        ).routes_only_b,
{
}

// ------------------------------------------------------------------
// Executable pieces
// ------------------------------------------------------------------
/// Whether one of the strings in `v` reads `x`.
pub fn contains_string(v: &Vec<String>, x: &str) -> (r: bool)
    ensures
        r == v.deep_view().contains(x@),
{
    let ghost dv = v.deep_view();
    let mut i: usize = 0;
    while i < v.len()
        invariant
            i <= v.len(),
            dv == v.deep_view(),
            dv.len() == v.len(),
            forall|j: int| 0 <= j < i ==> dv[j] != x@,
        decreases v.len() - i,
    {
        proof {
            assert(dv[i as int] == v@[i as int]@);
        }
        if str_eq(v[i].as_str(), x) {
            return true;
        }
        i = i + 1;
    }
    false
}

/// The distinct strings of `v`, first occurrences first.
pub fn dedup_strings(v: &Vec<String>) -> (r: Vec<String>)
    ensures
        r.deep_view() == dedup_first(v.deep_view()),
{
    let ghost dv = v.deep_view();
    let mut out: Vec<String> = Vec::new();
    proof {
        assert(dv.take(0) =~= Seq::<Seq<char>>::empty());
        assert(out.deep_view() =~= dedup_first(dv.take(0)));
    }
    let mut i: usize = 0;
    while i < v.len()
        invariant
            i <= v.len(),
            dv == v.deep_view(),
            dv.len() == v.len(),
            out.deep_view() == dedup_first(dv.take(i as int)),
        decreases v.len() - i,
    {
        proof {
            assert(dv.take(i + 1).drop_last() =~= dv.take(i as int));
            assert(dv.take(i + 1).last() == dv[i as int]);
            assert(dv[i as int] == v@[i as int]@);
        }
        if !contains_string(&out, v[i].as_str()) {
            let ghost pre = out.deep_view();
            out.push(v[i].clone());
            proof {
                assert(out.deep_view() =~= pre.push(dv[i as int]));
            }
        }
        i = i + 1;
    }
    proof {
        assert(dv.take(dv.len() as int) =~= dv);
    }
    out
}

/// The distinct strings of `a` absent from `b`.
pub fn diff_strings(a: &Vec<String>, b: &Vec<String>) -> (r: Vec<String>)
    ensures
        r.deep_view() == set_minus(a.deep_view(), b.deep_view()),
{
    let deduped = dedup_strings(a);
    let ghost dd = deduped.deep_view();
    let ghost pred = |x: Seq<char>| !b.deep_view().contains(x);
    let mut out: Vec<String> = Vec::new();
    proof {
        reveal(Seq::filter);
        assert(dd.take(0) =~= Seq::<Seq<char>>::empty());
        assert(out.deep_view() =~= dd.take(0).filter(pred));
    }
    let mut i: usize = 0;
    while i < deduped.len()
        invariant
            i <= deduped.len(),
            dd == deduped.deep_view(),
            dd.len() == deduped.len(),
            pred == (|x: Seq<char>| !b.deep_view().contains(x)),
            out.deep_view() == dd.take(i as int).filter(pred),
        decreases deduped.len() - i,
    {
        proof {
            reveal(Seq::filter);
            assert(dd.take(i + 1).drop_last() =~= dd.take(i as int));
            assert(dd.take(i + 1).last() == dd[i as int]);
            assert(dd[i as int] == deduped@[i as int]@);
        }
        if !contains_string(b, deduped[i].as_str()) {
            let ghost pre = out.deep_view();
            out.push(deduped[i].clone());
            proof {
                assert(out.deep_view() =~= pre.push(dd[i as int]));
                assert(out.deep_view() =~= dd.take(i + 1).filter(pred));
            }
        } else {
            proof {
                assert(out.deep_view() =~= dd.take(i + 1).filter(pred));
            }
        }
        i = i + 1;
    }
    proof {
        assert(dd.take(dd.len() as int) =~= dd);
    }
    out
}

/// The distinct strings of `a` also present in `b`.
pub fn common_strings(a: &Vec<String>, b: &Vec<String>) -> (r: Vec<String>)
    ensures
        r.deep_view() == set_common(a.deep_view(), b.deep_view()),
{
    let deduped = dedup_strings(a);
    let ghost dd = deduped.deep_view();
    let ghost pred = |x: Seq<char>| b.deep_view().contains(x);
    let mut out: Vec<String> = Vec::new();
    proof {
        reveal(Seq::filter);
        assert(dd.take(0) =~= Seq::<Seq<char>>::empty());
        assert(out.deep_view() =~= dd.take(0).filter(pred));
    }
    let mut i: usize = 0;
    while i < deduped.len()
        invariant
            i <= deduped.len(),
            dd == deduped.deep_view(),
            dd.len() == deduped.len(),
            pred == (|x: Seq<char>| b.deep_view().contains(x)),
            out.deep_view() == dd.take(i as int).filter(pred),
        decreases deduped.len() - i,
    {
        proof {
            reveal(Seq::filter);
            assert(dd.take(i + 1).drop_last() =~= dd.take(i as int));
            assert(dd.take(i + 1).last() == dd[i as int]);
            assert(dd[i as int] == deduped@[i as int]@);
        }
        if contains_string(b, deduped[i].as_str()) {
            let ghost pre = out.deep_view();
            out.push(deduped[i].clone());
            proof {
                assert(out.deep_view() =~= pre.push(dd[i as int]));
                assert(out.deep_view() =~= dd.take(i + 1).filter(pred));
            }
        } else {
            proof {
                assert(out.deep_view() =~= dd.take(i + 1).filter(pred));
            }
        }
        i = i + 1;
    }
    proof {
        assert(dd.take(dd.len() as int) =~= dd);
    }
    out
}

/// The subnet CIDRs of a collection, in collection order.
pub fn subnet_cidrs(subnets: &Vec<SubnetResource>) -> (r: Vec<String>)
    ensures
        r.deep_view() == subnet_cidrs_model(subnets.deep_view()),
{
    let ghost dv = subnets.deep_view();
    let mut out: Vec<String> = Vec::new();
    let mut i: usize = 0;
    while i < subnets.len()
        invariant
            i <= subnets.len(),
            dv == subnets.deep_view(),
            dv.len() == subnets.len(),
            out.deep_view() =~= dv.take(i as int).map_values(|x: SubnetModel| x.cidr_block),
        decreases subnets.len() - i,
    {
        proof {
            assert(dv[i as int] == subnets@[i as int]@);
        }
        let ghost pre = out.deep_view();
        out.push(subnets[i].cidr_block.clone());
        proof {
            assert(out.deep_view() =~= pre.push(dv[i as int].cidr_block));
            assert(out.deep_view() =~= dv.take(i + 1).map_values(
                |x: SubnetModel| x.cidr_block,
            ));
        }
        i = i + 1;
    }
    proof {
        assert(dv.take(dv.len() as int) =~= dv);
    }
    out
}

/// The instance types of a collection, in collection order.
pub fn instance_types(instances: &Vec<InstanceResource>) -> (r: Vec<String>)
    ensures
        r.deep_view() == instance_types_model(instances.deep_view()),
{
    let ghost dv = instances.deep_view();
    let mut out: Vec<String> = Vec::new();
    let mut i: usize = 0;
    while i < instances.len()
        invariant
            i <= instances.len(),
            dv == instances.deep_view(),
            dv.len() == instances.len(),
            out.deep_view() =~= dv.take(i as int).map_values(|x: InstanceModel| x.instance_type),
        decreases instances.len() - i,
    {
        proof {
            assert(dv[i as int] == instances@[i as int]@);
        }
        let ghost pre = out.deep_view();
        out.push(instances[i].instance_type.clone());
        proof {
            assert(out.deep_view() =~= pre.push(dv[i as int].instance_type));
            assert(out.deep_view() =~= dv.take(i + 1).map_values(
                |x: InstanceModel| x.instance_type,
            ));
        }
        i = i + 1;
    }
    proof {
        assert(dv.take(dv.len() as int) =~= dv);
    }
    out
}

/// How many instances of a collection are in the "running" state.
pub fn count_running(instances: &Vec<InstanceResource>) -> (r: usize)
    ensures
        r == count_in_state(instances.deep_view(), "running"@),
{
    let ghost dv = instances.deep_view();
    let mut count: usize = 0;
    let mut i: usize = 0;
    proof {
        assert(dv.take(0) =~= Seq::<InstanceModel>::empty());
    }
    while i < instances.len()
        invariant
            i <= instances.len(),
            dv == instances.deep_view(),
            dv.len() == instances.len(),
            count <= i,
            count == count_in_state(dv.take(i as int), "running"@),
        decreases instances.len() - i,
    {
        proof {
            assert(dv.take(i + 1).drop_last() =~= dv.take(i as int));
            assert(dv.take(i + 1).last() == dv[i as int]);
            assert(dv[i as int] == instances@[i as int]@);
        }
        if str_eq(instances[i].state.as_str(), "running") {
            count = count + 1;
        }
        i = i + 1;
    }
    proof {
        assert(dv.take(dv.len() as int) =~= dv);
    }
    count
}

/// All non-local route destinations across a network's route tables,
/// in table order then route order.
pub fn route_destinations(rts: &Vec<RouteTableResource>) -> (r: Vec<String>)
    ensures
        r.deep_view() == route_dests_model(rts.deep_view()),
{
    let ghost dv = rts.deep_view();
    let mut out: Vec<String> = Vec::new();
    proof {
        assert(dv.take(0) =~= Seq::<RouteTableModel>::empty());
        assert(out.deep_view() =~= route_dests_model(dv.take(0)));
    }
    let mut i: usize = 0;
    while i < rts.len()
        invariant
            i <= rts.len(),
            dv == rts.deep_view(),
            dv.len() == rts.len(),
            out.deep_view() == route_dests_model(dv.take(i as int)),
        decreases rts.len() - i,
    {
        proof {
            assert(dv.take(i + 1).drop_last() =~= dv.take(i as int));
            assert(dv.take(i + 1).last() == dv[i as int]);
            assert(dv[i as int] == rts@[i as int]@);
        }
        let rt = &rts[i];
        let ghost routes = rt@.routes;
        let ghost pre_rt = out.deep_view();
        proof {
            assert(routes.take(0) =~= Seq::<RouteModel>::empty());
            assert(out.deep_view() =~= pre_rt + non_local_dests(routes.take(0)));
        }
        let mut j: usize = 0;
        while j < rt.routes.len()
            invariant
                j <= rt.routes.len(),
                routes == rt@.routes,
                routes.len() == rt.routes.len(),
                out.deep_view() == pre_rt + non_local_dests(routes.take(j as int)),
            decreases rt.routes.len() - j,
        {
            proof {
                assert(routes.take(j + 1).drop_last() =~= routes.take(j as int));
                assert(routes.take(j + 1).last() == routes[j as int]);
                assert(routes[j as int] == rt.routes@[j as int]@);
            }
            if !str_eq(rt.routes[j].target.as_str(), "local") {
                let ghost pre = out.deep_view();
                out.push(rt.routes[j].destination.clone());
                proof {
                    assert(out.deep_view() =~= pre.push(routes[j as int].destination));
                    assert(out.deep_view() =~= pre_rt + non_local_dests(routes.take(j + 1)));
                }
            } else {
                proof {
                    assert(out.deep_view() =~= pre_rt + non_local_dests(routes.take(j + 1)));
                }
            }
            j = j + 1;
        }
        proof {
            assert(routes.take(routes.len() as int) =~= routes);
        }
        i = i + 1;
    }
    proof {
        assert(dv.take(dv.len() as int) =~= dv);
    }
    out
}

// ------------------------------------------------------------------
// The comparison itself
// ------------------------------------------------------------------
/// The one failure a comparison can meet: a named network is absent
/// from the fetched set, which makes the comparison meaningless.
#[derive(Clone, Copy, Debug, PartialEq, Eq, Structural)]
pub enum DiffError {
    VpcNotFound,
}

pub open spec fn vpc_present(vpcs: Seq<VpcModel>, id: Seq<char>) -> bool {
    exists|k: int| 0 <= k < vpcs.len() && vpcs[k].id == id
}

/// Whether a network with the given id is among those fetched.
pub fn has_vpc(vpcs: &Vec<VpcResource>, id: &str) -> (r: bool)
    ensures
        r == vpc_present(vpcs.deep_view(), id@),
{
    let ghost dv = vpcs.deep_view();
    let mut i: usize = 0;
    while i < vpcs.len()
        invariant
            i <= vpcs.len(),
            dv == vpcs.deep_view(),
            dv.len() == vpcs.len(),
            forall|k: int| 0 <= k < i ==> dv[k].id != id@,
        decreases vpcs.len() - i,
    {
        proof {
            assert(dv[i as int] == vpcs@[i as int]@);
        }
        if str_eq(vpcs[i].id.as_str(), id) {
            return true;
        }
        i = i + 1;
    }
    false
}

/// Compares two networks over their subnets, instances, and route
/// destinations. Fails exactly when one of the two named networks is
/// not among the fetched set.
pub fn diff_vpcs(
    vpcs: &Vec<VpcResource>,
    vpc1_id: &String,
    vpc2_id: &String,
    subnets1: &Vec<SubnetResource>,
    subnets2: &Vec<SubnetResource>,
    instances1: &Vec<InstanceResource>,
    instances2: &Vec<InstanceResource>,
    rts1: &Vec<RouteTableResource>,
    rts2: &Vec<RouteTableResource>,
) -> (r: Result<DiffReport, DiffError>)
    ensures
        r is Ok <==> (vpc_present(vpcs.deep_view(), vpc1_id@) && vpc_present(
            vpcs.deep_view(),
            vpc2_id@,
        )),
        r is Err ==> r->Err_0 == DiffError::VpcNotFound,
        r is Ok ==> r->Ok_0@ == diff_report_model(
            subnets1.deep_view(),
            subnets2.deep_view(),
            instances1.deep_view(),
            instances2.deep_view(),
            rts1.deep_view(),
            rts2.deep_view(),
        ),
{
    if !has_vpc(vpcs, vpc1_id.as_str()) || !has_vpc(vpcs, vpc2_id.as_str()) {
        return Err(DiffError::VpcNotFound);
    }
    let cidrs1 = subnet_cidrs(subnets1);
    let cidrs2 = subnet_cidrs(subnets2);
    let types1 = instance_types(instances1);
    let types2 = instance_types(instances2);
    let dests1 = route_destinations(rts1);
    let dests2 = route_destinations(rts2);
    Ok(
        DiffReport {
            subnet_count_a: subnets1.len(),
            subnet_count_b: subnets2.len(),
            subnets_only_a: diff_strings(&cidrs1, &cidrs2),
            subnets_only_b: diff_strings(&cidrs2, &cidrs1),
            total_a: instances1.len(),
            running_a: count_running(instances1),
            total_b: instances2.len(),
            running_b: count_running(instances2),
            types_a: dedup_strings(&types1),
            types_b: dedup_strings(&types2),
            rt_count_a: rts1.len(),
            rt_count_b: rts2.len(),
            routes_only_a: diff_strings(&dests1, &dests2),
            routes_only_b: diff_strings(&dests2, &dests1),
            routes_common: common_strings(&dests1, &dests2),
        },
    )
}

} // verus!
