//! The topology assembler: builds, from independently fetched
//! collections, each network's resolved subnets, route tables (with
//! the subnets that use them) and instances, and classifies route
//! targets by their id prefix.
use vstd::prelude::*;

verus! {

use crate::diff::{dedup_first, dedup_strings, contains_string};
use crate::model::{
    InstanceModel,
    InstanceResource,
    Route,
    RouteModel,
    RouteTableModel,
    RouteTableResource,
    SubnetModel,
    SubnetResource,
    VpcModel,
    VpcResource,
};
use crate::strutil::{is_prefix_of, str_eq, has_prefix};

// ------------------------------------------------------------------
// Route target classification
// ------------------------------------------------------------------
/// What a route points at, recognised purely by the id prefix: the
/// source records carry no separate type field, so prefix matching is
/// the contract.
#[derive(Clone, Copy, Debug, PartialEq, Eq, Structural)]
pub enum TargetKind {
    InternetGateway,
    NatGateway,
    TransitGateway,
    Local,
    Other,
}

pub open spec fn classify_target_model(t: Seq<char>) -> TargetKind {
    if is_prefix_of("igw-"@, t) {
        TargetKind::InternetGateway
    } else if is_prefix_of("nat-"@, t) {
        TargetKind::NatGateway
    } else if is_prefix_of("tgw-"@, t) {
        TargetKind::TransitGateway
    } else if t == "local"@ {
        TargetKind::Local
    } else {
        TargetKind::Other
    }
}

pub fn classify_target(target: &str) -> (k: TargetKind)
    ensures
        k == classify_target_model(target@),
{
    if has_prefix(target, "igw-") {
        TargetKind::InternetGateway
    } else if has_prefix(target, "nat-") {
        TargetKind::NatGateway
    } else if has_prefix(target, "tgw-") {
        TargetKind::TransitGateway
    } else if str_eq(target, "local") {
        TargetKind::Local
    } else {
        TargetKind::Other
    }
}

// ------------------------------------------------------------------
// Subnet-to-route-table association resolution
// ------------------------------------------------------------------
/// The table governing a subnet: the last table, in scan order, whose
/// association list names it. A later association deliberately wins
/// over an earlier one, so conflicting source data stays
/// deterministic.
pub open spec fn governing_table(rts: Seq<RouteTableModel>, sid: Seq<char>) -> Option<Seq<char>>
    decreases rts.len(),
{
    if rts.len() == 0 {
        None
    } else if rts.last().subnet_associations.contains(sid) {
        Some(rts.last().id)
    } else {
        governing_table(rts.drop_last(), sid)
    }
}

/// Every explicitly associated subnet id, in table order then
/// association order.
pub open spec fn associated_subnets(rts: Seq<RouteTableModel>) -> Seq<Seq<char>>
    decreases rts.len(),
{
    if rts.len() == 0 {
        Seq::empty()
    } else {
        associated_subnets(rts.drop_last()) + rts.last().subnet_associations
    }
}

pub open spec fn governed_by(rts: Seq<RouteTableModel>, rt_id: Seq<char>) -> spec_fn(
    Seq<char>,
) -> bool {
    |sid: Seq<char>| governing_table(rts, sid) == Some(rt_id)
}

/// The subnets a table serves: the associated subnets, first
/// occurrences first, whose governing table carries this id.
pub open spec fn used_by_model(rts: Seq<RouteTableModel>, rt_id: Seq<char>) -> Seq<Seq<char>> {
    dedup_first(associated_subnets(rts)).filter(governed_by(rts, rt_id))
}

/// The id of the table governing a subnet, resolved against a
/// network's tables.
pub fn governing_table_of(rts: &Vec<RouteTableResource>, sid: &str) -> (r: Option<String>)
    ensures
        r.deep_view() == governing_table(rts.deep_view(), sid@),
{
    let ghost dv = rts.deep_view();
    proof {
        assert(dv.take(dv.len() as int) =~= dv);
    }
    let mut k: usize = rts.len();
    while k > 0
        invariant
            k <= rts.len(),
            dv == rts.deep_view(),
            dv.len() == rts.len(),
            governing_table(dv, sid@) == governing_table(dv.take(k as int), sid@),
        decreases k,
    {
        k = k - 1;
        proof {
            assert(dv.take(k + 1).drop_last() =~= dv.take(k as int));
            assert(dv.take(k + 1).last() == dv[k as int]);
            assert(dv[k as int] == rts@[k as int]@);
        }
        if contains_string(&rts[k].subnet_associations, sid) {
            return Some(rts[k].id.clone());
        }
    }
    proof {
        assert(dv.take(0) =~= Seq::<RouteTableModel>::empty());
    }
    None
}

/// The subnets that use the table with the given id, in deterministic
/// first-association order.
pub fn used_by(rts: &Vec<RouteTableResource>, rt_id: &String) -> (r: Vec<String>)
    ensures
        r.deep_view() == used_by_model(rts.deep_view(), rt_id@),
{
    let ghost dv = rts.deep_view();
    // Gather every explicitly associated subnet id, in order.
    let mut all: Vec<String> = Vec::new();
    proof {
        assert(dv.take(0) =~= Seq::<RouteTableModel>::empty());
        assert(all.deep_view() =~= associated_subnets(dv.take(0)));
    }
    let mut i: usize = 0;
    while i < rts.len()
        invariant
            i <= rts.len(),
            dv == rts.deep_view(),
            dv.len() == rts.len(),
            all.deep_view() == associated_subnets(dv.take(i as int)),
        decreases rts.len() - i,
    {
        proof {
            assert(dv.take(i + 1).drop_last() =~= dv.take(i as int));
            assert(dv.take(i + 1).last() == dv[i as int]);
            assert(dv[i as int] == rts@[i as int]@);
        }
        let rt = &rts[i];
        let ghost assocs = rt@.subnet_associations;
        let ghost pre_rt = all.deep_view();
        proof {
            assert(assocs.take(0) =~= Seq::<Seq<char>>::empty());
            assert(all.deep_view() =~= pre_rt + assocs.take(0));
        }
        let mut j: usize = 0;
        while j < rt.subnet_associations.len()
            invariant
                j <= rt.subnet_associations.len(),
                assocs == rt@.subnet_associations,
                assocs.len() == rt.subnet_associations.len(),
                all.deep_view() == pre_rt + assocs.take(j as int),
            decreases rt.subnet_associations.len() - j,
        {
            proof {
                assert(assocs[j as int] == rt.subnet_associations@[j as int]@);
            }
            let ghost pre = all.deep_view();
            all.push(rt.subnet_associations[j].clone());
            proof {
                assert(all.deep_view() =~= pre.push(assocs[j as int]));
                assert(all.deep_view() =~= pre_rt + assocs.take(j + 1));
            }
            j = j + 1;
        }
        proof {
            assert(assocs.take(assocs.len() as int) =~= assocs);
        }
        i = i + 1;
    }
    proof {
        assert(dv.take(dv.len() as int) =~= dv);
    }
    // Keep first occurrences, then those this table governs.
    let distinct = dedup_strings(&all);
    let ghost dd = distinct.deep_view();
    let ghost pred = governed_by(dv, rt_id@);
    let mut out: Vec<String> = Vec::new();
    proof {
        reveal(Seq::filter);
        assert(dd.take(0) =~= Seq::<Seq<char>>::empty());
        assert(out.deep_view() =~= dd.take(0).filter(pred));
    }
    let mut k: usize = 0;
    while k < distinct.len()
        invariant
            k <= distinct.len(),
            dv == rts.deep_view(),
            dd == distinct.deep_view(),
            dd.len() == distinct.len(),
            pred == governed_by(dv, rt_id@),
            out.deep_view() == dd.take(k as int).filter(pred),
        decreases distinct.len() - k,
    {
        proof {
            reveal(Seq::filter);
            assert(dd.take(k + 1).drop_last() =~= dd.take(k as int));
            assert(dd.take(k + 1).last() == dd[k as int]);
            assert(dd[k as int] == distinct@[k as int]@);
        }
        let matches_table: bool = match governing_table_of(rts, distinct[k].as_str()) {
            Some(g) => str_eq(g.as_str(), rt_id.as_str()),
            None => false,
        };
        if matches_table {
            let ghost pre = out.deep_view();
            out.push(distinct[k].clone());
            proof {
                assert(out.deep_view() =~= pre.push(dd[k as int]));
                assert(out.deep_view() =~= dd.take(k + 1).filter(pred));
            }
        } else {
            proof {
                assert(out.deep_view() =~= dd.take(k + 1).filter(pred));
            }
        }
        k = k + 1;
    }
    proof {
        assert(dd.take(dd.len() as int) =~= dd);
        assert(dd == dedup_first(associated_subnets(dv)));
    }
    out
}

// ------------------------------------------------------------------
// Per-network filtering
// ------------------------------------------------------------------
pub open spec fn subnet_in_vpc(vpc_id: Seq<char>) -> spec_fn(SubnetModel) -> bool {
    |s: SubnetModel| s.vpc_id == vpc_id
}

pub open spec fn table_in_vpc(vpc_id: Seq<char>) -> spec_fn(RouteTableModel) -> bool {
    |t: RouteTableModel| t.vpc_id == vpc_id
}

pub open spec fn instance_in_vpc(vpc_id: Seq<char>) -> spec_fn(InstanceModel) -> bool {
    |i: InstanceModel| i.vpc_id == vpc_id
}

impl SubnetResource {
    /// A field-for-field copy.
    pub fn duplicate(&self) -> (r: SubnetResource)
        ensures
            r@ == self@,
    {
        SubnetResource {
            id: self.id.clone(),
            cidr_block: self.cidr_block.clone(),
            availability_zone: self.availability_zone.clone(),
            available_ip_count: self.available_ip_count,
            vpc_id: self.vpc_id.clone(),
        }
    }
}

impl Route {
    /// A field-for-field copy.
    pub fn duplicate(&self) -> (r: Route)
        ensures
            r@ == self@,
    {
        Route {
            destination: self.destination.clone(),
            target: self.target.clone(),
            state: self.state.clone(),
        }
    }
}

/// A string-for-string copy.
pub fn clone_strings(v: &Vec<String>) -> (r: Vec<String>)
    ensures
        r.deep_view() == v.deep_view(),
{
    let ghost dv = v.deep_view();
    let mut out: Vec<String> = Vec::new();
    let mut i: usize = 0;
    while i < v.len()
        invariant
            i <= v.len(),
            dv == v.deep_view(),
            dv.len() == v.len(),
            out.deep_view() =~= dv.take(i as int),
        decreases v.len() - i,
    {
        proof {
            assert(dv[i as int] == v@[i as int]@);
        }
        let ghost pre = out.deep_view();
        out.push(v[i].clone());
        proof {
            assert(out.deep_view() =~= pre.push(dv[i as int]));
            assert(out.deep_view() =~= dv.take(i + 1));
        }
        i = i + 1;
    }
    proof {
        assert(dv.take(dv.len() as int) =~= dv);
    }
    out
}

/// A route-for-route copy.
pub fn clone_routes(v: &Vec<Route>) -> (r: Vec<Route>)
    ensures
        r.deep_view() == v.deep_view(),
{
    let ghost dv = v.deep_view();
    let mut out: Vec<Route> = Vec::new();
    let mut i: usize = 0;
    while i < v.len()
        invariant
            i <= v.len(),
            dv == v.deep_view(),
            dv.len() == v.len(),
            out.deep_view() =~= dv.take(i as int),
        decreases v.len() - i,
    {
        proof {
            assert(dv[i as int] == v@[i as int]@);
        }
        let ghost pre = out.deep_view();
        out.push(v[i].duplicate());
        proof {
            assert(out.deep_view() =~= pre.push(dv[i as int]));
            assert(out.deep_view() =~= dv.take(i + 1));
        }
        i = i + 1;
    }
    proof {
        assert(dv.take(dv.len() as int) =~= dv);
    }
    out
}

impl RouteTableResource {
    /// A field-for-field copy.
    pub fn duplicate(&self) -> (r: RouteTableResource)
        ensures
            r@ == self@,
    {
        let r = RouteTableResource {
            id: self.id.clone(),
            vpc_id: self.vpc_id.clone(),
            subnet_associations: clone_strings(&self.subnet_associations),
            routes: clone_routes(&self.routes),
        };
        r
    }
}

impl InstanceResource {
    /// A field-for-field copy.
    pub fn duplicate(&self) -> (r: InstanceResource)
        ensures
            r@ == self@,
    {
        InstanceResource {
            id: self.id.clone(),
            state: self.state.clone(),
            private_ip: match &self.private_ip {
                Some(s) => Some(s.clone()),
                None => None,
            },
            instance_type: self.instance_type.clone(),
            name: self.name.clone(),
            subnet_id: self.subnet_id.clone(),
            vpc_id: self.vpc_id.clone(),
        }
    }
}

impl VpcResource {
    /// A field-for-field copy.
    pub fn duplicate(&self) -> (r: VpcResource)
        ensures
            r@ == self@,
    {
        VpcResource {
            id: self.id.clone(),
            cidr_block: self.cidr_block.clone(),
            is_default: self.is_default,
        }
    }
}

/// The subnets whose parent field names the given network.
pub fn subnets_of_vpc(subnets: &Vec<SubnetResource>, vpc_id: &String) -> (r: Vec<SubnetResource>)
    ensures
        r.deep_view() == subnets.deep_view().filter(subnet_in_vpc(vpc_id@)),
{
    let ghost dv = subnets.deep_view();
    let ghost pred = subnet_in_vpc(vpc_id@);
    let mut out: Vec<SubnetResource> = Vec::new();
    proof {
        reveal(Seq::filter);
        assert(dv.take(0) =~= Seq::<SubnetModel>::empty());
        assert(out.deep_view() =~= dv.take(0).filter(pred));
    }
    let mut i: usize = 0;
    while i < subnets.len()
        invariant
            i <= subnets.len(),
            dv == subnets.deep_view(),
            dv.len() == subnets.len(),
            pred == subnet_in_vpc(vpc_id@),
            out.deep_view() == dv.take(i as int).filter(pred),
        decreases subnets.len() - i,
    {
        proof {
            reveal(Seq::filter);
            assert(dv.take(i + 1).drop_last() =~= dv.take(i as int));
            assert(dv.take(i + 1).last() == dv[i as int]);
            assert(dv[i as int] == subnets@[i as int]@);
        }
        if str_eq(subnets[i].vpc_id.as_str(), vpc_id.as_str()) {
            let ghost pre = out.deep_view();
            out.push(subnets[i].duplicate());
            proof {
                assert(out.deep_view() =~= pre.push(dv[i as int]));
                assert(out.deep_view() =~= dv.take(i + 1).filter(pred));
            }
        } else {
            proof {
                assert(out.deep_view() =~= dv.take(i + 1).filter(pred));
            }
        }
        i = i + 1;
    }
    proof {
        assert(dv.take(dv.len() as int) =~= dv);
    }
    out
}

/// The route tables whose parent field names the given network.
pub fn route_tables_of_vpc(rts: &Vec<RouteTableResource>, vpc_id: &String) -> (r: Vec<
    RouteTableResource,
>)
    ensures
        r.deep_view() == rts.deep_view().filter(table_in_vpc(vpc_id@)),
{
    let ghost dv = rts.deep_view();
    let ghost pred = table_in_vpc(vpc_id@);
    let mut out: Vec<RouteTableResource> = Vec::new();
    proof {
        reveal(Seq::filter);
        assert(dv.take(0) =~= Seq::<RouteTableModel>::empty());
        assert(out.deep_view() =~= dv.take(0).filter(pred));
    }
    let mut i: usize = 0;
    while i < rts.len()
        invariant
            i <= rts.len(),
            dv == rts.deep_view(),
            dv.len() == rts.len(),
            pred == table_in_vpc(vpc_id@),
            out.deep_view() == dv.take(i as int).filter(pred),
        decreases rts.len() - i,
    {
        proof {
            reveal(Seq::filter);
            assert(dv.take(i + 1).drop_last() =~= dv.take(i as int));
            assert(dv.take(i + 1).last() == dv[i as int]);
            assert(dv[i as int] == rts@[i as int]@);
        }
        if str_eq(rts[i].vpc_id.as_str(), vpc_id.as_str()) {
            let ghost pre = out.deep_view();
            out.push(rts[i].duplicate());
            proof {
                assert(out.deep_view() =~= pre.push(dv[i as int]));
                assert(out.deep_view() =~= dv.take(i + 1).filter(pred));
            }
        } else {
            proof {
                assert(out.deep_view() =~= dv.take(i + 1).filter(pred));
            }
        }
        i = i + 1;
    }
    proof {
        assert(dv.take(dv.len() as int) =~= dv);
    }
    out
}

/// The instances whose parent field names the given network.
pub fn instances_of_vpc(instances: &Vec<InstanceResource>, vpc_id: &String) -> (r: Vec<
    InstanceResource,
>)
    ensures
        r.deep_view() == instances.deep_view().filter(instance_in_vpc(vpc_id@)),
{
    let ghost dv = instances.deep_view();
    let ghost pred = instance_in_vpc(vpc_id@);
    let mut out: Vec<InstanceResource> = Vec::new();
    proof {
        reveal(Seq::filter);
        assert(dv.take(0) =~= Seq::<InstanceModel>::empty());
        assert(out.deep_view() =~= dv.take(0).filter(pred));
    }
    let mut i: usize = 0;
    while i < instances.len()
        invariant
            i <= instances.len(),
            dv == instances.deep_view(),
            dv.len() == instances.len(),
            pred == instance_in_vpc(vpc_id@),
            out.deep_view() == dv.take(i as int).filter(pred),
        decreases instances.len() - i,
    {
        proof {
            reveal(Seq::filter);
            assert(dv.take(i + 1).drop_last() =~= dv.take(i as int));
            assert(dv.take(i + 1).last() == dv[i as int]);
            assert(dv[i as int] == instances@[i as int]@);
        }
        if str_eq(instances[i].vpc_id.as_str(), vpc_id.as_str()) {
            let ghost pre = out.deep_view();
            out.push(instances[i].duplicate());
            proof {
                assert(out.deep_view() =~= pre.push(dv[i as int]));
                assert(out.deep_view() =~= dv.take(i + 1).filter(pred));
            }
        } else {
            proof {
                assert(out.deep_view() =~= dv.take(i + 1).filter(pred));
            }
        }
        i = i + 1;
    }
    proof {
        assert(dv.take(dv.len() as int) =~= dv);
    }
    out
}

// ------------------------------------------------------------------
// Assembly
// ------------------------------------------------------------------
pub ghost struct RouteTableEntryModel {
    pub table: RouteTableModel,
    pub used_by: Seq<Seq<char>>,
}

/// A route table together with the subnets resolved to use it. A
/// table nothing uses is still reported: it commonly is an unused or
/// main table.
#[derive(Debug)]
pub struct RouteTableEntry {
    pub table: RouteTableResource,
    pub used_by: Vec<String>,
}

impl View for RouteTableEntry {
    type V = RouteTableEntryModel;

    open spec fn view(&self) -> RouteTableEntryModel {
        RouteTableEntryModel { table: self.table@, used_by: self.used_by.deep_view() }
    }
}

impl DeepView for RouteTableEntry {
    type V = RouteTableEntryModel;

    open spec fn deep_view(&self) -> RouteTableEntryModel {
        self.view()
    }
}

pub ghost struct VpcTopologyModel {
    pub vpc: VpcModel,
    pub subnets: Seq<SubnetModel>,
    pub route_tables: Seq<RouteTableEntryModel>,
    pub instances: Seq<InstanceModel>,
}

/// One network of the topology, with its resolved children.
#[derive(Debug)]
pub struct VpcTopology {
    pub vpc: VpcResource,
    pub subnets: Vec<SubnetResource>,
    pub route_tables: Vec<RouteTableEntry>,
    pub instances: Vec<InstanceResource>,
}

impl View for VpcTopology {
    type V = VpcTopologyModel;

    open spec fn view(&self) -> VpcTopologyModel {
        VpcTopologyModel {
            vpc: self.vpc@,
            subnets: self.subnets.deep_view(),
            route_tables: self.route_tables.deep_view(),
            instances: self.instances.deep_view(),
        }
    }
}

impl DeepView for VpcTopology {
    type V = VpcTopologyModel;

    open spec fn deep_view(&self) -> VpcTopologyModel {
        self.view()
    }
}

pub open spec fn entry_of(rts: Seq<RouteTableModel>) -> spec_fn(
    RouteTableModel,
) -> RouteTableEntryModel {
    |t: RouteTableModel| RouteTableEntryModel { table: t, used_by: used_by_model(rts, t.id) }
}

/// What assembly yields for one network: its children filtered by
/// parent id, and each of its route tables with its used-by set
/// resolved against the network's tables.
pub open spec fn vpc_topology_model(
    vpc: VpcModel,
    subnets: Seq<SubnetModel>,
    rts: Seq<RouteTableModel>,
    instances: Seq<InstanceModel>,
) -> VpcTopologyModel {
    let my_rts = rts.filter(table_in_vpc(vpc.id));
    VpcTopologyModel {
        vpc: vpc,
        subnets: subnets.filter(subnet_in_vpc(vpc.id)),
        route_tables: my_rts.map_values(entry_of(my_rts)),
        instances: instances.filter(instance_in_vpc(vpc.id)),
    }
}

pub open spec fn topology_of(
    subnets: Seq<SubnetModel>,
    rts: Seq<RouteTableModel>,
    instances: Seq<InstanceModel>,
) -> spec_fn(VpcModel) -> VpcTopologyModel {
    |v: VpcModel| vpc_topology_model(v, subnets, rts, instances)
}

/// The assembled topology: one entry per fetched network, in fetch
/// order.
pub open spec fn topology_model(
    vpcs: Seq<VpcModel>,
    subnets: Seq<SubnetModel>,
    rts: Seq<RouteTableModel>,
    instances: Seq<InstanceModel>,
) -> Seq<VpcTopologyModel> {
    vpcs.map_values(topology_of(subnets, rts, instances))
}

/// Assembles the topology from independently fetched collections.
/// A child whose parent id names no fetched network is simply linked
/// nowhere; a fetch that degraded to an empty collection yields a
/// partial topology, which is a valid output.
pub fn assemble(
    vpcs: &Vec<VpcResource>,
    subnets: &Vec<SubnetResource>,
    route_tables: &Vec<RouteTableResource>,
    instances: &Vec<InstanceResource>,
) -> (r: Vec<VpcTopology>)
    ensures
        r.deep_view() == topology_model(
            vpcs.deep_view(),
            subnets.deep_view(),
            route_tables.deep_view(),
            instances.deep_view(),
        ),
{
    let ghost vs = vpcs.deep_view();
    let ghost f = topology_of(subnets.deep_view(), route_tables.deep_view(), instances.deep_view());
    let mut out: Vec<VpcTopology> = Vec::new();
    let mut i: usize = 0;
    while i < vpcs.len()
        invariant
            i <= vpcs.len(),
            vs == vpcs.deep_view(),
            vs.len() == vpcs.len(),
            f == topology_of(
                subnets.deep_view(),
                route_tables.deep_view(),
                instances.deep_view(),
            ),
            out.deep_view() =~= vs.take(i as int).map_values(f),
        decreases vpcs.len() - i,
    {
        proof {
            assert(vs[i as int] == vpcs@[i as int]@);
        }
        let vpc = &vpcs[i];
        let my_subnets = subnets_of_vpc(subnets, &vpc.id);
        let my_rts = route_tables_of_vpc(route_tables, &vpc.id);
        let my_instances = instances_of_vpc(instances, &vpc.id);
        let ghost my_rts_dv = my_rts.deep_view();
        let ghost g = entry_of(my_rts_dv);
        let mut entries: Vec<RouteTableEntry> = Vec::new();
        let mut j: usize = 0;
        while j < my_rts.len()
            invariant
                j <= my_rts.len(),
                my_rts_dv == my_rts.deep_view(),
                my_rts_dv.len() == my_rts.len(),
                g == entry_of(my_rts_dv),
                entries.deep_view() =~= my_rts_dv.take(j as int).map_values(g),
            decreases my_rts.len() - j,
        {
            proof {
                assert(my_rts_dv[j as int] == my_rts@[j as int]@);
            }
            let uses = used_by(&my_rts, &my_rts[j].id);
            let entry = RouteTableEntry { table: my_rts[j].duplicate(), used_by: uses };
            let ghost pre = entries.deep_view();
            entries.push(entry);
            proof {
                assert(entries.deep_view() =~= pre.push(g(my_rts_dv[j as int])));
                assert(entries.deep_view() =~= my_rts_dv.take(j + 1).map_values(g));
            }
            j = j + 1;
        }
        proof {
            assert(my_rts_dv.take(my_rts_dv.len() as int) =~= my_rts_dv);
        }
        let topo = VpcTopology {
            vpc: vpc.duplicate(),
            subnets: my_subnets,
            route_tables: entries,
            instances: my_instances,
        };
        let ghost pre = out.deep_view();
        out.push(topo);
        proof {
            assert(out.deep_view() =~= pre.push(f(vs[i as int])));
            assert(out.deep_view() =~= vs.take(i + 1).map_values(f));
        }
        i = i + 1;
    }
    proof {
        assert(vs.take(vs.len() as int) =~= vs);
    }
    out
}

/// Law: assembly is deterministic. The topology is a function of the
/// fetched collections alone, so re-running assembly on the same
/// input yields an identical topology, in an identical order.
pub proof fn lemma_assembly_idempotent(
    v1: Seq<VpcModel>,
    v2: Seq<VpcModel>,
    s1: Seq<SubnetModel>,
    s2: Seq<SubnetModel>,
    r1: Seq<RouteTableModel>,
    r2: Seq<RouteTableModel>,
    i1: Seq<InstanceModel>,
    i2: Seq<InstanceModel>,
)
    requires
        v1 == v2,
        s1 == s2,
        r1 == r2,
        i1 == i2,
    ensures
        topology_model(v1, s1, r1, i1) == topology_model(v2, s2, r2, i2),
{
}

} // verus!
