//! The resource model: typed representations of the network resources a
//! scan works on, their mathematical views, and the decoding step that
//! turns optional raw fields into model values with documented defaults.
use vstd::prelude::*;

verus! {

use crate::strutil::str_eq;

// ------------------------------------------------------------------
// Ghost models
// ------------------------------------------------------------------
pub ghost struct VpcModel {
    pub id: Seq<char>,
    pub cidr_block: Seq<char>,
    pub is_default: bool,
}

pub ghost struct SubnetModel {
    pub id: Seq<char>,
    pub cidr_block: Seq<char>,
    pub availability_zone: Seq<char>,
    pub available_ip_count: nat,
    pub vpc_id: Seq<char>,
}

pub ghost struct RouteModel {
    pub destination: Seq<char>,
    pub target: Seq<char>,
    pub state: Seq<char>,
}

pub ghost struct RouteTableModel {
    pub id: Seq<char>,
    pub vpc_id: Seq<char>,
    pub subnet_associations: Seq<Seq<char>>,
    pub routes: Seq<RouteModel>,
}

pub ghost struct TagModel {
    pub key: Option<Seq<char>>,
    pub value: Option<Seq<char>>,
}

pub ghost struct InstanceModel {
    pub id: Seq<char>,
    pub state: Seq<char>,
    pub private_ip: Option<Seq<char>>,
    pub instance_type: Seq<char>,
    pub name: Seq<char>,
    pub subnet_id: Seq<char>,
    pub vpc_id: Seq<char>,
}

pub ghost struct TransitGatewayModel {
    pub id: Seq<char>,
    pub state: Seq<char>,
}

pub ghost struct TgwAttachmentModel {
    pub id: Seq<char>,
    pub tgw_id: Seq<char>,
    pub resource_id: Seq<char>,
    pub state: Seq<char>,
}

pub ghost struct IpRangeModel {
    pub cidr: Seq<char>,
    pub description: Seq<char>,
}

pub ghost struct IngressRuleModel {
    pub protocol: Seq<char>,
    pub ports: Option<(int, int)>,
    pub sources: Seq<IpRangeModel>,
    pub group_sources: Seq<Seq<char>>,
}

pub ghost struct SecurityGroupModel {
    pub id: Seq<char>,
    pub name: Seq<char>,
    pub vpc_id: Option<Seq<char>>,
    pub ingress: Seq<IngressRuleModel>,
    pub egress: Seq<IngressRuleModel>,
}

pub ghost struct RiskPortModel {
    pub port: int,
    pub service: Seq<char>,
}

pub ghost struct IssueModel {
    pub severity: Severity,
    pub sg_id: Seq<char>,
    pub sg_name: Seq<char>,
    pub rule_type: Seq<char>,
    pub protocol: Seq<char>,
    pub port: Option<int>,
    pub service: Option<Seq<char>>,
    pub source: Seq<char>,
    pub description: Seq<char>,
}

// ------------------------------------------------------------------
// Executable resource types
// ------------------------------------------------------------------
#[derive(Debug)]
pub struct VpcResource {
    pub id: String,
    pub cidr_block: String,
    pub is_default: bool,
}

impl View for VpcResource {
    type V = VpcModel;

    open spec fn view(&self) -> VpcModel {
        VpcModel { id: self.id@, cidr_block: self.cidr_block@, is_default: self.is_default }
    }
}

impl DeepView for VpcResource {
    type V = VpcModel;

    open spec fn deep_view(&self) -> VpcModel {
        self.view()
    }
}

#[derive(Debug)]
pub struct SubnetResource {
    pub id: String,
    pub cidr_block: String,
    pub availability_zone: String,
    pub available_ip_count: u64,
    pub vpc_id: String,
}

impl View for SubnetResource {
    type V = SubnetModel;

    open spec fn view(&self) -> SubnetModel {
        SubnetModel {
            id: self.id@,
            cidr_block: self.cidr_block@,
            availability_zone: self.availability_zone@,
            available_ip_count: self.available_ip_count as nat,
            vpc_id: self.vpc_id@,
        }
    }
}

impl DeepView for SubnetResource {
    type V = SubnetModel;

    open spec fn deep_view(&self) -> SubnetModel {
        self.view()
    }
}

#[derive(Debug)]
pub struct Route {
    pub destination: String,
    pub target: String,
    pub state: String,
}

impl View for Route {
    type V = RouteModel;

    open spec fn view(&self) -> RouteModel {
        RouteModel { destination: self.destination@, target: self.target@, state: self.state@ }
    }
}

impl DeepView for Route {
    type V = RouteModel;

    open spec fn deep_view(&self) -> RouteModel {
        self.view()
    }
}

#[derive(Debug)]
pub struct RouteTableResource {
    pub id: String,
    pub vpc_id: String,
    pub subnet_associations: Vec<String>,
    pub routes: Vec<Route>,
}

impl View for RouteTableResource {
    type V = RouteTableModel;

    open spec fn view(&self) -> RouteTableModel {
        RouteTableModel {
            id: self.id@,
            vpc_id: self.vpc_id@,
            subnet_associations: self.subnet_associations.deep_view(),
            routes: self.routes.deep_view(),
        }
    }
}

impl DeepView for RouteTableResource {
    type V = RouteTableModel;

    open spec fn deep_view(&self) -> RouteTableModel {
        self.view()
    }
}

#[derive(Debug)]
pub struct ResourceTag {
    pub key: Option<String>,
    pub value: Option<String>,
}

impl View for ResourceTag {
    type V = TagModel;

    open spec fn view(&self) -> TagModel {
        TagModel { key: self.key.deep_view(), value: self.value.deep_view() }
    }
}

impl DeepView for ResourceTag {
    type V = TagModel;

    open spec fn deep_view(&self) -> TagModel {
        self.view()
    }
}

#[derive(Debug)]
pub struct InstanceResource {
    pub id: String,
    pub state: String,
    pub private_ip: Option<String>,
    pub instance_type: String,
    pub name: String,
    pub subnet_id: String,
    pub vpc_id: String,
}

impl View for InstanceResource {
    type V = InstanceModel;

    open spec fn view(&self) -> InstanceModel {
        InstanceModel {
            id: self.id@,
            state: self.state@,
            private_ip: self.private_ip.deep_view(),
            instance_type: self.instance_type@,
            name: self.name@,
            subnet_id: self.subnet_id@,
            vpc_id: self.vpc_id@,
        }
    }
}

impl DeepView for InstanceResource {
    type V = InstanceModel;

    open spec fn deep_view(&self) -> InstanceModel {
        self.view()
    }
}

#[derive(Debug)]
pub struct TransitGateway {
    pub id: String,
    pub state: String,
}

impl View for TransitGateway {
    type V = TransitGatewayModel;

    open spec fn view(&self) -> TransitGatewayModel {
        TransitGatewayModel { id: self.id@, state: self.state@ }
    }
}

impl DeepView for TransitGateway {
    type V = TransitGatewayModel;

    open spec fn deep_view(&self) -> TransitGatewayModel {
        self.view()
    }
}

#[derive(Debug)]
pub struct TgwAttachment {
    pub id: String,
    pub tgw_id: String,
    pub resource_id: String,
    pub state: String,
}

impl View for TgwAttachment {
    type V = TgwAttachmentModel;

    open spec fn view(&self) -> TgwAttachmentModel {
        TgwAttachmentModel {
            id: self.id@,
            tgw_id: self.tgw_id@,
            resource_id: self.resource_id@,
            state: self.state@,
        }
    }
}

impl DeepView for TgwAttachment {
    type V = TgwAttachmentModel;

    open spec fn deep_view(&self) -> TgwAttachmentModel {
        self.view()
    }
}

#[derive(Debug)]
pub struct IpRangeSource {
    pub cidr: String,
    pub description: String,
}

impl View for IpRangeSource {
    type V = IpRangeModel;

    open spec fn view(&self) -> IpRangeModel {
        IpRangeModel { cidr: self.cidr@, description: self.description@ }
    }
}

impl DeepView for IpRangeSource {
    type V = IpRangeModel;

    open spec fn deep_view(&self) -> IpRangeModel {
        self.view()
    }
}

/// A concrete, bounded port range. Absence of a range on a rule means
/// "all ports", which is distinct from the range 0-65535.
#[derive(Clone, Copy, Debug)]
pub struct PortRange {
    pub from: i64,
    pub to: i64,
}

#[derive(Debug)]
pub struct IngressRule {
    pub protocol: String,
    pub ports: Option<PortRange>,
    pub sources: Vec<IpRangeSource>,
    pub group_sources: Vec<String>,
}

pub open spec fn ports_model(p: Option<PortRange>) -> Option<(int, int)> {
    match p {
        Some(r) => Some((r.from as int, r.to as int)),
        None => None,
    }
}

impl View for IngressRule {
    type V = IngressRuleModel;

    open spec fn view(&self) -> IngressRuleModel {
        IngressRuleModel {
            protocol: self.protocol@,
            ports: ports_model(self.ports),
            sources: self.sources.deep_view(),
            group_sources: self.group_sources.deep_view(),
        }
    }
}

impl DeepView for IngressRule {
    type V = IngressRuleModel;

    open spec fn deep_view(&self) -> IngressRuleModel {
        self.view()
    }
}

#[derive(Debug)]
pub struct SecurityGroup {
    pub id: String,
    pub name: String,
    pub vpc_id: Option<String>,
    pub ingress: Vec<IngressRule>,
    pub egress: Vec<IngressRule>,
}

impl View for SecurityGroup {
    type V = SecurityGroupModel;

    open spec fn view(&self) -> SecurityGroupModel {
        SecurityGroupModel {
            id: self.id@,
            name: self.name@,
            vpc_id: self.vpc_id.deep_view(),
            ingress: self.ingress.deep_view(),
            egress: self.egress.deep_view(),
        }
    }
}

impl DeepView for SecurityGroup {
    type V = SecurityGroupModel;

    open spec fn deep_view(&self) -> SecurityGroupModel {
        self.view()
    }
}

#[derive(Debug)]
pub struct RiskPort {
    pub port: i64,
    pub service: String,
}

impl View for RiskPort {
    type V = RiskPortModel;

    open spec fn view(&self) -> RiskPortModel {
        RiskPortModel { port: self.port as int, service: self.service@ }
    }
}

impl DeepView for RiskPort {
    type V = RiskPortModel;

    open spec fn deep_view(&self) -> RiskPortModel {
        self.view()
    }
}

// ------------------------------------------------------------------
// Severity
// ------------------------------------------------------------------
/// Issue severity, ordered CRITICAL < HIGH < MEDIUM < other.
#[derive(Clone, Copy, Debug, PartialEq, Eq, Structural)]
pub enum Severity {
    Critical,
    High,
    Medium,
    Other,
}

/// Numeric rank used for sorting and for the exit code.
pub open spec fn severity_rank(s: Severity) -> int {
    match s {
        Severity::Critical => 0,
        Severity::High => 1,
        Severity::Medium => 2,
        Severity::Other => 3,
    }
}

pub fn severity_rank_of(s: Severity) -> (r: u32)
    ensures
        r == severity_rank(s),
{
    match s {
        Severity::Critical => 0,
        Severity::High => 1,
        Severity::Medium => 2,
        Severity::Other => 3,
    }
}

#[derive(Debug)]
pub struct ComplianceIssue {
    pub severity: Severity,
    pub sg_id: String,
    pub sg_name: String,
    pub rule_type: String,
    pub protocol: String,
    pub port: Option<i64>,
    pub service: Option<String>,
    pub source: String,
    pub description: String,
}

pub open spec fn opt_int_model(p: Option<i64>) -> Option<int> {
    match p {
        Some(x) => Some(x as int),
        None => None,
    }
}

impl View for ComplianceIssue {
    type V = IssueModel;

    open spec fn view(&self) -> IssueModel {
        IssueModel {
            severity: self.severity,
            sg_id: self.sg_id@,
            sg_name: self.sg_name@,
            rule_type: self.rule_type@,
            protocol: self.protocol@,
            port: opt_int_model(self.port),
            service: self.service.deep_view(),
            source: self.source@,
            description: self.description@,
        }
    }
}

impl DeepView for ComplianceIssue {
    type V = IssueModel;

    open spec fn deep_view(&self) -> IssueModel {
        self.view()
    }
}

// ------------------------------------------------------------------
// Decoding raw optional fields into model values
// ------------------------------------------------------------------
/// The value of an optional raw field, with its documented default.
pub open spec fn field_or(o: Option<Seq<char>>, d: Seq<char>) -> Seq<char> {
    match o {
        Some(s) => s,
        None => d,
    }
}

/// The first present of two optional fields.
pub open spec fn opt_first(a: Option<Seq<char>>, b: Option<Seq<char>>) -> Option<Seq<char>> {
    match a {
        Some(s) => Some(s),
        None => b,
    }
}

pub fn string_or(o: Option<String>, d: &str) -> (r: String)
    ensures
        r@ == field_or(o.deep_view(), d@),
{
    match o {
        Some(s) => s,
        None => d.to_owned(),
    }
}

pub fn decode_vpc(id: Option<String>, cidr_block: Option<String>, is_default: Option<bool>) -> (v:
    VpcResource)
    ensures
        v@.id == field_or(id.deep_view(), "unknown"@),
        v@.cidr_block == field_or(cidr_block.deep_view(), "unknown"@),
        v@.is_default == (is_default == Some(true)),
{
    VpcResource {
        id: string_or(id, "unknown"),
        cidr_block: string_or(cidr_block, "unknown"),
        is_default: match is_default {
            Some(b) => b,
            None => false,
        },
    }
}

pub fn decode_subnet(
    id: Option<String>,
    cidr_block: Option<String>,
    availability_zone: Option<String>,
    available_ip_count: Option<u64>,
    vpc_id: Option<String>,
) -> (s: SubnetResource)
    ensures
        s@.id == field_or(id.deep_view(), "unknown"@),
        s@.cidr_block == field_or(cidr_block.deep_view(), "unknown"@),
        s@.availability_zone == field_or(availability_zone.deep_view(), "unknown"@),
        s@.available_ip_count == (match available_ip_count {
            Some(n) => n as nat,
            None => 0nat,
        }),
        s@.vpc_id == field_or(vpc_id.deep_view(), "unknown"@),
{
    SubnetResource {
        id: string_or(id, "unknown"),
        cidr_block: string_or(cidr_block, "unknown"),
        availability_zone: string_or(availability_zone, "unknown"),
        available_ip_count: match available_ip_count {
            Some(n) => n,
            None => 0,
        },
        vpc_id: string_or(vpc_id, "unknown"),
    }
}

/// A route's destination is the first present of its CIDR and its
/// prefix-list id; its target is the first present of the four possible
/// gateway ids, and the absence of all four denotes the local route.
pub fn decode_route(
    dest_cidr: Option<String>,
    dest_prefix_list: Option<String>,
    gateway_id: Option<String>,
    nat_gateway_id: Option<String>,
    transit_gateway_id: Option<String>,
    network_interface_id: Option<String>,
    state: Option<String>,
) -> (r: Route)
    ensures
        r@.destination == field_or(
            opt_first(dest_cidr.deep_view(), dest_prefix_list.deep_view()),
            "unknown"@,
        ),
        r@.target == field_or(
            opt_first(
                opt_first(
                    opt_first(gateway_id.deep_view(), nat_gateway_id.deep_view()),
                    transit_gateway_id.deep_view(),
                ),
                network_interface_id.deep_view(),
            ),
            "local"@,
        ),
        r@.state == field_or(state.deep_view(), "active"@),
{
    let destination = match dest_cidr {
        Some(s) => s,
        None => string_or(dest_prefix_list, "unknown"),
    };
    let target = match gateway_id {
        Some(s) => s,
        None => match nat_gateway_id {
            Some(s) => s,
            None => match transit_gateway_id {
                Some(s) => s,
                None => string_or(network_interface_id, "local"),
            },
        },
    };
    Route { destination, target, state: string_or(state, "active") }
}

/// The instance name, read from the first tag whose key is "Name";
/// a missing tag or a missing value yields "unnamed".
pub open spec fn name_from_tags_model(tags: Seq<TagModel>) -> Seq<char>
    decreases tags.len(),
{
    if tags.len() == 0 {
        "unnamed"@
    } else if tags[0].key == Some("Name"@) {
        match tags[0].value {
            Some(v) => v,
            None => "unnamed"@,
        }
    } else {
        name_from_tags_model(tags.drop_first())
    }
}

pub fn name_from_tags(tags: &Vec<ResourceTag>) -> (r: String)
    ensures
        r@ == name_from_tags_model(tags.deep_view()),
{
    let ghost full = tags.deep_view();
    proof {
        assert(full.skip(0) =~= full);
    }
    let mut i: usize = 0;
    while i < tags.len()
        invariant
            i <= tags.len(),
            full == tags.deep_view(),
            full.len() == tags.len(),
            name_from_tags_model(full) == name_from_tags_model(full.skip(i as int)),
        decreases tags.len() - i,
    {
        proof {
            assert(full.skip(i as int)[0] == full[i as int]);
            assert(full.skip(i as int).drop_first() =~= full.skip(i as int + 1));
        }
        let found: bool = match &tags[i].key {
            Some(k) => str_eq(k.as_str(), "Name"),
            None => false,
        };
        if found {
            let r = match &tags[i].value {
                Some(v) => v.clone(),
                None => "unnamed".to_owned(),
            };
            return r;
        }
        i = i + 1;
    }
    proof {
        assert(full.skip(i as int) =~= Seq::<TagModel>::empty());
    }
    "unnamed".to_owned()
}

pub fn decode_instance(
    id: Option<String>,
    state: Option<String>,
    private_ip: Option<String>,
    instance_type: Option<String>,
    tags: &Vec<ResourceTag>,
    subnet_id: Option<String>,
    vpc_id: Option<String>,
) -> (r: InstanceResource)
    ensures
        r@.id == field_or(id.deep_view(), "unknown"@),
        r@.state == field_or(state.deep_view(), "unknown"@),
        r@.private_ip == private_ip.deep_view(),
        r@.instance_type == field_or(instance_type.deep_view(), "unknown"@),
        r@.name == name_from_tags_model(tags.deep_view()),
        r@.subnet_id == field_or(subnet_id.deep_view(), "unknown"@),
        r@.vpc_id == field_or(vpc_id.deep_view(), "unknown"@),
{
    InstanceResource {
        id: string_or(id, "unknown"),
        state: string_or(state, "unknown"),
        private_ip,
        instance_type: string_or(instance_type, "unknown"),
        name: name_from_tags(tags),
        subnet_id: string_or(subnet_id, "unknown"),
        vpc_id: string_or(vpc_id, "unknown"),
    }
}

pub fn decode_transit_gateway(id: Option<String>, state: Option<String>) -> (r: TransitGateway)
    ensures
        r@.id == field_or(id.deep_view(), "unknown"@),
        r@.state == field_or(state.deep_view(), "unknown"@),
{
    TransitGateway { id: string_or(id, "unknown"), state: string_or(state, "unknown") }
}

pub fn decode_tgw_attachment(
    id: Option<String>,
    tgw_id: Option<String>,
    resource_id: Option<String>,
    state: Option<String>,
) -> (r: TgwAttachment)
    ensures
        r@.id == field_or(id.deep_view(), "unknown"@),
        r@.tgw_id == field_or(tgw_id.deep_view(), "unknown"@),
        r@.resource_id == field_or(resource_id.deep_view(), "unknown"@),
        r@.state == field_or(state.deep_view(), "unknown"@),
{
    TgwAttachment {
        id: string_or(id, "unknown"),
        tgw_id: string_or(tgw_id, "unknown"),
        resource_id: string_or(resource_id, "unknown"),
        state: string_or(state, "unknown"),
    }
}

/// A port pair is meaningful only when both ends are present;
/// anything else denotes "all ports".
pub fn decode_ports(from_port: Option<i64>, to_port: Option<i64>) -> (r: Option<PortRange>)
    ensures
        (match (from_port, to_port) {
            (Some(f), Some(t)) => r is Some && ports_model(r) == Some((f as int, t as int)),
            _ => r is None,
        }),
{
    match (from_port, to_port) {
        (Some(f), Some(t)) => Some(PortRange { from: f, to: t }),
        _ => None,
    }
}

pub fn decode_ip_range(cidr: Option<String>, description: Option<String>) -> (r: IpRangeSource)
    ensures
        r@.cidr == field_or(cidr.deep_view(), "unknown"@),
        r@.description == field_or(description.deep_view(), ""@),
{
    IpRangeSource { cidr: string_or(cidr, "unknown"), description: string_or(description, "") }
}

} // verus!
