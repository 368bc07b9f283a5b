//! The data-access boundary: raw JSON documents are parsed with
//! serde_json behind trusted wrappers, and each record kind is decoded
//! here, field by field, into the typed resource model. The contents
//! of a parsed document are named by a ghost JSON tree, the accessor
//! wrappers state what each call returns over that tree, and every
//! decoder is verified against it; the "missing field means this
//! default" rules live in the decoders of the model, which are
//! verified too.
use vstd::prelude::*;

verus! {

use crate::compliance::{
    discovered_issues,
    evaluate,
    exit_code_model,
    sorted_issues,
};
use crate::model::{
    ComplianceIssue,
    IngressRule,
    IngressRuleModel,
    InstanceModel,
    InstanceResource,
    IpRangeModel,
    IpRangeSource,
    ResourceTag,
    RiskPort,
    RouteModel,
    RouteTableModel,
    RouteTableResource,
    Route,
    SecurityGroup,
    SecurityGroupModel,
    SubnetModel,
    SubnetResource,
    TagModel,
    TgwAttachment,
    TgwAttachmentModel,
    TransitGateway,
    TransitGatewayModel,
    VpcModel,
    VpcResource,
    decode_instance,
    decode_ip_range,
    decode_ports,
    decode_route,
    decode_subnet,
    decode_tgw_attachment,
    decode_transit_gateway,
    decode_vpc,
    field_or,
    name_from_tags_model,
    opt_first,
    string_or,
};

// ------------------------------------------------------------------
// The ghost shape of a JSON value
// ------------------------------------------------------------------
/// The mathematical contents of a JSON value: null, a boolean, a
/// number (read through the two integer views the boundary uses), a
/// string, an array, or an object.
pub ghost enum JsonModel {
    Null,
    Bool { value: bool },
    Num { int_value: Option<i64>, uint_value: Option<u64> },
    Text { value: Seq<char> },
    Arr { items: Seq<JsonModel> },
    Obj { entries: Map<Seq<char>, JsonModel> },
}

/// The contents of an opaque parsed value. Every accessor wrapper
/// below speaks of it.
pub uninterp spec fn json_view(v: serde_json::Value) -> JsonModel;

/// What parsing a byte string yields: the document's contents when
/// serde_json reads the bytes as one JSON document, `None` when it
/// refuses them (malformed text, or nesting past its recursion
/// limit). The outcome is a function of the bytes alone.
pub uninterp spec fn doc_of(bytes: Seq<u8>) -> Option<JsonModel>;

pub open spec fn views_of(vals: Seq<serde_json::Value>) -> Seq<JsonModel> {
    vals.map_values(|x: serde_json::Value| json_view(x))
}

// ------------------------------------------------------------------
// Trusted boundary: serde_json types and calls
// ------------------------------------------------------------------
#[verifier::external_type_specification]
#[verifier::external_body]
pub struct ExValue(serde_json::Value);

#[verifier::external_type_specification]
#[verifier::external_body]
pub struct ExJsonError(serde_json::Error);

/// Relies on serde_json::from_slice: parses one JSON document from
/// raw bytes, or reports a syntax error; the outcome depends on the
/// bytes alone.
#[verifier::external_body]
fn parse_json_bytes(bytes: &[u8]) -> (r: Result<serde_json::Value, serde_json::Error>)
    ensures
        (r is Ok) == (doc_of(bytes@) is Some),
        r is Ok ==> json_view(r->Ok_0) == doc_of(bytes@)->0,
{
    serde_json::from_slice(bytes)
}

/// Relies on serde_json::Value::get: the entry under the key exactly
/// when the value is an object holding that key, `None` otherwise.
#[verifier::external_body]
fn json_get<'a>(v: &'a serde_json::Value, key: &str) -> (r: Option<&'a serde_json::Value>)
    ensures
        (match json_view(*v) {
            JsonModel::Obj { entries } => {
                &&& (r is Some) == entries.contains_key(key@)
                &&& (r is Some ==> json_view(*r->0) == entries[key@])
            },
            _ => r is None,
        }),
{
    v.get(key)
}

/// Relies on serde_json::Value::as_str: the string payload exactly
/// when the value is a string, `None` otherwise.
#[verifier::external_body]
fn json_as_str<'a>(v: &'a serde_json::Value) -> (r: Option<&'a str>)
    ensures
        (match json_view(*v) {
            JsonModel::Text { value } => r is Some && r->0@ == value,
            _ => r is None,
        }),
{
    v.as_str()
}

/// Relies on serde_json::Value::as_i64: the number's i64 reading when
/// the value is a number, `None` otherwise.
#[verifier::external_body]
fn json_as_i64(v: &serde_json::Value) -> (r: Option<i64>)
    ensures
        (match json_view(*v) {
            JsonModel::Num { int_value, uint_value } => r == int_value,
            _ => r is None,
        }),
{
    v.as_i64()
}

/// Relies on serde_json::Value::as_u64: the number's u64 reading when
/// the value is a number, `None` otherwise.
#[verifier::external_body]
fn json_as_u64(v: &serde_json::Value) -> (r: Option<u64>)
    ensures
        (match json_view(*v) {
            JsonModel::Num { int_value, uint_value } => r == uint_value,
            _ => r is None,
        }),
{
    v.as_u64()
}

/// Relies on serde_json::Value::as_bool: the boolean payload exactly
/// when the value is a boolean, `None` otherwise.
#[verifier::external_body]
fn json_as_bool(v: &serde_json::Value) -> (r: Option<bool>)
    ensures
        (match json_view(*v) {
            JsonModel::Bool { value } => r == Some(value),
            _ => r is None,
        }),
{
    v.as_bool()
}

/// Relies on serde_json::Value::as_array: the element vector exactly
/// when the value is an array, `None` otherwise.
#[verifier::external_body]
fn json_as_array<'a>(v: &'a serde_json::Value) -> (r: Option<&'a Vec<serde_json::Value>>)
    ensures
        (match json_view(*v) {
            JsonModel::Arr { items } => r is Some && views_of(r->0@) == items,
            _ => r is None,
        }),
{
    v.as_array()
}

// ------------------------------------------------------------------
// Reading one field of a record, in the model
// ------------------------------------------------------------------
/// The entry a key holds, when the value is an object holding it.
pub open spec fn field_of(m: JsonModel, key: Seq<char>) -> Option<JsonModel> {
    match m {
        JsonModel::Obj { entries } => if entries.contains_key(key) {
            Some(entries[key])
        } else {
            None
        },
        _ => None,
    }
}

pub open spec fn field_str_model(m: JsonModel, key: Seq<char>) -> Option<Seq<char>> {
    match field_of(m, key) {
        Some(JsonModel::Text { value }) => Some(value),
        _ => None,
    }
}

pub open spec fn field_i64_model(m: JsonModel, key: Seq<char>) -> Option<i64> {
    match field_of(m, key) {
        Some(JsonModel::Num { int_value, uint_value }) => int_value,
        _ => None,
    }
}

pub open spec fn field_u64_model(m: JsonModel, key: Seq<char>) -> Option<u64> {
    match field_of(m, key) {
        Some(JsonModel::Num { int_value, uint_value }) => uint_value,
        _ => None,
    }
}

pub open spec fn field_bool_model(m: JsonModel, key: Seq<char>) -> Option<bool> {
    match field_of(m, key) {
        Some(JsonModel::Bool { value }) => Some(value),
        _ => None,
    }
}

/// The elements a key holds, when it holds an array; anything else
/// reads as no elements.
pub open spec fn list_of(m: JsonModel, key: Seq<char>) -> Seq<JsonModel> {
    match field_of(m, key) {
        Some(JsonModel::Arr { items }) => items,
        _ => Seq::empty(),
    }
}

// ------------------------------------------------------------------
// Raw optional fields out of a record
// ------------------------------------------------------------------
fn field_str(v: &serde_json::Value, key: &str) -> (r: Option<String>)
    ensures
        r.deep_view() == field_str_model(json_view(*v), key@),
{
    match json_get(v, key) {
        Some(x) => match json_as_str(x) {
            Some(s) => Some(s.to_owned()),
            None => None,
        },
        None => None,
    }
}

fn field_i64(v: &serde_json::Value, key: &str) -> (r: Option<i64>)
    ensures
        r == field_i64_model(json_view(*v), key@),
{
    match json_get(v, key) {
        Some(x) => json_as_i64(x),
        None => None,
    }
}

fn field_u64(v: &serde_json::Value, key: &str) -> (r: Option<u64>)
    ensures
        r == field_u64_model(json_view(*v), key@),
{
    match json_get(v, key) {
        Some(x) => json_as_u64(x),
        None => None,
    }
}

fn field_bool(v: &serde_json::Value, key: &str) -> (r: Option<bool>)
    ensures
        r == field_bool_model(json_view(*v), key@),
{
    match json_get(v, key) {
        Some(x) => json_as_bool(x),
        None => None,
    }
}

fn array_field<'a>(doc: &'a serde_json::Value, key: &str) -> (r: Option<
    &'a Vec<serde_json::Value>,
>)
    ensures
        (match r {
            Some(arr) => list_of(json_view(*doc), key@) == views_of(arr@),
            None => list_of(json_view(*doc), key@) == Seq::<JsonModel>::empty(),
        }),
{
    let r = match json_get(doc, key) {
        Some(a) => json_as_array(a),
        None => None,
    };
    proof {
        if r is None {
            assert(list_of(json_view(*doc), key@) =~= Seq::<JsonModel>::empty());
        }
    }
    r
}


// ------------------------------------------------------------------
// Record models and record decoders
// ------------------------------------------------------------------
/// What one network record decodes to.
pub open spec fn vpc_model_of(m: JsonModel) -> VpcModel {
    VpcModel {
        id: field_or(field_str_model(m, "VpcId"@), "unknown"@),
        cidr_block: field_or(field_str_model(m, "CidrBlock"@), "unknown"@),
        is_default: field_bool_model(m, "IsDefault"@) == Some(true),
    }
}

pub fn vpc_from_json(v: &serde_json::Value) -> (r: VpcResource)
    ensures
        r@ == vpc_model_of(json_view(*v)),
{
    decode_vpc(field_str(v, "VpcId"), field_str(v, "CidrBlock"), field_bool(v, "IsDefault"))
}

/// What one subnet record decodes to.
pub open spec fn subnet_model_of(m: JsonModel) -> SubnetModel {
    SubnetModel {
        id: field_or(field_str_model(m, "SubnetId"@), "unknown"@),
        cidr_block: field_or(field_str_model(m, "CidrBlock"@), "unknown"@),
        availability_zone: field_or(field_str_model(m, "AvailabilityZone"@), "unknown"@),
        available_ip_count: (match field_u64_model(m, "AvailableIpAddressCount"@) {
            Some(n) => n as nat,
            None => 0nat,
        }),
        vpc_id: field_or(field_str_model(m, "VpcId"@), "unknown"@),
    }
}

pub fn subnet_from_json(v: &serde_json::Value) -> (r: SubnetResource)
    ensures
        r@ == subnet_model_of(json_view(*v)),
{
    decode_subnet(
        field_str(v, "SubnetId"),
        field_str(v, "CidrBlock"),
        field_str(v, "AvailabilityZone"),
        field_u64(v, "AvailableIpAddressCount"),
        field_str(v, "VpcId"),
    )
}

/// What one route record decodes to: the destination is the first
/// present of CIDR and prefix-list id, the target the first present
/// of the four gateway ids, and "local" when all four are absent.
pub open spec fn route_model_of(m: JsonModel) -> RouteModel {
    RouteModel {
        destination: field_or(
            opt_first(
                field_str_model(m, "DestinationCidrBlock"@),
                field_str_model(m, "DestinationPrefixListId"@),
            ),
            "unknown"@,
        ),
        target: field_or(
            opt_first(
                opt_first(
                    opt_first(
                        field_str_model(m, "GatewayId"@),
                        field_str_model(m, "NatGatewayId"@),
                    ),
                    field_str_model(m, "TransitGatewayId"@),
                ),
                field_str_model(m, "NetworkInterfaceId"@),
            ),
            "local"@,
        ),
        state: field_or(field_str_model(m, "State"@), "active"@),
    }
}

pub fn route_from_json(v: &serde_json::Value) -> (r: Route)
    ensures
        r@ == route_model_of(json_view(*v)),
{
    decode_route(
        field_str(v, "DestinationCidrBlock"),
        field_str(v, "DestinationPrefixListId"),
        field_str(v, "GatewayId"),
        field_str(v, "NatGatewayId"),
        field_str(v, "TransitGatewayId"),
        field_str(v, "NetworkInterfaceId"),
        field_str(v, "State"),
    )
}

/// The subnet ids of an association list: each association that
/// carries one, in list order.
pub open spec fn assoc_ids_of(items: Seq<JsonModel>) -> Seq<Seq<char>>
    decreases items.len(),
{
    if items.len() == 0 {
        Seq::empty()
    } else {
        assoc_ids_of(items.drop_last()) + (match field_str_model(items.last(), "SubnetId"@) {
            Some(sid) => seq![sid],
            None => Seq::empty(),
        })
    }
}

pub open spec fn routes_of(items: Seq<JsonModel>) -> Seq<RouteModel>
    decreases items.len(),
{
    if items.len() == 0 {
        Seq::empty()
    } else {
        routes_of(items.drop_last()).push(route_model_of(items.last()))
    }
}

/// What one route-table record decodes to.
pub open spec fn route_table_model_of(m: JsonModel) -> RouteTableModel {
    RouteTableModel {
        id: field_or(field_str_model(m, "RouteTableId"@), "unknown"@),
        vpc_id: field_or(field_str_model(m, "VpcId"@), "unknown"@),
        subnet_associations: assoc_ids_of(list_of(m, "Associations"@)),
        routes: routes_of(list_of(m, "Routes"@)),
    }
}

pub fn route_table_from_json(v: &serde_json::Value) -> (r: RouteTableResource)
    ensures
        r@ == route_table_model_of(json_view(*v)),
{
    let ghost assoc_items = list_of(json_view(*v), "Associations"@);
    let mut subnet_associations: Vec<String> = Vec::new();
    match array_field(v, "Associations") {
        Some(assocs) => {
            let ghost items = views_of(assocs@);
            proof {
                assert(items.take(0) =~= Seq::<JsonModel>::empty());
                assert(subnet_associations.deep_view() =~= assoc_ids_of(items.take(0)));
            }
            let mut i: usize = 0;
            while i < assocs.len()
                invariant
                    i <= assocs.len(),
                    items == views_of(assocs@),
                    items.len() == assocs.len(),
                    subnet_associations.deep_view() == assoc_ids_of(items.take(i as int)),
                decreases assocs.len() - i,
            {
                proof {
                    assert(items.take(i + 1).drop_last() =~= items.take(i as int));
                    assert(items.take(i + 1).last() == items[i as int]);
                    assert(items[i as int] == json_view(assocs@[i as int]));
                }
                match field_str(&assocs[i], "SubnetId") {
                    Some(sid) => {
                        let ghost pre = subnet_associations.deep_view();
                        let ghost sid_view = sid@;
                        subnet_associations.push(sid);
                        proof {
                            assert(subnet_associations.deep_view() =~= pre.push(sid_view));
                            assert(subnet_associations.deep_view() =~= assoc_ids_of(
                                items.take(i + 1),
                            ));
                        }
                    },
                    None => {
                        proof {
                            assert(subnet_associations.deep_view() =~= assoc_ids_of(
                                items.take(i + 1),
                            ));
                        }
                    },
                }
                i = i + 1;
            }
            proof {
                assert(items.take(items.len() as int) =~= items);
            }
        },
        None => {
            proof {
                assert(subnet_associations.deep_view() =~= assoc_ids_of(assoc_items));
            }
        },
    }
    let ghost route_items = list_of(json_view(*v), "Routes"@);
    let mut routes: Vec<Route> = Vec::new();
    match array_field(v, "Routes") {
        Some(arr) => {
            let ghost items = views_of(arr@);
            proof {
                assert(items.take(0) =~= Seq::<JsonModel>::empty());
                assert(routes.deep_view() =~= routes_of(items.take(0)));
            }
            let mut i: usize = 0;
            while i < arr.len()
                invariant
                    i <= arr.len(),
                    items == views_of(arr@),
                    items.len() == arr.len(),
                    routes.deep_view() == routes_of(items.take(i as int)),
                decreases arr.len() - i,
            {
                proof {
                    assert(items.take(i + 1).drop_last() =~= items.take(i as int));
                    assert(items.take(i + 1).last() == items[i as int]);
                    assert(items[i as int] == json_view(arr@[i as int]));
                }
                let route = route_from_json(&arr[i]);
                let ghost pre = routes.deep_view();
                let ghost route_view = route@;
                routes.push(route);
                proof {
                    assert(routes.deep_view() =~= pre.push(route_view));
                    assert(routes.deep_view() =~= routes_of(items.take(i + 1)));
                }
                i = i + 1;
            }
            proof {
                assert(items.take(items.len() as int) =~= items);
            }
        },
        None => {
            proof {
                assert(routes.deep_view() =~= routes_of(route_items));
            }
        },
    }
    RouteTableResource {
        id: string_or(field_str(v, "RouteTableId"), "unknown"),
        vpc_id: string_or(field_str(v, "VpcId"), "unknown"),
        subnet_associations,
        routes,
    }
}

pub open spec fn tag_model_of(m: JsonModel) -> TagModel {
    TagModel { key: field_str_model(m, "Key"@), value: field_str_model(m, "Value"@) }
}

pub open spec fn tags_of(items: Seq<JsonModel>) -> Seq<TagModel>
    decreases items.len(),
{
    if items.len() == 0 {
        Seq::empty()
    } else {
        tags_of(items.drop_last()).push(tag_model_of(items.last()))
    }
}

fn tags_from_json(v: &serde_json::Value) -> (r: Vec<ResourceTag>)
    ensures
        r.deep_view() == tags_of(list_of(json_view(*v), "Tags"@)),
{
    let ghost tag_items = list_of(json_view(*v), "Tags"@);
    let mut tags: Vec<ResourceTag> = Vec::new();
    match array_field(v, "Tags") {
        Some(arr) => {
            let ghost items = views_of(arr@);
            proof {
                assert(items.take(0) =~= Seq::<JsonModel>::empty());
                assert(tags.deep_view() =~= tags_of(items.take(0)));
            }
            let mut i: usize = 0;
            while i < arr.len()
                invariant
                    i <= arr.len(),
                    items == views_of(arr@),
                    items.len() == arr.len(),
                    tags.deep_view() == tags_of(items.take(i as int)),
                decreases arr.len() - i,
            {
                proof {
                    assert(items.take(i + 1).drop_last() =~= items.take(i as int));
                    assert(items.take(i + 1).last() == items[i as int]);
                    assert(items[i as int] == json_view(arr@[i as int]));
                }
                let tag = ResourceTag {
                    key: field_str(&arr[i], "Key"),
                    value: field_str(&arr[i], "Value"),
                };
                let ghost pre = tags.deep_view();
                let ghost tag_view = tag@;
                tags.push(tag);
                proof {
                    assert(tags.deep_view() =~= pre.push(tag_view));
                    assert(tags.deep_view() =~= tags_of(items.take(i + 1)));
                }
                i = i + 1;
            }
            proof {
                assert(items.take(items.len() as int) =~= items);
            }
        },
        None => {
            proof {
                assert(tags.deep_view() =~= tags_of(tag_items));
            }
        },
    }
    tags
}

/// What one instance record decodes to; the lifecycle state sits in a
/// nested object, and the name comes from the first "Name" tag.
pub open spec fn instance_model_of(m: JsonModel) -> InstanceModel {
    InstanceModel {
        id: field_or(field_str_model(m, "InstanceId"@), "unknown"@),
        state: field_or(
            (match field_of(m, "State"@) {
                Some(sm) => field_str_model(sm, "Name"@),
                None => None,
            }),
            "unknown"@,
        ),
        private_ip: field_str_model(m, "PrivateIpAddress"@),
        instance_type: field_or(field_str_model(m, "InstanceType"@), "unknown"@),
        name: name_from_tags_model(tags_of(list_of(m, "Tags"@))),
        subnet_id: field_or(field_str_model(m, "SubnetId"@), "unknown"@),
        vpc_id: field_or(field_str_model(m, "VpcId"@), "unknown"@),
    }
}

pub fn instance_from_json(v: &serde_json::Value) -> (r: InstanceResource)
    ensures
        r@ == instance_model_of(json_view(*v)),
{
    let state = match json_get(v, "State") {
        Some(s) => field_str(s, "Name"),
        None => None,
    };
    let tags = tags_from_json(v);
    decode_instance(
        field_str(v, "InstanceId"),
        state,
        field_str(v, "PrivateIpAddress"),
        field_str(v, "InstanceType"),
        &tags,
        field_str(v, "SubnetId"),
        field_str(v, "VpcId"),
    )
}

pub open spec fn transit_gateway_model_of(m: JsonModel) -> TransitGatewayModel {
    TransitGatewayModel {
        id: field_or(field_str_model(m, "TransitGatewayId"@), "unknown"@),
        state: field_or(field_str_model(m, "State"@), "unknown"@),
    }
}

pub fn transit_gateway_from_json(v: &serde_json::Value) -> (r: TransitGateway)
    ensures
        r@ == transit_gateway_model_of(json_view(*v)),
{
    decode_transit_gateway(field_str(v, "TransitGatewayId"), field_str(v, "State"))
}

pub open spec fn tgw_attachment_model_of(m: JsonModel) -> TgwAttachmentModel {
    TgwAttachmentModel {
        id: field_or(field_str_model(m, "TransitGatewayAttachmentId"@), "unknown"@),
        tgw_id: field_or(field_str_model(m, "TransitGatewayId"@), "unknown"@),
        resource_id: field_or(field_str_model(m, "ResourceId"@), "unknown"@),
        state: field_or(field_str_model(m, "State"@), "unknown"@),
    }
}

pub fn tgw_attachment_from_json(v: &serde_json::Value) -> (r: TgwAttachment)
    ensures
        r@ == tgw_attachment_model_of(json_view(*v)),
{
    decode_tgw_attachment(
        field_str(v, "TransitGatewayAttachmentId"),
        field_str(v, "TransitGatewayId"),
        field_str(v, "ResourceId"),
        field_str(v, "State"),
    )
}

pub open spec fn ip_range_model_of(m: JsonModel) -> IpRangeModel {
    IpRangeModel {
        cidr: field_or(field_str_model(m, "CidrIp"@), "unknown"@),
        description: field_or(field_str_model(m, "Description"@), ""@),
    }
}

pub open spec fn ip_ranges_of(items: Seq<JsonModel>) -> Seq<IpRangeModel>
    decreases items.len(),
{
    if items.len() == 0 {
        Seq::empty()
    } else {
        ip_ranges_of(items.drop_last()).push(ip_range_model_of(items.last()))
    }
}

pub open spec fn group_ids_of(items: Seq<JsonModel>) -> Seq<Seq<char>>
    decreases items.len(),
{
    if items.len() == 0 {
        Seq::empty()
    } else {
        group_ids_of(items.drop_last()).push(
            field_or(field_str_model(items.last(), "GroupId"@), "unknown"@),
        )
    }
}

/// What one ingress or egress rule record decodes to: a missing
/// protocol reads as all protocols, and a port pair counts only when
/// both ends are present.
pub open spec fn rule_model_of(m: JsonModel) -> IngressRuleModel {
    IngressRuleModel {
        protocol: field_or(field_str_model(m, "IpProtocol"@), "-1"@),
        ports: (match (field_i64_model(m, "FromPort"@), field_i64_model(m, "ToPort"@)) {
            (Some(f), Some(t)) => Some((f as int, t as int)),
            _ => None,
        }),
        sources: ip_ranges_of(list_of(m, "IpRanges"@)),
        group_sources: group_ids_of(list_of(m, "UserIdGroupPairs"@)),
    }
}

pub open spec fn rules_of(items: Seq<JsonModel>) -> Seq<IngressRuleModel>
    decreases items.len(),
{
    if items.len() == 0 {
        Seq::empty()
    } else {
        rules_of(items.drop_last()).push(rule_model_of(items.last()))
    }
}

fn ingress_rule_from_json(v: &serde_json::Value) -> (r: IngressRule)
    ensures
        r@ == rule_model_of(json_view(*v)),
{
    let protocol = string_or(field_str(v, "IpProtocol"), "-1");
    let ports = decode_ports(field_i64(v, "FromPort"), field_i64(v, "ToPort"));
    let ghost range_items = list_of(json_view(*v), "IpRanges"@);
    let mut sources: Vec<IpRangeSource> = Vec::new();
    match array_field(v, "IpRanges") {
        Some(arr) => {
            let ghost items = views_of(arr@);
            proof {
                assert(items.take(0) =~= Seq::<JsonModel>::empty());
                assert(sources.deep_view() =~= ip_ranges_of(items.take(0)));
            }
            let mut i: usize = 0;
            while i < arr.len()
                invariant
                    i <= arr.len(),
                    items == views_of(arr@),
                    items.len() == arr.len(),
                    sources.deep_view() == ip_ranges_of(items.take(i as int)),
                decreases arr.len() - i,
            {
                proof {
                    assert(items.take(i + 1).drop_last() =~= items.take(i as int));
                    assert(items.take(i + 1).last() == items[i as int]);
                    assert(items[i as int] == json_view(arr@[i as int]));
                }
                let source = decode_ip_range(
                    field_str(&arr[i], "CidrIp"),
                    field_str(&arr[i], "Description"),
                );
                let ghost pre = sources.deep_view();
                let ghost source_view = source@;
                sources.push(source);
                proof {
                    assert(sources.deep_view() =~= pre.push(source_view));
                    assert(sources.deep_view() =~= ip_ranges_of(items.take(i + 1)));
                }
                i = i + 1;
            }
            proof {
                assert(items.take(items.len() as int) =~= items);
            }
        },
        None => {
            proof {
                assert(sources.deep_view() =~= ip_ranges_of(range_items));
            }
        },
    }
    let ghost pair_items = list_of(json_view(*v), "UserIdGroupPairs"@);
    let mut group_sources: Vec<String> = Vec::new();
    match array_field(v, "UserIdGroupPairs") {
        Some(arr) => {
            let ghost items = views_of(arr@);
            proof {
                assert(items.take(0) =~= Seq::<JsonModel>::empty());
                assert(group_sources.deep_view() =~= group_ids_of(items.take(0)));
            }
            let mut i: usize = 0;
            while i < arr.len()
                invariant
                    i <= arr.len(),
                    items == views_of(arr@),
                    items.len() == arr.len(),
                    group_sources.deep_view() == group_ids_of(items.take(i as int)),
                decreases arr.len() - i,
            {
                proof {
                    assert(items.take(i + 1).drop_last() =~= items.take(i as int));
                    assert(items.take(i + 1).last() == items[i as int]);
                    assert(items[i as int] == json_view(arr@[i as int]));
                }
                let gid = string_or(field_str(&arr[i], "GroupId"), "unknown");
                let ghost pre = group_sources.deep_view();
                let ghost gid_view = gid@;
                group_sources.push(gid);
                proof {
                    assert(group_sources.deep_view() =~= pre.push(gid_view));
                    assert(group_sources.deep_view() =~= group_ids_of(items.take(i + 1)));
                }
                i = i + 1;
            }
            proof {
                assert(items.take(items.len() as int) =~= items);
            }
        },
        None => {
            proof {
                assert(group_sources.deep_view() =~= group_ids_of(pair_items));
            }
        },
    }
    IngressRule { protocol, ports, sources, group_sources }
}

fn rules_from_json(v: &serde_json::Value, key: &str) -> (r: Vec<IngressRule>)
    ensures
        r.deep_view() == rules_of(list_of(json_view(*v), key@)),
{
    let ghost rule_items = list_of(json_view(*v), key@);
    let mut rules: Vec<IngressRule> = Vec::new();
    match array_field(v, key) {
        Some(arr) => {
            let ghost items = views_of(arr@);
            proof {
                assert(items.take(0) =~= Seq::<JsonModel>::empty());
                assert(rules.deep_view() =~= rules_of(items.take(0)));
            }
            let mut i: usize = 0;
            while i < arr.len()
                invariant
                    i <= arr.len(),
                    items == views_of(arr@),
                    items.len() == arr.len(),
                    rules.deep_view() == rules_of(items.take(i as int)),
                decreases arr.len() - i,
            {
                proof {
                    assert(items.take(i + 1).drop_last() =~= items.take(i as int));
                    assert(items.take(i + 1).last() == items[i as int]);
                    assert(items[i as int] == json_view(arr@[i as int]));
                }
                let rule = ingress_rule_from_json(&arr[i]);
                let ghost pre = rules.deep_view();
                let ghost rule_view = rule@;
                rules.push(rule);
                proof {
                    assert(rules.deep_view() =~= pre.push(rule_view));
                    assert(rules.deep_view() =~= rules_of(items.take(i + 1)));
                }
                i = i + 1;
            }
            proof {
                assert(items.take(items.len() as int) =~= items);
            }
        },
        None => {
            proof {
                assert(rules.deep_view() =~= rules_of(rule_items));
            }
        },
    }
    rules
}

/// What one security-group record decodes to; a missing owner network
/// stays absent, as with groups of the classic era.
pub open spec fn sg_model_of(m: JsonModel) -> SecurityGroupModel {
    SecurityGroupModel {
        id: field_or(field_str_model(m, "GroupId"@), "unknown"@),
        name: field_or(field_str_model(m, "GroupName"@), "unnamed"@),
        vpc_id: field_str_model(m, "VpcId"@),
        ingress: rules_of(list_of(m, "IpPermissions"@)),
        egress: rules_of(list_of(m, "IpPermissionsEgress"@)),
    }
}

pub fn security_group_from_json(v: &serde_json::Value) -> (r: SecurityGroup)
    ensures
        r@ == sg_model_of(json_view(*v)),
{
    SecurityGroup {
        id: string_or(field_str(v, "GroupId"), "unknown"),
        name: string_or(field_str(v, "GroupName"), "unnamed"),
        vpc_id: field_str(v, "VpcId"),
        ingress: rules_from_json(v, "IpPermissions"),
        egress: rules_from_json(v, "IpPermissionsEgress"),
    }
}


// ------------------------------------------------------------------
// Document parsers
// ------------------------------------------------------------------
/// A document the boundary cannot read: the bytes are no JSON.
#[derive(Clone, Copy, Debug, PartialEq, Eq, Structural)]
pub enum ParseError {
    InvalidJson,
}

pub open spec fn vpcs_of(items: Seq<JsonModel>) -> Seq<VpcModel>
    decreases items.len(),
{
    if items.len() == 0 {
        Seq::empty()
    } else {
        vpcs_of(items.drop_last()).push(vpc_model_of(items.last()))
    }
}

pub open spec fn subnets_of(items: Seq<JsonModel>) -> Seq<SubnetModel>
    decreases items.len(),
{
    if items.len() == 0 {
        Seq::empty()
    } else {
        subnets_of(items.drop_last()).push(subnet_model_of(items.last()))
    }
}

pub open spec fn route_tables_of(items: Seq<JsonModel>) -> Seq<RouteTableModel>
    decreases items.len(),
{
    if items.len() == 0 {
        Seq::empty()
    } else {
        route_tables_of(items.drop_last()).push(route_table_model_of(items.last()))
    }
}

pub open spec fn instances_of(items: Seq<JsonModel>) -> Seq<InstanceModel>
    decreases items.len(),
{
    if items.len() == 0 {
        Seq::empty()
    } else {
        instances_of(items.drop_last()).push(instance_model_of(items.last()))
    }
}

/// Each reservation's instances, flattened in reservation order.
pub open spec fn reservations_instances_of(items: Seq<JsonModel>) -> Seq<InstanceModel>
    decreases items.len(),
{
    if items.len() == 0 {
        Seq::empty()
    } else {
        reservations_instances_of(items.drop_last()) + instances_of(
            list_of(items.last(), "Instances"@),
        )
    }
}

pub open spec fn transit_gateways_of(items: Seq<JsonModel>) -> Seq<TransitGatewayModel>
    decreases items.len(),
{
    if items.len() == 0 {
        Seq::empty()
    } else {
        transit_gateways_of(items.drop_last()).push(transit_gateway_model_of(items.last()))
    }
}

pub open spec fn tgw_attachments_of(items: Seq<JsonModel>) -> Seq<TgwAttachmentModel>
    decreases items.len(),
{
    if items.len() == 0 {
        Seq::empty()
    } else {
        tgw_attachments_of(items.drop_last()).push(tgw_attachment_model_of(items.last()))
    }
}

pub open spec fn sgs_of(items: Seq<JsonModel>) -> Seq<SecurityGroupModel>
    decreases items.len(),
{
    if items.len() == 0 {
        Seq::empty()
    } else {
        sgs_of(items.drop_last()).push(sg_model_of(items.last()))
    }
}

/// The networks of a listing document: the decode of its "Vpcs"
/// array, in document order; a listing without the field reads as
/// empty. Fails exactly when the bytes are not one JSON document.
pub fn parse_vpcs(bytes: &[u8]) -> (r: Result<Vec<VpcResource>, ParseError>)
    ensures
        (r is Ok) == (doc_of(bytes@) is Some),
        r is Err ==> r->Err_0 == ParseError::InvalidJson,
        r is Ok ==> r->Ok_0.deep_view() == vpcs_of(list_of(doc_of(bytes@)->0, "Vpcs"@)),
{
    let doc = match parse_json_bytes(bytes) {
        Ok(d) => d,
        Err(_) => {
            return Err(ParseError::InvalidJson);
        },
    };
    let ghost doc_items = list_of(json_view(doc), "Vpcs"@);
    let mut out: Vec<VpcResource> = Vec::new();
    match array_field(&doc, "Vpcs") {
        Some(arr) => {
            let ghost items = views_of(arr@);
            proof {
                assert(items.take(0) =~= Seq::<JsonModel>::empty());
                assert(out.deep_view() =~= vpcs_of(items.take(0)));
            }
            let mut i: usize = 0;
            while i < arr.len()
                invariant
                    i <= arr.len(),
                    items == views_of(arr@),
                    items.len() == arr.len(),
                    out.deep_view() == vpcs_of(items.take(i as int)),
                decreases arr.len() - i,
            {
                proof {
                    assert(items.take(i + 1).drop_last() =~= items.take(i as int));
                    assert(items.take(i + 1).last() == items[i as int]);
                    assert(items[i as int] == json_view(arr@[i as int]));
                }
                let vpc = vpc_from_json(&arr[i]);
                let ghost pre = out.deep_view();
                let ghost vpc_view = vpc@;
                out.push(vpc);
                proof {
                    assert(out.deep_view() =~= pre.push(vpc_view));
                    assert(out.deep_view() =~= vpcs_of(items.take(i + 1)));
                }
                i = i + 1;
            }
            proof {
                assert(items.take(items.len() as int) =~= items);
            }
        },
        None => {
            proof {
                assert(out.deep_view() =~= vpcs_of(doc_items));
            }
        },
    }
    Ok(out)
}

/// The subnets of a listing document, under "Subnets". Fails exactly
/// when the bytes are not one JSON document.
pub fn parse_subnets(bytes: &[u8]) -> (r: Result<Vec<SubnetResource>, ParseError>)
    ensures
        (r is Ok) == (doc_of(bytes@) is Some),
        r is Err ==> r->Err_0 == ParseError::InvalidJson,
        r is Ok ==> r->Ok_0.deep_view() == subnets_of(list_of(doc_of(bytes@)->0, "Subnets"@)),
{
    let doc = match parse_json_bytes(bytes) {
        Ok(d) => d,
        Err(_) => {
            return Err(ParseError::InvalidJson);
        },
    };
    let ghost doc_items = list_of(json_view(doc), "Subnets"@);
    let mut out: Vec<SubnetResource> = Vec::new();
    match array_field(&doc, "Subnets") {
        Some(arr) => {
            let ghost items = views_of(arr@);
            proof {
                assert(items.take(0) =~= Seq::<JsonModel>::empty());
                assert(out.deep_view() =~= subnets_of(items.take(0)));
            }
            let mut i: usize = 0;
            while i < arr.len()
                invariant
                    i <= arr.len(),
                    items == views_of(arr@),
                    items.len() == arr.len(),
                    out.deep_view() == subnets_of(items.take(i as int)),
                decreases arr.len() - i,
            {
                proof {
                    assert(items.take(i + 1).drop_last() =~= items.take(i as int));
                    assert(items.take(i + 1).last() == items[i as int]);
                    assert(items[i as int] == json_view(arr@[i as int]));
                }
                let subnet = subnet_from_json(&arr[i]);
                let ghost pre = out.deep_view();
                let ghost subnet_view = subnet@;
                out.push(subnet);
                proof {
                    assert(out.deep_view() =~= pre.push(subnet_view));
                    assert(out.deep_view() =~= subnets_of(items.take(i + 1)));
                }
                i = i + 1;
            }
            proof {
                assert(items.take(items.len() as int) =~= items);
            }
        },
        None => {
            proof {
                assert(out.deep_view() =~= subnets_of(doc_items));
            }
        },
    }
    Ok(out)
}

/// The route tables of a listing document, under "RouteTables".
/// Fails exactly when the bytes are not one JSON document.
pub fn parse_route_tables(bytes: &[u8]) -> (r: Result<Vec<RouteTableResource>, ParseError>)
    ensures
        (r is Ok) == (doc_of(bytes@) is Some),
        r is Err ==> r->Err_0 == ParseError::InvalidJson,
        r is Ok ==> r->Ok_0.deep_view() == route_tables_of(
            list_of(doc_of(bytes@)->0, "RouteTables"@),
        ),
{
    let doc = match parse_json_bytes(bytes) {
        Ok(d) => d,
        Err(_) => {
            return Err(ParseError::InvalidJson);
        },
    };
    let ghost doc_items = list_of(json_view(doc), "RouteTables"@);
    let mut out: Vec<RouteTableResource> = Vec::new();
    match array_field(&doc, "RouteTables") {
        Some(arr) => {
            let ghost items = views_of(arr@);
            proof {
                assert(items.take(0) =~= Seq::<JsonModel>::empty());
                assert(out.deep_view() =~= route_tables_of(items.take(0)));
            }
            let mut i: usize = 0;
            while i < arr.len()
                invariant
                    i <= arr.len(),
                    items == views_of(arr@),
                    items.len() == arr.len(),
                    out.deep_view() == route_tables_of(items.take(i as int)),
                decreases arr.len() - i,
            {
                proof {
                    assert(items.take(i + 1).drop_last() =~= items.take(i as int));
                    assert(items.take(i + 1).last() == items[i as int]);
                    assert(items[i as int] == json_view(arr@[i as int]));
                }
                let table = route_table_from_json(&arr[i]);
                let ghost pre = out.deep_view();
                let ghost table_view = table@;
                out.push(table);
                proof {
                    assert(out.deep_view() =~= pre.push(table_view));
                    assert(out.deep_view() =~= route_tables_of(items.take(i + 1)));
                }
                i = i + 1;
            }
            proof {
                assert(items.take(items.len() as int) =~= items);
            }
        },
        None => {
            proof {
                assert(out.deep_view() =~= route_tables_of(doc_items));
            }
        },
    }
    Ok(out)
}

/// The instances of a listing document: each reservation's instances
/// under "Reservations", flattened in document order. Fails exactly
/// when the bytes are not one JSON document.
pub fn parse_instances(bytes: &[u8]) -> (r: Result<Vec<InstanceResource>, ParseError>)
    ensures
        (r is Ok) == (doc_of(bytes@) is Some),
        r is Err ==> r->Err_0 == ParseError::InvalidJson,
        r is Ok ==> r->Ok_0.deep_view() == reservations_instances_of(
            list_of(doc_of(bytes@)->0, "Reservations"@),
        ),
{
    let doc = match parse_json_bytes(bytes) {
        Ok(d) => d,
        Err(_) => {
            return Err(ParseError::InvalidJson);
        },
    };
    let ghost doc_items = list_of(json_view(doc), "Reservations"@);
    let mut out: Vec<InstanceResource> = Vec::new();
    match array_field(&doc, "Reservations") {
        Some(reservations) => {
            let ghost res_items = views_of(reservations@);
            proof {
                assert(res_items.take(0) =~= Seq::<JsonModel>::empty());
                assert(out.deep_view() =~= reservations_instances_of(res_items.take(0)));
            }
            let mut i: usize = 0;
            while i < reservations.len()
                invariant
                    i <= reservations.len(),
                    res_items == views_of(reservations@),
                    res_items.len() == reservations.len(),
                    out.deep_view() == reservations_instances_of(res_items.take(i as int)),
                decreases reservations.len() - i,
            {
                proof {
                    assert(res_items.take(i + 1).drop_last() =~= res_items.take(i as int));
                    assert(res_items.take(i + 1).last() == res_items[i as int]);
                    assert(res_items[i as int] == json_view(reservations@[i as int]));
                }
                let ghost inst_items = list_of(res_items[i as int], "Instances"@);
                let ghost pre_res = out.deep_view();
                match array_field(&reservations[i], "Instances") {
                    Some(arr) => {
                        let ghost items = views_of(arr@);
                        proof {
                            assert(items.take(0) =~= Seq::<JsonModel>::empty());
                            assert(out.deep_view() =~= pre_res + instances_of(items.take(0)));
                        }
                        let mut j: usize = 0;
                        while j < arr.len()
                            invariant
                                j <= arr.len(),
                                items == views_of(arr@),
                                items.len() == arr.len(),
                                out.deep_view() == pre_res + instances_of(items.take(j as int)),
                            decreases arr.len() - j,
                        {
                            proof {
                                assert(items.take(j + 1).drop_last() =~= items.take(j as int));
                                assert(items.take(j + 1).last() == items[j as int]);
                                assert(items[j as int] == json_view(arr@[j as int]));
                            }
                            let instance = instance_from_json(&arr[j]);
                            let ghost pre = out.deep_view();
                            let ghost instance_view = instance@;
                            out.push(instance);
                            proof {
                                assert(out.deep_view() =~= pre.push(instance_view));
                                assert(out.deep_view() =~= pre_res + instances_of(
                                    items.take(j + 1),
                                ));
                            }
                            j = j + 1;
                        }
                        proof {
                            assert(items.take(items.len() as int) =~= items);
                        }
                    },
                    None => {
                        proof {
                            assert(instances_of(inst_items) =~= Seq::<InstanceModel>::empty());
                            assert(out.deep_view() =~= pre_res + instances_of(inst_items));
                        }
                    },
                }
                i = i + 1;
            }
            proof {
                assert(res_items.take(res_items.len() as int) =~= res_items);
            }
        },
        None => {
            proof {
                assert(out.deep_view() =~= reservations_instances_of(doc_items));
            }
        },
    }
    Ok(out)
}

/// The transit gateways of a listing document, under
/// "TransitGateways". Fails exactly when the bytes are not one JSON
/// document.
pub fn parse_transit_gateways(bytes: &[u8]) -> (r: Result<Vec<TransitGateway>, ParseError>)
    ensures
        (r is Ok) == (doc_of(bytes@) is Some),
        r is Err ==> r->Err_0 == ParseError::InvalidJson,
        r is Ok ==> r->Ok_0.deep_view() == transit_gateways_of(
            list_of(doc_of(bytes@)->0, "TransitGateways"@),
        ),
{
    let doc = match parse_json_bytes(bytes) {
        Ok(d) => d,
        Err(_) => {
            return Err(ParseError::InvalidJson);
        },
    };
    let ghost doc_items = list_of(json_view(doc), "TransitGateways"@);
    let mut out: Vec<TransitGateway> = Vec::new();
    match array_field(&doc, "TransitGateways") {
        Some(arr) => {
            let ghost items = views_of(arr@);
            proof {
                assert(items.take(0) =~= Seq::<JsonModel>::empty());
                assert(out.deep_view() =~= transit_gateways_of(items.take(0)));
            }
            let mut i: usize = 0;
            while i < arr.len()
                invariant
                    i <= arr.len(),
                    items == views_of(arr@),
                    items.len() == arr.len(),
                    out.deep_view() == transit_gateways_of(items.take(i as int)),
                decreases arr.len() - i,
            {
                proof {
                    assert(items.take(i + 1).drop_last() =~= items.take(i as int));
                    assert(items.take(i + 1).last() == items[i as int]);
                    assert(items[i as int] == json_view(arr@[i as int]));
                }
                let tgw = transit_gateway_from_json(&arr[i]);
                let ghost pre = out.deep_view();
                let ghost tgw_view = tgw@;
                out.push(tgw);
                proof {
                    assert(out.deep_view() =~= pre.push(tgw_view));
                    assert(out.deep_view() =~= transit_gateways_of(items.take(i + 1)));
                }
                i = i + 1;
            }
            proof {
                assert(items.take(items.len() as int) =~= items);
            }
        },
        None => {
            proof {
                assert(out.deep_view() =~= transit_gateways_of(doc_items));
            }
        },
    }
    Ok(out)
}

/// The attachments of a listing document, under
/// "TransitGatewayAttachments". Fails exactly when the bytes are not
/// one JSON document.
pub fn parse_tgw_attachments(bytes: &[u8]) -> (r: Result<Vec<TgwAttachment>, ParseError>)
    ensures
        (r is Ok) == (doc_of(bytes@) is Some),
        r is Err ==> r->Err_0 == ParseError::InvalidJson,
        r is Ok ==> r->Ok_0.deep_view() == tgw_attachments_of(
            list_of(doc_of(bytes@)->0, "TransitGatewayAttachments"@),
        ),
{
    let doc = match parse_json_bytes(bytes) {
        Ok(d) => d,
        Err(_) => {
            return Err(ParseError::InvalidJson);
        },
    };
    let ghost doc_items = list_of(json_view(doc), "TransitGatewayAttachments"@);
    let mut out: Vec<TgwAttachment> = Vec::new();
    match array_field(&doc, "TransitGatewayAttachments") {
        Some(arr) => {
            let ghost items = views_of(arr@);
            proof {
                assert(items.take(0) =~= Seq::<JsonModel>::empty());
                assert(out.deep_view() =~= tgw_attachments_of(items.take(0)));
            }
            let mut i: usize = 0;
            while i < arr.len()
                invariant
                    i <= arr.len(),
                    items == views_of(arr@),
                    items.len() == arr.len(),
                    out.deep_view() == tgw_attachments_of(items.take(i as int)),
                decreases arr.len() - i,
            {
                proof {
                    assert(items.take(i + 1).drop_last() =~= items.take(i as int));
                    assert(items.take(i + 1).last() == items[i as int]);
                    assert(items[i as int] == json_view(arr@[i as int]));
                }
                let att = tgw_attachment_from_json(&arr[i]);
                let ghost pre = out.deep_view();
                let ghost att_view = att@;
                out.push(att);
                proof {
                    assert(out.deep_view() =~= pre.push(att_view));
                    assert(out.deep_view() =~= tgw_attachments_of(items.take(i + 1)));
                }
                i = i + 1;
            }
            proof {
                assert(items.take(items.len() as int) =~= items);
            }
        },
        None => {
            proof {
                assert(out.deep_view() =~= tgw_attachments_of(doc_items));
            }
        },
    }
    Ok(out)
}

/// The security groups of a listing document, under
/// "SecurityGroups". Fails exactly when the bytes are not one JSON
/// document.
pub fn parse_security_groups(bytes: &[u8]) -> (r: Result<Vec<SecurityGroup>, ParseError>)
    ensures
        (r is Ok) == (doc_of(bytes@) is Some),
        r is Err ==> r->Err_0 == ParseError::InvalidJson,
        r is Ok ==> r->Ok_0.deep_view() == sgs_of(list_of(doc_of(bytes@)->0, "SecurityGroups"@)),
{
    let doc = match parse_json_bytes(bytes) {
        Ok(d) => d,
        Err(_) => {
            return Err(ParseError::InvalidJson);
        },
    };
    let ghost doc_items = list_of(json_view(doc), "SecurityGroups"@);
    let mut out: Vec<SecurityGroup> = Vec::new();
    match array_field(&doc, "SecurityGroups") {
        Some(arr) => {
            let ghost items = views_of(arr@);
            proof {
                assert(items.take(0) =~= Seq::<JsonModel>::empty());
                assert(out.deep_view() =~= sgs_of(items.take(0)));
            }
            let mut i: usize = 0;
            while i < arr.len()
                invariant
                    i <= arr.len(),
                    items == views_of(arr@),
                    items.len() == arr.len(),
                    out.deep_view() == sgs_of(items.take(i as int)),
                decreases arr.len() - i,
            {
                proof {
                    assert(items.take(i + 1).drop_last() =~= items.take(i as int));
                    assert(items.take(i + 1).last() == items[i as int]);
                    assert(items[i as int] == json_view(arr@[i as int]));
                }
                let sg = security_group_from_json(&arr[i]);
                let ghost pre = out.deep_view();
                let ghost sg_view = sg@;
                out.push(sg);
                proof {
                    assert(out.deep_view() =~= pre.push(sg_view));
                    assert(out.deep_view() =~= sgs_of(items.take(i + 1)));
                }
                i = i + 1;
            }
            proof {
                assert(items.take(items.len() as int) =~= items);
            }
        },
        None => {
            proof {
                assert(out.deep_view() =~= sgs_of(doc_items));
            }
        },
    }
    Ok(out)
}

/// The groups the document's "SecurityGroups" array decodes to.
pub open spec fn document_groups(bytes: Seq<u8>) -> Seq<SecurityGroupModel> {
    sgs_of(list_of(doc_of(bytes)->0, "SecurityGroups"@))
}

/// The compliance check on one raw security-group document: it fails
/// exactly when the bytes are not one JSON document, and otherwise
/// yields the evaluation of the document's groups — the issue list
/// sorted by severity and the derived exit code.
pub fn check_compliance_from_json(bytes: &[u8], risky: &Vec<RiskPort>) -> (r: Result<
    (Vec<ComplianceIssue>, i32),
    ParseError,
>)
    ensures
        (r is Ok) == (doc_of(bytes@) is Some),
        r is Err ==> r->Err_0 == ParseError::InvalidJson,
        r is Ok ==> r->Ok_0.0.deep_view() == sorted_issues(
            discovered_issues(document_groups(bytes@), risky.deep_view()),
        ),
        r is Ok ==> r->Ok_0.1 == exit_code_model(
            discovered_issues(document_groups(bytes@), risky.deep_view()),
        ),
{
    let sgs = match parse_security_groups(bytes) {
        Ok(s) => s,
        Err(e) => {
            return Err(e);
        },
    };
    let result = evaluate(&sgs, risky);
    Ok(result)
}

} // verus!
