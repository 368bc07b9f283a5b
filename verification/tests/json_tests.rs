use netkit::compliance::default_risk_policy;
use netkit::json::{
    check_compliance_from_json, parse_instances, parse_route_tables, parse_security_groups,
    parse_subnets, parse_tgw_attachments, parse_transit_gateways, parse_vpcs, ParseError,
};
use netkit::model::Severity;

#[test]
fn invalid_bytes_are_reported_as_invalid_json() {
    let r = parse_vpcs(b"not json at all {{{");
    assert_eq!(r.unwrap_err(), ParseError::InvalidJson);
    let policy = default_risk_policy();
    let r = check_compliance_from_json(b"\"unterminated", &policy);
    assert_eq!(r.unwrap_err(), ParseError::InvalidJson);
}

#[test]
fn missing_top_level_key_decodes_to_nothing() {
    let vpcs = parse_vpcs(b"{}").unwrap();
    assert!(vpcs.is_empty());
    let subnets = parse_subnets(b"{\"Unrelated\": 3}").unwrap();
    assert!(subnets.is_empty());
}

#[test]
fn non_array_listing_field_decodes_to_nothing() {
    let sgs = parse_security_groups(b"{\"SecurityGroups\": 5}").unwrap();
    assert!(sgs.is_empty());
    let vpcs = parse_vpcs(b"[1, 2, 3]").unwrap();
    assert!(vpcs.is_empty());
}

#[test]
fn vpcs_and_subnets_decode_with_defaults() {
    let doc = br#"{
        "Vpcs": [
            {"VpcId": "vpc-1", "CidrBlock": "10.0.0.0/16", "IsDefault": true},
            {"CidrBlock": "10.1.0.0/16"}
        ]
    }"#;
    let vpcs = parse_vpcs(doc).unwrap();
    assert_eq!(vpcs.len(), 2);
    assert_eq!(vpcs[0].id, "vpc-1");
    assert!(vpcs[0].is_default);
    assert_eq!(vpcs[1].id, "unknown");
    assert!(!vpcs[1].is_default);

    let doc = br#"{
        "Subnets": [
            {"SubnetId": "subnet-1", "CidrBlock": "10.0.1.0/24",
             "AvailabilityZone": "us-east-1a", "AvailableIpAddressCount": 250,
             "VpcId": "vpc-1"},
            {}
        ]
    }"#;
    let subnets = parse_subnets(doc).unwrap();
    assert_eq!(subnets.len(), 2);
    assert_eq!(subnets[0].id, "subnet-1");
    assert_eq!(subnets[0].available_ip_count, 250);
    assert_eq!(subnets[1].id, "unknown");
    assert_eq!(subnets[1].available_ip_count, 0);
}

#[test]
fn route_tables_decode_associations_and_targets() {
    let doc = br#"{
        "RouteTables": [
            {
                "RouteTableId": "rtb-1",
                "VpcId": "vpc-1",
                "Associations": [
                    {"SubnetId": "subnet-1"},
                    {"Main": true},
                    {"SubnetId": "subnet-2"}
                ],
                "Routes": [
                    {"DestinationCidrBlock": "10.0.0.0/16"},
                    {"DestinationCidrBlock": "0.0.0.0/0", "GatewayId": "igw-9"},
                    {"DestinationPrefixListId": "pl-5", "TransitGatewayId": "tgw-3",
                     "State": "blackhole"}
                ]
            }
        ]
    }"#;
    let tables = parse_route_tables(doc).unwrap();
    assert_eq!(tables.len(), 1);
    let t = &tables[0];
    assert_eq!(t.id, "rtb-1");
    assert_eq!(t.subnet_associations, vec!["subnet-1", "subnet-2"]);
    assert_eq!(t.routes.len(), 3);
    assert_eq!(t.routes[0].target, "local");
    assert_eq!(t.routes[0].state, "active");
    assert_eq!(t.routes[1].target, "igw-9");
    assert_eq!(t.routes[2].destination, "pl-5");
    assert_eq!(t.routes[2].target, "tgw-3");
    assert_eq!(t.routes[2].state, "blackhole");
}

#[test]
fn instances_are_flattened_across_reservations() {
    let doc = br#"{
        "Reservations": [
            {"Instances": [
                {"InstanceId": "i-1", "State": {"Name": "running"},
                 "PrivateIpAddress": "10.0.1.10", "InstanceType": "t3.micro",
                 "Tags": [{"Key": "Name", "Value": "web-1"}],
                 "SubnetId": "subnet-1", "VpcId": "vpc-1"}
            ]},
            {"Instances": [
                {"InstanceId": "i-2", "State": {"Name": "stopped"},
                 "InstanceType": "m5.large",
                 "Tags": [{"Key": "Env", "Value": "prod"}]}
            ]}
        ]
    }"#;
    let instances = parse_instances(doc).unwrap();
    assert_eq!(instances.len(), 2);
    assert_eq!(instances[0].id, "i-1");
    assert_eq!(instances[0].state, "running");
    assert_eq!(instances[0].name, "web-1");
    assert_eq!(instances[0].private_ip.as_deref(), Some("10.0.1.10"));
    assert_eq!(instances[1].id, "i-2");
    assert_eq!(instances[1].name, "unnamed");
    assert_eq!(instances[1].private_ip, None);
    assert_eq!(instances[1].subnet_id, "unknown");
}

#[test]
fn transit_gateways_and_attachments_decode() {
    let doc = br#"{"TransitGateways": [{"TransitGatewayId": "tgw-1", "State": "available"}]}"#;
    let tgws = parse_transit_gateways(doc).unwrap();
    assert_eq!(tgws.len(), 1);
    assert_eq!(tgws[0].id, "tgw-1");
    assert_eq!(tgws[0].state, "available");

    let doc = br#"{
        "TransitGatewayAttachments": [
            {"TransitGatewayAttachmentId": "tgw-attach-1",
             "TransitGatewayId": "tgw-1",
             "ResourceId": "vpc-1", "State": "available"}
        ]
    }"#;
    let atts = parse_tgw_attachments(doc).unwrap();
    assert_eq!(atts.len(), 1);
    assert_eq!(atts[0].id, "tgw-attach-1");
    assert_eq!(atts[0].tgw_id, "tgw-1");
    assert_eq!(atts[0].resource_id, "vpc-1");
}

#[test]
fn security_group_document_evaluates_end_to_end() {
    let doc = br#"{
        "SecurityGroups": [
            {
                "GroupId": "sg-1",
                "GroupName": "web",
                "VpcId": "vpc-1",
                "IpPermissions": [
                    {
                        "IpProtocol": "tcp",
                        "FromPort": 22,
                        "ToPort": 22,
                        "IpRanges": [{"CidrIp": "0.0.0.0/0", "Description": "everyone"}],
                        "UserIdGroupPairs": [{"GroupId": "sg-2"}]
                    }
                ],
                "IpPermissionsEgress": []
            },
            {
                "GroupId": "sg-3",
                "GroupName": "legacy",
                "IpPermissions": [
                    {
                        "IpProtocol": "-1",
                        "IpRanges": [{"CidrIp": "0.0.0.0/0"}]
                    }
                ]
            }
        ]
    }"#;
    let sgs = parse_security_groups(doc).unwrap();
    assert_eq!(sgs.len(), 2);
    assert_eq!(sgs[0].id, "sg-1");
    assert_eq!(sgs[0].vpc_id.as_deref(), Some("vpc-1"));
    assert_eq!(sgs[0].ingress.len(), 1);
    assert_eq!(sgs[0].ingress[0].group_sources, vec!["sg-2"]);
    assert_eq!(sgs[1].vpc_id, None);
    assert_eq!(sgs[1].name, "legacy");
    assert!(sgs[1].ingress[0].ports.is_none());

    let policy = default_risk_policy();
    let (issues, code) = check_compliance_from_json(doc, &policy).unwrap();
    assert_eq!(issues.len(), 2);
    assert_eq!(issues[0].severity, Severity::Critical);
    assert_eq!(issues[0].sg_id, "sg-3");
    assert_eq!(issues[1].severity, Severity::High);
    assert_eq!(issues[1].sg_id, "sg-1");
    assert_eq!(issues[1].service.as_deref(), Some("SSH"));
    assert_eq!(code, 2);
}
