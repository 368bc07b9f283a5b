use netkit::diff::{diff_vpcs, DiffError};
use netkit::model::{
    InstanceResource, Route, RouteTableResource, SubnetResource, VpcResource,
};

fn vpc(id: &str) -> VpcResource {
    VpcResource {
        id: id.to_string(),
        cidr_block: "10.0.0.0/16".to_string(),
        is_default: false,
    }
}

fn subnet(id: &str, cidr: &str, vpc_id: &str) -> SubnetResource {
    SubnetResource {
        id: id.to_string(),
        cidr_block: cidr.to_string(),
        availability_zone: "us-east-1a".to_string(),
        available_ip_count: 250,
        vpc_id: vpc_id.to_string(),
    }
}

fn instance(id: &str, state: &str, itype: &str) -> InstanceResource {
    InstanceResource {
        id: id.to_string(),
        state: state.to_string(),
        private_ip: None,
        instance_type: itype.to_string(),
        name: "unnamed".to_string(),
        subnet_id: "subnet-1".to_string(),
        vpc_id: "vpc-1".to_string(),
    }
}

fn table_with(dests: &[(&str, &str)]) -> RouteTableResource {
    RouteTableResource {
        id: "rtb-1".to_string(),
        vpc_id: "vpc-1".to_string(),
        subnet_associations: Vec::new(),
        routes: dests
            .iter()
            .map(|(d, t)| Route {
                destination: d.to_string(),
                target: t.to_string(),
                state: "active".to_string(),
            })
            .collect(),
    }
}

#[test]
fn subnet_scenario_two_against_two() {
    let vpcs = vec![vpc("vpc-1"), vpc("vpc-2")];
    let subnets1 = vec![
        subnet("s-1", "10.0.1.0/24", "vpc-1"),
        subnet("s-2", "10.0.2.0/24", "vpc-1"),
    ];
    let subnets2 = vec![
        subnet("s-3", "10.0.1.0/24", "vpc-2"),
        subnet("s-4", "10.0.3.0/24", "vpc-2"),
    ];
    let none_i: Vec<InstanceResource> = Vec::new();
    let none_r: Vec<RouteTableResource> = Vec::new();
    let report = diff_vpcs(
        &vpcs,
        &"vpc-1".to_string(),
        &"vpc-2".to_string(),
        &subnets1,
        &subnets2,
        &none_i,
        &none_i,
        &none_r,
        &none_r,
    )
    .unwrap();
    assert_eq!(report.subnet_count_a, 2);
    assert_eq!(report.subnet_count_b, 2);
    assert_eq!(report.subnets_only_a, vec!["10.0.2.0/24".to_string()]);
    assert_eq!(report.subnets_only_b, vec!["10.0.3.0/24".to_string()]);
}

#[test]
fn diff_is_symmetric_for_subnets() {
    let vpcs = vec![vpc("vpc-1"), vpc("vpc-2")];
    let subnets1 = vec![
        subnet("s-1", "10.0.1.0/24", "vpc-1"),
        subnet("s-2", "10.0.2.0/24", "vpc-1"),
        subnet("s-2b", "10.0.2.0/24", "vpc-1"),
    ];
    let subnets2 = vec![subnet("s-3", "10.0.1.0/24", "vpc-2")];
    let none_i: Vec<InstanceResource> = Vec::new();
    let none_r: Vec<RouteTableResource> = Vec::new();
    let ab = diff_vpcs(
        &vpcs,
        &"vpc-1".to_string(),
        &"vpc-2".to_string(),
        &subnets1,
        &subnets2,
        &none_i,
        &none_i,
        &none_r,
        &none_r,
    )
    .unwrap();
    let ba = diff_vpcs(
        &vpcs,
        &"vpc-2".to_string(),
        &"vpc-1".to_string(),
        &subnets2,
        &subnets1,
        &none_i,
        &none_i,
        &none_r,
        &none_r,
    )
    .unwrap();
    assert_eq!(ab.subnets_only_a, ba.subnets_only_b);
    assert_eq!(ab.subnets_only_b, ba.subnets_only_a);
    // The duplicate CIDR is reported once.
    assert_eq!(ab.subnets_only_a, vec!["10.0.2.0/24".to_string()]);
}

#[test]
fn missing_network_is_fatal() {
    let vpcs = vec![vpc("vpc-1")];
    let none_s: Vec<SubnetResource> = Vec::new();
    let none_i: Vec<InstanceResource> = Vec::new();
    let none_r: Vec<RouteTableResource> = Vec::new();
    let r = diff_vpcs(
        &vpcs,
        &"vpc-1".to_string(),
        &"vpc-missing".to_string(),
        &none_s,
        &none_s,
        &none_i,
        &none_i,
        &none_r,
        &none_r,
    );
    match r {
        Err(e) => assert_eq!(e, DiffError::VpcNotFound),
        Ok(_) => panic!("a missing network must be fatal"),
    }
}

#[test]
fn instance_tallies_and_distinct_types() {
    let vpcs = vec![vpc("vpc-1"), vpc("vpc-2")];
    let instances1 = vec![
        instance("i-1", "running", "t3.micro"),
        instance("i-2", "stopped", "t3.micro"),
        instance("i-3", "running", "m5.large"),
    ];
    let instances2 = vec![instance("i-4", "terminated", "c5.xlarge")];
    let none_s: Vec<SubnetResource> = Vec::new();
    let none_r: Vec<RouteTableResource> = Vec::new();
    let report = diff_vpcs(
        &vpcs,
        &"vpc-1".to_string(),
        &"vpc-2".to_string(),
        &none_s,
        &none_s,
        &instances1,
        &instances2,
        &none_r,
        &none_r,
    )
    .unwrap();
    assert_eq!(report.total_a, 3);
    assert_eq!(report.running_a, 2);
    assert_eq!(report.total_b, 1);
    assert_eq!(report.running_b, 0);
    assert_eq!(
        report.types_a,
        vec!["t3.micro".to_string(), "m5.large".to_string()]
    );
    assert_eq!(report.types_b, vec!["c5.xlarge".to_string()]);
}

#[test]
fn route_destinations_exclude_local_and_report_common() {
    let vpcs = vec![vpc("vpc-1"), vpc("vpc-2")];
    let rts1 = vec![table_with(&[
        ("10.0.0.0/16", "local"),
        ("0.0.0.0/0", "igw-1"),
        ("192.168.0.0/16", "tgw-1"),
    ])];
    let rts2 = vec![table_with(&[
        ("10.1.0.0/16", "local"),
        ("0.0.0.0/0", "igw-2"),
        ("172.16.0.0/12", "nat-1"),
    ])];
    let none_s: Vec<SubnetResource> = Vec::new();
    let none_i: Vec<InstanceResource> = Vec::new();
    let report = diff_vpcs(
        &vpcs,
        &"vpc-1".to_string(),
        &"vpc-2".to_string(),
        &none_s,
        &none_s,
        &none_i,
        &none_i,
        &rts1,
        &rts2,
    )
    .unwrap();
    assert_eq!(report.rt_count_a, 1);
    assert_eq!(report.rt_count_b, 1);
    assert_eq!(report.routes_only_a, vec!["192.168.0.0/16".to_string()]);
    assert_eq!(report.routes_only_b, vec!["172.16.0.0/12".to_string()]);
    assert_eq!(report.routes_common, vec!["0.0.0.0/0".to_string()]);
}
