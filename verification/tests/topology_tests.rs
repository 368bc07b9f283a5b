use netkit::model::{
    decode_instance, decode_ports, decode_route, decode_vpc, name_from_tags, InstanceResource,
    ResourceTag, Route, RouteTableResource, SubnetResource, VpcResource,
};
use netkit::topology::{assemble, classify_target, governing_table_of, used_by, TargetKind};

fn vpc(id: &str, cidr: &str) -> VpcResource {
    VpcResource {
        id: id.to_string(),
        cidr_block: cidr.to_string(),
        is_default: false,
    }
}

fn subnet(id: &str, cidr: &str, vpc_id: &str) -> SubnetResource {
    SubnetResource {
        id: id.to_string(),
        cidr_block: cidr.to_string(),
        availability_zone: "us-east-1a".to_string(),
        available_ip_count: 250,
        vpc_id: vpc_id.to_string(),
    }
}

fn route(dest: &str, target: &str) -> Route {
    Route {
        destination: dest.to_string(),
        target: target.to_string(),
        state: "active".to_string(),
    }
}

fn table(id: &str, vpc_id: &str, assocs: &[&str], routes: Vec<Route>) -> RouteTableResource {
    RouteTableResource {
        id: id.to_string(),
        vpc_id: vpc_id.to_string(),
        subnet_associations: assocs.iter().map(|s| s.to_string()).collect(),
        routes,
    }
}

fn instance(id: &str, state: &str, itype: &str, vpc_id: &str) -> InstanceResource {
    InstanceResource {
        id: id.to_string(),
        state: state.to_string(),
        private_ip: Some("10.0.1.10".to_string()),
        instance_type: itype.to_string(),
        name: "unnamed".to_string(),
        subnet_id: "subnet-1".to_string(),
        vpc_id: vpc_id.to_string(),
    }
}

#[test]
fn route_table_used_by_one_subnet_and_igw_classified() {
    let vpcs = vec![vpc("vpc-1", "10.0.0.0/16")];
    let subnets = vec![subnet("subnet-s", "10.0.1.0/24", "vpc-1")];
    let tables = vec![table(
        "rtb-1",
        "vpc-1",
        &["subnet-s"],
        vec![route("0.0.0.0/0", "igw-1"), route("10.0.0.0/16", "local")],
    )];
    let instances: Vec<InstanceResource> = Vec::new();
    let topo = assemble(&vpcs, &subnets, &tables, &instances);
    assert_eq!(topo.len(), 1);
    assert_eq!(topo[0].route_tables.len(), 1);
    let entry = &topo[0].route_tables[0];
    assert_eq!(entry.used_by.len(), 1);
    assert_eq!(entry.used_by[0], "subnet-s");
    assert_eq!(
        classify_target(entry.table.routes[0].target.as_str()),
        TargetKind::InternetGateway
    );
}

#[test]
fn classify_target_by_prefix() {
    assert_eq!(classify_target("igw-0a1b"), TargetKind::InternetGateway);
    assert_eq!(classify_target("nat-0a1b"), TargetKind::NatGateway);
    assert_eq!(classify_target("tgw-0a1b"), TargetKind::TransitGateway);
    assert_eq!(classify_target("local"), TargetKind::Local);
    assert_eq!(classify_target("eni-0a1b"), TargetKind::Other);
    assert_eq!(classify_target("pcx-123"), TargetKind::Other);
}

#[test]
fn later_association_wins_over_earlier() {
    let tables = vec![
        table("rtb-first", "vpc-1", &["subnet-s"], Vec::new()),
        table("rtb-second", "vpc-1", &["subnet-s"], Vec::new()),
    ];
    let governing = governing_table_of(&tables, "subnet-s");
    assert_eq!(governing.as_deref(), Some("rtb-second"));
    assert!(used_by(&tables, &"rtb-first".to_string()).is_empty());
    assert_eq!(
        used_by(&tables, &"rtb-second".to_string()),
        vec!["subnet-s".to_string()]
    );
}

#[test]
fn unassociated_table_is_still_reported_with_empty_used_by() {
    let vpcs = vec![vpc("vpc-1", "10.0.0.0/16")];
    let tables = vec![table("rtb-main", "vpc-1", &[], vec![route("10.0.0.0/16", "local")])];
    let subnets: Vec<SubnetResource> = Vec::new();
    let instances: Vec<InstanceResource> = Vec::new();
    let topo = assemble(&vpcs, &subnets, &tables, &instances);
    assert_eq!(topo[0].route_tables.len(), 1);
    assert!(topo[0].route_tables[0].used_by.is_empty());
}

#[test]
fn children_are_filtered_by_parent_network() {
    let vpcs = vec![vpc("vpc-1", "10.0.0.0/16"), vpc("vpc-2", "10.1.0.0/16")];
    let subnets = vec![
        subnet("subnet-a", "10.0.1.0/24", "vpc-1"),
        subnet("subnet-b", "10.1.1.0/24", "vpc-2"),
        subnet("subnet-orphan", "10.9.1.0/24", "vpc-gone"),
    ];
    let tables = vec![
        table("rtb-1", "vpc-1", &[], Vec::new()),
        table("rtb-2", "vpc-2", &[], Vec::new()),
    ];
    let instances = vec![
        instance("i-1", "running", "t3.micro", "vpc-1"),
        instance("i-2", "stopped", "t3.large", "vpc-2"),
    ];
    let topo = assemble(&vpcs, &subnets, &tables, &instances);
    assert_eq!(topo.len(), 2);
    assert_eq!(topo[0].vpc.id, "vpc-1");
    assert_eq!(topo[0].subnets.len(), 1);
    assert_eq!(topo[0].subnets[0].id, "subnet-a");
    assert_eq!(topo[0].route_tables.len(), 1);
    assert_eq!(topo[0].instances.len(), 1);
    assert_eq!(topo[0].instances[0].id, "i-1");
    assert_eq!(topo[1].vpc.id, "vpc-2");
    assert_eq!(topo[1].subnets[0].id, "subnet-b");
    // The orphan subnet is linked under no network.
    assert!(topo
        .iter()
        .all(|t| t.subnets.iter().all(|s| s.id != "subnet-orphan")));
}

#[test]
fn empty_collections_yield_a_partial_topology() {
    let vpcs = vec![vpc("vpc-1", "10.0.0.0/16")];
    let subnets: Vec<SubnetResource> = Vec::new();
    let tables: Vec<RouteTableResource> = Vec::new();
    let instances: Vec<InstanceResource> = Vec::new();
    let topo = assemble(&vpcs, &subnets, &tables, &instances);
    assert_eq!(topo.len(), 1);
    assert!(topo[0].subnets.is_empty());
    assert!(topo[0].route_tables.is_empty());
    assert!(topo[0].instances.is_empty());
}

#[test]
fn assembly_twice_on_same_input_is_identical() {
    let build = || {
        (
            vec![vpc("vpc-1", "10.0.0.0/16")],
            vec![subnet("subnet-a", "10.0.1.0/24", "vpc-1")],
            vec![table(
                "rtb-1",
                "vpc-1",
                &["subnet-a"],
                vec![route("0.0.0.0/0", "igw-1")],
            )],
            vec![instance("i-1", "running", "t3.micro", "vpc-1")],
        )
    };
    let (v1, s1, t1, i1) = build();
    let (v2, s2, t2, i2) = build();
    let a = assemble(&v1, &s1, &t1, &i1);
    let b = assemble(&v2, &s2, &t2, &i2);
    assert_eq!(a.len(), b.len());
    assert_eq!(a[0].vpc.id, b[0].vpc.id);
    assert_eq!(a[0].subnets.len(), b[0].subnets.len());
    assert_eq!(a[0].route_tables[0].used_by, b[0].route_tables[0].used_by);
    assert_eq!(a[0].instances[0].id, b[0].instances[0].id);
}

#[test]
fn route_target_resolution_takes_the_first_present_id() {
    let r = decode_route(
        Some("0.0.0.0/0".to_string()),
        None,
        Some("igw-1".to_string()),
        Some("nat-1".to_string()),
        None,
        None,
        None,
    );
    assert_eq!(r.target, "igw-1");
    assert_eq!(r.state, "active");

    let r = decode_route(
        Some("10.2.0.0/16".to_string()),
        None,
        None,
        None,
        Some("tgw-1".to_string()),
        None,
        Some("blackhole".to_string()),
    );
    assert_eq!(r.target, "tgw-1");
    assert_eq!(r.state, "blackhole");

    let r = decode_route(None, Some("pl-1234".to_string()), None, None, None, None, None);
    assert_eq!(r.destination, "pl-1234");
    assert_eq!(r.target, "local");

    let r = decode_route(None, None, None, None, None, None, None);
    assert_eq!(r.destination, "unknown");
    assert_eq!(r.target, "local");
}

#[test]
fn decode_defaults_for_missing_fields() {
    let v = decode_vpc(None, None, None);
    assert_eq!(v.id, "unknown");
    assert_eq!(v.cidr_block, "unknown");
    assert!(!v.is_default);

    let v = decode_vpc(Some("vpc-1".to_string()), Some("10.0.0.0/16".to_string()), Some(true));
    assert_eq!(v.id, "vpc-1");
    assert!(v.is_default);

    assert!(decode_ports(Some(22), None).is_none());
    assert!(decode_ports(None, Some(22)).is_none());
    assert!(decode_ports(None, None).is_none());
    let p = decode_ports(Some(22), Some(80)).unwrap();
    assert_eq!((p.from, p.to), (22, 80));
}

#[test]
fn instance_name_comes_from_the_name_tag() {
    let tags = vec![
        ResourceTag {
            key: Some("Env".to_string()),
            value: Some("prod".to_string()),
        },
        ResourceTag {
            key: Some("Name".to_string()),
            value: Some("bastion".to_string()),
        },
    ];
    assert_eq!(name_from_tags(&tags), "bastion");

    let no_name = vec![ResourceTag {
        key: Some("Env".to_string()),
        value: Some("prod".to_string()),
    }];
    assert_eq!(name_from_tags(&no_name), "unnamed");

    let name_without_value = vec![ResourceTag {
        key: Some("Name".to_string()),
        value: None,
    }];
    assert_eq!(name_from_tags(&name_without_value), "unnamed");

    let empty: Vec<ResourceTag> = Vec::new();
    assert_eq!(name_from_tags(&empty), "unnamed");

    let inst = decode_instance(
        Some("i-1".to_string()),
        None,
        None,
        None,
        &vec![ResourceTag {
            key: Some("Name".to_string()),
            value: Some("db-1".to_string()),
        }],
        None,
        None,
    );
    assert_eq!(inst.name, "db-1");
    assert_eq!(inst.state, "unknown");
    assert_eq!(inst.instance_type, "unknown");
    assert_eq!(inst.private_ip, None);
}
