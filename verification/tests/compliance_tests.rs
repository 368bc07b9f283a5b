use netkit::compliance::{default_risk_policy, evaluate, exit_code, sort_issues};
use netkit::model::severity_rank_of;
use netkit::model::{
    ComplianceIssue, IngressRule, IpRangeSource, PortRange, RiskPort, SecurityGroup, Severity,
};

fn ip_source(cidr: &str) -> IpRangeSource {
    IpRangeSource {
        cidr: cidr.to_string(),
        description: String::new(),
    }
}

fn rule(protocol: &str, ports: Option<(i64, i64)>, cidrs: &[&str]) -> IngressRule {
    IngressRule {
        protocol: protocol.to_string(),
        ports: ports.map(|(from, to)| PortRange { from, to }),
        sources: cidrs.iter().map(|c| ip_source(c)).collect(),
        group_sources: Vec::new(),
    }
}

fn group(id: &str, name: &str, ingress: Vec<IngressRule>) -> SecurityGroup {
    SecurityGroup {
        id: id.to_string(),
        name: name.to_string(),
        vpc_id: Some("vpc-1".to_string()),
        ingress,
        egress: Vec::new(),
    }
}

#[test]
fn open_internet_ssh_is_one_high_issue() {
    let sgs = vec![group(
        "sg-1",
        "web",
        vec![rule("tcp", Some((22, 22)), &["0.0.0.0/0"])],
    )];
    let policy = default_risk_policy();
    let (issues, code) = evaluate(&sgs, &policy);
    assert_eq!(issues.len(), 1);
    assert_eq!(issues[0].severity, Severity::High);
    assert_eq!(issues[0].service.as_deref(), Some("SSH"));
    assert_eq!(issues[0].port, Some(22));
    assert_eq!(issues[0].source, "0.0.0.0/0");
    assert_eq!(issues[0].description, "SSH exposed to internet");
    assert_eq!(code, 1);
}

#[test]
fn broad_cidr_ssh_is_one_medium_issue() {
    let sgs = vec![group(
        "sg-1",
        "web",
        vec![rule("tcp", Some((22, 22)), &["10.0.0.0/8"])],
    )];
    let policy = default_risk_policy();
    let (issues, code) = evaluate(&sgs, &policy);
    assert_eq!(issues.len(), 1);
    assert_eq!(issues[0].severity, Severity::Medium);
    assert_eq!(issues[0].service.as_deref(), Some("SSH"));
    assert_eq!(issues[0].description, "SSH exposed to large CIDR block");
    assert_eq!(code, 0);
}

#[test]
fn sixteen_suffix_is_flagged_but_nine_is_not() {
    let policy = default_risk_policy();
    let sixteen = vec![group(
        "sg-1",
        "web",
        vec![rule("tcp", Some((22, 22)), &["172.16.0.0/16"])],
    )];
    let (issues, _) = evaluate(&sixteen, &policy);
    assert_eq!(issues.len(), 1);
    assert_eq!(issues[0].severity, Severity::Medium);

    let nine = vec![group(
        "sg-1",
        "web",
        vec![rule("tcp", Some((22, 22)), &["10.0.0.0/9"])],
    )];
    let (issues, code) = evaluate(&nine, &policy);
    assert!(issues.is_empty());
    assert_eq!(code, 0);
}

#[test]
fn critical_precedence_one_issue_even_over_risky_ports() {
    let sgs = vec![group(
        "sg-9",
        "wide-open",
        vec![rule("-1", Some((0, 65535)), &["0.0.0.0/0"])],
    )];
    let policy = default_risk_policy();
    let (issues, code) = evaluate(&sgs, &policy);
    assert_eq!(issues.len(), 1);
    assert_eq!(issues[0].severity, Severity::Critical);
    assert_eq!(issues[0].protocol, "ALL");
    assert_eq!(issues[0].port, None);
    assert_eq!(issues[0].description, "All traffic allowed from internet");
    assert_eq!(code, 2);
}

#[test]
fn all_ports_rule_without_range_gives_no_port_issues() {
    let sgs = vec![group(
        "sg-1",
        "web",
        vec![rule("tcp", None, &["0.0.0.0/0"])],
    )];
    let policy = default_risk_policy();
    let (issues, code) = evaluate(&sgs, &policy);
    assert!(issues.is_empty());
    assert_eq!(code, 0);
}

#[test]
fn group_to_group_sources_are_never_classified() {
    let mut r = rule("tcp", Some((22, 22)), &[]);
    r.group_sources = vec!["sg-other".to_string()];
    let sgs = vec![group("sg-1", "web", vec![r])];
    let policy = default_risk_policy();
    let (issues, code) = evaluate(&sgs, &policy);
    assert!(issues.is_empty());
    assert_eq!(code, 0);
}

#[test]
fn safe_cidr_gives_no_issue() {
    let sgs = vec![group(
        "sg-1",
        "web",
        vec![rule("tcp", Some((22, 22)), &["192.168.1.0/24"])],
    )];
    let policy = default_risk_policy();
    let (issues, code) = evaluate(&sgs, &policy);
    assert!(issues.is_empty());
    assert_eq!(code, 0);
}

#[test]
fn port_range_covering_several_risky_ports() {
    let sgs = vec![group(
        "sg-1",
        "db",
        vec![rule("tcp", Some((3000, 6000)), &["0.0.0.0/0"])],
    )];
    let policy = default_risk_policy();
    let (issues, code) = evaluate(&sgs, &policy);
    // 3306 MySQL, 3389 RDP and 5432 PostgreSQL fall inside, in policy order.
    assert_eq!(issues.len(), 3);
    assert_eq!(issues[0].service.as_deref(), Some("RDP"));
    assert_eq!(issues[1].service.as_deref(), Some("MySQL"));
    assert_eq!(issues[2].service.as_deref(), Some("PostgreSQL"));
    assert!(issues.iter().all(|i| i.severity == Severity::High));
    assert_eq!(code, 1);
}

#[test]
fn output_is_sorted_by_severity_and_stable_within_rank() {
    // Discovery order: MEDIUM (sg-a), HIGH (sg-b), CRITICAL (sg-c), HIGH (sg-d).
    let sgs = vec![
        group("sg-a", "a", vec![rule("tcp", Some((22, 22)), &["10.0.0.0/8"])]),
        group("sg-b", "b", vec![rule("tcp", Some((22, 22)), &["0.0.0.0/0"])]),
        group("sg-c", "c", vec![rule("-1", None, &["0.0.0.0/0"])]),
        group("sg-d", "d", vec![rule("tcp", Some((3389, 3389)), &["0.0.0.0/0"])]),
    ];
    let policy = default_risk_policy();
    let (issues, code) = evaluate(&sgs, &policy);
    assert_eq!(issues.len(), 4);
    let severities: Vec<Severity> = issues.iter().map(|i| i.severity).collect();
    assert_eq!(
        severities,
        vec![
            Severity::Critical,
            Severity::High,
            Severity::High,
            Severity::Medium
        ]
    );
    let ranks: Vec<u32> = issues.iter().map(|i| severity_rank_of(i.severity)).collect();
    assert!(ranks.windows(2).all(|w| w[0] <= w[1]));
    // Within HIGH, discovery order is preserved: sg-b before sg-d.
    assert_eq!(issues[1].sg_id, "sg-b");
    assert_eq!(issues[2].sg_id, "sg-d");
    assert_eq!(code, 2);
}

#[test]
fn exit_code_two_iff_critical_else_one_iff_high_else_zero() {
    let policy = default_risk_policy();

    let medium_only = vec![group(
        "sg-1",
        "m",
        vec![rule("tcp", Some((22, 22)), &["10.0.0.0/8"])],
    )];
    let (_, code) = evaluate(&medium_only, &policy);
    assert_eq!(code, 0);

    let high_no_critical = vec![group(
        "sg-1",
        "h",
        vec![rule("tcp", Some((22, 22)), &["0.0.0.0/0", "10.0.0.0/8"])],
    )];
    let (_, code) = evaluate(&high_no_critical, &policy);
    assert_eq!(code, 1);

    let with_critical = vec![group(
        "sg-1",
        "c",
        vec![
            rule("tcp", Some((22, 22)), &["0.0.0.0/0"]),
            rule("-1", None, &["0.0.0.0/0"]),
        ],
    )];
    let (_, code) = evaluate(&with_critical, &policy);
    assert_eq!(code, 2);

    let nothing: Vec<SecurityGroup> = Vec::new();
    let (issues, code) = evaluate(&nothing, &policy);
    assert!(issues.is_empty());
    assert_eq!(code, 0);
}

#[test]
fn evaluation_twice_on_same_input_is_identical() {
    let build = || {
        vec![
            group("sg-a", "a", vec![rule("tcp", Some((20, 30)), &["10.0.0.0/8"])]),
            group("sg-b", "b", vec![rule("-1", None, &["0.0.0.0/0"])]),
            group(
                "sg-c",
                "c",
                vec![rule("udp", Some((3306, 9200)), &["0.0.0.0/0"])],
            ),
        ]
    };
    let policy = default_risk_policy();
    let (issues1, code1) = evaluate(&build(), &policy);
    let (issues2, code2) = evaluate(&build(), &policy);
    assert_eq!(code1, code2);
    assert_eq!(issues1.len(), issues2.len());
    for (a, b) in issues1.iter().zip(issues2.iter()) {
        assert_eq!(a.severity, b.severity);
        assert_eq!(a.sg_id, b.sg_id);
        assert_eq!(a.sg_name, b.sg_name);
        assert_eq!(a.protocol, b.protocol);
        assert_eq!(a.port, b.port);
        assert_eq!(a.service, b.service);
        assert_eq!(a.source, b.source);
        assert_eq!(a.description, b.description);
    }
}

#[test]
fn substitute_policy_is_honoured() {
    let policy = vec![RiskPort {
        port: 8080,
        service: "AltHTTP".to_string(),
    }];
    let sgs = vec![group(
        "sg-1",
        "web",
        vec![rule("tcp", Some((8000, 9000)), &["0.0.0.0/0"])],
    )];
    let (issues, code) = evaluate(&sgs, &policy);
    assert_eq!(issues.len(), 1);
    assert_eq!(issues[0].service.as_deref(), Some("AltHTTP"));
    assert_eq!(issues[0].port, Some(8080));
    assert_eq!(code, 1);
}

#[test]
fn default_policy_lists_the_eight_services() {
    let policy = default_risk_policy();
    let pairs: Vec<(i64, &str)> = policy
        .iter()
        .map(|p| (p.port, p.service.as_str()))
        .collect();
    assert_eq!(
        pairs,
        vec![
            (22, "SSH"),
            (3389, "RDP"),
            (3306, "MySQL"),
            (5432, "PostgreSQL"),
            (1433, "MSSQL"),
            (27017, "MongoDB"),
            (6379, "Redis"),
            (9200, "Elasticsearch"),
        ]
    );
}

#[test]
fn sort_and_exit_code_work_on_prebuilt_lists() {
    let mk = |sev: Severity, tag: &str| ComplianceIssue {
        severity: sev,
        sg_id: tag.to_string(),
        sg_name: tag.to_string(),
        rule_type: "Ingress".to_string(),
        protocol: "tcp".to_string(),
        port: Some(22),
        service: Some("SSH".to_string()),
        source: "0.0.0.0/0".to_string(),
        description: "SSH exposed to internet".to_string(),
    };
    let issues = vec![
        mk(Severity::Medium, "m1"),
        mk(Severity::High, "h1"),
        mk(Severity::Medium, "m2"),
        mk(Severity::Critical, "c1"),
    ];
    assert_eq!(exit_code(&issues), 2);
    let sorted = sort_issues(issues);
    let order: Vec<(Severity, String)> = sorted
        .iter()
        .map(|i| (i.severity, i.sg_id.clone()))
        .collect();
    assert_eq!(
        order,
        vec![
            (Severity::Critical, "c1".to_string()),
            (Severity::High, "h1".to_string()),
            (Severity::Medium, "m1".to_string()),
            (Severity::Medium, "m2".to_string()),
        ]
    );
}
