//! The compliance evaluator: classifies security-group ingress rules
//! into severity-ranked issues under a fixed risk policy, orders the
//! issue list by severity, and derives the exit code.
use vstd::prelude::*;

verus! {

use crate::model::{
    ComplianceIssue,
    IngressRule,
    IngressRuleModel,
    IpRangeModel,
    IssueModel,
    PortRange,
    RiskPort,
    RiskPortModel,
    SecurityGroup,
    SecurityGroupModel,
    Severity,
    ports_model,
    severity_rank,
};
use crate::strutil::{is_suffix_of, str_eq, has_suffix};

// ------------------------------------------------------------------
// The policy's distinguished strings
// ------------------------------------------------------------------
/// The CIDR that denotes the entire internet.
pub open spec fn open_internet() -> Seq<char> {
    "0.0.0.0/0"@
}

/// The protocol string that denotes all protocols.
pub open spec fn all_protocols() -> Seq<char> {
    "-1"@
}

/// A broad block is recognised by a literal "/8" or "/16" suffix on the
/// CIDR string; a /9 or /15 is deliberately not flagged.
pub open spec fn is_broad_cidr(cidr: Seq<char>) -> bool {
    is_suffix_of("/8"@, cidr) || is_suffix_of("/16"@, cidr)
}

// ------------------------------------------------------------------
// Issue construction
// ------------------------------------------------------------------
pub open spec fn critical_issue_model(sg_id: Seq<char>, sg_name: Seq<char>, source: Seq<
    char,
>) -> IssueModel {
    IssueModel {
        severity: Severity::Critical,
        sg_id: sg_id,
        sg_name: sg_name,
        rule_type: "Ingress"@,
        protocol: "ALL"@,
        port: None,
        service: None,
        source: source,
        description: "All traffic allowed from internet"@,
    }
}

pub open spec fn risk_issue_model(
    sev: Severity,
    suffix: Seq<char>,
    sg_id: Seq<char>,
    sg_name: Seq<char>,
    protocol: Seq<char>,
    risk: RiskPortModel,
    source: Seq<char>,
) -> IssueModel {
    IssueModel {
        severity: sev,
        sg_id: sg_id,
        sg_name: sg_name,
        rule_type: "Ingress"@,
        protocol: protocol,
        port: Some(risk.port),
        service: Some(risk.service),
        source: source,
        description: risk.service + suffix,
    }
}

fn make_critical_issue(sg_id: &String, sg_name: &String, cidr: &String) -> (r: ComplianceIssue)
    ensures
        r@ == critical_issue_model(sg_id@, sg_name@, cidr@),
{
    ComplianceIssue {
        severity: Severity::Critical,
        sg_id: sg_id.clone(),
        sg_name: sg_name.clone(),
        rule_type: "Ingress".to_owned(),
        protocol: "ALL".to_owned(),
        port: None,
        service: None,
        source: cidr.clone(),
        description: "All traffic allowed from internet".to_owned(),
    }
}

fn make_risk_issue(
    sev: Severity,
    suffix: &str,
    sg_id: &String,
    sg_name: &String,
    protocol: &String,
    risk: &RiskPort,
    cidr: &String,
) -> (r: ComplianceIssue)
    ensures
        r@ == risk_issue_model(sev, suffix@, sg_id@, sg_name@, protocol@, risk@, cidr@),
{
    ComplianceIssue {
        severity: sev,
        sg_id: sg_id.clone(),
        sg_name: sg_name.clone(),
        rule_type: "Ingress".to_owned(),
        protocol: protocol.clone(),
        port: Some(risk.port),
        service: Some(risk.service.clone()),
        source: cidr.clone(),
        description: risk.service.clone().concat(suffix),
    }
}

// ------------------------------------------------------------------
// Classification, one source at a time
// ------------------------------------------------------------------
/// One issue per risky port that falls inside [from, to], in policy
/// order.
pub open spec fn port_issues(
    sev: Severity,
    suffix: Seq<char>,
    sg_id: Seq<char>,
    sg_name: Seq<char>,
    protocol: Seq<char>,
    from: int,
    to: int,
    source: Seq<char>,
    risky: Seq<RiskPortModel>,
) -> Seq<IssueModel>
    decreases risky.len(),
{
    if risky.len() == 0 {
        Seq::empty()
    } else {
        port_issues(sev, suffix, sg_id, sg_name, protocol, from, to, source, risky.drop_last()) + (
        if from <= risky.last().port && risky.last().port <= to {
            seq![risk_issue_model(sev, suffix, sg_id, sg_name, protocol, risky.last(), source)]
        } else {
            Seq::empty()
        })
    }
}

/// What a source open to the internet contributes: one CRITICAL issue
/// when the rule covers all protocols, else one HIGH issue per risky
/// port inside the rule's bounded port range.
pub open spec fn internet_exposure_issues(
    sg_id: Seq<char>,
    sg_name: Seq<char>,
    protocol: Seq<char>,
    ports: Option<(int, int)>,
    source: Seq<char>,
    risky: Seq<RiskPortModel>,
) -> Seq<IssueModel> {
    if protocol == all_protocols() {
        seq![critical_issue_model(sg_id, sg_name, source)]
    } else {
        match ports {
            Some(p) => port_issues(
                Severity::High,
                " exposed to internet"@,
                sg_id,
                sg_name,
                protocol,
                p.0,
                p.1,
                source,
                risky,
            ),
            None => Seq::empty(),
        }
    }
}

/// What a broad-block source contributes: one MEDIUM issue per risky
/// port inside the rule's bounded port range.
pub open spec fn broad_cidr_issues(
    sg_id: Seq<char>,
    sg_name: Seq<char>,
    protocol: Seq<char>,
    ports: Option<(int, int)>,
    source: Seq<char>,
    risky: Seq<RiskPortModel>,
) -> Seq<IssueModel> {
    match ports {
        Some(p) => port_issues(
            Severity::Medium,
            " exposed to large CIDR block"@,
            sg_id,
            sg_name,
            protocol,
            p.0,
            p.1,
            source,
            risky,
        ),
        None => Seq::empty(),
    }
}

/// The issues one IP-range source of a rule contributes.
pub open spec fn source_issues(
    sg_id: Seq<char>,
    sg_name: Seq<char>,
    protocol: Seq<char>,
    ports: Option<(int, int)>,
    cidr: Seq<char>,
    risky: Seq<RiskPortModel>,
) -> Seq<IssueModel> {
    if cidr == open_internet() {
        internet_exposure_issues(sg_id, sg_name, protocol, ports, cidr, risky)
    } else if is_broad_cidr(cidr) {
        broad_cidr_issues(sg_id, sg_name, protocol, ports, cidr, risky)
    } else {
        Seq::empty()
    }
}

/// The issues of a rule: the concatenation over its IP-range sources,
/// in rule order. Group-to-group sources are never risk-classified.
pub open spec fn sources_issues(
    sg_id: Seq<char>,
    sg_name: Seq<char>,
    protocol: Seq<char>,
    ports: Option<(int, int)>,
    sources: Seq<IpRangeModel>,
    risky: Seq<RiskPortModel>,
) -> Seq<IssueModel>
    decreases sources.len(),
{
    if sources.len() == 0 {
        Seq::empty()
    } else {
        sources_issues(sg_id, sg_name, protocol, ports, sources.drop_last(), risky)
            + source_issues(sg_id, sg_name, protocol, ports, sources.last().cidr, risky)
    }
}

pub open spec fn rule_issues(
    sg_id: Seq<char>,
    sg_name: Seq<char>,
    rule: IngressRuleModel,
    risky: Seq<RiskPortModel>,
) -> Seq<IssueModel> {
    sources_issues(sg_id, sg_name, rule.protocol, rule.ports, rule.sources, risky)
}

/// The issues of a group's ingress rules, in rule order.
pub open spec fn rules_issues(
    sg_id: Seq<char>,
    sg_name: Seq<char>,
    rules: Seq<IngressRuleModel>,
    risky: Seq<RiskPortModel>,
) -> Seq<IssueModel>
    decreases rules.len(),
{
    if rules.len() == 0 {
        Seq::empty()
    } else {
        rules_issues(sg_id, sg_name, rules.drop_last(), risky) + rule_issues(
            sg_id,
            sg_name,
            rules.last(),
            risky,
        )
    }
}

pub open spec fn sg_issues(sg: SecurityGroupModel, risky: Seq<RiskPortModel>) -> Seq<IssueModel> {
    rules_issues(sg.id, sg.name, sg.ingress, risky)
}

/// Every issue of a scan, in discovery order: group order, then rule
/// order, then source order.
pub open spec fn discovered_issues(sgs: Seq<SecurityGroupModel>, risky: Seq<RiskPortModel>) -> Seq<
    IssueModel,
>
    decreases sgs.len(),
{
    if sgs.len() == 0 {
        Seq::empty()
    } else {
        discovered_issues(sgs.drop_last(), risky) + sg_issues(sgs.last(), risky)
    }
}

// ------------------------------------------------------------------
// Ordering and exit code
// ------------------------------------------------------------------
pub open spec fn has_severity(sev: Severity) -> spec_fn(IssueModel) -> bool {
    |i: IssueModel| i.severity == sev
}

/// The issue list sorted by severity rank alone; within one rank the
/// discovery order is preserved.
pub open spec fn sorted_issues(s: Seq<IssueModel>) -> Seq<IssueModel> {
    s.filter(has_severity(Severity::Critical)) + s.filter(has_severity(Severity::High)) + s.filter(
        has_severity(Severity::Medium),
    ) + s.filter(has_severity(Severity::Other))
}

pub open spec fn has_issue_of(s: Seq<IssueModel>, sev: Severity) -> bool {
    exists|k: int| 0 <= k < s.len() && s[k].severity == sev
}

/// Exit code policy: 2 with any CRITICAL issue, else 1 with any HIGH
/// issue, else 0. MEDIUM-only findings never raise the code.
pub open spec fn exit_code_model(s: Seq<IssueModel>) -> int {
    if has_issue_of(s, Severity::Critical) {
        2
    } else if has_issue_of(s, Severity::High) {
        1
    } else {
        0
    }
}

// ------------------------------------------------------------------
// Executable evaluation
// ------------------------------------------------------------------
fn push_port_issues(
    issues: &mut Vec<ComplianceIssue>,
    sev: Severity,
    suffix: &str,
    sg_id: &String,
    sg_name: &String,
    protocol: &String,
    from: i64,
    to: i64,
    cidr: &String,
    risky: &Vec<RiskPort>,
)
    ensures
        final(issues).deep_view() == old(issues).deep_view() + port_issues(
            sev,
            suffix@,
            sg_id@,
            sg_name@,
            protocol@,
            from as int,
            to as int,
            cidr@,
            risky.deep_view(),
        ),
{
    let ghost base = issues.deep_view();
    let ghost rs = risky.deep_view();
    proof {
        assert(rs.take(0) =~= Seq::<RiskPortModel>::empty());
        assert(issues.deep_view() =~= base + port_issues(
            sev,
            suffix@,
            sg_id@,
            sg_name@,
            protocol@,
            from as int,
            to as int,
            cidr@,
            rs.take(0),
        ));
    }
    let mut i: usize = 0;
    while i < risky.len()
        invariant
            i <= risky.len(),
            rs == risky.deep_view(),
            rs.len() == risky.len(),
            issues.deep_view() == base + port_issues(
                sev,
                suffix@,
                sg_id@,
                sg_name@,
                protocol@,
                from as int,
                to as int,
                cidr@,
                rs.take(i as int),
            ),
        decreases risky.len() - i,
    {
        proof {
            assert(rs.take(i + 1).drop_last() =~= rs.take(i as int));
            assert(rs.take(i + 1).last() == rs[i as int]);
            assert(rs[i as int] == risky@[i as int]@);
        }
        let rp = &risky[i];
        if from <= rp.port && rp.port <= to {
            let issue = make_risk_issue(sev, suffix, sg_id, sg_name, protocol, rp, cidr);
            let ghost pre = issues.deep_view();
            issues.push(issue);
            proof {
                assert(issues.deep_view() =~= pre.push(issue@));
                assert(issues.deep_view() =~= base + port_issues(
                    sev,
                    suffix@,
                    sg_id@,
                    sg_name@,
                    protocol@,
                    from as int,
                    to as int,
                    cidr@,
                    rs.take(i + 1),
                ));
            }
        } else {
            proof {
                assert(issues.deep_view() =~= base + port_issues(
                    sev,
                    suffix@,
                    sg_id@,
                    sg_name@,
                    protocol@,
                    from as int,
                    to as int,
                    cidr@,
                    rs.take(i + 1),
                ));
            }
        }
        i = i + 1;
    }
    proof {
        assert(rs.take(rs.len() as int) =~= rs);
    }
}

/// Issues for a source open to the entire internet: a rule over all
/// protocols is one CRITICAL finding and nothing else; otherwise each
/// risky port inside the rule's concrete range is a HIGH finding.
pub fn check_internet_exposure(
    issues: &mut Vec<ComplianceIssue>,
    sg_id: &String,
    sg_name: &String,
    protocol: &String,
    ports: Option<PortRange>,
    cidr: &String,
    risky: &Vec<RiskPort>,
)
    ensures
        final(issues).deep_view() == old(issues).deep_view() + internet_exposure_issues(
            sg_id@,
            sg_name@,
            protocol@,
            ports_model(ports),
            cidr@,
            risky.deep_view(),
        ),
{
    if str_eq(protocol.as_str(), "-1") {
        let issue = make_critical_issue(sg_id, sg_name, cidr);
        let ghost pre = issues.deep_view();
        issues.push(issue);
        proof {
            assert(issues.deep_view() =~= pre.push(issue@));
            assert(pre.push(issue@) =~= pre + seq![issue@]);
        }
        return ;
    }
    match ports {
        Some(p) => {
            push_port_issues(
                issues,
                Severity::High,
                " exposed to internet",
                sg_id,
                sg_name,
                protocol,
                p.from,
                p.to,
                cidr,
                risky,
            );
        },
        None => {
            proof {
                assert(issues.deep_view() =~= issues.deep_view() + Seq::<IssueModel>::empty());
            }
        },
    }
}

/// Issues for a broad-block source: each risky port inside the rule's
/// concrete range is a MEDIUM finding.
pub fn check_broad_cidr(
    issues: &mut Vec<ComplianceIssue>,
    sg_id: &String,
    sg_name: &String,
    protocol: &String,
    ports: Option<PortRange>,
    cidr: &String,
    risky: &Vec<RiskPort>,
)
    ensures
        final(issues).deep_view() == old(issues).deep_view() + broad_cidr_issues(
            sg_id@,
            sg_name@,
            protocol@,
            ports_model(ports),
            cidr@,
            risky.deep_view(),
        ),
{
    match ports {
        Some(p) => {
            push_port_issues(
                issues,
                Severity::Medium,
                " exposed to large CIDR block",
                sg_id,
                sg_name,
                protocol,
                p.from,
                p.to,
                cidr,
                risky,
            );
        },
        None => {
            proof {
                assert(issues.deep_view() =~= issues.deep_view() + Seq::<IssueModel>::empty());
            }
        },
    }
}

/// Classifies every IP-range source of one ingress rule.
pub fn check_rule_compliance(
    issues: &mut Vec<ComplianceIssue>,
    sg_id: &String,
    sg_name: &String,
    rule: &IngressRule,
    risky: &Vec<RiskPort>,
)
    ensures
        final(issues).deep_view() == old(issues).deep_view() + rule_issues(
            sg_id@,
            sg_name@,
            rule@,
            risky.deep_view(),
        ),
{
    let ghost base = issues.deep_view();
    let ghost srcs = rule.sources.deep_view();
    proof {
        assert(srcs.take(0) =~= Seq::<IpRangeModel>::empty());
    }
    let mut i: usize = 0;
    while i < rule.sources.len()
        invariant
            i <= rule.sources.len(),
            srcs == rule.sources.deep_view(),
            srcs.len() == rule.sources.len(),
            issues.deep_view() == base + sources_issues(
                sg_id@,
                sg_name@,
                rule.protocol@,
                ports_model(rule.ports),
                srcs.take(i as int),
                risky.deep_view(),
            ),
        decreases rule.sources.len() - i,
    {
        proof {
            assert(srcs.take(i + 1).drop_last() =~= srcs.take(i as int));
            assert(srcs.take(i + 1).last() == srcs[i as int]);
            assert(srcs[i as int] == rule.sources@[i as int]@);
        }
        let cidr = &rule.sources[i].cidr;
        if str_eq(cidr.as_str(), "0.0.0.0/0") {
            check_internet_exposure(
                issues,
                sg_id,
                sg_name,
                &rule.protocol,
                rule.ports,
                cidr,
                risky,
            );
        } else if has_suffix(cidr.as_str(), "/8") || has_suffix(cidr.as_str(), "/16") {
            check_broad_cidr(issues, sg_id, sg_name, &rule.protocol, rule.ports, cidr, risky);
        } else {
            proof {
                assert(issues.deep_view() =~= issues.deep_view() + Seq::<IssueModel>::empty());
            }
        }
        i = i + 1;
    }
    proof {
        assert(srcs.take(srcs.len() as int) =~= srcs);
    }
}

impl ComplianceIssue {
    /// A field-for-field copy.
    pub fn duplicate(&self) -> (r: ComplianceIssue)
        ensures
            r@ == self@,
    {
        ComplianceIssue {
            severity: self.severity,
            sg_id: self.sg_id.clone(),
            sg_name: self.sg_name.clone(),
            rule_type: self.rule_type.clone(),
            protocol: self.protocol.clone(),
            port: self.port,
            service: match &self.service {
                Some(s) => Some(s.clone()),
                None => None,
            },
            source: self.source.clone(),
            description: self.description.clone(),
        }
    }
}

fn push_matching(out: &mut Vec<ComplianceIssue>, src: &Vec<ComplianceIssue>, sev: Severity)
    ensures
        final(out).deep_view() == old(out).deep_view() + src.deep_view().filter(has_severity(sev)),
{
    let ghost base = out.deep_view();
    let ghost dv = src.deep_view();
    proof {
        reveal(Seq::filter);
        assert(dv.take(0) =~= Seq::<IssueModel>::empty());
        assert(out.deep_view() =~= base + dv.take(0).filter(has_severity(sev)));
    }
    let mut i: usize = 0;
    while i < src.len()
        invariant
            i <= src.len(),
            dv == src.deep_view(),
            dv.len() == src.len(),
            out.deep_view() == base + dv.take(i as int).filter(has_severity(sev)),
        decreases src.len() - i,
    {
        proof {
            reveal(Seq::filter);
            assert(dv.take(i + 1).drop_last() =~= dv.take(i as int));
            assert(dv.take(i + 1).last() == dv[i as int]);
            assert(dv[i as int] == src@[i as int]@);
        }
        let matches_sev: bool = severity_rank_eq(src[i].severity, sev);
        if matches_sev {
            let c = src[i].duplicate();
            let ghost pre = out.deep_view();
            out.push(c);
            proof {
                assert(out.deep_view() =~= pre.push(c@));
                assert(out.deep_view() =~= base + dv.take(i + 1).filter(has_severity(sev)));
            }
        } else {
            proof {
                assert(out.deep_view() =~= base + dv.take(i + 1).filter(has_severity(sev)));
            }
        }
        i = i + 1;
    }
    proof {
        assert(dv.take(dv.len() as int) =~= dv);
    }
}

fn severity_rank_eq(a: Severity, b: Severity) -> (r: bool)
    ensures
        r == (a == b),
{
    a == b
}

/// Sorts issues by severity rank with four stable passes; within one
/// rank, the input order is preserved.
pub fn sort_issues(issues: Vec<ComplianceIssue>) -> (r: Vec<ComplianceIssue>)
    ensures
        r.deep_view() == sorted_issues(issues.deep_view()),
{
    let mut out: Vec<ComplianceIssue> = Vec::new();
    proof {
        assert(out.deep_view() =~= Seq::<IssueModel>::empty());
    }
    push_matching(&mut out, &issues, Severity::Critical);
    push_matching(&mut out, &issues, Severity::High);
    push_matching(&mut out, &issues, Severity::Medium);
    push_matching(&mut out, &issues, Severity::Other);
    proof {
        assert(out.deep_view() =~= sorted_issues(issues.deep_view()));
    }
    out
}

/// The exit code of an issue list.
pub fn exit_code(issues: &Vec<ComplianceIssue>) -> (r: i32)
    ensures
        r == exit_code_model(issues.deep_view()),
{
    let ghost dv = issues.deep_view();
    let mut has_crit: bool = false;
    let mut has_high: bool = false;
    let mut i: usize = 0;
    while i < issues.len()
        invariant
            i <= issues.len(),
            dv == issues.deep_view(),
            dv.len() == issues.len(),
            has_crit == exists|k: int| 0 <= k < i && dv[k].severity == Severity::Critical,
            has_high == exists|k: int| 0 <= k < i && dv[k].severity == Severity::High,
        decreases issues.len() - i,
    {
        proof {
            assert(dv[i as int] == issues@[i as int]@);
        }
        match issues[i].severity {
            Severity::Critical => {
                has_crit = true;
            },
            Severity::High => {
                has_high = true;
            },
            _ => {
            },
        }
        i = i + 1;
    }
    if has_crit {
        2
    } else if has_high {
        1
    } else {
        0
    }
}

/// Evaluates a set of security groups under a risk policy: the result
/// is the discovered issue list sorted by severity, and the derived
/// exit code.
pub fn evaluate(sgs: &Vec<SecurityGroup>, risky: &Vec<RiskPort>) -> (r: (
    Vec<ComplianceIssue>,
    i32,
))
    ensures
        r.0.deep_view() == sorted_issues(discovered_issues(sgs.deep_view(), risky.deep_view())),
        r.1 == exit_code_model(discovered_issues(sgs.deep_view(), risky.deep_view())),
{
    let ghost gs = sgs.deep_view();
    let ghost rs = risky.deep_view();
    let mut issues: Vec<ComplianceIssue> = Vec::new();
    proof {
        assert(gs.take(0) =~= Seq::<SecurityGroupModel>::empty());
        assert(issues.deep_view() =~= discovered_issues(gs.take(0), rs));
    }
    let mut i: usize = 0;
    while i < sgs.len()
        invariant
            i <= sgs.len(),
            gs == sgs.deep_view(),
            rs == risky.deep_view(),
            gs.len() == sgs.len(),
            issues.deep_view() == discovered_issues(gs.take(i as int), rs),
        decreases sgs.len() - i,
    {
        proof {
            assert(gs.take(i + 1).drop_last() =~= gs.take(i as int));
            assert(gs.take(i + 1).last() == gs[i as int]);
            assert(gs[i as int] == sgs@[i as int]@);
        }
        let sg = &sgs[i];
        let ghost rules = sg@.ingress;
        let ghost pre_sg = issues.deep_view();
        proof {
            assert(rules.take(0) =~= Seq::<IngressRuleModel>::empty());
            assert(issues.deep_view() =~= pre_sg + rules_issues(sg@.id, sg@.name, rules.take(0), rs));
        }
        let mut j: usize = 0;
        while j < sg.ingress.len()
            invariant
                j <= sg.ingress.len(),
                rs == risky.deep_view(),
                rules == sg@.ingress,
                rules.len() == sg.ingress.len(),
                issues.deep_view() == pre_sg + rules_issues(sg@.id, sg@.name, rules.take(j as int), rs),
            decreases sg.ingress.len() - j,
        {
            proof {
                assert(rules.take(j + 1).drop_last() =~= rules.take(j as int));
                assert(rules.take(j + 1).last() == rules[j as int]);
                assert(rules[j as int] == sg.ingress@[j as int]@);
            }
            check_rule_compliance(&mut issues, &sg.id, &sg.name, &sg.ingress[j], risky);
            j = j + 1;
        }
        proof {
            assert(rules.take(rules.len() as int) =~= rules);
        }
        i = i + 1;
    }
    proof {
        assert(gs.take(gs.len() as int) =~= gs);
    }
    let code = exit_code(&issues);
    let sorted = sort_issues(issues);
    (sorted, code)
}


// ------------------------------------------------------------------
// The fixed risk policy
// ------------------------------------------------------------------
pub open spec fn default_risk_policy_model() -> Seq<RiskPortModel> {
    seq![
        (RiskPortModel { port: 22, service: "SSH"@ }),
        (RiskPortModel { port: 3389, service: "RDP"@ }),
        (RiskPortModel { port: 3306, service: "MySQL"@ }),
        (RiskPortModel { port: 5432, service: "PostgreSQL"@ }),
        (RiskPortModel { port: 1433, service: "MSSQL"@ }),
        (RiskPortModel { port: 27017, service: "MongoDB"@ }),
        (RiskPortModel { port: 6379, service: "Redis"@ }),
        (RiskPortModel { port: 9200, service: "Elasticsearch"@ }),
    ]
}

/// The fixed table of risky ports and the services they carry.
pub fn default_risk_policy() -> (r: Vec<RiskPort>)
    ensures
        r.deep_view() == default_risk_policy_model(),
{
    let mut v: Vec<RiskPort> = Vec::new();
    v.push(RiskPort { port: 22, service: "SSH".to_owned() });
    v.push(RiskPort { port: 3389, service: "RDP".to_owned() });
    v.push(RiskPort { port: 3306, service: "MySQL".to_owned() });
    v.push(RiskPort { port: 5432, service: "PostgreSQL".to_owned() });
    v.push(RiskPort { port: 1433, service: "MSSQL".to_owned() });
    v.push(RiskPort { port: 27017, service: "MongoDB".to_owned() });
    v.push(RiskPort { port: 6379, service: "Redis".to_owned() });
    v.push(RiskPort { port: 9200, service: "Elasticsearch".to_owned() });
    proof {
        assert(v.deep_view() =~= default_risk_policy_model());
    }
    v
}

// ------------------------------------------------------------------
// Laws
// ------------------------------------------------------------------
proof fn lemma_filter_subsumed<A>(s: Seq<A>, p: spec_fn(A) -> bool, q: spec_fn(A) -> bool)
    requires
        forall|x: A| #[trigger] p(x) ==> q(x),
    ensures
        s.filter(p).filter(q) == s.filter(p),
    decreases s.len(),
{
    reveal(Seq::filter);
    if s.len() == 0 {
        assert(s.filter(p) =~= Seq::<A>::empty());
        assert(s.filter(p).filter(q) =~= Seq::<A>::empty());
    } else {
        lemma_filter_subsumed(s.drop_last(), p, q);
        let t = s.drop_last().filter(p);
        if p(s.last()) {
            assert(s.filter(p) == t.push(s.last()));
            assert(t.push(s.last()).drop_last() =~= t);
            assert(t.push(s.last()).filter(q) == t.filter(q).push(s.last()));
        }
    }
}

proof fn lemma_filter_excluded<A>(s: Seq<A>, p: spec_fn(A) -> bool, q: spec_fn(A) -> bool)
    requires
        forall|x: A| #[trigger] p(x) ==> !q(x),
    ensures
        s.filter(p).filter(q) == Seq::<A>::empty(),
    decreases s.len(),
{
    reveal(Seq::filter);
    if s.len() == 0 {
        assert(s.filter(p) =~= Seq::<A>::empty());
        assert(s.filter(p).filter(q) =~= Seq::<A>::empty());
    } else {
        lemma_filter_excluded(s.drop_last(), p, q);
        let t = s.drop_last().filter(p);
        if p(s.last()) {
            assert(s.filter(p) == t.push(s.last()));
            assert(t.push(s.last()).drop_last() =~= t);
            assert(t.push(s.last()).filter(q) == t.filter(q));
        }
    }
}

/// Every issue falls in exactly one severity class, so the four
/// classes partition the list.
pub proof fn lemma_severity_partition(s: Seq<IssueModel>)
    ensures
        s.filter(has_severity(Severity::Critical)).len() + s.filter(
            has_severity(Severity::High),
        ).len() + s.filter(has_severity(Severity::Medium)).len() + s.filter(
            has_severity(Severity::Other),
        ).len() == s.len(),
    decreases s.len(),
{
    reveal(Seq::filter);
    if s.len() > 0 {
        lemma_severity_partition(s.drop_last());
    }
}

proof fn lemma_sorted_filter_one(s: Seq<IssueModel>, sev: Severity)
    ensures
        sorted_issues(s).filter(has_severity(sev)) == s.filter(has_severity(sev)),
{
    broadcast use Seq::filter_distributes_over_add;

    let c = s.filter(has_severity(Severity::Critical));
    let h = s.filter(has_severity(Severity::High));
    let m = s.filter(has_severity(Severity::Medium));
    let o = s.filter(has_severity(Severity::Other));
    let q = has_severity(sev);
    assert(sorted_issues(s).filter(q) == c.filter(q) + h.filter(q) + m.filter(q) + o.filter(q));
    if sev == Severity::Critical {
        lemma_filter_subsumed(s, has_severity(Severity::Critical), q);
        lemma_filter_excluded(s, has_severity(Severity::High), q);
        lemma_filter_excluded(s, has_severity(Severity::Medium), q);
        lemma_filter_excluded(s, has_severity(Severity::Other), q);
    } else if sev == Severity::High {
        lemma_filter_excluded(s, has_severity(Severity::Critical), q);
        lemma_filter_subsumed(s, has_severity(Severity::High), q);
        lemma_filter_excluded(s, has_severity(Severity::Medium), q);
        lemma_filter_excluded(s, has_severity(Severity::Other), q);
    } else if sev == Severity::Medium {
        lemma_filter_excluded(s, has_severity(Severity::Critical), q);
        lemma_filter_excluded(s, has_severity(Severity::High), q);
        lemma_filter_subsumed(s, has_severity(Severity::Medium), q);
        lemma_filter_excluded(s, has_severity(Severity::Other), q);
    } else {
        lemma_filter_excluded(s, has_severity(Severity::Critical), q);
        lemma_filter_excluded(s, has_severity(Severity::High), q);
        lemma_filter_excluded(s, has_severity(Severity::Medium), q);
        lemma_filter_subsumed(s, has_severity(Severity::Other), q);
    }
    assert(sorted_issues(s).filter(q) =~= s.filter(q));
}

/// Law: for any issue list, the sorted output keeps every issue, is
/// non-decreasing in severity rank, and preserves discovery order
/// within each severity class.
pub proof fn lemma_severity_ordering(s: Seq<IssueModel>)
    ensures
        sorted_issues(s).len() == s.len(),
        forall|i: int, j: int|
            0 <= i <= j < sorted_issues(s).len() ==> severity_rank(
                #[trigger] sorted_issues(s)[i].severity,
            ) <= severity_rank(#[trigger] sorted_issues(s)[j].severity),
        forall|sev: Severity| #[trigger]
            sorted_issues(s).filter(has_severity(sev)) == s.filter(has_severity(sev)),
{
    lemma_severity_partition(s);
    let c = s.filter(has_severity(Severity::Critical));
    let h = s.filter(has_severity(Severity::High));
    let m = s.filter(has_severity(Severity::Medium));
    let o = s.filter(has_severity(Severity::Other));
    let t = sorted_issues(s);
    assert forall|i: int| 0 <= i < t.len() implies severity_rank(#[trigger] t[i].severity) == (
    if i < c.len() {
        0int
    } else if i < c.len() + h.len() {
        1int
    } else if i < c.len() + h.len() + m.len() {
        2int
    } else {
        3int
    }) by {
        if i < c.len() {
            s.lemma_filter_pred(has_severity(Severity::Critical), i);
            assert(t[i] == c[i]);
        } else if i < c.len() + h.len() {
            s.lemma_filter_pred(has_severity(Severity::High), i - c.len());
            assert(t[i] == h[i - c.len()]);
        } else if i < c.len() + h.len() + m.len() {
            s.lemma_filter_pred(has_severity(Severity::Medium), i - c.len() - h.len());
            assert(t[i] == m[i - c.len() - h.len()]);
        } else {
            s.lemma_filter_pred(has_severity(Severity::Other), i - c.len() - h.len() - m.len());
            assert(t[i] == o[i - c.len() - h.len() - m.len()]);
        }
    }
    assert forall|sev: Severity| #[trigger]
        sorted_issues(s).filter(has_severity(sev)) == s.filter(has_severity(sev)) by {
        lemma_sorted_filter_one(s, sev);
    }
}

/// Law: the exit code is 2 exactly when a CRITICAL issue exists, 1
/// exactly when no CRITICAL but a HIGH issue exists, and 0 otherwise;
/// a MEDIUM-only issue list always yields 0.
pub proof fn lemma_exit_code_monotonic(s: Seq<IssueModel>)
    ensures
        (exit_code_model(s) == 2) <==> has_issue_of(s, Severity::Critical),
        (exit_code_model(s) == 1) <==> (!has_issue_of(s, Severity::Critical) && has_issue_of(
            s,
            Severity::High,
        )),
        (exit_code_model(s) == 0) <==> (!has_issue_of(s, Severity::Critical) && !has_issue_of(
            s,
            Severity::High,
        )),
{
}

/// Law: a list whose issues are all MEDIUM or lower yields exit code 0.
pub proof fn lemma_medium_only_exit_zero(s: Seq<IssueModel>)
    requires
        forall|k: int|
            0 <= k < s.len() ==> (#[trigger] s[k].severity) != Severity::Critical && s[k].severity
                != Severity::High,
    ensures
        exit_code_model(s) == 0,
{
}


proof fn lemma_has_issue_filter(s: Seq<IssueModel>, sev: Severity)
    ensures
        has_issue_of(s, sev) <==> s.filter(has_severity(sev)).len() != 0,
    decreases s.len(),
{
    reveal(Seq::filter);
    if s.len() == 0 {
        assert(!has_issue_of(s, sev));
    } else {
        lemma_has_issue_filter(s.drop_last(), sev);
        assert(has_issue_of(s, sev) <==> (has_issue_of(s.drop_last(), sev) || s.last().severity
            == sev)) by {
            if has_issue_of(s, sev) {
                let k = choose|k: int| 0 <= k < s.len() && s[k].severity == sev;
                if k < s.len() - 1 {
                    assert(s.drop_last()[k].severity == sev);
                }
            }
            if has_issue_of(s.drop_last(), sev) {
                let k = choose|k: int|
                    0 <= k < s.drop_last().len() && s.drop_last()[k].severity == sev;
                assert(s[k].severity == sev);
            }
            if s.last().severity == sev {
                assert(s[s.len() - 1].severity == sev);
            }
        }
    }
}

/// Law: sorting changes no issue's presence, so the exit code derived
/// from the sorted list is the exit code of the discovered list.
pub proof fn lemma_sorting_preserves_exit_code(s: Seq<IssueModel>)
    ensures
        exit_code_model(sorted_issues(s)) == exit_code_model(s),
{
    lemma_sorted_filter_one(s, Severity::Critical);
    lemma_sorted_filter_one(s, Severity::High);
    lemma_has_issue_filter(s, Severity::Critical);
    lemma_has_issue_filter(s, Severity::High);
    lemma_has_issue_filter(sorted_issues(s), Severity::Critical);
    lemma_has_issue_filter(sorted_issues(s), Severity::High);
}

/// Law: a rule over all protocols whose source is the whole internet
/// yields exactly one CRITICAL issue for that source and nothing else,
/// whatever its port range covers.
pub proof fn lemma_critical_precedence(
    sg_id: Seq<char>,
    sg_name: Seq<char>,
    ports: Option<(int, int)>,
    risky: Seq<RiskPortModel>,
)
    ensures
        source_issues(sg_id, sg_name, all_protocols(), ports, open_internet(), risky) == seq![
            critical_issue_model(sg_id, sg_name, open_internet()),
        ],
        source_issues(sg_id, sg_name, all_protocols(), ports, open_internet(), risky).len() == 1,
        source_issues(
            sg_id,
            sg_name,
            all_protocols(),
            ports,
            open_internet(),
            risky,
        )[0].severity == Severity::Critical,
{
}

/// Law: evaluation is deterministic. The sorted issue list and the
/// exit code are functions of the security-group models and the policy
/// alone, so re-running evaluation on the same input collections
/// yields an identical issue list, in an identical order, and the same
/// exit code.
pub proof fn lemma_evaluation_idempotent(
    a: Seq<SecurityGroupModel>,
    b: Seq<SecurityGroupModel>,
    pa: Seq<RiskPortModel>,
    pb: Seq<RiskPortModel>,
)
    requires
        a == b,
        pa == pb,
    ensures
        sorted_issues(discovered_issues(a, pa)) == sorted_issues(discovered_issues(b, pb)),
        exit_code_model(discovered_issues(a, pa)) == exit_code_model(discovered_issues(b, pb)),
{
}

} // verus!
