//! The region orchestrator's decision core: the fixed region list and
//! the aggregation of per-region outcomes into a worst-case exit code,
//! with failed regions isolated from the aggregate.
use vstd::prelude::*;

verus! {

/// The worst exit code among the regions that were scanned
/// successfully; a failed region contributes nothing.
pub open spec fn aggregate_code_model(outcomes: Seq<Option<i32>>) -> int
    decreases outcomes.len(),
{
    if outcomes.len() == 0 {
        0
    } else {
        let rest = aggregate_code_model(outcomes.drop_last());
        match outcomes.last() {
            Some(c) => if c > rest {
                c as int
            } else {
                rest
            },
            None => rest,
        }
    }
}

/// How many regions were scanned successfully and found issues: any
/// non-zero exit code counts, whatever the severity behind it.
pub open spec fn regions_with_issues_model(outcomes: Seq<Option<i32>>) -> int
    decreases outcomes.len(),
{
    if outcomes.len() == 0 {
        0
    } else {
        regions_with_issues_model(outcomes.drop_last()) + (match outcomes.last() {
            Some(c) => if c > 0 {
                1int
            } else {
                0int
            },
            None => 0int,
        })
    }
}

/// Aggregates per-region outcomes, in region order: `None` records a
/// region whose fetch or evaluation failed. Returns the worst exit
/// code over the successful regions and the count of successful
/// regions with issues.
pub fn aggregate_scan(outcomes: &Vec<Option<i32>>) -> (r: (i32, usize))
    ensures
        r.0 == aggregate_code_model(outcomes.deep_view()),
        r.1 == regions_with_issues_model(outcomes.deep_view()),
{
    let ghost dv = outcomes.deep_view();
    let mut worst: i32 = 0;
    let mut with_issues: usize = 0;
    proof {
        assert(dv.take(0) =~= Seq::<Option<i32>>::empty());
    }
    let mut i: usize = 0;
    while i < outcomes.len()
        invariant
            i <= outcomes.len(),
            dv == outcomes.deep_view(),
            dv.len() == outcomes.len(),
            with_issues <= i,
            worst == aggregate_code_model(dv.take(i as int)),
            with_issues == regions_with_issues_model(dv.take(i as int)),
        decreases outcomes.len() - i,
    {
        proof {
            assert(dv.take(i + 1).drop_last() =~= dv.take(i as int));
            assert(dv.take(i + 1).last() == dv[i as int]);
            assert(dv[i as int] == outcomes@[i as int].deep_view());
        }
        match outcomes[i] {
            Some(code) => {
                if code > worst {
                    worst = code;
                }
                if code > 0 {
                    with_issues = with_issues + 1;
                }
            },
            None => {
            },
        }
        i = i + 1;
    }
    proof {
        assert(dv.take(dv.len() as int) =~= dv);
    }
    (worst, with_issues)
}

/// Law: one region's failure is isolated. Replacing any one region's
/// scan by a failure leaves exactly the aggregate of the others: the
/// failed region contributes nothing, to the worst code or the count.
pub proof fn lemma_region_isolation(s1: Seq<Option<i32>>, s2: Seq<Option<i32>>)
    ensures
        aggregate_code_model(s1 + seq![None] + s2) == aggregate_code_model(s1 + s2),
        regions_with_issues_model(s1 + seq![None] + s2) == regions_with_issues_model(s1 + s2),
    decreases s2.len(),
{
    if s2.len() == 0 {
        assert(s1 + s2 =~= s1);
        assert((s1 + seq![None] + s2) =~= s1.push(None));
        assert(s1.push(None).drop_last() =~= s1);
    } else {
        lemma_region_isolation(s1, s2.drop_last());
        assert((s1 + seq![None] + s2).drop_last() =~= s1 + seq![None] + s2.drop_last());
        assert((s1 + seq![None] + s2).last() == s2.last());
        assert((s1 + s2).drop_last() =~= s1 + s2.drop_last());
        assert((s1 + s2).last() == s2.last());
    }
}

/// Law: the aggregate code is the worst code any successful region
/// reported — it is at least each of them, and unless it is 0 it was
/// reported by one of them.
pub proof fn lemma_aggregate_is_worst(s: Seq<Option<i32>>)
    ensures
        forall|k: int| 0 <= k < s.len() && s[k] is Some ==> aggregate_code_model(s) >= s[k]->0,
        aggregate_code_model(s) == 0 || exists|k: int|
            0 <= k < s.len() && s[k] is Some && s[k]->0 == aggregate_code_model(s),
    decreases s.len(),
{
    if s.len() > 0 {
        lemma_aggregate_is_worst(s.drop_last());
        assert forall|k: int| 0 <= k < s.len() && s[k] is Some implies aggregate_code_model(s)
            >= s[k]->0 by {
            if k < s.len() - 1 {
                assert(s.drop_last()[k] == s[k]);
            }
        }
        let rest = aggregate_code_model(s.drop_last());
        if aggregate_code_model(s) != 0 {
            if s.last() is Some && s.last()->0 > rest {
                assert(s[s.len() - 1] is Some && s[s.len() - 1]->0 == aggregate_code_model(s));
            } else {
                let k = choose|k: int|
                    0 <= k < s.drop_last().len() && s.drop_last()[k] is Some && s.drop_last()[k]->0
                        == rest;
                assert(s[k] is Some && s[k]->0 == aggregate_code_model(s));
            }
        }
    }
}

/// The fixed, ordered list of regions a full scan covers.
pub open spec fn default_regions_model() -> Seq<Seq<char>> {
    seq![
        "us-east-1"@,
        "us-east-2"@,
        "us-west-1"@,
        "us-west-2"@,
        "eu-west-1"@,
        "eu-west-2"@,
        "eu-central-1"@,
        "ap-southeast-1"@,
        "ap-southeast-2"@,
        "ap-northeast-1"@,
    ]
}

pub fn default_regions() -> (r: Vec<String>)
    ensures
        r.deep_view() == default_regions_model(),
{
    let mut v: Vec<String> = Vec::new();
    v.push("us-east-1".to_owned());
    v.push("us-east-2".to_owned());
    v.push("us-west-1".to_owned());
    v.push("us-west-2".to_owned());
    v.push("eu-west-1".to_owned());
    v.push("eu-west-2".to_owned());
    v.push("eu-central-1".to_owned());
    v.push("ap-southeast-1".to_owned());
    v.push("ap-southeast-2".to_owned());
    v.push("ap-northeast-1".to_owned());
    proof {
        assert(v.deep_view() =~= default_regions_model());
    }
    v
}

} // verus!
