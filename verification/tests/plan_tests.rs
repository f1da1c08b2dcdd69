use zonesync::plan::{Action, compute_plan};
use zonesync::record::{DnsRecord, RecordType};

fn record(id: u64, source: &str, target: &str, record_type: &str) -> DnsRecord {
    DnsRecord {
        id,
        source: source.to_string(),
        target: target.to_string(),
        ttl: 300,
        record_type: record_type.to_string(),
        updated_at: 1234567890,
    }
}

fn names(list: &[&str]) -> Vec<String> {
    list.iter().map(|n| n.to_string()).collect()
}

#[test]
fn test_converged_zone_plans_only_noops() {
    let records = vec![
        record(1, "home.example.com", "1.2.3.4", "A"),
        record(2, "cloud.example.com", "1.2.3.4", "A"),
    ];
    let plan = compute_plan(
        &records,
        &names(&["home.example.com", "cloud.example.com"]),
        &"1.2.3.4".to_string(),
        &None,
    );
    assert_eq!(plan.len(), 2);
    for action in &plan {
        assert!(matches!(action, Action::NoOp { .. }));
    }
}

#[test]
fn test_empty_zone_plans_single_create() {
    let plan = compute_plan(
        &Vec::new(),
        &names(&["home.example.com"]),
        &"1.2.3.4".to_string(),
        &None,
    );
    assert_eq!(
        plan,
        vec![Action::Create {
            name: "home.example.com".to_string(),
            rtype: RecordType::A,
            ip: "1.2.3.4".to_string(),
        }]
    );
}

#[test]
fn test_drifted_record_plans_single_replace() {
    let records = vec![record(123, "home.example.com", "1.1.1.1", "A")];
    let plan = compute_plan(
        &records,
        &names(&["home.example.com"]),
        &"2.2.2.2".to_string(),
        &None,
    );
    assert_eq!(
        plan,
        vec![Action::Replace {
            id: 123,
            name: "home.example.com".to_string(),
            rtype: RecordType::A,
            ip: "2.2.2.2".to_string(),
        }]
    );
}

#[test]
fn test_plan_interleaves_a_and_aaaa_per_name() {
    let records = vec![record(1, "home.example.com", "1.2.3.4", "A")];
    let plan = compute_plan(
        &records,
        &names(&["home.example.com"]),
        &"1.2.3.4".to_string(),
        &Some("2001:db8::1".to_string()),
    );
    assert_eq!(plan.len(), 2);
    assert!(matches!(&plan[0], Action::NoOp { rtype: RecordType::A, .. }));
    assert_eq!(
        plan[1],
        Action::Create {
            name: "home.example.com".to_string(),
            rtype: RecordType::Aaaa,
            ip: "2001:db8::1".to_string(),
        }
    );
}

#[test]
fn test_missing_ipv6_emits_no_aaaa_action() {
    let records = vec![
        record(1, "home.example.com", "1.2.3.4", "A"),
        record(2, "home.example.com", "2001:db8::1", "AAAA"),
    ];
    let plan = compute_plan(
        &records,
        &names(&["home.example.com", "cloud.example.com"]),
        &"5.6.7.8".to_string(),
        &None,
    );
    assert_eq!(plan.len(), 2);
    assert_eq!(
        plan[0],
        Action::Replace {
            id: 1,
            name: "home.example.com".to_string(),
            rtype: RecordType::A,
            ip: "5.6.7.8".to_string(),
        }
    );
    assert_eq!(
        plan[1],
        Action::Create {
            name: "cloud.example.com".to_string(),
            rtype: RecordType::A,
            ip: "5.6.7.8".to_string(),
        }
    );
}

#[test]
fn test_duplicate_records_first_match_wins() {
    let records = vec![
        record(11, "home.example.com", "1.2.3.4", "A"),
        record(22, "home.example.com", "9.9.9.9", "A"),
    ];
    // the first record is converged: the later duplicate is not consulted
    let plan = compute_plan(
        &records,
        &names(&["home.example.com"]),
        &"1.2.3.4".to_string(),
        &None,
    );
    assert_eq!(plan.len(), 1);
    assert!(matches!(&plan[0], Action::NoOp { .. }));

    // the first record drifts: the replace names the first record's id
    let plan = compute_plan(
        &records,
        &names(&["home.example.com"]),
        &"9.9.9.9".to_string(),
        &None,
    );
    assert_eq!(
        plan,
        vec![Action::Replace {
            id: 11,
            name: "home.example.com".to_string(),
            rtype: RecordType::A,
            ip: "9.9.9.9".to_string(),
        }]
    );
}

#[test]
fn test_type_must_match_exactly() {
    let records = vec![record(1, "home.example.com", "1.2.3.4", "AAAA")];
    let plan = compute_plan(
        &records,
        &names(&["home.example.com"]),
        &"1.2.3.4".to_string(),
        &None,
    );
    // an AAAA record does not answer for the A binding
    assert_eq!(
        plan,
        vec![Action::Create {
            name: "home.example.com".to_string(),
            rtype: RecordType::A,
            ip: "1.2.3.4".to_string(),
        }]
    );
}
