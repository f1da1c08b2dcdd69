use zonesync::engine::{
    ActionResult, CycleError, PlanExecution, RECORD_TTL_SECONDS, StoreCall, plan_cycle,
};
use zonesync::http_success;
use zonesync::plan::Action;
use zonesync::record::{DnsRecord, RecordType, StoreError};

fn create(name: &str, ip: &str) -> Action {
    Action::Create {
        name: name.to_string(),
        rtype: RecordType::A,
        ip: ip.to_string(),
    }
}

fn noop(name: &str) -> Action {
    Action::NoOp {
        name: name.to_string(),
        rtype: RecordType::A,
    }
}

fn api_error(status: u16, body: &str) -> StoreError {
    StoreError::Api {
        status,
        body: body.to_string(),
    }
}

#[test]
fn test_noop_plan_triggers_zero_calls() {
    let exec = PlanExecution::new(vec![noop("home.example.com"), noop("cloud.example.com")]);
    assert!(exec.is_done());
    assert_eq!(exec.pending_call(), None);
    assert_eq!(
        exec.results,
        vec![ActionResult::Unchanged, ActionResult::Unchanged]
    );
}

#[test]
fn test_replace_deletes_then_creates() {
    let plan = vec![Action::Replace {
        id: 123,
        name: "home.example.com".to_string(),
        rtype: RecordType::A,
        ip: "2.2.2.2".to_string(),
    }];
    let mut exec = PlanExecution::new(plan);
    assert_eq!(
        exec.pending_call(),
        Some(StoreCall::DeleteRecord { id: 123 })
    );
    exec.record_outcome(Ok(()));
    assert_eq!(
        exec.pending_call(),
        Some(StoreCall::CreateRecord {
            name: "home.example.com".to_string(),
            rtype: RecordType::A,
            ip: "2.2.2.2".to_string(),
            ttl: RECORD_TTL_SECONDS,
        })
    );
    exec.record_outcome(Ok(()));
    assert!(exec.is_done());
    assert_eq!(exec.results, vec![ActionResult::Applied]);
}

#[test]
fn test_failed_delete_keeps_old_record_and_ends_action() {
    let plan = vec![Action::Replace {
        id: 123,
        name: "home.example.com".to_string(),
        rtype: RecordType::A,
        ip: "2.2.2.2".to_string(),
    }];
    let mut exec = PlanExecution::new(plan);
    exec.record_outcome(Err(api_error(404, "not found")));
    assert!(exec.is_done());
    assert_eq!(
        exec.results,
        vec![ActionResult::DeleteFailed {
            error: api_error(404, "not found"),
        }]
    );
}

#[test]
fn test_failed_create_after_delete_is_reported() {
    let plan = vec![Action::Replace {
        id: 123,
        name: "home.example.com".to_string(),
        rtype: RecordType::A,
        ip: "2.2.2.2".to_string(),
    }];
    let mut exec = PlanExecution::new(plan);
    exec.record_outcome(Ok(()));
    exec.record_outcome(Err(api_error(400, "bad request")));
    assert!(exec.is_done());
    assert_eq!(
        exec.results,
        vec![ActionResult::CreateFailed {
            error: api_error(400, "bad request"),
        }]
    );
}

#[test]
fn test_first_failure_leaves_second_action_attempted() {
    let plan = vec![
        create("home.example.com", "2.2.2.2"),
        create("cloud.example.com", "2.2.2.2"),
    ];
    let mut exec = PlanExecution::new(plan);
    assert!(matches!(
        exec.pending_call(),
        Some(StoreCall::CreateRecord { .. })
    ));
    exec.record_outcome(Err(api_error(500, "boom")));
    // the second action is still owed its call
    assert_eq!(
        exec.pending_call(),
        Some(StoreCall::CreateRecord {
            name: "cloud.example.com".to_string(),
            rtype: RecordType::A,
            ip: "2.2.2.2".to_string(),
            ttl: RECORD_TTL_SECONDS,
        })
    );
    exec.record_outcome(Ok(()));
    assert!(exec.is_done());
    assert_eq!(
        exec.results,
        vec![
            ActionResult::CreateFailed {
                error: api_error(500, "boom"),
            },
            ActionResult::Applied,
        ]
    );
}

#[test]
fn test_noops_between_mutations_are_skipped() {
    let plan = vec![
        noop("one.example.com"),
        create("two.example.com", "2.2.2.2"),
        noop("three.example.com"),
        noop("four.example.com"),
        create("five.example.com", "2.2.2.2"),
        noop("six.example.com"),
    ];
    let mut exec = PlanExecution::new(plan);
    exec.record_outcome(Ok(()));
    exec.record_outcome(Ok(()));
    assert!(exec.is_done());
    assert_eq!(
        exec.results,
        vec![
            ActionResult::Unchanged,
            ActionResult::Applied,
            ActionResult::Unchanged,
            ActionResult::Unchanged,
            ActionResult::Applied,
            ActionResult::Unchanged,
        ]
    );
}

#[test]
fn test_cycle_without_ipv4_is_aborted() {
    let result = plan_cycle(
        &None,
        false,
        &None,
        &Ok(Vec::new()),
        &vec!["home.example.com".to_string()],
    );
    assert_eq!(result, Err(CycleError::Ipv4Unavailable));
}

#[test]
fn test_cycle_with_failed_listing_is_aborted() {
    let result = plan_cycle(
        &Some("1.2.3.4".to_string()),
        false,
        &None,
        &Err(api_error(404, "zone not found")),
        &vec!["home.example.com".to_string()],
    );
    assert_eq!(
        result,
        Err(CycleError::ZoneList {
            error: api_error(404, "zone not found"),
        })
    );
}

#[test]
fn test_cycle_without_ipv6_still_plans_a_records() {
    let records: Vec<DnsRecord> = Vec::new();
    let result = plan_cycle(
        &Some("1.2.3.4".to_string()),
        true,
        &None,
        &Ok(records),
        &vec!["home.example.com".to_string()],
    );
    assert_eq!(result, Ok(vec![create("home.example.com", "1.2.3.4")]));
}

#[test]
fn test_cycle_with_ipv6_disabled_ignores_observed_ipv6() {
    let records: Vec<DnsRecord> = Vec::new();
    let result = plan_cycle(
        &Some("1.2.3.4".to_string()),
        false,
        &Some("2001:db8::1".to_string()),
        &Ok(records),
        &vec!["home.example.com".to_string()],
    );
    assert_eq!(result, Ok(vec![create("home.example.com", "1.2.3.4")]));
}

#[test]
fn test_http_success_is_the_2xx_range() {
    assert!(http_success(200));
    assert!(http_success(201));
    assert!(http_success(299));
    assert!(!http_success(199));
    assert!(!http_success(300));
    assert!(!http_success(404));
    assert!(!http_success(500));
}
