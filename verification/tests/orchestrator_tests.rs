use remitwise::orchestrator::{
    check_deadline, request_hash, request_preimage, ExecutionStats, Orchestrator, OrchestratorError, MAX_AUDIT_ENTRIES,
    MAX_DEADLINE_WINDOW_SECS,
};

fn setup_test() -> (Orchestrator, u64) {
    let owner = 1;
    (Orchestrator::new(), owner)
}

fn init_orchestrator(client: &mut Orchestrator, owner: &u64) {
    client.init(*owner).unwrap();
}

/// One successful signed flow of `executor` with `nonce`, at time `now`.
fn do_flow(client: &mut Orchestrator, executor: u64, nonce: u64, now: u64) {
    client.begin_flow(executor, 1000, nonce, now + 1000, request_hash(nonce, 1000, now + 1000), now).unwrap();
    client.finish_flow(executor, 1000, true, now);
}

#[test]
fn test_get_execution_stats_initial() {
    let (mut client, owner) = setup_test();
    init_orchestrator(&mut client, &owner);

    let stats = client.get_execution_stats();
    assert_eq!(
        stats,
        Some(ExecutionStats {
            total_executions: 0,
            successful_executions: 0,
            failed_executions: 0,
            last_execution_time: 0,
            evicted_entries: 0,
        })
    );
}

#[test]
fn test_execute_flow_success() {
    let mut client = Orchestrator::new();
    client.begin_unsigned_flow(10000).unwrap();
    assert_eq!(client.get_execution_state(), true);
    client.finish_unsigned_flow();
    // Check lock is released
    assert_eq!(client.get_execution_state(), false);
}

#[test]
fn test_lock_released_on_invalid_amount() {
    let mut client = Orchestrator::new();
    let result = client.begin_unsigned_flow(-100);
    assert!(result.is_err());
    assert_eq!(result, Err(OrchestratorError::InvalidAmount));
    assert_eq!(client.get_execution_state(), false);
}

#[test]
fn test_reentrancy_rejection() {
    let mut client = Orchestrator::new();
    // a flow in progress holds the lock
    client.begin_unsigned_flow(500).unwrap();
    let result = client.begin_unsigned_flow(1000);
    match result {
        Err(OrchestratorError::ExecutionLocked) => (),
        _ => panic!("Expected ExecutionLocked error"),
    }
    // still locked, because the second call failed before acquiring
    assert_eq!(client.get_execution_state(), true);
}

#[test]
fn test_lock_recovery_after_failure() {
    let mut client = Orchestrator::new();
    client.begin_unsigned_flow(1000).unwrap();
    // the flow's downstream work failed; completing it releases the lock
    client.finish_unsigned_flow();
    assert_eq!(client.get_execution_state(), false);
    assert!(client.begin_unsigned_flow(1000).is_ok());
}

#[test]
fn signed_flow_respects_the_lock() {
    let (mut client, owner) = setup_test();
    init_orchestrator(&mut client, &owner);
    let caller = 7;
    client.begin_flow(caller, 1000, 0, 10, request_hash(0, 1000, 10), 0).unwrap();
    let other = 8;
    assert_eq!(
        client.begin_flow(other, 1000, 0, 10, request_hash(0, 1000, 10), 0),
        Err(OrchestratorError::ExecutionLocked)
    );
    assert_eq!(client.begin_unsigned_flow(5), Err(OrchestratorError::ExecutionLocked));
    assert_eq!(client.get_execution_state(), true);
    assert_eq!(client.get_nonce(other), 0);
    assert_eq!(client.begin_flow(9, -100, 0, 10, request_hash(0, -100, 10), 0), Err(OrchestratorError::InvalidAmount));
}

#[test]
fn test_audit_log_pagination_no_duplicates() {
    let (mut client, owner) = setup_test();
    init_orchestrator(&mut client, &owner);
    let executor = 9;
    for nonce in 0..10u64 {
        do_flow(&mut client, executor, nonce, 100 + nonce);
    }
    let page0 = client.get_audit_log(0, 3);
    let page1 = client.get_audit_log(3, 3);
    let page2 = client.get_audit_log(6, 3);
    let page3 = client.get_audit_log(9, 3);
    assert_eq!(page0.len(), 3);
    assert_eq!(page1.len(), 3);
    assert_eq!(page2.len(), 3);
    assert_eq!(page3.len(), 1);
    let mut timestamps: Vec<u64> = Vec::new();
    for p in [&page0, &page1, &page2, &page3] {
        for e in p.iter() {
            timestamps.push(e.timestamp);
        }
    }
    assert_eq!(timestamps.len(), 10);
    let mut dedup = timestamps.clone();
    dedup.dedup();
    assert_eq!(dedup.len(), 10);
}

#[test]
fn test_audit_log_cap_eviction_order() {
    let (mut client, owner) = setup_test();
    init_orchestrator(&mut client, &owner);
    let executor = 9;
    for nonce in 0..MAX_AUDIT_ENTRIES as u64 {
        do_flow(&mut client, executor, nonce, 100_000 + nonce);
    }
    let full_page = client.get_audit_log(0, MAX_AUDIT_ENTRIES);
    assert_eq!(full_page.len(), MAX_AUDIT_ENTRIES as usize);
    assert_eq!(full_page[0].timestamp, 100_000);

    do_flow(&mut client, executor, MAX_AUDIT_ENTRIES as u64, 100_000 + MAX_AUDIT_ENTRIES as u64);

    let after_eviction = client.get_audit_log(0, MAX_AUDIT_ENTRIES);
    assert_eq!(after_eviction.len(), MAX_AUDIT_ENTRIES as usize);
    assert_eq!(after_eviction[0].timestamp, 100_001);
    let newest = after_eviction[MAX_AUDIT_ENTRIES as usize - 1];
    assert_eq!(newest.timestamp, 100_000 + MAX_AUDIT_ENTRIES as u64);
}

#[test]
fn test_evicted_entries_counter_increments() {
    let (mut client, owner) = setup_test();
    init_orchestrator(&mut client, &owner);
    let executor = 9;
    for nonce in 0..MAX_AUDIT_ENTRIES as u64 {
        do_flow(&mut client, executor, nonce, 100);
    }
    let stats = client.get_execution_stats().unwrap();
    assert_eq!(stats.evicted_entries, 0);
    for nonce in MAX_AUDIT_ENTRIES as u64..(MAX_AUDIT_ENTRIES as u64 + 3) {
        do_flow(&mut client, executor, nonce, 100);
    }
    let stats = client.get_execution_stats().unwrap();
    assert_eq!(stats.evicted_entries, 3);
}

#[test]
fn test_audit_log_entries_ordered_oldest_to_newest() {
    let (mut client, owner) = setup_test();
    init_orchestrator(&mut client, &owner);
    let executor = 9;
    for nonce in 0..5u64 {
        do_flow(&mut client, executor, nonce, 100_000 + nonce * 10);
    }
    let page = client.get_audit_log(0, 10);
    assert_eq!(page.len(), 5);
    for i in 0..(page.len() - 1) {
        let a = page[i].timestamp;
        let b = page[i + 1].timestamp;
        assert!(a <= b, "entries not in ascending order: {} > {}", a, b);
    }
}

#[test]
fn test_audit_log_from_index_at_last_entry() {
    let (mut client, owner) = setup_test();
    init_orchestrator(&mut client, &owner);
    for nonce in 0..5u64 {
        do_flow(&mut client, 9, nonce, 100);
    }
    let page = client.get_audit_log(4, 10);
    assert_eq!(page.len(), 1);
}

#[test]
fn test_audit_log_limit_exactly_one() {
    let (mut client, owner) = setup_test();
    init_orchestrator(&mut client, &owner);
    for nonce in 0..5u64 {
        do_flow(&mut client, 9, nonce, 100);
    }
    let page = client.get_audit_log(0, 1);
    assert_eq!(page.len(), 1);
}

#[test]
fn test_audit_log_cap_does_not_exceed_max() {
    let (mut client, owner) = setup_test();
    init_orchestrator(&mut client, &owner);
    for nonce in 0..(MAX_AUDIT_ENTRIES as u64 + 20) {
        do_flow(&mut client, 9, nonce, 100);
    }
    let page = client.get_audit_log(0, MAX_AUDIT_ENTRIES + 100);
    assert_eq!(page.len(), MAX_AUDIT_ENTRIES as usize);
}

#[test]
fn test_nonce_starts_at_zero() {
    let (mut client, owner) = setup_test();
    init_orchestrator(&mut client, &owner);
    assert_eq!(client.get_nonce(9), 0, "New address should start with nonce 0");
}

#[test]
fn test_out_of_order_nonce_fails() {
    let (mut client, owner) = setup_test();
    init_orchestrator(&mut client, &owner);
    assert_eq!(
        client.begin_flow(9, 1000, 5, 1000, request_hash(5, 1000, 1000), 0),
        Err(OrchestratorError::InvalidNonce),
        "Out-of-order nonce should fail (must equal current nonce)"
    );
}

#[test]
fn test_multiple_addresses_independent_nonces() {
    let (mut client, owner) = setup_test();
    init_orchestrator(&mut client, &owner);
    let executor1 = 11;
    let executor2 = 12;
    assert_eq!(client.get_nonce(executor1), 0);
    assert_eq!(client.get_nonce(executor2), 0);
    do_flow(&mut client, executor1, 0, 0);
    assert_eq!(client.get_nonce(executor1), 1);
    assert_eq!(client.get_nonce(executor2), 0);
    assert!(client.begin_flow(executor2, 500, 0, 1000, request_hash(0, 500, 1000), 0).is_ok(), "Executor2 should execute with nonce 0");
}

#[test]
fn test_execute_flow_deadline_too_far() {
    let (mut client, owner) = setup_test();
    init_orchestrator(&mut client, &owner);
    let deadline = MAX_DEADLINE_WINDOW_SECS + 1000;
    assert_eq!(client.begin_flow(9, 1000, 0, deadline, request_hash(0, 1000, deadline), 0), Err(OrchestratorError::DeadlineExpired));
}

#[test]
fn test_deadline_window_prevents_old_requests() {
    let (mut client, owner) = setup_test();
    init_orchestrator(&mut client, &owner);
    let far_deadline = 366 * 86400;
    assert_eq!(
        client.begin_flow(9, 1000, 0, far_deadline, request_hash(0, 1000, far_deadline), 0),
        Err(OrchestratorError::DeadlineExpired),
        "Request with deadline too far in future should fail"
    );
}

// ── Further cases ────────────────────────────────────────────────────────

#[test]
fn deadline_window_edges() {
    let now = 1_000_000;
    assert_eq!(check_deadline(now - 1, now), Err(OrchestratorError::DeadlineExpired));
    assert_eq!(check_deadline(now, now), Err(OrchestratorError::DeadlineExpired));
    assert_eq!(check_deadline(now + 1, now), Ok(()));
    assert_eq!(check_deadline(now + MAX_DEADLINE_WINDOW_SECS, now), Ok(()));
    assert_eq!(
        check_deadline(now + MAX_DEADLINE_WINDOW_SECS + 1, now),
        Err(OrchestratorError::DeadlineExpired)
    );
}

#[test]
fn stats_accounting_identity_over_mixed_outcomes() {
    let (mut client, owner) = setup_test();
    init_orchestrator(&mut client, &owner);
    for nonce in 0..7u64 {
        client.begin_flow(3, 10, nonce, 500, request_hash(nonce, 10, 500), 100 + nonce).unwrap();
        client.finish_flow(3, 10, nonce % 3 != 0, 100 + nonce);
    }
    let s = client.get_execution_stats().unwrap();
    assert_eq!(s.total_executions, 7);
    assert_eq!(s.successful_executions, 4);
    assert_eq!(s.failed_executions, 3);
    assert_eq!(s.total_executions, s.successful_executions + s.failed_executions);
    assert_eq!(s.last_execution_time, 106);
    assert_eq!(client.get_execution_state(), false);
}

#[test]
fn rejected_requests_do_not_touch_stats_or_nonce() {
    let (mut client, owner) = setup_test();
    assert_eq!(client.begin_flow(3, 10, 0, 500, request_hash(0, 10, 500), 100), Err(OrchestratorError::NotInitialized));
    assert_eq!(client.get_execution_stats(), None);
    init_orchestrator(&mut client, &owner);
    assert_eq!(client.init(2), Err(OrchestratorError::AlreadyInitialized));
    assert_eq!(client.begin_flow(3, 0, 0, 500, request_hash(0, 0, 500), 100), Err(OrchestratorError::InvalidAmount));
    assert_eq!(client.begin_flow(3, 10, 0, 100, request_hash(0, 10, 100), 100), Err(OrchestratorError::DeadlineExpired));
    assert_eq!(client.begin_flow(3, 10, 1, 500, request_hash(1, 10, 500), 100), Err(OrchestratorError::InvalidNonce));
    assert_eq!(client.get_nonce(3), 0);
    assert_eq!(client.get_execution_stats().unwrap().total_executions, 0);
    assert_eq!(client.get_execution_state(), false);
    do_flow(&mut client, 3, 0, 100);
    assert_eq!(client.begin_flow(3, 10, 0, 500, request_hash(0, 10, 500), 100), Err(OrchestratorError::InvalidNonce));
    assert_eq!(client.get_nonce(3), 1);
}

#[test]
fn test_execute_flow_invalid_hash() {
    let (mut client, owner) = setup_test();
    init_orchestrator(&mut client, &owner);
    let deadline = 1000;
    let bad_hash = 12345u64;
    assert_eq!(
        client.begin_flow(9, 1000, 0, deadline, bad_hash, 0),
        Err(OrchestratorError::InvalidNonce)
    );
    assert_eq!(client.get_nonce(9), 0);
    assert_eq!(client.get_execution_state(), false);
}

#[test]
fn test_request_hash_binding_prevents_parameter_swap() {
    let (mut client, owner) = setup_test();
    init_orchestrator(&mut client, &owner);
    let deadline = 1000;
    let hash_1000 = request_hash(0, 1000, deadline);
    assert_eq!(
        client.begin_flow(9, 5000, 0, deadline, hash_1000, 0),
        Err(OrchestratorError::InvalidNonce),
        "Parameter swap attempt should fail (hash mismatch)"
    );
    // the same hash re-pointed at another deadline fails too
    assert_eq!(
        client.begin_flow(9, 1000, 0, deadline + 1, hash_1000, 0),
        Err(OrchestratorError::InvalidNonce)
    );
    assert!(client.begin_flow(9, 1000, 0, deadline, hash_1000, 0).is_ok());
}

#[test]
fn test_skipped_nonce_prevents_reuse() {
    let (mut client, owner) = setup_test();
    init_orchestrator(&mut client, &owner);
    let executor = 9;
    let deadline = 1000;
    do_flow(&mut client, executor, 0, 0);
    let hash1 = request_hash(1, 2000, deadline);
    assert!(client.begin_flow(executor, 2000, 1, deadline, hash1, 0).is_ok());
    client.finish_flow(executor, 2000, true, 0);
    assert_eq!(client.get_nonce(executor), 2);
    let hash_old = request_hash(0, 1000, deadline);
    assert_eq!(
        client.begin_flow(executor, 1000, 0, deadline, hash_old, 0),
        Err(OrchestratorError::InvalidNonce),
        "Reused nonce should fail even if counter was advanced"
    );
}

#[test]
fn request_hash_is_sha256_prefix_of_preimage() {
    let pre = request_preimage(0, 1000, 1000);
    assert_eq!(pre, vec![102, 108, 111, 119, 0, 0, 0, 0, 0, 0, 0, 0, 232, 3, 0, 0, 0, 0, 0, 0, 0, 0, 0, 0, 0, 0, 0, 0, 232, 3, 0, 0, 0, 0, 0, 0]);
    assert_eq!(request_hash(0, 1000, 1000), 6257358515051677369u64);
    assert_eq!(request_hash(7, -5, 42), 5452819101453405984u64);
    assert_ne!(request_hash(0, 1000, 1000), request_hash(0, 1001, 1000));
}

#[test]
fn admit_flow_checks_the_given_hash() {
    let (mut client, owner) = setup_test();
    init_orchestrator(&mut client, &owner);
    assert_eq!(client.admit_flow(4, 10, 0, 500, 77, 78, 100), Err(OrchestratorError::InvalidNonce));
    assert_eq!(client.get_nonce(4), 0);
    assert_eq!(client.admit_flow(4, 10, 0, 500, 77, 77, 100), Ok(()));
    assert_eq!(client.get_nonce(4), 1);
    assert_eq!(client.get_execution_state(), true);
}
