//! Per-owner policy caps and storage statistics.

use remitwise::common::CoverageType;
use remitwise::insurance::{Insurance, InsuranceError, MAX_POLICIES_PER_OWNER};

fn setup() -> (u64, Insurance) {
    let client = Insurance::new();
    let owner = 1;
    (owner, client)
}

fn create_one(client: &mut Insurance, owner: u64) -> u32 {
    client
        .create_policy(owner, b"Policy".to_vec(), CoverageType::Health, 100i128, 10_000i128, 0)
        .unwrap()
}

#[test]
fn cap_first_policy_succeeds() {
    let (owner, mut client) = setup();
    let id = create_one(&mut client, owner);
    assert!(id > 0);
}

#[test]
fn cap_at_limit_succeeds() {
    let (owner, mut client) = setup();
    for _ in 0..MAX_POLICIES_PER_OWNER {
        create_one(&mut client, owner);
    }
    let stats = client.get_storage_stats();
    assert_eq!(stats.active_policies, MAX_POLICIES_PER_OWNER);
}

#[test]
fn cap_over_limit_returns_error() {
    let (owner, mut client) = setup();
    for _ in 0..MAX_POLICIES_PER_OWNER {
        create_one(&mut client, owner);
    }
    let result = client.create_policy(
        owner,
        b"Policy".to_vec(),
        CoverageType::Health,
        100i128,
        10_000i128,
        0,
    );
    match result {
        Err(InsuranceError::PolicyLimitExceeded) => {}
        _ => panic!("Expected PolicyLimitExceeded error"),
    }
}

#[test]
fn cap_is_per_owner_not_global() {
    let (_, mut client) = setup();
    let alice = 2;
    let bob = 3;
    for _ in 0..MAX_POLICIES_PER_OWNER {
        create_one(&mut client, alice);
        create_one(&mut client, bob);
    }
    let stats = client.get_storage_stats();
    assert_eq!(stats.active_policies, MAX_POLICIES_PER_OWNER * 2);
}

#[test]
fn cap_deactivate_frees_slot() {
    let (owner, mut client) = setup();
    let mut ids = vec![];
    for _ in 0..MAX_POLICIES_PER_OWNER {
        ids.push(create_one(&mut client, owner));
    }
    assert!(client.deactivate_policy(owner, ids[0]));
    let new_id = create_one(&mut client, owner);
    assert!(new_id > 0);
    assert_eq!(client.get_storage_stats().active_policies, MAX_POLICIES_PER_OWNER);
}

#[test]
fn stats_initial_state_is_zero() {
    let (_, client) = setup();
    let stats = client.get_storage_stats();
    assert_eq!(stats.active_policies, 0);
    assert_eq!(stats.archived_policies, 0);
}

#[test]
fn stats_increments_on_create() {
    let (owner, mut client) = setup();
    create_one(&mut client, owner);
    assert_eq!(client.get_storage_stats().active_policies, 1);
    create_one(&mut client, owner);
    assert_eq!(client.get_storage_stats().active_policies, 2);
}

#[test]
fn stats_decrements_on_deactivate() {
    let (owner, mut client) = setup();
    let id = create_one(&mut client, owner);
    assert_eq!(client.get_storage_stats().active_policies, 1);
    assert!(client.deactivate_policy(owner, id));
    assert_eq!(client.get_storage_stats().active_policies, 0);
}

#[test]
fn stats_deactivate_already_inactive_is_idempotent() {
    let (owner, mut client) = setup();
    let id = create_one(&mut client, owner);
    assert!(client.deactivate_policy(owner, id));
    assert_eq!(client.get_storage_stats().active_policies, 0);
    assert!(client.deactivate_policy(owner, id));
    assert_eq!(client.get_storage_stats().active_policies, 0);
}

#[test]
fn stats_archive_increments_archived_count() {
    let (owner, mut client) = setup();
    let id1 = create_one(&mut client, owner);
    let id2 = create_one(&mut client, owner);
    assert!(client.deactivate_policy(owner, id1));
    assert!(client.deactivate_policy(owner, id2));
    assert!(client.archive_policy(owner, id1));
    assert!(client.archive_policy(owner, id2));
    let stats = client.get_storage_stats();
    assert_eq!(stats.active_policies, 0);
    assert_eq!(stats.archived_policies, 2);
}

#[test]
fn stats_archive_active_policy_changes_active_count() {
    let (owner, mut client) = setup();
    let id = create_one(&mut client, owner);
    assert!(client.archive_policy(owner, id));
    let stats = client.get_storage_stats();
    assert_eq!(stats.active_policies, 0);
    assert_eq!(stats.archived_policies, 1);
}

#[test]
fn stats_restore_moves_back_to_active() {
    let (owner, mut client) = setup();
    let id = create_one(&mut client, owner);
    assert!(client.deactivate_policy(owner, id));
    assert!(client.archive_policy(owner, id));
    let stats_before = client.get_storage_stats();
    assert_eq!(stats_before.active_policies, 0);
    assert_eq!(stats_before.archived_policies, 1);
    assert!(client.restore_policy(owner, id));
    let stats_after = client.get_storage_stats();
    assert_eq!(stats_after.active_policies, 1);
    assert_eq!(stats_after.archived_policies, 0);
}

#[test]
fn deactivate_wrong_owner_returns_false() {
    let (_, mut client) = setup();
    let alice = 2;
    let bob = 3;
    let id = create_one(&mut client, alice);
    assert!(!client.deactivate_policy(bob, id));
}

#[test]
fn deactivate_nonexistent_returns_false() {
    let (owner, mut client) = setup();
    assert!(!client.deactivate_policy(owner, 999u32));
}

#[test]
fn restore_at_cap_returns_false() {
    let (owner, mut client) = setup();
    let archived_id = create_one(&mut client, owner);
    assert!(client.deactivate_policy(owner, archived_id));
    assert!(client.archive_policy(owner, archived_id));
    for _ in 0..MAX_POLICIES_PER_OWNER {
        create_one(&mut client, owner);
    }
    assert!(!client.restore_policy(owner, archived_id));
}

#[test]
fn cap_boundary_at_49_succeeds() {
    let (owner, mut client) = setup();
    for _ in 0..(MAX_POLICIES_PER_OWNER - 1) {
        create_one(&mut client, owner);
    }
    let stats = client.get_storage_stats();
    assert_eq!(stats.active_policies, MAX_POLICIES_PER_OWNER - 1);
}

#[test]
fn cap_boundary_at_50_succeeds() {
    let (owner, mut client) = setup();
    for _ in 0..MAX_POLICIES_PER_OWNER {
        create_one(&mut client, owner);
    }
    let stats = client.get_storage_stats();
    assert_eq!(stats.active_policies, MAX_POLICIES_PER_OWNER);
}

#[test]
fn cap_archive_active_policy_frees_slot_for_new() {
    let (owner, mut client) = setup();
    let mut ids = vec![];
    for _ in 0..MAX_POLICIES_PER_OWNER {
        ids.push(create_one(&mut client, owner));
    }
    assert_eq!(client.get_storage_stats().active_policies, MAX_POLICIES_PER_OWNER);
    assert!(client.archive_policy(owner, ids[0]));
    assert_eq!(client.get_storage_stats().active_policies, MAX_POLICIES_PER_OWNER - 1);
    assert_eq!(client.get_storage_stats().archived_policies, 1);
    let new_id = create_one(&mut client, owner);
    assert!(new_id > 0);
    assert_eq!(client.get_storage_stats().active_policies, MAX_POLICIES_PER_OWNER);
}

#[test]
fn cap_deactivate_then_archive_frees_slot() {
    let (owner, mut client) = setup();
    let mut ids = vec![];
    for _ in 0..MAX_POLICIES_PER_OWNER {
        ids.push(create_one(&mut client, owner));
    }
    assert!(client.deactivate_policy(owner, ids[0]));
    assert_eq!(client.get_storage_stats().active_policies, MAX_POLICIES_PER_OWNER - 1);
    assert!(client.archive_policy(owner, ids[0]));
    assert_eq!(client.get_storage_stats().active_policies, MAX_POLICIES_PER_OWNER - 1);
    assert_eq!(client.get_storage_stats().archived_policies, 1);
    let new_id = create_one(&mut client, owner);
    assert!(new_id > 0);
    assert_eq!(client.get_storage_stats().active_policies, MAX_POLICIES_PER_OWNER);
}

#[test]
fn restore_increments_active_count() {
    let (owner, mut client) = setup();
    let id = create_one(&mut client, owner);
    assert_eq!(client.get_storage_stats().active_policies, 1);
    assert!(client.deactivate_policy(owner, id));
    assert_eq!(client.get_storage_stats().active_policies, 0);
    assert!(client.archive_policy(owner, id));
    assert_eq!(client.get_storage_stats().active_policies, 0);
    assert_eq!(client.get_storage_stats().archived_policies, 1);
    assert!(client.restore_policy(owner, id));
    assert_eq!(client.get_storage_stats().active_policies, 1);
    assert_eq!(client.get_storage_stats().archived_policies, 0);
}

#[test]
fn restore_respects_cap_boundary() {
    let (owner, mut client) = setup();
    for _ in 0..(MAX_POLICIES_PER_OWNER - 1) {
        create_one(&mut client, owner);
    }
    let archived_id = create_one(&mut client, owner);
    assert_eq!(client.get_storage_stats().active_policies, MAX_POLICIES_PER_OWNER);
    assert!(client.archive_policy(owner, archived_id));
    assert_eq!(client.get_storage_stats().active_policies, MAX_POLICIES_PER_OWNER - 1);
    create_one(&mut client, owner);
    assert_eq!(client.get_storage_stats().active_policies, MAX_POLICIES_PER_OWNER);
    assert!(!client.restore_policy(owner, archived_id));
    assert_eq!(client.get_storage_stats().active_policies, MAX_POLICIES_PER_OWNER);
}

#[test]
fn get_active_policies_pagination_consistency() {
    let (owner, mut client) = setup();
    let mut ids = vec![];
    for i in 0..5 {
        let id = client
            .create_policy(
                owner,
                format!("Policy{}", i).into_bytes(),
                CoverageType::Health,
                100i128,
                10_000i128,
                0,
            )
            .unwrap();
        ids.push(id);
    }

    let page1 = client.get_active_policies(owner, 0, 10);
    assert_eq!(page1.count, 5);
    assert_eq!(page1.next_cursor, 0);

    let page_first = client.get_active_policies(owner, 0, 2);
    assert_eq!(page_first.count, 2);
    assert!(page_first.next_cursor > 0, "Should have a cursor for next page");

    let page_second = client.get_active_policies(owner, page_first.next_cursor, 2);
    assert_eq!(page_second.count, 2);
    assert!(page_second.next_cursor > 0);

    let page_third = client.get_active_policies(owner, page_second.next_cursor, 2);
    assert_eq!(page_third.count, 1);
    assert_eq!(page_third.next_cursor, 0, "Final page should have cursor 0");

    let mut seen_ids = vec![];
    for item in page_first.items.iter() {
        seen_ids.push(item.id);
    }
    for item in page_second.items.iter() {
        seen_ids.push(item.id);
    }
    for item in page_third.items.iter() {
        seen_ids.push(item.id);
    }
    for id in ids.iter() {
        assert!(
            seen_ids.iter().any(|&sid| sid == *id),
            "Policy {} missing from paginated results",
            id
        );
    }
}

#[test]
fn get_active_policies_excludes_inactive() {
    let (owner, mut client) = setup();
    let _id1 = create_one(&mut client, owner);
    let id2 = create_one(&mut client, owner);
    let _id3 = create_one(&mut client, owner);

    let page = client.get_active_policies(owner, 0, 10);
    assert_eq!(page.count, 3);

    assert!(client.deactivate_policy(owner, id2));

    let page = client.get_active_policies(owner, 0, 10);
    assert_eq!(page.count, 2);

    for item in page.items.iter() {
        assert!(item.id != id2, "Inactive policy should not appear in active list");
        assert!(item.active, "All returned policies should be active");
    }
}

/// The source of this scenario also expects archiving an already inactive
/// policy to lower the active count (and the later counts to be one lower
/// accordingly); `cap_deactivate_then_archive_frees_slot` expects the same
/// archive to leave the count unchanged. The two cannot both hold: the
/// library follows the latter, and the three counts that differ are marked
/// below with the value the other reading expects.
#[test]
fn deactivate_restore_cycle_maintains_cap() {
    let (owner, mut client) = setup();

    let mut ids = vec![];
    for _ in 0..MAX_POLICIES_PER_OWNER {
        ids.push(create_one(&mut client, owner));
    }
    assert_eq!(client.get_storage_stats().active_policies, MAX_POLICIES_PER_OWNER);

    // Deactivate one
    assert!(client.deactivate_policy(owner, ids[0]));
    assert_eq!(client.get_storage_stats().active_policies, MAX_POLICIES_PER_OWNER - 1);

    // Create a new one
    let new_id = create_one(&mut client, owner);
    assert_eq!(client.get_storage_stats().active_policies, MAX_POLICIES_PER_OWNER);

    // Archive the original (already inactive). Other reading: MAX - 1.
    assert!(client.archive_policy(owner, ids[0]));
    assert_eq!(client.get_storage_stats().active_policies, MAX_POLICIES_PER_OWNER);

    // Try to restore - should fail (at cap with new policy)
    assert!(!client.restore_policy(owner, ids[0]));

    // Deactivate the new one. Other reading: MAX - 2.
    assert!(client.deactivate_policy(owner, new_id));
    assert_eq!(client.get_storage_stats().active_policies, MAX_POLICIES_PER_OWNER - 1);

    // Now restore should succeed. Other reading: MAX - 1.
    assert!(client.restore_policy(owner, ids[0]));
    assert_eq!(client.get_storage_stats().active_policies, MAX_POLICIES_PER_OWNER);
}
