use remitwise::common::{clamp_limit, DEFAULT_PAGE_LIMIT, MAX_PAGE_LIMIT};

#[test]
fn test_clamp_limit_zero_returns_default() {
    assert_eq!(clamp_limit(0), DEFAULT_PAGE_LIMIT);
}

#[test]
fn test_clamp_limit_one_passthrough() {
    assert_eq!(clamp_limit(1), 1);
}

#[test]
fn test_clamp_limit_mid_range_passthrough() {
    assert_eq!(clamp_limit(25), 25);
}

#[test]
fn test_clamp_limit_max_page_limit_passthrough() {
    assert_eq!(clamp_limit(MAX_PAGE_LIMIT), MAX_PAGE_LIMIT);
}

#[test]
fn test_clamp_limit_one_above_max_clamped() {
    assert_eq!(clamp_limit(MAX_PAGE_LIMIT + 1), MAX_PAGE_LIMIT);
}

#[test]
fn test_clamp_limit_u32_max_clamped() {
    assert_eq!(clamp_limit(u32::MAX), MAX_PAGE_LIMIT);
}

#[test]
fn test_clamp_limit_u32_max_contract_regression() {
    let clamped = clamp_limit(u32::MAX);

    assert_eq!(clamped, MAX_PAGE_LIMIT);
    assert!((1..=MAX_PAGE_LIMIT).contains(&clamped));
    assert_eq!(clamp_limit(clamped), clamped);
}

#[test]
fn clamp_limit_is_bounded_and_idempotent_over_a_range() {
    let samples = [0u32, 1, 2, 19, 20, 21, 49, 50, 51, 1000, u32::MAX - 1, u32::MAX];
    for &limit in samples.iter() {
        let clamped = clamp_limit(limit);
        if limit == 0 {
            assert_eq!(clamped, DEFAULT_PAGE_LIMIT);
        } else if limit > MAX_PAGE_LIMIT {
            assert_eq!(clamped, MAX_PAGE_LIMIT);
        } else {
            assert_eq!(clamped, limit);
        }
        assert!((1..=MAX_PAGE_LIMIT).contains(&clamped));
        assert_eq!(clamp_limit(clamped), clamped);
    }
}
