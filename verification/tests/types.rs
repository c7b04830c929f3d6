use codex_usage::types::{ModelTotals, Usage};

fn usage(input: u64, cached: u64, output: u64, reasoning: u64, total: u64) -> Usage {
    Usage {
        input_tokens: input,
        cached_input_tokens: cached,
        output_tokens: output,
        reasoning_output_tokens: reasoning,
        total_tokens: total,
    }
}

#[test]
fn types_calculates_billable_input_tokens_without_cached_tokens() {
    let usage = Usage {
        input_tokens: 1_000,
        cached_input_tokens: 250,
        output_tokens: 0,
        reasoning_output_tokens: 0,
        total_tokens: 1_000,
    };

    assert_eq!(usage.billable_input_tokens(), 750);
}

#[test]
fn types_tests_calculates_billable_input_tokens_without_cached_tokens() {
    let usage = Usage {
        input_tokens: 1_000,
        cached_input_tokens: 250,
        output_tokens: 0,
        reasoning_output_tokens: 0,
        total_tokens: 1_000,
    };

    assert_eq!(usage.billable_input_tokens(), 750);
}

#[test]
fn nothing_is_billable_where_more_is_cached_than_put_in() {
    assert_eq!(usage(100, 101, 0, 0, 100).billable_input_tokens(), 0);
    assert_eq!(usage(100, 100, 0, 0, 100).billable_input_tokens(), 0);
    assert_eq!(usage(u64::MAX, 0, 0, 0, 0).billable_input_tokens(), u64::MAX);
}

#[test]
fn usage_is_added_count_by_count() {
    let mut sum = usage(1, 2, 3, 4, 5);
    sum.add_assign(&usage(10, 20, 30, 40, 50));

    assert_eq!(sum, usage(11, 22, 33, 44, 55));
}

#[test]
fn sums_beyond_64_bits_are_told() {
    let nearly_full = usage(u64::MAX - 1, 0, 0, 0, 0);

    assert!(nearly_full.can_add(&usage(1, u64::MAX, 0, 0, 0)));
    assert!(!nearly_full.can_add(&usage(2, 0, 0, 0, 0)));
    assert!(!usage(0, 1, 0, 0, 0).can_add(&usage(0, u64::MAX, 0, 0, 0)));
    assert!(!usage(0, 0, 1, 0, 0).can_add(&usage(0, 0, u64::MAX, 0, 0)));
    assert!(!usage(0, 0, 0, 1, 0).can_add(&usage(0, 0, 0, u64::MAX, 0)));
    assert!(!usage(0, 0, 0, 0, 1).can_add(&usage(0, 0, 0, 0, u64::MAX)));
}

#[test]
fn defaults_hold_nothing() {
    assert_eq!(Usage::default(), usage(0, 0, 0, 0, 0));
    assert!(Usage::default().is_none());
    assert!(!usage(0, 0, 0, 1, 0).is_none());
    assert_eq!(
        ModelTotals::default(),
        ModelTotals {
            usage: Usage::default(),
            is_fallback: false,
        }
    );
}
