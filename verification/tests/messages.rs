use tokscale_core::messages::saturating_sum;
use tokscale_core::TokenBreakdown;

fn accumulate_tokens(acc: i64, tokens: &TokenBreakdown) -> i64 {
    saturating_sum(acc, tokens.total())
}

#[test]
fn token_accumulator_saturates_on_clamped_buckets() {
    // The readers clamp oversized buckets to i64::MAX; summing them must not overflow.
    let clamped = TokenBreakdown {
        input: i64::MAX,
        output: i64::MAX,
        cache_read: i64::MAX,
        cache_write: i64::MAX,
        reasoning: i64::MAX,
        cache_write_1h: 0,
    };
    assert_eq!(clamped.total(), i64::MAX);
    let once = accumulate_tokens(0, &clamped);
    assert_eq!(once, i64::MAX);
    assert_eq!(accumulate_tokens(once, &clamped), i64::MAX);
}

#[test]
fn a_total_adds_the_kinds_of_tokens() {
    let tokens = TokenBreakdown {
        input: 1,
        output: 2,
        cache_read: 4,
        cache_write: 8,
        reasoning: 16,
        cache_write_1h: 32,
    };
    assert_eq!(tokens.total(), 31);
    assert_eq!(TokenBreakdown::default().total(), 0);
    assert_eq!(saturating_sum(i64::MIN, -1), i64::MIN);
    assert_eq!(saturating_sum(-3, 5), 2);
}
