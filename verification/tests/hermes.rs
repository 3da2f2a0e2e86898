use tokscale_core::sessions::hermes::{
    billing_name, parse_hermes_sqlite, resolved_provider, HermesRow,
};
use tokscale_core::{CostSource, TokenBreakdown, UnifiedMessage};

fn row(id: &str, input_tokens: i64, estimated: Option<f64>, actual: Option<f64>) -> HermesRow {
    HermesRow {
        session_id: id.to_owned(),
        model_id: "gpt-5".to_owned(),
        billing_provider: Some("openai".to_owned()),
        started_at_ms: 1_700_000_000_000,
        message_count: Some(1),
        input_tokens: Some(input_tokens),
        output_tokens: Some(0),
        cache_read_tokens: Some(0),
        cache_write_tokens: Some(0),
        reasoning_tokens: Some(0),
        estimated_cost: estimated.map(f64::to_bits),
        actual_cost: actual.map(f64::to_bits),
        canonical_provider: Some("openai".to_owned()),
        inferred_provider: Some("openai".to_owned()),
    }
}

fn cost(message: &UnifiedMessage) -> f64 {
    message
        .cost_terms
        .iter()
        .map(|bits| f64::from_bits(*bits))
        .sum()
}

#[test]
fn test_parse_hermes_cost_provenance_prefers_actual_zero() {
    let messages = parse_hermes_sqlite(&vec![
        row("actual-zero", 10, Some(0.75), Some(0.0)),
        row("estimated", 10, Some(0.25), None),
        row("invalid-actual", 0, Some(0.4), Some(-0.1)),
        row("unknown", 10, Some(-0.1), Some(-0.2)),
    ]);
    assert_eq!(messages.len(), 4);

    let message = |id: &str| {
        messages
            .iter()
            .find(|message| message.session_id == id)
            .unwrap()
    };
    assert_eq!(cost(message("actual-zero")), 0.0);
    assert_eq!(
        message("actual-zero").cost_source,
        CostSource::ProviderReported
    );
    assert_eq!(message("estimated").cost_source, CostSource::Estimated);
    assert_eq!(cost(message("invalid-actual")), 0.4);
    assert_eq!(message("invalid-actual").cost_source, CostSource::Estimated);
    assert_eq!(message("unknown").cost_source, CostSource::Unknown);
}

#[test]
fn a_row_becomes_one_message() {
    let mut odd = row("odd", -5, None, None);
    odd.output_tokens = Some(7);
    odd.reasoning_tokens = None;
    odd.message_count = Some(-2);
    odd.billing_provider = Some("  ".to_owned());
    odd.inferred_provider = None;
    let messages = parse_hermes_sqlite(&vec![odd]);
    assert_eq!(messages.len(), 1);
    let message = &messages[0];
    assert_eq!(message.client, "hermes");
    assert_eq!(message.model_id, "gpt-5");
    assert_eq!(message.provider_id, "hermes");
    assert_eq!(message.timestamp, 1_700_000_000_000);
    assert_eq!(message.message_count, 0);
    assert_eq!(message.agent.as_deref(), Some("Hermes Agent"));
    assert_eq!(message.dedup_key.as_deref(), Some("odd"));
    assert_eq!(
        message.tokens,
        TokenBreakdown {
            output: 7,
            ..TokenBreakdown::default()
        }
    );
}

#[test]
fn the_billing_provider_comes_first() {
    let openai = Some("openai".to_owned());
    let google = Some("google".to_owned());
    let billed = Some("\u{a0}OpenAI\n".to_owned());
    assert_eq!(billing_name(&billed).as_deref(), Some("OpenAI"));
    assert_eq!(billing_name(&Some("\t".to_owned())), None);
    assert_eq!(billing_name(&None), None);
    assert_eq!(resolved_provider(&billed, &openai, &google), "openai");
    assert_eq!(resolved_provider(&billed, &None, &google), "google");
    assert_eq!(resolved_provider(&None, &openai, &google), "google");
    assert_eq!(resolved_provider(&None, &openai, &None), "hermes");
}
