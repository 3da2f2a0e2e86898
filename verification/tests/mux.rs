use serde_json::Value;
use tokscale_core::cost::valid_cost;
use tokscale_core::sessions::mux::{
    parse_mux_file, split_model_key, MuxLastRequest, MuxModelEntry, MuxModelUsage, MuxSessionUsage,
    MuxTokenBucket,
};
use tokscale_core::UnifiedMessage;

fn bucket(usage: &Value, name: &str) -> Option<MuxTokenBucket> {
    usage.get(name).map(|bucket| MuxTokenBucket {
        tokens: bucket.get("tokens").and_then(Value::as_i64),
        cost_usd: bucket
            .get("cost_usd")
            .and_then(Value::as_f64)
            .map(f64::to_bits),
    })
}

fn session_usage(json: &str) -> MuxSessionUsage {
    let value: Value = serde_json::from_str(json).unwrap();
    MuxSessionUsage {
        version: value
            .get("version")
            .and_then(Value::as_u64)
            .map(|version| version as u32),
        by_model: value.get("byModel").and_then(Value::as_object).map(|models| {
            models
                .iter()
                .map(|(model_key, usage)| {
                    let (provider, _) = split_model_key(model_key);
                    MuxModelEntry {
                        model_key: model_key.clone(),
                        usage: MuxModelUsage {
                            input: bucket(usage, "input"),
                            cached: bucket(usage, "cached"),
                            cache_create: bucket(usage, "cacheCreate"),
                            output: bucket(usage, "output"),
                            reasoning: bucket(usage, "reasoning"),
                        },
                        canonical_provider: match provider.as_str() {
                            "" | "provider" => None,
                            _ => Some(provider),
                        },
                    }
                })
                .collect()
        }),
        last_request: value.get("lastRequest").map(|request| MuxLastRequest {
            model: request
                .get("model")
                .and_then(Value::as_str)
                .map(|model| model.to_owned()),
            timestamp: request.get("timestamp").and_then(Value::as_i64),
        }),
    }
}

fn parse(json: &str, session_id: &str) -> Vec<UnifiedMessage> {
    parse_mux_file(&session_usage(json), session_id, 1_600_000_000_000)
}

fn cost(message: &UnifiedMessage) -> f64 {
    message
        .cost_terms
        .iter()
        .map(|bits| f64::from_bits(*bits))
        .sum()
}

#[test]
fn test_parse_valid_session_usage() {
    let json = r#"{
        "version": 1,
        "byModel": {
            "google:gemini-3-pro": {
                "input": { "tokens": 100, "cost_usd": 0.01 },
                "cached": { "tokens": 5000, "cost_usd": 0.05 },
                "cacheCreate": { "tokens": 200, "cost_usd": 0.02 },
                "output": { "tokens": 300, "cost_usd": 0.03 },
                "reasoning": { "tokens": 0, "cost_usd": 0 }
            },
            "openai:gpt-4o": {
                "input": { "tokens": 50, "cost_usd": 0.005 },
                "cached": { "tokens": 0, "cost_usd": 0 },
                "cacheCreate": { "tokens": 0, "cost_usd": 0 },
                "output": { "tokens": 150, "cost_usd": 0.015 },
                "reasoning": { "tokens": 0, "cost_usd": 0 }
            }
        },
        "lastRequest": {
            "model": "google:gemini-3-pro",
            "timestamp": 1700000000000
        }
    }"#;
    let msgs = parse(json, "ws");
    assert_eq!(msgs.len(), 2);

    // Find the gemini message
    let gemini = msgs
        .iter()
        .find(|m| m.model_id == "gemini-3-pro")
        .unwrap();
    assert_eq!(gemini.client, "mux");
    assert_eq!(gemini.provider_id, "google");
    assert_eq!(gemini.tokens.input, 100);
    assert_eq!(gemini.tokens.cache_read, 5000);
    assert_eq!(gemini.tokens.cache_write, 200);
    assert_eq!(gemini.tokens.output, 300);
    assert_eq!(gemini.tokens.reasoning, 0);
    assert_eq!(gemini.timestamp, 1700000000000);
    assert!(gemini.has_authoritative_cost());

    let gpt = msgs.iter().find(|m| m.model_id == "gpt-4o").unwrap();
    assert_eq!(gpt.provider_id, "openai");
    assert_eq!(gpt.tokens.input, 50);
    assert_eq!(gpt.tokens.output, 150);
    assert!(gpt.has_authoritative_cost());
}

#[test]
fn test_parse_empty_by_model() {
    let json = r#"{ "version": 1, "byModel": {} }"#;
    let msgs = parse(json, "ws");
    assert!(msgs.is_empty());
}

#[test]
fn test_parse_missing_by_model() {
    let json = r#"{ "version": 1 }"#;
    let msgs = parse(json, "ws");
    assert!(msgs.is_empty());
}

#[test]
fn test_zero_token_entries_filtered() {
    let json = r#"{
        "version": 1,
        "byModel": {
            "google:gemini-3-pro": {
                "input": { "tokens": 0, "cost_usd": 0 },
                "cached": { "tokens": 0, "cost_usd": 0 },
                "cacheCreate": { "tokens": 0, "cost_usd": 0 },
                "output": { "tokens": 0, "cost_usd": 0 },
                "reasoning": { "tokens": 0, "cost_usd": 0 }
            }
        },
        "lastRequest": { "model": "google:gemini-3-pro", "timestamp": 1700000000000 }
    }"#;
    let msgs = parse(json, "ws");
    assert!(msgs.is_empty());
}

#[test]
fn test_zero_token_missing_cost_does_not_downgrade_coverage() {
    let json = r#"{
        "version": 1,
        "byModel": {
            "google:gemini-3-pro": {
                "input": { "tokens": 100, "cost_usd": 0 },
                "output": { "tokens": 0 }
            }
        },
        "lastRequest": { "timestamp": 1700000000000 }
    }"#;
    let msgs = parse(json, "ws");
    assert_eq!(msgs.len(), 1);
    assert_eq!(cost(&msgs[0]), 0.0);
    assert!(msgs[0].has_authoritative_cost());
}

#[test]
fn test_model_without_provider_prefix() {
    let json = r#"{
        "version": 1,
        "byModel": {
            "gemini-3-pro": {
                "input": { "tokens": 100 },
                "output": { "tokens": 200 }
            }
        },
        "lastRequest": { "timestamp": 1700000000000 }
    }"#;
    let msgs = parse(json, "ws");
    assert_eq!(msgs.len(), 1);
    assert_eq!(msgs[0].model_id, "gemini-3-pro");
    assert_eq!(msgs[0].provider_id, "");
    assert_eq!(cost(&msgs[0]), 0.0);
    assert_eq!(msgs[0].message_count, 1);
    assert!(!msgs[0].has_authoritative_cost());
    assert!(msgs[0]
        .dedup_key
        .as_deref()
        .is_some_and(|key| key.ends_with(":unknown")));
}

#[test]
fn test_mixed_bucket_costs_split_provenance_without_double_counting_messages() {
    let json = r#"{
        "version": 1,
        "byModel": {
            "google:gemini-3-pro": {
                "input": { "tokens": 100, "cost_usd": 0.01 },
                "cached": { "tokens": 200, "cost_usd": 0.02 },
                "cacheCreate": { "tokens": 50 },
                "output": { "tokens": 300, "cost_usd": 0.03 },
                "reasoning": { "tokens": 25 }
            }
        },
        "lastRequest": { "timestamp": 1700000000000 }
    }"#;
    let msgs = parse(json, "ws");
    assert_eq!(msgs.len(), 2);

    let known = msgs
        .iter()
        .find(|message| message.dedup_key.as_deref().unwrap().ends_with(":known"))
        .unwrap();
    let unknown = msgs
        .iter()
        .find(|message| message.dedup_key.as_deref().unwrap().ends_with(":unknown"))
        .unwrap();

    assert_eq!(known.tokens.input, 100);
    assert_eq!(known.tokens.cache_read, 200);
    assert_eq!(known.tokens.output, 300);
    assert_eq!(known.tokens.cache_write, 0);
    assert_eq!(known.tokens.reasoning, 0);
    assert!((cost(known) - 0.06).abs() < 1e-12);
    assert!(known.has_authoritative_cost());
    assert_eq!(known.message_count, 1);

    assert_eq!(unknown.tokens.cache_write, 50);
    assert_eq!(unknown.tokens.reasoning, 25);
    assert_eq!(unknown.tokens.input, 0);
    assert_eq!(unknown.tokens.output, 0);
    assert_eq!(cost(unknown), 0.0);
    assert!(!unknown.has_authoritative_cost());
    assert_eq!(unknown.message_count, 0);
    assert_ne!(known.dedup_key, unknown.dedup_key);

    assert_eq!(known.tokens.total() + unknown.tokens.total(), 675);
    assert_eq!(known.message_count + unknown.message_count, 1);
}

#[test]
fn test_zero_token_bucket_cost_is_preserved_with_unknown_tokens() {
    let json = r#"{
        "version": 1,
        "byModel": {
            "google:gemini-3-pro": {
                "input": { "tokens": 0, "cost_usd": 0.25 },
                "output": { "tokens": 10 }
            }
        },
        "lastRequest": { "timestamp": 1700000000000 }
    }"#;
    let msgs = parse(json, "ws");
    assert_eq!(msgs.len(), 2);

    let known = msgs
        .iter()
        .find(|message| message.has_authoritative_cost())
        .unwrap();
    let unknown = msgs
        .iter()
        .find(|message| !message.has_authoritative_cost())
        .unwrap();
    assert_eq!(known.tokens.total(), 0);
    assert_eq!(cost(known), 0.25);
    assert_eq!(known.message_count, 1);
    assert_eq!(unknown.tokens.output, 10);
    assert_eq!(unknown.message_count, 0);
}

#[test]
fn test_negative_tokens_clamped() {
    let json = r#"{
        "version": 1,
        "byModel": {
            "google:gemini-3-pro": {
                "input": { "tokens": -50, "cost_usd": 0.01 },
                "output": { "tokens": 100, "cost_usd": 0.02 }
            }
        },
        "lastRequest": { "timestamp": 1700000000000 }
    }"#;
    let msgs = parse(json, "ws");
    assert_eq!(msgs.len(), 1);
    assert_eq!(msgs[0].tokens.input, 0);
    assert_eq!(msgs[0].tokens.output, 100);
}

#[test]
fn test_source_cost_summed() {
    let json = r#"{
        "version": 1,
        "byModel": {
            "google:gemini-3-pro": {
                "input": { "tokens": 100, "cost_usd": 0.01 },
                "cached": { "tokens": 200, "cost_usd": 0.02 },
                "cacheCreate": { "tokens": 50, "cost_usd": 0.005 },
                "output": { "tokens": 300, "cost_usd": 0.03 },
                "reasoning": { "tokens": 0, "cost_usd": 0 }
            }
        },
        "lastRequest": { "timestamp": 1700000000000 }
    }"#;
    let msgs = parse(json, "ws");
    assert_eq!(msgs.len(), 1);
    let expected_cost = 0.01 + 0.02 + 0.005 + 0.03;
    assert!((cost(&msgs[0]) - expected_cost).abs() < 1e-10);
}

#[test]
fn test_multi_colon_model_key() {
    let json = r#"{
        "version": 1,
        "byModel": {
            "provider:sub:model-name": {
                "input": { "tokens": 100 },
                "output": { "tokens": 200 }
            }
        },
        "lastRequest": { "timestamp": 1700000000000 }
    }"#;
    let msgs = parse(json, "ws");
    assert_eq!(msgs.len(), 1);
    assert_eq!(msgs[0].provider_id, "provider");
    assert_eq!(msgs[0].model_id, "sub:model-name");
}

/// Two workspaces that report the same model have keys of their own, and reading a workspace
/// again reproduces its keys.
#[test]
fn test_mux_dedup_key_scoped_by_workspace_not_hashmap_index() {
    let json = r#"{ "version": 1, "byModel": {
        "google:gemini-3-pro": { "input": { "tokens": 100, "cost_usd": 0.01 }, "output": { "tokens": 50, "cost_usd": 0.005 } }
    }, "lastRequest": { "timestamp": 1700000000000 } }"#;

    let a = parse(json, "ws_alpha");
    let b = parse(json, "ws_beta");
    assert_eq!(a.len(), 1);
    assert_eq!(b.len(), 1);
    // Same model, different workspaces -> distinct keys (both survive the
    // cross-file dedup gate instead of colliding on "mux:<model>:0").
    assert_eq!(
        a[0].dedup_key.as_deref(),
        Some("mux:ws_alpha:google:gemini-3-pro:known")
    );
    assert_eq!(
        b[0].dedup_key.as_deref(),
        Some("mux:ws_beta:google:gemini-3-pro:known")
    );
    assert_ne!(a[0].dedup_key, b[0].dedup_key);
    // Re-parsing the same workspace reproduces the key (true duplicate).
    assert_eq!(parse(json, "ws_alpha")[0].dedup_key, a[0].dedup_key);
}

#[test]
fn a_session_without_a_request_has_the_time_of_its_file() {
    let json = r#"{ "byModel": { "m": { "input": { "tokens": 1 } } } }"#;
    let msgs = parse(json, "ws");
    assert_eq!(msgs.len(), 1);
    assert_eq!(msgs[0].timestamp, 1_600_000_000_000);
    assert_eq!(msgs[0].session_id, "ws");
    assert_eq!(msgs[0].dedup_key.as_deref(), Some("mux:ws:m:unknown"));
}

#[test]
fn every_row_has_its_own_key() {
    let json = r#"{ "byModel": {
        "openai:a": { "input": { "tokens": 1, "cost_usd": 1 }, "output": { "tokens": 2 } },
        "openai:b": { "input": { "tokens": 1, "cost_usd": 1 }, "output": { "tokens": 2 } }
    } }"#;
    let keys: Vec<String> = parse(json, "ws")
        .into_iter()
        .map(|message| message.dedup_key.unwrap())
        .collect();
    assert_eq!(
        keys,
        vec![
            "mux:ws:openai:a:known",
            "mux:ws:openai:a:unknown",
            "mux:ws:openai:b:known",
            "mux:ws:openai:b:unknown",
        ]
    );
}

#[test]
fn an_invalid_cost_is_no_cost() {
    let json = r#"{ "byModel": { "m": {
        "input": { "tokens": 5, "cost_usd": -0.5 },
        "output": { "tokens": 7, "cost_usd": 0.5 }
    } } }"#;
    let msgs = parse(json, "ws");
    assert_eq!(msgs.len(), 2);
    assert_eq!((msgs[0].tokens.output, msgs[0].tokens.input), (7, 0));
    assert_eq!((msgs[1].tokens.output, msgs[1].tokens.input), (0, 5));
    assert_eq!(cost(&msgs[0]), 0.5);
    for valid in [0.0, -0.0, 1.5, f64::MAX, f64::MIN_POSITIVE] {
        let bits: u64 = f64::to_bits(valid);
        assert_eq!(valid_cost(Some(bits)), Some(bits));
    }
    for invalid in [
        -1.0,
        -f64::MIN_POSITIVE,
        f64::INFINITY,
        f64::NEG_INFINITY,
        f64::NAN,
    ] {
        assert_eq!(valid_cost(Some(f64::to_bits(invalid))), None);
    }
    assert_eq!(valid_cost(None), None);
}

#[test]
fn a_model_key_is_split_at_its_first_colon() {
    assert_eq!(
        split_model_key("a:b:c"),
        ("a".to_owned(), "b:c".to_owned())
    );
    assert_eq!(split_model_key("abc"), (String::new(), "abc".to_owned()));
    assert_eq!(split_model_key(":abc"), (String::new(), "abc".to_owned()));
}
