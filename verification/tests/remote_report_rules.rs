use tokscale_core::calendar::CivilDate;
use tokscale_core::local_hours::{earliest_hour_start, HourCandidate, LocalHour};
use tokscale_core::remote_report::fold::RemoteUsageAccumulator;
use tokscale_core::remote_report::message::{
    normalize_agent, normalize_model, normalize_provider, prepare_message, validate_numerators,
    MessageTime, Numerators,
};
use tokscale_core::remote_report::pages::{saturating_add, token_total, Amounts};
use tokscale_core::remote_report::query::{
    accept_zone_entry, parse_date, validate_query, validate_text,
};
use tokscale_core::remote_report::RemoteUsageFold;
use tokscale_core::{
    aggregate_remote_usage_v1, RemoteUsageError, RemoteUsageQueryV1, ReportMessage, TokenBreakdown,
    UnifiedMessage,
};

const NOON: i64 = 1_730_635_200_000;
const HOUR: i64 = 3_600_000;

fn query() -> RemoteUsageQueryV1 {
    RemoteUsageQueryV1 {
        clients: Vec::new(),
        start_date: "2024-11-03".to_owned(),
        end_date_exclusive: "2024-11-05".to_owned(),
        timezone: "UTC".to_owned(),
        tzdb_revision: "2026c".to_owned(),
    }
}

fn tokens(input: i64, output: i64) -> TokenBreakdown {
    TokenBreakdown {
        input,
        output,
        cache_read: 0,
        cache_write: 0,
        reasoning: 0,
        cache_write_1h: 0,
    }
}

fn report(client: &str, model: &str, provider: &str, timestamp: i64) -> ReportMessage {
    ReportMessage {
        message: UnifiedMessage::new(
            client.to_owned(),
            model.to_owned(),
            provider.to_owned(),
            "session".to_owned(),
            timestamp,
            tokens(10, 20),
            Vec::new(),
        ),
        selected: true,
        canonical_model: model.trim().to_owned(),
        agent_name: String::new(),
        copilot_agent_name: String::new(),
        cost_nano_usd: Some(5),
    }
}

fn amounts(input: u64, output: u64) -> Amounts {
    let mut amounts = Amounts::none();
    amounts.input_tokens = input;
    amounts.output_tokens = output;
    amounts
}

fn date(year: i16, month: i8, day: i8) -> CivilDate {
    CivilDate { year, month, day }
}

#[test]
fn every_page_is_sorted_by_its_key() {
    let bundle = aggregate_remote_usage_v1(
        &[
            report("b", "m", "p", NOON + 24 * HOUR),
            report("b", "m", "p", NOON),
            report("a", "m", "q", NOON),
            report("a", "m", "p", NOON),
            report("a", "", "p", NOON + HOUR),
            report("a", "m", " ", NOON),
        ],
        &query(),
    )
    .expect("a report");
    let graph: Vec<(&str, &str, Option<&str>, Option<&str>)> = bundle
        .graph
        .iter()
        .map(|record| {
            (
                record.date.as_str(),
                record.client.as_str(),
                record.model.as_deref(),
                record.provider.as_deref(),
            )
        })
        .collect();
    assert_eq!(
        graph,
        vec![
            ("2024-11-03", "a", None, Some("p")),
            ("2024-11-03", "a", Some("m"), None),
            ("2024-11-03", "a", Some("m"), Some("p")),
            ("2024-11-03", "a", Some("m"), Some("q")),
            ("2024-11-03", "b", Some("m"), Some("p")),
            ("2024-11-04", "b", Some("m"), Some("p")),
        ]
    );
    let models: Vec<(&str, u64)> = bundle
        .models
        .iter()
        .map(|record| (record.client.as_str(), record.message_count))
        .collect();
    assert_eq!(
        models,
        vec![("a", 1), ("a", 1), ("a", 1), ("a", 1), ("b", 2)]
    );
    let hours: Vec<i64> = bundle
        .hourly
        .iter()
        .map(|record| record.bucket_start_unix_ms)
        .collect();
    assert_eq!(
        hours,
        vec![NOON, NOON, NOON, NOON, NOON + HOUR, NOON + 24 * HOUR]
    );
    assert!(bundle.agents.iter().all(|record| record.agent == "Main"));
    assert_eq!(bundle.tzdb_revision, "2026c");
}

#[test]
fn the_order_of_messages_does_not_matter() {
    let messages = [
        report("b", "m", "p", NOON),
        report("a", "m", "p", NOON + HOUR),
        report("a", "n", "p", NOON),
        report("b", "m", "p", NOON + 24 * HOUR),
    ];
    let forwards = aggregate_remote_usage_v1(&messages, &query());
    let mut backwards = messages.to_vec();
    backwards.reverse();
    assert!(forwards.is_ok());
    assert_eq!(aggregate_remote_usage_v1(&backwards, &query()), forwards);
}

#[test]
fn pages_add_up_to_the_messages_that_count() {
    let mut outside = report("a", "m", "p", NOON + 48 * HOUR);
    outside.message.tokens = tokens(1_000, 0);
    let mut unselected = report("c", "m", "p", NOON);
    unselected.selected = false;
    let bundle = aggregate_remote_usage_v1(
        &[
            report("a", "m", "p", NOON),
            report("a", "n", "p", NOON + HOUR),
            report("b", "m", "p", NOON + 24 * HOUR),
            outside,
            unselected,
        ],
        &query(),
    )
    .expect("a report");
    let graph: u64 = bundle.graph.iter().map(|record| record.total_tokens).sum();
    let models: u64 = bundle.models.iter().map(|record| record.total_tokens).sum();
    let hourly: u64 = bundle.hourly.iter().map(|record| record.total_tokens).sum();
    let agents: u64 = bundle.agents.iter().map(|record| record.total_tokens).sum();
    assert_eq!((graph, models, hourly, agents), (90, 90, 90, 90));
    let costs: u64 = bundle.graph.iter().map(|record| record.cost_nano_usd).sum();
    assert_eq!(costs, 15);
}

#[test]
fn only_timed_messages_with_tokens_are_samples() {
    let mut timed = report("a", "m", "p", NOON);
    timed.message.duration_ms = Some(250);
    let mut instant = report("a", "m", "p", NOON);
    instant.message.duration_ms = Some(0);
    let mut silent = report("a", "m", "p", NOON);
    silent.message.duration_ms = Some(100);
    silent.message.tokens = tokens(0, 0);
    let bundle = aggregate_remote_usage_v1(
        &[timed, instant, silent, report("a", "m", "p", NOON)],
        &query(),
    )
    .expect("a report");
    assert_eq!(bundle.models.len(), 1);
    assert_eq!(bundle.models[0].duration_millis, 250);
    assert_eq!(bundle.models[0].timed_tokens, 30);
    assert_eq!(bundle.models[0].sample_count, 1);
    assert_eq!(bundle.models[0].total_tokens, 90);
    assert_eq!(bundle.models[0].message_count, 4);
}

#[test]
fn saturation_of_one_message_is_reported() {
    let mut full = report("a", "m", "p", NOON);
    full.message.tokens = TokenBreakdown {
        input: i64::MAX,
        output: i64::MAX,
        cache_read: 2,
        cache_write: 0,
        reasoning: 0,
        cache_write_1h: 0,
    };
    let bundle = aggregate_remote_usage_v1(&[full], &query()).expect("a report");
    assert!(bundle.saturated);
    assert_eq!(bundle.graph[0].total_tokens, u64::MAX);
    assert_eq!(bundle.graph[0].input_tokens, i64::MAX as u64);
}

#[test]
fn an_empty_report_has_empty_pages() {
    let bundle = aggregate_remote_usage_v1(&[], &query()).expect("a report");
    assert!(bundle.graph.is_empty() && bundle.models.is_empty());
    assert!(bundle.hourly.is_empty() && bundle.agents.is_empty());
    assert!(!bundle.saturated);
}

#[test]
fn queries_that_are_no_queries_are_refused() {
    let mut unsorted = query();
    unsorted.clients = vec!["b".to_owned(), "a".to_owned()];
    assert_eq!(
        validate_query(&unsorted),
        Err(RemoteUsageError::InvalidQuery)
    );
    let mut repeated = query();
    repeated.clients = vec!["a".to_owned(), "a".to_owned()];
    assert_eq!(
        validate_query(&repeated),
        Err(RemoteUsageError::InvalidQuery)
    );
    let mut unnamed = query();
    unnamed.clients = vec![String::new()];
    assert_eq!(validate_query(&unnamed), Err(RemoteUsageError::InvalidText));
    let mut many = query();
    many.clients = (0..129).map(|number| format!("{number:03}")).collect();
    assert_eq!(validate_query(&many), Err(RemoteUsageError::LimitExceeded));
    let mut backwards = query();
    backwards.end_date_exclusive = "2024-11-03".to_owned();
    assert_eq!(
        validate_query(&backwards),
        Err(RemoteUsageError::InvalidQuery)
    );
    let mut undated = query();
    undated.start_date = "2024-11-3".to_owned();
    assert_eq!(
        validate_query(&undated),
        Err(RemoteUsageError::InvalidQuery)
    );
    assert_eq!(
        validate_query(&query()),
        Ok((date(2024, 11, 3), date(2024, 11, 5)))
    );
}

#[test]
fn a_query_spans_at_most_three_hundred_and_seventy_days() {
    let mut long = query();
    long.start_date = "2024-01-01".to_owned();
    long.end_date_exclusive = "2025-01-05".to_owned();
    assert_eq!(
        validate_query(&long),
        Ok((date(2024, 1, 1), date(2025, 1, 5)))
    );
    long.end_date_exclusive = "2025-01-06".to_owned();
    assert_eq!(validate_query(&long), Err(RemoteUsageError::InvalidQuery));
}

#[test]
fn more_messages_than_the_limit_are_refused() {
    let mut none = report("a", "m", "p", NOON);
    none.selected = false;
    let many = vec![none; 262_145];
    assert_eq!(
        aggregate_remote_usage_v1(&many, &query()),
        Err(RemoteUsageError::LimitExceeded)
    );
}

#[test]
fn dates_are_written_one_way_only() {
    assert_eq!(parse_date("2024-02-29"), Ok(date(2024, 2, 29)));
    assert_eq!(parse_date("0001-01-01"), Ok(date(1, 1, 1)));
    for wrong in [
        "",
        "2023-02-29",
        "2024-13-01",
        "2024/02/29",
        "2024-02-2a",
        " 024-02-29",
        "2024-02-291",
        "+024-02-29",
        "-001-01-01",
    ] {
        assert_eq!(parse_date(wrong), Err(RemoteUsageError::InvalidQuery));
    }
}

#[test]
fn texts_are_short_and_normal() {
    assert_eq!(validate_text("e\u{e9}", false), Ok(()));
    assert_eq!(
        validate_text("e\u{301}", false),
        Err(RemoteUsageError::InvalidText)
    );
    assert_eq!(validate_text("", true), Ok(()));
    assert_eq!(validate_text("", false), Err(RemoteUsageError::InvalidText));
    assert_eq!(validate_text(&"\u{e9}".repeat(127), false), Ok(()));
    assert_eq!(
        validate_text(&"\u{e9}".repeat(128), false),
        Err(RemoteUsageError::InvalidText)
    );
}

#[test]
fn time_zones_are_named_as_the_database_names_them() {
    let data: &[u8] = b"TZif";
    let entry = Some(("Europe/Paris", data));
    assert_eq!(
        accept_zone_entry("Europe/Paris", entry, Some("2026c")),
        Ok(data)
    );
    assert_eq!(
        accept_zone_entry("europe/paris", entry, Some("2026c")),
        Err(RemoteUsageError::InvalidTimeZone)
    );
    assert_eq!(
        accept_zone_entry("Europe/Paris", None, Some("2026c")),
        Err(RemoteUsageError::InvalidTimeZone)
    );
    assert_eq!(
        accept_zone_entry("Europe/Paris", entry, Some("2025a")),
        Err(RemoteUsageError::IncompatibleTzdb)
    );
    assert_eq!(
        accept_zone_entry("europe/paris", entry, None),
        Err(RemoteUsageError::IncompatibleTzdb)
    );
    let mut unnamed = query();
    unnamed.timezone = String::new();
    assert_eq!(
        aggregate_remote_usage_v1(&[], &unnamed),
        Err(RemoteUsageError::InvalidTimeZone)
    );
}

#[test]
fn local_dates_and_hours_are_those_of_the_time_zone() {
    let mut tokyo = query();
    tokyo.timezone = "Asia/Tokyo".to_owned();
    let bundle = aggregate_remote_usage_v1(
        &[report("a", "m", "p", NOON + 4 * HOUR + 1_800_123)],
        &tokyo,
    )
    .expect("a report");
    assert_eq!(bundle.graph[0].date, "2024-11-04");
    assert_eq!(bundle.hourly[0].utc_offset_seconds, 32_400);
    assert_eq!(bundle.hourly[0].bucket_start_unix_ms, NOON + 4 * HOUR);
    let mut kathmandu = query();
    kathmandu.timezone = "Asia/Kathmandu".to_owned();
    let bundle = aggregate_remote_usage_v1(&[report("a", "m", "p", NOON)], &kathmandu)
        .expect("a report");
    assert_eq!(bundle.hourly[0].utc_offset_seconds, 20_700);
    assert_eq!(
        bundle.hourly[0].bucket_start_unix_ms,
        NOON - 45 * 60_000
    );
}

#[test]
fn an_hour_starts_at_its_earliest_candidate() {
    let local = LocalHour {
        date: date(2024, 11, 3),
        hour: 1,
        offset: -14_400,
    };
    let other = LocalHour {
        offset: -18_000,
        ..local
    };
    let candidates = vec![
        HourCandidate {
            instant: 30,
            local,
        },
        HourCandidate {
            instant: 5,
            local: other,
        },
        HourCandidate {
            instant: 10,
            local,
        },
        HourCandidate {
            instant: 20,
            local,
        },
    ];
    assert_eq!(earliest_hour_start(&candidates, 25, local), Some(10));
    assert_eq!(earliest_hour_start(&candidates, 5, other), Some(5));
    assert_eq!(earliest_hour_start(&candidates, 9, local), None);
    assert_eq!(earliest_hour_start(&Vec::new(), 9, local), None);
}

#[test]
fn numerators_are_not_negative() {
    let plain = report("a", "m", "p", NOON);
    assert_eq!(
        validate_numerators(&plain),
        Ok(Numerators {
            input_tokens: 10,
            output_tokens: 20,
            cache_read_tokens: 0,
            cache_write_tokens: 0,
            reasoning_tokens: 0,
            message_count: 1,
            turn_count: 0,
            cost_nano_usd: 5,
            duration_millis: None,
        })
    );
    let mut negative = plain.clone();
    negative.message.tokens.reasoning = -1;
    assert_eq!(
        validate_numerators(&negative),
        Err(RemoteUsageError::InvalidNumerator)
    );
    let mut uncounted = plain.clone();
    uncounted.message.message_count = -1;
    assert_eq!(
        validate_numerators(&uncounted),
        Err(RemoteUsageError::InvalidNumerator)
    );
    let mut backwards = plain.clone();
    backwards.message.duration_ms = Some(-1);
    assert_eq!(
        validate_numerators(&backwards),
        Err(RemoteUsageError::InvalidNumerator)
    );
    let mut priceless = plain;
    priceless.cost_nano_usd = None;
    assert_eq!(
        aggregate_remote_usage_v1(&[priceless], &query()),
        Err(RemoteUsageError::InvalidNumerator)
    );
}

#[test]
fn names_are_trimmed_and_may_be_missing() {
    assert_eq!(
        normalize_model(" GPT ", "gpt"),
        Ok(Some("gpt".to_owned()))
    );
    assert_eq!(normalize_model("\u{a0}\t", "gpt"), Ok(None));
    assert_eq!(
        normalize_model("GPT", ""),
        Err(RemoteUsageError::InvalidText)
    );
    assert_eq!(
        normalize_model("e\u{301}", "e"),
        Err(RemoteUsageError::InvalidText)
    );
    assert_eq!(
        normalize_provider("\u{3000}openai\n"),
        Ok(Some("openai".to_owned()))
    );
    assert_eq!(normalize_provider("  "), Ok(None));
}

#[test]
fn agents_have_a_name_for_their_client() {
    let named = Some("Agent".to_owned());
    assert_eq!(
        normalize_agent("codex", &named, "agent", "copilot agent"),
        Ok("agent".to_owned())
    );
    assert_eq!(
        normalize_agent("copilot", &named, "agent", "copilot agent"),
        Ok("copilot agent".to_owned())
    );
    assert_eq!(
        normalize_agent("codex", &named, "", "x"),
        Ok("Main".to_owned())
    );
    assert_eq!(
        normalize_agent("codex", &None, "agent", "x"),
        Ok("Main".to_owned())
    );
    assert_eq!(
        normalize_agent("codex", &Some("a".repeat(256)), "agent", "x"),
        Err(RemoteUsageError::InvalidText)
    );
    assert_eq!(
        normalize_agent("codex", &named, "e\u{301}", "x"),
        Err(RemoteUsageError::InvalidText)
    );
}

#[test]
fn a_message_outside_the_range_is_checked_but_not_counted() {
    let time = MessageTime {
        local: LocalHour {
            date: date(2024, 11, 3),
            hour: 12,
            offset: 0,
        },
        bucket_start_unix_ms: NOON,
    };
    let mut misnamed = report("a", "e\u{301}", "p", NOON);
    let inside = prepare_message(&misnamed, time, date(2024, 11, 3), date(2024, 11, 4));
    assert!(matches!(inside, Err(RemoteUsageError::InvalidText)));
    let outside = prepare_message(&misnamed, time, date(2024, 11, 4), date(2024, 11, 5));
    assert!(matches!(outside, Ok(None)));
    misnamed.message.client = String::new();
    let unnamed = prepare_message(&misnamed, time, date(2024, 11, 4), date(2024, 11, 5));
    assert!(matches!(unnamed, Err(RemoteUsageError::InvalidText)));
    let counted = prepare_message(
        &report("a", "m", "p", NOON),
        time,
        date(2024, 11, 3),
        date(2024, 11, 4),
    );
    match counted {
        Ok(Some(message)) => {
            assert_eq!(message.date_text, "2024-11-03");
            assert_eq!(message.bucket_start_unix_ms, NOON);
            assert_eq!(message.utc_offset_seconds, 0);
            assert_eq!(message.agent, "Main");
        }
        _ => panic!("the message counts"),
    }
}

#[test]
fn sums_stop_at_the_largest_number() {
    let mut total: u64 = 7;
    let mut saturated = false;
    saturating_add(&mut total, 8, &mut saturated);
    assert_eq!((total, saturated), (15, false));
    saturating_add(&mut total, u64::MAX - 14, &mut saturated);
    assert_eq!((total, saturated), (u64::MAX, true));
    let mut saturated = false;
    assert_eq!(token_total(&amounts(3, 4), &mut saturated), 7);
    assert!(!saturated);
    assert_eq!(token_total(&amounts(u64::MAX, 1), &mut saturated), u64::MAX);
    assert!(saturated);
}

#[test]
fn a_fold_reads_messages_one_by_one() {
    let mut asked = query();
    asked.clients = vec!["a".to_owned(), "b".to_owned()];
    let mut fold = RemoteUsageFold::new(&asked).expect("a fold");
    assert_eq!(
        fold.exact_clients(),
        Some(&vec!["a".to_owned(), "b".to_owned()])
    );
    assert_eq!(fold.push(&report("a", "m", "p", NOON)), Ok(()));
    assert_eq!(
        fold.push(&report("a", "m", "p", 0)),
        Err(RemoteUsageError::InvalidTimestamp)
    );
    assert_eq!(
        fold.push(&report("a", "m", "p", -1)),
        Err(RemoteUsageError::InvalidTimestamp)
    );
    let bundle = fold.finish().expect("a report");
    assert_eq!(bundle.graph.len(), 1);
    let all = RemoteUsageFold::new(&query()).expect("a fold");
    assert_eq!(all.exact_clients(), None);
}

#[test]
fn errors_say_what_they_are() {
    let words: Vec<String> = [
        RemoteUsageError::InvalidQuery,
        RemoteUsageError::IncompatibleTzdb,
        RemoteUsageError::InvalidTimeZone,
        RemoteUsageError::InvalidTimestamp,
        RemoteUsageError::InvalidText,
        RemoteUsageError::InvalidNumerator,
        RemoteUsageError::LimitExceeded,
    ]
    .iter()
    .map(RemoteUsageError::describe)
    .collect();
    assert_eq!(
        words,
        vec![
            "invalid query",
            "incompatible tzdb",
            "invalid timezone",
            "invalid timestamp",
            "invalid text",
            "invalid numerator",
            "limit exceeded",
        ]
    );
}

#[test]
fn dates_are_ordered_by_year_month_and_day() {
    assert!(date(2023, 12, 31).is_before(&date(2024, 1, 1)));
    assert!(date(2024, 1, 31).is_before(&date(2024, 2, 1)));
    assert!(date(2024, 2, 1).is_before(&date(2024, 2, 2)));
    assert!(!date(2024, 2, 2).is_before(&date(2024, 2, 2)));
    assert!(!date(2024, 3, 1).is_before(&date(2024, 2, 2)));
}

#[test]
fn messages_are_added_at_a_time() {
    let time = MessageTime {
        local: LocalHour {
            date: date(2024, 11, 3),
            hour: 1,
            offset: -18_000,
        },
        bucket_start_unix_ms: 1_730_613_600_000,
    };
    let (start, end) = (date(2024, 11, 3), date(2024, 11, 4));
    let mut accumulator = RemoteUsageAccumulator::new();
    let read = accumulator.add_at(&report("a", "m", "p", 1), Ok(time), start, end);
    assert_eq!(read, Ok(()));
    let failed = accumulator.add_at(
        &report("a", "m", "p", 1),
        Err(RemoteUsageError::InvalidTimestamp),
        start,
        end,
    );
    assert_eq!(failed, Err(RemoteUsageError::InvalidTimestamp));
    let bundle = accumulator.finish().expect("a report");
    assert_eq!(bundle.graph[0].date, "2024-11-03");
    assert_eq!(bundle.graph[0].total_tokens, 30);
    assert_eq!(bundle.hourly[0].utc_offset_seconds, -18_000);
    assert_eq!(bundle.hourly[0].bucket_start_unix_ms, 1_730_613_600_000);
}

#[test]
fn messages_that_do_not_count_are_neutral() {
    let counted = [
        report("a", "m", "p", NOON),
        report("b", "m", "p", NOON + HOUR),
    ];
    let mut unselected = report("c", "m", "p", NOON);
    unselected.selected = false;
    let all = [
        report("z", "m", "p", NOON - 24 * HOUR),
        report("a", "m", "p", NOON),
        unselected,
        report("b", "m", "p", NOON + HOUR),
        report("z", "m", "p", NOON + 48 * HOUR),
    ];
    let without = aggregate_remote_usage_v1(&counted, &query()).expect("a report");
    let with = aggregate_remote_usage_v1(&all, &query()).expect("a report");
    assert_eq!(without.graph.len(), 2);
    assert_eq!(with, without);
}
