use tokscale_core::sessions::antigravity_cli::{
    file_uri_to_path, hex_value, parse_antigravity_cli_file, parse_gen_metadata, percent_decode,
    proto_timestamp_ms, read_step_timestamps, response_model, session_created_ms, workspace_path,
    ConversationFile, GenerationRow, SeenResponses, StepTimestamp, StepTimestamps,
};
use tokscale_core::wire::{message_field, string_field, varint_field, ProtoReader};
use tokscale_core::{CostSource, UnifiedMessage};

fn enc_varint(field: u64, value: u64) -> Vec<u8> {
    let mut out = encode_varint(field << 3);
    out.extend(encode_varint(value));
    out
}

fn enc_len(field: u64, payload: &[u8]) -> Vec<u8> {
    let mut out = encode_varint((field << 3) | 2);
    out.extend(encode_varint(payload.len() as u64));
    out.extend_from_slice(payload);
    out
}

fn encode_varint(mut value: u64) -> Vec<u8> {
    let mut out = Vec::new();
    loop {
        let mut byte = (value & 0x7f) as u8;
        value >>= 7;
        if value != 0 {
            byte |= 0x80;
        }
        out.push(byte);
        if value == 0 {
            break;
        }
    }
    out
}

fn build_gen_metadata() -> Vec<u8> {
    build_gen_metadata_with_model("gemini-3-flash-a")
}

fn build_gen_metadata_with_model(model: &str) -> Vec<u8> {
    build_gen_metadata_full(model, Some(b"resp-1"), None)
}

fn build_gen_metadata_full(
    model: &str,
    response_id: Option<&[u8]>,
    native_ts: Option<(u64, u64)>,
) -> Vec<u8> {
    let mut usage = Vec::new();
    usage.extend(enc_varint(1, 1132)); // fixed system prompt
    usage.extend(enc_varint(2, 500)); // new input
    usage.extend(enc_varint(5, 16000)); // cacheRead
    usage.extend(enc_varint(9, 300)); // output
    usage.extend(enc_varint(10, 40)); // thinking
    if let Some(resp_id) = response_id {
        usage.extend(enc_len(11, resp_id)); // responseId
    }

    let mut chat_model = Vec::new();
    chat_model.extend(enc_len(4, &usage));
    if let Some((sec, nano)) = native_ts {
        let mut gen_time = Vec::new();
        gen_time.extend(enc_varint(1, sec));
        gen_time.extend(enc_varint(2, nano));
        let gen9 = enc_len(4, &gen_time);
        chat_model.extend(enc_len(9, &gen9));
    }
    chat_model.extend(enc_len(19, model.as_bytes()));

    enc_len(1, &chat_model)
}

fn build_step_metadata_raw(response_id: Option<&[u8]>, ts_bytes: Option<&[u8]>) -> Vec<u8> {
    let mut metadata = Vec::new();
    if let Some(ts) = ts_bytes {
        metadata.extend(enc_len(1, ts));
    }
    if let Some(resp_id) = response_id {
        let mut m9 = Vec::new();
        m9.extend(enc_len(11, resp_id));
        metadata.extend(enc_len(9, &m9));
    }
    metadata
}

fn build_step_metadata(response_id: &[u8], seconds: u64, nanos: u64) -> Vec<u8> {
    let mut ts = Vec::new();
    ts.extend(enc_varint(1, seconds));
    ts.extend(enc_varint(2, nanos));
    build_step_metadata_raw(Some(response_id), Some(&ts))
}

fn assert_standard_message_fields(msg: &UnifiedMessage, expected_dedup: Option<&str>) {
    assert_eq!(msg.client, "antigravity-cli");
    assert_eq!(msg.model_id, "gemini-3.5-flash-high");
    assert_eq!(msg.provider_id, "google");
    assert_eq!(msg.tokens.input, 1632);
    assert_eq!(msg.tokens.output, 300);
    assert_eq!(msg.tokens.cache_read, 16000);
    assert_eq!(msg.tokens.reasoning, 40);
    assert_eq!(msg.tokens.cache_write, 0);
    assert_eq!(msg.dedup_key.as_deref(), expected_dedup);
}

fn build_trajectory_meta() -> Vec<u8> {
    let workspace = enc_len(1, b"file:///C:/Users/Frank/obsidian-vault");
    let created = {
        let mut created = Vec::new();
        created.extend(enc_varint(1, 1_781_502_653)); // seconds
        created.extend(enc_varint(2, 0)); // nanos
        created
    };
    let mut blob = Vec::new();
    blob.extend(enc_len(1, &workspace));
    blob.extend(enc_len(2, &created));
    blob
}

fn price_list_name(model: &str) -> Option<String> {
    match model {
        "gemini-3-flash-a" | "gemini-3-flash-agent" => Some("gemini-3.5-flash-high".to_owned()),
        _ => None,
    }
}

fn generation(idx: Option<i64>, data: Vec<u8>) -> GenerationRow {
    let model = response_model(&data);
    let alias = model.as_deref().and_then(price_list_name);
    let provider = alias
        .as_deref()
        .or(model.as_deref())
        .filter(|name| name.starts_with("gemini"))
        .map(|_| "google".to_owned());
    GenerationRow {
        idx,
        data,
        alias,
        provider,
    }
}

fn conversation(
    stem: &str,
    generations: Vec<(i64, Vec<u8>)>,
    trajectory: Option<Vec<u8>>,
    steps: Vec<Vec<u8>>,
) -> ConversationFile {
    let workspace_key = trajectory.as_deref().and_then(workspace_path);
    let workspace_label = workspace_key
        .as_deref()
        .and_then(|key| key.rsplit('/').next())
        .map(|label| label.to_owned());
    ConversationFile {
        stem: Some(stem.to_owned()),
        trajectory,
        modified_ms: 1_700_000_000_000,
        workspace_key,
        workspace_label,
        generations: generations
            .into_iter()
            .map(|(idx, data)| generation(Some(idx), data))
            .collect(),
        steps,
    }
}

fn parse_gen_metadata_default(
    blob: &[u8],
    session_id: &str,
    session_timestamp: i64,
    step_timestamps: &StepTimestamps,
    seen_response_ids: &mut SeenResponses,
) -> Option<UnifiedMessage> {
    parse_gen_metadata(
        &generation(None, blob.to_vec()),
        session_id,
        session_timestamp,
        step_timestamps,
        seen_response_ids,
    )
}

#[test]
fn overlarge_varint_token_counts_are_clamped_not_wrapped() {
    // A corrupt blob encoding a varint > i64::MAX must clamp to a
    // non-negative i64 (saturating), never wrap `as i64` to a negative count.
    let mut usage = Vec::new();
    usage.extend(enc_varint(1, u64::MAX)); // huge fixed system prompt
    usage.extend(enc_varint(2, 10)); // + small input -> saturating_add
    usage.extend(enc_varint(9, u64::MAX)); // huge output
    usage.extend(enc_len(11, b"resp-overflow"));
    let mut chat_model = Vec::new();
    chat_model.extend(enc_len(4, &usage));
    chat_model.extend(enc_len(19, b"gemini-3-flash-a"));
    let blob = enc_len(1, &chat_model);

    let mut seen = SeenResponses::new();
    let msg =
        parse_gen_metadata_default(&blob, "s", 1_000, &StepTimestamps::empty(), &mut seen)
            .expect("parses");
    assert_eq!(msg.tokens.output, i64::MAX);
    assert_eq!(msg.tokens.input, i64::MAX); // saturating_add, not negative
    assert!(msg.tokens.input >= 0 && msg.tokens.output >= 0);
}

#[test]
fn parses_tokens_model_and_workspace_from_db() {
    let file = conversation(
        "session-test",
        vec![(0, build_gen_metadata())],
        Some(build_trajectory_meta()),
        Vec::new(),
    );
    let messages = parse_antigravity_cli_file(&file);
    assert_eq!(messages.len(), 1);
    let message = &messages[0];
    assert_eq!(message.client, "antigravity-cli");
    // The price list knows the raw response model under another name.
    assert_eq!(message.model_id, "gemini-3.5-flash-high");
    assert_eq!(message.provider_id, "google");
    assert_eq!(message.session_id, "session-test");
    assert_eq!(message.tokens.input, 1632); // 1132 + 500
    assert_eq!(message.tokens.cache_read, 16000);
    assert_eq!(message.tokens.output, 300);
    assert_eq!(message.tokens.reasoning, 40);
    assert_eq!(message.dedup_key.as_deref(), Some("resp-1"));
    assert_eq!(message.timestamp, 1_781_502_653_000);
    assert_eq!(
        message.workspace_key.as_deref(),
        Some("C:/Users/Frank/obsidian-vault")
    );
    assert_eq!(message.workspace_label.as_deref(), Some("obsidian-vault"));
}

#[test]
fn resolves_current_antigravity_cli_response_model() {
    let blob = build_gen_metadata_with_model("gemini-3-flash-agent");
    let mut seen = SeenResponses::new();

    let message = parse_gen_metadata_default(
        &blob,
        "session",
        1_000,
        &StepTimestamps::empty(),
        &mut seen,
    )
    .unwrap();

    assert_eq!(message.model_id, "gemini-3.5-flash-high");
    assert_eq!(message.provider_id, "google");
}

#[test]
fn per_generation_timestamp_overrides_session_fallback() {
    // chatModel.#9.#4 = {#1: seconds, #2: nanos} is the per-turn wall-clock
    // stamp. When present it dates the row; when absent the row falls back
    // to the session-created timestamp passed in.
    let session_fallback = 111_000_i64;

    let mut usage = Vec::new();
    usage.extend(enc_varint(2, 500)); // input
    usage.extend(enc_varint(9, 300)); // output
    usage.extend(enc_len(11, b"with-time")); // responseId

    // #9 wraps a sub-message whose #4 is the {seconds, nanos} Timestamp.
    let mut gen_time = Vec::new();
    gen_time.extend(enc_varint(1, 1_781_000_000)); // seconds
    gen_time.extend(enc_varint(2, 250_000_000)); // nanos -> +250ms
    let gen9 = enc_len(4, &gen_time);

    let mut chat_model = Vec::new();
    chat_model.extend(enc_len(4, &usage));
    chat_model.extend(enc_len(9, &gen9));
    chat_model.extend(enc_len(19, b"gemini-3-flash-a"));
    let blob = enc_len(1, &chat_model);

    let mut seen = SeenResponses::new();
    let message = parse_gen_metadata_default(
        &blob,
        "s",
        session_fallback,
        &StepTimestamps::empty(),
        &mut seen,
    )
    .unwrap();
    assert_eq!(
        message.timestamp,
        1_781_000_000 * 1000 + 250,
        "per-generation #9.#4 timestamp must override the session fallback"
    );

    // The same row shape without #9 falls back to the session timestamp
    // (build_gen_metadata carries no #9.#4).
    let mut seen2 = SeenResponses::new();
    let fallback_msg = parse_gen_metadata_default(
        &build_gen_metadata(),
        "s",
        session_fallback,
        &StepTimestamps::empty(),
        &mut seen2,
    )
    .unwrap();
    assert_eq!(
        fallback_msg.timestamp, session_fallback,
        "a row without #9.#4 must use the session-created fallback"
    );
}

#[test]
fn dedupes_repeated_response_ids_and_skips_zero_usage() {
    // Two rows share responseId "dup"; a third row has all-zero usage.
    let mut zero_usage = Vec::new();
    zero_usage.extend(enc_len(11, b"zero"));
    let mut zero_chat = Vec::new();
    zero_chat.extend(enc_len(4, &zero_usage));
    zero_chat.extend(enc_len(19, b"gemini-3-flash-a"));
    let zero_blob = enc_len(1, &zero_chat);

    let file = conversation(
        "dupes",
        vec![
            (0, build_gen_metadata()),
            (1, build_gen_metadata()),
            (2, zero_blob),
        ],
        None,
        Vec::new(),
    );

    let messages = parse_antigravity_cli_file(&file);
    // Only the first "resp-1" row survives; the duplicate and the zero-usage row are dropped.
    // Without trajectory metadata the file's own time dates the row.
    assert_eq!(messages.len(), 1);
    assert!(messages[0].timestamp > 0);
    assert_eq!(messages[0].timestamp, 1_700_000_000_000);
}


#[test]
fn output_and_thinking_map_to_fields_9_and_10() {
    // Lock the field-mapping contract asserted by the module doc-comment:
    // `#9 + #10 == #3` (output + thinking == stored total output). Build a
    // synthetic blob where #9=output, #10=thinking, #3=output+thinking and
    // verify the parsed message keeps #9 as output and #10 as reasoning.
    let output = 300u64;
    let thinking = 40u64;
    let total_output = output + thinking; // #3

    let mut usage = Vec::new();
    usage.extend(enc_varint(1, 1132)); // fixed system prompt
    usage.extend(enc_varint(2, 500)); // new input
    usage.extend(enc_varint(3, total_output)); // stored total output (#3)
    usage.extend(enc_varint(9, output)); // output (#9)
    usage.extend(enc_varint(10, thinking)); // thinking (#10)
    usage.extend(enc_len(11, b"invariant-1"));

    let mut chat_model = Vec::new();
    chat_model.extend(enc_len(4, &usage));
    chat_model.extend(enc_len(19, b"gemini-3-flash-a"));
    let blob = enc_len(1, &chat_model);

    let mut seen = SeenResponses::new();
    let message =
        parse_gen_metadata_default(&blob, "session", 0, &StepTimestamps::empty(), &mut seen)
            .unwrap();
    assert_eq!(message.tokens.output, output as i64);
    assert_eq!(message.tokens.reasoning, thinking as i64);
    // The contract: the two component fields sum to the stored total.
    assert_eq!(
        (message.tokens.output + message.tokens.reasoning) as u64,
        total_output
    );
}

#[test]
fn malformed_blob_returns_none_without_panic() {
    let mut seen = SeenResponses::new();
    // Empty buffer: no chatModel sub-message.
    assert!(
        parse_gen_metadata_default(&[], "s", 0, &StepTimestamps::empty(), &mut seen)
            .is_none()
    );
    // Garbage bytes that do not form a valid wire-format message.
    assert!(parse_gen_metadata_default(
        &[0xff, 0xff, 0xff, 0xff],
        "s",
        0,
        &StepTimestamps::empty(),
        &mut seen
    )
    .is_none());
    // A length-delimited #1 whose declared length overruns the buffer:
    // exercises the ProtoReader bounds check (must stop, not index OOB).
    let truncated = [(1u8 << 3) | 2, 0x7f, 0x01, 0x02];
    assert!(parse_gen_metadata_default(
        &truncated,
        "s",
        0,
        &StepTimestamps::empty(),
        &mut seen
    )
    .is_none());
    // Valid outer #1 wrapping a #4 usage whose declared length overruns:
    // the inner reader must bail without panicking.
    let inner = [(4u8 << 3) | 2, 0x40, 0x00];
    let mut outer = vec![(1u8 << 3) | 2, inner.len() as u8];
    outer.extend_from_slice(&inner);
    assert!(
        parse_gen_metadata_default(&outer, "s", 0, &StepTimestamps::empty(), &mut seen)
            .is_none()
    );
}

#[test]
fn proto_timestamp_ms_overflow_returns_none_without_panic() {
    // A malformed Timestamp can carry a `seconds` varint whose `* 1000`
    // overflows i64. Debug builds (overflow-checks = on) would panic on the
    // unchecked multiply; the decode must degrade to None instead, matching
    // the module's malformed-data contract.
    let mut overflow = Vec::new();
    overflow.extend(enc_varint(1, i64::MAX as u64)); // seconds -> *1000 overflows
    overflow.extend(enc_varint(2, 0)); // nanos
    assert_eq!(proto_timestamp_ms(&overflow), None);

    // The boundary case: largest `seconds` whose *1000 still fits i64 must
    // decode, proving the guard rejects only genuine overflow.
    let ok_seconds = i64::MAX / 1000;
    let mut ok = Vec::new();
    ok.extend(enc_varint(1, ok_seconds as u64));
    ok.extend(enc_varint(2, 0));
    assert_eq!(proto_timestamp_ms(&ok), Some(ok_seconds * 1000));

    // A normal, in-range stamp still decodes (seconds + nanos -> ms).
    let mut normal = Vec::new();
    normal.extend(enc_varint(1, 1_781_000_000));
    normal.extend(enc_varint(2, 250_000_000)); // +250ms
    assert_eq!(
        proto_timestamp_ms(&normal),
        Some(1_781_000_000 * 1000 + 250)
    );
}

#[test]
fn proto_timestamp_ms_rejects_out_of_range_nanos() {
    // The protobuf Timestamp spec requires `nanos` in 0..=999_999_999.
    // An out-of-range `nanos` marks the stamp malformed (None) rather than
    // producing a skewed time. 1_000_000_000 (== one extra second) is the
    // first invalid value above the inclusive upper bound.
    let mut bad_nanos = Vec::new();
    bad_nanos.extend(enc_varint(1, 1_781_000_000)); // valid seconds
    bad_nanos.extend(enc_varint(2, 1_000_000_000)); // nanos out of range
    assert_eq!(proto_timestamp_ms(&bad_nanos), None);

    // A nanos varint large enough to be negative once cast to i64 is also
    // rejected (never wraps to a bogus negative offset).
    let mut huge_nanos = Vec::new();
    huge_nanos.extend(enc_varint(1, 1_781_000_000));
    huge_nanos.extend(enc_varint(2, u64::MAX));
    assert_eq!(proto_timestamp_ms(&huge_nanos), None);

    // The inclusive upper bound is accepted (999_999_999 ns -> +999 ms).
    let mut max_nanos = Vec::new();
    max_nanos.extend(enc_varint(1, 1_781_000_000));
    max_nanos.extend(enc_varint(2, 999_999_999));
    assert_eq!(
        proto_timestamp_ms(&max_nanos),
        Some(1_781_000_000 * 1000 + 999)
    );

    // End-to-end: a gen_metadata row whose #9.#4 carries out-of-range nanos
    // must fall back to the session-created timestamp (the caller's invalid
    // -> None -> session fallback path), not adopt a skewed per-turn stamp.
    let session_fallback = 222_000_i64;
    let mut usage = Vec::new();
    usage.extend(enc_varint(2, 500)); // input
    usage.extend(enc_varint(9, 300)); // output
    usage.extend(enc_len(11, b"bad-nanos")); // responseId

    let mut gen_time = Vec::new();
    gen_time.extend(enc_varint(1, 1_781_000_000)); // seconds
    gen_time.extend(enc_varint(2, 1_000_000_000)); // nanos out of range
    let gen9 = enc_len(4, &gen_time);

    let mut chat_model = Vec::new();
    chat_model.extend(enc_len(4, &usage));
    chat_model.extend(enc_len(9, &gen9));
    chat_model.extend(enc_len(19, b"gemini-3-flash-a"));
    let blob = enc_len(1, &chat_model);

    let mut seen = SeenResponses::new();
    let message = parse_gen_metadata_default(
        &blob,
        "s",
        session_fallback,
        &StepTimestamps::empty(),
        &mut seen,
    )
    .unwrap();
    assert_eq!(
        message.timestamp, session_fallback,
        "out-of-range per-generation nanos must fall back to the session timestamp"
    );
}

#[test]
fn file_uri_to_path_handles_windows_posix_and_unc() {
    // Empty authority + Windows drive: drop the slash before the drive.
    assert_eq!(
        file_uri_to_path("file:///C:/Users/Frank/obsidian-vault").as_deref(),
        Some("C:/Users/Frank/obsidian-vault")
    );
    // Empty authority + POSIX absolute: keep as-is.
    assert_eq!(
        file_uri_to_path("file:///home/frank/project").as_deref(),
        Some("/home/frank/project")
    );
    // Non-empty authority is a UNC path; the host must survive as `//host`.
    assert_eq!(
        file_uri_to_path("file://server/share/code").as_deref(),
        Some("//server/share/code")
    );
    // Percent-encoded UTF-8 (CJK) decodes to valid characters.
    assert_eq!(
        file_uri_to_path("file:///D:/%E6%88%91%E7%9A%84").as_deref(),
        Some("D:/我的")
    );
    // Anything without the scheme prefix is rejected.
    assert_eq!(file_uri_to_path("not-a-file-uri"), None);
}

#[test]
fn native_timestamp_takes_precedence_over_step_and_session() {
    let native_sec = 1_783_000_000u64;
    let native_nano = 250_000_000u64;
    let expected_native_ms = 1_783_000_000 * 1000 + 250;
    let step_sec = 1_782_000_000u64;
    let step_nano = 100_000_000u64;
    let file = conversation(
        "native-precedence",
        vec![(0, build_gen_metadata_full("gemini-3-flash-a", Some(b"resp-1"), Some((native_sec, native_nano))))],
        Some(build_trajectory_meta()),
        vec![
            build_step_metadata(b"resp-1", step_sec, step_nano),
        ],
    );

    let messages = parse_antigravity_cli_file(&file);
    assert_eq!(messages.len(), 1);
    let msg = &messages[0];
    assert_eq!(msg.timestamp, expected_native_ms);
    assert_standard_message_fields(msg, Some("resp-1"));
}

#[test]
fn steps_join_succeeds_when_native_timestamp_absent() {
    let step_sec = 1_782_000_000u64;
    let step_nano = 100_000_000u64;
    let expected_step_ms = 1_782_000_000 * 1000 + 100;
    let file = conversation(
        "steps-join",
        vec![(0, build_gen_metadata_full("gemini-3-flash-a", Some(b"resp-1"), None))],
        Some(build_trajectory_meta()),
        vec![
            build_step_metadata(b"resp-1", step_sec, step_nano),
        ],
    );

    let messages = parse_antigravity_cli_file(&file);
    assert_eq!(messages.len(), 1);
    let msg = &messages[0];
    assert_eq!(msg.timestamp, expected_step_ms);
    assert_standard_message_fields(msg, Some("resp-1"));
}

#[test]
fn join_fallback_when_generation_has_no_response_id() {
    let file = conversation(
        "no-response-id",
        vec![(0, build_gen_metadata_full("gemini-3-flash-a", None, None))],
        Some(build_trajectory_meta()),
        vec![
            build_step_metadata(b"resp-1", 1_782_000_000, 0),
        ],
    );

    let messages = parse_antigravity_cli_file(&file);
    assert_eq!(messages.len(), 1);
    let msg = &messages[0];
    assert_eq!(msg.timestamp, 1_781_502_653_000);
    assert_standard_message_fields(msg, None);
}

#[test]
fn join_fallback_when_multiple_steps_match_response_id() {
    let file = conversation(
        "ambiguous-steps",
        vec![(0, build_gen_metadata_full("gemini-3-flash-a", Some(b"resp-1"), None))],
        Some(build_trajectory_meta()),
        vec![
            build_step_metadata(b"resp-1", 1_782_000_000, 0),
            build_step_metadata(b"resp-1", 1_782_500_000, 0),
        ],
    );

    let messages = parse_antigravity_cli_file(&file);
    assert_eq!(messages.len(), 1);
    let msg = &messages[0];
    assert_eq!(msg.timestamp, 1_781_502_653_000);
    assert_standard_message_fields(msg, Some("resp-1"));
}

#[test]
fn join_fallback_when_multiple_steps_have_identical_timestamps() {
    let file = conversation(
        "identical-ambiguous-steps",
        vec![(0, build_gen_metadata_full("gemini-3-flash-a", Some(b"resp-1"), None))],
        Some(build_trajectory_meta()),
        vec![
            build_step_metadata(b"resp-1", 1_782_000_000, 0),
            build_step_metadata(b"resp-1", 1_782_000_000, 0),
        ],
    );

    let messages = parse_antigravity_cli_file(&file);
    assert_eq!(messages.len(), 1);
    let msg = &messages[0];
    assert_eq!(msg.timestamp, 1_781_502_653_000);
    assert_standard_message_fields(msg, Some("resp-1"));
}

#[test]
fn join_fallback_when_step_timestamp_is_invalid() {
    // Step timestamp carries out-of-range nanos (1_000_000_000)
    let mut bad_ts = Vec::new();
    bad_ts.extend(enc_varint(1, 1_782_000_000));
    bad_ts.extend(enc_varint(2, 1_000_000_000));
    let file = conversation(
        "invalid-step-time",
        vec![(0, build_gen_metadata_full("gemini-3-flash-a", Some(b"resp-1"), None))],
        Some(build_trajectory_meta()),
        vec![
            build_step_metadata_raw(Some(b"resp-1"), Some(&bad_ts)),
        ],
    );

    let messages = parse_antigravity_cli_file(&file);
    assert_eq!(messages.len(), 1);
    let msg = &messages[0];
    assert_eq!(msg.timestamp, 1_781_502_653_000);
    assert_standard_message_fields(msg, Some("resp-1"));
}

#[test]
fn join_fallback_when_steps_table_missing_or_empty() {
    let file = conversation(
        "missing-steps",
        vec![(0, build_gen_metadata_full("gemini-3-flash-a", Some(b"resp-1"), None))],
        Some(build_trajectory_meta()),
        Vec::new(),
    );

    let messages = parse_antigravity_cli_file(&file);
    assert_eq!(messages.len(), 1);
    let msg = &messages[0];
    assert_eq!(msg.timestamp, 1_781_502_653_000);
    assert_standard_message_fields(msg, Some("resp-1"));
}

#[test]
fn read_step_timestamps_filters_and_marks_ambiguous() {
    let timestamps = read_step_timestamps(&vec![
        build_step_metadata(b"key-unique", 1_782_000_000, 0),
        build_step_metadata(b"key-ambig", 1_782_000_000, 0),
        build_step_metadata(b"key-ambig", 1_782_100_000, 0),
    ]);

    let map = &timestamps.by_response_id;
    assert_eq!(
        map.lookup(&b"key-unique".to_vec()),
        Some(&StepTimestamp::Unique(1_782_000_000_000))
    );
    assert_eq!(map.lookup(&b"key-ignored-type".to_vec()), None);
    assert_eq!(
        map.lookup(&b"key-ambig".to_vec()),
        Some(&StepTimestamp::Ambiguous)
    );
    assert_eq!(
        timestamps.response_time(b"key-unique"),
        Some(1_782_000_000_000)
    );
    assert_eq!(timestamps.response_time(b"key-ambig"), None);
}

fn build_row_with_gen9(gen9: &[u8], response_id: &str) -> Vec<u8> {
    let mut usage = Vec::new();
    usage.extend(enc_varint(2, 500)); // input
    usage.extend(enc_varint(9, 300)); // output
    usage.extend(enc_len(11, response_id.as_bytes())); // responseId

    let mut chat_model = Vec::new();
    chat_model.extend(enc_len(4, &usage));
    chat_model.extend(enc_len(9, gen9));
    chat_model.extend(enc_len(19, b"gemini-3-flash-a"));
    enc_len(1, &chat_model)
}

fn build_step_meta(seconds: i64, resp_id: Option<&str>, gen_idx: Option<u64>) -> Vec<u8> {
    let mut ts = Vec::new();
    ts.extend(enc_varint(1, seconds as u64));
    ts.extend(enc_varint(2, 0));

    let mut meta = Vec::new();
    meta.extend(enc_len(1, &ts));
    if let Some(resp_id) = resp_id {
        meta.extend(enc_len(9, &enc_len(11, resp_id.as_bytes())));
    }
    if let Some(gen_idx) = gen_idx {
        meta.extend(enc_len(20, &enc_varint(3, gen_idx)));
    }
    meta
}

/// A session whose generations carry cache metadata in place of a time of their own.
fn modern_session(stem: &str, rows: &[(i64, &str)], steps: Vec<Vec<u8>>) -> ConversationFile {
    let cache_metadata = enc_len(10, b"cache metadata payload that is not a timestamp");
    conversation(
        stem,
        rows.iter()
            .map(|(idx, resp_id)| (*idx, build_row_with_gen9(&cache_metadata, resp_id)))
            .collect(),
        Some(build_trajectory_meta()),
        steps,
    )
}

#[test]
fn steps_table_dates_modern_agy_turns_by_response_id() {
    let session_created_ms = 1_781_502_653_000_i64;
    let turn1_seconds = 1_789_200_000_i64;
    let turn2_seconds = 1_789_217_157_i64;
    let file = modern_session(
        "steps-timestamp",
        &[(0, "resp-step-1"), (1, "resp-step-2")],
        vec![
            build_step_meta(turn1_seconds, Some("resp-step-1"), None),
            build_step_meta(turn2_seconds, Some("resp-step-2"), None),
        ],
    );

    let messages = parse_antigravity_cli_file(&file);
    assert_eq!(messages.len(), 2);
    assert_eq!(messages[0].timestamp, turn1_seconds * 1_000);
    assert_eq!(messages[1].timestamp, turn2_seconds * 1_000);
    assert!(messages.iter().all(|m| m.timestamp != session_created_ms));
}

#[test]
fn steps_table_dates_modern_agy_turns_by_gen_idx_with_gaps() {
    let session_created_ms = 1_781_502_653_000_i64;
    let turn1_seconds = 1_789_200_000_i64;
    let turn2_seconds = 1_789_217_157_i64;
    let file = modern_session(
        "steps-gap-timestamp",
        &[(3, ""), (7, "")],
        vec![
            build_step_meta(turn1_seconds, None, Some(3)),
            build_step_meta(turn2_seconds, None, Some(7)),
        ],
    );

    let messages = parse_antigravity_cli_file(&file);
    assert_eq!(messages.len(), 2);
    assert_eq!(messages[0].timestamp, turn1_seconds * 1_000);
    assert_eq!(messages[1].timestamp, turn2_seconds * 1_000);
    assert!(messages.iter().all(|m| m.timestamp != session_created_ms));
}

#[test]
fn response_id_join_takes_precedence_over_gen_idx() {
    let by_id_seconds = 1_789_200_000_i64;
    let by_idx_seconds = 1_789_300_000_i64;
    let file = modern_session(
        "steps-precedence",
        &[(0, "resp-1")],
        vec![
            build_step_meta(by_id_seconds, Some("resp-1"), None),
            build_step_meta(by_idx_seconds, None, Some(0)),
        ],
    );

    let messages = parse_antigravity_cli_file(&file);
    assert_eq!(messages.len(), 1);
    assert_eq!(messages[0].timestamp, by_id_seconds * 1_000);
}

#[test]
fn gen_idx_join_falls_back_to_session_when_ambiguous() {
    let file = modern_session(
        "steps-gen-idx-ambiguous",
        &[(4, "")],
        vec![
            build_step_meta(1_789_200_000, None, Some(4)),
            build_step_meta(1_789_300_000, None, Some(4)),
        ],
    );

    let messages = parse_antigravity_cli_file(&file);
    assert_eq!(messages.len(), 1);
    assert_eq!(messages[0].timestamp, 1_781_502_653_000);
}

#[test]
fn response_ids_are_counted_once_across_rows() {
    let file = conversation(
        "once",
        vec![
            (0, build_gen_metadata_full("m", Some(b"a"), None)),
            (1, build_gen_metadata_full("m", Some(b"b"), None)),
            (2, build_gen_metadata_full("m", Some(b"a"), None)),
            (3, build_gen_metadata_full("m", None, None)),
            (4, build_gen_metadata_full("m", None, None)),
            (5, build_gen_metadata_full("m", Some(b"  "), None)),
        ],
        None,
        Vec::new(),
    );
    let keys: Vec<Option<String>> = parse_antigravity_cli_file(&file)
        .into_iter()
        .map(|message| message.dedup_key)
        .collect();
    assert_eq!(
        keys,
        vec![
            Some("a".to_owned()),
            Some("b".to_owned()),
            None,
            None,
            None
        ]
    );
}

#[test]
fn unknown_models_and_files_have_names() {
    let mut usage = Vec::new();
    usage.extend(enc_varint(9, 1));
    let blob = enc_len(1, &enc_len(4, &usage));
    assert_eq!(response_model(&blob).as_deref(), Some("unknown"));
    assert_eq!(response_model(b""), None);
    let mut file = conversation("x", vec![(0, blob)], None, Vec::new());
    file.stem = None;
    let messages = parse_antigravity_cli_file(&file);
    assert_eq!(messages.len(), 1);
    assert_eq!(messages[0].session_id, "unknown");
    assert_eq!(messages[0].model_id, "unknown");
    assert_eq!(messages[0].provider_id, "antigravity");
    assert_eq!(messages[0].cost_source, CostSource::Unknown);
    assert_eq!(messages[0].message_count, 1);
    assert!(messages[0].workspace_key.is_none());
    assert!(!messages[0].has_authoritative_cost());
}

#[test]
fn a_repeated_id_is_remembered() {
    let mut seen = SeenResponses::new();
    assert!(seen.insert("a".to_owned()));
    assert!(seen.insert("b".to_owned()));
    assert!(!seen.insert("a".to_owned()));
}

#[test]
fn escapes_that_are_none_stay() {
    assert_eq!(percent_decode("a%20b"), "a b");
    assert_eq!(percent_decode("100%"), "100%");
    assert_eq!(percent_decode("%4"), "%4");
    assert_eq!(percent_decode("%zz%41"), "%zzA");
    // An escape needs two digits before the end of the text.
    assert_eq!(percent_decode("%41"), "A");
    assert_eq!(percent_decode("%ff."), "\u{fffd}.");
    assert_eq!(hex_value(b'9'), Some(9));
    assert_eq!(hex_value(b'a'), Some(10));
    assert_eq!(hex_value(b'F'), Some(15));
    assert_eq!(hex_value(b'g'), None);
}

#[test]
fn a_session_knows_when_and_where_it_started() {
    let trajectory = build_trajectory_meta();
    assert_eq!(session_created_ms(&trajectory), Some(1_781_502_653_000));
    assert_eq!(
        workspace_path(&trajectory).as_deref(),
        Some("C:/Users/Frank/obsidian-vault")
    );
    assert_eq!(session_created_ms(b""), None);
    assert_eq!(workspace_path(b""), None);
    assert_eq!(workspace_path(&enc_len(1, &enc_len(1, b"http://x"))), None);
}

#[test]
fn turns_are_found_by_their_generation_index() {
    let timestamps = read_step_timestamps(&vec![
        build_step_meta(1_789_200_000, None, Some(3)),
        build_step_meta(0, Some("zero"), Some(4)),
        build_step_meta(1_789_300_000, None, Some(u64::MAX)),
    ]);
    assert_eq!(timestamps.gen_idx_time(3), Some(1_789_200_000_000));
    assert_eq!(timestamps.gen_idx_time(4), None);
    assert_eq!(timestamps.gen_idx_time(-1), None);
    assert_eq!(timestamps.response_time(b"zero"), None);
}

#[test]
fn numbers_before_the_epoch_are_signed() {
    let mut early = Vec::new();
    early.extend(enc_varint(1, u64::MAX));
    early.extend(enc_varint(2, 5_000_000));
    assert_eq!(proto_timestamp_ms(&early), Some(-995));
    assert_eq!(proto_timestamp_ms(&enc_varint(2, 5)), None);
    assert_eq!(proto_timestamp_ms(&enc_varint(1, 5)), Some(5_000));
}

#[test]
fn fields_are_read_in_their_wire_types() {
    let mut buf = Vec::new();
    buf.extend(enc_varint(1, 300));
    buf.extend([(2 << 3) | 1, 1, 2, 3, 4, 5, 6, 7, 8]);
    buf.extend([(3 << 3) | 5, 1, 2, 3, 4]);
    buf.extend(enc_len(1, b"first"));
    buf.extend(enc_len(1, b"second"));
    buf.extend(enc_len(4, &[0xff]));
    assert_eq!(varint_field(&buf, 1), Some(300));
    assert_eq!(varint_field(&buf, 2), None);
    assert_eq!(message_field(&buf, 1), Some(b"first".as_slice()));
    assert_eq!(string_field(&buf, 1), Some("first"));
    assert_eq!(message_field(&buf, 4), Some([0xff].as_slice()));
    assert_eq!(string_field(&buf, 4), None);
    // A group ends the reading.
    let mut grouped = vec![(1 << 3) | 3];
    grouped.extend(enc_varint(2, 1));
    assert_eq!(varint_field(&grouped, 2), None);
}

#[test]
fn a_varint_has_at_most_ten_bytes() {
    let largest = encode_varint(u64::MAX);
    assert_eq!(ProtoReader::new(&largest).read_varint(), Some(u64::MAX));
    let mut long = vec![0x80; 10];
    long.push(0);
    assert_eq!(ProtoReader::new(&long).read_varint(), None);
    assert_eq!(ProtoReader::new(&[0x80]).read_varint(), None);
    // Bits behind the sixty-fourth are dropped.
    let mut high = vec![0x80; 9];
    high.push(0x7f);
    assert_eq!(ProtoReader::new(&high).read_varint(), Some(1 << 63));
}

#[test]
fn a_reader_never_moves_back() {
    let position_after = |bytes: &[u8]| {
        let mut reader = ProtoReader::new(bytes);
        assert!(reader.next_field().is_none());
        reader.pos
    };
    // Nothing to read, and a tag that is cut off or too long.
    assert_eq!(position_after(&[]), 0);
    assert_eq!(position_after(&[0x80, 0x80]), 2);
    assert_eq!(position_after(&[0x80; 12]), 10);
    // A group, and values that are cut off.
    assert_eq!(position_after(&[0x0b, 0x01]), 1);
    assert_eq!(position_after(&[0x08, 0x80]), 2);
    assert_eq!(position_after(&[0x09, 1, 2, 3]), 1);
    assert_eq!(position_after(&[0x0d, 1, 2, 3]), 1);
    assert_eq!(position_after(&[0x0a, 5, 1, 2]), 2);

    let mut reader = ProtoReader::new(&[0x0a, 1, 7, 0x08, 3]);
    assert!(reader.next_field().is_some());
    assert_eq!(reader.pos, 3);
    assert!(reader.next_field().is_some());
    assert_eq!(reader.pos, 5);
    assert!(reader.next_field().is_none());
    assert_eq!(reader.pos, 5);
}

#[test]
fn only_repeated_indexes_are_ambiguous() {
    let step = |index: u8, second: u8| {
        let mut metadata = vec![0x0a, 2, 0x08, second];
        metadata.extend([0xa2, 0x01, 2, 0x18, index]);
        metadata
    };
    let timestamps = read_step_timestamps(&vec![step(3, 1), step(4, 2), step(4, 5)]);
    let marks: Vec<i64> = timestamps
        .by_gen_idx
        .entries
        .iter()
        .map(|(index, _)| *index)
        .collect();
    assert_eq!(marks, vec![3, 4]);
    assert!(matches!(
        timestamps.by_gen_idx.lookup(&3),
        Some(StepTimestamp::Unique(1_000))
    ));
    assert!(matches!(
        timestamps.by_gen_idx.lookup(&4),
        Some(StepTimestamp::Ambiguous)
    ));
    assert!(timestamps.by_response_id.entries.is_empty());
}
