use herdr::codex_usage::{latest_token_counts, usage_computable};
use herdr::codex_usage::{
    context_used_percent, is_session_transcript, latest_context_used, load_context_used_percent,
    tail_start, valid_session_id, TokenInfo, TokenUsage, TranscriptPayload, TranscriptRecord,
};

fn token_count(total_tokens: u64, window: u64) -> Option<TranscriptRecord> {
    Some(TranscriptRecord {
        record_type: "event_msg".into(),
        payload: TranscriptPayload {
            payload_type: "token_count".into(),
            info: Some(TokenInfo {
                last_token_usage: Some(TokenUsage { total_tokens }),
                model_context_window: Some(window),
            }),
        },
    })
}

#[test]
fn session_ids_are_safe_path_components() {
    assert!(valid_session_id("019f5c38-dc0e-7311-b581-be3ebefa8509"));
    assert!(!valid_session_id("../session"));
    assert!(!valid_session_id("session/id"));
}

#[test]
fn session_id_length_limits() {
    assert!(!valid_session_id(""));
    assert!(valid_session_id(&"a".repeat(128)));
    assert!(!valid_session_id(&"a".repeat(129)));
    assert!(!valid_session_id("séance"));
}

#[test]
fn reads_latest_context_usage_from_transcript_tail() {
    let records = vec![token_count(20, 100), token_count(89684, 258400)];
    assert_eq!(latest_context_used(&records), Some(32));
}

#[test]
fn matches_codex_baseline_and_rounding() {
    let records = vec![token_count(94462, 258400)];
    assert_eq!(latest_context_used(&records), Some(33));
}

#[test]
fn usage_formula_edges() {
    assert_eq!(context_used_percent(0, 12000), None);
    assert_eq!(context_used_percent(0, 12001), Some(0));
    assert_eq!(context_used_percent(500_000, 258400), Some(100));
    assert_eq!(context_used_percent(12000, 112000), Some(0));
    assert_eq!(context_used_percent(62000, 112000), Some(50));
    assert_eq!(context_used_percent(62500, 112000), Some(50));
    assert_eq!(context_used_percent(62600, 112000), Some(51));
}

#[test]
fn later_records_without_counts_are_skipped() {
    let other = Some(TranscriptRecord {
        record_type: "response_item".into(),
        payload: TranscriptPayload { payload_type: "message".into(), info: None },
    });
    let records = vec![token_count(62000, 112000), other, None, token_count(5, 100)];
    assert_eq!(latest_context_used(&records), Some(50));
    assert_eq!(latest_context_used(&Vec::new()), None);
}

#[test]
fn loading_requires_a_safe_session_id() {
    let records = vec![token_count(62000, 112000)];
    assert_eq!(load_context_used_percent("abc", Some(&records)), Some(50));
    assert_eq!(load_context_used_percent("../abc", Some(&records)), None);
    assert_eq!(load_context_used_percent("abc", None), None);
}

#[test]
fn transcript_files_and_tail() {
    assert!(is_session_transcript("rollout-2025-abc.jsonl", "abc"));
    assert!(!is_session_transcript("rollout-2025-abc.json", "abc"));
    assert!(!is_session_transcript("rollout.jsonl", "abc"));
    assert!(!is_session_transcript(".jsonl", ""));
    assert_eq!(tail_start(100), 0);
    assert_eq!(tail_start(3 * 1024 * 1024), 2 * 1024 * 1024);
}

#[test]
fn latest_counts_and_computability() {
    let records = vec![token_count(20, 100), None, token_count(5000, 258400), None];
    assert_eq!(latest_token_counts(&records), Some((5000, 258400)));
    assert_eq!(latest_token_counts(&vec![token_count(20, 12000)]), None);
    assert!(usage_computable(0, 258400));
    assert!(usage_computable(0, 12000));
    assert!(!usage_computable(0, u64::MAX));
    assert!(usage_computable(u64::MAX, u64::MAX));
}

#[test]
fn more_usage_never_shows_less() {
    let mut last = 0u8;
    for used in (0..300_000u64).step_by(7919) {
        let percent = context_used_percent(used, 258400).unwrap();
        assert!(percent >= last);
        assert!(percent <= 100);
        last = percent;
    }
}
