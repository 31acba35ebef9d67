use ai::history::{append_entry, check_replay_offset, now_timestamp, replay_entry, replay_response, HistoryEntry, HistoryError};

fn entry(n: u64) -> HistoryEntry {
    HistoryEntry {
        timestamp: n,
        model: "fast".to_string(),
        preset_name: "concise".to_string(),
        user_input: format!("q{}", n),
        response: format!("a{}", n),
    }
}

#[test]
fn append_keeps_most_recent() {
    let entries = vec![entry(1), entry(2), entry(3)];
    let kept = append_entry(entries, entry(4), 2).unwrap();
    let stamps: Vec<u64> = kept.iter().map(|e| e.timestamp).collect();
    assert_eq!(stamps, vec![3, 4]);
}

#[test]
fn append_under_limit_keeps_all() {
    let kept = append_entry(vec![entry(1)], entry(2), 50).unwrap();
    let stamps: Vec<u64> = kept.iter().map(|e| e.timestamp).collect();
    assert_eq!(stamps, vec![1, 2]);
}

#[test]
fn append_with_zero_limit_writes_nothing() {
    assert!(append_entry(vec![entry(1)], entry(2), 0).is_none());
}

#[test]
fn replay_last_and_earlier() {
    let entries = vec![entry(1), entry(2), entry(3)];
    assert_eq!(replay_response(entries.clone(), 1).unwrap(), "a3");
    assert_eq!(replay_response(entries.clone(), 3).unwrap(), "a1");
    assert_eq!(replay_entry(entries, 2).unwrap().user_input, "q2");
}

#[test]
fn replay_errors() {
    assert!(matches!(replay_response(vec![entry(1)], 0), Err(HistoryError::ZeroIndex)));
    assert!(matches!(replay_response(vec![], 1), Err(HistoryError::Empty)));
    assert!(matches!(replay_response(vec![entry(1), entry(2)], 3), Err(HistoryError::TooFew(2))));
}

#[test]
fn timestamp_is_after_2020() {
    assert!(now_timestamp().unwrap() > 1_577_836_800);
}

#[test]
fn replay_after_recording_gives_new_entry() {
    let entries = vec![entry(1), entry(2)];
    let kept = append_entry(entries, entry(3), 2).unwrap();
    assert_eq!(replay_response(kept.clone(), 1).unwrap(), "a3");
    assert_eq!(replay_response(kept, 2).unwrap(), "a2");
}

#[test]
fn replay_offset_zero_refused_first() {
    assert!(matches!(check_replay_offset(0), Err(HistoryError::ZeroIndex)));
    assert!(check_replay_offset(1).is_ok());
}
