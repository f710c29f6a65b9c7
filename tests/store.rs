use dashmap::DashMap;
use su_store::blob::{blob_ids, merge_payloads, payloads_from_blobs};
use su_store::error::StoreErrorType;
use su_store::keys::create_key;
use su_store::migrate::{migration_batches, migration_total, parse_range, progress_finished};
use su_store::paging::{page_query, parse_bounds, parse_cursor, split_page, DEFAULT_PAGE_SIZE};
use su_store::rows::{DbMessage, DbMessageWithoutData, DbProcessScheduler, DbScheduler, NewMessage};
use su_store::store::{
    check_existing_message, earliest_match, found, latest_row, message_blob_id, message_blob_key, message_export,
    message_insert_reply, process_scheduler_from_row, saved_reply, scheduler_from_row,
    schedulers_from_rows,
};
use su_store::sync::{SyncEvent, TailSync};

fn meta(row_id: i32, pid: &str, mid: &str, aid: Option<&str>, ts: i64) -> DbMessageWithoutData {
    DbMessageWithoutData {
        row_id,
        process_id: pid.to_string(),
        message_id: mid.to_string(),
        assignment_id: aid.map(|a| a.to_string()),
        epoch: 0,
        nonce: row_id,
        timestamp: ts,
        hash_chain: "chain".to_string(),
    }
}

/// The rows a query with `from`, ordered by timestamp and limited to
/// `fetch`, returns from the given timestamps.
fn query(ts: &[i64], from: Option<i64>, fetch: i64) -> Vec<i64> {
    ts.iter()
        .copied()
        .filter(|t| from.map_or(true, |f| *t > f))
        .take(fetch as usize)
        .collect()
}

#[test]
fn key_with_and_without_assignment() {
    let k = create_key("m1", &Some("a1".to_string()), "p1", "100");
    assert_eq!(k, "message___p1___100___m1___a1");
    let k = create_key("m1", &None, "p1", "100");
    assert_eq!(k, "message___p1___100___m1");
}

#[test]
fn blob_id_of_new_message() {
    let mut m = NewMessage {
        process_id: "proc".to_string(),
        message_id: "msg".to_string(),
        assignment_id: "asg".to_string(),
        message_data: serde_json::Value::Null,
        bundle: vec![],
        epoch: 0,
        nonce: 0,
        timestamp: 1700000000123,
        hash_chain: "h".to_string(),
    };
    let id = message_blob_id(&m);
    assert_eq!(
        id,
        ("msg".to_string(), Some("asg".to_string()), "proc".to_string(), "1700000000123".to_string())
    );
    m.timestamp = -42;
    assert_eq!(message_blob_id(&m).3, "-42");
    m.timestamp = 0;
    assert_eq!(message_blob_id(&m).3, "0");
}

#[test]
fn blob_key_of_new_message() {
    let m = NewMessage {
        process_id: "proc".to_string(),
        message_id: "msg".to_string(),
        assignment_id: "asg".to_string(),
        message_data: serde_json::Value::Null,
        bundle: vec![1, 2, 3],
        epoch: 0,
        nonce: 1,
        timestamp: 1234,
        hash_chain: "h".to_string(),
    };
    assert_eq!(message_blob_key(&m), "message___proc___1234___msg___asg");
}

#[test]
fn cursor_parsing() {
    assert_eq!(parse_cursor("150").ok(), Some(150));
    assert_eq!(parse_cursor("-5").ok(), Some(-5));
    assert_eq!(parse_cursor("+7").ok(), Some(7));
    assert!(matches!(parse_cursor("abc"), Err(StoreErrorType::IntError(_))));
    assert!(matches!(parse_cursor(""), Err(StoreErrorType::IntError(_))));
    assert!(matches!(parse_cursor("99999999999999999999"), Err(StoreErrorType::IntError(_))));
}

#[test]
fn page_query_defaults_and_errors() {
    let q = page_query(&None, &None, None).ok().unwrap();
    assert_eq!(q.limit, DEFAULT_PAGE_SIZE as usize);
    assert_eq!(q.limit, 5000);
    assert_eq!(q.fetch, 5001);
    assert_eq!(q.from, None);
    assert_eq!(q.to, None);
    let q = page_query(&Some("150".to_string()), &Some("400".to_string()), Some(2)).ok().unwrap();
    assert_eq!((q.from, q.to, q.limit, q.fetch), (Some(150), Some(400), 2, 3));
    assert!(matches!(
        page_query(&Some("x".to_string()), &None, Some(2)),
        Err(StoreErrorType::IntError(_))
    ));
    assert!(matches!(
        page_query(&None, &Some("1.5".to_string()), Some(2)),
        Err(StoreErrorType::IntError(_))
    ));
    assert!(matches!(page_query(&None, &None, Some(-1)), Err(StoreErrorType::DatabaseError(_))));
}

#[test]
fn pages_of_five_timestamps() {
    let ts = [100, 200, 300, 400, 500];
    let q = page_query(&Some("150".to_string()), &None, Some(2)).ok().unwrap();
    let rows = query(&ts, q.from, q.fetch);
    assert_eq!(rows, vec![200, 300, 400]);
    let (page, next) = split_page(rows, q.limit);
    assert_eq!(page, vec![200, 300]);
    assert!(next);
    let q = page_query(&Some("300".to_string()), &None, Some(2)).ok().unwrap();
    let (page, next) = split_page(query(&ts, q.from, q.fetch), q.limit);
    assert_eq!(page, vec![400, 500]);
    assert!(!next);
}

#[test]
fn page_sizes_against_window() {
    let (page, next) = split_page(vec![1, 2, 3], 5);
    assert_eq!(page, vec![1, 2, 3]);
    assert!(!next);
    let (page, next) = split_page(vec![1, 2, 3], 3);
    assert_eq!(page.len(), 3);
    assert!(!next);
    let (page, next) = split_page(vec![1, 2, 3], 2);
    assert_eq!(page, vec![1, 2]);
    assert!(next);
    let (page, next) = split_page(Vec::<i64>::new(), 0);
    assert!(page.is_empty());
    assert!(!next);
}

#[test]
fn walking_pages_reads_each_row_once() {
    let ts: Vec<i64> = (1..=11).map(|i| i * 10).collect();
    let mut from: Option<i64> = None;
    let mut seen = Vec::new();
    loop {
        let q = page_query(&from.map(|f| f.to_string()), &None, Some(3)).ok().unwrap();
        let (page, next) = split_page(query(&ts, q.from, q.fetch), q.limit);
        seen.extend(page.iter().copied());
        if !next {
            break;
        }
        from = page.last().copied();
    }
    assert_eq!(seen, ts);
}

#[test]
fn duplicate_guard() {
    assert!(check_existing_message(false, &Ok(true)).is_ok());
    assert!(matches!(
        check_existing_message(true, &Ok(true)),
        Err(StoreErrorType::MessageExists(_))
    ));
    assert!(check_existing_message(true, &Ok(false)).is_ok());
    assert!(check_existing_message(true, &Err(StoreErrorType::NotFound("x".to_string()))).is_ok());
    assert!(matches!(
        check_existing_message(true, &Err(StoreErrorType::JsonError("bad".to_string()))),
        Err(StoreErrorType::DatabaseError(_))
    ));
}

#[test]
fn second_save_of_a_payload_is_refused() {
    // the first save stored a payload for "M": the lookup of "M" finds it
    let stored_has_payload: Result<bool, StoreErrorType> = Ok(true);
    assert!(matches!(
        check_existing_message(true, &stored_has_payload),
        Err(StoreErrorType::MessageExists(_))
    ));
    assert!(check_existing_message(false, &stored_has_payload).is_ok());
}

#[test]
fn insert_replies() {
    assert_eq!(saved_reply(Ok(1)).ok().unwrap(), "saved");
    assert_eq!(saved_reply(Ok(0)).ok().unwrap(), "saved");
    assert!(matches!(
        saved_reply(Err(StoreErrorType::DatabaseError("down".to_string()))),
        Err(StoreErrorType::DatabaseError(_))
    ));
    assert!(message_insert_reply(Ok(1)).is_ok());
    assert!(matches!(message_insert_reply(Ok(0)), Err(StoreErrorType::DatabaseError(_))));
}

#[test]
fn latest_goes_by_insertion_id() {
    let rows = vec![
        meta(1, "p", "a", None, 500),
        meta(2, "q", "b", None, 100),
        meta(3, "p", "c", None, 100),
        meta(4, "q", "d", None, 900),
    ];
    assert_eq!(latest_row(&rows, &"p".to_string()), Some(2));
    assert_eq!(latest_row(&rows, &"q".to_string()), Some(3));
    assert_eq!(latest_row(&rows, &"z".to_string()), None);
}

#[test]
fn earliest_match_by_message_or_assignment() {
    let rows = vec![
        meta(1, "p", "x", Some("a1"), 300),
        meta(2, "p", "m", Some("a2"), 200),
        meta(3, "p", "m", Some("a3"), 100),
        meta(4, "p", "y", Some("m"), 50),
    ];
    assert_eq!(earliest_match(&rows, &"m".to_string()), Some(3));
    assert_eq!(earliest_match(&rows, &"a2".to_string()), Some(1));
    assert_eq!(earliest_match(&rows, &"x".to_string()), Some(0));
    assert_eq!(earliest_match(&rows, &"none".to_string()), None);
}

#[test]
fn not_found_lookup() {
    let r: Result<i32, StoreErrorType> = found(None, "Message");
    match r {
        Err(StoreErrorType::NotFound(s)) => assert_eq!(s, "Message not found"),
        _ => panic!("expected NotFound"),
    }
    assert_eq!(found(Some(7), "Message").ok(), Some(7));
    let e = StoreErrorType::IntError("bad int".to_string());
    assert_eq!(e.describe(), "bad int");
}

#[test]
fn schedulers_keep_row_order() {
    let rows = vec![
        DbScheduler { row_id: 1, url: "u1".to_string(), process_count: 3 },
        DbScheduler { row_id: 2, url: "u2".to_string(), process_count: 0 },
    ];
    let s = schedulers_from_rows(rows);
    assert_eq!(s.len(), 2);
    assert_eq!(s[0].row_id, Some(1));
    assert_eq!(s[0].url, "u1");
    assert_eq!(s[0].process_count, 3);
    assert_eq!(s[1].row_id, Some(2));
    assert_eq!(s[1].url, "u2");
}

#[test]
fn blob_hits_and_fallbacks() {
    let rows = vec![meta(1, "p", "m1", Some("a1"), 100), meta(2, "p", "m2", None, 200)];
    let ids = blob_ids(&rows);
    assert_eq!(ids[0], ("m1".to_string(), Some("a1".to_string()), "p".to_string(), "100".to_string()));
    let fetched = DashMap::new();
    fetched.insert(ids[0].clone(), vec![9u8, 9]);
    let hits = payloads_from_blobs(&rows, &fetched);
    assert_eq!(hits, vec![Some(vec![9u8, 9]), None]);
    let merged = merge_payloads(&hits, &vec![vec![7u8]]);
    assert_eq!(merged, vec![vec![9u8, 9], vec![7u8]]);
}

#[test]
fn tier_and_relational_pages_agree() {
    let rows = vec![meta(1, "p", "m1", None, 100), meta(2, "p", "m2", None, 200)];
    let bundles = vec![vec![1u8, 2], vec![3u8]];
    let fetched = DashMap::new();
    fetched.insert(blob_ids(&rows)[1].clone(), bundles[1].clone());
    let hits = payloads_from_blobs(&rows, &fetched);
    let merged = merge_payloads(&hits, &vec![bundles[0].clone()]);
    assert_eq!(merged, bundles);
}

#[test]
fn export_of_a_stored_message() {
    let row = DbMessage {
        row_id: 5,
        process_id: "p".to_string(),
        message_id: "m".to_string(),
        assignment_id: None,
        message_data: serde_json::Value::Bool(true),
        epoch: 1,
        nonce: 2,
        timestamp: 77,
        bundle: vec![4u8],
        hash_chain: "h".to_string(),
    };
    let e = message_export(row);
    assert_eq!(e.0, "m");
    assert_eq!(e.1, None);
    assert_eq!(e.2, vec![4u8]);
    assert_eq!(e.3, "p");
    assert_eq!(e.4, serde_json::Value::Bool(true));
    assert_eq!(e.5, "77");
}

/// Runs a tail-sync over identities newest first against a set of held
/// identities, and returns how many it wrote.
fn run_tail_sync(rows: &[&str], held: &mut Vec<String>) -> u64 {
    let mut s = TailSync::new(rows.len() as i64);
    while let Some(off) = s.next_fetch() {
        let id = rows[off as usize];
        let in_blob = held.iter().any(|h| h == id);
        if s.on_event(SyncEvent::Found { in_blob }) {
            held.push(id.to_string());
        }
    }
    s.synced
}

#[test]
fn tail_sync_stops_at_first_held_row() {
    let mut held = vec!["c".to_string()];
    assert_eq!(run_tail_sync(&["e", "d", "c", "b", "a"], &mut held), 2);
    assert_eq!(held, vec!["c", "e", "d"]);
    assert_eq!(run_tail_sync(&["e", "d", "c", "b", "a"], &mut held), 0);
}

#[test]
fn tail_sync_events() {
    let mut s = TailSync::new(3);
    assert_eq!(s.next_fetch(), Some(0));
    assert!(!s.on_event(SyncEvent::FetchFailed));
    assert_eq!(s.next_fetch(), Some(1));
    assert!(s.on_event(SyncEvent::Found { in_blob: false }));
    assert_eq!(s.synced, 1);
    assert!(!s.on_event(SyncEvent::Missing));
    assert_eq!(s.next_fetch(), None);
    let s = TailSync::new(0);
    assert_eq!(s.next_fetch(), None);
}

#[test]
fn range_parsing() {
    assert_eq!(parse_range("10-20").ok(), Some((10, Some(20))));
    assert_eq!(parse_range("5").ok(), Some((5, None)));
    assert_eq!(parse_range("1-2-3").ok(), Some((1, Some(2))));
    assert!(matches!(parse_range("x"), Err(StoreErrorType::IntError(_))));
    assert!(matches!(parse_range("-5"), Err(StoreErrorType::IntError(_))));
    assert!(matches!(parse_range("3-"), Err(StoreErrorType::IntError(_))));
}

#[test]
fn migration_totals_clamp_to_count() {
    assert_eq!(migration_total(0, Some(10), 100), 10);
    assert_eq!(migration_total(5, Some(1000), 100), 95);
    assert_eq!(migration_total(5, None, 100), 95);
}

#[test]
fn migration_batches_cover_range_once() {
    let b = migration_batches(0, 10, Some(10), 4);
    assert_eq!(b, vec![(0, 4), (4, 8), (8, 10)]);
    let b = migration_batches(2, 7, None, 4);
    assert_eq!(b, vec![(2, 6), (6, 10)]);
    assert!(migration_batches(3, 0, None, 4).is_empty());
    let mut covered = vec![0u32; 10];
    for (s, e) in migration_batches(0, 10, Some(10), 3) {
        for o in s..e {
            covered[o as usize] += 1;
        }
    }
    assert!(covered.iter().all(|c| *c == 1));
}

#[test]
fn progress_reporter_stops_at_total() {
    assert!(!progress_finished(3, 10));
    assert!(progress_finished(10, 10));
    assert!(progress_finished(0, 0));
}

#[test]
fn bounds_parse_each_cursor() {
    assert_eq!(parse_bounds(&Some("1".to_string()), &Some("9".to_string())).ok(), Some((Some(1), Some(9))));
    assert_eq!(parse_bounds(&None, &None).ok(), Some((None, None)));
    assert!(matches!(parse_bounds(&None, &Some("z".to_string())), Err(StoreErrorType::IntError(_))));
}

#[test]
fn rows_to_scheduler_values() {
    let s = scheduler_from_row(DbScheduler { row_id: 4, url: "https://su".to_string(), process_count: 12 });
    assert_eq!((s.row_id, s.url.as_str(), s.process_count), (Some(4), "https://su", 12));
    let p = process_scheduler_from_row(DbProcessScheduler {
        row_id: 8,
        process_id: "proc".to_string(),
        scheduler_row_id: 4,
    });
    assert_eq!((p.row_id, p.process_id.as_str(), p.scheduler_row_id), (Some(8), "proc", 4));
}

#[test]
fn error_text_of_each_kind() {
    let all = vec![
        StoreErrorType::DatabaseError("d".to_string()),
        StoreErrorType::NotFound("n".to_string()),
        StoreErrorType::JsonError("j".to_string()),
        StoreErrorType::EnvVarError("e".to_string()),
        StoreErrorType::IntError("i".to_string()),
        StoreErrorType::MessageExists("m".to_string()),
    ];
    let texts: Vec<String> = all.iter().map(|e| e.describe()).collect();
    assert_eq!(texts, vec!["d", "n", "j", "e", "i", "m"]);
}
