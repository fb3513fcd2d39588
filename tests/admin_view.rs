use drcv::{FeedCursor, FeedEvent, ListQuery, SessionStore, PAGE_SIZE};

const MAX: u64 = 1 << 40;

#[test]
fn changes_come_ordered_by_update_time_then_id() {
    let mut store = SessionStore::new();
    store.accept_chunk("one", "c", 1, 0, 9, MAX, 30).unwrap();
    store.accept_chunk("two", "c", 1, 0, 9, MAX, 10).unwrap();
    store.accept_chunk("three", "c", 1, 0, 9, MAX, 30).unwrap();
    let ids: Vec<i64> = store.changes_since(5).iter().map(|d| d.id).collect();
    assert_eq!(ids, vec![2, 1, 3]);
    let ids: Vec<i64> = store.changes_since(10).iter().map(|d| d.id).collect();
    assert_eq!(ids, vec![1, 3]);
    assert!(store.changes_since(30).is_empty());
}

#[test]
fn feed_batches_changes_then_sends_heartbeat() {
    let mut store = SessionStore::new();
    let mut cursor = FeedCursor::new(0);
    store.accept_chunk("a", "c", 3, 0, 2, MAX, 50).unwrap();
    store.accept_chunk("b", "c", 4, 0, 2, MAX, 60).unwrap();
    match cursor.tick(&store, 100) {
        FeedEvent::Updates(rows) => {
            assert_eq!(rows.len(), 2);
            assert_eq!(rows[0].filename, "a");
            assert_eq!(rows[0].size, 3);
            assert_eq!(rows[1].filename, "b");
            assert_eq!(rows[1].status, "uploading");
        }
        FeedEvent::Heartbeat => panic!("expected updates"),
    }
    assert_eq!(cursor.watermark, 100);
    assert!(matches!(cursor.tick(&store, 200), FeedEvent::Heartbeat));
    assert_eq!(cursor.watermark, 200);
    store.accept_chunk("a", "c", 3, 1, 2, MAX, 250).unwrap();
    match cursor.tick(&store, 300) {
        FeedEvent::Updates(rows) => {
            assert_eq!(rows.len(), 1);
            assert_eq!(rows[0].status, "complete");
            assert_eq!(rows[0].completed_at, Some(250));
        }
        FeedEvent::Heartbeat => panic!("expected updates"),
    }
}

#[test]
fn feed_cursor_starting_now_sees_later_changes_only() {
    let cursor = FeedCursor::start().expect("the clock reads after 1970");
    assert!(cursor.watermark > 0);
    let now = drcv::now().expect("the clock reads after 1970");
    assert!(now >= cursor.watermark);
    // 2020-01-01T00:00:00Z in milliseconds.
    assert!(now > 1_577_836_800_000);
}

fn store_with(n: usize) -> SessionStore {
    let mut store = SessionStore::new();
    for i in 0..n {
        let name = if i % 2 == 0 { format!("x{}.csv", i) } else { format!("y{}.txt", i) };
        store.resolve(&name, "c", i as i64).unwrap();
    }
    store
}

#[test]
fn listing_pages_newest_first() {
    let store = store_with(205);
    assert_eq!(PAGE_SIZE, 100);
    let first = store.list_page(&ListQuery { page: None, q: None });
    assert_eq!(first.len(), 100);
    assert_eq!(first[0].id, 205);
    assert_eq!(first[99].id, 106);
    let zero = store.list_page(&ListQuery { page: Some(0), q: None });
    assert_eq!(zero[0].id, 205);
    let third = store.list_page(&ListQuery { page: Some(3), q: None });
    let ids: Vec<i64> = third.iter().map(|d| d.id).collect();
    assert_eq!(ids, vec![5, 4, 3, 2, 1]);
    assert!(store.list_page(&ListQuery { page: Some(4), q: None }).is_empty());
    assert!(store.list_page(&ListQuery { page: Some(usize::MAX), q: None }).is_empty());
}

#[test]
fn listing_filters_by_filename_substring() {
    let store = store_with(10);
    let rows = store.list_page(&ListQuery { page: Some(1), q: Some(".csv".to_string()) });
    let ids: Vec<i64> = rows.iter().map(|d| d.id).collect();
    assert_eq!(ids, vec![9, 7, 5, 3, 1]);
    let rows = store.list_page(&ListQuery { page: None, q: Some("y3".to_string()) });
    assert_eq!(rows.len(), 1);
    assert_eq!(rows[0].filename, "y3.txt");
    let rows = store.list_page(&ListQuery { page: None, q: Some(String::new()) });
    assert_eq!(rows.len(), 10);
    assert!(store.list_page(&ListQuery { page: None, q: Some("zzz".to_string()) }).is_empty());
}

#[test]
fn clients_listed_most_recent_first() {
    let mut store = SessionStore::new();
    store.touch_client("a", None, 5);
    store.touch_client("b", Some("ua"), 9);
    store.touch_client("c", None, 7);
    let names: Vec<String> = store.connected_clients().iter().map(|c| c.client_ip.clone()).collect();
    assert_eq!(names, vec!["b".to_string(), "c".to_string(), "a".to_string()]);
}

#[test]
fn row_shows_all_fields() {
    let mut store = SessionStore::new();
    store.accept_chunk("doc.pdf", "10.1.1.1", 12, 0, 1, MAX, 77).unwrap();
    let r = store.session_row(1).unwrap();
    assert_eq!(r.id, 1);
    assert_eq!(r.filename, "doc.pdf");
    assert_eq!(r.client_ip, "10.1.1.1");
    assert_eq!(r.size, 12);
    assert_eq!(r.status, "complete");
    assert_eq!(r.started_at, 77);
    assert_eq!(r.updated_at, 77);
    assert_eq!(r.completed_at, Some(77));
    assert!(store.session_row(2).is_none());
}
