use drcv::{Announcement, ChunkPlan, SessionStore, UploadError, UploadStatus};

const MAX: u64 = 1 << 40;

fn row(store: &SessionStore, id: i64) -> drcv::UploadData {
    store.session_row(id).expect("session exists")
}

#[test]
fn example_scenario_report_csv() {
    let mut store = SessionStore::new();
    // Six sessions exist first, so the new one gets identity 7.
    for k in 0..6 {
        let name = format!("old{}.bin", k);
        store.accept_chunk(&name, "10.0.0.9", 10, 0, 1, MAX, 1_000).unwrap();
    }
    let plan = store.accept_chunk("report.csv", "10.0.0.5", 1000, 0, 3, MAX, 10_000).unwrap();
    assert_eq!(plan.id, 7);
    assert_eq!(plan.announcement, Some(Announcement::Started));
    let r = row(&store, 7);
    assert_eq!(r.status, "uploading");
    assert_eq!(r.size, 1000);

    // Silent for longer than the stale timeout (60 s).
    let demoted = store.reap(10_000 + 60_001, 60, 120);
    assert_eq!(demoted, vec![7]);
    assert_eq!(row(&store, 7).status, "disconnected");

    assert_eq!(store.probe("report.csv", "10.0.0.5"), 1000);
    let plan = store.accept_chunk("report.csv", "10.0.0.5", 1000, 1, 3, MAX, 80_000).unwrap();
    assert_eq!(plan.id, 7);
    assert_eq!(plan.announcement, None);
    let r = row(&store, 7);
    assert_eq!(r.status, "uploading");
    assert_eq!(r.size, 2000);

    let plan = store.accept_chunk("report.csv", "10.0.0.5", 1000, 2, 3, MAX, 81_000).unwrap();
    assert!(plan.finalize);
    let r = row(&store, 7);
    assert_eq!(r.status, "complete");
    assert_eq!(r.completed_at, Some(81_000));
    assert_eq!(r.size, 3000);
    assert_eq!(store.probe("report.csv", "10.0.0.5"), 0);
}

#[test]
fn resolve_twice_gives_same_id_and_one_row() {
    let mut store = SessionStore::new();
    let a = store.resolve("a.txt", "1.1.1.1", 5).unwrap();
    let b = store.resolve("a.txt", "1.1.1.1", 6).unwrap();
    assert_eq!(a, 1);
    assert_eq!(a, b);
    assert!(store.session_row(2).is_none());
    let r = row(&store, 1);
    assert_eq!(r.status, "init");
    assert_eq!(r.size, 0);
    assert_eq!(r.started_at, 5);
    assert_eq!(r.updated_at, 5);
}

#[test]
fn size_grows_by_each_chunk() {
    let mut store = SessionStore::new();
    let lens = [300u64, 0, 45, 1];
    let mut expected = 0u64;
    for (i, len) in lens.iter().enumerate() {
        store.accept_chunk("f", "c", *len, i as u32, 10, MAX, 100 + i as i64).unwrap();
        expected += len;
        assert_eq!(row(&store, 1).size, expected);
        assert_eq!(store.probe("f", "c"), expected);
    }
}

#[test]
fn empty_first_chunk_leaves_session_in_init() {
    let mut store = SessionStore::new();
    store.accept_chunk("f", "c", 0, 0, 2, MAX, 7).unwrap();
    let r = row(&store, 1);
    assert_eq!(r.status, "init");
    assert_eq!(r.size, 0);
}

#[test]
fn completion_only_on_last_chunk() {
    let mut store = SessionStore::new();
    store.accept_chunk("f", "c", 10, 0, 2, MAX, 1).unwrap();
    assert_eq!(row(&store, 1).completed_at, None);
    store.accept_chunk("f", "c", 10, 1, 2, MAX, 2).unwrap();
    assert_eq!(row(&store, 1).completed_at, Some(2));
    // A later upload of the same file opens a new session; the old one stays.
    let plan = store.accept_chunk("f", "c", 10, 0, 2, MAX, 3).unwrap();
    assert_eq!(plan.id, 2);
    assert_eq!(row(&store, 1).completed_at, Some(2));
    assert_eq!(row(&store, 1).size, 20);
}

#[test]
fn completing_twice_is_refused() {
    let mut store = SessionStore::new();
    store.accept_chunk("f", "c", 10, 0, 1, MAX, 1).unwrap();
    assert_eq!(store.complete_session(1, 9), Err(UploadError::AlreadyComplete));
    assert_eq!(store.record_chunk(1, 5, 9), Err(UploadError::AlreadyComplete));
    assert_eq!(row(&store, 1).completed_at, Some(1));
    assert_eq!(row(&store, 1).size, 10);
}

#[test]
fn unknown_session_is_refused() {
    let mut store = SessionStore::new();
    assert_eq!(store.record_chunk(1, 5, 9), Err(UploadError::UnknownSession));
    assert_eq!(store.complete_session(0, 9), Err(UploadError::UnknownSession));
}

#[test]
fn same_filename_other_client_is_independent() {
    let mut store = SessionStore::new();
    let a = store.accept_chunk("same.bin", "1.1.1.1", 100, 0, 2, MAX, 1).unwrap();
    let b = store.accept_chunk("same.bin", "2.2.2.2", 50, 0, 2, MAX, 2).unwrap();
    assert_ne!(a.id, b.id);
    store.accept_chunk("same.bin", "1.1.1.1", 100, 1, 2, MAX, 3).unwrap();
    assert_eq!(row(&store, a.id).status, "complete");
    let other = row(&store, b.id);
    assert_eq!(other.status, "uploading");
    assert_eq!(other.size, 50);
    assert_eq!(other.updated_at, 2);
}

#[test]
fn reap_boundary_is_not_stale() {
    let mut store = SessionStore::new();
    store.accept_chunk("f", "c", 1, 0, 5, MAX, 1_000).unwrap();
    assert!(store.reap(1_000 + 60_000, 60, 120).is_empty());
    assert_eq!(row(&store, 1).status, "uploading");
    assert_eq!(store.reap(1_000 + 60_001, 60, 120), vec![1]);
    let r = row(&store, 1);
    assert_eq!(r.status, "disconnected");
    assert_eq!(r.updated_at, 61_001);
}

#[test]
fn reap_ignores_init_and_complete_sessions() {
    let mut store = SessionStore::new();
    store.resolve("a", "c", 0).unwrap();
    store.accept_chunk("b", "c", 5, 0, 1, MAX, 0).unwrap();
    assert!(store.reap(1_000_000, 60, 120).is_empty());
    assert_eq!(row(&store, 1).status, "init");
    assert_eq!(row(&store, 2).status, "complete");
}

#[test]
fn resume_after_disconnect_keeps_id_and_size() {
    let mut store = SessionStore::new();
    store.accept_chunk("v.mp4", "9.9.9.9", 400, 0, 4, MAX, 0).unwrap();
    store.reap(100_000, 60, 120);
    assert_eq!(row(&store, 1).status, "disconnected");
    // A heartbeat cannot revive it.
    assert_eq!(store.heartbeat("9.9.9.9", None, &vec![1], 100_001), 0);
    assert_eq!(row(&store, 1).status, "disconnected");
    let plan = store.accept_chunk("v.mp4", "9.9.9.9", 400, 1, 4, MAX, 100_002).unwrap();
    assert_eq!(plan.id, 1);
    assert_eq!(plan.announcement, None);
    let r = row(&store, 1);
    assert_eq!(r.status, "uploading");
    assert_eq!(r.size, 800);
}

#[test]
fn resumed_announcement_reports_size() {
    let mut store = SessionStore::new();
    store.resolve("x", "c", 0).unwrap();
    store.record_chunk(1, 70, 1).unwrap();
    let plan = store.begin_chunk("x", "c", 10, 1, 3, MAX, 2).unwrap();
    assert_eq!(
        plan,
        ChunkPlan { id: 1, announcement: Some(Announcement::Resumed { from_size: 70 }), finalize: false }
    );
    let again = store.begin_chunk("x", "c", 10, 2, 3, MAX, 3).unwrap();
    assert_eq!(again.announcement, None);
    assert!(again.finalize);
}

#[test]
fn index_out_of_range_is_refused_without_change() {
    let mut store = SessionStore::new();
    assert_eq!(store.accept_chunk("f", "c", 10, 3, 3, MAX, 1), Err(UploadError::IndexOutOfRange));
    assert!(store.session_row(1).is_none());
}

#[test]
fn oversized_estimate_is_refused_without_change() {
    let mut store = SessionStore::new();
    let r = store.accept_chunk("f", "c", 1000, 0, 5, 4999, 1);
    assert_eq!(r, Err(UploadError::TooLarge { estimated: 5000, limit: 4999 }));
    assert!(store.session_row(1).is_none());
    assert!(store.accept_chunk("f", "c", 1000, 0, 5, 5000, 1).is_ok());
}

#[test]
fn byte_count_overflow_is_refused() {
    let mut store = SessionStore::new();
    store.resolve("f", "c", 1).unwrap();
    store.record_chunk(1, u64::MAX - 5, 1).unwrap();
    assert_eq!(store.accept_chunk("f", "c", 10, 1, 2, u64::MAX, 2), Err(UploadError::SizeOverflow));
    assert_eq!(store.record_chunk(1, 10, 2), Err(UploadError::SizeOverflow));
    assert_eq!(row(&store, 1).size, u64::MAX - 5);
    assert!(store.accept_chunk("f", "c", 5, 1, 2, u64::MAX, 2).is_ok());
    assert_eq!(row(&store, 1).size, u64::MAX);
}

#[test]
fn heartbeat_counts_owned_uploading_sessions() {
    let mut store = SessionStore::new();
    store.accept_chunk("a", "me", 1, 0, 9, MAX, 10).unwrap();
    store.accept_chunk("b", "other", 1, 0, 9, MAX, 10).unwrap();
    store.resolve("c", "me", 10).unwrap();
    let n = store.heartbeat("me", Some("agent/1"), &vec![1, 2, 3, 99, 1], 500);
    assert_eq!(n, 2);
    assert_eq!(row(&store, 1).updated_at, 500);
    assert_eq!(row(&store, 2).updated_at, 10);
    assert_eq!(row(&store, 3).updated_at, 10);
}

#[test]
fn heartbeat_creates_and_refreshes_client() {
    let mut store = SessionStore::new();
    store.heartbeat("me", Some("agent/1"), &vec![], 5);
    store.heartbeat("me", None, &vec![], 9);
    let clients = store.connected_clients();
    assert_eq!(clients.len(), 1);
    assert_eq!(clients[0].client_ip, "me");
    assert_eq!(clients[0].user_agent.as_deref(), Some("agent/1"));
    assert_eq!(clients[0].first_seen, 5);
    assert_eq!(clients[0].last_seen, 9);
    store.touch_client("me", Some("agent/2"), 11);
    assert_eq!(store.connected_clients()[0].user_agent.as_deref(), Some("agent/2"));
}

#[test]
fn stale_clients_are_removed_independently_of_uploads() {
    let mut store = SessionStore::new();
    store.touch_client("old", None, 0);
    store.touch_client("new", None, 100_000);
    store.accept_chunk("f", "old", 5, 0, 2, MAX, 100_000).unwrap();
    let demoted = store.reap(120_001, 60, 120);
    assert!(demoted.is_empty());
    let clients = store.connected_clients();
    assert_eq!(clients.len(), 1);
    assert_eq!(clients[0].client_ip, "new");
    assert_eq!(row(&store, 1).status, "uploading");
}

#[test]
fn status_names_read_back() {
    for st in [UploadStatus::Init, UploadStatus::Uploading, UploadStatus::Complete, UploadStatus::Disconnected] {
        assert_eq!(UploadStatus::parse(st.as_str()), Some(st));
    }
    assert_eq!(UploadStatus::parse("done"), None);
}

#[test]
fn restore_checks_each_row() {
    let mut source = SessionStore::new();
    source.accept_chunk("a", "c", 5, 0, 1, MAX, 1).unwrap();
    source.accept_chunk("a", "c", 7, 0, 2, MAX, 2).unwrap();
    let mut store = SessionStore::new();
    let first = source.session_row(1).unwrap();
    let second = source.session_row(2).unwrap();
    assert!(!store.restore_session(&second));
    assert!(store.restore_session(&first));
    assert!(store.restore_session(&second));
    assert_eq!(store.probe("a", "c"), 7);
    // A second open session for the same key does not fit.
    let mut dup = source.session_row(2).unwrap();
    dup.id = 3;
    assert!(!store.restore_session(&dup));
    let mut bad = source.session_row(2).unwrap();
    bad.id = 3;
    bad.status = "paused".to_string();
    assert!(!store.restore_session(&bad));
    let c = drcv::Client { client_ip: "c".to_string(), user_agent: None, first_seen: 1, last_seen: 2 };
    let c2 = drcv::Client { client_ip: "c".to_string(), user_agent: None, first_seen: 3, last_seen: 4 };
    assert!(store.restore_client(c));
    assert!(!store.restore_client(c2));
}
