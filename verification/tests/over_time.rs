use nimbusdns::database::status::QueryStatus;
use nimbusdns::over_time::{OverTime, HISTORY_SLOTS, SLOT_INTERVAL};

#[test]
fn test_slot_timestamp() {
    let ts = 1705322096;
    let slot = OverTime::slot_timestamp(ts);
    assert_eq!(slot, 1705321800);
    assert_eq!(slot % SLOT_INTERVAL, 0);
}

#[test]
fn test_record_and_retrieve() {
    let mut ot = OverTime::new();
    let now = chrono::Utc::now().timestamp();
    ot.record_query(now, Some("192.168.1.1"), QueryStatus::Forwarded);
    ot.record_query(now, Some("192.168.1.1"), QueryStatus::Blocked);
    ot.record_query(now, Some("192.168.1.2"), QueryStatus::Cached);
    let history = ot.get_history_at(now);
    assert!(!history.is_empty(), "Should have at least one slot");
    let last = history.last().unwrap();
    assert_eq!(last.total, 3);
    assert_eq!(last.blocked, 1);
    assert_eq!(last.cached, 1);
    assert_eq!(last.forwarded, 1);
    let client1 = ot.get_client_history_at("192.168.1.1", now);
    let last_c1 = client1.last().unwrap();
    assert_eq!(last_c1.total, 2);
    assert_eq!(last_c1.blocked, 1);
    assert_eq!(last_c1.forwarded, 1);
    assert_eq!(ot.get_history().len(), history.len());
    assert_eq!(ot.get_client_history("192.168.1.1").len(), client1.len());
}

#[test]
fn test_clear() {
    let mut ot = OverTime::new();
    let now = chrono::Utc::now().timestamp();
    ot.record_query(now, None, QueryStatus::Forwarded);
    assert_eq!(ot.total_queries(), 1);
    ot.clear();
    assert_eq!(ot.total_queries(), 0);
    assert!(ot.get_history().is_empty() || ot.get_history().iter().all(|s| s.total == 0));
}

#[test]
fn a_slot_is_used_again_after_a_day() {
    let mut ot = OverTime::new();
    let t = 1_700_000_000;
    ot.record_query(t, Some("c"), QueryStatus::Blocked);
    let day = HISTORY_SLOTS as i64 * SLOT_INTERVAL;
    assert_eq!(OverTime::slot_index(t), OverTime::slot_index(t + day));
    ot.record_query(t + day, Some("c"), QueryStatus::Cached);
    let last = *ot.get_history_at(t + day).last().unwrap();
    assert_eq!((last.total, last.blocked, last.cached), (1, 0, 1));
    assert_eq!(last.timestamp, OverTime::slot_timestamp(t + day));
    assert_eq!(ot.total_queries(), 2);
    assert!(ot.get_client_history_at("nobody", t).iter().all(|s| s.total == 0));
}

#[test]
fn histories_are_sound() {
    let mut ot = OverTime::new();
    let now = 1_700_000_000;
    let statuses =
        [QueryStatus::Blocked, QueryStatus::Cached, QueryStatus::Forwarded, QueryStatus::Unknown];
    for i in 0..2000i64 {
        let client = if i % 3 == 0 { Some("c") } else { None };
        ot.record_query(now - (i * 7919) % 100_000, client, statuses[i as usize % 4]);
    }
    let current = OverTime::slot_timestamp(now);
    for list in [ot.get_history_at(now), ot.get_client_history_at("c", now)] {
        assert!(!list.is_empty() && list.len() <= HISTORY_SLOTS);
        assert!(list.windows(2).all(|w| w[0].timestamp < w[1].timestamp));
        for s in list {
            assert!(s.timestamp > 0 && s.timestamp % SLOT_INTERVAL == 0);
            assert!(current - s.timestamp <= 86_400);
            assert!(s.total >= 1 && s.blocked + s.cached + s.forwarded <= s.total);
        }
    }
    ot.clear();
    assert!(ot.get_history_at(now).is_empty());
    assert!(ot.get_client_history_at("c", now).is_empty());
    assert_eq!(ot.total_queries(), 0);
}
