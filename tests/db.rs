use barrier_backend::db::{Cache, Db, EventType, RefreshTokenItem};
use barrier_backend::db::event_to_log;
use barrier_backend::structs::Gate;

fn room() -> Gate {
    Gate {
        id: 1,
        retries: 1,
        name: "room".to_string(),
        description: "".to_string(),
    }
}

#[test]
fn cache_test() {
    let mut cache = Cache::new();

    assert_eq!(cache.len(), 0);

    assert_eq!(cache.remove_by_refresh_token("INVALID_REFRESH_TOKEN"), None);

    cache.store_refresh("admin", "VALID_REFRESH_TOKEN", &vec![room()]);

    assert_eq!(cache.len(), 1);

    assert_eq!(
        cache.remove_by_refresh_token("VALID_REFRESH_TOKEN"),
        Some(RefreshTokenItem {
            username: "admin".to_string(),
            refresh_token: "VALID_REFRESH_TOKEN".to_string(),
            rooms: vec![room()],
        })
    );

    assert_eq!(cache.len(), 0);

    cache.store_refresh("admin", "VALID_REFRESH_TOKEN1", &vec![room()]);
    cache.store_refresh("admin", "VALID_REFRESH_TOKEN2", &vec![room()]);
    assert_eq!(cache.len(), 2);
    cache.remove_by_username("admin");
    assert_eq!(cache.len(), 0);
}

#[test]
fn storing_the_same_token_twice_keeps_one_record() {
    let mut cache = Cache::new();
    cache.store_refresh("admin", "T", &vec![room()]);
    cache.store_refresh("other", "T", &vec![]);
    assert_eq!(cache.len(), 1);
    let item = cache.remove_by_refresh_token("T").unwrap();
    assert_eq!(item.username, "other");
    assert!(item.rooms.is_empty());
}

#[test]
fn remove_by_username_keeps_other_users() {
    let mut cache = Cache::new();
    cache.store_refresh("a", "T1", &vec![room()]);
    cache.store_refresh("b", "T2", &vec![room()]);
    cache.store_refresh("a", "T3", &vec![room()]);
    cache.remove_by_username("a");
    assert_eq!(cache.len(), 1);
    assert_eq!(cache.remove_by_refresh_token("T1"), None);
    assert_eq!(cache.remove_by_refresh_token("T3"), None);
    assert_eq!(cache.remove_by_refresh_token("T2").unwrap().username, "b");
    cache.remove_by_username("nobody");
    assert_eq!(cache.len(), 0);
}

#[test]
fn event_records_carry_label_and_gate() {
    let e = event_to_log("1.2.3.4", "u", "s", EventType::UnauthorizedGateAccess { gate: "g".to_string() }, 42);
    assert_eq!(e.event_type, "Unauthorized gate access");
    assert_eq!(e.gate, Some("g".to_string()));
    assert_eq!(e.date, 42);
    let e = event_to_log("ip", "u", "", EventType::FailedRefresh, 0);
    assert_eq!(e.event_type, "Failed refresh token");
    assert_eq!(e.gate, None);
    let mut cache = Cache::new();
    cache.log_event("ip", "u", "s", EventType::SuccessfulLogin, 1);
    assert_eq!(cache.event_count(), 1);
    assert_eq!(cache.len(), 0);
}
