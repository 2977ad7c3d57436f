use ttrack::service::{ActivityRepo, Service};
use ttrack::store::ActivityStore;
use ttrack::types::{ErrorType, GetHistoryRequest, GetReportRequest, StartActivityRequest};

fn start_request(name: &str, tags: &[&str]) -> StartActivityRequest {
    StartActivityRequest {
        name: name.to_string(),
        tags: tags.iter().map(|t| t.to_string()).collect(),
    }
}

fn history_all(store: &ActivityStore) -> Vec<ttrack::types::Activity> {
    let req = GetHistoryRequest {
        page: 0,
        page_size: 1000,
        since_datetime: -1_000_000,
        until_datetime: 10_000_000_000,
    };
    store.get_history(&req).unwrap()
}

#[test]
fn double_start_fails_while_active() {
    let mut store = ActivityStore::new();
    store
        .start_activity_at(&start_request("work", &[]), "aaaaaaaa-0001".to_string(), 100)
        .unwrap();
    let err = store
        .start_activity_at(&start_request("work2", &[]), "bbbbbbbb-0002".to_string(), 200)
        .unwrap_err();
    assert_eq!(err.id, "active_activity_exists");
    assert_eq!(err.kind, ErrorType::ClientError);

    let stored = history_all(&store);
    assert_eq!(stored.len(), 1);
    assert_eq!(stored[0].name, "work");
    assert!(stored[0].end.is_none());
}

#[test]
fn stop_with_none_active_fails() {
    let mut store = ActivityStore::new();
    let err = store.stop_activity_at(5).unwrap_err();
    assert_eq!(err.id, "active_activity_does_not_exist");
    assert_eq!(err.kind, ErrorType::ClientError);
}

#[test]
fn stop_after_everything_is_stopped_fails() {
    let mut store = ActivityStore::new();
    store
        .start_activity_at(&start_request("work", &[]), "aaaaaaaa-0001".to_string(), 100)
        .unwrap();
    store.stop_activity_at(200).unwrap();
    let err = store.stop_activity_at(300).unwrap_err();
    assert_eq!(err.id, "active_activity_does_not_exist");
    assert_eq!(err.kind, ErrorType::ClientError);
}

#[test]
fn start_then_stop_ends_exactly_the_started_activity() {
    let mut store = ActivityStore::new();
    store
        .start_activity_at(&start_request("old", &[]), "aaaaaaaa-0001".to_string(), 10)
        .unwrap();
    store.stop_activity_at(20).unwrap();
    let started = store
        .start_activity_at(&start_request("work", &["t"]), "bbbbbbbb-0002".to_string(), 100)
        .unwrap();
    assert_eq!(started.id, "bbbbbbbb-0002");
    assert_eq!(started.start, 100);
    assert!(started.end.is_none());

    let stopped = store.stop_activity_at(130).unwrap();
    assert_eq!(stopped.id, "bbbbbbbb-0002");
    assert_eq!(stopped.name, "work");
    assert_eq!(stopped.start, 100);
    assert_eq!(stopped.end, Some(130));
    assert_eq!(stopped.tags, vec!["t".to_string()]);

    let stored = history_all(&store);
    assert_eq!(stored.len(), 2);
    assert_eq!(stored[0].end, Some(130));
    assert_eq!(stored[1].end, Some(20));
    assert!(store.get_last_active_activity().unwrap().is_none());
}

#[test]
fn start_deduplicates_requested_tags() {
    let mut store = ActivityStore::new();
    let a = store
        .start_activity_at(
            &start_request("work", &["a", "b", "a"]),
            "aaaaaaaa-0001".to_string(),
            10,
        )
        .unwrap();
    assert_eq!(a.tags, vec!["a".to_string(), "b".to_string()]);
}

#[test]
fn start_with_generated_id_and_clock() {
    let mut store = ActivityStore::new();
    let a = store.start_activity(&start_request("work", &["t"])).unwrap();
    assert_eq!(a.id.chars().count(), 36);
    assert!(a.start >= 0);
    assert!(a.end.is_none());
    assert_eq!(a.name, "work");

    let b = store.stop_activity().unwrap();
    assert_eq!(b.id, a.id);
    assert!(b.end.is_some());
    assert!(b.end.unwrap() >= a.start);
    assert!(b.duration() >= 0);
}

#[test]
fn generated_ids_differ_between_starts() {
    let mut store = ActivityStore::new();
    let a = store.start_activity(&start_request("one", &[])).unwrap();
    store.stop_activity().unwrap();
    let b = store.start_activity(&start_request("two", &[])).unwrap();
    assert_ne!(a.id, b.id);
}

#[test]
fn report_through_the_clock_sees_finished_work() {
    let mut store = ActivityStore::new();
    store
        .start_activity_at(&start_request("work", &["t"]), "aaaaaaaa-0001".to_string(), 100)
        .unwrap();
    store.stop_activity_at(160).unwrap();
    let req = GetReportRequest {
        since_datetime: 0,
        until_datetime: 10_000_000_000,
    };
    let got = store.get_report(&req).unwrap();
    assert_eq!(got.len(), 1);
    assert_eq!(got[0].tag, "t");
    assert_eq!(got[0].duration_secs, 60);
}

#[test]
fn at_most_one_active_across_a_sequence_of_operations() {
    let mut store = ActivityStore::new();
    let active_count = |store: &ActivityStore| {
        history_all(store)
            .iter()
            .filter(|a| a.end.is_none())
            .count()
    };

    assert!(active_count(&store) <= 1);
    store
        .start_activity_at(&start_request("one", &["t"]), "aaaaaaaa-0001".to_string(), 10)
        .unwrap();
    assert!(active_count(&store) <= 1);
    store.start_activity_at(&start_request("two", &[]), "bbbbbbbb-0002".to_string(), 11).unwrap_err();
    assert!(active_count(&store) <= 1);
    store.stop_activity_at(20).unwrap();
    assert!(active_count(&store) <= 1);
    store
        .start_activity_at(&start_request("two", &[]), "bbbbbbbb-0002".to_string(), 30)
        .unwrap();
    assert!(active_count(&store) <= 1);
    let mut edit = ttrack::types::EditActivityRequest {
        activity_id: "aaaaaaaa".to_string(),
        start_time: Some(5),
        end_time: None,
        name: Some("renamed".to_string()),
        tags_to_add: vec!["x".to_string()],
        tags_to_del: vec!["t".to_string()],
    };
    store.edit_activity(&edit).unwrap();
    assert!(active_count(&store) <= 1);
    edit.activity_id = "bbbbbbbb".to_string();
    edit.end_time = Some(40);
    store.edit_activity(&edit).unwrap();
    assert!(active_count(&store) <= 1);
    store
        .delete_activity(&ttrack::types::DeleteActivityRequest {
            activity_id: "aaaaaaaa".to_string(),
        })
        .unwrap();
    assert!(active_count(&store) <= 1);
    store
        .start_activity_at(&start_request("three", &[]), "cccccccc-0003".to_string(), 50)
        .unwrap();
    assert!(active_count(&store) <= 1);
}
