use ttrack::store::ActivityStore;
use ttrack::types::{
    Activity, DeleteActivityRequest, EditActivityRequest, ErrorType, GetHistoryRequest,
    GetReportRequest,
};

fn activity(id: &str, start: i64, end: Option<i64>, name: &str, tags: &[&str]) -> Activity {
    Activity {
        id: id.to_string(),
        start,
        end,
        name: name.to_string(),
        tags: tags.iter().map(|t| t.to_string()).collect(),
    }
}

fn history_all(store: &ActivityStore) -> Vec<Activity> {
    let req = GetHistoryRequest {
        page: 0,
        page_size: 1000,
        since_datetime: -1_000_000,
        until_datetime: 1_000_000,
    };
    store.get_history(&req).unwrap()
}

fn edit_nothing(id: &str) -> EditActivityRequest {
    EditActivityRequest {
        activity_id: id.to_string(),
        start_time: None,
        end_time: None,
        name: None,
        tags_to_add: vec![],
        tags_to_del: vec![],
    }
}

#[test]
fn add_then_history_round_trip() {
    let mut store = ActivityStore::new();
    let a = activity("aaaaaaaa-0001", 50, Some(60), "writing", &["x", "y"]);
    store.add_activity(&a).unwrap();

    let req = GetHistoryRequest {
        page: 0,
        page_size: 20,
        since_datetime: 0,
        until_datetime: 100,
    };
    let got = store.get_history(&req).unwrap();
    assert_eq!(got.len(), 1);
    assert_eq!(got[0].id, "aaaaaaaa-0001");
    assert_eq!(got[0].name, "writing");
    assert_eq!(got[0].start, 50);
    assert_eq!(got[0].end, Some(60));
    let mut tags = got[0].tags.clone();
    tags.sort();
    assert_eq!(tags, vec!["x".to_string(), "y".to_string()]);
}

#[test]
fn pagination_returns_third_and_fourth_most_recent() {
    let mut store = ActivityStore::new();
    for (i, start) in [10i64, 20, 30, 40].iter().enumerate() {
        let a = activity(&format!("aaaaaaa{}-id", i), *start, Some(start + 1), "a", &[]);
        store.add_activity(&a).unwrap();
    }
    let req = GetHistoryRequest {
        page: 1,
        page_size: 2,
        since_datetime: 0,
        until_datetime: 100,
    };
    let got = store.get_history(&req).unwrap();
    assert_eq!(got.len(), 2);
    assert_eq!(got[0].start, 20);
    assert_eq!(got[1].start, 10);

    let first = GetHistoryRequest { page: 0, page_size: 2, ..req };
    let got = store.get_history(&first).unwrap();
    assert_eq!(got[0].start, 40);
    assert_eq!(got[1].start, 30);
}

#[test]
fn page_size_zero_yields_empty_page() {
    let mut store = ActivityStore::new();
    store
        .add_activity(&activity("aaaaaaaa-0001", 10, None, "a", &[]))
        .unwrap();
    let req = GetHistoryRequest {
        page: 0,
        page_size: 0,
        since_datetime: 0,
        until_datetime: 100,
    };
    assert!(store.get_history(&req).unwrap().is_empty());
}

#[test]
fn history_range_is_inclusive() {
    let mut store = ActivityStore::new();
    store
        .add_activity(&activity("aaaaaaaa-0001", 10, None, "a", &[]))
        .unwrap();
    let exact = GetHistoryRequest {
        page: 0,
        page_size: 20,
        since_datetime: 10,
        until_datetime: 10,
    };
    assert_eq!(store.get_history(&exact).unwrap().len(), 1);
    let outside = GetHistoryRequest {
        page: 0,
        page_size: 20,
        since_datetime: 11,
        until_datetime: 20,
    };
    assert!(store.get_history(&outside).unwrap().is_empty());
}

#[test]
fn edit_is_a_true_partial_update() {
    let mut store = ActivityStore::new();
    store
        .add_activity(&activity("aaaaaaaa-0001", 10, Some(20), "keep", &["a"]))
        .unwrap();
    let mut req = edit_nothing("aaaaaaaa");
    req.tags_to_add = vec!["x".to_string()];
    let got = store.edit_activity(&req).unwrap();
    assert_eq!(got.name, "keep");
    assert_eq!(got.start, 10);
    assert_eq!(got.end, Some(20));
    assert_eq!(got.tags, vec!["a".to_string(), "x".to_string()]);
}

#[test]
fn edit_replaces_set_fields() {
    let mut store = ActivityStore::new();
    store
        .add_activity(&activity("aaaaaaaa-0001", 10, None, "old", &[]))
        .unwrap();
    let mut req = edit_nothing("aaaaaaaa");
    req.name = Some("new".to_string());
    req.start_time = Some(11);
    req.end_time = Some(22);
    let got = store.edit_activity(&req).unwrap();
    assert_eq!(got.name, "new");
    assert_eq!(got.start, 11);
    assert_eq!(got.end, Some(22));
    let stored = history_all(&store);
    assert_eq!(stored[0].end, Some(22));
}

#[test]
fn adding_a_present_tag_is_a_no_op() {
    let mut store = ActivityStore::new();
    store
        .add_activity(&activity("aaaaaaaa-0001", 10, None, "a", &["a"]))
        .unwrap();
    let mut req = edit_nothing("aaaaaaaa");
    req.tags_to_add = vec!["a".to_string()];
    let got = store.edit_activity(&req).unwrap();
    assert_eq!(got.tags, vec!["a".to_string()]);
}

#[test]
fn removing_an_absent_tag_is_a_no_op() {
    let mut store = ActivityStore::new();
    store
        .add_activity(&activity("aaaaaaaa-0001", 10, None, "a", &["a"]))
        .unwrap();
    let mut req = edit_nothing("aaaaaaaa");
    req.tags_to_del = vec!["zzz".to_string()];
    let got = store.edit_activity(&req).unwrap();
    assert_eq!(got.tags, vec!["a".to_string()]);
}

#[test]
fn tag_added_and_deleted_in_one_edit_ends_deleted() {
    let mut store = ActivityStore::new();
    store
        .add_activity(&activity("aaaaaaaa-0001", 10, None, "a", &[]))
        .unwrap();
    let mut req = edit_nothing("aaaaaaaa");
    req.tags_to_add = vec!["x".to_string()];
    req.tags_to_del = vec!["x".to_string()];
    let got = store.edit_activity(&req).unwrap();
    assert!(got.tags.is_empty());
}

#[test]
fn delete_unknown_id_fails_not_found() {
    let mut store = ActivityStore::new();
    store
        .add_activity(&activity("aaaaaaaa-0001", 10, None, "a", &[]))
        .unwrap();
    let req = DeleteActivityRequest {
        activity_id: "ffffffff".to_string(),
    };
    let err = store.delete_activity(&req).unwrap_err();
    assert_eq!(err.id, "activity_id_not_found");
    assert_eq!(err.kind, ErrorType::ClientError);
    assert_eq!(history_all(&store).len(), 1);
}

#[test]
fn delete_returns_snapshot_and_removes() {
    let mut store = ActivityStore::new();
    store
        .add_activity(&activity("aaaaaaaa-0001", 10, Some(20), "gone", &["t"]))
        .unwrap();
    let req = DeleteActivityRequest {
        activity_id: "aaaaaaaa".to_string(),
    };
    let got = store.delete_activity(&req).unwrap();
    assert_eq!(got.id, "aaaaaaaa-0001");
    assert_eq!(got.name, "gone");
    assert_eq!(got.tags, vec!["t".to_string()]);
    assert!(history_all(&store).is_empty());
}

#[test]
fn edit_unknown_id_fails_not_found() {
    let mut store = ActivityStore::new();
    let err = store.edit_activity(&edit_nothing("ffffffff")).unwrap_err();
    assert_eq!(err.id, "activity_id_not_found");
    assert_eq!(err.kind, ErrorType::ClientError);
}

#[test]
fn prefix_lookup_takes_first_match_in_insertion_order() {
    let mut store = ActivityStore::new();
    store
        .add_activity(&activity("abcd0001-x", 10, None, "first", &[]))
        .unwrap();
    store
        .add_activity(&activity("abcd0002-x", 20, None, "second", &[]))
        .unwrap();
    let got = store.edit_activity(&edit_nothing("abcd")).unwrap();
    assert_eq!(got.name, "first");
}

#[test]
fn add_duplicate_id_fails_with_storage_error() {
    let mut store = ActivityStore::new();
    let a = activity("aaaaaaaa-0001", 10, None, "a", &[]);
    store.add_activity(&a).unwrap();
    let err = store.add_activity(&a).unwrap_err();
    assert_eq!(store.len(), 1);
    assert_eq!(err.id, "db_error");
    assert_eq!(err.kind, ErrorType::ServerError);
    assert_eq!(history_all(&store).len(), 1);
}

#[test]
fn last_active_is_most_recent_and_only_while_active() {
    let mut store = ActivityStore::new();
    assert!(store.get_last_active_activity().unwrap().is_none());
    store
        .add_activity(&activity("aaaaaaaa-0001", 10, Some(20), "done", &[]))
        .unwrap();
    assert!(store.get_last_active_activity().unwrap().is_none());
    store
        .add_activity(&activity("bbbbbbbb-0002", 30, None, "running", &[]))
        .unwrap();
    let got = store.get_last_active_activity().unwrap().unwrap();
    assert_eq!(got.id, "bbbbbbbb-0002");
}

#[test]
fn report_aggregates_per_tag_with_untagged_bucket() {
    let mut store = ActivityStore::new();
    store
        .add_activity(&activity("aaaaaaaa-0001", 0, Some(60), "one", &["a"]))
        .unwrap();
    store
        .add_activity(&activity("bbbbbbbb-0002", 1, Some(31), "two", &["a", "b"]))
        .unwrap();
    store
        .add_activity(&activity("cccccccc-0003", 2, Some(12), "three", &[]))
        .unwrap();
    let req = GetReportRequest {
        since_datetime: 0,
        until_datetime: 100,
    };
    let got = store.get_report_at(&req, 1000).unwrap();
    let rows: Vec<(String, i64)> = got
        .iter()
        .map(|r| (r.tag.clone(), r.duration_secs))
        .collect();
    assert_eq!(
        rows,
        vec![
            ("a".to_string(), 90),
            ("b".to_string(), 30),
            ("untagged".to_string(), 10),
        ]
    );
}

#[test]
fn report_counts_active_activity_up_to_now() {
    let mut store = ActivityStore::new();
    store
        .add_activity(&activity("aaaaaaaa-0001", 10, None, "open", &["t"]))
        .unwrap();
    let req = GetReportRequest {
        since_datetime: 0,
        until_datetime: 100,
    };
    let got = store.get_report_at(&req, 25).unwrap();
    assert_eq!(got.len(), 1);
    assert_eq!(got[0].tag, "t");
    assert_eq!(got[0].duration_secs, 15);
}

#[test]
fn report_skips_out_of_range_activities() {
    let mut store = ActivityStore::new();
    store
        .add_activity(&activity("aaaaaaaa-0001", 200, Some(260), "late", &["t"]))
        .unwrap();
    let req = GetReportRequest {
        since_datetime: 0,
        until_datetime: 100,
    };
    assert!(store.get_report_at(&req, 1000).unwrap().is_empty());
}

#[test]
fn short_id_is_first_eight_characters() {
    let a = activity("abcdefgh-rest-of-it", 0, None, "a", &[]);
    assert_eq!(a.short_id(), "abcdefgh");
}

#[test]
fn duration_uses_end_or_now() {
    let done = activity("aaaaaaaa-0001", 50, Some(60), "a", &[]);
    assert_eq!(done.duration_at(1000), 10);
    let open = activity("bbbbbbbb-0002", 50, None, "b", &[]);
    assert_eq!(open.duration_at(75), 25);
}
