use std::sync::Arc;

use zedis::error::{Error, ErrorKind};
use zedis::states::server::hash::{decode_hash_page, first_load_hash_value};
use zedis::states::server::value::{
    shared_add_fields, shared_append_page, shared_remove_field, MISSING_KEY_EXPIRY,
};
use zedis::states::{
    KeyType, NotificationAction, NotificationCategory, Outcome, RedisHashValue, RedisValue,
    RedisValueData, RedisValueStatus, ServerEvent, ServerTask, StoreRequest, TaskRecord,
    ZedisServerState,
};

fn pairs(list: &[(&str, &str)]) -> Vec<(String, String)> {
    list.iter().map(|(f, v)| (f.to_string(), v.to_string())).collect()
}

fn session_with_hash(key: &str, size: usize, cursor: u64, values: &[(&str, &str)]) -> ZedisServerState {
    let mut state = ZedisServerState::new();
    state.key = Some(key.to_string());
    state.value = Some(RedisValue::hash(size, cursor, pairs(values)));
    state
}

fn hash_of(state: &ZedisServerState) -> Arc<RedisHashValue> {
    state.value.as_ref().unwrap().hash_value().unwrap().clone()
}

fn status_of(state: &ZedisServerState) -> RedisValueStatus {
    state.value.as_ref().unwrap().status
}

fn failed(message: &str) -> Error {
    Error::new(ErrorKind::Connectivity, message)
}

fn failure_event(message: &str) -> ServerEvent {
    ServerEvent::Notification(NotificationAction {
        category: NotificationCategory::Error,
        title: None,
        message: message.to_string(),
    })
}

#[test]
fn first_page_ends_the_enumeration_at_cursor_zero() {
    let all = RedisHashValue::first_page(2, 0, pairs(&[("a", "1"), ("b", "2")]));
    assert!(all.done);
    assert_eq!(all.cursor, 0);
    assert_eq!(all.size, 2);
    assert_eq!(all.keyword, None);
    assert_eq!(all.values, pairs(&[("a", "1"), ("b", "2")]));
    let part = RedisHashValue::first_page(200, 17, pairs(&[("a", "1")]));
    assert!(!part.done);
    assert_eq!(part.cursor, 17);
}

#[test]
fn first_load_makes_an_entry_at_rest() {
    let raw = vec![(b"field".to_vec(), b"value".to_vec())];
    let value = first_load_hash_value(1, 0, &raw);
    assert_eq!(value.key_type, KeyType::Hash);
    assert_eq!(value.status, RedisValueStatus::Idle);
    assert_eq!(value.expire_at, None);
    let hash = value.hash_value().unwrap();
    assert_eq!(hash.values, pairs(&[("field", "value")]));
    assert_eq!(hash.size, 1);
    assert!(hash.done);
}

#[test]
fn decode_hash_page_replaces_what_is_no_text() {
    let raw = vec![
        (b"plain".to_vec(), "za\u{17c}\u{f3}\u{142}\u{107}".as_bytes().to_vec()),
        (vec![0x66, 0xff, 0x6f], vec![0xc3, 0x28]),
        (Vec::new(), Vec::new()),
    ];
    let page = decode_hash_page(&raw);
    assert_eq!(
        page,
        pairs(&[("plain", "zażółć"), ("f\u{fffd}o", "\u{fffd}("), ("", "")])
    );
    assert_eq!(decode_hash_page(&Vec::new()), Vec::<(String, String)>::new());
}

#[test]
fn add_marks_the_entry_and_asks_for_the_write() {
    let mut state = session_with_hash("h", 3, 0, &[("a", "1")]);
    let out = state.add_hash_value("f".to_string(), "v".to_string());
    assert_eq!(status_of(&state), RedisValueStatus::Updating);
    assert!(out.notify);
    assert!(out.events.is_empty());
    let dispatch = out.dispatch.unwrap();
    assert_eq!(dispatch.record, TaskRecord { kind: ServerTask::AddValue, epoch: 1 });
    assert_eq!(
        dispatch.request,
        StoreRequest::HashSet { key: "h".to_string(), field: "f".to_string(), value: "v".to_string() }
    );
}

#[test]
fn add_grows_the_size_by_what_the_store_created() {
    let mut state = session_with_hash("h", 3, 0, &[("a", "1")]);
    let record = state.add_hash_value("f".to_string(), "v".to_string()).dispatch.unwrap().record;
    let out = state.apply_add_hash_value(record, "h".to_string(), Ok(1));
    assert_eq!(hash_of(&state).size, 4);
    assert_eq!(hash_of(&state).values, pairs(&[("a", "1")]));
    assert_eq!(status_of(&state), RedisValueStatus::Idle);
    assert!(out.notify);
    assert!(out.dispatch.is_none());
    assert_eq!(
        out.events,
        vec![
            ServerEvent::Notification(NotificationAction {
                category: NotificationCategory::Success,
                title: Some("add_value_success".to_string()),
                message: "add_value_success_tips".to_string(),
            }),
            ServerEvent::ValueAdded("h".to_string()),
        ]
    );
}

#[test]
fn overwriting_a_field_leaves_the_size() {
    let mut state = session_with_hash("h", 3, 0, &[("a", "1")]);
    let record = state.add_hash_value("a".to_string(), "2".to_string()).dispatch.unwrap().record;
    let out = state.apply_add_hash_value(record, "h".to_string(), Ok(0));
    assert_eq!(hash_of(&state).size, 3);
    assert_eq!(status_of(&state), RedisValueStatus::Idle);
    assert_eq!(out.events.len(), 2);
}

#[test]
fn a_failed_add_is_reported_and_changes_no_payload() {
    let mut state = session_with_hash("h", 3, 5, &[("a", "1")]);
    let before = hash_of(&state);
    let record = state.add_hash_value("f".to_string(), "v".to_string()).dispatch.unwrap().record;
    let out = state.apply_add_hash_value(record, "h".to_string(), Err(failed("connection lost")));
    assert_eq!(*hash_of(&state), *before);
    assert_eq!(status_of(&state), RedisValueStatus::Idle);
    assert_eq!(out.events, vec![failure_event("connection lost")]);
    assert!(out.notify);
}

#[test]
fn commands_without_a_selected_value_do_nothing() {
    let mut state = ZedisServerState::new();
    assert_eq!(state.add_hash_value("f".to_string(), "v".to_string()), Outcome::nothing());
    assert_eq!(state.remove_hash_value("f".to_string()), Outcome::nothing());
    assert_eq!(state.load_more_hash_value(), Outcome::nothing());
    assert_eq!(state.filter_hash_value("k".to_string()), Outcome::nothing());
    assert_eq!(state.tasks.current(ServerTask::AddValue), 0);
    state.key = Some("k".to_string());
    assert_eq!(state.add_hash_value("f".to_string(), "v".to_string()), Outcome::nothing());
    assert_eq!(state.load_more_hash_value(), Outcome::nothing());
    state.value = Some(RedisValue {
        key_type: KeyType::String,
        status: RedisValueStatus::Idle,
        data: Some(RedisValueData::Text("text".to_string())),
        expire_at: None,
    });
    assert_eq!(state.load_more_hash_value(), Outcome::nothing());
    assert_eq!(state.filter_hash_value("k".to_string()), Outcome::nothing());
    assert_eq!(status_of(&state), RedisValueStatus::Idle);
}

#[test]
fn an_answer_for_a_value_that_is_no_hash_only_settles_the_entry() {
    let mut state = ZedisServerState::new();
    state.key = Some("k".to_string());
    state.value = Some(RedisValue {
        key_type: KeyType::String,
        status: RedisValueStatus::Idle,
        data: Some(RedisValueData::Text("text".to_string())),
        expire_at: None,
    });
    let record = state.add_hash_value("f".to_string(), "v".to_string()).dispatch.unwrap().record;
    assert_eq!(status_of(&state), RedisValueStatus::Updating);
    let out = state.apply_add_hash_value(record, "k".to_string(), Ok(1));
    assert_eq!(out, Outcome::changed());
    assert_eq!(status_of(&state), RedisValueStatus::Idle);
    assert_eq!(
        state.value.as_ref().unwrap().data,
        Some(RedisValueData::Text("text".to_string()))
    );
}

#[test]
fn removing_a_field_that_is_not_there_changes_nothing() {
    let mut state = session_with_hash("h", 3, 0, &[("a", "1"), ("b", "2"), ("c", "3")]);
    let before = hash_of(&state);
    let asked = state.remove_hash_value("nope".to_string());
    assert_eq!(status_of(&state), RedisValueStatus::Loading);
    let dispatch = asked.dispatch.unwrap();
    assert_eq!(
        dispatch.request,
        StoreRequest::HashDel { key: "h".to_string(), field: "nope".to_string() }
    );
    let out = state.apply_remove_hash_value(dispatch.record, "h".to_string(), "nope", Ok(0));
    assert_eq!(*hash_of(&state), *before);
    assert_eq!(hash_of(&state).size, 3);
    assert!(out.events.is_empty());
    assert!(out.dispatch.is_none());
    assert_eq!(status_of(&state), RedisValueStatus::Idle);
}

#[test]
fn removing_a_field_prunes_it_and_shrinks_the_size() {
    let mut state = session_with_hash("h", 3, 0, &[("a", "1"), ("b", "2"), ("c", "3"), ("b", "4")]);
    let record = state.remove_hash_value("b".to_string()).dispatch.unwrap().record;
    let out = state.apply_remove_hash_value(record, "h".to_string(), "b", Ok(1));
    assert_eq!(hash_of(&state).values, pairs(&[("a", "1"), ("c", "3")]));
    assert_eq!(hash_of(&state).size, 2);
    assert_eq!(out.events, vec![ServerEvent::ValueUpdated("h".to_string())]);
    assert_eq!(status_of(&state), RedisValueStatus::Idle);
}

#[test]
fn a_failed_removal_settles_the_entry_and_is_reported() {
    let mut state = session_with_hash("h", 3, 0, &[("a", "1")]);
    let record = state.remove_hash_value("a".to_string()).dispatch.unwrap().record;
    let out = state.apply_remove_hash_value(record, "h".to_string(), "a", Err(failed("boom")));
    assert_eq!(hash_of(&state).values, pairs(&[("a", "1")]));
    assert_eq!(hash_of(&state).size, 3);
    assert_eq!(status_of(&state), RedisValueStatus::Idle);
    assert_eq!(out.events, vec![failure_event("boom")]);
}

#[test]
fn add_then_remove_is_a_round_trip() {
    let mut state = session_with_hash("h", 3, 0, &[("a", "1"), ("b", "2")]);
    let added = state.add_hash_value("new".to_string(), "v".to_string()).dispatch.unwrap().record;
    state.apply_add_hash_value(added, "h".to_string(), Ok(1));
    assert_eq!(hash_of(&state).size, 4);
    let removed = state.remove_hash_value("new".to_string()).dispatch.unwrap().record;
    state.apply_remove_hash_value(removed, "h".to_string(), "new", Ok(1));
    assert_eq!(hash_of(&state).size, 3);
    assert!(hash_of(&state).values.iter().all(|(field, _)| field != "new"));
    assert_eq!(hash_of(&state).values, pairs(&[("a", "1"), ("b", "2")]));
}

#[test]
fn only_the_later_of_two_additions_is_applied() {
    let mut state = session_with_hash("h", 3, 0, &[]);
    let first = state.add_hash_value("f".to_string(), "1".to_string()).dispatch.unwrap().record;
    let second = state.add_hash_value("g".to_string(), "2".to_string()).dispatch.unwrap().record;
    assert_eq!(first.epoch + 1, second.epoch);
    // the first answer comes first, and is ignored
    let before = hash_of(&state);
    let late = state.apply_add_hash_value(first, "h".to_string(), Ok(1));
    assert_eq!(late, Outcome::nothing());
    assert_eq!(*hash_of(&state), *before);
    assert_eq!(status_of(&state), RedisValueStatus::Updating);
    let taken = state.apply_add_hash_value(second, "h".to_string(), Ok(1));
    assert_eq!(taken.events.len(), 2);
    assert_eq!(hash_of(&state).size, 4);
    assert_eq!(status_of(&state), RedisValueStatus::Idle);
    // and it is ignored as well where it comes last
    let later = state.apply_add_hash_value(first, "h".to_string(), Err(failed("late")));
    assert_eq!(later, Outcome::nothing());
    assert_eq!(hash_of(&state).size, 4);
}

#[test]
fn a_stamp_of_another_kind_is_not_taken() {
    let mut state = session_with_hash("h", 3, 0, &[("a", "1")]);
    let removal = state.remove_hash_value("a".to_string()).dispatch.unwrap().record;
    let out = state.apply_add_hash_value(removal, "h".to_string(), Ok(1));
    assert_eq!(out, Outcome::nothing());
    assert_eq!(hash_of(&state).size, 3);
    assert_eq!(status_of(&state), RedisValueStatus::Loading);
}

#[test]
fn load_more_asks_for_the_page_at_the_cursor() {
    let mut state = session_with_hash("h", 300, 42, &[("a", "1")]);
    let out = state.load_more_hash_value();
    assert_eq!(status_of(&state), RedisValueStatus::Loading);
    assert_eq!(out.events, vec![ServerEvent::ValuePaginationStarted("h".to_string())]);
    assert!(out.notify);
    let dispatch = out.dispatch.unwrap();
    assert_eq!(dispatch.record, TaskRecord { kind: ServerTask::LoadMoreValue, epoch: 1 });
    assert_eq!(
        dispatch.request,
        StoreRequest::HashScan { key: "h".to_string(), cursor: 42, pattern: "*".to_string(), count: 100 }
    );
}

#[test]
fn load_more_appends_pages_until_the_store_is_done() {
    let mut state = session_with_hash("h", 5, 7, &[("a", "1")]);
    let first = state.load_more_hash_value().dispatch.unwrap().record;
    let out = state.apply_load_more_hash_value(first, "h".to_string(), Ok((9, pairs(&[("b", "2"), ("c", "3")]))));
    assert_eq!(out.events, vec![ServerEvent::ValuePaginationFinished("h".to_string())]);
    assert_eq!(hash_of(&state).cursor, 9);
    assert!(!hash_of(&state).done);
    assert_eq!(status_of(&state), RedisValueStatus::Idle);
    let second = state.load_more_hash_value().dispatch.unwrap();
    assert_eq!(
        second.request,
        StoreRequest::HashScan { key: "h".to_string(), cursor: 9, pattern: "*".to_string(), count: 100 }
    );
    state.apply_load_more_hash_value(second.record, "h".to_string(), Ok((11, Vec::new())));
    assert_eq!(hash_of(&state).cursor, 11);
    assert!(!hash_of(&state).done);
    let third = state.load_more_hash_value().dispatch.unwrap().record;
    state.apply_load_more_hash_value(third, "h".to_string(), Ok((0, pairs(&[("d", "4"), ("e", "5")]))));
    let hash = hash_of(&state);
    assert!(hash.done);
    assert_eq!(hash.cursor, 0);
    assert_eq!(hash.size, 5);
    assert_eq!(
        hash.values,
        pairs(&[("a", "1"), ("b", "2"), ("c", "3"), ("d", "4"), ("e", "5")])
    );
    // after the end nothing more is asked for
    let epoch = state.tasks.current(ServerTask::LoadMoreValue);
    assert_eq!(state.load_more_hash_value(), Outcome::nothing());
    assert_eq!(state.load_more_hash_value(), Outcome::nothing());
    assert_eq!(state.tasks.current(ServerTask::LoadMoreValue), epoch);
    assert_eq!(status_of(&state), RedisValueStatus::Idle);
    assert_eq!(*hash_of(&state), *hash);
}

#[test]
fn a_failed_page_ends_the_fetch_and_keeps_the_fields() {
    let mut state = session_with_hash("h", 5, 7, &[("a", "1")]);
    let record = state.load_more_hash_value().dispatch.unwrap().record;
    let out = state.apply_load_more_hash_value(record, "h".to_string(), Err(failed("timeout")));
    assert_eq!(
        out.events,
        vec![failure_event("timeout"), ServerEvent::ValuePaginationFinished("h".to_string())]
    );
    assert_eq!(status_of(&state), RedisValueStatus::Idle);
    assert_eq!(hash_of(&state).cursor, 7);
    assert_eq!(hash_of(&state).values, pairs(&[("a", "1")]));
    assert!(!hash_of(&state).done);
}

#[test]
fn filter_starts_the_enumeration_anew_and_keeps_the_size() {
    let mut state = session_with_hash("h", 300, 0, &[("a", "1"), ("b", "2")]);
    state.keys = vec!["h".to_string(), "other".to_string()];
    state.cursor = 5;
    assert!(hash_of(&state).done);
    let out = state.filter_hash_value("na".to_string());
    let hash = hash_of(&state);
    assert_eq!(hash.keyword, Some("na".to_string()));
    assert_eq!(hash.size, 300);
    assert_eq!(hash.cursor, 0);
    assert!(!hash.done);
    assert!(hash.values.is_empty());
    assert_eq!(state.key, Some("h".to_string()));
    assert_eq!(state.keys, vec!["h".to_string(), "other".to_string()]);
    assert_eq!(state.cursor, 5);
    assert_eq!(status_of(&state), RedisValueStatus::Loading);
    assert_eq!(out.events, vec![ServerEvent::ValuePaginationStarted("h".to_string())]);
    let dispatch = out.dispatch.unwrap();
    assert_eq!(
        dispatch.request,
        StoreRequest::HashScan { key: "h".to_string(), cursor: 0, pattern: "*na*".to_string(), count: 1000 }
    );
    state.apply_load_more_hash_value(dispatch.record, "h".to_string(), Ok((0, pairs(&[("name", "x")]))));
    assert_eq!(hash_of(&state).values, pairs(&[("name", "x")]));
    assert!(hash_of(&state).done);
    assert_eq!(hash_of(&state).size, 300);
}

#[test]
fn a_page_asked_for_before_a_filter_is_not_taken() {
    let mut state = session_with_hash("h", 300, 3, &[("a", "1")]);
    let old = state.load_more_hash_value().dispatch.unwrap().record;
    let new = state.filter_hash_value("x".to_string()).dispatch.unwrap().record;
    let out = state.apply_load_more_hash_value(old, "h".to_string(), Ok((0, pairs(&[("b", "2")]))));
    assert_eq!(out, Outcome::nothing());
    assert!(hash_of(&state).values.is_empty());
    assert!(!hash_of(&state).done);
    state.apply_load_more_hash_value(new, "h".to_string(), Ok((0, pairs(&[("x", "1")]))));
    assert_eq!(hash_of(&state).values, pairs(&[("x", "1")]));
}

#[test]
fn a_reader_keeps_the_payload_that_it_was_given() {
    let mut state = session_with_hash("h", 3, 7, &[("a", "1"), ("b", "2")]);
    let snapshot = hash_of(&state);
    let record = state.add_hash_value("f".to_string(), "v".to_string()).dispatch.unwrap().record;
    state.apply_add_hash_value(record, "h".to_string(), Ok(1));
    let record = state.remove_hash_value("a".to_string()).dispatch.unwrap().record;
    state.apply_remove_hash_value(record, "h".to_string(), "a", Ok(1));
    let record = state.load_more_hash_value().dispatch.unwrap().record;
    state.apply_load_more_hash_value(record, "h".to_string(), Ok((0, pairs(&[("c", "3")]))));
    // the reader sees what it was given
    assert_eq!(snapshot.size, 3);
    assert_eq!(snapshot.cursor, 7);
    assert!(!snapshot.done);
    assert_eq!(snapshot.values, pairs(&[("a", "1"), ("b", "2")]));
    // the cache holds the changes
    let now = hash_of(&state);
    assert_eq!(now.size, 3);
    assert_eq!(now.cursor, 0);
    assert!(now.done);
    assert_eq!(now.values, pairs(&[("b", "2"), ("c", "3")]));
}

#[test]
fn a_sole_holder_is_changed_in_place() {
    let mut shared = Arc::new(RedisHashValue::first_page(1, 4, pairs(&[("a", "1")])));
    let place = Arc::as_ptr(&shared);
    shared_add_fields(&mut shared, 2);
    shared_append_page(&mut shared, 0, pairs(&[("b", "2")]));
    shared_remove_field(&mut shared, "a", 1);
    assert_eq!(Arc::as_ptr(&shared), place);
    assert_eq!(shared.size, 2);
    assert_eq!(shared.values, pairs(&[("b", "2")]));
    assert!(shared.done);
    let other = shared.clone();
    shared_add_fields(&mut shared, 1);
    assert_ne!(Arc::as_ptr(&shared), place);
    assert_eq!(other.size, 2);
    assert_eq!(shared.size, 3);
    assert_eq!(shared.values, other.values);
}

#[test]
fn duplicate_shares_nothing() {
    let mut first_copy = RedisHashValue::first_page(2, 3, pairs(&[("a", "1")]));
    first_copy.keyword = Some("k".to_string());
    let mut copy = first_copy.duplicate();
    assert_eq!(copy, first_copy);
    copy.append_page(0, pairs(&[("b", "2")]));
    copy.add_fields(5);
    assert_eq!(first_copy.values, pairs(&[("a", "1")]));
    assert_eq!(first_copy.size, 2);
    assert_eq!(copy.size, 7);
    let filtered = first_copy.filtered("x".to_string());
    assert_eq!(filtered.size, 2);
    assert_eq!(filtered.keyword, Some("x".to_string()));
}

#[test]
fn a_missing_key_counts_as_expired() {
    let mut value = RedisValue::loading();
    assert_eq!(value.status, RedisValueStatus::Loading);
    assert_eq!(value.key_type, KeyType::Unknown);
    assert!(!value.is_expired());
    assert!(value.hash_value().is_none());
    value.expire_at = Some(MISSING_KEY_EXPIRY);
    assert!(value.is_expired());
    value.expire_at = Some(-1);
    assert!(!value.is_expired());
    value.expire_at = Some(1_700_000_000);
    assert!(!value.is_expired());
}

#[test]
fn the_sizes_that_cannot_be_held_are_told_apart() {
    let mut state = session_with_hash("h", usize::MAX - 1, 0, &[]);
    let added = state.add_hash_value("f".to_string(), "v".to_string()).dispatch.unwrap().record;
    let removed = state.remove_hash_value("f".to_string()).dispatch.unwrap().record;
    assert!(state.add_fits(added, &Ok(1)));
    assert!(!state.add_fits(added, &Ok(2)));
    assert!(state.add_fits(added, &Err(failed("x"))));
    assert!(state.remove_fits(removed, &Ok(usize::MAX - 1)));
    assert!(!state.remove_fits(removed, &Ok(usize::MAX)));
    // an answer that is not taken changes no size
    assert!(state.add_fits(removed, &Ok(2)));
    assert!(state.remove_fits(added, &Ok(usize::MAX)));
    let stale = TaskRecord { kind: ServerTask::AddValue, epoch: added.epoch + 1 };
    assert!(state.add_fits(stale, &Ok(usize::MAX)));
    state.apply_add_hash_value(added, "h".to_string(), Ok(1));
    assert_eq!(hash_of(&state).size, usize::MAX);
    assert!(!state.add_fits(added, &Ok(1)));
    // without a cached hash every count fits
    let mut empty = ZedisServerState::new();
    empty.key = Some("k".to_string());
    empty.value = Some(RedisValue::loading());
    let record = empty.remove_hash_value("f".to_string()).dispatch.unwrap().record;
    assert!(empty.remove_fits(record, &Ok(5)));
    let out = empty.apply_remove_hash_value(record, "k".to_string(), "f", Ok(5));
    assert_eq!(out.events, vec![ServerEvent::ValueUpdated("k".to_string())]);
    assert_eq!(status_of(&empty), RedisValueStatus::Idle);
}

#[test]
fn the_kinds_of_value_have_the_names_of_the_store() {
    let kinds = [
        (KeyType::String, "string"),
        (KeyType::List, "list"),
        (KeyType::UnorderedSet, "set"),
        (KeyType::SortedSet, "zset"),
        (KeyType::Hash, "hash"),
    ];
    for (kind, name) in kinds {
        assert_eq!(kind.as_str(), name);
        assert_eq!(KeyType::from_name(name), kind);
    }
    assert_eq!(KeyType::Unknown.as_str(), "");
    for name in ["", "none", "stream", "Hash", "hash ", "has", "strings"] {
        assert_eq!(KeyType::from_name(name), KeyType::Unknown);
    }
}
