use zedis::error::{Error, ErrorKind};
use zedis::states::server::value::MISSING_KEY_EXPIRY;
use zedis::states::{
    Outcome, QueryMode, RedisValue, ServerTask, StoreRequest, TaskRecord, ZedisServerState,
};
use zedis::views::key_tree::{AUTO_EXPAND_THRESHOLD, EXPANDED_ITEMS_INITIAL_CAPACITY};
use zedis::views::{TreeStatus, ZedisKeyTree};

fn keys(list: &[&str]) -> Vec<String> {
    list.iter().map(|k| k.to_string()).collect()
}

fn scanned(list: &[&str], cursor: u64) -> ZedisServerState {
    let mut server = ZedisServerState::new();
    let dispatch = server.refresh().dispatch.unwrap();
    server.apply_scan_keys(dispatch.record, dispatch.generation, Ok((cursor, keys(list))));
    server
}

#[test]
fn the_thresholds() {
    assert_eq!(EXPANDED_ITEMS_INITIAL_CAPACITY, 10);
    assert_eq!(AUTO_EXPAND_THRESHOLD, 20);
}

#[test]
fn the_first_update_builds_the_tree() {
    let server = scanned(&["user:1", "user:2", "count"], 0);
    let mut view = ZedisKeyTree::new(&server);
    assert_eq!(view.query_mode(), QueryMode::All);
    assert!(!view.is_empty());
    let update = view.update_key_tree(&server).expect("a tree");
    assert!(update.expand_all);
    assert_eq!(update.items.len(), 2);
    assert_eq!(update.items[0].id, "user");
    assert_eq!(update.items[0].children.len(), 2);
    assert_eq!(update.items[1].id, "count");
    assert!(!view.is_empty());
    // nothing has changed, nothing is built
    assert_eq!(view.update_key_tree(&server), None);
}

#[test]
fn new_keys_of_the_same_generation_are_merged() {
    let mut server = scanned(&["user:1", "count"], 9);
    let mut view = ZedisKeyTree::new(&server);
    view.update_key_tree(&server).unwrap();
    let dispatch = server.load_more_keys().dispatch.unwrap();
    server.apply_scan_keys(dispatch.record, dispatch.generation, Ok((0, keys(&["user:2", "zoo"]))));
    let update = view.update_key_tree(&server).expect("a tree");
    let ids: Vec<&str> = update.items.iter().map(|item| item.id.as_str()).collect();
    assert_eq!(ids, ["user", "count", "zoo"]);
    assert_eq!(update.items[0].children.len(), 2);
    assert_eq!(update.items, server.key_tree());
    assert_eq!(view.update_key_tree(&server), None);
}

#[test]
fn a_new_generation_builds_the_tree_from_scratch() {
    let mut server = scanned(&["user:1", "count"], 0);
    let mut view = ZedisKeyTree::new(&server);
    view.update_key_tree(&server).unwrap();
    // the mode changes from all keys to the keys with a prefix
    server.keyword = Some("user:".to_string());
    let dispatch = view.set_query_mode(&mut server, QueryMode::Prefix).dispatch.unwrap();
    assert_eq!(view.query_mode(), QueryMode::Prefix);
    assert_eq!(
        dispatch.request,
        StoreRequest::ScanKeys { cursor: 0, pattern: "user:*".to_string(), count: 1000 }
    );
    server.apply_scan_keys(dispatch.record, dispatch.generation, Ok((0, keys(&["user:7"]))));
    let update = view.update_key_tree(&server).expect("a tree");
    assert_eq!(update.items.len(), 1);
    assert_eq!(update.items[0].id, "user");
    assert_eq!(update.items[0].children.len(), 1);
    assert_eq!(update.items[0].children[0].id, "user:7");
}

#[test]
fn many_keys_are_not_expanded() {
    let list: Vec<String> = (0..AUTO_EXPAND_THRESHOLD).map(|i| format!("k:{i}")).collect();
    let mut server = ZedisServerState::new();
    let dispatch = server.refresh().dispatch.unwrap();
    server.apply_scan_keys(dispatch.record, dispatch.generation, Ok((0, list[1..].to_vec())));
    let mut view = ZedisKeyTree::new(&server);
    assert!(view.update_key_tree(&server).unwrap().expand_all);
    let dispatch = server.scan_prefix("k:".to_string()).dispatch.unwrap();
    server.apply_scan_prefix(dispatch.record, dispatch.generation, Ok(list[..1].to_vec()));
    let update = view.update_key_tree(&server).unwrap();
    assert!(!update.expand_all);
    assert_eq!(update.items[0].children.len(), AUTO_EXPAND_THRESHOLD);
}

#[test]
fn an_empty_tree_collapses_every_folder() {
    let mut server = scanned(&["user:1"], 0);
    let mut view = ZedisKeyTree::new(&server);
    view.update_key_tree(&server).unwrap();
    view.select_item(&mut server, "user".to_string(), true);
    assert!(view.is_expanded("user"));
    // a new scan is under way: the tree is empty, but the view is not yet
    let dispatch = server.refresh().dispatch.unwrap();
    let update = view.update_key_tree(&server).unwrap();
    assert!(update.items.is_empty());
    assert!(!view.is_expanded("user"));
    assert!(!view.is_empty());
    assert_eq!(view.tree_status(&server), TreeStatus::Hidden);
    // the scan ends without keys
    server.apply_scan_keys(dispatch.record, dispatch.generation, Ok((0, Vec::new())));
    assert_eq!(view.update_key_tree(&server), None);
    server.refresh();
    view.update_key_tree(&server).unwrap();
    let dispatch = server.refresh().dispatch.unwrap();
    server.apply_scan_keys(dispatch.record, dispatch.generation, Ok((0, Vec::new())));
    let update = view.update_key_tree(&server).unwrap();
    assert!(update.items.is_empty());
    assert!(view.is_empty());
    assert_eq!(view.tree_status(&server), TreeStatus::NoKeysFound);
}

#[test]
fn a_click_on_a_folder_expands_or_collapses_it() {
    let mut server = scanned(&["user:1"], 0);
    let mut view = ZedisKeyTree::new(&server);
    assert!(!view.is_expanded("user"));
    let out = view.select_item(&mut server, "user".to_string(), true);
    assert!(view.is_expanded("user"));
    let dispatch = out.dispatch.unwrap();
    assert_eq!(dispatch.record, TaskRecord { kind: ServerTask::ScanPrefix, epoch: 1 });
    assert_eq!(
        dispatch.request,
        StoreRequest::ScanPrefix { pattern: "user:*".to_string(), count: 1000 }
    );
    let out = view.select_item(&mut server, "user".to_string(), true);
    assert_eq!(out, Outcome::nothing());
    assert!(!view.is_expanded("user"));
    assert_eq!(server.tasks.current(ServerTask::ScanPrefix), 1);
    view.select_item(&mut server, "a".to_string(), true);
    view.select_item(&mut server, "b".to_string(), true);
    view.select_item(&mut server, "a".to_string(), true);
    assert!(!view.is_expanded("a"));
    assert!(view.is_expanded("b"));
    assert_eq!(server.key(), None);
}

#[test]
fn a_click_on_a_key_selects_it_once() {
    let mut server = scanned(&["user:1", "count"], 0);
    let mut view = ZedisKeyTree::new(&server);
    let out = view.select_item(&mut server, "count".to_string(), false);
    assert_eq!(server.key(), Some(&"count".to_string()));
    assert_eq!(
        out.dispatch.unwrap().request,
        StoreRequest::Fetch { key: "count".to_string() }
    );
    let out = view.select_item(&mut server, "count".to_string(), false);
    assert_eq!(out, Outcome::nothing());
    assert_eq!(server.tasks.current(ServerTask::SelectKey), 1);
    let out = view.select_item(&mut server, "user:1".to_string(), false);
    assert!(out.dispatch.is_some());
    assert_eq!(server.key(), Some(&"user:1".to_string()));
    assert!(!view.is_expanded("count"));
}

#[test]
fn no_filter_while_a_page_is_in_flight() {
    let mut server = ZedisServerState::new();
    let view = ZedisKeyTree::new(&server);
    let out = view.handle_filter(&mut server, "a".to_string());
    assert!(out.dispatch.is_some());
    assert!(server.scaning());
    let generation = server.key_tree_id();
    let out = view.handle_filter(&mut server, "b".to_string());
    assert_eq!(out, Outcome::nothing());
    assert_eq!(server.keyword, Some("a".to_string()));
    assert_eq!(server.key_tree_id(), generation);
}

#[test]
fn the_status_in_place_of_the_tree() {
    let mut server = ZedisServerState::new();
    let mut view = ZedisKeyTree::new(&server);
    // neither empty nor failed
    assert_eq!(view.tree_status(&server), TreeStatus::Hidden);
    view.set_error(Some("scan failed".to_string()));
    assert_eq!(view.tree_status(&server), TreeStatus::Error("scan failed".to_string()));
    view.set_error(Some(String::new()));
    assert_eq!(view.tree_status(&server), TreeStatus::Blank);
    server.scaning = true;
    assert_eq!(view.tree_status(&server), TreeStatus::Hidden);
    server.scaning = false;
    // a lookup
    view.set_query_mode(&mut server, QueryMode::Exact);
    assert_eq!(view.tree_status(&server), TreeStatus::Blank);
    let dispatch = server.select_key("gone".to_string()).dispatch.unwrap();
    assert_eq!(view.tree_status(&server), TreeStatus::Blank);
    let mut missing = RedisValue::loading();
    missing.expire_at = Some(MISSING_KEY_EXPIRY);
    server.apply_select_key(dispatch.record, Ok(missing));
    assert_eq!(view.tree_status(&server), TreeStatus::KeyNotExists);
    view.set_error(None);
    assert_eq!(view.tree_status(&server), TreeStatus::Hidden);
    let dispatch = server.select_key("broken".to_string()).dispatch.unwrap();
    server.apply_select_key(dispatch.record, Err(Error::new(ErrorKind::Protocol, "bad")));
    view.set_error(Some("x".to_string()));
    assert_eq!(view.tree_status(&server), TreeStatus::Blank);
}

#[test]
fn the_view_follows_the_server() {
    let mut server = ZedisServerState::new();
    server.select_server("one".to_string());
    let mut view = ZedisKeyTree::new(&server);
    assert!(!view.sync_server(&server));
    server.select_server("two".to_string());
    assert!(view.sync_server(&server));
    assert!(!view.sync_server(&server));
}
