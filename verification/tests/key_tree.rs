use zedis::helpers::key_path::{child_full_path, split_key, text_eq, text_lt};
use zedis::helpers::key_tree::{build_key_tree, item_before, KeyTrie, TreeItem};

fn keys(list: &[&str]) -> Vec<String> {
    list.iter().map(|k| k.to_string()).collect()
}

fn leaf(id: &str, label: &str) -> TreeItem {
    TreeItem::new(id.to_string(), label.to_string())
}

fn folder(id: &str, label: &str, children: Vec<TreeItem>) -> TreeItem {
    TreeItem::new(id.to_string(), label.to_string()).children(children)
}

#[test]
fn folders_come_first_and_leaves_sort_by_full_path() {
    let tree = build_key_tree(&keys(&["user:1:name", "user:1:age", "user:2:name", "count"]));
    let expected = vec![
        folder(
            "user",
            "user",
            vec![
                folder(
                    "user:1",
                    "1",
                    vec![leaf("user:1:age", "age"), leaf("user:1:name", "name")],
                ),
                folder("user:2", "2", vec![leaf("user:2:name", "name")]),
            ],
        ),
        leaf("count", "count"),
    ];
    assert_eq!(tree, expected);
}

#[test]
fn no_keys_give_no_entries() {
    assert_eq!(build_key_tree(&Vec::new()), Vec::<TreeItem>::new());
}

#[test]
fn a_key_that_comes_twice_changes_nothing() {
    let once = build_key_tree(&keys(&["a:b", "c", "a:d"]));
    let twice = build_key_tree(&keys(&["a:b", "c", "a:d", "a:b"]));
    let thrice = build_key_tree(&keys(&["c", "a:b", "c", "a:d", "a:b", "c"]));
    assert_eq!(once, twice);
    assert_eq!(once, thrice);
}

#[test]
fn the_order_of_the_keys_makes_no_difference() {
    let one = build_key_tree(&keys(&["b:2", "a", "b:1", "c:x:y", "b"]));
    let other = build_key_tree(&keys(&["c:x:y", "b", "b:1", "a", "b:2"]));
    assert_eq!(one, other);
    let expected = vec![
        folder("b", "b", vec![leaf("b:1", "1"), leaf("b:2", "2")]),
        folder("c", "c", vec![folder("c:x", "x", vec![leaf("c:x:y", "y")])]),
        leaf("a", "a"),
    ];
    assert_eq!(one, expected);
}

fn check_order(items: &[TreeItem]) {
    for pair in items.windows(2) {
        let (a, b) = (&pair[0], &pair[1]);
        if a.is_folder() != b.is_folder() {
            assert!(a.is_folder() && !b.is_folder());
        } else {
            assert!(a.id < b.id);
        }
        assert!(item_before(a, b));
        assert!(!item_before(b, a));
    }
    for item in items {
        check_order(&item.children);
    }
}

#[test]
fn siblings_are_ordered_at_every_depth() {
    let tree = build_key_tree(&keys(&[
        "z", "m:b", "m:a:x", "m:a", "a:1", "a:10", "a:2", "0", "k:v:w", "k:v", "k", "é:1", "e:1",
    ]));
    assert_eq!(tree.len(), 7);
    check_order(&tree);
}

#[test]
fn a_key_may_be_a_folder_too() {
    let tree = build_key_tree(&keys(&["a", "a:b"]));
    assert_eq!(tree, vec![folder("a", "a", vec![leaf("a:b", "b")])]);
    let mut trie = KeyTrie::new();
    trie.insert("a");
    trie.insert("a:b");
    let a = trie.find("a").unwrap();
    let ab = trie.find("a:b").unwrap();
    assert!(trie.is_key(a));
    assert!(trie.is_key(ab));
    assert_eq!(trie.len(), 3);
}

#[test]
fn every_key_has_one_node_with_its_full_path() {
    let list = keys(&["user:1:name", "user:1:age", "user:2:name", "count", "user"]);
    let trie = KeyTrie::build(&list);
    // the root, user, user:1, user:1:name, user:1:age, user:2, user:2:name, count
    assert_eq!(trie.len(), 8);
    for key in &list {
        let at = trie.find(key).expect("the key has a node");
        assert!(trie.is_key(at));
        assert_eq!(trie.full_path(at), key.as_str());
        assert!(trie.contains(key));
        let marked = (0..trie.len()).filter(|i| trie.is_key(*i) && trie.full_path(*i) == key).count();
        assert_eq!(marked, 1);
    }
    let folder = trie.find("user:1").unwrap();
    assert!(!trie.is_key(folder));
    assert_eq!(trie.full_path(folder), "user:1");
    assert!(!trie.contains("user:1"));
    assert!(!trie.contains("user:3"));
    assert_eq!(trie.find("user:3"), None);
    assert_eq!(trie.find("user:1:name:x"), None);
    assert_eq!(trie.find(""), None);
}

#[test]
fn inserting_a_key_again_adds_no_node() {
    let mut trie = KeyTrie::new();
    assert_eq!(trie.len(), 1);
    trie.insert("a:b:c");
    assert_eq!(trie.len(), 4);
    trie.insert("a:b:c");
    assert_eq!(trie.len(), 4);
    trie.insert("a:b");
    assert_eq!(trie.len(), 4);
    assert!(trie.contains("a:b"));
    assert!(trie.contains("a:b:c"));
    assert!(!trie.contains("a"));
}

#[test]
fn insert_all_starts_where_it_is_told() {
    let list = keys(&["a", "b", "c:d"]);
    let mut trie = KeyTrie::new();
    trie.insert_all(&list, 1);
    assert!(!trie.contains("a"));
    assert!(trie.contains("b"));
    assert!(trie.contains("c:d"));
    trie.insert_all(&list, 3);
    assert_eq!(trie.len(), 4);
}

#[test]
fn below_an_empty_full_path_the_short_name_stands_alone() {
    // the key ":a" has the segments "" and "a"; the node of "" has an empty
    // full path, so the full path of the node of "a" below it is "a"
    let tree = build_key_tree(&keys(&[":a"]));
    assert_eq!(tree, vec![folder("", "", vec![leaf("a", "a")])]);
    let trie = KeyTrie::build(&keys(&[":a", "a"]));
    let below = trie.find(":a").unwrap();
    let top = trie.find("a").unwrap();
    assert_ne!(below, top);
    assert_eq!(trie.full_path(below), "a");
    assert_eq!(trie.full_path(top), "a");
}

#[test]
fn the_empty_key_and_trailing_delimiters() {
    assert_eq!(build_key_tree(&keys(&[""])), vec![leaf("", "")]);
    assert_eq!(
        build_key_tree(&keys(&["a:", "a"])),
        vec![folder("a", "a", vec![leaf("a:", "")])]
    );
    assert_eq!(
        build_key_tree(&keys(&["a::b"])),
        vec![folder("a", "a", vec![folder("a:", "", vec![leaf("a::b", "b")])])]
    );
}

#[test]
fn split_key_cuts_at_every_delimiter() {
    assert_eq!(split_key("user:1:name"), keys(&["user", "1", "name"]));
    assert_eq!(split_key("count"), keys(&["count"]));
    assert_eq!(split_key(""), keys(&[""]));
    assert_eq!(split_key(":"), keys(&["", ""]));
    assert_eq!(split_key("a::b:"), keys(&["a", "", "b", ""]));
    assert_eq!(split_key("ключ:值"), keys(&["ключ", "值"]));
    for key in ["user:1:name", "", ":", "a::b:", "x"] {
        let expected: Vec<String> = key.split(':').map(|s| s.to_string()).collect();
        assert_eq!(split_key(key), expected);
        assert_eq!(split_key(key).join(":"), key);
    }
}

#[test]
fn child_full_path_joins_with_a_delimiter() {
    assert_eq!(child_full_path("", "user"), "user");
    assert_eq!(child_full_path("user", "1"), "user:1");
    assert_eq!(child_full_path("user:1", ""), "user:1:");
    assert_eq!(child_full_path("", ""), "");
}

#[test]
fn text_eq_is_the_equality_of_strings() {
    let samples = ["", "a", "ab", "abc", "abd", "b", "é", "e", "值", "值a"];
    for a in samples {
        for b in samples {
            assert_eq!(text_eq(a, b), a == b, "{a:?} == {b:?}");
        }
    }
}

#[test]
fn text_lt_is_the_order_of_strings() {
    let samples = ["", "a", "a:", "a:1", "a:10", "a:2", "ab", "b", "B", "é", "e", "z", "值", "😀"];
    for a in samples {
        for b in samples {
            assert_eq!(text_lt(a, b), a < b, "{a:?} < {b:?}");
        }
    }
    assert!(text_lt("user:1:age", "user:1:name"));
    assert!(!text_lt("user:1:name", "user:1:age"));
    assert!(!text_lt("same", "same"));
}

#[test]
fn folders_come_before_the_others() {
    let f = folder("z", "z", vec![leaf("z:a", "a")]);
    let g = folder("y", "y", vec![leaf("y:a", "a")]);
    let l = leaf("a", "a");
    let m = leaf("b", "b");
    assert!(item_before(&f, &l));
    assert!(!item_before(&l, &f));
    assert!(item_before(&g, &f));
    assert!(!item_before(&f, &g));
    assert!(item_before(&l, &m));
    assert!(!item_before(&m, &l));
    assert!(!item_before(&l, &l));
    assert!(!item_before(&f, &f));
    assert!(f.is_folder());
    assert!(!l.is_folder());
}

#[test]
fn many_siblings_come_out_sorted() {
    let mut list = Vec::new();
    for i in (0..500).rev() {
        list.push(format!("k{:03}", (i * 7) % 500));
        list.push(format!("d{:03}:x", (i * 11) % 500));
    }
    let tree = build_key_tree(&list);
    assert_eq!(tree.len(), 1000);
    for (i, item) in tree.iter().enumerate() {
        if i < 500 {
            assert_eq!(item.id, format!("d{:03}", i));
            assert_eq!(item.children.len(), 1);
            assert_eq!(item.children[0].id, format!("d{:03}:x", i));
            assert_eq!(item.children[0].label, "x");
        } else {
            assert_eq!(item.id, format!("k{:03}", i - 500));
            assert!(item.children.is_empty());
        }
    }
}
