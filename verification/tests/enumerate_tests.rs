use tcfs::enumerate::{immediate_children, ios_item, ios_listing_prefix, listing_prefix, ListedKey};

fn key(path: &str, is_dir: bool) -> ListedKey {
    ListedKey { path: path.to_string(), is_dir }
}

#[test]
fn listing_prefix_has_one_slash_between_parts() {
    assert_eq!(listing_prefix("data", ""), "data/index/");
    assert_eq!(listing_prefix("data/", ""), "data/index/");
    assert_eq!(listing_prefix("data//", "/ansible/"), "data/index/ansible/");
    assert_eq!(listing_prefix("data", "ansible/roles"), "data/index/ansible/roles/");
}

#[test]
fn only_immediate_children_each_once() {
    let prefix = "data/index/ansible/";
    let keys = vec![
        key("data/index/ansible/", true),
        key("data/index/ansible/roles/common/tasks/main.yml", false),
        key("data/index/ansible/README.md", false),
        key("data/index/ansible/roles/web/x.yml", false),
        key("data/index/ansible/sub", true),
    ];
    let items = immediate_children(prefix, "ansible", &keys);
    let got: Vec<(&str, &str, bool, usize)> =
        items.iter().map(|i| (i.item_id.as_str(), i.filename.as_str(), i.is_directory, i.source)).collect();
    assert_eq!(
        got,
        vec![
            ("ansible/roles", "roles", true, 1),
            ("ansible/README.md", "README.md", false, 2),
            ("ansible/sub", "sub", true, 4),
        ]
    );
}

#[test]
fn top_level_items_use_bare_names() {
    let keys = vec![key("data/index/a.txt", false), key("data/index/dir/b.txt", false), key("other/c", false)];
    let items = immediate_children("data/index/", "", &keys);
    let got: Vec<(&str, bool)> = items.iter().map(|i| (i.item_id.as_str(), i.is_directory)).collect();
    assert_eq!(got, vec![("a.txt", false), ("dir", true), ("other", true)]);
}

#[test]
fn rel_path_slashes_are_trimmed_in_ids() {
    let keys = vec![key("p/index/x/y", false)];
    let items = immediate_children("p/index/x/", "/x/", &keys);
    assert_eq!(items[0].item_id, "x/y");
    assert!(immediate_children("p/index/", "", &[]).is_empty());
}

#[test]
fn ios_listing_names_items() {
    assert_eq!(ios_listing_prefix("data/", "/docs"), "data/index/docs");
    assert_eq!(ios_listing_prefix("data", ""), "data/index/");
    assert_eq!(ios_item("data/index/docs", "data/index/docs/a.txt"), Some(("a.txt".to_string(), false)));
    assert_eq!(ios_item("data/index/docs", "data/index/docs/sub/"), Some(("sub".to_string(), true)));
    assert_eq!(ios_item("data/index/docs", "data/index/docs"), None);
    assert_eq!(ios_item("data/index/docs", "data/index/docs/"), None);
    assert_eq!(ios_item("x/", "y/z"), Some(("y/z".to_string(), false)));
}

#[test]
fn directory_markers_end_with_slash() {
    assert_eq!(tcfs::enumerate::directory_key("data/", "", "/new/"), "data/index/new/");
    assert_eq!(tcfs::enumerate::directory_key("data", "/a/b/", "c"), "data/index/a/b/c/");
}

#[test]
fn enumerate_empty_returns_zero() {
    let prefix = listing_prefix("test", "");
    let items = immediate_children(&prefix, "", &[]);
    assert_eq!(items.len(), 0);
}
