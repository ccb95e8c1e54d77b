use pass_manager::diff::{diff, select_changes, Item};
use pass_manager::manager::Manager;
use pass_manager::store::{Item as StoreItem, ItemMap};
use pass_manager::store::get_values_from_indices;
use pass_manager::store::push_refspec;

fn item(n: u8, c: &[u8]) -> StoreItem {
    StoreItem::new([n; 12], c.to_vec())
}

fn sorted(mut v: Vec<String>) -> Vec<String> {
    v.sort();
    v
}

#[test]
fn diff_sorts_every_key_into_one_kind() {
    let mut old = ItemMap::new();
    old.insert("same".to_string(), item(1, b"a"));
    old.insert("changed".to_string(), item(1, b"a"));
    old.insert("gone".to_string(), item(1, b"a"));
    old.insert("renonced".to_string(), item(1, b"a"));
    let mut new = ItemMap::new();
    new.insert("same".to_string(), item(1, b"a"));
    new.insert("changed".to_string(), item(1, b"b"));
    new.insert("renonced".to_string(), item(2, b"a"));
    new.insert("fresh".to_string(), item(1, b"a"));
    let r = diff(&old, &new);
    let changes = r.concat();
    let texts: Vec<String> = changes.iter().map(|c| c.to_string()).collect();
    assert_eq!(texts.len(), 4);
    assert_eq!(texts[0], "added 'fresh'");
    let modified = sorted(texts[1..3].to_vec());
    assert_eq!(modified, vec!["modified 'changed'", "modified 'renonced'"]);
    assert_eq!(texts[3], "deleted 'gone'");
}

#[test]
fn diff_of_equal_and_empty_maps() {
    let mut a = ItemMap::new();
    a.insert("k".to_string(), item(3, b"x"));
    let mut b = ItemMap::new();
    b.insert("k".to_string(), item(3, b"x"));
    assert!(diff(&a, &b).concat().is_empty());
    assert!(diff(&ItemMap::new(), &ItemMap::new()).concat().is_empty());
    let all_new = diff(&ItemMap::new(), &a).concat();
    assert_eq!(all_new.len(), 1);
    assert!(matches!(&all_new[0], Item::Added(k) if k == "k"));
    let all_gone = diff(&a, &ItemMap::new()).concat();
    assert!(matches!(&all_gone[0], Item::Deleted(k) if k == "k"));
}

#[test]
fn values_from_indices_follow_the_indices() {
    let values = vec!["a".to_string(), "b".to_string(), "c".to_string()];
    assert_eq!(get_values_from_indices(&[2, 0, 2], &values), vec!["c", "a", "c"]);
    assert!(get_values_from_indices::<String>(&[], &values).is_empty());
}

#[test]
fn refspec_for_push() {
    assert_eq!(push_refspec(false), "refs/heads/main:refs/heads/main");
    assert_eq!(push_refspec(true), "+refs/heads/main:refs/heads/main");
}

#[test]
fn pull_applies_selected_changes() {
    let mut m = Manager::init("correcthorse", "A".to_string(), "a@b.c".to_string()).unwrap();
    m.add("local", b"mine", false).unwrap();
    m.add("shared", b"old", false).unwrap();
    let mut remote = ItemMap::new();
    let mut other = Manager::init("correcthorse", "A".to_string(), "a@b.c".to_string()).unwrap();
    other.master_key = m.master_key;
    other.store.key = m.store.key.clone();
    other.store.nonce = m.store.nonce;
    other.derived_key = m.derived_key;
    other.add("shared", b"new", false).unwrap();
    other.add("theirs", b"yours", false).unwrap();
    for l in ["shared", "theirs"] {
        let it = other.store.items.get(l).unwrap();
        remote.insert(l.to_string(), StoreItem::new(it.nonce, it.password.clone()));
    }
    let changes = diff(&m.store.items, &remote).concat();
    assert_eq!(changes.len(), 3);
    m.apply_pull(&remote, changes).unwrap();
    assert!(m.fs_dirty);
    assert!(m.store.items.get("local").is_none());
    assert_eq!(m.copy("shared").unwrap().unwrap(), "new");
    assert_eq!(m.copy("theirs").unwrap().unwrap(), "yours");
}

#[test]
fn pull_of_label_missing_remotely_fails() {
    let mut m = Manager::init("correcthorse", "A".to_string(), "a@b.c".to_string()).unwrap();
    m.add("local", b"mine", false).unwrap();
    m.fs_dirty = false;
    let r = m.apply_pull(&ItemMap::new(), vec![Item::Deleted("local".to_string()), Item::Added("nowhere".to_string())]);
    assert!(r.is_err());
    assert!(!m.fs_dirty);
    assert_eq!(m.copy("local").unwrap().unwrap(), "mine");
}

#[test]
fn selected_changes_follow_the_indices() {
    let changes = vec![
        Item::Added("a".to_string()),
        Item::Modified("b".to_string()),
        Item::Deleted("c".to_string()),
    ];
    let picked = select_changes(&[2, 0], &changes);
    assert_eq!(picked.len(), 2);
    assert!(matches!(&picked[0], Item::Deleted(k) if k == "c"));
    assert!(matches!(&picked[1], Item::Added(k) if k == "a"));
    assert!(matches!(changes[1].duplicate(), Item::Modified(k) if k == "b"));
}
