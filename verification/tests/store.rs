use cliphoard::store::{
    ClipboardEntry, ClipboardStorage, Durable, StoreError, DRAWN_ID_CHARS,
};

fn entry(uuid: &str, content: &str, nickname: Option<&str>) -> ClipboardEntry {
    ClipboardEntry {
        uuid: uuid.to_string(),
        content: content.to_string(),
        nickname: nickname.map(|n| n.to_string()),
    }
}

fn contents(store: &ClipboardStorage) -> Vec<String> {
    store.get_entries().iter().map(|e| e.content.clone()).collect()
}

#[test]
fn new_store_is_empty() {
    let store = ClipboardStorage::new();
    assert_eq!(store.len(), 0);
    assert!(store.get_entries().is_empty());
}

#[test]
fn insert_entry_appends_in_order() {
    let mut store = ClipboardStorage::new();
    assert_eq!(store.insert_entry("1".to_string(), "first".to_string(), None), Ok(()));
    assert_eq!(
        store.insert_entry("2".to_string(), "second".to_string(), Some("two".to_string())),
        Ok(())
    );
    assert_eq!(store.len(), 2);
    let entries = store.get_entries();
    assert_eq!(entries[0].uuid, "1");
    assert_eq!(entries[0].content, "first");
    assert_eq!(entries[0].nickname, None);
    assert_eq!(entries[1].uuid, "2");
    assert_eq!(entries[1].content, "second");
    assert_eq!(entries[1].nickname, Some("two".to_string()));
}

#[test]
fn insert_entry_refuses_an_id_in_use() {
    let mut store = ClipboardStorage::new();
    store.insert_entry("1".to_string(), "first".to_string(), None).unwrap();
    assert_eq!(
        store.insert_entry("1".to_string(), "again".to_string(), None),
        Err(StoreError::DuplicateId)
    );
    assert_eq!(contents(&store), vec!["first".to_string()]);
}

#[test]
fn contains_id_finds_only_ids_in_use() {
    let mut store = ClipboardStorage::new();
    assert!(!store.contains_id("1"));
    store.insert_entry("1".to_string(), "first".to_string(), None).unwrap();
    assert!(store.contains_id("1"));
    assert!(!store.contains_id("2"));
    assert!(!store.contains_id(""));
}

#[test]
fn add_entry_returns_the_id_it_stored() {
    let mut store = ClipboardStorage::new();
    let id = store.add_entry("hello".to_string(), Some("greet".to_string())).unwrap();
    assert_eq!(store.len(), 1);
    let entries = store.get_entries();
    assert_eq!(entries[0].uuid, id);
    assert_eq!(entries[0].content, "hello");
    assert_eq!(entries[0].nickname, Some("greet".to_string()));
}

#[test]
fn add_entry_draws_ids_in_hyphenated_form() {
    let mut store = ClipboardStorage::new();
    let id = store.add_entry("hello".to_string(), None).unwrap();
    assert_eq!(id.chars().count(), 36);
    for (i, c) in id.chars().enumerate() {
        if i == 8 || i == 13 || i == 18 || i == 23 {
            assert_eq!(c, '-');
        } else {
            assert!(c.is_ascii_hexdigit());
        }
    }
}

#[test]
fn add_entry_draws_a_new_id_each_time() {
    let mut store = ClipboardStorage::new();
    let a = store.add_entry("same".to_string(), None).unwrap();
    let b = store.add_entry("same".to_string(), None).unwrap();
    let c = store.add_entry("same".to_string(), None).unwrap();
    assert_ne!(a, b);
    assert_ne!(a, c);
    assert_ne!(b, c);
    assert_eq!(store.len(), 3);
}

#[test]
fn remove_entry_takes_the_entry_at_the_position() {
    let mut store = ClipboardStorage::new();
    store.insert_entry("1".to_string(), "A".to_string(), None).unwrap();
    store.insert_entry("2".to_string(), "B".to_string(), None).unwrap();
    store.insert_entry("3".to_string(), "C".to_string(), None).unwrap();
    let removed = store.remove_entry(1).unwrap();
    assert_eq!(removed.uuid, "2");
    assert_eq!(removed.content, "B");
    assert_eq!(contents(&store), vec!["A".to_string(), "C".to_string()]);
}

#[test]
fn remove_entry_refuses_a_position_out_of_range() {
    let mut store = ClipboardStorage::new();
    assert_eq!(store.remove_entry(0).err(), Some(StoreError::IndexOutOfRange));
    store.insert_entry("1".to_string(), "A".to_string(), None).unwrap();
    assert_eq!(store.remove_entry(1).err(), Some(StoreError::IndexOutOfRange));
    assert_eq!(store.remove_entry(usize::MAX).err(), Some(StoreError::IndexOutOfRange));
    assert_eq!(contents(&store), vec!["A".to_string()]);
}

#[test]
fn from_entries_keeps_the_order() {
    let store = ClipboardStorage::from_entries(vec![
        entry("1", "A", None),
        entry("2", "B", Some("bee")),
        entry("3", "C", None),
    ])
    .ok()
    .unwrap();
    assert_eq!(contents(&store), vec!["A".to_string(), "B".to_string(), "C".to_string()]);
    assert_eq!(ClipboardStorage::from_entries(Vec::new()).ok().unwrap().len(), 0);
}

#[test]
fn from_entries_refuses_repeated_ids() {
    let made = ClipboardStorage::from_entries(vec![
        entry("1", "A", None),
        entry("2", "B", None),
        entry("1", "C", None),
    ]);
    assert_eq!(made.err(), Some(StoreError::DuplicateId));
    let made = ClipboardStorage::from_entries(vec![entry("7", "A", None), entry("7", "A", None)]);
    assert_eq!(made.err(), Some(StoreError::DuplicateId));
}

#[test]
fn clone_copies_every_entry() {
    let mut store = ClipboardStorage::new();
    store.insert_entry("1".to_string(), "A".to_string(), Some("a".to_string())).unwrap();
    store.insert_entry("2".to_string(), "B".to_string(), None).unwrap();
    let mut copy = store.clone();
    assert_eq!(copy.len(), 2);
    assert_eq!(copy.get_entries()[0].uuid, "1");
    assert_eq!(copy.get_entries()[0].content, "A");
    assert_eq!(copy.get_entries()[0].nickname, Some("a".to_string()));
    assert_eq!(copy.get_entries()[1].uuid, "2");
    assert_eq!(copy.get_entries()[1].nickname, None);
    copy.remove_entry(0).unwrap();
    assert_eq!(store.len(), 2);
    let e = store.get_entries()[1].clone();
    assert_eq!(e.uuid, "2");
    assert_eq!(e.content, "B");
}

fn to_json(store: &ClipboardStorage) -> String {
    let mut list = Vec::new();
    for e in store.get_entries() {
        let mut object = serde_json::Map::new();
        object.insert("uuid".to_string(), serde_json::Value::String(e.uuid.clone()));
        object.insert("content".to_string(), serde_json::Value::String(e.content.clone()));
        object.insert(
            "nickname".to_string(),
            match &e.nickname {
                Some(n) => serde_json::Value::String(n.clone()),
                None => serde_json::Value::Null,
            },
        );
        list.push(serde_json::Value::Object(object));
    }
    let mut root = serde_json::Map::new();
    root.insert("entries".to_string(), serde_json::Value::Array(list));
    serde_json::to_string_pretty(&serde_json::Value::Object(root)).unwrap()
}

fn from_json(text: &str) -> ClipboardStorage {
    let root: serde_json::Value = serde_json::from_str(text).unwrap();
    let mut entries = Vec::new();
    for value in root.get("entries").unwrap().as_array().unwrap() {
        entries.push(ClipboardEntry {
            uuid: value.get("uuid").unwrap().as_str().unwrap().to_string(),
            content: value.get("content").unwrap().as_str().unwrap().to_string(),
            nickname: value.get("nickname").unwrap().as_str().map(|n| n.to_string()),
        });
    }
    ClipboardStorage::load(Durable::Entries(entries)).ok().unwrap()
}

#[test]
fn appended_entry_comes_back_from_its_written_form() {
    let mut store = ClipboardStorage::new();
    let id = store.add_entry("hello".to_string(), Some("greet".to_string())).unwrap();
    let written = to_json(&store);
    let loaded = from_json(&written);
    assert_eq!(loaded.len(), 1);
    assert_eq!(loaded.get_entries()[0].content, "hello");
    assert_eq!(loaded.get_entries()[0].nickname, Some("greet".to_string()));
    assert_eq!(loaded.get_entries()[0].uuid, id);
    let again = from_json(&to_json(&loaded));
    assert_eq!(again.get_entries()[0].uuid, id);
}

#[test]
fn default_store_is_empty() {
    let store = ClipboardStorage::default();
    assert_eq!(store.len(), 0);
}

#[test]
fn load_takes_a_missing_file_for_the_empty_store() {
    let store = ClipboardStorage::load(Durable::Absent).ok().unwrap();
    assert_eq!(store.len(), 0);
}

#[test]
fn load_fails_on_a_file_that_cannot_be_read() {
    assert_eq!(ClipboardStorage::load(Durable::Corrupt).err(), Some(StoreError::Storage));
}

#[test]
fn load_keeps_the_entries_of_the_file() {
    let found = Durable::Entries(vec![entry("1", "A", None), entry("2", "B", Some("bee"))]);
    let store = ClipboardStorage::load(found).ok().unwrap();
    assert_eq!(contents(&store), vec!["A".to_string(), "B".to_string()]);
    assert_eq!(store.get_entries()[1].nickname, Some("bee".to_string()));
    let store = ClipboardStorage::load(Durable::Entries(Vec::new())).ok().unwrap();
    assert_eq!(store.len(), 0);
}

#[test]
fn load_fails_on_a_file_that_holds_an_id_twice() {
    let found = Durable::Entries(vec![entry("1", "A", None), entry("1", "B", None)]);
    assert_eq!(ClipboardStorage::load(found).err(), Some(StoreError::Storage));
}

#[test]
fn empty_store_always_takes_a_new_entry() {
    let mut store = ClipboardStorage::new();
    let added = store.add_entry("hello".to_string(), None);
    assert!(added.is_ok());
    assert_eq!(added.unwrap().chars().count(), DRAWN_ID_CHARS);
    assert_eq!(DRAWN_ID_CHARS, 36);
    assert_eq!(store.len(), 1);
}

#[test]
fn store_without_drawn_ids_always_takes_a_new_entry() {
    let mut store = ClipboardStorage::from_entries(vec![entry("1", "A", None), entry("2", "B", None)])
        .ok()
        .unwrap();
    let id = store.add_entry("C".to_string(), Some("sea".to_string())).unwrap();
    assert!(!(id == "1" || id == "2"));
    assert_eq!(contents(&store), vec!["A".to_string(), "B".to_string(), "C".to_string()]);
    assert_eq!(store.get_entries()[2].uuid, id);
    assert_eq!(store.get_entries()[2].nickname, Some("sea".to_string()));
}
