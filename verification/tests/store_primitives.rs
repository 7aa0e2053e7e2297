use ztln::{Identifier, NoteMetaData, Store};

fn bytes(text: &str) -> Vec<u8> {
    text.as_bytes().to_vec()
}

#[test]
fn init() {
    let base_dir = "tmp/ztln_store1";
    let store = Store::init(base_dir, false).unwrap();
    assert!(Store::init(base_dir, true).is_err());
    let files = store.snapshot().unwrap();
    assert!(files.has_topics);
    assert!(files.has_meta);
    assert!(files.has_notes);
    assert!(files.has_index);
    assert_eq!(base_dir, store.base_dir());
}

#[test]
fn init_says_which_place_is_taken() {
    let refused = Store::init("tmp/taken", true).unwrap_err();
    assert_eq!("Given directory 'tmp/taken' already exists.", refused.detail());
    assert_eq!(
        "STORE I/O ERROR \u{2192} Given directory 'tmp/taken' already exists.",
        refused.message()
    );
}

#[test]
fn create_topic() {
    let base_dir = "tmp/ztln_store2";
    let mut store = Store::init(base_dir, false).unwrap();
    let topic = "topicA";
    assert!(!store.topic_exists(topic));
    store.create_topic(topic).unwrap();
    assert!(store.topic_exists(topic));
    assert!(store.get_current_path(topic).unwrap().is_none());
    assert_eq!(Vec::<String>::new(), store.get_paths(topic).unwrap());
    assert!(!store.path_exists(topic, "main"));
}

#[test]
fn create_topic_twice_keeps_the_topic_as_it_is() {
    let mut store = Store::init("tmp/again", false).unwrap();
    store.create_topic("topicA").unwrap();
    let note = store.add_note("topicA", "main", bytes("one")).unwrap();
    store.set_current_path("topicA", "main").unwrap();
    store.create_topic("topicA").unwrap();
    assert_eq!(note.note_id, store.get_path("topicA", "main").unwrap());
    assert_eq!(Some("main".to_string()), store.get_current_path("topicA").unwrap());
}

#[test]
fn set_current_topic() {
    let base_dir = "tmp/ztln_store3";
    let mut store = Store::init(base_dir, false).unwrap();
    store.create_topic("topicA").unwrap();
    assert!(store.get_current_topic().unwrap().is_none());
    assert!(store.set_current_topic("topicA").is_ok());
    assert_eq!(store.get_current_topic().unwrap().unwrap(), "topicA");
}

#[test]
fn get_topics() {
    let base_dir = "tmp/ztln_store4";
    let mut store = Store::init(base_dir, false).unwrap();
    assert_eq!(0, store.get_topics().unwrap().len(), "return an empty list of topics");
    store.create_topic("topicB").unwrap();
    assert_eq!(vec!["topicB"], store.get_topics().unwrap(), "one topic");
    store.create_topic("topicA").unwrap();
    assert_eq!(
        vec!["topicA", "topicB"],
        store.get_topics().unwrap(),
        "two topics sorted by alphabetical order"
    );
}

#[test]
fn store_add_note() {
    let base_dir = "tmp/ztln_store5";
    let mut store = Store::init(base_dir, false).unwrap();
    store.create_topic("topicA").unwrap();
    store.set_current_topic("topicA").unwrap();
    let result = store.add_note("topicA", "main", bytes("This is a note"));
    assert!(result.is_ok(), "adding a note returns OK");
    let note = result.unwrap();
    assert!(note.parent_id.is_none(), "when a topic is new, there is no parent_id");
    assert_eq!(
        note.note_id,
        store.get_path("topicA", "main").unwrap(),
        "path has been updated"
    );
    assert!(store.get_note_metadata(note.note_id).unwrap().is_some(), "meta file exists");
    assert_eq!(
        &bytes("This is a note"),
        store.get_note_content(note.note_id).unwrap(),
        "content file is up to date"
    );
    let another_note = store.add_note("topicA", "main", bytes("This is another note")).unwrap();
    assert_eq!(Some(note.note_id), another_note.parent_id, "new note relates to parent");
    assert_eq!(
        another_note.note_id,
        store.get_path("topicA", "main").unwrap(),
        "path has been updated"
    );
}

#[test]
fn get_note_metadata() {
    let base_dir = "tmp/ztln_store6";
    let mut store = Store::init(base_dir, false).unwrap();
    store.create_topic("topicA").unwrap();
    store.set_current_topic("topicA").unwrap();
    let metadata = store.add_note("topicA", "main", bytes("This is a test 6 note")).unwrap();
    let res = store.get_note_metadata(metadata.note_id);
    if res.is_err() {
        println!("got error: {:?}", res);
    }
    assert!(res.is_ok(), "note '{}' is fetched", metadata.note_id.text());
    let some_meta = res.unwrap();
    assert!(some_meta.is_some());
    let note_meta = some_meta.unwrap();
    assert_eq!(metadata, note_meta);
}

#[test]
fn keyword_index() {
    let base_dir = "tmp/ztln_store7";
    let mut store = Store::init(base_dir, false).unwrap();
    store.create_topic("topicA").unwrap();
    store.set_current_topic("topicA").unwrap();
    let metadata = store.add_note("topicA", "main", bytes("This is a test 7 note")).unwrap();
    let res = store.add_keyword_index("keyword", &metadata);
    if res.is_err() {
        println!("ERROR: {:?}", res);
    }
    assert!(res.is_ok());
    store.add_keyword_index("other_tag", &metadata).unwrap();

    let res = store.get_meta_from_index("keyword");
    if res.is_err() {
        println!("ERROR: {:?}", res);
    }
    assert!(res.is_ok());
    let list = res.unwrap();
    assert_eq!(1, list.len());
    assert_eq!(metadata.note_id, list[0].note_id);
    let keywords = store.get_keywords().unwrap();
    assert_eq!(2, keywords.len());
}

#[test]
fn remove_path() {
    let base_dir = "tmp/ztln_store8";
    let mut store = Store::init(base_dir, false).unwrap();
    let topic = "topicA";
    store.create_topic(topic).unwrap();
    store.set_current_topic(topic).unwrap();
    let metadata = store.add_note(topic, "main", bytes("This is a test 8 note")).unwrap();
    let path1 = "new_path1";
    let path2 = "new_path2";
    store.write_path(topic, path1, metadata.note_id).unwrap();
    store.write_path(topic, path2, metadata.note_id).unwrap();
    store.remove_path(topic, path1).unwrap();
    assert!(!store.path_exists(topic, path1));
    assert!(store.path_exists(topic, path2));
    assert!(store.remove_path(topic, path1).is_err());
    store.remove_path(topic, path2).unwrap();
    assert!(!store.path_exists(topic, path2));
}

#[test]
fn reset_path() {
    let base_dir = "tmp/ztln_store9";
    let mut store = Store::init(base_dir, false).unwrap();
    let topic = "topicA";
    store.create_topic(topic).unwrap();
    store.set_current_topic(topic).unwrap();
    let metadata1 = store.add_note(topic, "main", bytes("This is a test 9 note")).unwrap();
    let metadata2 = store.add_note(topic, "main", bytes("This is a test 9 note")).unwrap();
    let path1 = "new_path1";
    store.write_path(topic, path1, metadata2.note_id).unwrap();
    store.reset_path(topic, path1, metadata1.note_id).unwrap();
    let uuid = store.get_path(topic, path1).unwrap();
    assert_eq!(metadata1.note_id, uuid);
}

#[test]
fn paths_come_out_in_order() {
    let mut store = Store::init("tmp/order", false).unwrap();
    store.create_topic("t").unwrap();
    let id = Identifier { value: 7 };
    for name in ["zeta", "alpha", "main", "Beta", "alpha2", "\u{e9}cole"] {
        store.write_path("t", name, id).unwrap();
    }
    assert_eq!(
        vec!["Beta", "alpha", "alpha2", "main", "zeta", "\u{e9}cole"],
        store.get_paths("t").unwrap()
    );
    store.remove_path("t", "main").unwrap();
    assert_eq!(
        vec!["Beta", "alpha", "alpha2", "zeta", "\u{e9}cole"],
        store.get_paths("t").unwrap()
    );
}

#[test]
fn store_says_what_is_missing() {
    let mut store = Store::init("tmp/missing", false).unwrap();
    let id = Identifier { value: 1 };
    assert_eq!("Topic 'nowhere' does not exist.", store.get_paths("nowhere").unwrap_err().detail());
    assert_eq!(
        "Topic 'nowhere' does not exist.",
        store.write_path("nowhere", "main", id).unwrap_err().detail()
    );
    assert_eq!(
        "Topic 'nowhere' does not exist.",
        store.set_current_path("nowhere", "main").unwrap_err().detail()
    );
    assert_eq!(
        "Topic 'nowhere' does not exist.",
        store.add_note("nowhere", "main", bytes("x")).unwrap_err().detail()
    );
    assert_eq!(
        "Path 'nowhere/main' does not exist.",
        store.get_path("nowhere", "main").unwrap_err().detail()
    );
    store.create_topic("t").unwrap();
    assert_eq!("Path 't/main' does not exist.", store.get_path("t", "main").unwrap_err().detail());
    assert_eq!(
        "Path 't/main' does not exist.",
        store.remove_path("t", "main").unwrap_err().detail()
    );
    assert_eq!(
        "Note '00000000-0000-0000-0000-000000000001' has no content.",
        store.get_note_content(id).unwrap_err().detail()
    );
    assert_eq!(None, store.get_note_metadata(id).unwrap());
    assert_eq!(None, store.get_current_path("nowhere").unwrap());
}

#[test]
fn store_refuses_an_identifier_that_it_has() {
    let mut store = Store::init("tmp/collision", false).unwrap();
    store.create_topic("t").unwrap();
    let id = Identifier { value: 0x44a0f45f_22b6_4675_a277_e196d8881ca8 };
    let first = store.insert_note(id, "t", "main", bytes("one")).unwrap();
    assert_eq!(id, first.note_id);
    let refused = store.insert_note(id, "t", "main", bytes("two")).unwrap_err();
    assert_eq!(
        "Note '44a0f45f-22b6-4675-a277-e196d8881ca8' does already exist.",
        refused.detail()
    );
    assert_eq!(&bytes("one"), store.get_note_content(id).unwrap());
    assert_eq!(id, store.get_path("t", "main").unwrap());
    assert_eq!(Some(first), store.get_note_metadata(id).unwrap());
}

#[test]
fn store_finds_a_note_by_the_start_of_its_identifier() {
    let mut store = Store::init("tmp/short", false).unwrap();
    store.create_topic("t").unwrap();
    let first = Identifier { value: 0x44a0f45f_22b6_4675_a277_e196d8881ca8 };
    let second = Identifier { value: 0x44a0f45f_0000_4675_a277_e196d8881ca8 };
    let other = Identifier { value: 0x54a0f45f_22b6_4675_a277_e196d8881ca8 };
    store.insert_note(other, "t", "main", bytes("zero")).unwrap();
    store.insert_note(first, "t", "main", bytes("one")).unwrap();
    store.insert_note(second, "t", "main", bytes("two")).unwrap();
    assert_eq!(first, store.search_short_uuid("44a0f45f").unwrap().unwrap().note_id);
    assert_eq!(other, store.search_short_uuid("54a0f45f").unwrap().unwrap().note_id);
    assert_eq!(None, store.search_short_uuid("44A0F45F").unwrap());
    assert_eq!(None, store.search_short_uuid("44a0f45").unwrap());
    assert_eq!(None, store.search_short_uuid("").unwrap());
}

#[test]
fn metadata_is_replaced_where_the_note_has_some() {
    let mut store = Store::init("tmp/replace", false).unwrap();
    store.create_topic("t").unwrap();
    let first = store.add_note("t", "main", bytes("one")).unwrap();
    let second = store.add_note("t", "main", bytes("two")).unwrap();
    let changed = NoteMetaData {
        note_id: first.note_id,
        parent_id: None,
        references: vec![second.note_id],
        topic: "t".to_string(),
        path: "main".to_string(),
    };
    store.write_note_metadata(&changed).unwrap();
    assert_eq!(Some(changed), store.get_note_metadata(first.note_id).unwrap());
    assert_eq!(Some(second.duplicate()), store.get_note_metadata(second.note_id).unwrap());
    let stray = NoteMetaData {
        note_id: Identifier { value: 99 },
        parent_id: None,
        references: Vec::new(),
        topic: "elsewhere".to_string(),
        path: "p".to_string(),
    };
    store.write_note_metadata(&stray).unwrap();
    assert_eq!(Some(stray), store.get_note_metadata(Identifier { value: 99 }).unwrap());
    assert_eq!(3, store.snapshot().unwrap().meta.len());
}

#[test]
fn keywords_count_every_time_a_note_was_put_under_them() {
    let mut store = Store::init("tmp/counts", false).unwrap();
    store.create_topic("t").unwrap();
    let first = store.add_note("t", "main", bytes("one")).unwrap();
    let second = store.add_note("t", "main", bytes("two")).unwrap();
    store.add_keyword_index("zebra", &first).unwrap();
    store.add_keyword_index("apple", &first).unwrap();
    store.add_keyword_index("apple", &second).unwrap();
    store.add_keyword_index("apple", &first).unwrap();
    assert_eq!(
        vec![("apple".to_string(), 3), ("zebra".to_string(), 1)],
        store.get_keywords().unwrap()
    );
    let found: Vec<Identifier> =
        store.get_meta_from_index("apple").unwrap().iter().map(|n| n.note_id).collect();
    assert_eq!(vec![first.note_id, second.note_id, first.note_id], found);
    assert_eq!(Vec::<NoteMetaData>::new(), store.get_meta_from_index("pear").unwrap());
}

#[test]
fn keyword_search_leaves_out_a_note_without_metadata() {
    let mut store = Store::init("tmp/leftout", false).unwrap();
    store.create_topic("t").unwrap();
    let first = store.add_note("t", "main", bytes("one")).unwrap();
    let ghost = NoteMetaData {
        note_id: Identifier { value: 5 },
        parent_id: None,
        references: Vec::new(),
        topic: "t".to_string(),
        path: "main".to_string(),
    };
    store.add_keyword_index("k", &ghost).unwrap();
    store.add_keyword_index("k", &first).unwrap();
    assert_eq!(vec![first], store.get_meta_from_index("k").unwrap());
    assert_eq!(vec![("k".to_string(), 2)], store.get_keywords().unwrap());
}
