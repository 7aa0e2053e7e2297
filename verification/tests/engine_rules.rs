use ztln::{Identifier, Organization, Store, ZtlnError};

fn bytes(text: &str) -> Vec<u8> {
    text.as_bytes().to_vec()
}

fn engine(base_dir: &str) -> Organization {
    Organization::new(Store::init(base_dir, false).unwrap())
}

#[test]
fn create_organization() {
    let base_dir = "tmp/ztln_orga1";
    let store = Store::init(base_dir, false);
    assert!(store.is_ok());
    let mut orga = Organization::new(store.unwrap());
    assert_eq!(None, orga.get_current_topic());

    let store = Store::init(base_dir, true);
    assert!(store.is_err());
}

#[test]
fn get_current_topic() {
    let base_dir = "tmp/ztln_orga2";
    let mut orga = engine(base_dir);

    assert_eq!("NONE", orga.get_current_topic().unwrap_or_else(|| "NONE".to_string()));
    orga.create_topic("topic1").unwrap();
    assert_eq!("topic1", orga.get_current_topic().unwrap_or_else(|| "NONE".to_string()));
    orga.set_current_topic("topic1").unwrap();
    assert_eq!("topic1", orga.get_current_topic().unwrap_or_else(|| "NONE".to_string()));
    orga.create_topic("topic2").unwrap();
    assert_eq!("topic1", orga.get_current_topic().unwrap_or_else(|| "NONE".to_string()));
    orga.set_current_topic("topic2").unwrap();
    assert_eq!("topic2", orga.get_current_topic().unwrap_or_else(|| "NONE".to_string()));
    assert!(orga.set_current_topic("topic3").is_err());
}

#[test]
fn organization_add_note() {
    let base_dir = "tmp/ztln_orga3";
    let content = "This is test 3 content";
    let topic = "topic1";
    let mut orga = engine(base_dir);
    orga.create_topic(topic).unwrap();
    let res1 = orga.add_note(bytes(content), None, None).unwrap();
    assert!(res1.parent_id.is_none());
    assert_eq!(topic, res1.topic);
    assert_eq!("main", res1.path);
    assert_eq!("main", orga.get_current_path(topic).unwrap().unwrap());
    let res2 = orga.add_note(bytes(content), None, None).unwrap();
    assert_eq!(Some(res1.note_id), res2.parent_id);
    let res3 = orga.add_note(bytes(content), None, Some("path1")).unwrap();
    assert_eq!("path1", orga.get_current_path(topic).unwrap().unwrap());
    assert_eq!(Some(res2.note_id), res3.parent_id);
    assert!(orga.store().path_exists(topic, "path1"));
    let res4 = orga.add_note(bytes(content), Some("wrong"), None);
    assert!(res4.is_err());
    let topic = "topic2";
    orga.create_topic(topic).unwrap();
    orga.set_current_topic(topic).unwrap();
    let res5 = orga.add_note(bytes(content), None, None).unwrap();
    assert!(res5.parent_id.is_none());
    assert_eq!(topic, res5.topic);
    assert_eq!("main", res5.path);
    let topic = "topic3";
    let path = "path1";
    orga.create_topic(topic).unwrap();
    let res6 = orga.add_note(bytes(content), Some(topic), Some(path));
    assert!(res6.is_ok());
}

#[test]
fn create_path() {
    let base_dir = "tmp/ztln_orga4";
    let content = "This is test 4 content";
    let topic = "topic1";
    let mut orga = engine(base_dir);
    let res = orga.create_path("whatever", None);
    assert!(res.is_err());
    orga.create_topic(topic).unwrap();
    let res = orga.create_path("whatever", Some("topic1/HEAD"));
    assert!(res.is_err());
    let report1 = orga.add_note(bytes(content), Some(topic), None).unwrap();
    let res1 = orga.create_path("path2", Some("topic1/HEAD"));
    assert!(res1.is_ok());
    assert_eq!(2, orga.get_paths_list(Some(topic)).unwrap().1.len());
    let report2 = orga.add_note(bytes(content), Some(topic), Some("path2")).unwrap();
    assert_eq!(report1.note_id, report2.parent_id.unwrap());
    let res1 = orga.create_path("whatever", Some("wrong/HEAD"));
    assert!(res1.is_err());
}

#[test]
fn note_location_ok() {
    let expressions: &[&str] = &[
        "HEAD",
        "main",
        "whatever",
        "topic1/main",
        "topic1/HEAD",
        "topic1/whatever",
        "whatever/main",
        "HEAD:-0",
        "main:-2",
        "topic1/main:-3",
        "topic1/HEAD:-10",
        "topic1/whatever:-1",
        "whatever/main:-0",
        "44a0f45f",
        "44a0f45f-22b6-4675-a277-e196d8881ca8",
    ];

    let base_dir = "tmp/ztln_orga5";
    let topic = "topic1";
    let mut orga = engine(base_dir);
    orga.create_topic(topic).unwrap();
    orga.set_current_topic(topic).unwrap();
    orga.add_note(bytes("This is test 5 content"), None, None).unwrap();

    for expr in expressions {
        println!("Testing location '{}' is good\u{2026}", expr);
        assert!(orga.solve_location(expr).is_ok());
    }
}

#[test]
fn note_location_wrong() {
    let expressions: &[&str] = &["", "tata:toto", "tata:+1", "44a0f45f-22b6", "tata/toto/tete"];

    let base_dir = "tmp/ztln_orga6";
    let topic = "topic1";
    let mut orga = engine(base_dir);
    orga.create_topic(topic).unwrap();
    orga.set_current_topic(topic).unwrap();
    orga.add_note(bytes("This is test 6 content"), None, None).unwrap();

    for expr in expressions {
        println!("Testing location '{}' is wrong\u{2026}", expr);
        assert!(orga.solve_location(expr).is_err());
    }
}

#[test]
fn location_head() {
    let base_dir = "tmp/ztln_orga7";
    let content = "This is test 7 content";
    let topic = "topic1";
    let mut orga = engine(base_dir);
    orga.create_topic(topic).unwrap();
    orga.set_current_topic(topic).unwrap();
    let uuid_1 = orga.add_note(bytes(content), None, None).unwrap().note_id;
    let some_metadata = orga.solve_location("HEAD").unwrap();
    assert!(some_metadata.is_some());
    assert_eq!(uuid_1, some_metadata.unwrap().note_id);
    let some_metadata = orga.solve_location("main").unwrap();
    assert!(some_metadata.is_some());
    assert_eq!(uuid_1, some_metadata.unwrap().note_id);
    let some_metadata = orga.solve_location("main:-1").unwrap();
    assert!(some_metadata.is_none());
    let uuid_2 = orga.add_note(bytes(content), None, None).unwrap().note_id;
    let some_metadata = orga.solve_location("main:-1").unwrap();
    assert!(some_metadata.is_some());
    assert_eq!(uuid_1, some_metadata.unwrap().note_id);
    let some_metadata = orga.solve_location("HEAD").unwrap();
    assert!(some_metadata.is_some());
    assert_eq!(uuid_2, some_metadata.unwrap().note_id);
    let some_metadata = orga.solve_location("HEAD:-1").unwrap();
    assert!(some_metadata.is_some());
    assert_eq!(uuid_1, some_metadata.unwrap().note_id);
}

#[test]
fn topic_is_created_once() {
    let mut orga = engine("tmp/once");
    for name in ["topic1", "", "a/b", "\u{e9}t\u{e9}", "with space"] {
        assert_eq!(Ok(()), orga.create_topic(name));
        assert_eq!(Err(ZtlnError::TopicAlreadyExists(name.to_string())), orga.create_topic(name));
    }
    assert_eq!(
        vec!["", "a/b", "topic1", "with space", "\u{e9}t\u{e9}"],
        orga.get_topics_list()
    );
}

#[test]
fn first_topic_becomes_the_current_one() {
    let mut orga = engine("tmp/first");
    assert_eq!(None, orga.store().get_current_topic().unwrap());
    orga.create_topic("T1").unwrap();
    assert_eq!(Some("T1".to_string()), orga.get_current_topic());
    assert_eq!(Some("T1".to_string()), orga.store().get_current_topic().unwrap());
    orga.create_topic("T2").unwrap();
    assert_eq!(Some("T1".to_string()), orga.get_current_topic());
    assert_eq!(Some("T1".to_string()), orga.store().get_current_topic().unwrap());
}

#[test]
fn engine_asks_the_repository_for_the_current_topic_once() {
    let mut store = Store::init("tmp/cache", false).unwrap();
    store.create_topic("kept").unwrap();
    store.set_current_topic("kept").unwrap();
    let mut orga = Organization::new(store);
    assert_eq!(Some("kept".to_string()), orga.get_current_topic());
    orga.create_topic("other").unwrap();
    assert_eq!(Some("kept".to_string()), orga.get_current_topic());
    orga.set_current_topic("other").unwrap();
    assert_eq!(Some("other".to_string()), orga.get_current_topic());
    assert_eq!(Some("other".to_string()), orga.store().get_current_topic().unwrap());
}

#[test]
fn topic_that_is_missing_is_named_in_the_error() {
    let mut orga = engine("tmp/missing_topic");
    assert_eq!(
        Err(ZtlnError::TopicDoesNotExist("nowhere".to_string())),
        orga.set_current_topic("nowhere")
    );
    assert_eq!(
        Err(ZtlnError::TopicDoesNotExist("nowhere".to_string())),
        orga.get_current_path("nowhere")
    );
    assert_eq!(
        Err(ZtlnError::TopicDoesNotExist("nowhere".to_string())),
        orga.add_note(bytes("x"), Some("nowhere"), None)
    );
    assert_eq!(
        Err(ZtlnError::TopicDoesNotExist("nowhere".to_string())),
        orga.get_paths_list(Some("nowhere"))
    );
    assert_eq!(None, orga.get_current_topic());
}

#[test]
fn operations_without_a_topic_need_a_current_one() {
    let mut orga = engine("tmp/no_topic");
    assert_eq!(Err(ZtlnError::NoDefaultTopic), orga.add_note(bytes("x"), None, None));
    assert_eq!(Err(ZtlnError::NoDefaultTopic), orga.set_current_path(None, "main"));
    assert_eq!(Err(ZtlnError::NoDefaultTopic), orga.get_paths_list(None));
    assert_eq!(Err(ZtlnError::NoDefaultTopic), orga.create_path("p", None));
    assert_eq!(Err(ZtlnError::NoDefaultTopic), orga.create_path("p", Some("44a0f45f")));
    assert_eq!(Err(ZtlnError::NoDefaultTopic), orga.remove_path("main", None));
    assert_eq!(Err(ZtlnError::NoDefaultTopic), orga.reset_path("main", None, "HEAD"));
    assert_eq!(Err(ZtlnError::NoDefaultTopic), orga.solve_location("HEAD"));
    assert_eq!(Err(ZtlnError::NoDefaultTopic), orga.solve_location("main:-1"));
    assert_eq!(Err(ZtlnError::NoDefaultTopic), orga.add_keyword("k", None));
    assert_eq!(Ok(None), orga.solve_location("other/main"));
}

#[test]
fn current_path_is_set_to_a_path_that_exists() {
    let mut orga = engine("tmp/choose");
    orga.create_topic("t").unwrap();
    assert_eq!(
        Err(ZtlnError::PathDoesNotExist("t".to_string(), "main".to_string())),
        orga.set_current_path(None, "main")
    );
    orga.add_note(bytes("one"), None, None).unwrap();
    orga.add_note(bytes("two"), None, Some("side")).unwrap();
    assert_eq!(Ok(Some("side".to_string())), orga.get_current_path("t"));
    assert_eq!(Ok(()), orga.set_current_path(Some("t"), "main"));
    assert_eq!(Ok(Some("main".to_string())), orga.get_current_path("t"));
    assert_eq!(
        Err(ZtlnError::PathDoesNotExist("u".to_string(), "main".to_string())),
        orga.set_current_path(Some("u"), "main")
    );
    assert_eq!(
        Ok(("t".to_string(), vec!["main".to_string(), "side".to_string()])),
        orga.get_paths_list(None)
    );
}

#[test]
fn note_with_a_new_path_branches_from_the_current_path() {
    let mut orga = engine("tmp/branching");
    orga.create_topic("t").unwrap();
    let first = orga.add_note(bytes("one"), None, Some("trunk")).unwrap();
    assert_eq!(None, first.parent_id);
    assert_eq!("trunk", first.path);
    let second = orga.add_note(bytes("two"), None, Some("branch")).unwrap();
    assert_eq!(Some(first.note_id), second.parent_id);
    assert_eq!("branch", second.path);
    assert_eq!(first.note_id, orga.store().get_path("t", "trunk").unwrap());
    assert_eq!(second.note_id, orga.store().get_path("t", "branch").unwrap());
    let third = orga.add_note(bytes("three"), None, Some("trunk")).unwrap();
    assert_eq!(Some(first.note_id), third.parent_id);
    assert_eq!(Ok(Some("trunk".to_string())), orga.get_current_path("t"));
}

#[test]
fn note_is_refused_where_the_current_path_has_no_head() {
    let mut store = Store::init("tmp/headless", false).unwrap();
    store.create_topic("t").unwrap();
    store.set_current_topic("t").unwrap();
    store.set_current_path("t", "gone").unwrap();
    let mut orga = Organization::new(store);
    assert_eq!(
        Err(ZtlnError::PathDoesNotExist("t".to_string(), "gone".to_string())),
        orga.add_note(bytes("x"), None, Some("fresh"))
    );
    let first = orga.add_note(bytes("x"), None, None).unwrap();
    assert_eq!("gone", first.path);
    assert_eq!(None, first.parent_id);
}

#[test]
fn note_under_an_identifier_that_is_taken_is_refused() {
    let mut orga = engine("tmp/taken_id");
    orga.create_topic("t").unwrap();
    let id = Identifier { value: 0x44a0f45f_22b6_4675_a277_e196d8881ca8 };
    let first = orga.add_note_as(id, bytes("one"), None, None).unwrap();
    assert_eq!(id, first.note_id);
    assert_eq!(
        Err(ZtlnError::StorageIntegrity(
            "Note '44a0f45f-22b6-4675-a277-e196d8881ca8' does already exist.".to_string()
        )),
        orga.add_note_as(id, bytes("two"), None, Some("other"))
    );
    assert_eq!(Ok(Some("other".to_string())), orga.get_current_path("t"));
    assert_eq!(id, orga.store().get_path("t", "other").unwrap());
    assert_eq!(Ok(bytes("one")), orga.get_note_content(id));
}

#[test]
fn content_of_a_note_is_what_was_added() {
    let mut orga = engine("tmp/content");
    orga.create_topic("t").unwrap();
    let note = orga.add_note(vec![0, 159, 146, 150, 255], None, None).unwrap();
    assert_eq!(Ok(vec![0, 159, 146, 150, 255]), orga.get_note_content(note.note_id));
    assert_eq!(
        Err(ZtlnError::StorageIntegrity(
            "Note '00000000-0000-0000-0000-000000000002' has no content.".to_string()
        )),
        orga.get_note_content(Identifier { value: 2 })
    );
}

#[test]
fn path_is_created_from_a_step_back_or_from_an_identifier() {
    let mut orga = engine("tmp/sources");
    orga.create_topic("t").unwrap();
    let id = Identifier { value: 0x44a0f45f_22b6_4675_a277_e196d8881ca8 };
    let first = orga.add_note_as(id, bytes("one"), None, None).unwrap();
    let second = orga.add_note(bytes("two"), None, None).unwrap();
    assert_eq!(Ok(()), orga.create_path("back", Some("main:-1")));
    assert_eq!(first.note_id, orga.store().get_path("t", "back").unwrap());
    assert_eq!(Ok(()), orga.create_path("byid", Some("44a0f45f")));
    assert_eq!(first.note_id, orga.store().get_path("t", "byid").unwrap());
    assert_eq!(Ok(()), orga.create_path("tip", None));
    assert_eq!(second.note_id, orga.store().get_path("t", "tip").unwrap());
    assert_eq!(
        Err(ZtlnError::LocationError("main:-2".to_string())),
        orga.create_path("far", Some("main:-2"))
    );
    assert_eq!(
        Err(ZtlnError::LocationError("0000abcd".to_string())),
        orga.create_path("far", Some("0000abcd"))
    );
    assert_eq!(
        Err(ZtlnError::PathAlreadyExists("t".to_string(), "back".to_string())),
        orga.create_path("back", Some("main"))
    );
    assert_eq!(
        Err(ZtlnError::PathDoesNotExist("t".to_string(), "nowhere".to_string())),
        orga.create_path("far", Some("nowhere"))
    );
    assert_eq!(
        Err(ZtlnError::InvalidLocation("a b".to_string())),
        orga.create_path("far", Some("a b"))
    );
    assert!(!orga.store().path_exists("t", "far"));
}

#[test]
fn path_from_head_needs_a_current_path() {
    let mut orga = engine("tmp/no_path");
    orga.create_topic("t").unwrap();
    assert_eq!(Err(ZtlnError::NoDefaultPath), orga.create_path("p", None));
    assert_eq!(Err(ZtlnError::NoDefaultPath), orga.create_path("p", Some("t/HEAD")));
    assert_eq!(
        Err(ZtlnError::TopicDoesNotExist("u".to_string())),
        orga.create_path("p", Some("u/HEAD"))
    );
}

#[test]
fn path_is_reset_to_the_note_of_a_location() {
    let mut orga = engine("tmp/reset");
    orga.create_topic("t").unwrap();
    let first = orga.add_note(bytes("one"), None, None).unwrap();
    let second = orga.add_note(bytes("two"), None, None).unwrap();
    let third = orga.add_note(bytes("three"), None, None).unwrap();
    let (previous, next) = orga.reset_path("main", None, "HEAD:-2").unwrap();
    assert_eq!(third, previous);
    assert_eq!(first, next);
    assert_eq!(first.note_id, orga.store().get_path("t", "main").unwrap());
    assert_eq!(
        Err(ZtlnError::LocationError("HEAD:-1".to_string())),
        orga.reset_path("main", Some("t"), "HEAD:-1")
    );
    assert_eq!(
        Err(ZtlnError::InvalidLocation("HEAD:1".to_string())),
        orga.reset_path("main", Some("t"), "HEAD:1")
    );
    assert_eq!(
        Err(ZtlnError::PathDoesNotExist("t".to_string(), "side".to_string())),
        orga.reset_path("side", None, "HEAD")
    );
    let short = second.note_id.short();
    let (previous, next) = orga.reset_path("main", None, &short).unwrap();
    assert_eq!(first, previous);
    assert_eq!(second, next);
}

#[test]
fn path_whose_head_has_no_metadata_is_not_removed() {
    let mut store = Store::init("tmp/dangling", false).unwrap();
    store.create_topic("t").unwrap();
    store.set_current_topic("t").unwrap();
    store.write_path("t", "main", Identifier { value: 3 }).unwrap();
    let mut orga = Organization::new(store);
    assert_eq!(
        Err(ZtlnError::StorageIntegrity(
            "Note '00000000-0000-0000-0000-000000000003' has no metadata.".to_string()
        )),
        orga.remove_path("main", None)
    );
    assert!(orga.store().path_exists("t", "main"));
    assert_eq!(Ok(None), orga.solve_location("main"));
}

#[test]
fn keyword_goes_to_the_note_of_a_location() {
    let mut orga = engine("tmp/keywords");
    orga.create_topic("t").unwrap();
    let first = orga.add_note(bytes("one"), None, None).unwrap();
    let second = orga.add_note(bytes("two"), None, None).unwrap();
    assert_eq!(Ok(()), orga.add_keyword("rust", None));
    assert_eq!(Ok(()), orga.add_keyword("rust", Some("HEAD:-1")));
    assert_eq!(Ok(()), orga.add_keyword("verus", Some("t/main")));
    assert_eq!(Ok(()), orga.add_keyword("rust", Some("main")));
    assert_eq!(
        Err(ZtlnError::LocationError("HEAD:-2".to_string())),
        orga.add_keyword("rust", Some("HEAD:-2"))
    );
    assert_eq!(
        Err(ZtlnError::InvalidLocation("".to_string())),
        orga.add_keyword("rust", Some(""))
    );
    assert_eq!(
        vec![second.duplicate(), first.duplicate(), second.duplicate()],
        orga.search_keyword("rust").unwrap()
    );
    assert_eq!(vec![second], orga.search_keyword("verus").unwrap());
    assert!(orga.search_keyword("none").unwrap().is_empty());
    assert_eq!(
        vec![("rust".to_string(), 3), ("verus".to_string(), 1)],
        orga.list_keywords().unwrap()
    );
}

#[test]
fn reference_is_added_at_the_end() {
    let mut orga = engine("tmp/references");
    orga.create_topic("t").unwrap();
    let first = orga.add_note(bytes("one"), None, None).unwrap();
    let second = orga.add_note(bytes("two"), None, None).unwrap();
    assert_eq!(Ok(()), orga.add_note_reference("HEAD", "HEAD:-1"));
    assert_eq!(Ok(()), orga.add_note_reference("HEAD", "HEAD"));
    let changed = orga.solve_location("HEAD").unwrap().unwrap();
    assert_eq!(vec![first.note_id, second.note_id], changed.references);
    assert_eq!(second.parent_id, changed.parent_id);
    assert_eq!(Some(first), orga.solve_location("HEAD:-1").unwrap());
    assert_eq!(
        Err(ZtlnError::LocationError("HEAD:-2".to_string())),
        orga.add_note_reference("HEAD:-2", "HEAD")
    );
    assert_eq!(
        Err(ZtlnError::LocationError("side".to_string())),
        orga.add_note_reference("HEAD", "side")
    );
    assert_eq!(
        Err(ZtlnError::InvalidLocation("a:b".to_string())),
        orga.add_note_reference("a:b", "HEAD")
    );
}

#[test]
fn errors_have_their_messages() {
    let cases = vec![
        (ZtlnError::TopicDoesNotExist("t".to_string()), "\u{2192} Topic 't' does not exist"),
        (ZtlnError::TopicAlreadyExists("t".to_string()), "\u{2192} Topic 't' does already exist"),
        (
            ZtlnError::PathAlreadyExists("t".to_string(), "p".to_string()),
            "\u{2192} Path 't/p' does already exist",
        ),
        (
            ZtlnError::PathDoesNotExist("t".to_string(), "p".to_string()),
            "\u{2192} Path t/p does not exist",
        ),
        (
            ZtlnError::ParserError("topic".to_string(), Some("field is empty".to_string())),
            "\u{2192} Parser error while reading 'topic' field. field is empty",
        ),
        (
            ZtlnError::ParserError("path".to_string(), None),
            "\u{2192} Parser error while reading 'path' field. ",
        ),
        (ZtlnError::LocationError("HEAD:-3".to_string()), "\u{2192} Location 'HEAD:-3' does not exist."),
        (ZtlnError::InvalidLocation("a b".to_string()), "\u{2192} Invalid location 'a b'."),
        (ZtlnError::NoDefaultTopic, "\u{2192} No default topic"),
        (ZtlnError::NoDefaultPath, "\u{2192} No default path"),
        (ZtlnError::StorageIntegrity("broken".to_string()), "STORE I/O ERROR \u{2192} broken"),
        (ZtlnError::IoFailure("disk full".to_string()), "\u{2192} disk full"),
    ];
    for (error, message) in cases {
        assert_eq!(message, error.message());
    }
    let refused = Store::init("here", true).unwrap_err();
    assert_eq!(
        ZtlnError::StorageIntegrity("Given directory 'here' already exists.".to_string()),
        ZtlnError::from_store(refused)
    );
}
