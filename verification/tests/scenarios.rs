use ztln::{Identifier, Organization, Store, ZtlnError};

fn bytes(text: &str) -> Vec<u8> {
    text.as_bytes().to_vec()
}

fn engine() -> Organization {
    Organization::new(Store::init("tmp/scenario", false).unwrap())
}

#[test]
fn first_notes_of_a_repository() {
    let mut orga = engine();
    assert_eq!(Ok(()), orga.create_topic("T1"));
    assert_eq!(Some("T1".to_string()), orga.get_current_topic());
    let first = orga.add_note(bytes("first"), None, None).unwrap();
    assert_eq!(None, first.parent_id);
    assert_eq!("T1", first.topic);
    assert_eq!("main", first.path);
    assert!(first.references.is_empty());
    assert_eq!(Ok(("T1".to_string(), vec!["main".to_string()])), orga.get_paths_list(None));
    let second = orga.add_note(bytes("second"), None, None).unwrap();
    assert_eq!(Some(first.note_id), second.parent_id);
    assert_eq!(Ok(Some("main".to_string())), orga.get_current_path("T1"));
    assert_eq!(second.note_id, orga.store().get_path("T1", "main").unwrap());
    assert_eq!(Ok(("T1".to_string(), vec!["main".to_string()])), orga.get_paths_list(None));
}

#[test]
fn path_is_branched_and_removed() {
    let mut orga = engine();
    orga.create_topic("T1").unwrap();
    let note = orga.add_note(bytes("first"), None, None).unwrap();
    assert_eq!(Ok(()), orga.create_path("main2", None));
    assert_eq!(
        orga.store().get_path("T1", "main").unwrap(),
        orga.store().get_path("T1", "main2").unwrap()
    );
    assert_eq!(Ok(note.duplicate()), orga.remove_path("main2", None));
    assert_eq!(note.note_id, orga.store().get_path("T1", "main").unwrap());
    assert!(!orga.store().path_exists("T1", "main2"));
    assert_eq!(Ok(Some(note)), orga.solve_location("main"));
    assert_eq!(
        Err(ZtlnError::PathDoesNotExist("T1".to_string(), "main2".to_string())),
        orga.remove_path("main2", None)
    );
}

#[test]
fn note_is_found_by_the_start_of_its_identifier() {
    let mut orga = engine();
    orga.create_topic("T1").unwrap();
    let id = Identifier::parse_str("44a0f45f-22b6-4675-a277-e196d8881ca8").unwrap();
    let note = orga.add_note_as(id, bytes("first"), None, None).unwrap();
    orga.add_note(bytes("second"), None, None).unwrap();
    assert_eq!(Ok(Some(note.duplicate())), orga.solve_location("44a0f45f"));
    assert_eq!(
        Ok(Some(note)),
        orga.solve_location("44a0f45f-0000-0000-0000-000000000000")
    );
    assert_eq!(Ok(None), orga.solve_location("44a0f450"));
    assert_eq!(
        Err(ZtlnError::InvalidLocation("44a0f45f-22b6".to_string())),
        orga.solve_location("44a0f45f-22b6")
    );
}

#[test]
fn parents_follow_the_order_in_which_notes_were_added() {
    let mut orga = engine();
    orga.create_topic("T1").unwrap();
    let mut previous: Option<Identifier> = None;
    for k in 0..12 {
        let note = orga.add_note(vec![k], Some("T1"), Some("chain")).unwrap();
        assert_eq!(previous, note.parent_id);
        assert_eq!("chain", note.path);
        previous = Some(note.note_id);
    }
    let mut orga = engine();
    orga.create_topic("T1").unwrap();
    let mut previous: Option<Identifier> = None;
    for k in 0..5 {
        let note = orga.add_note(vec![k], None, None).unwrap();
        assert_eq!(previous, note.parent_id);
        assert_eq!("main", note.path);
        previous = Some(note.note_id);
    }
}

#[test]
fn branch_keeps_its_head_when_its_source_moves_on() {
    let mut orga = engine();
    orga.create_topic("T1").unwrap();
    orga.add_note(bytes("one"), None, None).unwrap();
    let second = orga.add_note(bytes("two"), None, None).unwrap();
    orga.create_path("copy", Some("T1/main")).unwrap();
    assert_eq!(second.note_id, orga.store().get_path("T1", "copy").unwrap());
    let third = orga.add_note(bytes("three"), Some("T1"), Some("main")).unwrap();
    assert_eq!(Some(second.note_id), third.parent_id);
    assert_eq!(third.note_id, orga.store().get_path("T1", "main").unwrap());
    assert_eq!(second.note_id, orga.store().get_path("T1", "copy").unwrap());
    assert_eq!(3, orga.store().snapshot().unwrap().meta.len());
}

#[test]
fn walk_ends_where_the_chain_ends() {
    let mut orga = engine();
    orga.create_topic("T1").unwrap();
    let first = orga.add_note(bytes("one"), None, None).unwrap();
    let second = orga.add_note(bytes("two"), None, None).unwrap();
    let third = orga.add_note(bytes("three"), None, None).unwrap();
    assert_eq!(Ok(Some(third.duplicate())), orga.solve_location("HEAD:-0"));
    assert_eq!(Ok(Some(third)), orga.solve_location("HEAD"));
    assert_eq!(Ok(Some(second)), orga.solve_location("HEAD:-1"));
    assert_eq!(Ok(Some(first)), orga.solve_location("HEAD:-2"));
    assert_eq!(Ok(None), orga.solve_location("HEAD:-3"));
    assert_eq!(Ok(None), orga.solve_location("HEAD:-4"));
    assert_eq!(Ok(None), orga.solve_location("T1/main:-18446744073709551615"));
    assert_eq!(
        Err(ZtlnError::InvalidLocation("HEAD:-18446744073709551616".to_string())),
        orga.solve_location("HEAD:-18446744073709551616")
    );
}

#[test]
fn head_is_main_where_the_topic_has_no_current_path() {
    let mut store = Store::init("tmp/scenario", false).unwrap();
    store.create_topic("T1").unwrap();
    store.set_current_topic("T1").unwrap();
    let note = store.add_note("T1", "main", bytes("one")).unwrap();
    let mut orga = Organization::new(store);
    assert_eq!(Ok(None), orga.get_current_path("T1"));
    assert_eq!(Ok(Some(note)), orga.solve_location("HEAD"));
    assert_eq!(
        Err(ZtlnError::TopicDoesNotExist("T2".to_string())),
        orga.solve_location("T2/HEAD")
    );
    assert_eq!(Ok(None), orga.solve_location("T2/main"));
}

#[test]
fn note_is_found_under_each_of_its_keywords() {
    let mut orga = engine();
    orga.create_topic("T1").unwrap();
    let note = orga.add_note(bytes("one"), None, None).unwrap();
    orga.add_keyword("first", None).unwrap();
    orga.add_keyword("second", None).unwrap();
    assert_eq!(vec![note.duplicate()], orga.search_keyword("first").unwrap());
    assert_eq!(vec![note.duplicate()], orga.search_keyword("second").unwrap());
    assert_eq!(
        vec![("first".to_string(), 1), ("second".to_string(), 1)],
        orga.list_keywords().unwrap()
    );
    orga.add_keyword("first", None).unwrap();
    assert_eq!(vec![note.duplicate(), note], orga.search_keyword("first").unwrap());
    assert_eq!(
        vec![("first".to_string(), 2), ("second".to_string(), 1)],
        orga.list_keywords().unwrap()
    );
}
