use ztln::note::copy_identifiers;
use ztln::{Identifier, NoteMetaData, ZtlnError};

fn id(text: &str) -> Identifier {
    Identifier::parse_str(text).unwrap()
}

#[test]
fn parse_meta_file_ok() {
    let note_id = Identifier::mint();
    let identifier = note_id.text();
    let metafileok = vec![
        (
            "\ntopic\nmain".to_string(),
            NoteMetaData {
                note_id,
                parent_id: None,
                topic: "topic".to_string(),
                path: "main".to_string(),
                references: Vec::new(),
            },
        ),
        (
            format!("{}\ntopic\nmain", identifier),
            NoteMetaData {
                note_id,
                parent_id: Some(note_id),
                topic: "topic".to_string(),
                path: "main".to_string(),
                references: Vec::new(),
            },
        ),
    ];
    for (content, metadata) in &metafileok {
        let res_meta = NoteMetaData::parse_meta_file(note_id, content);
        if res_meta.is_err() {
            println!("Error: {:?}", res_meta);
        }
        assert!(res_meta.is_ok());
        let meta = res_meta.unwrap();
        assert_eq!(*metadata, meta);
    }
}

#[test]
fn serialize_empty() {
    let empty_metadata = NoteMetaData {
        note_id: id("ec511da0-b751-4fee-a10a-e1f83cd34ff8"),
        parent_id: None,
        references: Vec::new(),
        topic: "topic1".to_string(),
        path: "main".to_string(),
    };
    assert_eq!("\ntopic1\nmain", empty_metadata.serialize());
}

#[test]
fn serialize() {
    let metadata = NoteMetaData {
        note_id: id("ec511da0-b751-4fee-a10a-e1f83cd34ff8"),
        topic: "topic1".to_string(),
        path: "main".to_string(),
        parent_id: Some(id("0a0aeade-6dc0-407a-8c67-4951ef4ace7f")),
        references: vec![
            id("65d436f9-045c-4738-8bdf-d6c3b53ea059"),
            id("568acc08-74e5-4ab8-a440-42a206009c5f"),
            id("f0707063-e487-4a96-aa64-00bf6aa10e26"),
            id("de527948-aeb2-4a91-946a-d0fa231c7a99"),
        ],
    };
    let content = r"0a0aeade-6dc0-407a-8c67-4951ef4ace7f
topic1
main
65d436f9-045c-4738-8bdf-d6c3b53ea059
568acc08-74e5-4ab8-a440-42a206009c5f
f0707063-e487-4a96-aa64-00bf6aa10e26
de527948-aeb2-4a91-946a-d0fa231c7a99";
    assert_eq!(content, metadata.serialize());
}

#[test]
fn serialize_no_parent_id() {
    let metadata = NoteMetaData {
        note_id: id("ec511da0-b751-4fee-a10a-e1f83cd34ff8"),
        topic: "topic1".to_string(),
        path: "main".to_string(),
        parent_id: None,
        references: vec![
            id("65d436f9-045c-4738-8bdf-d6c3b53ea059"),
            id("568acc08-74e5-4ab8-a440-42a206009c5f"),
            id("f0707063-e487-4a96-aa64-00bf6aa10e26"),
            id("de527948-aeb2-4a91-946a-d0fa231c7a99"),
        ],
    };
    let content = r"
topic1
main
65d436f9-045c-4738-8bdf-d6c3b53ea059
568acc08-74e5-4ab8-a440-42a206009c5f
f0707063-e487-4a96-aa64-00bf6aa10e26
de527948-aeb2-4a91-946a-d0fa231c7a99";
    assert_eq!(content, metadata.serialize());
}

#[test]
fn record_round_trip_with_and_without_parent() {
    let note_id = id("ec511da0-b751-4fee-a10a-e1f83cd34ff8");
    let parents = vec![None, Some(id("0a0aeade-6dc0-407a-8c67-4951ef4ace7f"))];
    let lists = vec![
        Vec::new(),
        vec![id("65d436f9-045c-4738-8bdf-d6c3b53ea059")],
        vec![
            id("65d436f9-045c-4738-8bdf-d6c3b53ea059"),
            id("568acc08-74e5-4ab8-a440-42a206009c5f"),
            id("65d436f9-045c-4738-8bdf-d6c3b53ea059"),
        ],
    ];
    for parent_id in &parents {
        for references in &lists {
            let metadata = NoteMetaData {
                note_id,
                parent_id: *parent_id,
                references: copy_identifiers(references),
                topic: "topic1".to_string(),
                path: "main".to_string(),
            };
            let text = metadata.serialize();
            assert_eq!(3 + references.len(), text.split('\n').count());
            assert_eq!(Ok(metadata), NoteMetaData::parse_meta_file(note_id, &text));
        }
    }
}

#[test]
fn record_without_references_ends_with_the_path() {
    let metadata = NoteMetaData {
        note_id: id("ec511da0-b751-4fee-a10a-e1f83cd34ff8"),
        parent_id: Some(id("0a0aeade-6dc0-407a-8c67-4951ef4ace7f")),
        references: Vec::new(),
        topic: "t".to_string(),
        path: "p".to_string(),
    };
    assert_eq!("0a0aeade-6dc0-407a-8c67-4951ef4ace7f\nt\np", metadata.serialize());
}

fn parser_error(field: &str, detail: Option<&str>) -> ZtlnError {
    ZtlnError::ParserError(field.to_string(), detail.map(|d| d.to_string()))
}

#[test]
fn record_without_lines_is_refused() {
    let note_id = id("ec511da0-b751-4fee-a10a-e1f83cd34ff8");
    assert_eq!(
        Err(parser_error("parent_id", None)),
        NoteMetaData::parse_meta_file(note_id, "")
    );
}

#[test]
fn record_with_bad_parent_is_refused() {
    let note_id = id("ec511da0-b751-4fee-a10a-e1f83cd34ff8");
    assert_eq!(
        Err(parser_error("parent_id", Some("invalid identifier"))),
        NoteMetaData::parse_meta_file(note_id, "not-an-identifier\ntopic\nmain")
    );
}

#[test]
fn record_without_topic_is_refused() {
    let note_id = id("ec511da0-b751-4fee-a10a-e1f83cd34ff8");
    assert_eq!(
        Err(parser_error("topic", None)),
        NoteMetaData::parse_meta_file(note_id, "\n")
    );
    assert_eq!(
        Err(parser_error("topic", Some("field is empty"))),
        NoteMetaData::parse_meta_file(note_id, "\n\nmain")
    );
}

#[test]
fn record_without_path_is_refused() {
    let note_id = id("ec511da0-b751-4fee-a10a-e1f83cd34ff8");
    assert_eq!(
        Err(parser_error("path", None)),
        NoteMetaData::parse_meta_file(note_id, "\ntopic")
    );
    assert_eq!(
        Err(parser_error("path", None)),
        NoteMetaData::parse_meta_file(note_id, "\ntopic\n")
    );
    assert_eq!(
        Err(parser_error("path", Some("field is empty"))),
        NoteMetaData::parse_meta_file(note_id, "\ntopic\n\n65d436f9-045c-4738-8bdf-d6c3b53ea059")
    );
}

#[test]
fn record_with_bad_reference_is_refused() {
    let note_id = id("ec511da0-b751-4fee-a10a-e1f83cd34ff8");
    assert_eq!(
        Err(parser_error("references", Some("invalid identifier"))),
        NoteMetaData::parse_meta_file(note_id, "\ntopic\nmain\nzzz")
    );
    assert_eq!(
        Err(parser_error("references", Some("invalid identifier"))),
        NoteMetaData::parse_meta_file(
            note_id,
            "\ntopic\nmain\n\n65d436f9-045c-4738-8bdf-d6c3b53ea059"
        )
    );
}

#[test]
fn record_lines_may_end_in_carriage_return_and_line_feed() {
    let note_id = id("ec511da0-b751-4fee-a10a-e1f83cd34ff8");
    let parsed = NoteMetaData::parse_meta_file(
        note_id,
        "0a0aeade-6dc0-407a-8c67-4951ef4ace7f\r\ntopic\r\nmain\r\n65d436f9-045c-4738-8bdf-d6c3b53ea059\r\n",
    )
    .unwrap();
    assert_eq!(Some(id("0a0aeade-6dc0-407a-8c67-4951ef4ace7f")), parsed.parent_id);
    assert_eq!("topic", parsed.topic);
    assert_eq!("main", parsed.path);
    assert_eq!(vec![id("65d436f9-045c-4738-8bdf-d6c3b53ea059")], parsed.references);
}

#[test]
fn record_may_end_in_empty_lines() {
    let note_id = id("ec511da0-b751-4fee-a10a-e1f83cd34ff8");
    let parsed = NoteMetaData::parse_meta_file(
        note_id,
        "\ntopic\nmain\n65d436f9-045c-4738-8bdf-d6c3b53ea059\n\n\n",
    )
    .unwrap();
    assert_eq!(vec![id("65d436f9-045c-4738-8bdf-d6c3b53ea059")], parsed.references);
    let bare = NoteMetaData::parse_meta_file(note_id, "\ntopic\nmain\n\n").unwrap();
    assert!(bare.references.is_empty());
}

#[test]
fn record_reads_identifiers_in_upper_case_and_without_hyphens() {
    let note_id = id("ec511da0-b751-4fee-a10a-e1f83cd34ff8");
    let parsed = NoteMetaData::parse_meta_file(
        note_id,
        "0A0AEADE-6DC0-407A-8C67-4951EF4ACE7F\ntopic\nmain\n65d436f9045c47388bdfd6c3b53ea059",
    )
    .unwrap();
    assert_eq!(Some(id("0a0aeade-6dc0-407a-8c67-4951ef4ace7f")), parsed.parent_id);
    assert_eq!(vec![id("65d436f9-045c-4738-8bdf-d6c3b53ea059")], parsed.references);
}

#[test]
fn identifier_text_is_lower_case_and_hyphenated() {
    let value = Identifier { value: 0x936DA01F_9ABD_4D9D_80C7_02AF85C822A8 };
    assert_eq!("936da01f-9abd-4d9d-80c7-02af85c822a8", value.text());
    assert_eq!("936da01f", value.short());
    assert_eq!("00000000-0000-0000-0000-000000000001", Identifier { value: 1 }.text());
    assert_eq!(
        "ffffffff-ffff-ffff-ffff-ffffffffffff",
        Identifier { value: u128::MAX }.text()
    );
}

#[test]
fn identifier_is_read_from_its_texts() {
    let expected = Identifier { value: 0x936DA01F_9ABD_4D9D_80C7_02AF85C822A8 };
    assert_eq!(Some(expected), Identifier::parse_str("936DA01F-9ABD-4D9D-80C7-02AF85C822A8"));
    assert_eq!(Some(expected), Identifier::parse_str("936da01f9abd4d9d80c702af85c822a8"));
    assert_eq!(
        Some(expected),
        Identifier::parse_str("urn:uuid:936da01f-9abd-4d9d-80c7-02af85c822a8")
    );
    assert_eq!(None, Identifier::parse_str(""));
    assert_eq!(None, Identifier::parse_str("936da01f"));
    assert_eq!(None, Identifier::parse_str("936da01f-9abd-4d9d-80c7-02af85c822ag"));
    assert_eq!(None, Identifier::parse_str("936da01f-9abd-4d9d-80c7-02af85c822a\u{e9}"));
}

#[test]
fn minted_identifiers_are_read_back_and_differ() {
    let first = Identifier::mint();
    let second = Identifier::mint();
    assert_ne!(first, second);
    assert_eq!(Some(first), Identifier::parse_str(&first.text()));
    assert_eq!(36, first.text().len());
}

#[test]
fn note_is_shown_in_short_form() {
    let metadata = NoteMetaData {
        note_id: id("ec511da0-b751-4fee-a10a-e1f83cd34ff8"),
        parent_id: Some(id("0a0aeade-6dc0-407a-8c67-4951ef4ace7f")),
        references: vec![
            id("65d436f9-045c-4738-8bdf-d6c3b53ea059"),
            id("568acc08-74e5-4ab8-a440-42a206009c5f"),
        ],
        topic: "topic1".to_string(),
        path: "main".to_string(),
    };
    assert_eq!(
        "note_id:   ec511da0\nparent_id: 0a0aeade\nreferences:  - 65d436f9\n  - 568acc08\n",
        metadata.describe()
    );
    let first = NoteMetaData {
        note_id: id("ec511da0-b751-4fee-a10a-e1f83cd34ff8"),
        parent_id: None,
        references: Vec::new(),
        topic: "topic1".to_string(),
        path: "main".to_string(),
    };
    assert_eq!("note_id:   ec511da0\nparent_id: none\nreferences:", first.describe());
    assert_eq!(first, first.duplicate());
}
