use crate::error::{ErrorView, ZtlnError};
use crate::ident::{hyphenated, identifier_of, lemma_hyphenated_shape, reads_back, short_text, Identifier};
use crate::text::{
    holds, lemma_lines_of_first, lemma_lines_of_last, lines_of, one_line, split_lines,
};
use vstd::prelude::*;
use vstd::string::*;

verus! {

/// What is recorded of a note beside its content.
#[derive(Debug, Clone, PartialEq)]
pub struct NoteMetaData {
    /// The note's own identifier.
    pub note_id: Identifier,
    /// The note that was at the head of the path when this one was added.
    pub parent_id: Option<Identifier>,
    /// The notes this one refers to, in the order the references were made.
    pub references: Vec<Identifier>,
    /// The topic the note was added to.
    pub topic: String,
    /// The path the note was added to.
    pub path: String,
}

/// The mathematical value of a [`NoteMetaData`].
pub struct NoteView {
    pub note_id: Identifier,
    pub parent_id: Option<Identifier>,
    pub references: Seq<Identifier>,
    pub topic: Seq<char>,
    pub path: Seq<char>,
}

impl View for NoteMetaData {
    type V = NoteView;

    open spec fn view(&self) -> NoteView {
        NoteView {
            note_id: self.note_id,
            parent_id: self.parent_id,
            references: self.references@,
            topic: self.topic@,
            path: self.path@,
        }
    }
}

/// The value of metadata that may be absent.
pub open spec fn found_view(note: Option<NoteMetaData>) -> Option<NoteView> {
    match note {
        Some(n) => Some(n@),
        None => None,
    }
}

/// The values of a sequence of metadata.
pub open spec fn note_views(notes: Seq<NoteMetaData>) -> Seq<NoteView> {
    notes.map_values(|n: NoteMetaData| n@)
}

/// The first line of a record: the parent's canonical text, or nothing.
pub open spec fn parent_text(parent: Option<Identifier>) -> Seq<char> {
    match parent {
        Some(id) => hyphenated(id@),
        None => Seq::empty(),
    }
}

/// The end of a record: each reference on a line of its own, after a line feed.
pub open spec fn references_text(references: Seq<Identifier>) -> Seq<char>
    decreases references.len(),
{
    if references.len() == 0 {
        Seq::empty()
    } else {
        seq!['\n'] + hyphenated(references[0]@) + references_text(references.drop_first())
    }
}

/// The record of a note: the parent's identifier or an empty line, the
/// topic, the path, then one line for each reference. No line feed ends it.
pub open spec fn record_text(m: NoteView) -> Seq<char> {
    parent_text(m.parent_id) + seq!['\n'] + m.topic + seq!['\n'] + m.path + references_text(
        m.references,
    )
}

/// The lines without the empty lines at their end.
pub open spec fn without_empty_end(lines: Seq<Seq<char>>) -> Seq<Seq<char>>
    decreases lines.len(),
{
    if lines.len() > 0 && lines.last().len() == 0 {
        without_empty_end(lines.drop_last())
    } else {
        lines
    }
}

/// The identifiers that the lines hold, where every line holds one.
pub open spec fn references_of(lines: Seq<Seq<char>>) -> Option<Seq<Identifier>> {
    if forall|i: int| 0 <= i < lines.len() ==> (#[trigger] identifier_of(lines[i])) is Some {
        Some(Seq::new(lines.len(), |i: int| identifier_of(lines[i])->0))
    } else {
        None
    }
}

/// What a record is read as. The first line is the parent, or empty; the
/// second the topic and the third the path, neither empty; each further
/// line is a reference, empty lines at the end apart.
pub open spec fn parse_record(note_id: Identifier, content: Seq<char>) -> Result<
    NoteView,
    ErrorView,
> {
    let lines = lines_of(content);
    if lines.len() < 1 {
        Err(ErrorView::ParserError("parent_id"@, None))
    } else if lines[0].len() > 0 && identifier_of(lines[0]) is None {
        Err(ErrorView::ParserError("parent_id"@, Some("invalid identifier"@)))
    } else if lines.len() < 2 {
        Err(ErrorView::ParserError("topic"@, None))
    } else if lines[1].len() == 0 {
        Err(ErrorView::ParserError("topic"@, Some("field is empty"@)))
    } else if lines.len() < 3 {
        Err(ErrorView::ParserError("path"@, None))
    } else if lines[2].len() == 0 {
        Err(ErrorView::ParserError("path"@, Some("field is empty"@)))
    } else {
        match references_of(without_empty_end(lines.skip(3))) {
            None => Err(ErrorView::ParserError("references"@, Some("invalid identifier"@))),
            Some(references) => Ok(
                NoteView {
                    note_id,
                    parent_id: if lines[0].len() == 0 {
                        None
                    } else {
                        identifier_of(lines[0])
                    },
                    references,
                    topic: lines[1],
                    path: lines[2],
                },
            ),
        }
    }
}

/// The short form of an identifier that may be absent.
pub open spec fn short_or_none(id: Option<Identifier>) -> Seq<char> {
    match id {
        Some(i) => short_text(i@),
        None => "none"@,
    }
}

/// The lines that show the references of a note.
pub open spec fn references_shown(references: Seq<Identifier>) -> Seq<char>
    decreases references.len(),
{
    if references.len() == 0 {
        Seq::empty()
    } else {
        references_shown(references.drop_last()) + "  - "@ + short_text(references.last()@)
            + "\n"@
    }
}

/// What is shown of a note: its identifier, its parent and its references,
/// each in short form.
pub open spec fn shown(m: NoteView) -> Seq<char> {
    "note_id:   "@ + short_text(m.note_id@) + "\n"@ + "parent_id: "@ + short_or_none(m.parent_id)
        + "\n"@ + "references:"@ + references_shown(m.references)
}

/// A copy of a list of identifiers.
pub fn copy_identifiers(ids: &Vec<Identifier>) -> (r: Vec<Identifier>)
    ensures
        r@ == ids@,
{
    let mut r: Vec<Identifier> = Vec::new();
    let mut i: usize = 0;
    while i < ids.len()
        invariant
            i <= ids.len(),
            r@ == ids@.take(i as int),
        decreases ids.len() - i,
    {
        r.push(ids[i]);
        proof {
            assert(ids@.take(i + 1) =~= ids@.take(i as int).push(ids@[i as int]));
        }
        i += 1;
    }
    proof {
        assert(ids@.take(ids.len() as int) =~= ids@);
    }
    r
}

proof fn lemma_references_text_push(references: Seq<Identifier>, last: Identifier)
    ensures
        references_text(references.push(last)) == references_text(references) + seq!['\n']
            + hyphenated(last@),
    decreases references.len(),
{
    let all = references.push(last);
    if references.len() == 0 {
        assert(all.drop_first() =~= Seq::<Identifier>::empty());
        assert(references_text(all) =~= seq!['\n'] + hyphenated(last@) + references_text(
            all.drop_first(),
        ));
        assert(references_text(all) =~= references_text(references) + seq!['\n'] + hyphenated(
            last@,
        ));
    } else {
        assert(all.drop_first() =~= references.drop_first().push(last));
        lemma_references_text_push(references.drop_first(), last);
        assert(references_text(all) =~= references_text(references) + seq!['\n'] + hyphenated(
            last@,
        ));
    }
}

impl NoteMetaData {
    /// A copy of this metadata.
    pub fn duplicate(&self) -> (r: NoteMetaData)
        ensures
            r@ == self@,
    {
        NoteMetaData {
            note_id: self.note_id,
            parent_id: self.parent_id,
            references: copy_identifiers(&self.references),
            topic: self.topic.clone(),
            path: self.path.clone(),
        }
    }

    /// Reads the record of the note `uuid` from the text `content`.
    #[verifier::loop_isolation(false)]
    pub fn parse_meta_file(uuid: Identifier, content: &str) -> (r: Result<NoteMetaData, ZtlnError>)
        ensures
            match r {
                Ok(m) => parse_record(uuid, content@) == Ok::<NoteView, ErrorView>(m@),
                Err(e) => parse_record(uuid, content@) == Err::<NoteView, ErrorView>(e@),
            },
            r matches Ok(m) ==> (m.parent_id matches Some(p) ==> reads_back(p@)) && (forall|
                i: int,
            | 0 <= i < m.references@.len() ==> reads_back(#[trigger] m.references@[i]@)),
    {
        let lines = split_lines(content);
        let ghost all = lines_of(content@);
        assert(all.len() == lines@.len());
        assert(forall|i: int| 0 <= i < lines@.len() ==> #[trigger] lines@[i]@ == all[i]);
        if lines.len() < 1 {
            return Err(ZtlnError::ParserError(String::from_str("parent_id"), None));
        }
        let parent_id = if lines[0].as_str().unicode_len() > 0 {
            match Identifier::parse_str(lines[0].as_str()) {
                Some(id) => Some(id),
                None => {
                    return Err(
                        ZtlnError::ParserError(
                            String::from_str("parent_id"),
                            Some(String::from_str("invalid identifier")),
                        ),
                    );
                },
            }
        } else {
            None
        };
        if lines.len() < 2 {
            return Err(ZtlnError::ParserError(String::from_str("topic"), None));
        }
        if lines[1].as_str().unicode_len() == 0 {
            return Err(
                ZtlnError::ParserError(
                    String::from_str("topic"),
                    Some(String::from_str("field is empty")),
                ),
            );
        }
        if lines.len() < 3 {
            return Err(ZtlnError::ParserError(String::from_str("path"), None));
        }
        if lines[2].as_str().unicode_len() == 0 {
            return Err(
                ZtlnError::ParserError(
                    String::from_str("path"),
                    Some(String::from_str("field is empty")),
                ),
            );
        }
        let mut end: usize = lines.len();
        while end > 3 && lines[end - 1].as_str().unicode_len() == 0
            invariant
                3 <= end <= lines.len(),
                all.len() == lines@.len(),
                forall|i: int| 0 <= i < lines@.len() ==> #[trigger] lines@[i]@ == all[i],
                without_empty_end(all.skip(3)) == without_empty_end(all.subrange(3, end as int)),
            decreases end,
        {
            proof {
                let cut = all.subrange(3, end as int);
                assert(cut.last() == all[end - 1]);
                assert(cut.drop_last() =~= all.subrange(3, end - 1));
            }
            end -= 1;
        }
        let ghost kept = all.subrange(3, end as int);
        proof {
            if end > 3 {
                assert(kept.last() == all[end - 1]);
            }
            assert(without_empty_end(kept) == kept);
        }
        let mut references: Vec<Identifier> = Vec::new();
        let mut i: usize = 3;
        while i < end
            invariant
                3 <= i <= end <= lines.len(),
                all.len() == lines@.len(),
                kept == all.subrange(3, end as int),
                forall|j: int| 0 <= j < lines@.len() ==> #[trigger] lines@[j]@ == all[j],
                references@.len() == i - 3,
                forall|j: int|
                    0 <= j < i - 3 ==> identifier_of(kept[j]) == Some(#[trigger] references@[j]),
                forall|j: int| 0 <= j < i - 3 ==> reads_back(#[trigger] references@[j]@),
            decreases end - i,
        {
            match Identifier::parse_str(lines[i].as_str()) {
                Some(id) => {
                    references.push(id);
                },
                None => {
                    proof {
                        assert(identifier_of(kept[i - 3]) is None);
                        assert(references_of(kept) is None);
                    }
                    return Err(
                        ZtlnError::ParserError(
                            String::from_str("references"),
                            Some(String::from_str("invalid identifier")),
                        ),
                    );
                },
            }
            i += 1;
        }
        proof {
            assert forall|j: int| 0 <= j < kept.len() implies (#[trigger] identifier_of(
                kept[j],
            )) is Some by {
                assert(identifier_of(kept[j]) == Some(references@[j]));
            }
            assert(references_of(kept)->0 =~= references@);
        }
        Ok(
            NoteMetaData {
                note_id: uuid,
                parent_id,
                references,
                topic: lines[1].clone(),
                path: lines[2].clone(),
            },
        )
    }

    /// The record of this note, as it is stored. Where the topic and the
    /// path are each a single line, and not empty, the record is read back
    /// as this metadata.
    pub fn serialize(&self) -> (r: String)
        ensures
            r@ == record_text(self@),
            plain(self@) ==> storable(self@) && parse_record(self.note_id, r@) == Ok::<
                NoteView,
                ErrorView,
            >(self@),
    {
        let mut content = match self.parent_id {
            Some(id) => id.text(),
            None => String::new(),
        };
        proof {
            reveal_strlit("\n");
            assert("\n"@ =~= seq!['\n']);
        }
        content.append("\n");
        content.append(self.topic.as_str());
        content.append("\n");
        content.append(self.path.as_str());
        let ghost head = content@;
        let mut i: usize = 0;
        proof {
            assert(self.references@.take(0) =~= Seq::<Identifier>::empty());
            assert(head + references_text(self.references@.take(0)) =~= head);
        }
        while i < self.references.len()
            invariant
                i <= self.references.len(),
                "\n"@ == seq!['\n'],
                content@ == head + references_text(self.references@.take(i as int)),
                forall|j: int| 0 <= j < i ==> reads_back(#[trigger] self.references@[j]),
            decreases self.references.len() - i,
        {
            let text = self.references[i].text();
            proof {
                let done = self.references@.take(i as int);
                lemma_references_text_push(done, self.references@[i as int]);
                assert(self.references@.take(i + 1) =~= done.push(self.references@[i as int]));
                assert(content@ + seq!['\n'] + text@ =~= head + (references_text(done) + seq!['\n']
                    + text@));
            }
            content.append("\n");
            content.append(text.as_str());
            i += 1;
        }
        proof {
            assert(self.references@.take(self.references.len() as int) =~= self.references@);
            if plain(self@) {
                law_record_round_trip(self@);
            }
        }
        content
    }

    /// What is shown of this note to a user.
    pub fn describe(&self) -> (r: String)
        ensures
            r@ == shown(self@),
    {
        let mut out = String::from_str("note_id:   ");
        out.append(self.note_id.short().as_str());
        out.append("\n");
        out.append("parent_id: ");
        match self.parent_id {
            Some(id) => {
                out.append(id.short().as_str());
            },
            None => {
                out.append("none");
            },
        }
        out.append("\n");
        out.append("references:");
        let ghost head = out@;
        let mut i: usize = 0;
        proof {
            assert(self.references@.take(0) =~= Seq::<Identifier>::empty());
            assert(head + references_shown(self.references@.take(0)) =~= head);
        }
        while i < self.references.len()
            invariant
                i <= self.references.len(),
                out@ == head + references_shown(self.references@.take(i as int)),
            decreases self.references.len() - i,
        {
            let short = self.references[i].short();
            proof {
                let next = self.references@.take(i + 1);
                assert(next.drop_last() =~= self.references@.take(i as int));
                assert(next.last() == self.references@[i as int]);
                assert(out@ + "  - "@ + short@ + "\n"@ =~= head + references_shown(next));
            }
            out.append("  - ");
            out.append(short.as_str());
            out.append("\n");
            i += 1;
        }
        proof {
            assert(self.references@.take(self.references.len() as int) =~= self.references@);
        }
        out
    }
}

/// Metadata whose topic and path are each a single line, and not empty.
pub open spec fn plain(m: NoteView) -> bool {
    &&& one_line(m.topic) && m.topic.len() > 0
    &&& one_line(m.path) && m.path.len() > 0
}

/// Metadata that is stored and read back unchanged: its identifiers are
/// read back from their canonical texts, as `serialize` finds of each, and
/// its topic and its path are each a single line, and not empty.
pub open spec fn storable(m: NoteView) -> bool {
    &&& m.parent_id matches Some(p) ==> reads_back(p@)
    &&& forall|i: int| 0 <= i < m.references.len() ==> reads_back(#[trigger] m.references[i]@)
    &&& plain(m)
}

/// The canonical texts of a list of identifiers.
pub open spec fn texts(references: Seq<Identifier>) -> Seq<Seq<char>> {
    Seq::new(references.len(), |i: int| hyphenated(references[i]@))
}

proof fn lemma_lines_of_with_references(line: Seq<char>, references: Seq<Identifier>)
    requires
        one_line(line),
        line.len() > 0,
    ensures
        lines_of(line + references_text(references)) == seq![line] + texts(references),
    decreases references.len(),
{
    if references.len() == 0 {
        assert(line + references_text(references) =~= line);
        lemma_lines_of_last(line);
        assert(seq![line] + texts(references) =~= seq![line]);
    } else {
        let first = hyphenated(references[0]@);
        let rest = references.drop_first();
        lemma_hyphenated_shape(references[0]@);
        lemma_lines_of_with_references(first, rest);
        lemma_lines_of_first(line, first + references_text(rest));
        assert(line + references_text(references) =~= line + seq!['\n'] + (first
            + references_text(rest)));
        assert(seq![line] + (seq![first] + texts(rest)) =~= seq![line] + texts(references));
    }
}

proof fn lemma_without_empty_end_texts(references: Seq<Identifier>)
    ensures
        without_empty_end(texts(references)) == texts(references),
{
    if references.len() > 0 {
        lemma_hyphenated_shape(references.last()@);
        assert(texts(references).last() == hyphenated(references.last()@));
    }
}

/// Round trip of a record. Writing the record of metadata that is
/// storable and reading it back gives the metadata again: with or
/// without a parent, with any number of references. The record has a
/// line for the parent, one for the topic, one for the path and one for
/// each reference: three lines and no more where there is no reference.
pub proof fn law_record_round_trip(m: NoteView)
    requires
        storable(m),
    ensures
        parse_record(m.note_id, record_text(m)) == Ok::<NoteView, ErrorView>(m),
        m.references.len() == 0 ==> lines_of(record_text(m)).len() == 3,
        lines_of(record_text(m)).len() == 3 + m.references.len(),
{
    let parent = parent_text(m.parent_id);
    let tail = m.path + references_text(m.references);
    if m.parent_id is Some {
        lemma_hyphenated_shape(m.parent_id->0@);
    } else {
        assert(!holds(parent, '\n'));
    }
    lemma_lines_of_with_references(m.path, m.references);
    lemma_lines_of_first(m.topic, tail);
    lemma_lines_of_first(parent, m.topic + seq!['\n'] + tail);
    assert(record_text(m) =~= parent + seq!['\n'] + (m.topic + seq!['\n'] + tail));
    let lines = lines_of(record_text(m));
    assert(lines =~= seq![parent, m.topic, m.path] + texts(m.references));
    assert(lines.skip(3) =~= texts(m.references));
    lemma_without_empty_end_texts(m.references);
    let kept = texts(m.references);
    assert forall|i: int| 0 <= i < kept.len() implies identifier_of(#[trigger] kept[i]) == Some(
        m.references[i],
    ) by {
        assert(reads_back(m.references[i]@));
    }
    assert(references_of(kept) is Some);
    assert(references_of(kept)->0 =~= m.references);
    if m.parent_id is Some {
        assert(reads_back(m.parent_id->0@));
        assert(identifier_of(parent) == m.parent_id);
    }
}

} // verus!
