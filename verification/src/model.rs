use crate::error::ErrorView;
use crate::ident::{hyphenated, short_text, Identifier};
use crate::note::{parse_record, NoteView};
use vstd::prelude::*;

verus! {

/// The index of the first element of `s` that meets `p`, or the length of
/// `s` where none does.
pub open spec fn first_match<A>(s: Seq<A>, p: spec_fn(A) -> bool) -> int
    decreases s.len(),
{
    if s.len() == 0 || p(s[0]) {
        0
    } else {
        1 + first_match(s.drop_first(), p)
    }
}

/// The first match lies within the sequence or at its end; where it lies
/// within, the element there meets `p`, and no element before it does.
pub proof fn lemma_first_match<A>(s: Seq<A>, p: spec_fn(A) -> bool)
    ensures
        0 <= first_match(s, p) <= s.len(),
        first_match(s, p) < s.len() ==> p(s[first_match(s, p)]),
        forall|i: int| 0 <= i < first_match(s, p) ==> !p(#[trigger] s[i]),
    decreases s.len(),
{
    if s.len() == 0 || p(s[0]) {
    } else {
        let t = s.drop_first();
        lemma_first_match(t, p);
        assert forall|i: int| 0 <= i < first_match(s, p) implies !p(#[trigger] s[i]) by {
            if i > 0 {
                assert(s[i] == t[i - 1]);
            }
        }
    }
}

/// The first match is where an element meets `p` and none before it does.
pub proof fn lemma_first_match_is<A>(s: Seq<A>, p: spec_fn(A) -> bool, at: int)
    requires
        0 <= at <= s.len(),
        at < s.len() ==> p(s[at]),
        forall|i: int| 0 <= i < at ==> !p(#[trigger] s[i]),
    ensures
        first_match(s, p) == at,
{
    lemma_first_match(s, p);
}

/// Whether a note's metadata is that of the note `id`.
pub open spec fn has_id(id: Identifier) -> spec_fn(NoteView) -> bool {
    |n: NoteView| n.note_id == id
}

/// Whether a note's identifier starts with the eight characters `short`.
pub open spec fn has_short(short: Seq<char>) -> spec_fn(NoteView) -> bool {
    |n: NoteView| short_text(n.note_id) == short
}

/// Whether a content is that of the note `id`.
pub open spec fn holds_id(id: Identifier) -> spec_fn(BlobView) -> bool {
    |b: BlobView| b.id == id
}

/// Whether a record that cannot be read is that of the note `id`.
pub open spec fn unread_of(id: Identifier) -> spec_fn(UnreadView) -> bool {
    |u: UnreadView| u.id == id
}

/// Whether a record that cannot be read is that of a note whose
/// identifier starts with the eight characters `short`.
pub open spec fn unread_short(short: Seq<char>) -> spec_fn(UnreadView) -> bool {
    |u: UnreadView| short_text(u.id) == short
}

/// What a path holds: the note at its head, or a text that names no note.
pub enum HeadView {
    Note(Identifier),
    Unread(Seq<char>),
}

/// A topic as the store holds it: the name of its current path, if it has
/// one, and what each of its paths holds.
pub struct TopicView {
    pub current_path: Option<Seq<char>>,
    pub heads: Map<Seq<char>, HeadView>,
}

/// A record that the store found and cannot read: the note it belongs
/// to, and its text.
pub struct UnreadView {
    pub id: Identifier,
    pub text: Seq<char>,
}

/// What is wrong with a record that cannot be read: the error that
/// reading its text gives.
pub open spec fn record_error(u: UnreadView) -> ErrorView {
    parse_record(u.id, u.text)->Err_0
}

/// The content of a note as the store holds it.
pub struct BlobView {
    pub id: Identifier,
    pub bytes: Seq<u8>,
}

/// All that a repository holds.
pub struct StoreView {
    /// The name of the current topic, once one was set.
    pub current_topic: Option<Seq<char>>,
    /// The topics, by name.
    pub topics: Map<Seq<char>, TopicView>,
    /// The metadata of the notes, in the order in which the store goes through them.
    pub notes: Seq<NoteView>,
    /// The contents of the notes.
    pub contents: Seq<BlobView>,
    /// For each keyword the notes that carry it, in the order in which they got it.
    pub keywords: Map<Seq<char>, Seq<Identifier>>,
    /// The records that the store found and cannot read.
    pub unread: Seq<UnreadView>,
    /// The bytes of the keyword index, where the store found an index
    /// that it cannot read.
    pub unread_index: Option<Seq<u8>>,
}

/// The metadata of a note as it is when the note is added.
pub open spec fn new_note(
    id: Identifier,
    parent: Option<Identifier>,
    topic: Seq<char>,
    path: Seq<char>,
) -> NoteView {
    NoteView { note_id: id, parent_id: parent, references: Seq::empty(), topic, path }
}

/// The name of the path that a topic gets when a first note comes without one.
pub open spec fn main_path() -> Seq<char> {
    "main"@
}

/// The name that stands for a topic's current path in a location.
pub open spec fn head_word() -> Seq<char> {
    "HEAD"@
}

impl StoreView {
    /// The repository right after it was made: nothing in it.
    pub open spec fn empty() -> StoreView {
        StoreView {
            current_topic: None,
            topics: Map::empty(),
            notes: Seq::empty(),
            contents: Seq::empty(),
            keywords: Map::empty(),
            unread: Seq::empty(),
            unread_index: None,
        }
    }

    /// Whether the repository has the topic.
    pub open spec fn topic_exists(self, topic: Seq<char>) -> bool {
        self.topics.contains_key(topic)
    }

    /// Whether the repository has the topic, and the topic the path.
    pub open spec fn path_exists(self, topic: Seq<char>, path: Seq<char>) -> bool {
        self.topics.contains_key(topic) && self.topics[topic].heads.contains_key(path)
    }

    /// The note at the head of a path, where the path exists and holds one.
    pub open spec fn head(self, topic: Seq<char>, path: Seq<char>) -> Option<Identifier> {
        if self.path_exists(topic, path) {
            match self.topics[topic].heads[path] {
                HeadView::Note(id) => Some(id),
                HeadView::Unread(_) => None,
            }
        } else {
            None
        }
    }

    /// Whether the path exists and holds a text that names no note.
    pub open spec fn unreadable(self, topic: Seq<char>, path: Seq<char>) -> bool {
        self.path_exists(topic, path) && self.topics[topic].heads[path] is Unread
    }

    /// The name of a topic's current path, where the topic exists and has one.
    pub open spec fn current_path(self, topic: Seq<char>) -> Option<Seq<char>> {
        if self.topic_exists(topic) {
            self.topics[topic].current_path
        } else {
            None
        }
    }

    /// Where the metadata of the note `id` stands among the notes, or
    /// their number where the store has none for it.
    pub open spec fn note_index(self, id: Identifier) -> int {
        first_match(self.notes, has_id(id))
    }

    /// The metadata of the note `id`.
    pub open spec fn note(self, id: Identifier) -> Option<NoteView> {
        if self.note_index(id) < self.notes.len() {
            Some(self.notes[self.note_index(id)])
        } else {
            None
        }
    }

    /// The content of the note `id`.
    pub open spec fn content(self, id: Identifier) -> Option<Seq<u8>> {
        let i = first_match(self.contents, holds_id(id));
        if i < self.contents.len() {
            Some(self.contents[i].bytes)
        } else {
            None
        }
    }

    /// The first note, in the store's order, whose identifier starts
    /// with the eight characters `short`.
    pub open spec fn note_by_short(self, short: Seq<char>) -> Option<NoteView> {
        let i = first_match(self.notes, has_short(short));
        if i < self.notes.len() {
            Some(self.notes[i])
        } else {
            None
        }
    }

    /// What is wrong with the record of the note `id`, where the store
    /// has a record for it that it cannot read.
    pub open spec fn defect(self, id: Identifier) -> Option<ErrorView> {
        let i = first_match(self.unread, unread_of(id));
        if i < self.unread.len() {
            Some(record_error(self.unread[i]))
        } else {
            None
        }
    }

    /// What reading the metadata of the note `id` gives: the metadata
    /// that the store has for it; else the error of the record that it
    /// cannot read; else nothing.
    pub open spec fn record(self, id: Identifier) -> Result<Option<NoteView>, ErrorView> {
        match self.note(id) {
            Some(n) => Ok(Some(n)),
            None => match self.defect(id) {
                Some(e) => Err(e),
                None => Ok(None),
            },
        }
    }

    /// What looking for a note by the first eight characters `short` of
    /// its identifier gives: the first such note, in the store's order,
    /// among those it can read; else the error of the first such record
    /// that it cannot read; else nothing.
    pub open spec fn found_by_short(self, short: Seq<char>) -> Result<Option<NoteView>, ErrorView> {
        match self.note_by_short(short) {
            Some(n) => Ok(Some(n)),
            None => {
                let i = first_match(self.unread, unread_short(short));
                if i < self.unread.len() {
                    Err(record_error(self.unread[i]))
                } else {
                    Ok(None)
                }
            },
        }
    }

    /// The note reached from the note `head` by following the parent
    /// `steps` times: nothing as soon as there is no note to go on from,
    /// and an error as soon as a record is reached that cannot be read.
    pub open spec fn trace(self, head: Option<Identifier>, steps: nat) -> Result<
        Option<NoteView>,
        ErrorView,
    >
        decreases steps,
    {
        match head {
            None => Ok(None),
            Some(id) => match self.record(id) {
                Err(e) => Err(e),
                Ok(None) => Ok(None),
                Ok(Some(n)) => if steps == 0 {
                    Ok(Some(n))
                } else {
                    self.trace(n.parent_id, (steps - 1) as nat)
                },
            },
        }
    }

    /// The metadata of the notes `ids`, in their order and without those
    /// that the store has no record of; the error of the first record
    /// among them that cannot be read.
    pub open spec fn gathered(self, ids: Seq<Identifier>) -> Result<Seq<NoteView>, ErrorView>
        decreases ids.len(),
    {
        if ids.len() == 0 {
            Ok(Seq::empty())
        } else {
            match self.gathered(ids.drop_last()) {
                Err(e) => Err(e),
                Ok(notes) => match self.record(ids.last()) {
                    Err(e) => Err(e),
                    Ok(Some(n)) => Ok(notes.push(n)),
                    Ok(None) => Ok(notes),
                },
            }
        }
    }

    /// The notes that carry a keyword, in the order in which they got it.
    pub open spec fn tagged(self, keyword: Seq<char>) -> Seq<Identifier> {
        if self.keywords.contains_key(keyword) {
            self.keywords[keyword]
        } else {
            Seq::empty()
        }
    }

    /// Whether the store already has a record or content for `id`.
    pub open spec fn collides(self, id: Identifier) -> bool {
        self.note(id) is Some || self.defect(id) is Some || self.content(id) is Some
    }

    /// The store with the topic `topic`: a new one, without paths, where
    /// it had none of that name.
    pub open spec fn with_topic(self, topic: Seq<char>) -> StoreView {
        if self.topic_exists(topic) {
            self
        } else {
            StoreView {
                topics: self.topics.insert(
                    topic,
                    TopicView { current_path: None, heads: Map::empty() },
                ),
                ..self
            }
        }
    }

    /// The store with `topic` as the name of its current topic.
    pub open spec fn with_current_topic(self, topic: Seq<char>) -> StoreView {
        StoreView { current_topic: Some(topic), ..self }
    }

    /// The store with `id` at the head of the path, which it gets if it has none.
    pub open spec fn with_head(self, topic: Seq<char>, path: Seq<char>, id: Identifier) -> StoreView {
        StoreView {
            topics: self.topics.insert(
                topic,
                TopicView {
                    heads: self.topics[topic].heads.insert(path, HeadView::Note(id)),
                    ..self.topics[topic]
                },
            ),
            ..self
        }
    }

    /// The store with `path` as the name of the current path of the topic.
    pub open spec fn with_current_path(self, topic: Seq<char>, path: Seq<char>) -> StoreView {
        StoreView {
            topics: self.topics.insert(
                topic,
                TopicView { current_path: Some(path), ..self.topics[topic] },
            ),
            ..self
        }
    }

    /// The store without the path, and with all its notes.
    pub open spec fn without_path(self, topic: Seq<char>, path: Seq<char>) -> StoreView {
        StoreView {
            topics: self.topics.insert(
                topic,
                TopicView { heads: self.topics[topic].heads.remove(path), ..self.topics[topic] },
            ),
            ..self
        }
    }

    /// The store with `note` as the metadata of its note: in the place
    /// of the metadata that the note had, or after all the others.
    pub open spec fn with_note(self, note: NoteView) -> StoreView {
        let i = self.note_index(note.note_id);
        StoreView {
            notes: if i < self.notes.len() {
                self.notes.update(i, note)
            } else {
                self.notes.push(note)
            },
            ..self
        }
    }

    /// The store with `bytes` as one content more, that of the note `id`.
    pub open spec fn with_content(self, id: Identifier, bytes: Seq<u8>) -> StoreView {
        StoreView { contents: self.contents.push(BlobView { id, bytes }), ..self }
    }

    /// The store with the note `id` under `keyword` once more.
    pub open spec fn with_keyword(self, keyword: Seq<char>, id: Identifier) -> StoreView {
        StoreView { keywords: self.keywords.insert(keyword, self.tagged(keyword).push(id)), ..self }
    }

    /// The store after a note was added to a path: the note's parent is
    /// the head that the path had, if it had one, and the note is its new head.
    pub open spec fn with_new_note(
        self,
        id: Identifier,
        topic: Seq<char>,
        path: Seq<char>,
        bytes: Seq<u8>,
    ) -> StoreView {
        self.with_note(new_note(id, self.head(topic, path), topic, path)).with_content(
            id,
            bytes,
        ).with_head(topic, path, id)
    }
}

/// Where the first of some notes cannot be gathered, going on to more
/// notes gives the same error.
pub proof fn lemma_gathered_fails(s: StoreView, ids: Seq<Identifier>, k: int)
    requires
        0 <= k <= ids.len(),
        s.gathered(ids.take(k)) is Err,
    ensures
        s.gathered(ids) == s.gathered(ids.take(k)),
    decreases ids.len() - k,
{
    if k == ids.len() {
        assert(ids.take(k) =~= ids);
    } else {
        assert(ids.take(k + 1).drop_last() =~= ids.take(k));
        lemma_gathered_fails(s, ids, k + 1);
    }
}

/// What the store says of a topic that it does not hold.
pub open spec fn no_topic_text(topic: Seq<char>) -> Seq<char> {
    "Topic '"@ + topic + "' does not exist."@
}

/// What the store says of a path that it does not hold.
pub open spec fn no_path_text(topic: Seq<char>, path: Seq<char>) -> Seq<char> {
    "Path '"@ + topic + "/"@ + path + "' does not exist."@
}

/// What the store says of a path that holds no identifier.
pub open spec fn bad_path_text(topic: Seq<char>, path: Seq<char>) -> Seq<char> {
    "Path '"@ + topic + "/"@ + path + "' holds no identifier."@
}

/// What the store says of a keyword index that it cannot read.
pub open spec fn bad_index_text() -> Seq<char> {
    "The keyword index cannot be read."@
}

/// What the store says of a note that it holds already.
pub open spec fn collision_text(id: Identifier) -> Seq<char> {
    "Note '"@ + hyphenated(id) + "' does already exist."@
}

/// What the store says of a note whose content it does not hold.
pub open spec fn no_content_text(id: Identifier) -> Seq<char> {
    "Note '"@ + hyphenated(id) + "' has no content."@
}

/// What the store says of a note whose metadata it does not hold.
pub open spec fn no_metadata_text(id: Identifier) -> Seq<char> {
    "Note '"@ + hyphenated(id) + "' has no metadata."@
}

} // verus!
