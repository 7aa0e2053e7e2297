use crate::error::{ErrorView, StoreError, ZtlnError};
use crate::ident::{hyphenated, Identifier};
use crate::model::{
    bad_index_text, bad_path_text, collision_text, first_match, has_id, has_short, holds_id,
    lemma_first_match_is, lemma_gathered_fails, new_note, no_content_text, no_path_text,
    no_topic_text, record_error,
    unread_of, unread_short, BlobView, HeadView, StoreView, TopicView, UnreadView,
};
use crate::note::{found_view, note_views, parse_record, NoteMetaData, NoteView};
use crate::index::{
    bytes_of_index, decode_index, encode_index, entries_of_table, entry_names,
    index_of_entries, table_of_entries,
};
use crate::snapshot::{
    complete, file_names, head_text, invalid_structure_text, loaded,
    loaded_contents, loaded_heads, loaded_notes, loaded_topics, loaded_unread,
    not_directory_text, note_of_file, saved, saved_files, topic_names, topic_saved, BlobFile,
    Snapshot, TextFile, TopicFiles,
};
use crate::table::NameTable;
use crate::text::{increasing, name_view, str_eq, views};
use vstd::prelude::*;
use vstd::string::*;

verus! {

/// The keywords of a list of keywords with their counts.
pub open spec fn counted_names(counts: Seq<(String, usize)>) -> Seq<Seq<char>> {
    counts.map_values(|c: (String, usize)| c.0@)
}

/// What `init` says of a place that is taken.
pub open spec fn occupied_text(base_dir: Seq<char>) -> Seq<char> {
    "Given directory '"@ + base_dir + "' already exists."@
}

/// A copy of a name that may be absent.
pub fn copy_name(name: &Option<String>) -> (r: Option<String>)
    ensures
        name_view(r) == name_view(*name),
{
    match name {
        Some(n) => Some(n.clone()),
        None => None,
    }
}

fn no_topic_error(topic: &str) -> (e: StoreError)
    ensures
        e@ == no_topic_text(topic@),
{
    let mut s = String::from_str("Topic '");
    s.append(topic);
    s.append("' does not exist.");
    StoreError::new(s)
}

fn no_path_error(topic: &str, path: &str) -> (e: StoreError)
    ensures
        e@ == no_path_text(topic@, path@),
{
    let mut s = String::from_str("Path '");
    s.append(topic);
    s.append("/");
    s.append(path);
    s.append("' does not exist.");
    StoreError::new(s)
}

fn collision_error(id: Identifier) -> (e: StoreError)
    ensures
        e@ == collision_text(id),
{
    let mut s = String::from_str("Note '");
    s.append(id.text().as_str());
    s.append("' does already exist.");
    StoreError::new(s)
}

fn no_content_error(id: Identifier) -> (e: StoreError)
    ensures
        e@ == no_content_text(id),
{
    let mut s = String::from_str("Note '");
    s.append(id.text().as_str());
    s.append("' has no content.");
    StoreError::new(s)
}

fn bad_path_error(topic: &str, path: &str) -> (e: StoreError)
    ensures
        e@ == bad_path_text(topic@, path@),
{
    let mut s = String::from_str("Path '");
    s.append(topic);
    s.append("/");
    s.append(path);
    s.append("' holds no identifier.");
    StoreError::new(s)
}

fn bad_index_error() -> (e: StoreError)
    ensures
        e@ == bad_index_text(),
{
    StoreError::new(String::from_str("The keyword index cannot be read."))
}

/// What a path holds: the note at its head, or a text that names no note.
#[derive(Debug)]
enum Head {
    Note(Identifier),
    Unread(String),
}

impl View for Head {
    type V = HeadView;

    closed spec fn view(&self) -> HeadView {
        match self {
            Head::Note(id) => HeadView::Note(*id),
            Head::Unread(text) => HeadView::Unread(text@),
        }
    }
}

/// A record that was found and cannot be read.
#[derive(Debug)]
struct Unread {
    id: Identifier,
    text: String,
}

impl View for Unread {
    type V = UnreadView;

    closed spec fn view(&self) -> UnreadView {
        UnreadView { id: self.id, text: self.text@ }
    }
}

/// A topic: the name of its current path and what its paths hold.
#[derive(Debug)]
struct Topic {
    current_path: Option<String>,
    paths: NameTable<Head>,
}

impl View for Topic {
    type V = TopicView;

    closed spec fn view(&self) -> TopicView {
        TopicView { current_path: name_view(self.current_path), heads: self.paths@ }
    }
}

impl Topic {
    closed spec fn wf(&self) -> bool {
        self.paths.wf()
    }
}

/// The content of a note.
#[derive(Debug)]
struct Blob {
    id: Identifier,
    bytes: Vec<u8>,
}

impl View for Blob {
    type V = BlobView;

    closed spec fn view(&self) -> BlobView {
        BlobView { id: self.id, bytes: self.bytes@ }
    }
}

/// A repository: its topics and their paths, the notes with their
/// metadata and content, and the keyword index. It checks no rule of the
/// engine: it holds what it is given. What it found in a file and cannot
/// read it keeps as it was found, and says so when it is asked for it.
#[derive(Debug)]
pub struct Store {
    base_dir: String,
    current_topic: Option<String>,
    topics: NameTable<Topic>,
    notes: Vec<NoteMetaData>,
    contents: Vec<Blob>,
    keywords: NameTable<Vec<Identifier>>,
    unread: Vec<Unread>,
    unread_index: Option<Vec<u8>>,
}

/// The value of bytes that may be absent.
pub open spec fn bytes_view(bytes: Option<Vec<u8>>) -> Option<Seq<u8>> {
    match bytes {
        Some(b) => Some(b@),
        None => None,
    }
}

impl View for Store {
    type V = StoreView;

    closed spec fn view(&self) -> StoreView {
        StoreView {
            current_topic: name_view(self.current_topic),
            topics: self.topics@,
            notes: note_views(self.notes@),
            contents: self.contents@.map_values(|b: Blob| b@),
            keywords: self.keywords@,
            unread: self.unread@.map_values(|u: Unread| u@),
            unread_index: bytes_view(self.unread_index),
        }
    }
}

impl Store {
    /// What every store is that `init` or `attach` returned, whatever was
    /// done with it since: its tables are in order.
    pub closed spec fn wf(&self) -> bool {
        &&& self.topics.wf()
        &&& forall|t: Topic| #[trigger] self.topics.items().contains(t) ==> t.wf()
        &&& self.keywords.wf()
        &&& forall|i: int|
            0 <= i < self.unread@.len() ==> parse_record(
                (#[trigger] self.unread@[i]).id,
                self.unread@[i].text@,
            ) is Err
    }

    /// Where the repository is kept.
    pub closed spec fn location(&self) -> Seq<char> {
        self.base_dir@
    }

    /// Makes a new, empty repository for the place `base_dir`. `occupied`
    /// says whether something is at that place already.
    pub fn init(base_dir: &str, occupied: bool) -> (r: Result<Store, StoreError>)
        ensures
            match r {
                Ok(s) => !occupied && s.wf() && s@ == StoreView::empty() && s.location()
                    == base_dir@,
                Err(e) => occupied && e@ == occupied_text(base_dir@),
            },
    {
        if occupied {
            let mut s = String::from_str("Given directory '");
            s.append(base_dir);
            s.append("' already exists.");
            return Err(StoreError::new(s));
        }
        let store = Store {
            base_dir: String::from_str(base_dir),
            current_topic: None,
            topics: NameTable::new(),
            notes: Vec::new(),
            contents: Vec::new(),
            keywords: NameTable::new(),
            unread: Vec::new(),
            unread_index: None,
        };
        proof {
            assert(store@.notes =~= Seq::<NoteView>::empty());
            assert(store@.contents =~= Seq::<BlobView>::empty());
            assert(store@.unread =~= Seq::<UnreadView>::empty());
        }
        Ok(store)
    }

    /// The place where the repository is kept.
    pub fn base_dir(&self) -> (r: &str)
        ensures
            r@ == self.location(),
    {
        self.base_dir.as_str()
    }

    /// The name of the current topic, if one was set.
    pub fn get_current_topic(&self) -> (r: Result<Option<String>, StoreError>)
        ensures
            r matches Ok(t) && name_view(t) == self@.current_topic,
    {
        Ok(copy_name(&self.current_topic))
    }

    /// The names of the topics, in order.
    pub fn get_topics(&self) -> (r: Result<Vec<String>, StoreError>)
        requires
            self.wf(),
        ensures
            r matches Ok(names) && increasing(views(names@)) && forall|k: Seq<char>|
                views(names@).contains(k) <==> self@.topic_exists(k),
    {
        proof {
            self.topics.lemma_listing();
        }
        Ok(self.topics.list())
    }

    /// Makes the topic `topic`, without paths, unless the store has it.
    pub fn create_topic(&mut self, topic: &str) -> (r: Result<(), StoreError>)
        requires
            old(self).wf(),
        ensures
            final(self).wf(),
            final(self).location() == old(self).location(),
            r is Ok,
            final(self)@ == old(self)@.with_topic(topic@),
    {
        if !self.topics.contains(topic) {
            let fresh = Topic { current_path: None, paths: NameTable::new() };
            self.topics.set(topic, fresh);
        }
        Ok(())
    }

    /// Makes `topic` the current topic, whether the store has it or not.
    pub fn set_current_topic(&mut self, topic: &str) -> (r: Result<(), StoreError>)
        requires
            old(self).wf(),
        ensures
            final(self).wf(),
            final(self).location() == old(self).location(),
            r is Ok,
            final(self)@ == old(self)@.with_current_topic(topic@),
    {
        self.current_topic = Some(String::from_str(topic));
        Ok(())
    }

    /// Whether the store has the topic.
    pub fn topic_exists(&self, topic: &str) -> (r: bool)
        requires
            self.wf(),
        ensures
            r == self@.topic_exists(topic@),
    {
        self.topics.contains(topic)
    }

    /// The names of the paths of a topic, in order.
    pub fn get_paths(&self, topic: &str) -> (r: Result<Vec<String>, StoreError>)
        requires
            self.wf(),
        ensures
            match r {
                Ok(names) => self@.topic_exists(topic@) && increasing(views(names@)) && forall|
                    k: Seq<char>,
                | views(names@).contains(k) <==> self@.path_exists(topic@, k),
                Err(e) => !self@.topic_exists(topic@) && e@ == no_topic_text(topic@),
            },
    {
        match self.topics.get(topic) {
            Some(t) => {
                proof {
                    t.paths.lemma_listing();
                }
                Ok(t.paths.list())
            },
            None => Err(no_topic_error(topic)),
        }
    }

    /// The note at the head of a path. Fails where the store has no
    /// such path, and where the path holds a text that names no note.
    pub fn get_path(&self, topic: &str, path: &str) -> (r: Result<Identifier, StoreError>)
        requires
            self.wf(),
        ensures
            match r {
                Ok(id) => self@.head(topic@, path@) == Some(id),
                Err(e) => self@.head(topic@, path@) is None && e@ == if self@.unreadable(
                    topic@,
                    path@,
                ) {
                    bad_path_text(topic@, path@)
                } else {
                    no_path_text(topic@, path@)
                },
            },
    {
        match self.topics.get(topic) {
            Some(t) => match t.paths.get(path) {
                Some(Head::Note(id)) => Ok(*id),
                Some(Head::Unread(_)) => Err(bad_path_error(topic, path)),
                None => Err(no_path_error(topic, path)),
            },
            None => Err(no_path_error(topic, path)),
        }
    }

    /// Puts `uuid` at the head of a path of a topic that the store has;
    /// the topic gets the path if it has none of that name.
    pub fn write_path(&mut self, topic: &str, path: &str, uuid: Identifier) -> (r: Result<
        (),
        StoreError,
    >)
        requires
            old(self).wf(),
        ensures
            final(self).wf(),
            final(self).location() == old(self).location(),
            match r {
                Ok(_) => old(self)@.topic_exists(topic@) && final(self)@ == old(self)@.with_head(
                    topic@,
                    path@,
                    uuid,
                ),
                Err(e) => !old(self)@.topic_exists(topic@) && e@ == no_topic_text(topic@) && final(self)@ == old(self)@,
            },
    {
        match self.topics.remove(topic) {
            Some(t) => {
                let mut t = t;
                t.paths.set(path, Head::Note(uuid));
                self.topics.set(topic, t);
                proof {
                    assert(self@.topics =~= old(self)@.with_head(topic@, path@, uuid).topics);
                }
                Ok(())
            },
            None => {
                proof {
                    assert(self@.topics =~= old(self)@.topics);
                }
                Err(no_topic_error(topic))
            },
        }
    }

    /// Whether the store has the topic, and the topic the path.
    pub fn path_exists(&self, topic: &str, path: &str) -> (r: bool)
        requires
            self.wf(),
        ensures
            r == self@.path_exists(topic@, path@),
    {
        match self.topics.get(topic) {
            Some(t) => t.paths.contains(path),
            None => false,
        }
    }

    /// Makes `path` the current path of a topic that the store has,
    /// whether the topic has such a path or not.
    pub fn set_current_path(&mut self, topic: &str, path: &str) -> (r: Result<(), StoreError>)
        requires
            old(self).wf(),
        ensures
            final(self).wf(),
            final(self).location() == old(self).location(),
            match r {
                Ok(_) => old(self)@.topic_exists(topic@) && final(self)@ == old(self)@.with_current_path(topic@, path@),
                Err(e) => !old(self)@.topic_exists(topic@) && e@ == no_topic_text(topic@) && final(self)@ == old(self)@,
            },
    {
        match self.topics.remove(topic) {
            Some(t) => {
                let mut t = t;
                t.current_path = Some(String::from_str(path));
                self.topics.set(topic, t);
                proof {
                    assert(self@.topics =~= old(self)@.with_current_path(topic@, path@).topics);
                }
                Ok(())
            },
            None => {
                proof {
                    assert(self@.topics =~= old(self)@.topics);
                }
                Err(no_topic_error(topic))
            },
        }
    }

    /// The name of the current path of a topic; none where the store
    /// does not have the topic.
    pub fn get_current_path(&self, topic: &str) -> (r: Result<Option<String>, StoreError>)
        requires
            self.wf(),
        ensures
            r matches Ok(p) && name_view(p) == self@.current_path(topic@),
    {
        match self.topics.get(topic) {
            Some(t) => Ok(copy_name(&t.current_path)),
            None => Ok(None),
        }
    }

    /// Takes a path off its topic. The notes stay.
    pub fn remove_path(&mut self, topic: &str, path: &str) -> (r: Result<(), StoreError>)
        requires
            old(self).wf(),
        ensures
            final(self).wf(),
            final(self).location() == old(self).location(),
            match r {
                Ok(_) => old(self)@.path_exists(topic@, path@) && final(self)@ == old(self)@.without_path(topic@, path@),
                Err(e) => !old(self)@.path_exists(topic@, path@) && e@ == no_path_text(
                    topic@,
                    path@,
                ) && final(self)@ == old(self)@,
            },
    {
        if !self.path_exists(topic, path) {
            return Err(no_path_error(topic, path));
        }
        match self.topics.remove(topic) {
            Some(t) => {
                let mut t = t;
                t.paths.remove(path);
                self.topics.set(topic, t);
                proof {
                    assert(self@.topics =~= old(self)@.without_path(topic@, path@).topics);
                }
                Ok(())
            },
            None => Err(no_path_error(topic, path)),
        }
    }

    /// Puts `uuid` at the head of a path, as `write_path` does.
    pub fn reset_path(&mut self, topic: &str, path: &str, uuid: Identifier) -> (r: Result<
        (),
        StoreError,
    >)
        requires
            old(self).wf(),
        ensures
            final(self).wf(),
            final(self).location() == old(self).location(),
            match r {
                Ok(_) => old(self)@.topic_exists(topic@) && final(self)@ == old(self)@.with_head(
                    topic@,
                    path@,
                    uuid,
                ),
                Err(e) => !old(self)@.topic_exists(topic@) && e@ == no_topic_text(topic@) && final(self)@ == old(self)@,
            },
    {
        self.write_path(topic, path, uuid)
    }

    /// Where the metadata of the note `id` stands among the notes.
    fn find_note(&self, id: Identifier) -> (i: usize)
        ensures
            i == self@.note_index(id),
            i <= self.notes@.len(),
    {
        let mut i: usize = 0;
        while i < self.notes.len() && !(self.notes[i].note_id == id)
            invariant
                i <= self.notes@.len(),
                forall|j: int| 0 <= j < i ==> !has_id(id)(#[trigger] note_views(self.notes@)[j]),
            decreases self.notes@.len() - i,
        {
            i += 1;
        }
        proof {
            lemma_first_match_is(note_views(self.notes@), has_id(id), i as int);
        }
        i
    }

    /// Where the record of the note `id` stands among those that cannot be read.
    fn find_unread(&self, id: Identifier) -> (i: usize)
        ensures
            i == first_match(self@.unread, unread_of(id)),
            i <= self.unread@.len(),
    {
        let mut i: usize = 0;
        while i < self.unread.len() && !(self.unread[i].id == id)
            invariant
                i <= self.unread@.len(),
                forall|j: int| 0 <= j < i ==> !unread_of(id)(#[trigger] self@.unread[j]),
            decreases self.unread@.len() - i,
        {
            i += 1;
        }
        proof {
            lemma_first_match_is(self@.unread, unread_of(id), i as int);
        }
        i
    }

    /// The error that reading the record at `at` gives.
    fn unread_error(&self, at: usize) -> (e: ZtlnError)
        requires
            self.wf(),
            at < self.unread@.len(),
        ensures
            e@ == record_error(self@.unread[at as int]),
    {
        let record = &self.unread[at];
        assert(self@.unread[at as int] == self.unread@[at as int]@);
        match NoteMetaData::parse_meta_file(record.id, record.text.as_str()) {
            Err(e) => e,
            Ok(_) => vstd::pervasive::unreached(),
        }
    }

    /// Where the content of the note `id` stands among the contents.
    fn find_content(&self, id: Identifier) -> (i: usize)
        ensures
            i == first_match(self@.contents, holds_id(id)),
            i <= self.contents@.len(),
    {
        let mut i: usize = 0;
        while i < self.contents.len() && !(self.contents[i].id == id)
            invariant
                i <= self.contents@.len(),
                forall|j: int| 0 <= j < i ==> !holds_id(id)(#[trigger] self@.contents[j]),
            decreases self.contents@.len() - i,
        {
            i += 1;
        }
        proof {
            lemma_first_match_is(self@.contents, holds_id(id), i as int);
        }
        i
    }

    /// Adds a note with the content `content` to a path of a topic that
    /// the store has, under a fresh identifier. The note's parent is the
    /// head that the path had, if any; the note is the path's new head.
    /// Fails, and changes nothing, where the topic is missing or the
    /// store has a note under the identifier that was drawn.
    pub fn add_note(&mut self, topic: &str, path: &str, content: Vec<u8>) -> (r: Result<
        NoteMetaData,
        StoreError,
    >)
        requires
            old(self).wf(),
        ensures
            final(self).wf(),
            final(self).location() == old(self).location(),
            !old(self)@.topic_exists(topic@) ==> r is Err,
            match r {
                Ok(m) => old(self)@.topic_exists(topic@) && !old(self)@.collides(m.note_id) && m@
                    == new_note(m.note_id, old(self)@.head(topic@, path@), topic@, path@) && final(self)@
                    == old(self)@.with_new_note(m.note_id, topic@, path@, content@),
                Err(e) => final(self)@ == old(self)@ && if old(self)@.topic_exists(topic@) {
                    exists|id: Identifier| #[trigger] old(self)@.collides(id) && e@ == collision_text(id)
                } else {
                    e@ == no_topic_text(topic@)
                },
            },
    {
        let id = Identifier::mint();
        self.insert_note(id, topic, path, content)
    }

    /// Adds a note as `add_note` does, under the identifier `id`.
    pub fn insert_note(&mut self, id: Identifier, topic: &str, path: &str, content: Vec<u8>) -> (r:
        Result<NoteMetaData, StoreError>)
        requires
            old(self).wf(),
        ensures
            final(self).wf(),
            final(self).location() == old(self).location(),
            match r {
                Ok(m) => old(self)@.topic_exists(topic@) && !old(self)@.collides(id) && m@
                    == new_note(id, old(self)@.head(topic@, path@), topic@, path@) && final(self)@
                    == old(self)@.with_new_note(id, topic@, path@, content@),
                Err(e) => final(self)@ == old(self)@ && if old(self)@.topic_exists(topic@) {
                    old(self)@.collides(id) && e@ == collision_text(id)
                } else {
                    e@ == no_topic_text(topic@)
                },
            },
    {
        if !self.topics.contains(topic) {
            return Err(no_topic_error(topic));
        }
        let at = self.find_note(id);
        let unread_at = self.find_unread(id);
        let blob_at = self.find_content(id);
        if at < self.notes.len() || unread_at < self.unread.len() || blob_at
            < self.contents.len() {
            return Err(collision_error(id));
        }
        let parent_id = match self.get_path(topic, path) {
            Ok(head) => Some(head),
            Err(_) => None,
        };
        let metadata = NoteMetaData {
            note_id: id,
            parent_id,
            references: Vec::new(),
            topic: String::from_str(topic),
            path: String::from_str(path),
        };
        let answer = metadata.duplicate();
        let ghost before = self@;
        let ghost bytes = content@;
        self.notes.push(metadata);
        self.contents.push(Blob { id, bytes: content });
        proof {
            assert(self@.notes =~= before.notes.push(answer@));
            assert(self@.contents =~= before.contents.push(BlobView { id, bytes }));
            assert(self@ == before.with_note(answer@).with_content(id, bytes));
        }
        self.write_path(topic, path, id).unwrap();
        Ok(answer)
    }

    /// The content of the note `uuid`.
    pub fn get_note_content(&self, uuid: Identifier) -> (r: Result<&Vec<u8>, StoreError>)
        ensures
            match r {
                Ok(bytes) => self@.content(uuid) == Some(bytes@),
                Err(e) => self@.content(uuid) is None && e@ == no_content_text(uuid),
            },
    {
        let at = self.find_content(uuid);
        if at < self.contents.len() {
            Ok(&self.contents[at].bytes)
        } else {
            Err(no_content_error(uuid))
        }
    }

    /// The metadata of the note `uuid`, if the store has some. Fails
    /// where the store has a record for the note that cannot be read,
    /// with what is wrong with the record.
    pub fn get_note_metadata(&self, uuid: Identifier) -> (r: Result<
        Option<NoteMetaData>,
        ZtlnError,
    >)
        requires
            self.wf(),
        ensures
            match r {
                Ok(m) => self@.record(uuid) == Ok::<Option<NoteView>, ErrorView>(found_view(m)),
                Err(e) => self@.record(uuid) == Err::<Option<NoteView>, ErrorView>(e@),
            },
    {
        let at = self.find_note(uuid);
        if at < self.notes.len() {
            return Ok(Some(self.notes[at].duplicate()));
        }
        let unread_at = self.find_unread(uuid);
        if unread_at < self.unread.len() {
            Err(self.unread_error(unread_at))
        } else {
            Ok(None)
        }
    }

    /// Makes `meta` the metadata of its note: in the place of what the
    /// store had for that note, or as one note more.
    pub fn write_note_metadata(&mut self, meta: &NoteMetaData) -> (r: Result<(), StoreError>)
        requires
            old(self).wf(),
        ensures
            final(self).wf(),
            final(self).location() == old(self).location(),
            r is Ok,
            final(self)@ == old(self)@.with_note(meta@),
    {
        let at = self.find_note(meta.note_id);
        let copy = meta.duplicate();
        if at < self.notes.len() {
            self.notes.set(at, copy);
            proof {
                assert(self@.notes =~= old(self)@.notes.update(at as int, meta@));
            }
        } else {
            self.notes.push(copy);
            proof {
                assert(self@.notes =~= old(self)@.notes.push(meta@));
            }
        }
        Ok(())
    }

    /// The first note, in the store's order, whose identifier starts
    /// with the eight characters `short_uuid`. The store goes through the
    /// records that it can read, then through those that it cannot: it
    /// fails where the first record it comes to is one of these.
    pub fn search_short_uuid(&self, short_uuid: &str) -> (r: Result<
        Option<NoteMetaData>,
        ZtlnError,
    >)
        requires
            self.wf(),
        ensures
            match r {
                Ok(m) => self@.found_by_short(short_uuid@) == Ok::<Option<NoteView>, ErrorView>(
                    found_view(m),
                ),
                Err(e) => self@.found_by_short(short_uuid@) == Err::<Option<NoteView>, ErrorView>(
                    e@,
                ),
            },
    {
        let mut i: usize = 0;
        while i < self.notes.len()
            invariant
                i <= self.notes@.len(),
                forall|j: int|
                    0 <= j < i ==> !has_short(short_uuid@)(#[trigger] note_views(self.notes@)[j]),
            decreases self.notes@.len() - i,
        {
            let short = self.notes[i].note_id.short();
            if str_eq(short.as_str(), short_uuid) {
                proof {
                    lemma_first_match_is(
                        note_views(self.notes@),
                        has_short(short_uuid@),
                        i as int,
                    );
                }
                return Ok(Some(self.notes[i].duplicate()));
            }
            i += 1;
        }
        proof {
            lemma_first_match_is(note_views(self.notes@), has_short(short_uuid@), i as int);
        }
        let mut k: usize = 0;
        while k < self.unread.len()
            invariant
                self.wf(),
                k <= self.unread@.len(),
                self@.note_by_short(short_uuid@) is None,
                forall|j: int| 0 <= j < k ==> !unread_short(short_uuid@)(#[trigger] self@.unread[j]),
            decreases self.unread@.len() - k,
        {
            let short = self.unread[k].id.short();
            if str_eq(short.as_str(), short_uuid) {
                proof {
                    lemma_first_match_is(self@.unread, unread_short(short_uuid@), k as int);
                }
                return Err(self.unread_error(k));
            }
            k += 1;
        }
        proof {
            lemma_first_match_is(self@.unread, unread_short(short_uuid@), k as int);
        }
        Ok(None)
    }

    /// Puts the note of `metadata` under `keyword` once more. Fails, and
    /// changes nothing, where the store found a keyword index that it
    /// cannot read.
    pub fn add_keyword_index(&mut self, keyword: &str, metadata: &NoteMetaData) -> (r: Result<
        (),
        StoreError,
    >)
        requires
            old(self).wf(),
        ensures
            final(self).wf(),
            final(self).location() == old(self).location(),
            match r {
                Ok(_) => old(self)@.unread_index is None && final(self)@ == old(self)@.with_keyword(
                    keyword@,
                    metadata.note_id,
                ),
                Err(e) => old(self)@.unread_index is Some && e@ == bad_index_text() && final(self)@
                    == old(self)@,
            },
    {
        if self.unread_index.is_some() {
            return Err(bad_index_error());
        }
        let mut list = match self.keywords.remove(keyword) {
            Some(l) => l,
            None => Vec::new(),
        };
        list.push(metadata.note_id);
        self.keywords.set(keyword, list);
        proof {
            assert(self@.keywords =~= old(self)@.with_keyword(
                keyword@,
                metadata.note_id,
            ).keywords);
        }
        Ok(())
    }

    /// The metadata of the notes under `keyword`, in the order in which
    /// they got it; a note without a record is left out. Fails where the
    /// store found a keyword index that it cannot read, and where it
    /// comes to a record that it cannot read.
    pub fn get_meta_from_index(&self, keyword: &str) -> (r: Result<Vec<NoteMetaData>, ZtlnError>)
        requires
            self.wf(),
        ensures
            match r {
                Ok(notes) => self@.unread_index is None && self@.gathered(self@.tagged(keyword@))
                    == Ok::<Seq<NoteView>, ErrorView>(note_views(notes@)),
                Err(e) => if self@.unread_index is Some {
                    e@ == ErrorView::StorageIntegrity(bad_index_text())
                } else {
                    self@.gathered(self@.tagged(keyword@)) == Err::<Seq<NoteView>, ErrorView>(e@)
                },
            },
    {
        if self.unread_index.is_some() {
            return Err(ZtlnError::from_store(bad_index_error()));
        }
        let mut notes: Vec<NoteMetaData> = Vec::new();
        match self.keywords.get(keyword) {
            Some(list) => {
                let mut i: usize = 0;
                proof {
                    assert(list@.take(0) =~= Seq::<Identifier>::empty());
                    assert(note_views(notes@) =~= Seq::<NoteView>::empty());
                }
                while i < list.len()
                    invariant
                        self.wf(),
                        i <= list.len(),
                        self@.unread_index is None,
                        list@ == self@.tagged(keyword@),
                        self@.gathered(list@.take(i as int)) == Ok::<Seq<NoteView>, ErrorView>(
                            note_views(notes@),
                        ),
                    decreases list.len() - i,
                {
                    proof {
                        let next = list@.take(i + 1);
                        assert(next.last() == list@[i as int]);
                        assert(next.drop_last() =~= list@.take(i as int));
                    }
                    match self.get_note_metadata(list[i]) {
                        Err(e) => {
                            proof {
                                assert(self@.gathered(list@.take(i + 1)) == Err::<
                                    Seq<NoteView>,
                                    ErrorView,
                                >(e@));
                                lemma_gathered_fails(self@, list@, i + 1);
                            }
                            return Err(e);
                        },
                        Ok(Some(found)) => {
                            proof {
                                assert(note_views(notes@.push(found)) =~= note_views(notes@).push(
                                    found@,
                                ));
                            }
                            notes.push(found);
                        },
                        Ok(None) => {},
                    }
                    i += 1;
                }
                proof {
                    assert(list@.take(list.len() as int) =~= list@);
                }
            },
            None => {
                proof {
                    assert(note_views(notes@) =~= Seq::<NoteView>::empty());
                }
            },
        }
        Ok(notes)
    }

    /// The keywords, in order, each with the number of times a note was
    /// put under it. Fails where the store found a keyword index that it
    /// cannot read.
    pub fn get_keywords(&self) -> (r: Result<Vec<(String, usize)>, StoreError>)
        requires
            self.wf(),
        ensures
            match r {
                Ok(counts) => self@.unread_index is None && increasing(counted_names(counts@))
                    && (forall|k: Seq<char>|
                    counted_names(counts@).contains(k) <==> self@.keywords.contains_key(k))
                    && (forall|i: int|
                    0 <= i < counts@.len() ==> (#[trigger] counts@[i]).1 == self@.tagged(
                        counts@[i].0@,
                    ).len()),
                Err(e) => self@.unread_index is Some && e@ == bad_index_text(),
            },
    {
        if self.unread_index.is_some() {
            return Err(bad_index_error());
        }
        let n = self.keywords.len();
        let mut counts: Vec<(String, usize)> = Vec::new();
        let mut i: usize = 0;
        proof {
            self.keywords.lemma_listing();
            assert(counted_names(counts@) =~= self.keywords.names().take(0));
        }
        while i < n
            invariant
                self.wf(),
                i <= n,
                n == self.keywords.names().len(),
                n == self.keywords.items().len(),
                counts@.len() == i,
                counted_names(counts@) == self.keywords.names().take(i as int),
                forall|j: int|
                    0 <= j < i ==> (#[trigger] counts@[j]).1 == self.keywords.items()[j]@.len(),
            decreases n - i,
        {
            let name = self.keywords.name_at(i).clone();
            let count = self.keywords.item_at(i).len();
            proof {
                assert(counted_names(counts@.push((name, count))) =~= counted_names(counts@).push(
                    name@,
                ));
                assert(self.keywords.names().take(i + 1) =~= self.keywords.names().take(
                    i as int,
                ).push(name@));
            }
            counts.push((name, count));
            i += 1;
        }
        proof {
            assert(self.keywords.names().take(n as int) =~= self.keywords.names());
            assert forall|j: int| 0 <= j < counts@.len() implies (#[trigger] counts@[j]).1
                == self@.tagged(counts@[j].0@).len() by {
                assert(counted_names(counts@)[j] == self.keywords.names()[j]);
            }
        }
        Ok(counts)
    }
}

/// A copy of some bytes.
pub fn copy_bytes(bytes: &Vec<u8>) -> (r: Vec<u8>)
    ensures
        r@ == bytes@,
{
    let mut r: Vec<u8> = Vec::new();
    let mut i: usize = 0;
    while i < bytes.len()
        invariant
            i <= bytes.len(),
            r@ == bytes@.take(i as int),
        decreases bytes.len() - i,
    {
        r.push(bytes[i]);
        proof {
            assert(bytes@.take(i + 1) =~= bytes@.take(i as int).push(bytes@[i as int]));
        }
        i += 1;
    }
    proof {
        assert(bytes@.take(bytes.len() as int) =~= bytes@);
    }
    r
}

/// What the files of a topic's paths hold.
fn load_heads(files: &Vec<TextFile>) -> (table: NameTable<Head>)
    ensures
        table.wf(),
        table@ == loaded_heads(files@),
{
    let mut table: NameTable<Head> = NameTable::new();
    let mut i: usize = 0;
    proof {
        assert(files@.take(0) =~= Seq::<TextFile>::empty());
    }
    while i < files.len()
        invariant
            i <= files.len(),
            table.wf(),
            table@ == loaded_heads(files@.take(i as int)),
        decreases files.len() - i,
    {
        proof {
            assert(files@.take(i + 1).drop_last() =~= files@.take(i as int));
            assert(files@.take(i + 1).last() == files@[i as int]);
        }
        let head = match Identifier::parse_str(files[i].text.as_str()) {
            Some(id) => Head::Note(id),
            None => Head::Unread(files[i].text.clone()),
        };
        table.set(files[i].name.as_str(), head);
        i += 1;
    }
    proof {
        assert(files@.take(files.len() as int) =~= files@);
    }
    table
}

/// The topics that the files of the topics hold.
fn load_topics(files: &Vec<TopicFiles>) -> (table: NameTable<Topic>)
    ensures
        table.wf(),
        table@ == loaded_topics(files@),
        forall|x: Topic| #[trigger] table.items().contains(x) ==> x.wf(),
{
    let mut table: NameTable<Topic> = NameTable::new();
    let mut i: usize = 0;
    proof {
        assert(files@.take(0) =~= Seq::<TopicFiles>::empty());
    }
    while i < files.len()
        invariant
            i <= files.len(),
            table.wf(),
            forall|x: Topic| #[trigger] table.items().contains(x) ==> x.wf(),
            table@ == loaded_topics(files@.take(i as int)),
        decreases files.len() - i,
    {
        proof {
            assert(files@.take(i + 1).drop_last() =~= files@.take(i as int));
            assert(files@.take(i + 1).last() == files@[i as int]);
        }
        let topic = Topic {
            current_path: copy_name(&files[i].head),
            paths: load_heads(&files[i].paths),
        };
        table.set(files[i].name.as_str(), topic);
        i += 1;
    }
    proof {
        assert(files@.take(files.len() as int) =~= files@);
    }
    table
}

/// The metadata that the files of `meta` hold, and the records among
/// them that cannot be read.
fn load_notes(files: &Vec<TextFile>) -> (r: (Vec<NoteMetaData>, Vec<Unread>))
    ensures
        note_views(r.0@) == loaded_notes(files@),
        r.1@.map_values(|u: Unread| u@) == loaded_unread(files@),
        forall|i: int|
            0 <= i < r.1@.len() ==> parse_record((#[trigger] r.1@[i]).id, r.1@[i].text@) is Err,
{
    let mut notes: Vec<NoteMetaData> = Vec::new();
    let mut unread: Vec<Unread> = Vec::new();
    let mut i: usize = 0;
    proof {
        assert(files@.take(0) =~= Seq::<TextFile>::empty());
        assert(note_views(notes@) =~= Seq::<NoteView>::empty());
        assert(unread@.map_values(|u: Unread| u@) =~= Seq::<UnreadView>::empty());
    }
    while i < files.len()
        invariant
            i <= files.len(),
            note_views(notes@) == loaded_notes(files@.take(i as int)),
            unread@.map_values(|u: Unread| u@) == loaded_unread(files@.take(i as int)),
            forall|k: int|
                0 <= k < unread@.len() ==> parse_record(
                    (#[trigger] unread@[k]).id,
                    unread@[k].text@,
                ) is Err,
        decreases files.len() - i,
    {
        proof {
            assert(files@.take(i + 1).drop_last() =~= files@.take(i as int));
            assert(files@.take(i + 1).last() == files@[i as int]);
        }
        match note_of_file(files[i].name.as_str()) {
            Some(id) => match NoteMetaData::parse_meta_file(id, files[i].text.as_str()) {
                Ok(n) => {
                    proof {
                        assert(note_views(notes@.push(n)) =~= note_views(notes@).push(n@));
                    }
                    notes.push(n);
                },
                Err(_) => {
                    let record = Unread { id, text: files[i].text.clone() };
                    proof {
                        assert(unread@.push(record).map_values(|u: Unread| u@) =~= unread@.map_values(
                            |u: Unread| u@,
                        ).push(record@));
                    }
                    unread.push(record);
                },
            },
            None => {},
        }
        i += 1;
    }
    proof {
        assert(files@.take(files.len() as int) =~= files@);
    }
    (notes, unread)
}

/// The contents that the files of `notes` hold.
fn load_contents(files: &Vec<BlobFile>) -> (r: Vec<Blob>)
    ensures
        r@.map_values(|b: Blob| b@) == loaded_contents(files@),
{
    let mut contents: Vec<Blob> = Vec::new();
    let mut i: usize = 0;
    proof {
        assert(files@.take(0) =~= Seq::<BlobFile>::empty());
        assert(contents@.map_values(|b: Blob| b@) =~= Seq::<BlobView>::empty());
    }
    while i < files.len()
        invariant
            i <= files.len(),
            contents@.map_values(|b: Blob| b@) == loaded_contents(files@.take(i as int)),
        decreases files.len() - i,
    {
        proof {
            assert(files@.take(i + 1).drop_last() =~= files@.take(i as int));
            assert(files@.take(i + 1).last() == files@[i as int]);
        }
        match note_of_file(files[i].name.as_str()) {
            Some(id) => {
                let blob = Blob { id, bytes: copy_bytes(&files[i].bytes) };
                proof {
                    assert(contents@.push(blob).map_values(|b: Blob| b@) =~= contents@.map_values(
                        |b: Blob| b@,
                    ).push(blob@));
                }
                contents.push(blob);
            },
            None => {},
        }
        i += 1;
    }
    proof {
        assert(files@.take(files.len() as int) =~= files@);
    }
    contents
}

impl Store {
    /// Opens the repository that was found at the place `base_dir`.
    /// Refused where the place is no directory and where it lacks a part
    /// of a repository, and there only. What a file holds is not held
    /// against the place: a path that names no note, a record or an index
    /// that cannot be read is kept as it was found, and the operation
    /// that comes to it says so.
    pub fn attach(base_dir: &str, found: &Snapshot) -> (r: Result<Store, StoreError>)
        ensures
            r is Ok <==> found.is_directory && complete(*found),
            match r {
                Ok(s) => s@ == loaded(*found) && s.wf() && s.location() == base_dir@,
                Err(e) => e@ == if !found.is_directory {
                    not_directory_text(base_dir@)
                } else {
                    invalid_structure_text(base_dir@)
                },
            },
    {
        if !found.is_directory {
            let mut s = String::from_str("Given path '");
            s.append(base_dir);
            s.append("' is not a directory.");
            return Err(StoreError::new(s));
        }
        if !(found.has_meta && found.has_notes && found.has_index && found.has_topics) {
            let mut s = String::from_str("Invalid ztln structure in dir '");
            s.append(base_dir);
            s.append("'.");
            return Err(StoreError::new(s));
        }
        let topics = load_topics(&found.topics);
        let (notes, unread) = load_notes(&found.meta);
        let contents = load_contents(&found.notes);
        let (keywords, unread_index) = match decode_index(&found.index) {
            Some(entries) => (table_of_entries(&entries), None),
            None => (NameTable::new(), Some(copy_bytes(&found.index))),
        };
        Ok(
            Store {
                base_dir: String::from_str(base_dir),
                current_topic: copy_name(&found.current_topic),
                topics,
                notes,
                contents,
                keywords,
                unread,
                unread_index,
            },
        )
    }

    /// The files of the paths of a topic.
    fn path_files(topic: &Topic) -> (files: Vec<TextFile>)
        requires
            topic.wf(),
        ensures
            increasing(file_names(files@)),
            forall|p: Seq<char>| file_names(files@).contains(p) <==> topic@.heads.contains_key(p),
            forall|j: int|
                0 <= j < files@.len() ==> (#[trigger] files@[j]).text@ == head_text(
                    topic@.heads[files@[j].name@],
                ),
    {
        let n = topic.paths.len();
        let mut files: Vec<TextFile> = Vec::new();
        let mut j: usize = 0;
        proof {
            topic.paths.lemma_listing();
            assert(file_names(files@) =~= topic.paths.names().take(0));
        }
        while j < n
            invariant
                topic.wf(),
                j <= n,
                n == topic.paths.names().len(),
                n == topic.paths.items().len(),
                files@.len() == j,
                file_names(files@) == topic.paths.names().take(j as int),
                forall|k: int|
                    0 <= k < j ==> (#[trigger] files@[k]).text@ == head_text(
                        topic.paths.items()[k]@,
                    ),
            decreases n - j,
        {
            let text = match topic.paths.item_at(j) {
                Head::Note(id) => id.text(),
                Head::Unread(text) => text.clone(),
            };
            let file = TextFile { name: topic.paths.name_at(j).clone(), text };
            proof {
                assert(file_names(files@.push(file)) =~= file_names(files@).push(file.name@));
                assert(topic.paths.names().take(j + 1) =~= topic.paths.names().take(
                    j as int,
                ).push(file.name@));
            }
            files.push(file);
            j += 1;
        }
        proof {
            assert(topic.paths.names().take(n as int) =~= topic.paths.names());
            assert forall|k: int| 0 <= k < files@.len() implies (#[trigger] files@[k]).text@
                == head_text(topic@.heads[files@[k].name@]) by {
                assert(file_names(files@)[k] == topic.paths.names()[k]);
            }
        }
        files
    }

    /// The entries of the keyword index, in the order of the keywords
    /// and one for each.
    pub fn index_entries(&self) -> (entries: Vec<(String, Vec<Identifier>)>)
        requires
            self.wf(),
        ensures
            increasing(entry_names(entries@)),
            index_of_entries(entries@) == self@.keywords,
    {
        entries_of_table(&self.keywords)
    }

    /// The files that hold this repository, with the bytes that are
    /// given as its `index`.
    pub fn files_with(&self, index: Vec<u8>) -> (snapshot: Snapshot)
        requires
            self.wf(),
        ensures
            saved_files(snapshot, self@),
            snapshot.index@ == index@,
    {
        let n = self.topics.len();
        let mut topics: Vec<TopicFiles> = Vec::new();
        let mut i: usize = 0;
        proof {
            self.topics.lemma_listing();
            assert(topic_names(topics@) =~= self.topics.names().take(0));
        }
        while i < n
            invariant
                self.wf(),
                i <= n,
                n == self.topics.names().len(),
                n == self.topics.items().len(),
                topics@.len() == i,
                topic_names(topics@) == self.topics.names().take(i as int),
                forall|k: int|
                    0 <= k < i ==> topic_saved(#[trigger] topics@[k], self.topics.items()[k]@),
            decreases n - i,
        {
            let topic = self.topics.item_at(i);
            assert(self.topics.items().contains(*topic));
            let files = TopicFiles {
                name: self.topics.name_at(i).clone(),
                head: copy_name(&topic.current_path),
                paths: Self::path_files(topic),
            };
            proof {
                assert(topic_names(topics@.push(files)) =~= topic_names(topics@).push(files.name@));
                assert(self.topics.names().take(i + 1) =~= self.topics.names().take(i as int).push(
                    files.name@,
                ));
            }
            topics.push(files);
            i += 1;
        }
        proof {
            assert(self.topics.names().take(n as int) =~= self.topics.names());
            assert forall|k: int| 0 <= k < topics@.len() implies topic_saved(
                #[trigger] topics@[k],
                self@.topics[topics@[k].name@],
            ) by {
                assert(topic_names(topics@)[k] == self.topics.names()[k]);
            }
        }
        let mut meta: Vec<TextFile> = Vec::new();
        let mut i: usize = 0;
        while i < self.unread.len()
            invariant
                i <= self.unread@.len(),
                meta@.len() == i,
                forall|k: int|
                    0 <= k < i ==> (#[trigger] meta@[k]).name@ == hyphenated(self@.unread[k].id)
                        && meta@[k].text@ == self@.unread[k].text,
            decreases self.unread@.len() - i,
        {
            let file = TextFile { name: self.unread[i].id.text(), text: self.unread[i].text.clone() };
            meta.push(file);
            i += 1;
        }
        let ghost before = self@.unread.len() as int;
        let mut i: usize = 0;
        while i < self.notes.len()
            invariant
                i <= self.notes@.len(),
                before == self@.unread.len(),
                meta@.len() == before + i,
                forall|k: int|
                    0 <= k < before ==> (#[trigger] meta@[k]).name@ == hyphenated(
                        self@.unread[k].id,
                    ) && meta@[k].text@ == self@.unread[k].text,
                forall|k: int|
                    0 <= k < i ==> (#[trigger] meta@[before + k]).name@ == hyphenated(
                        self@.notes[k].note_id,
                    ) && meta@[before + k].text@ == crate::note::record_text(self@.notes[k]),
            decreases self.notes@.len() - i,
        {
            let file = TextFile {
                name: self.notes[i].note_id.text(),
                text: self.notes[i].serialize(),
            };
            meta.push(file);
            i += 1;
        }
        let mut notes: Vec<BlobFile> = Vec::new();
        let mut i: usize = 0;
        while i < self.contents.len()
            invariant
                i <= self.contents@.len(),
                notes@.len() == i,
                forall|k: int|
                    0 <= k < i ==> (#[trigger] notes@[k]).name@ == hyphenated(
                        self@.contents[k].id,
                    ) && notes@[k].bytes@ == self@.contents[k].bytes,
            decreases self.contents@.len() - i,
        {
            let file = BlobFile {
                name: self.contents[i].id.text(),
                bytes: copy_bytes(&self.contents[i].bytes),
            };
            notes.push(file);
            i += 1;
        }
        Snapshot {
            is_directory: true,
            has_meta: true,
            has_notes: true,
            has_index: true,
            has_topics: true,
            current_topic: copy_name(&self.current_topic),
            topics,
            meta,
            notes,
            index,
        }
    }

    /// The files that hold this repository: what is to be written at its
    /// place. Its `index` holds the bytes that the encoder gives for the
    /// keyword index of the repository, or the bytes that were found
    /// where the index could not be read. Nothing comes back where the
    /// encoder fails on the index.
    pub fn snapshot(&self) -> (r: Option<Snapshot>)
        requires
            self.wf(),
        ensures
            match r {
                Some(snapshot) => saved(snapshot, self@) && (self@.unread_index is None
                    ==> bytes_of_index(self@.keywords) == Some(snapshot.index@)),
                None => self@.unread_index is None && bytes_of_index(self@.keywords) is None,
            },
    {
        match &self.unread_index {
            Some(bytes) => Some(self.files_with(copy_bytes(bytes))),
            None => {
                let entries = self.index_entries();
                match encode_index(&entries) {
                    Some(bytes) => Some(self.files_with(bytes)),
                    None => None,
                }
            },
        }
    }
}

} // verus!
