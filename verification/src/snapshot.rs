use crate::ident::{hyphenated, identifier_of, reads_back, Identifier};
use crate::index::index_of_bytes;
use crate::model::{BlobView, HeadView, StoreView, TopicView, UnreadView};
use crate::note::{parse_record, record_text, storable, NoteView};
use crate::text::{increasing, name_view, str_eq, views};
use vstd::prelude::*;
use vstd::string::*;

verus! {

/// The directory of a repository that holds a record for each note.
pub const META: &'static str = "meta";

/// The directory of a repository that holds the content of each note.
pub const NOTES: &'static str = "notes";

/// The directory of a repository that holds a directory for each topic.
pub const TOPICS: &'static str = "topics";

/// The file of a repository that holds the keyword index.
pub const INDEX: &'static str = "index";

/// The file of a repository that holds the name of the current topic.
pub const CURRENT: &'static str = "_CURRENT";

/// The directory of a topic that holds a file for each path.
pub const PATHS: &'static str = "paths";

/// The file of a topic that holds the name of its current path.
pub const HEAD: &'static str = "_HEAD";

/// A file that holds a text, as it was found or as it is to be written.
#[derive(Debug, Clone, PartialEq)]
pub struct TextFile {
    pub name: String,
    pub text: String,
}

/// A file that holds bytes.
#[derive(Debug, Clone, PartialEq)]
pub struct BlobFile {
    pub name: String,
    pub bytes: Vec<u8>,
}

/// The files of a topic: the name of its directory, the text of its
/// `_HEAD` file if it has one, and a file for each of its paths.
#[derive(Debug, Clone, PartialEq)]
pub struct TopicFiles {
    pub name: String,
    pub head: Option<String>,
    pub paths: Vec<TextFile>,
}

/// What is found at the place of a repository, or what is to be written
/// there: whether the place is a directory and has its `meta`, `notes`
/// and `topics` directories and its `index` file; the text of its
/// `_CURRENT` file, if it has one; its topics; the files of `meta` and of
/// `notes`; and the bytes of `index`.
#[derive(Debug, Clone, PartialEq)]
pub struct Snapshot {
    pub is_directory: bool,
    pub has_meta: bool,
    pub has_notes: bool,
    pub has_index: bool,
    pub has_topics: bool,
    pub current_topic: Option<String>,
    pub topics: Vec<TopicFiles>,
    pub meta: Vec<TextFile>,
    pub notes: Vec<BlobFile>,
    pub index: Vec<u8>,
}

/// The names of a sequence of text files.
pub open spec fn file_names(files: Seq<TextFile>) -> Seq<Seq<char>> {
    files.map_values(|f: TextFile| f.name@)
}

/// The names of a sequence of topics.
pub open spec fn topic_names(topics: Seq<TopicFiles>) -> Seq<Seq<char>> {
    topics.map_values(|t: TopicFiles| t.name@)
}

/// The note that a file of `meta` or of `notes` belongs to: the one whose
/// canonical text is the file's name. A file with another name belongs
/// to no note.
pub open spec fn named_note(name: Seq<char>) -> Option<Identifier> {
    match identifier_of(name) {
        Some(id) => if hyphenated(id) == name {
            Some(id)
        } else {
            None
        },
        None => None,
    }
}

/// What a path's file holds: the note that its text names, or the text.
pub open spec fn head_of_text(text: Seq<char>) -> HeadView {
    match identifier_of(text) {
        Some(id) => HeadView::Note(id),
        None => HeadView::Unread(text),
    }
}

/// The text of a path's file.
pub open spec fn head_text(head: HeadView) -> Seq<char> {
    match head {
        HeadView::Note(id) => hyphenated(id),
        HeadView::Unread(text) => text,
    }
}

/// What the files of a topic's paths hold.
pub open spec fn loaded_heads(paths: Seq<TextFile>) -> Map<Seq<char>, HeadView>
    decreases paths.len(),
{
    if paths.len() == 0 {
        Map::empty()
    } else {
        loaded_heads(paths.drop_last()).insert(
            paths.last().name@,
            head_of_text(paths.last().text@),
        )
    }
}

/// The topics that the files of the topics hold.
pub open spec fn loaded_topics(topics: Seq<TopicFiles>) -> Map<Seq<char>, TopicView>
    decreases topics.len(),
{
    if topics.len() == 0 {
        Map::empty()
    } else {
        loaded_topics(topics.drop_last()).insert(
            topics.last().name@,
            TopicView {
                current_path: name_view(topics.last().head),
                heads: loaded_heads(topics.last().paths@),
            },
        )
    }
}

/// The metadata that the files of `meta` hold, in the order of the
/// files: that of each file that belongs to a note and holds a record.
pub open spec fn loaded_notes(files: Seq<TextFile>) -> Seq<NoteView>
    decreases files.len(),
{
    if files.len() == 0 {
        Seq::empty()
    } else {
        match named_note(files.last().name@) {
            None => loaded_notes(files.drop_last()),
            Some(id) => match parse_record(id, files.last().text@) {
                Ok(n) => loaded_notes(files.drop_last()).push(n),
                Err(_) => loaded_notes(files.drop_last()),
            },
        }
    }
}

/// The files of `meta` that belong to a note and hold no record, in the
/// order of the files.
pub open spec fn loaded_unread(files: Seq<TextFile>) -> Seq<UnreadView>
    decreases files.len(),
{
    if files.len() == 0 {
        Seq::empty()
    } else {
        match named_note(files.last().name@) {
            None => loaded_unread(files.drop_last()),
            Some(id) => match parse_record(id, files.last().text@) {
                Ok(_) => loaded_unread(files.drop_last()),
                Err(_) => loaded_unread(files.drop_last()).push(
                    UnreadView { id, text: files.last().text@ },
                ),
            },
        }
    }
}

/// The contents that the files of `notes` hold, in the order of the files.
pub open spec fn loaded_contents(files: Seq<BlobFile>) -> Seq<BlobView>
    decreases files.len(),
{
    if files.len() == 0 {
        Seq::empty()
    } else {
        match named_note(files.last().name@) {
            None => loaded_contents(files.drop_last()),
            Some(id) => loaded_contents(files.drop_last()).push(
                BlobView { id, bytes: files.last().bytes@ },
            ),
        }
    }
}

/// Whether the place has all that a repository has.
pub open spec fn complete(s: Snapshot) -> bool {
    s.has_meta && s.has_notes && s.has_index && s.has_topics
}

/// The repository that a snapshot holds. What a file holds that cannot
/// be read is kept as it was found: the text of a path, the text of a
/// record, the bytes of the index.
pub open spec fn loaded(s: Snapshot) -> StoreView {
    StoreView {
        current_topic: name_view(s.current_topic),
        topics: loaded_topics(s.topics@),
        notes: loaded_notes(s.meta@),
        contents: loaded_contents(s.notes@),
        keywords: match index_of_bytes(s.index@) {
            Some(keywords) => keywords,
            None => Map::empty(),
        },
        unread: loaded_unread(s.meta@),
        unread_index: match index_of_bytes(s.index@) {
            Some(_) => None,
            None => Some(s.index@),
        },
    }
}

/// Whether the files of a topic are those of the topic `t`: its current
/// path, and its paths in order, each with the text that it holds.
pub open spec fn topic_saved(files: TopicFiles, t: TopicView) -> bool {
    &&& name_view(files.head) == t.current_path
    &&& increasing(file_names(files.paths@))
    &&& forall|p: Seq<char>| file_names(files.paths@).contains(p) <==> t.heads.contains_key(p)
    &&& forall|j: int|
        0 <= j < files.paths@.len() ==> (#[trigger] files.paths@[j]).text@ == head_text(
            t.heads[files.paths@[j].name@],
        )
}

/// Whether the files of a snapshot, `index` apart, are those of the
/// repository `s`: the current topic; the topics in order, each with its
/// paths; in `meta` a file for each record that cannot be read, then one
/// for each note that the repository has metadata for, in its order; in
/// `notes` a file for each content.
pub open spec fn saved_files(snapshot: Snapshot, s: StoreView) -> bool {
    &&& snapshot.is_directory && complete(snapshot)
    &&& name_view(snapshot.current_topic) == s.current_topic
    &&& increasing(topic_names(snapshot.topics@))
    &&& forall|k: Seq<char>| topic_names(snapshot.topics@).contains(k) <==> s.topic_exists(k)
    &&& forall|i: int|
        0 <= i < snapshot.topics@.len() ==> topic_saved(
            #[trigger] snapshot.topics@[i],
            s.topics[snapshot.topics@[i].name@],
        )
    &&& snapshot.meta@.len() == s.unread.len() + s.notes.len()
    &&& forall|i: int|
        0 <= i < s.unread.len() ==> (#[trigger] snapshot.meta@[i]).name@ == hyphenated(
            s.unread[i].id,
        ) && snapshot.meta@[i].text@ == s.unread[i].text
    &&& forall|i: int|
        0 <= i < s.notes.len() ==> (#[trigger] snapshot.meta@[s.unread.len() + i]).name@
            == hyphenated(s.notes[i].note_id) && snapshot.meta@[s.unread.len() + i].text@
            == record_text(s.notes[i])
    &&& snapshot.notes@.len() == s.contents.len()
    &&& forall|i: int|
        0 <= i < s.contents.len() ==> (#[trigger] snapshot.notes@[i]).name@ == hyphenated(
            s.contents[i].id,
        ) && snapshot.notes@[i].bytes@ == s.contents[i].bytes
}

/// Whether a snapshot is that of the repository `s`: all that `s` holds,
/// as the files of a repository hold it. An index that could not be read
/// is there with the bytes it was found with.
pub open spec fn saved(snapshot: Snapshot, s: StoreView) -> bool {
    &&& saved_files(snapshot, s)
    &&& match s.unread_index {
        Some(bytes) => snapshot.index@ == bytes,
        None => index_of_bytes(snapshot.index@) == Some(s.keywords),
    }
}

/// A repository that its files hold as it is: each of its identifiers is
/// read back from its canonical text; the topic and the path of each
/// note are single lines, and not empty; and what it keeps as unread
/// cannot be read.
pub open spec fn kept(s: StoreView) -> bool {
    &&& forall|t: Seq<char>, p: Seq<char>|
        #[trigger] s.path_exists(t, p) ==> match s.topics[t].heads[p] {
            HeadView::Note(id) => reads_back(id),
            HeadView::Unread(text) => identifier_of(text) is None,
        }
    &&& forall|i: int|
        0 <= i < s.notes.len() ==> storable(#[trigger] s.notes[i]) && reads_back(
            s.notes[i].note_id,
        )
    &&& forall|i: int|
        0 <= i < s.unread.len() ==> reads_back((#[trigger] s.unread[i]).id) && parse_record(
            s.unread[i].id,
            s.unread[i].text,
        ) is Err
    &&& forall|i: int| 0 <= i < s.contents.len() ==> reads_back((#[trigger] s.contents[i]).id)
    &&& s.unread_index matches Some(bytes) ==> index_of_bytes(bytes) is None && s.keywords
        == Map::<Seq<char>, Seq<Identifier>>::empty()
}

/// The names among `found`, in their order, that are no names of
/// `paths`: the files of a topic's paths that are to be removed when the
/// paths are written.
pub open spec fn stale(found: Seq<Seq<char>>, paths: Seq<Seq<char>>) -> Seq<Seq<char>>
    decreases found.len(),
{
    if found.len() == 0 {
        Seq::empty()
    } else if paths.contains(found.last()) {
        stale(found.drop_last(), paths)
    } else {
        stale(found.drop_last(), paths).push(found.last())
    }
}

/// What `attach` says of a place that is no directory.
pub open spec fn not_directory_text(base_dir: Seq<char>) -> Seq<char> {
    "Given path '"@ + base_dir + "' is not a directory."@
}

/// What `attach` says of a directory that lacks a part of a repository.
pub open spec fn invalid_structure_text(base_dir: Seq<char>) -> Seq<char> {
    "Invalid ztln structure in dir '"@ + base_dir + "'."@
}

/// The note that a file of `meta` or of `notes` belongs to.
pub fn note_of_file(name: &str) -> (r: Option<Identifier>)
    ensures
        r == named_note(name@),
{
    match Identifier::parse_str(name) {
        Some(id) => if str_eq(id.text().as_str(), name) {
            Some(id)
        } else {
            None
        },
        None => None,
    }
}

/// The names among `found` that are no names of `paths`: of the files
/// found in the directory of a topic's paths, those to remove when
/// `paths` are written there.
pub fn stale_paths(found: &Vec<String>, paths: &Vec<TextFile>) -> (r: Vec<String>)
    ensures
        views(r@) == stale(views(found@), file_names(paths@)),
{
    let mut r: Vec<String> = Vec::new();
    let mut i: usize = 0;
    proof {
        assert(views(found@).take(0) =~= Seq::<Seq<char>>::empty());
        assert(views(r@) =~= Seq::<Seq<char>>::empty());
    }
    while i < found.len()
        invariant
            i <= found.len(),
            views(r@) == stale(views(found@).take(i as int), file_names(paths@)),
        decreases found.len() - i,
    {
        let mut j: usize = 0;
        let mut there = false;
        while j < paths.len() && !there
            invariant
                j <= paths.len(),
                i < found.len(),
                there ==> file_names(paths@).contains(found@[i as int]@),
                !there ==> forall|k: int|
                    0 <= k < j ==> (#[trigger] file_names(paths@)[k]) != found@[i as int]@,
            decreases paths.len() - j + (if there { 0int } else { 1int }),
        {
            if str_eq(paths[j].name.as_str(), found[i].as_str()) {
                there = true;
                assert(file_names(paths@)[j as int] == found@[i as int]@);
            } else {
                j += 1;
            }
        }
        proof {
            let next = views(found@).take(i + 1);
            assert(next.drop_last() =~= views(found@).take(i as int));
            assert(next.last() == found@[i as int]@);
        }
        if !there {
            let name = found[i].clone();
            proof {
                assert(views(r@.push(name)) =~= views(r@).push(name@));
            }
            r.push(name);
        }
        i += 1;
    }
    proof {
        assert(views(found@).take(found.len() as int) =~= views(found@));
    }
    r
}

} // verus!
