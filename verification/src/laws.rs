use crate::engine::{
    default_location, default_topic, keyword_notes, note_added, path_created, path_removed,
    path_settled, relative_note, resolved, topic_created, topic_settled, Outcome,
};
use crate::error::ErrorView;
use crate::ident::{hyphenated, identifier_of, reads_back, Identifier};
use crate::note::{law_record_round_trip, parse_record, storable};
use crate::snapshot::{
    file_names, head_of_text, head_text, kept, loaded, loaded_contents, loaded_heads,
    loaded_notes, loaded_topics, loaded_unread, named_note, saved, topic_names, topic_saved,
    BlobFile, Snapshot, TextFile, TopicFiles,
};
use crate::text::{increasing, lemma_precedes_asymmetric};
use crate::location::{location_of, LocationView};
use crate::model::{
    first_match, has_id, head_word, holds_id, lemma_first_match, lemma_first_match_is, new_note,
    BlobView, HeadView, StoreView, UnreadView,
};
use crate::note::NoteView;
use vstd::prelude::*;

verus! {

/// The metadata that the store gives for a note is that of this note.
pub proof fn lemma_note_is_its_own(s: StoreView, id: Identifier)
    ensures
        s.note(id) matches Some(n) ==> n.note_id == id,
{
    lemma_first_match(s.notes, has_id(id));
}

/// What adding a note to a path changes: the note is the head of the path
/// and has the metadata it was added with; no other note, no other path
/// and nothing else is touched.
pub proof fn lemma_new_note(
    s: StoreView,
    id: Identifier,
    topic: Seq<char>,
    path: Seq<char>,
    bytes: Seq<u8>,
)
    requires
        s.topic_exists(topic),
        !s.collides(id),
    ensures
        ({
            let after = s.with_new_note(id, topic, path, bytes);
            &&& after.head(topic, path) == Some(id)
            &&& after.note(id) == Some(new_note(id, s.head(topic, path), topic, path))
            &&& after.content(id) == Some(bytes)
            &&& after.current_topic == s.current_topic
            &&& after.keywords == s.keywords
            &&& forall|t: Seq<char>| after.topic_exists(t) == s.topic_exists(t)
            &&& forall|t: Seq<char>| after.current_path(t) == s.current_path(t)
            &&& forall|t: Seq<char>, p: Seq<char>|
                !(t == topic && p == path) ==> after.head(t, p) == s.head(t, p)
            &&& after.unread == s.unread
            &&& after.unread_index == s.unread_index
            &&& forall|other: Identifier|
                other != id ==> after.note(other) == s.note(other) && after.content(other)
                    == s.content(other) && after.collides(other) == s.collides(other)
        }),
{
    let note = new_note(id, s.head(topic, path), topic, path);
    let after = s.with_new_note(id, topic, path, bytes);
    lemma_first_match(s.notes, has_id(id));
    lemma_first_match(s.contents, holds_id(id));
    assert(after.notes == s.notes.push(note));
    assert(after.contents == s.contents.push(BlobView { id, bytes }));
    lemma_first_match_is(after.notes, has_id(id), s.notes.len() as int);
    lemma_first_match_is(after.contents, holds_id(id), s.contents.len() as int);
    assert forall|other: Identifier| other != id implies after.note(other) == s.note(other)
        && after.content(other) == s.content(other) by {
        lemma_first_match(s.notes, has_id(other));
        lemma_first_match(s.contents, holds_id(other));
        let i = first_match(s.notes, has_id(other));
        let j = first_match(s.contents, holds_id(other));
        if i < s.notes.len() {
            lemma_first_match_is(after.notes, has_id(other), i);
        } else {
            lemma_first_match_is(after.notes, has_id(other), after.notes.len() as int);
        }
        if j < s.contents.len() {
            lemma_first_match_is(after.contents, holds_id(other), j);
        } else {
            lemma_first_match_is(after.contents, holds_id(other), after.contents.len() as int);
        }
    }
    assert forall|t: Seq<char>, p: Seq<char>| !(t == topic && p == path) implies after.head(t, p)
        == s.head(t, p) by {
        if t == topic {
            assert(after.topics[t].heads == s.topics[t].heads.insert(path, HeadView::Note(id)));
        }
    }
}

/// Topic uniqueness. Creating a topic succeeds exactly where the
/// repository has no topic of that name; creating it once more is
/// refused, with the name in the error, and changes nothing.
pub proof fn law_topic_uniqueness(s: StoreView, name: Seq<char>)
    ensures
        topic_created(s, name).result is Ok <==> !s.topic_exists(name),
        topic_created(topic_created(s, name).state, name) == (Outcome::<()> {
            result: Err(ErrorView::TopicAlreadyExists(name)),
            state: topic_created(s, name).state,
        }),
{
}

/// The first topic becomes the current one. Where a repository has no
/// current topic, a topic that is created becomes it; where it has one,
/// creating a topic does not change it. So the first topic of an empty
/// repository is its current topic, and stays so when a second is created.
pub proof fn law_first_topic_is_current(s: StoreView, first: Seq<char>, second: Seq<char>)
    ensures
        s.current_topic is None && !s.topic_exists(first) ==> topic_created(
            s,
            first,
        ).state.current_topic == Some(first),
        s.current_topic is Some ==> topic_created(s, first).state.current_topic == s.current_topic,
        topic_created(StoreView::empty(), first).result is Ok,
        topic_created(StoreView::empty(), first).state.current_topic == Some(first),
        topic_created(topic_created(StoreView::empty(), first).state, second).state.current_topic
            == Some(first),
{
}

/// The repository after notes were added one after the other, each with
/// the same topic and the same path given, or not given.
pub open spec fn notes_added(
    s: StoreView,
    ids: Seq<Identifier>,
    contents: Seq<Seq<u8>>,
    topic: Option<Seq<char>>,
    path: Option<Seq<char>>,
) -> StoreView
    decreases ids.len(),
{
    if ids.len() == 0 {
        s
    } else {
        note_added(
            notes_added(s, ids.drop_last(), contents.drop_last(), topic, path),
            ids.last(),
            contents.last(),
            topic,
            path,
        ).state
    }
}

/// What holds once `k` notes were added, one at least: the topic and
/// the path of the first are the current ones, and have the last note
/// at their head; none of the notes to come is in the repository.
spec fn chain_state(
    after: StoreView,
    ids: Seq<Identifier>,
    k: int,
    topic: Option<Seq<char>>,
    path: Option<Seq<char>>,
    t: Seq<char>,
    p: Seq<char>,
) -> bool {
    &&& topic_settled(after, topic) == (Outcome { result: Ok(t), state: after })
    &&& path_settled(after, t, path) == (Outcome { result: Ok(p), state: after })
    &&& after.topic_exists(t)
    &&& after.head(t, p) == Some(ids[k - 1])
    &&& forall|j: int| k <= j < ids.len() ==> !after.collides(#[trigger] ids[j])
}

proof fn lemma_chain_step(
    before: StoreView,
    ids: Seq<Identifier>,
    content: Seq<u8>,
    k: int,
    topic: Option<Seq<char>>,
    path: Option<Seq<char>>,
    t: Seq<char>,
    p: Seq<char>,
)
    requires
        1 <= k < ids.len(),
        forall|i: int, j: int| 0 <= i < j < ids.len() ==> ids[i] != ids[j],
        chain_state(before, ids, k, topic, path, t, p),
    ensures
        note_added(before, ids[k], content, topic, path).result == Ok::<NoteView, ErrorView>(
            new_note(ids[k], Some(ids[k - 1]), t, p),
        ),
        chain_state(
            note_added(before, ids[k], content, topic, path).state,
            ids,
            k + 1,
            topic,
            path,
            t,
            p,
        ),
{
    let after = note_added(before, ids[k], content, topic, path).state;
    assert(!before.collides(ids[k]));
    lemma_new_note(before, ids[k], t, p, content);
    assert(after == before.with_new_note(ids[k], t, p, content));
    assert forall|j: int| k + 1 <= j < ids.len() implies !after.collides(#[trigger] ids[j]) by {
        assert(ids[j] != ids[k]);
        assert(!before.collides(ids[j]));
    }
    assert(after.current_path(t) == before.current_path(t));
    assert(after.path_exists(t, p));
    if path is Some {
        assert(before.path_exists(t, p) ==> before.with_current_path(t, p) == before);
        assert(after.topics[t].current_path == Some(p));
        assert(after.topics.insert(t, after.topics[t]) =~= after.topics);
        assert(after.with_current_path(t, p) == after);
    }
    if topic is Some {
        assert(after.with_current_topic(t) == after);
    }
}

/// What the first of a sequence of notes leaves: see `chain_state`.
proof fn lemma_chain_start(
    s: StoreView,
    ids: Seq<Identifier>,
    content: Seq<u8>,
    topic: Option<Seq<char>>,
    path: Option<Seq<char>>,
)
    requires
        ids.len() >= 1,
        forall|i: int, j: int| 0 <= i < j < ids.len() ==> ids[i] != ids[j],
        forall|j: int| 0 <= j < ids.len() ==> !s.collides(#[trigger] ids[j]),
        note_added(s, ids[0], content, topic, path).result is Ok,
    ensures
        ({
            let first = note_added(s, ids[0], content, topic, path);
            let n = first.result->Ok_0;
            chain_state(first.state, ids, 1, topic, path, n.topic, n.path)
        }),
{
    let settled_topic = topic_settled(s, topic);
    let t = settled_topic.result->Ok_0;
    let s1 = settled_topic.state;
    let settled_path = path_settled(s1, t, path);
    let p = settled_path.result->Ok_0;
    let s2 = settled_path.state;
    let after = note_added(s, ids[0], content, topic, path).state;
    assert(s2.notes == s.notes && s2.contents == s.contents);
    assert(!s.collides(ids[0]));
    assert(!s2.collides(ids[0]));
    assert(s2.topic_exists(t));
    lemma_new_note(s2, ids[0], t, p, content);
    assert(after == s2.with_new_note(ids[0], t, p, content));
    assert forall|j: int| 1 <= j < ids.len() implies !after.collides(#[trigger] ids[j]) by {
        assert(ids[j] != ids[0]);
        assert(!s.collides(ids[j]));
        assert(s2.note(ids[j]) == s.note(ids[j]));
        assert(s2.content(ids[j]) == s.content(ids[j]));
    }
    assert(s2.current_topic == Some(t));
    assert(after.current_topic == Some(t));
    assert(after.with_current_topic(t) == after);
    assert(s2.current_path(t) == Some(p));
    assert(after.current_path(t) == Some(p));
    assert(after.topics[t].current_path == Some(p));
    assert(after.topics.insert(t, after.topics[t]) =~= after.topics);
    assert(after.with_current_path(t, p) == after);
}

proof fn lemma_chain(
    s: StoreView,
    ids: Seq<Identifier>,
    contents: Seq<Seq<u8>>,
    topic: Option<Seq<char>>,
    path: Option<Seq<char>>,
    k: int,
)
    requires
        ids.len() == contents.len(),
        1 <= k <= ids.len(),
        forall|i: int, j: int| 0 <= i < j < ids.len() ==> ids[i] != ids[j],
        forall|j: int| 0 <= j < ids.len() ==> !s.collides(#[trigger] ids[j]),
        note_added(s, ids[0], contents[0], topic, path).result is Ok,
    ensures
        ({
            let n = note_added(s, ids[0], contents[0], topic, path).result->Ok_0;
            chain_state(
                notes_added(s, ids.take(k), contents.take(k), topic, path),
                ids,
                k,
                topic,
                path,
                n.topic,
                n.path,
            )
        }),
    decreases k,
{
    let n = note_added(s, ids[0], contents[0], topic, path).result->Ok_0;
    assert(ids.take(k).drop_last() =~= ids.take(k - 1));
    assert(contents.take(k).drop_last() =~= contents.take(k - 1));
    assert(ids.take(k).last() == ids[k - 1]);
    assert(contents.take(k).last() == contents[k - 1]);
    if k == 1 {
        assert(ids.take(0) =~= Seq::<Identifier>::empty());
        assert(notes_added(s, ids.take(0), contents.take(0), topic, path) == s);
        lemma_chain_start(s, ids, contents[0], topic, path);
    } else {
        lemma_chain(s, ids, contents, topic, path, k - 1);
        let before = notes_added(s, ids.take(k - 1), contents.take(k - 1), topic, path);
        lemma_chain_step(before, ids, contents[k - 1], k - 1, topic, path, n.topic, n.path);
    }
}

/// The first note of a path. Where the topic of a new note is settled,
/// has no current path and does not have the path that the note goes
/// to, which is the path that is given, or `main`, a note under an
/// identifier that the repository does not have is accepted: it has no
/// parent, it is on that topic and that path, and it is the head of the
/// path, which is the topic's current path from then on.
pub proof fn law_first_note(
    s: StoreView,
    id: Identifier,
    content: Seq<u8>,
    topic: Option<Seq<char>>,
    path: Option<Seq<char>>,
)
    requires
        topic_settled(s, topic).result is Ok,
        topic_settled(s, topic).state.current_path(topic_settled(s, topic).result->Ok_0) is None,
        !topic_settled(s, topic).state.path_exists(
            topic_settled(s, topic).result->Ok_0,
            match path {
                Some(p) => p,
                None => crate::model::main_path(),
            },
        ),
        !s.collides(id),
    ensures
        ({
            let t = topic_settled(s, topic).result->Ok_0;
            let p = match path {
                Some(p) => p,
                None => crate::model::main_path(),
            };
            let added = note_added(s, id, content, topic, path);
            &&& added.result == Ok::<NoteView, ErrorView>(new_note(id, None, t, p))
            &&& added.state.head(t, p) == Some(id)
            &&& added.state.current_path(t) == Some(p)
        }),
{
    let t = topic_settled(s, topic).result->Ok_0;
    let p = match path {
        Some(p) => p,
        None => crate::model::main_path(),
    };
    let s1 = topic_settled(s, topic).state;
    let s2 = path_settled(s1, t, path).state;
    assert(s2 == s1.with_current_path(t, p));
    assert(s2.notes == s.notes && s2.contents == s.contents && s2.unread == s.unread);
    assert(!s2.collides(id));
    assert(s2.topics[t].heads == s1.topics[t].heads);
    assert(s2.head(t, p) is None);
    lemma_new_note(s2, id, t, p, content);
}

/// The next note of a path. A note that is added after another, with
/// the same topic and the same path given, or not given, under an
/// identifier that the repository does not have, is accepted: it has
/// the note before it as its parent, it is on the topic and the path of
/// that note, and it is the new head of the path.
pub proof fn law_next_note(
    s: StoreView,
    first: Identifier,
    second: Identifier,
    content: Seq<u8>,
    more: Seq<u8>,
    topic: Option<Seq<char>>,
    path: Option<Seq<char>>,
)
    requires
        !s.collides(first),
        note_added(s, first, content, topic, path).result is Ok,
        !note_added(s, first, content, topic, path).state.collides(second),
    ensures
        ({
            let before = note_added(s, first, content, topic, path);
            let was = before.result->Ok_0;
            let added = note_added(before.state, second, more, topic, path);
            &&& second != first
            &&& added.result == Ok::<NoteView, ErrorView>(
                new_note(second, Some(first), was.topic, was.path),
            )
            &&& added.state.head(was.topic, was.path) == Some(second)
        }),
{
    let before = note_added(s, first, content, topic, path);
    let was = before.result->Ok_0;
    let t = topic_settled(s, topic).result->Ok_0;
    let s1 = topic_settled(s, topic).state;
    let p = path_settled(s1, t, path).result->Ok_0;
    let s2 = path_settled(s1, t, path).state;
    assert(s2.notes == s.notes && s2.contents == s.contents && s2.unread == s.unread);
    lemma_new_note(s2, first, t, p, content);
    assert(before.state.collides(first));
    assert(s2.collides(second) == before.state.collides(second));
    assert(!s.collides(second));
    let ids = seq![first, second];
    lemma_chain_start(s, ids, content, topic, path);
    lemma_chain_step(before.state, ids, more, 1, topic, path, was.topic, was.path);
    lemma_new_note(before.state, second, was.topic, was.path, more);
}

/// Parent-chain correctness. Notes are added one after the other, each
/// under an identifier that the repository does not have yet, with the
/// same topic and the same path given, or not given, and the first is
/// accepted. Then every one is accepted; each but the first has the one
/// before it as its parent; the first has as its parent the head that its
/// path had, so none where the topic had no path at all; and all are on
/// the topic and the path of the first.
pub proof fn law_parent_chain(
    s: StoreView,
    ids: Seq<Identifier>,
    contents: Seq<Seq<u8>>,
    topic: Option<Seq<char>>,
    path: Option<Seq<char>>,
    k: int,
)
    requires
        ids.len() == contents.len(),
        0 <= k < ids.len(),
        forall|i: int, j: int| 0 <= i < j < ids.len() ==> ids[i] != ids[j],
        forall|j: int| 0 <= j < ids.len() ==> !s.collides(#[trigger] ids[j]),
        note_added(s, ids[0], contents[0], topic, path).result is Ok,
    ensures
        ({
            let first = note_added(s, ids[0], contents[0], topic, path).result->Ok_0;
            let before = notes_added(s, ids.take(k), contents.take(k), topic, path);
            let added = note_added(before, ids[k], contents[k], topic, path);
            &&& added.result matches Ok(n)
            &&& n.note_id == ids[k]
            &&& n.topic == first.topic
            &&& n.path == first.path
            &&& k > 0 ==> n.parent_id == Some(ids[k - 1])
            &&& k == 0 && (forall|p: Seq<char>| !s.path_exists(first.topic, p)) ==> n.parent_id
                is None
        }),
{
    let first = note_added(s, ids[0], contents[0], topic, path).result->Ok_0;
    if k == 0 {
        assert(ids.take(0) =~= Seq::<Identifier>::empty());
        assert(notes_added(s, ids.take(0), contents.take(0), topic, path) == s);
        let settled_topic = topic_settled(s, topic);
        let t = settled_topic.result->Ok_0;
        let s1 = settled_topic.state;
        let settled_path = path_settled(s1, t, path);
        let p = settled_path.result->Ok_0;
        let s2 = settled_path.state;
        assert(first.topic == t);
        assert(s1.topics == s.topics);
        if forall|q: Seq<char>| !s.path_exists(first.topic, q) {
            assert forall|q: Seq<char>| !s1.path_exists(t, q) by {
                assert(!s.path_exists(first.topic, q));
            }
            assert(!s1.path_exists(t, p));
            if path is Some && s1.current_path(t) is Some {
                assert(!s1.path_exists(t, s1.current_path(t)->0));
                assert(s1.head(t, s1.current_path(t)->0) is None);
            }
            assert(s2.head(t, p) is None);
        }
    } else {
        lemma_chain(s, ids, contents, topic, path, k);
        let before = notes_added(s, ids.take(k), contents.take(k), topic, path);
        lemma_chain_step(before, ids, contents[k], k, topic, path, first.topic, first.path);
    }
}

/// Branch-copy semantics. A path that is created from another path of
/// its topic, no step back, gets the head of that path; and a note that
/// is then added to the other path leaves the head of the new one as it is.
pub proof fn law_branch_copy(
    s: StoreView,
    new_path: Seq<char>,
    location: Option<Seq<char>>,
    id: Identifier,
    content: Seq<u8>,
)
    requires
        path_created(s, new_path, location).result is Ok,
        location_of(default_location(location)) matches Some(
            LocationView::Relative { topic, path, steps },
        ) && steps == 0,
    ensures
        ({
            let l = location_of(default_location(location))->0;
            let t = default_topic(s, l->topic)->Ok_0;
            let source = if l->path == head_word() {
                s.current_path(t)->0
            } else {
                l->path
            };
            let branched = path_created(s, new_path, location).state;
            let later = note_added(branched, id, content, Some(t), Some(source)).state;
            &&& s.path_exists(t, source)
            &&& !s.path_exists(t, new_path)
            &&& branched.head(t, new_path) == s.head(t, source)
            &&& branched.head(t, source) == s.head(t, source)
            &&& later.head(t, new_path) == branched.head(t, new_path)
        }),
{
    let l = location_of(default_location(location))->0;
    let t = default_topic(s, l->topic)->Ok_0;
    let source = if l->path == head_word() {
        s.current_path(t)->0
    } else {
        l->path
    };
    let branched = path_created(s, new_path, location).state;
    lemma_note_is_its_own(s, s.head(t, source)->0);
    assert(branched == s.with_head(t, new_path, s.head(t, source)->0));
    assert(branched.topics[t].heads == s.topics[t].heads.insert(
        new_path,
        HeadView::Note(s.head(t, source)->0),
    ));
    assert(new_path != source);
    let first = topic_settled(branched, Some(t));
    let s1 = first.state;
    assert(s1.topics == branched.topics);
    assert(s1.path_exists(t, source));
    let second = path_settled(s1, t, Some(source));
    let s2 = second.state;
    assert(s2 == s1.with_current_path(t, source));
    assert(s2.topics[t].heads == s1.topics[t].heads);
    assert(s2.head(t, new_path) == branched.head(t, new_path));
    if !s2.collides(id) {
        lemma_new_note(s2, id, t, source, content);
    }
}

/// Removing a path. A path that was removed cannot be removed once more:
/// the second removal is refused, with the topic and the path in the
/// error. The removal takes nothing else away: no other path, and no note.
pub proof fn law_path_removal(s: StoreView, path: Seq<char>, topic: Option<Seq<char>>)
    requires
        path_removed(s, path, topic).result is Ok,
    ensures
        ({
            let after = path_removed(s, path, topic).state;
            let t = default_topic(s, topic)->Ok_0;
            &&& path_removed(after, path, topic) == (Outcome::<NoteView> {
                result: Err(ErrorView::PathDoesNotExist(t, path)),
                state: after,
            })
            &&& after.notes == s.notes
            &&& after.contents == s.contents
            &&& forall|t2: Seq<char>, p: Seq<char>|
                !(t2 == t && p == path) ==> after.head(t2, p) == s.head(t2, p)
        }),
{
    let after = path_removed(s, path, topic).state;
    let t = default_topic(s, topic)->Ok_0;
    assert(after == s.without_path(t, path));
    assert(after.topics[t].heads == s.topics[t].heads.remove(path));
    assert forall|t2: Seq<char>, p: Seq<char>| !(t2 == t && p == path) implies after.head(t2, p)
        == s.head(t2, p) by {
        if t2 == t {
            assert(after.topics[t].heads.contains_key(p) == s.topics[t].heads.contains_key(p));
        }
    }
}

/// Once a walk has come to no note, more steps come to none.
pub proof fn lemma_trace_stays_empty(
    s: StoreView,
    head: Option<Identifier>,
    length: nat,
    steps: nat,
)
    requires
        s.trace(head, length) == Ok::<Option<NoteView>, ErrorView>(None),
        steps >= length,
    ensures
        s.trace(head, steps) == Ok::<Option<NoteView>, ErrorView>(None),
    decreases length,
{
    if head is Some && length > 0 {
        match s.record(head->0) {
            Ok(Some(n)) => {
                lemma_trace_stays_empty(s, n.parent_id, (length - 1) as nat, (steps - 1) as nat);
            },
            _ => {},
        }
    }
}

/// History-walk bounds. Take a location in relative form, and let it
/// lead to no note when it is given `length` steps back in place of its
/// own: the chain of parents from the head of its path ends within so
/// many steps. Then the location leads to no note if it asks for `length`
/// steps or more, and that is no error; and a location that asks for no
/// step back leads to what is at the head of its path.
pub proof fn law_history_walk_bounds(s: StoreView, expression: Seq<char>, length: nat)
    requires
        location_of(expression) matches Some(LocationView::Relative { topic, path, steps })
            && length <= u64::MAX && relative_note(s, topic, path, length as u64) == Ok::<
            Option<NoteView>,
            ErrorView,
        >(None),
    ensures
        ({
            let l = location_of(expression)->0;
            let t = default_topic(s, l->topic)->Ok_0;
            let p = if l->path == head_word() {
                match s.current_path(t) {
                    Some(q) => q,
                    None => crate::model::main_path(),
                }
            } else {
                l->path
            };
            &&& l->steps >= length ==> resolved(s, expression) == Ok::<
                Option<NoteView>,
                ErrorView,
            >(None)
            &&& l->steps == 0 ==> resolved(s, expression) == (match s.head(t, p) {
                Some(h) => s.record(h),
                None => Ok(None),
            })
        }),
{
    let l = location_of(expression)->0;
    let t = default_topic(s, l->topic)->Ok_0;
    let p = if l->path == head_word() {
        match s.current_path(t) {
            Some(q) => q,
            None => crate::model::main_path(),
        }
    } else {
        l->path
    };
    assert(s.trace(s.head(t, p), length) == Ok::<Option<NoteView>, ErrorView>(None));
    if l->steps >= length {
        lemma_trace_stays_empty(s, s.head(t, p), length, l->steps as nat);
    }
}

/// A note that is among `ids` and has metadata is among the metadata
/// that the store gives for `ids`, where it gives any.
pub proof fn lemma_gathered_holds(s: StoreView, ids: Seq<Identifier>, id: Identifier)
    requires
        ids.contains(id),
        s.note(id) is Some,
        s.gathered(ids) is Ok,
    ensures
        s.gathered(ids)->Ok_0.contains(s.note(id)->0),
    decreases ids.len(),
{
    let rest = s.gathered(ids.drop_last())->Ok_0;
    let all = s.gathered(ids)->Ok_0;
    if ids.last() == id {
        assert(all == rest.push(s.note(id)->0));
        assert(all[rest.len() as int] == s.note(id)->0);
    } else {
        let i = choose|i: int| 0 <= i < ids.len() && ids[i] == id;
        assert(ids.drop_last()[i] == id);
        lemma_gathered_holds(s, ids.drop_last(), id);
        let j = choose|j: int| 0 <= j < rest.len() && rest[j] == s.note(id)->0;
        match s.record(ids.last()) {
            Ok(Some(n)) => {
                assert(all[j] == rest[j]);
            },
            _ => {},
        }
    }
}

/// Where the repository has no record that cannot be read, the notes of
/// any list are given.
pub proof fn lemma_gathered_reads(s: StoreView, ids: Seq<Identifier>)
    requires
        s.unread.len() == 0,
    ensures
        s.gathered(ids) is Ok,
    decreases ids.len(),
{
    if ids.len() > 0 {
        lemma_gathered_reads(s, ids.drop_last());
        assert(s.defect(ids.last()) is None);
    }
}

/// Keyword index accumulation. A note that is put under a keyword is
/// under it once more than before, after the notes that were there, and
/// no other keyword changes; so a note put under two keywords is under
/// each, and a note put twice under one keyword counts twice. A note that
/// has metadata is found under each of its keywords, wherever the notes
/// under the keyword are given; and they are given wherever the
/// repository has no record and no index that cannot be read.
pub proof fn law_keyword_accumulation(
    s: StoreView,
    first: Seq<char>,
    second: Seq<char>,
    id: Identifier,
)
    ensures
        s.with_keyword(first, id).tagged(first) == s.tagged(first).push(id),
        forall|k: Seq<char>| k != first ==> s.with_keyword(first, id).tagged(k) == s.tagged(k),
        s.with_keyword(first, id).with_keyword(second, id).tagged(first).contains(id),
        s.with_keyword(first, id).with_keyword(second, id).tagged(second).contains(id),
        s.with_keyword(first, id).with_keyword(first, id).tagged(first).len() == s.tagged(
            first,
        ).len() + 2,
        first != second ==> s.with_keyword(first, id).with_keyword(second, id).tagged(first).len()
            == s.tagged(first).len() + 1,
        s.note(id) is Some ==> (keyword_notes(
            s.with_keyword(first, id).with_keyword(second, id),
            first,
        ) matches Ok(notes) ==> notes.contains(s.note(id)->0)),
        s.note(id) is Some ==> (keyword_notes(
            s.with_keyword(first, id).with_keyword(second, id),
            second,
        ) matches Ok(notes) ==> notes.contains(s.note(id)->0)),
        s.unread.len() == 0 && s.unread_index is None ==> keyword_notes(
            s.with_keyword(first, id).with_keyword(second, id),
            first,
        ) is Ok && keyword_notes(s.with_keyword(first, id).with_keyword(second, id), second) is Ok,
{
    let one = s.with_keyword(first, id);
    let two = one.with_keyword(second, id);
    let n = s.tagged(first).len() as int;
    assert(one.tagged(first)[n] == id);
    assert(two.tagged(second)[one.tagged(second).len() as int] == id);
    if first == second {
        assert(two.tagged(first)[n] == id);
    } else {
        assert(two.tagged(first) == one.tagged(first));
    }
    if s.unread.len() == 0 {
        lemma_gathered_reads(two, two.tagged(first));
        lemma_gathered_reads(two, two.tagged(second));
    }
    if s.note(id) is Some {
        assert(two.notes == s.notes);
        assert(two.note(id) == s.note(id));
        if two.gathered(two.tagged(first)) is Ok {
            lemma_gathered_holds(two, two.tagged(first), id);
        }
        if two.gathered(two.tagged(second)) is Ok {
            lemma_gathered_holds(two, two.tagged(second), id);
        }
    }
}

proof fn lemma_heads_loaded(files: Seq<TextFile>, heads: Map<Seq<char>, HeadView>, k: int)
    requires
        0 <= k <= files.len(),
        increasing(file_names(files)),
        forall|p: Seq<char>| file_names(files).contains(p) <==> heads.contains_key(p),
        forall|j: int|
            0 <= j < files.len() ==> head_of_text((#[trigger] files[j]).text@)
                == heads[files[j].name@],
    ensures
        forall|q: Seq<char>|
            loaded_heads(files.take(k)).contains_key(q) <==> exists|i: int|
                0 <= i < k && file_names(files)[i] == q,
        forall|i: int|
            0 <= i < k ==> loaded_heads(files.take(k))[#[trigger] file_names(files)[i]]
                == heads[file_names(files)[i]],
        k == files.len() ==> loaded_heads(files) == heads,
    decreases k,
{
    let names = file_names(files);
    let here = loaded_heads(files.take(k));
    if k > 0 {
        lemma_heads_loaded(files, heads, k - 1);
        let before = loaded_heads(files.take(k - 1));
        let last = files[k - 1];
        assert(files.take(k).drop_last() =~= files.take(k - 1));
        assert(files.take(k).last() == last);
        assert(names[k - 1] == last.name@);
        assert(here == before.insert(last.name@, heads[last.name@]));
        assert forall|i: int| 0 <= i < k implies here[#[trigger] names[i]] == heads[names[i]] by {
            if i < k - 1 {
                lemma_precedes_asymmetric(names[i], names[k - 1]);
            }
        }
        assert forall|q: Seq<char>| here.contains_key(q) <==> (exists|i: int|
            0 <= i < k && names[i] == q) by {
            if q == names[k - 1] {
            } else if before.contains_key(q) {
                let i = choose|i: int| 0 <= i < k - 1 && names[i] == q;
                assert(0 <= i < k && names[i] == q);
            } else if exists|i: int| 0 <= i < k && names[i] == q {
                let i = choose|i: int| 0 <= i < k && names[i] == q;
                assert(0 <= i < k - 1 && names[i] == q);
            }
        }
    } else {
        assert(files.take(0) =~= Seq::<TextFile>::empty());
    }
    if k == files.len() {
        assert(files.take(k) =~= files);
        assert forall|q: Seq<char>| here.contains_key(q) <==> heads.contains_key(q) by {
            assert(names.contains(q) <==> heads.contains_key(q));
            if names.contains(q) {
                let i = choose|i: int| 0 <= i < names.len() && names[i] == q;
                assert(0 <= i < k && names[i] == q);
            }
        }
        assert forall|q: Seq<char>| here.contains_key(q) implies here[q] == heads[q] by {
            let i = choose|i: int| 0 <= i < k && names[i] == q;
            assert(here[names[i]] == heads[names[i]]);
        }
        assert(here =~= heads);
    }
}

proof fn lemma_topics_loaded(files: Seq<TopicFiles>, s: StoreView, k: int)
    requires
        0 <= k <= files.len(),
        increasing(topic_names(files)),
        forall|q: Seq<char>| topic_names(files).contains(q) <==> s.topic_exists(q),
        forall|i: int|
            0 <= i < files.len() ==> topic_saved(#[trigger] files[i], s.topics[files[i].name@]),
        kept(s),
    ensures
        forall|q: Seq<char>|
            loaded_topics(files.take(k)).contains_key(q) <==> exists|i: int|
                0 <= i < k && topic_names(files)[i] == q,
        forall|i: int|
            0 <= i < k ==> loaded_topics(files.take(k))[#[trigger] topic_names(files)[i]]
                == s.topics[topic_names(files)[i]],
        k == files.len() ==> loaded_topics(files) == s.topics,
    decreases k,
{
    let names = topic_names(files);
    let here = loaded_topics(files.take(k));
    if k > 0 {
        lemma_topics_loaded(files, s, k - 1);
        let before = loaded_topics(files.take(k - 1));
        let last = files[k - 1];
        assert(files.take(k).drop_last() =~= files.take(k - 1));
        assert(files.take(k).last() == last);
        assert(names[k - 1] == last.name@);
        assert(names.contains(names[k - 1]));
        assert(s.topic_exists(last.name@));
        let t = s.topics[last.name@];
        assert(topic_saved(last, t));
        assert forall|j: int| 0 <= j < last.paths@.len() implies head_of_text(
            (#[trigger] last.paths@[j]).text@,
        ) == t.heads[last.paths@[j].name@] by {
            let name = last.paths@[j].name@;
            assert(file_names(last.paths@)[j] == name);
            assert(file_names(last.paths@).contains(name));
            assert(s.path_exists(last.name@, name));
            assert(last.paths@[j].text@ == head_text(t.heads[name]));
            match t.heads[name] {
                HeadView::Note(id) => {
                    assert(reads_back(id));
                    assert(identifier_of(hyphenated(id)) == Some(id));
                },
                HeadView::Unread(text) => {},
            }
        }
        lemma_heads_loaded(last.paths@, t.heads, last.paths@.len() as int);
        assert(here == before.insert(last.name@, t));
        assert forall|i: int| 0 <= i < k implies here[#[trigger] names[i]] == s.topics[names[i]] by {
            if i < k - 1 {
                lemma_precedes_asymmetric(names[i], names[k - 1]);
            }
        }
        assert forall|q: Seq<char>| here.contains_key(q) <==> (exists|i: int|
            0 <= i < k && names[i] == q) by {
            if q == names[k - 1] {
            } else if before.contains_key(q) {
                let i = choose|i: int| 0 <= i < k - 1 && names[i] == q;
                assert(0 <= i < k && names[i] == q);
            } else if exists|i: int| 0 <= i < k && names[i] == q {
                let i = choose|i: int| 0 <= i < k && names[i] == q;
                assert(0 <= i < k - 1 && names[i] == q);
            }
        }
    } else {
        assert(files.take(0) =~= Seq::<TopicFiles>::empty());
    }
    if k == files.len() {
        assert(files.take(k) =~= files);
        assert forall|q: Seq<char>| here.contains_key(q) <==> s.topics.contains_key(q) by {
            assert(names.contains(q) <==> s.topic_exists(q));
            if names.contains(q) {
                let i = choose|i: int| 0 <= i < names.len() && names[i] == q;
                assert(0 <= i < k && names[i] == q);
            }
        }
        assert forall|q: Seq<char>| here.contains_key(q) implies here[q] == s.topics[q] by {
            let i = choose|i: int| 0 <= i < k && names[i] == q;
            assert(here[names[i]] == s.topics[names[i]]);
        }
        assert(here =~= s.topics);
    }
}

proof fn lemma_named_note(id: Identifier)
    requires
        reads_back(id),
    ensures
        named_note(hyphenated(id)) == Some(id),
{
    assert(identifier_of(hyphenated(id)) == Some(id));
}

proof fn lemma_records_loaded(
    files: Seq<TextFile>,
    unread: Seq<UnreadView>,
    notes: Seq<NoteView>,
    k: int,
)
    requires
        0 <= k <= files.len(),
        files.len() == unread.len() + notes.len(),
        forall|i: int|
            0 <= i < unread.len() ==> (#[trigger] files[i]).name@ == hyphenated(unread[i].id)
                && files[i].text@ == unread[i].text && reads_back(unread[i].id) && parse_record(
                unread[i].id,
                unread[i].text,
            ) is Err,
        forall|i: int|
            0 <= i < notes.len() ==> (#[trigger] files[unread.len() + i]).name@ == hyphenated(
                notes[i].note_id,
            ) && files[unread.len() + i].text@ == crate::note::record_text(notes[i]) && storable(
                notes[i],
            ) && reads_back(notes[i].note_id),
    ensures
        loaded_unread(files.take(k)) == unread.take(
            if k < unread.len() {
                k
            } else {
                unread.len() as int
            },
        ),
        loaded_notes(files.take(k)) == notes.take(
            if k < unread.len() {
                0
            } else {
                k - unread.len()
            },
        ),
    decreases k,
{
    let u = unread.len() as int;
    if k > 0 {
        lemma_records_loaded(files, unread, notes, k - 1);
        assert(files.take(k).drop_last() =~= files.take(k - 1));
        assert(files.take(k).last() == files[k - 1]);
        if k - 1 < u {
            lemma_named_note(unread[k - 1].id);
            assert(unread.take(k) =~= unread.take(k - 1).push(unread[k - 1]));
            assert(notes.take(0) =~= Seq::<NoteView>::empty());
        } else {
            let i = k - 1 - u;
            assert(files[k - 1] == files[u + i]);
            lemma_named_note(notes[i].note_id);
            law_record_round_trip(notes[i]);
            assert(notes.take(i + 1) =~= notes.take(i).push(notes[i]));
        }
    } else {
        assert(files.take(0) =~= Seq::<TextFile>::empty());
        assert(unread.take(0) =~= Seq::<UnreadView>::empty());
        assert(notes.take(0) =~= Seq::<NoteView>::empty());
    }
}

proof fn lemma_contents_loaded(files: Seq<BlobFile>, contents: Seq<BlobView>, k: int)
    requires
        0 <= k <= files.len(),
        files.len() == contents.len(),
        forall|i: int|
            0 <= i < contents.len() ==> (#[trigger] files[i]).name@ == hyphenated(contents[i].id)
                && files[i].bytes@ == contents[i].bytes && reads_back(contents[i].id),
    ensures
        loaded_contents(files.take(k)) == contents.take(k),
    decreases k,
{
    if k > 0 {
        lemma_contents_loaded(files, contents, k - 1);
        assert(files.take(k).drop_last() =~= files.take(k - 1));
        assert(files.take(k).last() == files[k - 1]);
        lemma_named_note(contents[k - 1].id);
        assert(contents.take(k) =~= contents.take(k - 1).push(contents[k - 1]));
    } else {
        assert(files.take(0) =~= Seq::<BlobFile>::empty());
        assert(contents.take(0) =~= Seq::<BlobView>::empty());
    }
}

/// What is saved is what is attached. The files of a repository hold
/// that repository and no other, with what it could not read, as long as
/// each of its identifiers is read back from its canonical text, the
/// topic and the path of each note are single lines, and not empty, and
/// what it keeps as unread cannot be read.
pub proof fn law_saved_is_loaded(snapshot: Snapshot, s: StoreView)
    requires
        saved(snapshot, s),
        kept(s),
    ensures
        loaded(snapshot) == s,
{
    lemma_topics_loaded(snapshot.topics@, s, snapshot.topics@.len() as int);
    lemma_records_loaded(snapshot.meta@, s.unread, s.notes, snapshot.meta@.len() as int);
    lemma_contents_loaded(snapshot.notes@, s.contents, snapshot.notes@.len() as int);
    assert(snapshot.meta@.take(snapshot.meta@.len() as int) =~= snapshot.meta@);
    assert(snapshot.notes@.take(snapshot.notes@.len() as int) =~= snapshot.notes@);
    assert(s.notes.take(s.notes.len() as int) =~= s.notes);
    assert(s.unread.take(s.unread.len() as int) =~= s.unread);
    assert(s.contents.take(s.contents.len() as int) =~= s.contents);
}

} // verus!
