use crate::engine::{
    branch_source, default_location, default_topic, keyword_added, note_added, path_chosen,
    path_created, path_removed, path_reset, path_settled, reference_added, resolved,
    resolved_note, topic_chosen, topic_created, topic_of_location, topic_settled,
    with_reference,
};
use crate::ident::Identifier;
use crate::error::ErrorView;
use crate::location::{location_of, LocationView};
use crate::model::{
    has_id, has_short, lemma_first_match, lemma_first_match_is, new_note, StoreView,
};
use crate::note::NoteView;
use vstd::prelude::*;

verus! {

/// Whether the repository has `n` as the metadata of a note.
pub open spec fn stored(s: StoreView, n: NoteView) -> bool {
    exists|k: int| 0 <= k < s.notes.len() && s.notes[k] == n
}

/// A repository as the engine keeps it: no two notes share an identifier;
/// the parent of a note is a note that the repository got before it; and
/// the head of a path is a note of the repository.
pub open spec fn grounded(s: StoreView) -> bool {
    &&& forall|i: int|
        0 <= i < s.notes.len() ==> s.note_index((#[trigger] s.notes[i]).note_id) == i
    &&& forall|i: int|
        0 <= i < s.notes.len() ==> ((#[trigger] s.notes[i]).parent_id matches Some(p)
            ==> s.note_index(p) < i)
    &&& forall|t: Seq<char>, p: Seq<char>|
        (#[trigger] s.head(t, p)) matches Some(h) ==> s.note(h) is Some
}

/// The metadata that the repository gives for a note is metadata that it has.
pub proof fn lemma_note_is_stored(s: StoreView, id: Identifier)
    ensures
        s.note(id) matches Some(n) ==> stored(s, n) && n.note_id == id,
{
    lemma_first_match(s.notes, has_id(id));
}

/// A note that the repository has is the one it gives for its identifier.
pub proof fn lemma_stored_is_found(s: StoreView, n: NoteView)
    requires
        grounded(s),
        stored(s, n),
    ensures
        s.note(n.note_id) == Some(n),
{
    let k = choose|k: int| 0 <= k < s.notes.len() && s.notes[k] == n;
    assert(s.note_index(s.notes[k].note_id) == k);
}

/// A walk comes to a note of the repository, or to none.
pub proof fn lemma_trace_is_stored(s: StoreView, head: Option<Identifier>, steps: nat)
    ensures
        s.trace(head, steps) matches Ok(Some(n)) ==> stored(s, n),
    decreases steps,
{
    if head is Some {
        lemma_note_is_stored(s, head->0);
        match s.record(head->0) {
            Ok(Some(n)) => {
                if steps > 0 {
                    lemma_trace_is_stored(s, n.parent_id, (steps - 1) as nat);
                }
            },
            _ => {},
        }
    }
}

/// The note that a location leads to is a note of the repository.
pub proof fn lemma_resolved_is_stored(s: StoreView, expression: Seq<char>)
    ensures
        resolved(s, expression) matches Ok(Some(n)) ==> stored(s, n),
        resolved_note(s, expression) matches Ok(n) ==> stored(s, n),
{
    match location_of(expression) {
        None => {},
        Some(LocationView::Absolute { short }) => {
            lemma_first_match(s.notes, has_short(short));
        },
        Some(LocationView::Relative { topic, path, steps }) => {
            if default_topic(s, topic) is Ok {
                let t = default_topic(s, topic)->Ok_0;
                let p = if path == crate::model::head_word() {
                    match s.current_path(t) {
                        Some(q) => q,
                        None => crate::model::main_path(),
                    }
                } else {
                    path
                };
                lemma_trace_is_stored(s, s.head(t, p), steps as nat);
            }
        },
    }
}

/// The chain of parents of a note ends: from the note that the
/// repository got as its `i`-th, `i` steps back at most lead to a note
/// without a parent, and one more to none. No record that cannot be read
/// lies on the way.
pub proof fn law_parent_chain_ends(s: StoreView, i: int)
    requires
        grounded(s),
        0 <= i < s.notes.len(),
    ensures
        s.trace(Some(s.notes[i].note_id), (i + 1) as nat) == Ok::<Option<NoteView>, ErrorView>(
            None,
        ),
    decreases i,
{
    let n = s.notes[i];
    assert(s.note_index(n.note_id) == i);
    assert(s.record(n.note_id) == Ok::<Option<NoteView>, ErrorView>(Some(n)));
    match n.parent_id {
        None => {
            assert(s.trace(None, i as nat) == Ok::<Option<NoteView>, ErrorView>(None));
        },
        Some(p) => {
            let j = s.note_index(p);
            lemma_first_match(s.notes, has_id(p));
            assert(s.note(p) == Some(s.notes[j]));
            law_parent_chain_ends(s, j);
            crate::laws::lemma_trace_stays_empty(s, Some(p), (j + 1) as nat, i as nat);
        },
    }
}

/// Whether a repository is grounded lies in its notes and its topics alone.
proof fn lemma_same_ground(s: StoreView, after: StoreView)
    requires
        grounded(s),
        after.notes == s.notes,
        after.topics == s.topics,
    ensures
        grounded(after),
{
    assert forall|i: int| 0 <= i < after.notes.len() implies after.note_index(
        (#[trigger] after.notes[i]).note_id,
    ) == i by {
        assert(s.note_index(s.notes[i].note_id) == i);
    }
    assert forall|i: int| 0 <= i < after.notes.len() implies ((#[trigger] after.notes[i]).parent_id
        matches Some(q) ==> after.note_index(q) < i) by {
        if s.notes[i].parent_id is Some {
            assert(s.note_index(s.notes[i].parent_id->0) < i);
        }
    }
    assert forall|t: Seq<char>, p: Seq<char>|
        (#[trigger] after.head(t, p)) is Some implies after.note(after.head(t, p)->0) is Some by {
        assert(s.head(t, p) == after.head(t, p));
    }
}

/// A repository stays grounded where its notes stay and each of its
/// heads is one it had, or a note of the repository.
proof fn lemma_heads_ground(s: StoreView, after: StoreView)
    requires
        grounded(s),
        after.notes == s.notes,
        forall|t: Seq<char>, p: Seq<char>|
            (#[trigger] after.head(t, p)) matches Some(h) ==> s.head(t, p) == Some(h) || s.note(
                h,
            ) is Some,
    ensures
        grounded(after),
{
    assert forall|i: int| 0 <= i < after.notes.len() implies after.note_index(
        (#[trigger] after.notes[i]).note_id,
    ) == i by {
        assert(s.note_index(s.notes[i].note_id) == i);
    }
    assert forall|i: int| 0 <= i < after.notes.len() implies ((#[trigger] after.notes[i]).parent_id
        matches Some(q) ==> after.note_index(q) < i) by {
        if s.notes[i].parent_id is Some {
            assert(s.note_index(s.notes[i].parent_id->0) < i);
        }
    }
    assert forall|t: Seq<char>, p: Seq<char>|
        (#[trigger] after.head(t, p)) is Some implies after.note(after.head(t, p)->0) is Some by {
        let h = after.head(t, p)->0;
        if s.head(t, p) == Some(h) {
            assert(s.note(h) is Some);
        }
    }
}

/// A new head that is a note of the repository keeps the repository grounded.
proof fn lemma_with_head(s: StoreView, t: Seq<char>, p: Seq<char>, id: Identifier)
    requires
        grounded(s),
        s.topic_exists(t),
        s.note(id) is Some,
    ensures
        grounded(s.with_head(t, p, id)),
{
    let after = s.with_head(t, p, id);
    assert forall|t2: Seq<char>, p2: Seq<char>|
        (#[trigger] after.head(t2, p2)) is Some implies s.head(t2, p2) == after.head(t2, p2) || s.note(
            after.head(t2, p2)->0,
        ) is Some by {
        if t2 == t && p2 == p {
        } else if t2 == t {
            assert(after.topics[t].heads.contains_key(p2) == s.topics[t].heads.contains_key(p2));
        }
    }
    lemma_heads_ground(s, after);
}

proof fn lemma_with_current_path(s: StoreView, t: Seq<char>, p: Seq<char>)
    requires
        grounded(s),
        s.topic_exists(t),
    ensures
        grounded(s.with_current_path(t, p)),
{
    let after = s.with_current_path(t, p);
    assert forall|t2: Seq<char>, p2: Seq<char>|
        (#[trigger] after.head(t2, p2)) is Some implies s.head(t2, p2) == after.head(t2, p2) || s.note(
            after.head(t2, p2)->0,
        ) is Some by {
        if t2 == t {
            assert(after.topics[t].heads == s.topics[t].heads);
        }
    }
    lemma_heads_ground(s, after);
}

proof fn lemma_with_topic(s: StoreView, t: Seq<char>)
    requires
        grounded(s),
    ensures
        grounded(s.with_topic(t)),
{
    let after = s.with_topic(t);
    assert forall|t2: Seq<char>, p2: Seq<char>|
        (#[trigger] after.head(t2, p2)) is Some implies s.head(t2, p2) == after.head(t2, p2) || s.note(
            after.head(t2, p2)->0,
        ) is Some by {
    }
    lemma_heads_ground(s, after);
}

proof fn lemma_without_path(s: StoreView, t: Seq<char>, p: Seq<char>)
    requires
        grounded(s),
        s.topic_exists(t),
    ensures
        grounded(s.without_path(t, p)),
{
    let after = s.without_path(t, p);
    assert forall|t2: Seq<char>, p2: Seq<char>|
        (#[trigger] after.head(t2, p2)) is Some implies s.head(t2, p2) == after.head(t2, p2) || s.note(
            after.head(t2, p2)->0,
        ) is Some by {
        if t2 == t {
            assert(after.topics[t].heads == s.topics[t].heads.remove(p));
        }
    }
    lemma_heads_ground(s, after);
}

/// A note that is added under a new identifier keeps the repository grounded.
proof fn lemma_with_new_note(
    s: StoreView,
    id: Identifier,
    t: Seq<char>,
    p: Seq<char>,
    bytes: Seq<u8>,
)
    requires
        grounded(s),
        s.topic_exists(t),
        s.note(id) is None,
    ensures
        grounded(s.with_new_note(id, t, p, bytes)),
{
    let note = new_note(id, s.head(t, p), t, p);
    let middle = s.with_note(note).with_content(id, bytes);
    let after = s.with_new_note(id, t, p, bytes);
    let n = s.notes.len() as int;
    lemma_first_match(s.notes, has_id(id));
    assert(middle.notes == s.notes.push(note));
    assert(after.notes == middle.notes);
    assert forall|x: Identifier| s.note_index(x) < n implies after.note_index(x) == s.note_index(
        x,
    ) by {
        lemma_first_match(s.notes, has_id(x));
        lemma_first_match_is(after.notes, has_id(x), s.note_index(x));
    }
    lemma_first_match_is(after.notes, has_id(id), n);
    assert forall|i: int| 0 <= i < after.notes.len() implies after.note_index(
        (#[trigger] after.notes[i]).note_id,
    ) == i by {
        if i < n {
            assert(s.note_index(s.notes[i].note_id) == i);
        }
    }
    assert forall|i: int| 0 <= i < after.notes.len() implies ((#[trigger] after.notes[i]).parent_id
        matches Some(q) ==> after.note_index(q) < i) by {
        if i < n {
            if s.notes[i].parent_id is Some {
                assert(s.note_index(s.notes[i].parent_id->0) < i);
            }
        } else if s.head(t, p) is Some {
            assert(s.note(s.head(t, p)->0) is Some);
        }
    }
    assert forall|t2: Seq<char>, p2: Seq<char>|
        (#[trigger] after.head(t2, p2)) is Some implies after.note(after.head(t2, p2)->0) is Some by {
        let h = after.head(t2, p2)->0;
        if t2 == t && p2 == p {
        } else {
            if t2 == t {
                assert(after.topics[t].heads.contains_key(p2) == s.topics[t].heads.contains_key(
                    p2,
                ));
            }
            assert(s.head(t2, p2) == Some(h));
            assert(s.note(h) is Some);
            assert(s.note_index(h) < n);
        }
    }
}

/// A note that gets a reference more keeps the repository grounded.
proof fn lemma_with_reference(s: StoreView, source: NoteView, to: Identifier)
    requires
        grounded(s),
        stored(s, source),
    ensures
        grounded(s.with_note(with_reference(source, to))),
{
    let changed = with_reference(source, to);
    let after = s.with_note(changed);
    let k = choose|k: int| 0 <= k < s.notes.len() && s.notes[k] == source;
    assert(s.note_index(s.notes[k].note_id) == k);
    assert(after.notes == s.notes.update(k, changed));
    assert forall|x: Identifier| after.note_index(x) == s.note_index(x) by {
        lemma_first_match(s.notes, has_id(x));
        let i = s.note_index(x);
        if i < s.notes.len() {
            assert(has_id(x)(after.notes[i]));
        }
        assert forall|j: int| 0 <= j < i implies !has_id(x)(#[trigger] after.notes[j]) by {
            assert(!has_id(x)(s.notes[j]));
        }
        lemma_first_match_is(after.notes, has_id(x), i);
    }
    assert forall|i: int| 0 <= i < after.notes.len() implies after.note_index(
        (#[trigger] after.notes[i]).note_id,
    ) == i by {
        assert(s.note_index(s.notes[i].note_id) == i);
    }
    assert forall|i: int| 0 <= i < after.notes.len() implies ((#[trigger] after.notes[i]).parent_id
        matches Some(q) ==> after.note_index(q) < i) by {
        if s.notes[i].parent_id is Some {
            assert(s.note_index(s.notes[i].parent_id->0) < i);
        }
    }
    assert forall|t2: Seq<char>, p2: Seq<char>|
        (#[trigger] after.head(t2, p2)) is Some implies after.note(after.head(t2, p2)->0) is Some by {
        let h = after.head(t2, p2)->0;
        assert(s.head(t2, p2) == Some(h));
        assert(s.note(h) is Some);
    }
}

/// The engine keeps the repository grounded. A repository without notes
/// nor paths is grounded, and so is a grounded repository after any
/// operation of the engine, whether the operation succeeds or fails: so
/// the head of a path is always a note of the repository, and the chain
/// of parents of a note always ends.
pub proof fn law_engine_keeps_grounded(
    s: StoreView,
    name: Seq<char>,
    topic: Option<Seq<char>>,
    path: Seq<char>,
    given_path: Option<Seq<char>>,
    location: Option<Seq<char>>,
    expression: Seq<char>,
    other: Seq<char>,
    id: Identifier,
    content: Seq<u8>,
)
    requires
        grounded(s),
    ensures
        grounded(StoreView::empty()),
        grounded(topic_created(s, name).state),
        grounded(topic_chosen(s, name).state),
        grounded(path_chosen(s, topic, path).state),
        grounded(path_created(s, path, location).state),
        grounded(note_added(s, id, content, topic, given_path).state),
        grounded(path_removed(s, path, topic).state),
        grounded(path_reset(s, path, topic, expression).state),
        grounded(keyword_added(s, name, location).state),
        grounded(reference_added(s, expression, other).state),
{
    assert(grounded(StoreView::empty()));
    lemma_topic_created(s, name);
    lemma_path_chosen(s, topic, path);
    lemma_path_created(s, path, location);
    lemma_note_added(s, id, content, topic, given_path);
    lemma_path_removed(s, path, topic);
    lemma_path_reset(s, path, topic, expression);
    lemma_reference_added(s, expression, other);
    lemma_same_ground(s, keyword_added(s, name, location).state);
}

proof fn lemma_topic_created(s: StoreView, name: Seq<char>)
    requires
        grounded(s),
    ensures
        grounded(topic_created(s, name).state),
        grounded(topic_chosen(s, name).state),
{
    lemma_with_topic(s, name);
    let made = s.with_topic(name);
    lemma_same_ground(made, made.with_current_topic(name));
    lemma_same_ground(s, s.with_current_topic(name));
}

proof fn lemma_path_chosen(s: StoreView, topic: Option<Seq<char>>, path: Seq<char>)
    requires
        grounded(s),
    ensures
        grounded(path_chosen(s, topic, path).state),
{
    if default_topic(s, topic) is Ok {
        let t = default_topic(s, topic)->Ok_0;
        if s.path_exists(t, path) {
            lemma_with_current_path(s, t, path);
        }
    }
}

proof fn lemma_path_created(s: StoreView, new_path: Seq<char>, location: Option<Seq<char>>)
    requires
        grounded(s),
    ensures
        grounded(path_created(s, new_path, location).state),
{
    let e = default_location(location);
    if path_created(s, new_path, location).result is Ok {
        let l = location_of(e)->0;
        let t = topic_of_location(s, l)->Ok_0;
        let n = branch_source(s, t, l, e)->Ok_0;
        match l {
            LocationView::Absolute { short } => {
                lemma_first_match(s.notes, has_short(short));
            },
            LocationView::Relative { topic, path, steps } => {
                let source = if path == crate::model::head_word() {
                    s.current_path(t)->0
                } else {
                    path
                };
                lemma_trace_is_stored(s, s.head(t, source), steps as nat);
            },
        }
        assert(stored(s, n));
        lemma_stored_is_found(s, n);
        lemma_with_head(s, t, new_path, n.note_id);
    }
}

proof fn lemma_note_added(
    s: StoreView,
    id: Identifier,
    content: Seq<u8>,
    topic: Option<Seq<char>>,
    path: Option<Seq<char>>,
)
    requires
        grounded(s),
    ensures
        grounded(note_added(s, id, content, topic, path).state),
{
    let first = topic_settled(s, topic);
    let s1 = first.state;
    lemma_same_ground(s, s1);
    if first.result is Ok {
        let t = first.result->Ok_0;
        let second = path_settled(s1, t, path);
        let s2 = second.state;
        match path {
            Some(p) => {
                if s1.path_exists(t, p) {
                    lemma_with_current_path(s1, t, p);
                } else if s1.current_path(t) is Some {
                    let current = s1.current_path(t)->0;
                    if s1.head(t, current) is Some {
                        let h = s1.head(t, current)->0;
                        assert(s1.path_exists(t, current));
                        lemma_with_head(s1, t, p, h);
                        lemma_with_current_path(s1.with_head(t, p, h), t, p);
                    }
                } else {
                    lemma_with_current_path(s1, t, p);
                }
            },
            None => {
                if s1.current_path(t) is None {
                    lemma_with_current_path(s1, t, crate::model::main_path());
                }
            },
        }
        assert(grounded(s2));
        if second.result is Ok {
            let p = second.result->Ok_0;
            if !s2.collides(id) {
                lemma_with_new_note(s2, id, t, p, content);
            }
        }
    }
}

proof fn lemma_path_removed(s: StoreView, path: Seq<char>, topic: Option<Seq<char>>)
    requires
        grounded(s),
    ensures
        grounded(path_removed(s, path, topic).state),
{
    if path_removed(s, path, topic).result is Ok {
        let t = default_topic(s, topic)->Ok_0;
        lemma_without_path(s, t, path);
    }
}

proof fn lemma_path_reset(
    s: StoreView,
    path: Seq<char>,
    topic: Option<Seq<char>>,
    location: Seq<char>,
)
    requires
        grounded(s),
    ensures
        grounded(path_reset(s, path, topic, location).state),
{
    if path_reset(s, path, topic, location).result is Ok {
        let t = default_topic(s, topic)->Ok_0;
        let n = resolved_note(s, location)->Ok_0;
        lemma_resolved_is_stored(s, location);
        lemma_stored_is_found(s, n);
        lemma_with_head(s, t, path, n.note_id);
    }
}

proof fn lemma_reference_added(s: StoreView, from: Seq<char>, to: Seq<char>)
    requires
        grounded(s),
    ensures
        grounded(reference_added(s, from, to).state),
{
    if reference_added(s, from, to).result is Ok {
        let source = resolved_note(s, from)->Ok_0;
        let target = resolved_note(s, to)->Ok_0;
        lemma_resolved_is_stored(s, from);
        lemma_with_reference(s, source, target.note_id);
    }
}

/// Whether `later` has all the notes of `earlier`, as they were: in the
/// same order and with the same identifier, parent, topic and path, the
/// references it had before any more, and the content it had.
pub open spec fn keeps_notes(earlier: StoreView, later: StoreView) -> bool {
    &&& earlier.notes.len() <= later.notes.len()
    &&& forall|i: int|
        0 <= i < earlier.notes.len() ==> {
            let was = #[trigger] earlier.notes[i];
            let is = later.notes[i];
            &&& is.note_id == was.note_id
            &&& is.parent_id == was.parent_id
            &&& is.topic == was.topic
            &&& is.path == was.path
            &&& was.references.is_prefix_of(is.references)
        }
    &&& earlier.contents.is_prefix_of(later.contents)
}

/// Notes are never taken away nor changed. Whatever the engine does, and
/// whether it succeeds or fails, the repository has all the notes it had,
/// with what they were added with; a note can only get references more.
pub proof fn law_engine_keeps_notes(
    s: StoreView,
    name: Seq<char>,
    topic: Option<Seq<char>>,
    path: Seq<char>,
    given_path: Option<Seq<char>>,
    location: Option<Seq<char>>,
    expression: Seq<char>,
    other: Seq<char>,
    id: Identifier,
    content: Seq<u8>,
)
    requires
        grounded(s),
    ensures
        keeps_notes(s, topic_created(s, name).state),
        keeps_notes(s, topic_chosen(s, name).state),
        keeps_notes(s, path_chosen(s, topic, path).state),
        keeps_notes(s, path_created(s, path, location).state),
        keeps_notes(s, note_added(s, id, content, topic, given_path).state),
        keeps_notes(s, path_removed(s, path, topic).state),
        keeps_notes(s, path_reset(s, path, topic, expression).state),
        keeps_notes(s, keyword_added(s, name, location).state),
        keeps_notes(s, reference_added(s, expression, other).state),
{
    lemma_same_notes(s, topic_created(s, name).state);
    lemma_same_notes(s, topic_chosen(s, name).state);
    lemma_same_notes(s, path_chosen(s, topic, path).state);
    lemma_same_notes(s, path_created(s, path, location).state);
    lemma_same_notes(s, path_removed(s, path, topic).state);
    lemma_same_notes(s, path_reset(s, path, topic, expression).state);
    lemma_same_notes(s, keyword_added(s, name, location).state);
    let first = topic_settled(s, topic);
    if first.result is Ok {
        let t = first.result->Ok_0;
        let second = path_settled(first.state, t, given_path);
        let s2 = second.state;
        assert(s2.notes == s.notes && s2.contents == s.contents);
        if second.result is Ok && !s2.collides(id) {
            let p = second.result->Ok_0;
            let after = s2.with_new_note(id, t, p, content);
            lemma_first_match(s2.notes, has_id(id));
            assert(after.notes == s.notes.push(new_note(id, s2.head(t, p), t, p)));
            assert(keeps_notes(s, after));
        } else {
            lemma_same_notes(s, s2);
        }
    } else {
        lemma_same_notes(s, first.state);
    }
    if reference_added(s, expression, other).result is Ok {
        let source = resolved_note(s, expression)->Ok_0;
        let target = resolved_note(s, other)->Ok_0;
        lemma_resolved_is_stored(s, expression);
        let k = choose|k: int| 0 <= k < s.notes.len() && s.notes[k] == source;
        assert(s.note_index(s.notes[k].note_id) == k);
        let after = s.with_note(with_reference(source, target.note_id));
        assert(after.notes == s.notes.update(k, with_reference(source, target.note_id)));
        assert(keeps_notes(s, after));
    } else {
        lemma_same_notes(s, reference_added(s, expression, other).state);
    }
}

proof fn lemma_same_notes(s: StoreView, after: StoreView)
    requires
        after.notes == s.notes,
        after.contents == s.contents,
    ensures
        keeps_notes(s, after),
{
}

} // verus!
