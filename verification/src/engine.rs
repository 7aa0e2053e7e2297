use crate::error::ErrorView;
use crate::ident::Identifier;
use crate::location::{location_of, LocationView};
use crate::model::{
    bad_index_text, bad_path_text, collision_text, head_word, main_path, new_note,
    no_content_text, no_metadata_text, StoreView,
};
use crate::note::NoteView;
use vstd::prelude::*;

verus! {

/// What an operation of the engine gives: its result, and the repository
/// as the operation leaves it.
pub struct Outcome<T> {
    pub result: Result<T, ErrorView>,
    pub state: StoreView,
}

/// The outcome of an operation that fails and leaves the repository as `s`.
pub open spec fn failed<T>(s: StoreView, e: ErrorView) -> Outcome<T> {
    Outcome { result: Err(e), state: s }
}

/// The outcome of an operation that gives `value` and leaves the repository as `s`.
pub open spec fn done<T>(s: StoreView, value: T) -> Outcome<T> {
    Outcome { result: Ok(value), state: s }
}

/// The topic that an operation works on: the one it was given, else the
/// current topic.
pub open spec fn default_topic(s: StoreView, topic: Option<Seq<char>>) -> Result<
    Seq<char>,
    ErrorView,
> {
    match topic {
        Some(t) => Ok(t),
        None => match s.current_topic {
            Some(t) => Ok(t),
            None => Err(ErrorView::NoDefaultTopic),
        },
    }
}

/// The expression that stands for a location that was not given: the
/// head of the current path.
pub open spec fn default_location(location: Option<Seq<char>>) -> Seq<char> {
    match location {
        Some(l) => l,
        None => head_word(),
    }
}

/// Creating a topic: refused where the repository has one of that name.
/// The first topic of a repository becomes its current topic.
pub open spec fn topic_created(s: StoreView, name: Seq<char>) -> Outcome<()> {
    if s.topic_exists(name) {
        failed(s, ErrorView::TopicAlreadyExists(name))
    } else if s.current_topic is None {
        done(s.with_topic(name).with_current_topic(name), ())
    } else {
        done(s.with_topic(name), ())
    }
}

/// Making a topic the current one: refused where the repository has no
/// such topic.
pub open spec fn topic_chosen(s: StoreView, name: Seq<char>) -> Outcome<()> {
    if s.topic_exists(name) {
        done(s.with_current_topic(name), ())
    } else {
        failed(s, ErrorView::TopicDoesNotExist(name))
    }
}

/// The current path of a topic that the repository has.
pub open spec fn current_path_of(s: StoreView, topic: Seq<char>) -> Result<
    Option<Seq<char>>,
    ErrorView,
> {
    if s.topic_exists(topic) {
        Ok(s.current_path(topic))
    } else {
        Err(ErrorView::TopicDoesNotExist(topic))
    }
}

/// Making a path the current one of its topic: refused where the topic
/// has no such path.
pub open spec fn path_chosen(s: StoreView, topic: Option<Seq<char>>, path: Seq<char>) -> Outcome<
    (),
> {
    match default_topic(s, topic) {
        Err(e) => failed(s, e),
        Ok(t) => if s.path_exists(t, path) {
            done(s.with_current_path(t, path), ())
        } else {
            failed(s, ErrorView::PathDoesNotExist(t, path))
        },
    }
}

/// The note that a location in relative form leads to: the head of the
/// path, then as many parents back as the location asks for. `HEAD` is
/// the topic's current path, or `main` where it has none; a path that
/// does not exist, or that holds no identifier, leads to no note. A
/// record on the way that cannot be read is an error.
pub open spec fn relative_note(
    s: StoreView,
    topic: Option<Seq<char>>,
    path: Seq<char>,
    steps: u64,
) -> Result<Option<NoteView>, ErrorView> {
    match default_topic(s, topic) {
        Err(e) => Err(e),
        Ok(t) => if path == head_word() {
            match current_path_of(s, t) {
                Err(e) => Err(e),
                Ok(Some(p)) => s.trace(s.head(t, p), steps as nat),
                Ok(None) => s.trace(s.head(t, main_path()), steps as nat),
            }
        } else {
            s.trace(s.head(t, path), steps as nat)
        },
    }
}

/// The note that an expression leads to, or none; an error where the
/// expression is no location or names no topic while none is current.
pub open spec fn resolved(s: StoreView, expression: Seq<char>) -> Result<
    Option<NoteView>,
    ErrorView,
> {
    match location_of(expression) {
        None => Err(ErrorView::InvalidLocation(expression)),
        Some(LocationView::Absolute { short }) => s.found_by_short(short),
        Some(LocationView::Relative { topic, path, steps }) => relative_note(s, topic, path, steps),
    }
}

/// The note that an expression leads to; an error where it leads to none.
pub open spec fn resolved_note(s: StoreView, expression: Seq<char>) -> Result<NoteView, ErrorView> {
    match resolved(s, expression) {
        Err(e) => Err(e),
        Ok(None) => Err(ErrorView::LocationError(expression)),
        Ok(Some(n)) => Ok(n),
    }
}

/// The topic in which a location lies: the one it names, else the current one.
pub open spec fn topic_of_location(s: StoreView, l: LocationView) -> Result<Seq<char>, ErrorView> {
    match l {
        LocationView::Relative { topic, path, steps } => default_topic(s, topic),
        LocationView::Absolute { short } => default_topic(s, None),
    }
}

/// The note that a path is branched from, in a topic that exists. A
/// location in relative form must name a path that exists, `HEAD` being
/// the topic's current path.
pub open spec fn branch_source(s: StoreView, t: Seq<char>, l: LocationView, e: Seq<char>) -> Result<
    NoteView,
    ErrorView,
> {
    match l {
        LocationView::Absolute { short } => match s.found_by_short(short) {
            Err(err) => Err(err),
            Ok(Some(n)) => Ok(n),
            Ok(None) => Err(ErrorView::LocationError(e)),
        },
        LocationView::Relative { topic, path, steps } => {
            let source = if path == head_word() {
                s.current_path(t)
            } else {
                Some(path)
            };
            match source {
                None => Err(ErrorView::NoDefaultPath),
                Some(p) => if !s.path_exists(t, p) {
                    Err(ErrorView::PathDoesNotExist(t, p))
                } else {
                    match s.trace(s.head(t, p), steps as nat) {
                        Err(err) => Err(err),
                        Ok(Some(n)) => Ok(n),
                        Ok(None) => Err(ErrorView::LocationError(e)),
                    }
                },
            }
        },
    }
}

/// Creating a path from a location, by default the head of the current
/// path. The path is made in the topic of the location, which must
/// exist and have no path of that name, and its head is the note that
/// the location leads to.
pub open spec fn path_created(
    s: StoreView,
    new_path: Seq<char>,
    location: Option<Seq<char>>,
) -> Outcome<()> {
    let e = default_location(location);
    match location_of(e) {
        None => failed(s, ErrorView::InvalidLocation(e)),
        Some(l) => match topic_of_location(s, l) {
            Err(err) => failed(s, err),
            Ok(t) => if !s.topic_exists(t) {
                failed(s, ErrorView::TopicDoesNotExist(t))
            } else if l is Relative && l->path == head_word() && s.current_path(t) is None {
                failed(s, ErrorView::NoDefaultPath)
            } else if s.path_exists(t, new_path) {
                failed(s, ErrorView::PathAlreadyExists(t, new_path))
            } else {
                match branch_source(s, t, l, e) {
                    Err(err) => failed(s, err),
                    Ok(n) => done(s.with_head(t, new_path, n.note_id), ()),
                }
            },
        },
    }
}

/// The repository once the topic of a new note is settled: a topic that
/// is given becomes the current one.
pub open spec fn topic_settled(s: StoreView, topic: Option<Seq<char>>) -> Outcome<Seq<char>> {
    match topic {
        Some(t) => if s.topic_exists(t) {
            done(s.with_current_topic(t), t)
        } else {
            failed(s, ErrorView::TopicDoesNotExist(t))
        },
        None => match s.current_topic {
            None => failed(s, ErrorView::NoDefaultTopic),
            Some(t) => if s.topic_exists(t) {
                done(s, t)
            } else {
                failed(s, ErrorView::TopicDoesNotExist(t))
            },
        },
    }
}

/// The repository once the path of a new note is settled, in a topic
/// that exists. A path that is given becomes the current one: as it is
/// where the topic has it, else branched from the current path, else new
/// and without a head. Where none is given and the topic has no current
/// path, `main` becomes the current path. A branch is refused where the
/// current path does not exist, and where it holds no identifier.
pub open spec fn path_settled(s: StoreView, t: Seq<char>, path: Option<Seq<char>>) -> Outcome<
    Seq<char>,
> {
    match path {
        Some(p) => if s.path_exists(t, p) {
            done(s.with_current_path(t, p), p)
        } else {
            match s.current_path(t) {
                Some(current) => match s.head(t, current) {
                    Some(h) => done(s.with_head(t, p, h).with_current_path(t, p), p),
                    None => if s.unreadable(t, current) {
                        failed(s, ErrorView::StorageIntegrity(bad_path_text(t, current)))
                    } else {
                        failed(s, ErrorView::PathDoesNotExist(t, current))
                    },
                },
                None => done(s.with_current_path(t, p), p),
            }
        },
        None => match s.current_path(t) {
            Some(current) => done(s, current),
            None => done(s.with_current_path(t, main_path()), main_path()),
        },
    }
}

/// Adding the note `id`: the topic is settled, then the path, then the
/// note is added to that path, its parent being the head that the path
/// had. What was settled stays so where a later step fails.
pub open spec fn note_added(
    s: StoreView,
    id: Identifier,
    content: Seq<u8>,
    topic: Option<Seq<char>>,
    path: Option<Seq<char>>,
) -> Outcome<NoteView> {
    let first = topic_settled(s, topic);
    match first.result {
        Err(e) => failed(first.state, e),
        Ok(t) => {
            let second = path_settled(first.state, t, path);
            match second.result {
                Err(e) => failed(second.state, e),
                Ok(p) => {
                    let s2 = second.state;
                    if s2.collides(id) {
                        failed(s2, ErrorView::StorageIntegrity(collision_text(id)))
                    } else {
                        done(
                            s2.with_new_note(id, t, p, content),
                            new_note(id, s2.head(t, p), t, p),
                        )
                    }
                },
            }
        },
    }
}

/// The metadata of the note at the head of a path that exists: an
/// error where the path holds no identifier, where the record of the
/// note cannot be read, and where the repository has no record of it.
pub open spec fn head_metadata(s: StoreView, t: Seq<char>, path: Seq<char>) -> Result<
    NoteView,
    ErrorView,
> {
    match s.head(t, path) {
        None => Err(ErrorView::StorageIntegrity(bad_path_text(t, path))),
        Some(h) => match s.record(h) {
            Err(e) => Err(e),
            Ok(Some(n)) => Ok(n),
            Ok(None) => Err(ErrorView::StorageIntegrity(no_metadata_text(h))),
        },
    }
}

/// Removing a path: the result is the metadata of the note that was at
/// its head. The notes stay.
pub open spec fn path_removed(s: StoreView, path: Seq<char>, topic: Option<Seq<char>>) -> Outcome<
    NoteView,
> {
    match default_topic(s, topic) {
        Err(e) => failed(s, e),
        Ok(t) => if !s.path_exists(t, path) {
            failed(s, ErrorView::PathDoesNotExist(t, path))
        } else {
            match head_metadata(s, t, path) {
                Err(e) => failed(s, e),
                Ok(n) => done(s.without_path(t, path), n),
            }
        },
    }
}

/// Putting the note of a location at the head of a path that exists: the
/// result is the metadata of the note that was at the head, and of the
/// one that is.
pub open spec fn path_reset(
    s: StoreView,
    path: Seq<char>,
    topic: Option<Seq<char>>,
    location: Seq<char>,
) -> Outcome<(NoteView, NoteView)> {
    match default_topic(s, topic) {
        Err(e) => failed(s, e),
        Ok(t) => if !s.path_exists(t, path) {
            failed(s, ErrorView::PathDoesNotExist(t, path))
        } else {
            match resolved_note(s, location) {
                Err(e) => failed(s, e),
                Ok(n) => match head_metadata(s, t, path) {
                    Err(e) => failed(s, e),
                    Ok(previous) => done(s.with_head(t, path, n.note_id), (previous, n)),
                },
            }
        },
    }
}

/// Putting the note of a location, by default the head of the current
/// path, under a keyword: refused where the repository has a keyword
/// index that cannot be read.
pub open spec fn keyword_added(
    s: StoreView,
    keyword: Seq<char>,
    location: Option<Seq<char>>,
) -> Outcome<()> {
    match resolved_note(s, default_location(location)) {
        Err(e) => failed(s, e),
        Ok(n) => if s.unread_index is Some {
            failed(s, ErrorView::StorageIntegrity(bad_index_text()))
        } else {
            done(s.with_keyword(keyword, n.note_id), ())
        },
    }
}

/// The metadata of the notes under a keyword, in the order in which they
/// got it.
pub open spec fn keyword_notes(s: StoreView, keyword: Seq<char>) -> Result<
    Seq<NoteView>,
    ErrorView,
> {
    if s.unread_index is Some {
        Err(ErrorView::StorageIntegrity(bad_index_text()))
    } else {
        s.gathered(s.tagged(keyword))
    }
}

/// The metadata of a note with one reference more.
pub open spec fn with_reference(n: NoteView, to: Identifier) -> NoteView {
    NoteView { references: n.references.push(to), ..n }
}

/// Making the note of one location refer to the note of another.
pub open spec fn reference_added(s: StoreView, from: Seq<char>, to: Seq<char>) -> Outcome<()> {
    match resolved_note(s, from) {
        Err(e) => failed(s, e),
        Ok(source) => match resolved_note(s, to) {
            Err(e) => failed(s, e),
            Ok(target) => done(s.with_note(with_reference(source, target.note_id)), ()),
        },
    }
}

/// The content of a note.
pub open spec fn content_of(s: StoreView, id: Identifier) -> Result<Seq<u8>, ErrorView> {
    match s.content(id) {
        Some(bytes) => Ok(bytes),
        None => Err(ErrorView::StorageIntegrity(no_content_text(id))),
    }
}

} // verus!
