use crate::engine::{
    content_of, current_path_of, default_topic, keyword_added, keyword_notes, note_added,
    path_chosen, path_created, path_removed, path_reset, path_settled, reference_added,
    relative_note, resolved, resolved_note, topic_chosen, topic_created, topic_settled, Outcome,
};
use crate::error::{ErrorView, ZtlnError};
use crate::ident::Identifier;
use crate::location::Location;
use crate::model::{bad_index_text, StoreView};
use crate::note::{found_view, note_views, NoteMetaData, NoteView};
use crate::store::{copy_bytes, copy_name, counted_names, Store};
use crate::text::{increasing, name_view, str_eq, views};
use vstd::prelude::*;
use vstd::string::*;

verus! {

/// The value of a name that was given, or not.
pub open spec fn given(name: Option<&str>) -> Option<Seq<char>> {
    match name {
        Some(n) => Some(n@),
        None => None,
    }
}

/// The value of the result of an operation that gives nothing.
pub open spec fn unit_result(r: Result<(), ZtlnError>) -> Result<(), ErrorView> {
    match r {
        Ok(_) => Ok(()),
        Err(e) => Err(e@),
    }
}

/// The value of the result of an operation that gives a name.
pub open spec fn name_result(r: Result<String, ZtlnError>) -> Result<Seq<char>, ErrorView> {
    match r {
        Ok(n) => Ok(n@),
        Err(e) => Err(e@),
    }
}

/// The value of the result of an operation that may give a name.
pub open spec fn path_result(r: Result<Option<String>, ZtlnError>) -> Result<
    Option<Seq<char>>,
    ErrorView,
> {
    match r {
        Ok(n) => Ok(name_view(n)),
        Err(e) => Err(e@),
    }
}

/// The value of the result of an operation that gives metadata.
pub open spec fn note_result(r: Result<NoteMetaData, ZtlnError>) -> Result<NoteView, ErrorView> {
    match r {
        Ok(n) => Ok(n@),
        Err(e) => Err(e@),
    }
}

/// The value of the result of an operation that may give metadata.
pub open spec fn found_result(r: Result<Option<NoteMetaData>, ZtlnError>) -> Result<
    Option<NoteView>,
    ErrorView,
> {
    match r {
        Ok(n) => Ok(found_view(n)),
        Err(e) => Err(e@),
    }
}

/// The value of the result of an operation that gives the metadata of two notes.
pub open spec fn pair_result(r: Result<(NoteMetaData, NoteMetaData), ZtlnError>) -> Result<
    (NoteView, NoteView),
    ErrorView,
> {
    match r {
        Ok(p) => Ok((p.0@, p.1@)),
        Err(e) => Err(e@),
    }
}

/// The value of the result of an operation that gives a content.
pub open spec fn content_result(r: Result<Vec<u8>, ZtlnError>) -> Result<Seq<u8>, ErrorView> {
    match r {
        Ok(b) => Ok(b@),
        Err(e) => Err(e@),
    }
}

/// What a walk comes to that has read `found` and has `left` steps to go.
pub open spec fn rest_of_trace(s: StoreView, found: Option<NoteView>, left: nat) -> Result<
    Option<NoteView>,
    ErrorView,
> {
    match found {
        None => Ok(None),
        Some(n) => if left == 0 {
            Ok(Some(n))
        } else {
            s.trace(n.parent_id, (left - 1) as nat)
        },
    }
}

/// What the engine remembers of the repository's current topic.
#[derive(Debug)]
enum TopicCache {
    /// The repository was not asked yet.
    Unloaded,
    /// What the repository answered, or what was set since.
    Loaded(Option<String>),
}

/// The engine: the rules on topics, paths, notes and keywords, over a
/// repository that it owns.
#[derive(Debug)]
pub struct Organization {
    current_topic: TopicCache,
    store: Store,
}

impl View for Organization {
    type V = StoreView;

    closed spec fn view(&self) -> StoreView {
        self.store@
    }
}

impl Organization {
    /// What every engine is that `new` returned, whatever was done with
    /// it since: its repository is in order, and what it remembers of the
    /// current topic is what the repository holds.
    pub closed spec fn wf(&self) -> bool {
        &&& self.store.wf()
        &&& self.current_topic matches TopicCache::Loaded(t) ==> name_view(t)
            == self.store@.current_topic
    }

    /// Where the repository is kept.
    pub closed spec fn location(&self) -> Seq<char> {
        self.store.location()
    }

    /// An engine over the repository `store`.
    pub fn new(store: Store) -> (r: Self)
        requires
            store.wf(),
        ensures
            r.wf(),
            r@ == store@,
            r.location() == store.location(),
    {
        Self { current_topic: TopicCache::Unloaded, store }
    }

    /// The repository of this engine.
    pub fn store(&self) -> (r: &Store)
        requires
            self.wf(),
        ensures
            r.wf(),
            r@ == self@,
            r.location() == self.location(),
    {
        &self.store
    }

    /// The name of the current topic. The repository is asked once; from
    /// then on the engine answers from what it remembers.
    pub fn get_current_topic(&mut self) -> (r: Option<String>)
        requires
            old(self).wf(),
        ensures
            final(self).wf(),
            final(self)@ == old(self)@,
            final(self).location() == old(self).location(),
            name_view(r) == old(self)@.current_topic,
    {
        match &self.current_topic {
            TopicCache::Loaded(t) => copy_name(t),
            TopicCache::Unloaded => {
                let topic = self.store.get_current_topic().unwrap();
                self.current_topic = TopicCache::Loaded(copy_name(&topic));
                topic
            },
        }
    }

    /// Makes `topic` the current topic, in the repository and in what
    /// the engine remembers.
    fn switch_topic(&mut self, topic: &str)
        requires
            old(self).wf(),
        ensures
            final(self).wf(),
            final(self).location() == old(self).location(),
            final(self)@ == old(self)@.with_current_topic(topic@),
    {
        self.store.set_current_topic(topic).unwrap();
        self.current_topic = TopicCache::Loaded(Some(String::from_str(topic)));
    }

    /// Makes a topic of the repository the current one.
    pub fn set_current_topic(&mut self, topic: &str) -> (r: Result<(), ZtlnError>)
        requires
            old(self).wf(),
        ensures
            final(self).wf(),
            final(self).location() == old(self).location(),
            (Outcome { result: unit_result(r), state: final(self)@ }) == topic_chosen(
                old(self)@,
                topic@,
            ),
    {
        if !self.store.topic_exists(topic) {
            Err(ZtlnError::TopicDoesNotExist(String::from_str(topic)))
        } else {
            self.switch_topic(topic);
            Ok(())
        }
    }

    /// Creates a topic. The first topic of a repository becomes its
    /// current topic.
    pub fn create_topic(&mut self, topic: &str) -> (r: Result<(), ZtlnError>)
        requires
            old(self).wf(),
        ensures
            final(self).wf(),
            final(self).location() == old(self).location(),
            (Outcome { result: unit_result(r), state: final(self)@ }) == topic_created(
                old(self)@,
                topic@,
            ),
    {
        if self.store.topic_exists(topic) {
            Err(ZtlnError::TopicAlreadyExists(String::from_str(topic)))
        } else {
            self.store.create_topic(topic).unwrap();
            if self.get_current_topic().is_none() {
                self.switch_topic(topic);
            }
            Ok(())
        }
    }

    /// The names of the topics, in order.
    pub fn get_topics_list(&self) -> (names: Vec<String>)
        requires
            self.wf(),
        ensures
            increasing(views(names@)),
            forall|k: Seq<char>| views(names@).contains(k) <==> self@.topic_exists(k),
    {
        self.store.get_topics().unwrap()
    }

    /// The name of the current path of a topic of the repository.
    pub fn get_current_path(&self, topic: &str) -> (r: Result<Option<String>, ZtlnError>)
        requires
            self.wf(),
        ensures
            path_result(r) == current_path_of(self@, topic@),
    {
        if self.store.topic_exists(topic) {
            Ok(self.store.get_current_path(topic).unwrap())
        } else {
            Err(ZtlnError::TopicDoesNotExist(String::from_str(topic)))
        }
    }

    /// The topic that was given, else the current topic.
    fn unwrap_or_default_topic(&mut self, topic: Option<&str>) -> (r: Result<String, ZtlnError>)
        requires
            old(self).wf(),
        ensures
            final(self).wf(),
            final(self)@ == old(self)@,
            final(self).location() == old(self).location(),
            name_result(r) == default_topic(old(self)@, given(topic)),
    {
        match topic {
            Some(t) => Ok(String::from_str(t)),
            None => match self.get_current_topic() {
                Some(t) => Ok(t),
                None => Err(ZtlnError::NoDefaultTopic),
            },
        }
    }

    /// Makes a path the current one of a topic, by default of the current topic.
    pub fn set_current_path(&mut self, topic: Option<&str>, path: &str) -> (r: Result<
        (),
        ZtlnError,
    >)
        requires
            old(self).wf(),
        ensures
            final(self).wf(),
            final(self).location() == old(self).location(),
            (Outcome { result: unit_result(r), state: final(self)@ }) == path_chosen(
                old(self)@,
                given(topic),
                path@,
            ),
    {
        let topic = match self.unwrap_or_default_topic(topic) {
            Ok(t) => t,
            Err(e) => {
                return Err(e);
            },
        };
        if self.store.path_exists(topic.as_str(), path) {
            self.store.set_current_path(topic.as_str(), path).unwrap();
            Ok(())
        } else {
            Err(ZtlnError::PathDoesNotExist(topic, String::from_str(path)))
        }
    }

    /// The names of the paths of a topic, by default of the current
    /// topic, in order, and the name of the topic.
    pub fn get_paths_list(&mut self, topic: Option<&str>) -> (r: Result<
        (String, Vec<String>),
        ZtlnError,
    >)
        requires
            old(self).wf(),
        ensures
            final(self).wf(),
            final(self)@ == old(self)@,
            final(self).location() == old(self).location(),
            match r {
                Ok((t, names)) => default_topic(old(self)@, given(topic)) == Ok::<
                    Seq<char>,
                    ErrorView,
                >(t@) && old(self)@.topic_exists(t@) && increasing(views(names@)) && forall|
                    k: Seq<char>,
                | views(names@).contains(k) <==> old(self)@.path_exists(t@, k),
                Err(e) => match default_topic(old(self)@, given(topic)) {
                    Ok(t) => !old(self)@.topic_exists(t) && e@ == ErrorView::TopicDoesNotExist(t),
                    Err(d) => e@ == d,
                },
            },
    {
        let topic = match self.unwrap_or_default_topic(topic) {
            Ok(t) => t,
            Err(e) => {
                return Err(e);
            },
        };
        match self.store.get_paths(topic.as_str()) {
            Ok(names) => Ok((topic, names)),
            Err(_) => Err(ZtlnError::TopicDoesNotExist(topic)),
        }
    }

    /// The note at the head of a path, where the path exists and holds one.
    fn head_of(&self, topic: &str, path: &str) -> (r: Option<Identifier>)
        requires
            self.wf(),
        ensures
            r == self@.head(topic@, path@),
    {
        match self.store.get_path(topic, path) {
            Ok(id) => Some(id),
            Err(_) => None,
        }
    }

    /// The note reached from the note `head` by following the parent
    /// `steps` times.
    fn trace_back(&self, head: Option<Identifier>, steps: u64) -> (r: Result<
        Option<NoteMetaData>,
        ZtlnError,
    >)
        requires
            self.wf(),
        ensures
            found_result(r) == self@.trace(head, steps as nat),
    {
        let mut found = match head {
            None => {
                return Ok(None);
            },
            Some(id) => match self.store.get_note_metadata(id) {
                Ok(m) => m,
                Err(e) => {
                    return Err(e);
                },
            },
        };
        let mut left = steps;
        while left > 0 && found.is_some()
            invariant
                self.wf(),
                self@.trace(head, steps as nat) == rest_of_trace(
                    self@,
                    found_view(found),
                    left as nat,
                ),
            decreases left,
        {
            let parent = match &found {
                Some(n) => n.parent_id,
                None => None,
            };
            found = match parent {
                Some(id) => match self.store.get_note_metadata(id) {
                    Ok(m) => m,
                    Err(e) => {
                        return Err(e);
                    },
                },
                None => None,
            };
            left -= 1;
        }
        Ok(found)
    }

    /// The note that a location in absolute form leads to.
    fn solve_absolute(&mut self, short: &str) -> (r: Result<Option<NoteMetaData>, ZtlnError>)
        requires
            old(self).wf(),
        ensures
            final(self).wf(),
            final(self)@ == old(self)@,
            final(self).location() == old(self).location(),
            found_result(r) == old(self)@.found_by_short(short@),
    {
        self.store.search_short_uuid(short)
    }

    /// The note that a location in relative form leads to.
    fn solve_relative(&mut self, topic: Option<&str>, path: &str, steps: u64) -> (r: Result<
        Option<NoteMetaData>,
        ZtlnError,
    >)
        requires
            old(self).wf(),
        ensures
            final(self).wf(),
            final(self)@ == old(self)@,
            final(self).location() == old(self).location(),
            found_result(r) == relative_note(old(self)@, given(topic), path@, steps),
    {
        let topic = match self.unwrap_or_default_topic(topic) {
            Ok(t) => t,
            Err(e) => {
                return Err(e);
            },
        };
        let path = if str_eq(path, "HEAD") {
            match self.get_current_path(topic.as_str()) {
                Ok(Some(p)) => p,
                Ok(None) => String::from_str("main"),
                Err(e) => {
                    return Err(e);
                },
            }
        } else {
            String::from_str(path)
        };
        let head = self.head_of(topic.as_str(), path.as_str());
        self.trace_back(head, steps)
    }

    /// The note that a location leads to, or none. An expression that is
    /// no location is refused, and so is one that names no topic while
    /// the repository has no current topic, or that asks for the current
    /// path of a topic that the repository does not have.
    pub fn solve_location(&mut self, expr: &str) -> (r: Result<Option<NoteMetaData>, ZtlnError>)
        requires
            old(self).wf(),
        ensures
            final(self).wf(),
            final(self)@ == old(self)@,
            final(self).location() == old(self).location(),
            found_result(r) == resolved(old(self)@, expr@),
    {
        match Location::parse(expr) {
            None => Err(ZtlnError::InvalidLocation(String::from_str(expr))),
            Some(Location::Absolute { short }) => self.solve_absolute(short.as_str()),
            Some(Location::Relative { topic, path, steps }) => match topic {
                Some(t) => self.solve_relative(Some(t.as_str()), path.as_str(), steps),
                None => self.solve_relative(None, path.as_str(), steps),
            },
        }
    }

    /// The note that a location leads to.
    fn solve_note(&mut self, expr: &str) -> (r: Result<NoteMetaData, ZtlnError>)
        requires
            old(self).wf(),
        ensures
            final(self).wf(),
            final(self)@ == old(self)@,
            final(self).location() == old(self).location(),
            note_result(r) == resolved_note(old(self)@, expr@),
    {
        match self.solve_location(expr) {
            Ok(Some(n)) => Ok(n),
            Ok(None) => Err(ZtlnError::LocationError(String::from_str(expr))),
            Err(e) => Err(e),
        }
    }

    /// Creates a path from a location, by default the head of the
    /// current path. The path is made in the topic of the location, and its
    /// head is the note that the location leads to.
    pub fn create_path(&mut self, new_path: &str, location: Option<&str>) -> (r: Result<
        (),
        ZtlnError,
    >)
        requires
            old(self).wf(),
        ensures
            final(self).wf(),
            final(self).location() == old(self).location(),
            (Outcome { result: unit_result(r), state: final(self)@ }) == path_created(
                old(self)@,
                new_path@,
                given(location),
            ),
    {
        let expr: &str = match location {
            Some(l) => l,
            None => "HEAD",
        };
        let parsed = match Location::parse(expr) {
            Some(l) => l,
            None => {
                return Err(ZtlnError::InvalidLocation(String::from_str(expr)));
            },
        };
        let named: Option<String> = match &parsed {
            Location::Relative { topic, path, steps } => copy_name(topic),
            Location::Absolute { short } => None,
        };
        let topic = match named {
            Some(t) => t,
            None => match self.get_current_topic() {
                Some(t) => t,
                None => {
                    return Err(ZtlnError::NoDefaultTopic);
                },
            },
        };
        if !self.store.topic_exists(topic.as_str()) {
            return Err(ZtlnError::TopicDoesNotExist(topic));
        }
        let found = match parsed {
            Location::Absolute { short } => {
                if self.store.path_exists(topic.as_str(), new_path) {
                    return Err(ZtlnError::PathAlreadyExists(topic, String::from_str(new_path)));
                }
                match self.store.search_short_uuid(short.as_str()) {
                    Ok(found) => found,
                    Err(e) => {
                        return Err(e);
                    },
                }
            },
            Location::Relative { topic: _, path, steps } => {
                let source = if str_eq(path.as_str(), "HEAD") {
                    match self.store.get_current_path(topic.as_str()).unwrap() {
                        Some(p) => p,
                        None => {
                            return Err(ZtlnError::NoDefaultPath);
                        },
                    }
                } else {
                    path
                };
                if self.store.path_exists(topic.as_str(), new_path) {
                    return Err(ZtlnError::PathAlreadyExists(topic, String::from_str(new_path)));
                }
                if !self.store.path_exists(topic.as_str(), source.as_str()) {
                    return Err(ZtlnError::PathDoesNotExist(topic, source));
                }
                let head = self.head_of(topic.as_str(), source.as_str());
                match self.trace_back(head, steps) {
                    Ok(found) => found,
                    Err(e) => {
                        return Err(e);
                    },
                }
            },
        };
        match found {
            Some(n) => {
                self.store.write_path(topic.as_str(), new_path, n.note_id).unwrap();
                Ok(())
            },
            None => Err(ZtlnError::LocationError(String::from_str(expr))),
        }
    }

    /// Settles the topic of a new note: a topic that is given becomes
    /// the current one.
    fn settle_topic(&mut self, topic: Option<&str>) -> (r: Result<String, ZtlnError>)
        requires
            old(self).wf(),
        ensures
            final(self).wf(),
            final(self).location() == old(self).location(),
            (Outcome { result: name_result(r), state: final(self)@ }) == topic_settled(
                old(self)@,
                given(topic),
            ),
    {
        match topic {
            Some(t) => {
                match self.set_current_topic(t) {
                    Ok(_) => Ok(String::from_str(t)),
                    Err(e) => Err(e),
                }
            },
            None => match self.get_current_topic() {
                None => Err(ZtlnError::NoDefaultTopic),
                Some(t) => if self.store.topic_exists(t.as_str()) {
                    Ok(t)
                } else {
                    Err(ZtlnError::TopicDoesNotExist(t))
                },
            },
        }
    }

    /// Settles the path of a new note in a topic of the repository.
    fn settle_path(&mut self, topic: &str, path: Option<&str>) -> (r: Result<String, ZtlnError>)
        requires
            old(self).wf(),
            old(self)@.topic_exists(topic@),
        ensures
            final(self).wf(),
            final(self).location() == old(self).location(),
            (Outcome { result: name_result(r), state: final(self)@ }) == path_settled(
                old(self)@,
                topic@,
                given(path),
            ),
    {
        let current = self.store.get_current_path(topic).unwrap();
        match path {
            Some(p) => {
                if !self.store.path_exists(topic, p) {
                    match current {
                        Some(c) => match self.store.get_path(topic, c.as_str()) {
                            Ok(head) => {
                                self.store.write_path(topic, p, head).unwrap();
                            },
                            Err(e) => {
                                if self.store.path_exists(topic, c.as_str()) {
                                    return Err(ZtlnError::from_store(e));
                                }
                                return Err(
                                    ZtlnError::PathDoesNotExist(String::from_str(topic), c),
                                );
                            },
                        },
                        None => {},
                    }
                }
                self.store.set_current_path(topic, p).unwrap();
                Ok(String::from_str(p))
            },
            None => match current {
                Some(c) => Ok(c),
                None => {
                    self.store.set_current_path(topic, "main").unwrap();
                    Ok(String::from_str("main"))
                },
            },
        }
    }

    /// Adds a note with the content `content` under a fresh identifier,
    /// as `add_note_as` does under a given one.
    pub fn add_note(&mut self, content: Vec<u8>, topic: Option<&str>, path: Option<&str>) -> (r:
        Result<NoteMetaData, ZtlnError>)
        requires
            old(self).wf(),
        ensures
            final(self).wf(),
            final(self).location() == old(self).location(),
            exists|id: Identifier|
                (Outcome { result: note_result(r), state: final(self)@ }) == #[trigger] note_added(
                    old(self)@,
                    id,
                    content@,
                    given(topic),
                    given(path),
                ),
            r matches Ok(m) ==> (Outcome { result: note_result(r), state: final(self)@ })
                == note_added(old(self)@, m.note_id, content@, given(topic), given(path)),
    {
        let id = Identifier::mint();
        self.add_note_as(id, content, topic, path)
    }

    /// Adds the note `id` with the content `content`. A topic that is
    /// given becomes the current topic; else the note goes to the current
    /// topic. A path that is given becomes the topic's current path, and
    /// is branched from the path that was current if the topic does not
    /// have it; else the note goes to the current path, which is `main`
    /// where the topic had none. The note's parent is the head that the
    /// path had, and the note is its new head.
    pub fn add_note_as(
        &mut self,
        id: Identifier,
        content: Vec<u8>,
        topic: Option<&str>,
        path: Option<&str>,
    ) -> (r: Result<NoteMetaData, ZtlnError>)
        requires
            old(self).wf(),
        ensures
            final(self).wf(),
            final(self).location() == old(self).location(),
            (Outcome { result: note_result(r), state: final(self)@ }) == note_added(
                old(self)@,
                id,
                content@,
                given(topic),
                given(path),
            ),
    {
        let topic = match self.settle_topic(topic) {
            Ok(t) => t,
            Err(e) => {
                return Err(e);
            },
        };
        let path = match self.settle_path(topic.as_str(), path) {
            Ok(p) => p,
            Err(e) => {
                return Err(e);
            },
        };
        match self.store.insert_note(id, topic.as_str(), path.as_str(), content) {
            Ok(m) => Ok(m),
            Err(e) => Err(ZtlnError::from_store(e)),
        }
    }

    /// The metadata of the note at the head of a path that exists.
    fn head_metadata(&self, topic: &str, path: &str) -> (r: Result<NoteMetaData, ZtlnError>)
        requires
            self.wf(),
            self@.path_exists(topic@, path@),
        ensures
            note_result(r) == crate::engine::head_metadata(self@, topic@, path@),
    {
        let id = match self.store.get_path(topic, path) {
            Ok(id) => id,
            Err(e) => {
                return Err(ZtlnError::from_store(e));
            },
        };
        match self.store.get_note_metadata(id) {
            Err(e) => Err(e),
            Ok(Some(m)) => Ok(m),
            Ok(None) => {
                let mut s = String::from_str("Note '");
                s.append(id.text().as_str());
                s.append("' has no metadata.");
                Err(ZtlnError::StorageIntegrity(s))
            },
        }
    }

    /// Removes a path from a topic, by default from the current topic.
    /// The result is the metadata of the note that was at its head.
    pub fn remove_path(&mut self, path: &str, topic: Option<&str>) -> (r: Result<
        NoteMetaData,
        ZtlnError,
    >)
        requires
            old(self).wf(),
        ensures
            final(self).wf(),
            final(self).location() == old(self).location(),
            (Outcome { result: note_result(r), state: final(self)@ }) == path_removed(
                old(self)@,
                path@,
                given(topic),
            ),
    {
        let topic = match self.unwrap_or_default_topic(topic) {
            Ok(t) => t,
            Err(e) => {
                return Err(e);
            },
        };
        if !self.store.path_exists(topic.as_str(), path) {
            return Err(ZtlnError::PathDoesNotExist(topic, String::from_str(path)));
        }
        let head = match self.head_metadata(topic.as_str(), path) {
            Ok(m) => m,
            Err(e) => {
                return Err(e);
            },
        };
        self.store.remove_path(topic.as_str(), path).unwrap();
        Ok(head)
    }

    /// Puts the note of a location at the head of a path of a topic, by
    /// default of the current topic. The result is the metadata of the
    /// note that was at the head, and of the one that is.
    pub fn reset_path(&mut self, path: &str, topic: Option<&str>, location: &str) -> (r: Result<
        (NoteMetaData, NoteMetaData),
        ZtlnError,
    >)
        requires
            old(self).wf(),
        ensures
            final(self).wf(),
            final(self).location() == old(self).location(),
            (Outcome { result: pair_result(r), state: final(self)@ }) == path_reset(
                old(self)@,
                path@,
                given(topic),
                location@,
            ),
    {
        let topic = match self.unwrap_or_default_topic(topic) {
            Ok(t) => t,
            Err(e) => {
                return Err(e);
            },
        };
        if !self.store.path_exists(topic.as_str(), path) {
            return Err(ZtlnError::PathDoesNotExist(topic, String::from_str(path)));
        }
        let next = match self.solve_note(location) {
            Ok(n) => n,
            Err(e) => {
                return Err(e);
            },
        };
        let previous = match self.head_metadata(topic.as_str(), path) {
            Ok(m) => m,
            Err(e) => {
                return Err(e);
            },
        };
        self.store.reset_path(topic.as_str(), path, next.note_id).unwrap();
        Ok((previous, next))
    }

    /// Puts the note of a location, by default the head of the current
    /// path, under a keyword.
    pub fn add_keyword(&mut self, keyword: &str, location: Option<&str>) -> (r: Result<
        (),
        ZtlnError,
    >)
        requires
            old(self).wf(),
        ensures
            final(self).wf(),
            final(self).location() == old(self).location(),
            (Outcome { result: unit_result(r), state: final(self)@ }) == keyword_added(
                old(self)@,
                keyword@,
                given(location),
            ),
    {
        let expr: &str = match location {
            Some(l) => l,
            None => "HEAD",
        };
        let note = match self.solve_note(expr) {
            Ok(n) => n,
            Err(e) => {
                return Err(e);
            },
        };
        match self.store.add_keyword_index(keyword, &note) {
            Ok(_) => Ok(()),
            Err(e) => Err(ZtlnError::from_store(e)),
        }
    }

    /// The metadata of the notes under a keyword, in the order in which
    /// they got it. Fails where the repository has a keyword index that
    /// cannot be read, and where it comes to a record that cannot be read.
    pub fn search_keyword(&self, keyword: &str) -> (r: Result<Vec<NoteMetaData>, ZtlnError>)
        requires
            self.wf(),
        ensures
            match r {
                Ok(notes) => keyword_notes(self@, keyword@) == Ok::<Seq<NoteView>, ErrorView>(
                    note_views(notes@),
                ),
                Err(e) => keyword_notes(self@, keyword@) == Err::<Seq<NoteView>, ErrorView>(e@),
            },
    {
        self.store.get_meta_from_index(keyword)
    }

    /// The keywords, in order, each with the number of times a note was
    /// put under it. Fails where the repository has a keyword index that
    /// cannot be read.
    pub fn list_keywords(&self) -> (r: Result<Vec<(String, usize)>, ZtlnError>)
        requires
            self.wf(),
        ensures
            match r {
                Ok(counts) => self@.unread_index is None && increasing(counted_names(counts@))
                    && (forall|k: Seq<char>|
                    counted_names(counts@).contains(k) <==> self@.keywords.contains_key(k))
                    && (forall|i: int|
                    0 <= i < counts@.len() ==> (#[trigger] counts@[i]).1 == self@.tagged(
                        counts@[i].0@,
                    ).len()),
                Err(e) => self@.unread_index is Some && e@ == ErrorView::StorageIntegrity(
                    bad_index_text(),
                ),
            },
    {
        match self.store.get_keywords() {
            Ok(counts) => Ok(counts),
            Err(e) => Err(ZtlnError::from_store(e)),
        }
    }

    /// The content of a note.
    pub fn get_note_content(&self, uuid: Identifier) -> (r: Result<Vec<u8>, ZtlnError>)
        requires
            self.wf(),
        ensures
            content_result(r) == content_of(self@, uuid),
    {
        match self.store.get_note_content(uuid) {
            Ok(bytes) => Ok(copy_bytes(bytes)),
            Err(e) => Err(ZtlnError::from_store(e)),
        }
    }

    /// Makes the note of one location refer to the note of another.
    pub fn add_note_reference(&mut self, from_location: &str, to_location: &str) -> (r: Result<
        (),
        ZtlnError,
    >)
        requires
            old(self).wf(),
        ensures
            final(self).wf(),
            final(self).location() == old(self).location(),
            (Outcome { result: unit_result(r), state: final(self)@ }) == reference_added(
                old(self)@,
                from_location@,
                to_location@,
            ),
    {
        let source = match self.solve_note(from_location) {
            Ok(n) => n,
            Err(e) => {
                return Err(e);
            },
        };
        let target = match self.solve_note(to_location) {
            Ok(n) => n,
            Err(e) => {
                return Err(e);
            },
        };
        let mut source = source;
        source.references.push(target.note_id);
        self.store.write_note_metadata(&source).unwrap();
        Ok(())
    }
}

} // verus!
