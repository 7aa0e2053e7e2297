use vstd::prelude::*;
use vstd::string::*;

verus! {

/// A failure of the storage layer itself: the repository is not where it
/// should be, or its structure is not the one the store maintains.
#[derive(Debug, Clone)]
pub struct StoreError {
    message: String,
}

impl View for StoreError {
    type V = Seq<char>;

    closed spec fn view(&self) -> Seq<char> {
        self.message@
    }
}

impl StoreError {
    /// The error that says `message`.
    pub fn new(message: String) -> (e: Self)
        ensures
            e@ == message@,
    {
        Self { message }
    }

    /// The detail this error was built with.
    pub fn detail(&self) -> (s: &str)
        ensures
            s@ == self@,
    {
        self.message.as_str()
    }

    /// The text shown to a user for this error.
    pub fn message(&self) -> (s: String)
        ensures
            s@ == store_error_text(self@),
    {
        let mut s = String::from_str("STORE I/O ERROR → ");
        s.append(self.message.as_str());
        s
    }
}

/// The text shown to a user for a failure of the store.
pub open spec fn store_error_text(detail: Seq<char>) -> Seq<char> {
    "STORE I/O ERROR → "@ + detail
}

/// Every way an operation of the engine can fail.
#[derive(Debug, Clone, PartialEq)]
pub enum ZtlnError {
    /// The named topic is not in the repository.
    TopicDoesNotExist(String),
    /// A topic of that name is already in the repository.
    TopicAlreadyExists(String),
    /// The topic already has a path of that name.
    PathAlreadyExists(String, String),
    /// The topic has no path of that name.
    PathDoesNotExist(String, String),
    /// A stored metadata record is malformed: the field, and what is wrong with it.
    ParserError(String, Option<String>),
    /// A well-formed location expression that leads to no note.
    LocationError(String),
    /// A string that is no location expression.
    InvalidLocation(String),
    /// No topic was given and the repository has no current topic.
    NoDefaultTopic,
    /// No path was given and the topic has no current path.
    NoDefaultPath,
    /// The repository does not have the structure the engine relies on.
    StorageIntegrity(String),
    /// The medium that holds the repository failed.
    IoFailure(String),
}

/// The mathematical value of a [`ZtlnError`].
pub enum ErrorView {
    TopicDoesNotExist(Seq<char>),
    TopicAlreadyExists(Seq<char>),
    PathAlreadyExists(Seq<char>, Seq<char>),
    PathDoesNotExist(Seq<char>, Seq<char>),
    ParserError(Seq<char>, Option<Seq<char>>),
    LocationError(Seq<char>),
    InvalidLocation(Seq<char>),
    NoDefaultTopic,
    NoDefaultPath,
    StorageIntegrity(Seq<char>),
    IoFailure(Seq<char>),
}

impl View for ZtlnError {
    type V = ErrorView;

    open spec fn view(&self) -> ErrorView {
        match self {
            ZtlnError::TopicDoesNotExist(t) => ErrorView::TopicDoesNotExist(t@),
            ZtlnError::TopicAlreadyExists(t) => ErrorView::TopicAlreadyExists(t@),
            ZtlnError::PathAlreadyExists(t, p) => ErrorView::PathAlreadyExists(t@, p@),
            ZtlnError::PathDoesNotExist(t, p) => ErrorView::PathDoesNotExist(t@, p@),
            ZtlnError::ParserError(f, d) => ErrorView::ParserError(
                f@,
                match d {
                    Some(m) => Some(m@),
                    None => None,
                },
            ),
            ZtlnError::LocationError(l) => ErrorView::LocationError(l@),
            ZtlnError::InvalidLocation(l) => ErrorView::InvalidLocation(l@),
            ZtlnError::NoDefaultTopic => ErrorView::NoDefaultTopic,
            ZtlnError::NoDefaultPath => ErrorView::NoDefaultPath,
            ZtlnError::StorageIntegrity(d) => ErrorView::StorageIntegrity(d@),
            ZtlnError::IoFailure(d) => ErrorView::IoFailure(d@),
        }
    }
}

impl ErrorView {
    /// The text shown to a user for this error.
    pub open spec fn message(self) -> Seq<char> {
        match self {
            ErrorView::TopicDoesNotExist(t) => "→ Topic '"@ + t + "' does not exist"@,
            ErrorView::TopicAlreadyExists(t) => "→ Topic '"@ + t + "' does already exist"@,
            ErrorView::PathAlreadyExists(t, p) => "→ Path '"@ + t + "/"@ + p
                + "' does already exist"@,
            ErrorView::PathDoesNotExist(t, p) => "→ Path "@ + t + "/"@ + p + " does not exist"@,
            ErrorView::ParserError(f, d) => "→ Parser error while reading '"@ + f + "' field. "@
                + (match d {
                Some(m) => m,
                None => Seq::empty(),
            }),
            ErrorView::LocationError(l) => "→ Location '"@ + l + "' does not exist."@,
            ErrorView::InvalidLocation(l) => "→ Invalid location '"@ + l + "'."@,
            ErrorView::NoDefaultTopic => "→ No default topic"@,
            ErrorView::NoDefaultPath => "→ No default path"@,
            ErrorView::StorageIntegrity(d) => store_error_text(d),
            ErrorView::IoFailure(d) => "→ "@ + d,
        }
    }
}

impl ZtlnError {
    /// The text shown to a user for this error.
    pub fn message(&self) -> (s: String)
        ensures
            s@ == self@.message(),
    {
        match self {
            ZtlnError::TopicDoesNotExist(t) => {
                let mut s = String::from_str("→ Topic '");
                s.append(t.as_str());
                s.append("' does not exist");
                s
            },
            ZtlnError::TopicAlreadyExists(t) => {
                let mut s = String::from_str("→ Topic '");
                s.append(t.as_str());
                s.append("' does already exist");
                s
            },
            ZtlnError::PathAlreadyExists(t, p) => {
                let mut s = String::from_str("→ Path '");
                s.append(t.as_str());
                s.append("/");
                s.append(p.as_str());
                s.append("' does already exist");
                s
            },
            ZtlnError::PathDoesNotExist(t, p) => {
                let mut s = String::from_str("→ Path ");
                s.append(t.as_str());
                s.append("/");
                s.append(p.as_str());
                s.append(" does not exist");
                s
            },
            ZtlnError::ParserError(f, d) => {
                let mut s = String::from_str("→ Parser error while reading '");
                s.append(f.as_str());
                s.append("' field. ");
                match d {
                    Some(m) => {
                        s.append(m.as_str());
                    },
                    None => {
                        assert(s@ + Seq::<char>::empty() =~= s@);
                    },
                }
                s
            },
            ZtlnError::LocationError(l) => {
                let mut s = String::from_str("→ Location '");
                s.append(l.as_str());
                s.append("' does not exist.");
                s
            },
            ZtlnError::InvalidLocation(l) => {
                let mut s = String::from_str("→ Invalid location '");
                s.append(l.as_str());
                s.append("'.");
                s
            },
            ZtlnError::NoDefaultTopic => String::from_str("→ No default topic"),
            ZtlnError::NoDefaultPath => String::from_str("→ No default path"),
            ZtlnError::StorageIntegrity(d) => {
                let mut s = String::from_str("STORE I/O ERROR → ");
                s.append(d.as_str());
                s
            },
            ZtlnError::IoFailure(d) => {
                let mut s = String::from_str("→ ");
                s.append(d.as_str());
                s
            },
        }
    }

    /// The error that reports a failure of the store.
    pub fn from_store(e: StoreError) -> (r: Self)
        ensures
            r@ == ErrorView::StorageIntegrity(e@),
    {
        ZtlnError::StorageIntegrity(e.message)
    }
}

} // verus!
