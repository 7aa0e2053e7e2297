//! A store of notes that never change, each linked to the note that came
//! before it on its path. Topics hold paths, a path names the note at its
//! head, and a location expression leads from a name, or from the start
//! of an identifier, to a note. The engine and its repository are values:
//! what is read from a disk, and what is written to it, is a snapshot.

use vstd::prelude::*;

pub mod engine;
pub mod error;
pub mod ident;
pub mod index;
pub mod invariants;
pub mod laws;
pub mod location;
pub mod model;
pub mod note;
pub mod organization;
pub mod snapshot;
pub mod store;
mod table;
pub mod text;

pub use error::{StoreError, ZtlnError};
pub use ident::Identifier;
pub use location::Location;
pub use note::NoteMetaData;
pub use organization::Organization;
pub use snapshot::{BlobFile, Snapshot, TextFile, TopicFiles};
pub use store::Store;

verus! {

} // verus!
