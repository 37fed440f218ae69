//! Comment search: extracts the comments of source files, fingerprints files
//! and comments with SHA3-512, and decides how the records are stored.
//!
//! The crate holds the logic only. Walking directories, reading files,
//! running workers and talking to the database are the caller's part: the
//! caller hands in extensions and bytes, and performs the store actions that a
//! [`Session`] asks for.
//!
//! * [`file`]: the records of files and comments, and how one file is processed.
//! * [`scan`]: which entries of a directory walk are processed, and what is
//!   kept of the outcomes.
//! * [`db`]: the statements that create the schema and write the records.
//! * [`session`]: the order of the actions on the database, and what follows
//!   when one fails.
//! * [`hash`]: fingerprints.
//! * [`syntax`]: comment rules and the comment parser.

pub mod db;
pub mod file;
pub mod hash;
pub mod scan;
pub mod session;
pub mod syntax;

pub use db::{setup_database, write_to_db, Statement};
pub use file::{is_supported_extension, Comment, FileData, ProcessingError};
pub use scan::{is_candidate, search_source, ScanReport};
pub use session::{Action, Kind, Session, Step, StoreError};
