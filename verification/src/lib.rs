//! Lethe: a store of plain-text notes.
//!
//! Each note is a directory holding `meta.toml`, its metadata, and
//! `body.md`, its body.  The library keeps track of which parts of a note
//! changed, writes and reads notes through an injectable file system and
//! clock, edits notes through an editor, and indexes notes by their aliases.
//!
//! - [`text`]: characters, trimming and the order of strings;
//! - [`identifier`]: note identifiers and their hyphenated text;
//! - [`timestamp`]: instants and their RFC 3339 text;
//! - [`toml_value`]: TOML values as the library holds them;
//! - [`extra`]: the table of user-defined metadata;
//! - [`note`]: notes, metadata and the note editor;
//! - [`meta_format`]: writing and reading `meta.toml`;
//! - [`store`]: stores of notes over a file system and a clock;
//! - [`alias_index`]: the index from aliases to notes;
//! - [`validation`]: which keys user-defined metadata can use;
//! - [`edit`]: requests to edit a note and their application;
//! - [`repository`]: creating and editing notes by request.
pub mod text;
pub mod identifier;
pub mod timestamp;
pub mod toml_value;
pub mod extra;
pub mod note;
pub mod meta_format;
pub mod store;
pub mod alias_index;
pub mod validation;
pub mod edit;
pub mod repository;
