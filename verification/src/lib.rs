//! An importer of SST files: files are uploaded in pieces, checked, and taken into a storage engine.
//!
//! The library does no input or output itself. `importer::SSTImporter` and the types below it begin
//! operations, each of which is a `task::Task` that asks for actions and goes on with the answers.
//! The contracts say what is asked for next, whatever the answer. `model` shows what each operation
//! brings about on a host that does what it is asked, and `history` what several of them do.
//! `laws` says of all results what they have to be, whatever computes them.
pub mod text;
pub mod identity;
pub mod checksum;
pub mod path;
pub mod error;
pub mod meta;
pub mod task;
pub mod import_file;
pub mod import_dir;
pub mod importer;
pub mod model;
pub mod history;
pub mod laws;
