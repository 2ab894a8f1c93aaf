//! An embedded relational data engine: named tables held in memory, a small
//! command language, single-level snapshot transactions, and codecs for the
//! encrypted database file and the compressed backup.
//!
//! - [`table`], [`catalog`] and [`model`]: the tables, the store that keeps
//!   them by name, and what each operation makes of the mapping.
//! - [`text`], [`lexer`], [`parser`] and [`statement`]: from the text of a
//!   command to a statement.
//! - [`database`]: the transaction round the store, and the commands.
//! - [`codec`], [`cipher`], [`gzip`] and [`backup`]: the text form of the
//!   tables, the encrypted image of a commit, the compressed backup.
//! - [`registry`] and [`server`]: the databases that are connected, and the
//!   requests of clients.
//! - [`user_manager`]: the users of the server and their passwords.
//!
//! The library reads and writes no file, opens no socket and reads no clock:
//! where a file is due, it hands out the path and the bytes, and the time of
//! day comes in as text.
//!
//! Database files and backups hold the tables in the text form of
//! [`codec`], which is this library's own and not JSON. Backups that hold
//! JSON cannot be restored.

pub mod backup;
pub mod catalog;
pub mod cipher;
pub mod codec;
pub mod database;
pub mod error;
pub mod gzip;
pub mod lexer;
pub mod model;
pub mod named;
pub mod parser;
pub mod registry;
pub mod reply;
pub mod server;
pub mod statement;
pub mod table;
pub mod text;
pub mod user_manager;
