//! The core of a peer node: a repository of modules and blueprints that are
//! named by the hash of their content, and a storage of scripts that sends a
//! particle for each script when it is due.
//!
//! Nothing here reads a clock, a file or a channel. Instants and file names
//! come in as plain values, and what is to be sent or written goes out as
//! plain values.

pub mod blueprint;
pub mod error;
pub mod file_names;
pub mod hash;
pub mod hex;
pub mod ids;
pub mod module_laws;
pub mod modules;
pub mod script;
pub mod script_laws;
pub mod script_storage;
pub mod str_map;
pub mod text;
