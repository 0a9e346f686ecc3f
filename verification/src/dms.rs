//! A small document management system: a tree of folders holding files,
//! built by the commands `create_folder` and `create_file`.

pub mod aggregate;
pub mod commands;
pub mod dms_api;
pub mod entities;
pub mod persistent_objects;
