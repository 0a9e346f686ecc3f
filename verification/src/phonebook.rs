//! A phone book: contacts in a tree of categories, built by the commands
//! `create_category` and `create_contact`.

pub mod aggregate;
pub mod entities;
pub mod persistent_objects;
pub mod phonebook_api;
