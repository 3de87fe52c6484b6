//! A directory lister and the small command-line front end around it.

pub mod text;
pub mod mode;
pub mod echo;
pub mod entry;
pub mod flags;
pub mod layout;
pub mod order;
pub mod remove;
pub mod long;
pub mod mtime;
pub mod listing;
pub mod shell;
