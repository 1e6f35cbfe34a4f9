//! Natural-language clause scripts: clause templates, line matching, script
//! compilation and a small sequential execution engine.

pub mod bdd;
pub mod clause;
pub mod matcher;
pub mod module;
pub mod vm;
pub mod words;
