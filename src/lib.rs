//! A partial-document engine for exam and question files: documents whose
//! fields may still be absent, templated or invalid are overlaid with
//! defaults, expanded from template files, completed with the content of
//! external files, checked with every problem reported at its path, resolved
//! to fully specified documents, and brought into one locale.

pub mod check;
pub mod files;
pub mod loading;
pub mod localize;
pub mod match_answers;
pub mod matrix;
pub mod overlay;
pub mod project;
pub mod resolve;
pub mod syntax;
pub mod template;
pub mod tree;
pub mod value;
