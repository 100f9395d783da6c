//! Translation engine for structured compiler diagnostics.
//!
//! The library matches free-text diagnostic messages against an ordered table
//! of templated phrase pairs, substitutes captured placeholder values into the
//! target-language template, propagates the substitutions through a nested
//! diagnostic record, and reconciles a flattened rendered-text field with the
//! substitutions made on the structured fields.

pub mod matcher;
pub mod phrase;
pub mod record;
pub mod rendered;
pub mod template;
pub mod translate;

pub use phrase::build_phrase_table;
pub use phrase::TranslateEntry;
pub use record::translate_json_message;
pub use record::translate_tree;
pub use record::DiagnosticChild;
pub use record::DiagnosticRecord;
pub use record::DiagnosticSpan;
pub use rendered::reconcile_rendered;
pub use translate::translate_message;
