//! Schema-driven expense record builder.
//!
//! The library collects the logic of an interactive expense-entry tool:
//! a left-to-right arithmetic expression evaluator, a name-history index
//! with prefix autocompletion, a single-flight cache for the category
//! directory, and a record builder that walks a dynamic field schema.
//! All terminal and network work stays outside; the library exchanges
//! plain values with its callers.

pub mod calc;
pub mod category;
pub mod completer;
pub mod history;
pub mod record;
pub mod session;
pub mod text;
