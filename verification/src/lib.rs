//! Template expansion of contextual placeholders for an interactive text
//! editor: `%{name}` blocks inside an input string are replaced by values
//! drawn from a snapshot of the current document and view.

mod chars;
mod context;
mod expand;
mod numeral;
mod resolve;

pub use chars::count_char;
pub use chars::find_from;
pub use chars::is_space;
pub use chars::rfind_from;
pub use chars::trim_end;
pub use chars::trim_start;
pub use chars::trimmed;
pub use context::Context;
pub use context::Document;
pub use context::Selection;
pub use expand::Expanded;
pub use expand::Expansion;
pub use expand::expand_spec;
pub use expand::expand_variables;
pub use expand::is_shell_prefix;
pub use expand::is_variable_prefix;
pub use expand::lemma_no_marker_identity;
pub use expand::lemma_unknown_variable_fails;
pub use numeral::dec_rep;
pub use numeral::digit_char;
pub use resolve::Error;
pub use resolve::base_of;
pub use resolve::dir_of;
pub use resolve::fragment_of;
pub use resolve::line_of;
pub use resolve::resolve;
pub use resolve::resolve_spec;
pub use resolve::scratch_name;
