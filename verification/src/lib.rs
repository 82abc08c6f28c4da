//! Minification for parsed shader modules and for serialized shader text.
//!
//! The identifier pass renames every nameable entity of a parsed module to a
//! minimal synthetic name and rebuilds the type table so that its uniqueness
//! invariant survives the renaming; entry-point names and override-constant
//! names are kept, since they are addressable from outside the module. The
//! text passes elide whitespace without ever fusing two tokens, drop trailing
//! commas, and remove redundant double parentheses.

pub mod chars;
pub mod ir;
pub mod model;
pub mod names;
pub mod parens;
pub mod temps;
pub mod text;

pub use chars::is_numeric;
pub use ir::minify_module;
pub use names::name_from_count;
pub use temps::collapse_single_use_temporaries;
pub use text::minify_wgsl_source;
