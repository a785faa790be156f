//! Native-mode `.ini` generation: placeholder substitution, key editing, and
//! the bundled `.ini.sample` templates.

pub mod substitute;
pub mod templates;

pub use substitute::{
    basic_auth_value, get_ini_key, inject_basic_auth, render, set_ini_key, set_ini_key_opt,
    BasicAuthEncoding, Substitutions,
};
pub use templates::{SampleKind, WriteOutcome};
