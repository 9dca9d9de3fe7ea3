//! Fill `{{name}}` placeholders in text templates, and load the variables from
//! structured sources (JSON, TOML, YAML).
pub mod args;
pub mod template;
pub mod text;
pub mod validate;
pub mod varmap;
pub mod vars;

pub use template::{fill_template, FillError};
pub use varmap::VarMap;
