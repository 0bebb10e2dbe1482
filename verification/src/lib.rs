//! Passwords drawn uniformly at random from a set of candidate elements.

pub mod chars;
pub mod charsets;
pub mod cli;
pub mod decimal;
pub mod drawing;
pub mod error;
pub mod getopts_model;
pub mod password;
pub mod sampler;
pub mod source;
pub mod text;

pub use error::PasswordError;
pub use password::{
    random_password, random_password_elements, random_password_elements_with,
    random_password_with, slice_contains_duplicates,
};
pub use sampler::{sample_index, DRAW_LIMIT};
pub use source::{OsSource, RandomSource, ScriptedSource};
