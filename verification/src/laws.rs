//! What holds of the library as a whole.

pub mod choices;
pub mod commands;
pub mod every_shell;
pub mod faults;
pub mod file_grammar;
pub mod grammar;
pub mod listing;
pub mod profile_file;
pub mod profiles;
pub mod quoting;
pub mod rc_file;
pub mod reports;
pub mod session;
pub mod stack_file;
pub mod stack_grammar;
pub mod texts;
pub mod user_variables;
pub mod values;
