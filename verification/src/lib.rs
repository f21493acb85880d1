//! Profile based environment variable management.

pub mod activation;
pub mod cli;
pub mod dotenv;
pub mod env;
pub mod files;
pub mod laws;
pub mod loading;
pub mod manage;
pub mod palette;
pub mod paths;
pub mod profile;
pub mod rc;
pub mod report;
pub mod shell;
pub mod stack;
pub mod startup;
pub mod text;
pub mod user_env;
