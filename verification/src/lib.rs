pub mod error;
pub mod text;
pub mod exec;
pub mod term;
pub mod git;
pub mod scan;
pub mod db;
pub mod repo;
pub mod table;
pub mod shell;
pub mod tag_rule;
pub mod secret;
pub mod progress;
