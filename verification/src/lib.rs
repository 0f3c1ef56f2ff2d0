pub mod text;
pub mod regex_ops;
pub mod index_map;
pub mod substrings;
pub mod ssh_config;
pub mod utils;
pub mod db;
pub mod tables;
pub mod config;
pub mod entities;
pub mod cli;
pub mod session;
pub mod cmd;
pub mod prelude;
pub mod crud;
pub mod json;
