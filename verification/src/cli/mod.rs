//! What the `webman` commands decide: the text they print and the shell
//! commands they run, computed from their arguments and the configuration.
pub mod random;
pub mod nodes;
pub mod root;
pub mod pbk;
pub mod setup;
pub mod virtual_host;
pub mod remote;
pub mod code;
pub mod clone;
pub mod add;
pub mod devserver;
pub mod ssh;
pub mod edit;
pub mod node;
pub mod beta;
pub mod config;
pub mod db;
pub mod migrate;
pub mod run;
pub mod generate_models;
pub mod push;
pub mod push_config;
pub mod roots;
pub mod ssh_config;
pub mod update;
