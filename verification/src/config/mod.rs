//! The configuration of the program.
#[allow(clippy::module_inception)]
mod config;

pub use config::{
    config_path, exclude_all_rules_except, Config, H002Config, H003Config, RepositoryConfig,
    RulesConfig,
};
