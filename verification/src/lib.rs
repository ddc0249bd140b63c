pub mod cli;
pub mod envmap;
pub mod github_env;
pub mod prompt;
pub mod runner;
pub mod text;
pub mod walk;
pub mod workflow;
