pub mod api;
pub mod cli;
pub mod config;
pub mod error;
pub mod git_backend;
pub mod install;
pub mod json;
pub mod manifest;
pub mod number;
pub mod sources;
pub mod storage;
pub mod text;
pub mod update;
