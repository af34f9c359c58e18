//! The command line of the skill manager, as the library sees it.
use vstd::prelude::*;

use crate::config::Config;
use crate::text;

verus! {

/// The options and the command given on the command line.
pub struct Cli {
    /// The configuration file to use instead of the default one.
    pub config: Option<String>,
    /// The store address to use instead of the configured one.
    pub api: Option<String>,
    pub token: Option<String>,
    /// The source to use instead of the configured default.
    pub source: Option<String>,
    pub command: Cmd,
}

/// The commands.
pub enum Cmd {
    Search { keyword: Option<String>, limit: u32, page: u32, json: bool },
    Install {
        skill: String,
        version: Option<String>,
        ref_name: Option<String>,
        subdir: Option<String>,
        as_name: Option<String>,
        yes: bool,
        force: bool,
        json: bool,
    },
    List { json: bool },
    Update { skill: Option<String>, all: bool, ref_name: Option<String> },
    Remove { skill: String, purge: bool },
    Config { sub: ConfigCmd },
}

/// The `config` subcommands.
pub enum ConfigCmd {
    List,
    Get { key: String },
    SetKey { key: String, value: String },
    Targets { targets: String },
}

impl Cli {
    /// The store address: the one given, else the configured one.
    pub fn endpoint(&self, cfg: &Config) -> (out: String)
        ensures
            out@ == (match self.api {
                Some(a) => a@,
                None => cfg@.endpoint,
            }),
    {
        match &self.api {
            Some(a) => a.clone(),
            None => cfg.api.endpoint.clone(),
        }
    }

    /// The source: the one given, else the configured default.
    pub fn source_name(&self, cfg: &Config) -> (out: String)
        ensures
            out@ == (match self.source {
                Some(s) => s@,
                None => cfg@.default_source,
            }),
    {
        match &self.source {
            Some(s) => s.clone(),
            None => cfg.source.default.clone(),
        }
    }
}

} // verus!
