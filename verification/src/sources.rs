//! Where skills come from: the store records a search or lookup answers
//! with, and the sources that answer them.
use vstd::prelude::*;

use crate::json::JsonValue;

pub mod clawhub;
pub mod github;
pub mod kingdee;

verus! {

/// One version of a skill, as a source lists it.
pub struct RemoteSkillVersion {
    pub version: String,
}

/// A skill as a source describes it.
pub struct RemoteSkill {
    pub name: String,
    pub slug: String,
    pub version: Option<String>,
    pub canonical_url: Option<String>,
    pub source: String,
    pub description: Option<String>,
    /// The source's own record of the skill.
    pub meta: JsonValue,
}

} // verus!
