//! Per-environment configuration and its selection by environment name.

use vstd::prelude::*;
use crate::text::str_eq;

verus! {

/// One environment's settings.
pub struct EnvConfig {
    pub discord_token: String,
    pub mongo_uri: String,
    pub discord_guild: String,
    pub aws_access_key_id: Option<String>,
    pub aws_secret_access_key: Option<String>,
    pub aws_region: Option<String>,
}

/// The configuration file's two environments.
pub struct Config {
    pub development: EnvConfig,
    pub production: EnvConfig,
}

impl Config {
    /// The settings for the named environment; `None` for any name other
    /// than the two known ones.
    pub fn get_environment(&self, environment: &str) -> (r: Option<&EnvConfig>)
        ensures
            environment@ == "production"@ ==> r == Some(&self.production),
            environment@ == "development"@ ==> r == Some(&self.development),
            environment@ != "production"@ && environment@ != "development"@ ==> r is None,
    {
        proof {
            reveal_strlit("production");
            reveal_strlit("development");
            assert("production"@.len() != "development"@.len());
        }
        if str_eq(environment, "production") {
            Some(&self.production)
        } else if str_eq(environment, "development") {
            Some(&self.development)
        } else {
            None
        }
    }
}

} // verus!
