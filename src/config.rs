use vstd::prelude::*;

use crate::version::{valid_version, VersionMatcher};

verus! {

/// The job as the configuration file states it, before any check.
pub struct Config {
    pub mc_version: Option<String>,
    pub concurrency: Option<usize>,
    pub loader: Option<String>,
    pub destination: Option<String>,
    pub modrinth: Option<Vec<String>>,
    pub github: Option<Vec<String>>,
}

/// Why a configuration cannot describe a job.
#[derive(PartialEq, Eq, Structural, Clone, Copy, Debug)]
pub enum ConfigError {
    /// No game version is given.
    MissingVersion,
    /// No mod loader is given.
    MissingLoader,
    /// Neither list names a mod.
    NoMods,
    /// The game version is not of the shape `1.M` or `1.M.P`.
    InvalidVersion,
}

/// The names of an optional list; an absent list names nothing.
pub open spec fn names_of(l: Option<Vec<String>>) -> Seq<String> {
    match l {
        Some(v) => v@,
        None => Seq::empty(),
    }
}

impl Config {
    /// The error that the configuration gives, checked in this order; `None` when it is usable.
    pub open spec fn error_spec(&self) -> Option<ConfigError> {
        if self.mc_version is None {
            Some(ConfigError::MissingVersion)
        } else if self.loader is None {
            Some(ConfigError::MissingLoader)
        } else if names_of(self.modrinth).len() + names_of(self.github).len() == 0 {
            Some(ConfigError::NoMods)
        } else if !valid_version(self.mc_version->0@) {
            Some(ConfigError::InvalidVersion)
        } else {
            None
        }
    }

    /// Checks that the configuration describes a job.
    pub fn validate(&self) -> (r: Result<(), ConfigError>)
        ensures
            match self.error_spec() {
                Some(e) => r == Err::<(), ConfigError>(e),
                None => r is Ok,
            },
    {
        let version = match &self.mc_version {
            None => return Err(ConfigError::MissingVersion),
            Some(v) => v,
        };
        if self.loader.is_none() {
            return Err(ConfigError::MissingLoader);
        }
        let mlen = match &self.modrinth {
            Some(v) => v.len(),
            None => 0,
        };
        let glen = match &self.github {
            Some(v) => v.len(),
            None => 0,
        };
        if mlen == 0 && glen == 0 {
            return Err(ConfigError::NoMods);
        }
        match VersionMatcher::new(version.as_str()) {
            Some(_) => Ok(()),
            None => Err(ConfigError::InvalidVersion),
        }
    }

    /// The directory the mods are written to: the configured one, or the working directory.
    pub fn destination_dir(&self) -> (r: String)
        ensures
            r@ == match self.destination {
                Some(d) => d@,
                None => seq!['.'],
            },
    {
        match &self.destination {
            Some(d) => d.clone(),
            None => {
                proof {
                    reveal_strlit(".");
                }
                ".".to_string()
            },
        }
    }
}

} // verus!
