//! The settings of the service, as they stand once the command line and the
//! environment have been read.

use crate::key::{generate_random_key, is_key};
use crate::models::DEFAULT_TIMEOUT_MILLIS;
use crate::schedule::{DEFAULT_MAX_CONCURRENCY, DEFAULT_MAX_MEMORY_SIZE};
use vstd::prelude::*;
use vstd::string::*;

verus! {

/// The settings of the service.
#[derive(Debug)]
pub struct App {
    /// The bearer key that requests have to carry; empty to let every request pass.
    pub auth_key: String,
    /// Whether the larger models are used.
    pub large_model: bool,
    /// The most jobs that run at once.
    pub max_concurrency: usize,
    /// The most finished records that stay in memory.
    pub max_memory_size: usize,
    /// Milliseconds without use after which a model is dropped.
    pub model_timeout_millis: u64,
    /// Whether only models that are already on this machine are used.
    pub offline: bool,
}

impl Clone for App {
    fn clone(&self) -> (out: Self)
        ensures
            out == *self,
    {
        App {
            auth_key: self.auth_key.clone(),
            large_model: self.large_model,
            max_concurrency: self.max_concurrency,
            max_memory_size: self.max_memory_size,
            model_timeout_millis: self.model_timeout_millis,
            offline: self.offline,
        }
    }
}

impl Default for App {
    fn default() -> (app: Self)
        ensures
            app.auth_key@.len() == 0,
            !app.large_model,
            app.max_concurrency == DEFAULT_MAX_CONCURRENCY,
            app.max_memory_size == DEFAULT_MAX_MEMORY_SIZE,
            app.model_timeout_millis == DEFAULT_TIMEOUT_MILLIS,
            !app.offline,
    {
        App {
            auth_key: String::new(),
            large_model: false,
            max_concurrency: DEFAULT_MAX_CONCURRENCY,
            max_memory_size: DEFAULT_MAX_MEMORY_SIZE,
            model_timeout_millis: DEFAULT_TIMEOUT_MILLIS,
            offline: false,
        }
    }
}

/// Where the bearer key of the service comes from.
#[derive(Debug, Clone, Copy, PartialEq, Eq, Structural)]
pub enum KeySource {
    /// It was given on the command line.
    CommandLine,
    /// It was found in the environment.
    Environment,
    /// Neither gave one, and a random key was made.
    Generated,
}

impl App {
    /// Where the key comes from: the command line goes before the
    /// environment, and a random key is made only if neither gives one.
    pub open spec fn key_source(given: Option<String>, environment: Option<String>) -> KeySource {
        if given is Some {
            KeySource::CommandLine
        } else if environment is Some {
            KeySource::Environment
        } else {
            KeySource::Generated
        }
    }

    /// Picks the bearer key of the service and says where it comes from.
    pub fn resolve_auth_key(given: Option<String>, environment: Option<String>) -> (out: (
        String,
        KeySource,
    ))
        ensures
            out.1 == Self::key_source(given, environment),
            out.1 == KeySource::CommandLine ==> Some(out.0) == given,
            out.1 == KeySource::Environment ==> Some(out.0) == environment,
            out.1 == KeySource::Generated ==> is_key(out.0@),
    {
        match given {
            Some(key) => (key, KeySource::CommandLine),
            None => match environment {
                Some(key) => (key, KeySource::Environment),
                None => (generate_random_key(), KeySource::Generated),
            },
        }
    }
}

} // verus!
