//! The settings a deployment is started with.

use vstd::prelude::*;
use crate::pagination::text_of;

verus! {

/// The port the listing is served on when none is configured.
pub fn default_port() -> (port: u16)
    ensures
        port == 3000,
{
    3000
}

/// The settings of one deployment. They are read once, at start.
#[derive(Debug)]
pub struct Config {
    pub database_url: String,
    pub twitter_api_bearer: String,
    /// The keyword every source is searched for.
    pub keyword: String,
    /// Seconds between two ticks of a source.
    pub interval_in_sec: u64,
    pub port: u16,
    pub honeycomb_api_key: Option<String>,
    pub honeycomb_dataset: Option<String>,
}

impl Config {
    /// Puts the settings together; a port that was not configured becomes
    /// the default port.
    pub fn new(
        database_url: String,
        twitter_api_bearer: String,
        keyword: String,
        interval_in_sec: u64,
        port: Option<u16>,
        honeycomb_api_key: Option<String>,
        honeycomb_dataset: Option<String>,
    ) -> (config: Config)
        ensures
            config.database_url@ == database_url@,
            config.twitter_api_bearer@ == twitter_api_bearer@,
            config.keyword@ == keyword@,
            config.interval_in_sec == interval_in_sec,
            config.port == match port {
                Some(p) => p,
                None => 3000u16,
            },
            text_of(config.honeycomb_api_key) == text_of(honeycomb_api_key),
            text_of(config.honeycomb_dataset) == text_of(honeycomb_dataset),
    {
        let port = match port {
            Some(p) => p,
            None => default_port(),
        };
        Config {
            database_url,
            twitter_api_bearer,
            keyword,
            interval_in_sec,
            port,
            honeycomb_api_key,
            honeycomb_dataset,
        }
    }
}

impl Clone for Config {
    fn clone(&self) -> (r: Self)
        ensures
            r == *self,
    {
        Config {
            database_url: self.database_url.clone(),
            twitter_api_bearer: self.twitter_api_bearer.clone(),
            keyword: self.keyword.clone(),
            interval_in_sec: self.interval_in_sec,
            port: self.port,
            honeycomb_api_key: match &self.honeycomb_api_key {
                Some(k) => Some(k.clone()),
                None => None,
            },
            honeycomb_dataset: match &self.honeycomb_dataset {
                Some(d) => Some(d.clone()),
                None => None,
            },
        }
    }
}

} // verus!
