use vstd::prelude::*;

verus! {

/// Polling configuration: the pause between ticks and the CI servers to poll.
#[derive(Debug)]
pub struct Config {
    pub sleep: u64,
    pub job: Vec<JenkinsConfig>,
}

/// One CI server: where to reach it, how to authenticate, and where to announce.
#[derive(Debug)]
pub struct JenkinsConfig {
    pub server: String,
    pub id: String,
    pub user: String,
    pub token: String,
    pub notify: Vec<String>,
}

} // verus!
