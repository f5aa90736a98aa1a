use vstd::prelude::*;

use crate::preimage::{challenge_suffix, spec_challenge_suffix};

verus! {

/// The parameters of a timed hash-rate run on one challenge.
#[derive(Debug, Clone)]
pub struct BenchmarkConfig {
    pub address: String,
    pub challenge_id: String,
    pub difficulty: String,
    pub no_pre_mine: String,
    pub latest_submission: String,
    pub no_pre_mine_hour: String,
    pub duration_secs: u64,
    pub batch_size: usize,
}

impl BenchmarkConfig {
    /// The suffix of this configuration's challenge.
    pub fn suffix(&self) -> (suffix: String)
        ensures
            suffix@ == spec_challenge_suffix(
                self.address@,
                self.challenge_id@,
                self.difficulty@,
                self.no_pre_mine@,
                self.latest_submission@,
                self.no_pre_mine_hour@,
            ),
    {
        challenge_suffix(
            self.address.as_str(),
            self.challenge_id.as_str(),
            self.difficulty.as_str(),
            self.no_pre_mine.as_str(),
            self.latest_submission.as_str(),
            self.no_pre_mine_hour.as_str(),
        )
    }
}

} // verus!
