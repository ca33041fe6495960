//! When to ask for the listing page again.
//!
//! The program asks the network; the library decides, after each answer,
//! whether the page is there, whether to wait and ask again, or to give up.

use vstd::prelude::*;

use crate::error::Error;

verus! {

/// How often a failed request is made again.
pub const MAX_RETRIES: u8 = 5;

/// Seconds to wait before a request is made again.
pub const RETRY_DELAY_SECS: u64 = 5;

/// What to do after a request has been answered.
#[derive(Debug, PartialEq, Eq)]
pub enum FetchStep {
    /// The page arrived: this is its text.
    Done(String),
    /// Wait `delay_secs` seconds and ask again; `retries_used` then counts
    /// this retry too.
    Retry { retries_used: u8, delay_secs: u64 },
    /// The retries are used up: the run fails with the last network error.
    Failed(Error),
}

/// The step after a request that was the `retries_used`-th retry (0 for the
/// first request) and was answered with `outcome`: the page, or the words of
/// a network error.
///
/// A page ends the fetch. A failure is retried after a fixed delay until
/// `MAX_RETRIES` retries have been made; the failure after that is final.
pub fn request_html(retries_used: u8, outcome: Result<String, String>) -> (step: FetchStep)
    ensures
        match outcome {
            Ok(page) => step matches FetchStep::Done(text) && text@ == page@,
            Err(cause) => if retries_used < MAX_RETRIES {
                step == (FetchStep::Retry {
                    retries_used: (retries_used + 1) as u8,
                    delay_secs: RETRY_DELAY_SECS,
                })
            } else {
                step matches FetchStep::Failed(Error::Reqwest(words)) && words@ == cause@
            },
        },
{
    match outcome {
        Ok(page) => FetchStep::Done(page),
        Err(cause) => {
            if retries_used < MAX_RETRIES {
                FetchStep::Retry { retries_used: retries_used + 1, delay_secs: RETRY_DELAY_SECS }
            } else {
                FetchStep::Failed(Error::Reqwest(cause))
            }
        },
    }
}

} // verus!
