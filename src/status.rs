use vstd::prelude::*;

verus! {

/// The result of checking one URL, made once at the end of its check.
#[derive(Debug)]
pub struct WebsiteStatus {
    /// The URL that was checked.
    pub url: String,
    /// The HTTP status code of the response, or why there was none.
    pub status: Result<u16, String>,
    /// Milliseconds from the start of the first attempt to the end of the last.
    pub response_time_ms: u64,
    /// When the check ended, in milliseconds since the Unix epoch.
    pub timestamp_ms: i64,
}

} // verus!
