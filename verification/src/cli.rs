//! Command-line facing data: the argument record, the User-Agent
//! choices and their HTTP header strings. Flag parsing itself is I/O
//! and lives outside the library.

use vstd::prelude::*;

verus! {

/// Supported User Agents for HTTP requests, allowing the user to
/// disguise or specify the client making the request.
#[derive(Clone, Debug)]
pub enum UserAgent {
    Mozilla,
    Webkit,
    Chrome,
}

/// The configurable inputs controlling one scraping run.
#[derive(Debug)]
pub struct Args {
    /// URLs to fetch, given literally.
    pub urls: Vec<String>,
    /// Paths of files containing URLs.
    pub file: Vec<String>,
    /// Output JSON file path.
    pub output: String,
    /// Optional user-agent choice.
    pub user_agent: Option<UserAgent>,
    /// Verbosity level.
    pub verbose: u8,
}

/// The HTTP User-Agent string each choice stands for; the default is a
/// common desktop Chrome string.
pub open spec fn spec_user_agent_string(ua: Option<&UserAgent>) -> Seq<char> {
    match ua {
        Some(UserAgent::Mozilla) => "Mozilla/5.0 (Windows NT 10.0; Win64; x64) Firefox/120.0"@,
        Some(UserAgent::Webkit) => "AppleWebKit/605.1.15 (KHTML, like Gecko) Version/16.4 Safari/605.1.15"@,
        Some(UserAgent::Chrome) => "Chrome/120.0.0.0 Safari/537.36"@,
        None => "Mozilla/5.0 (Windows NT 10.0; Win64; x64) AppleWebKit/537.36 (KHTML, like Gecko) Chrome/120.0.0.0 Safari/537.36"@,
    }
}

/// Converts a `UserAgent` choice into its HTTP User-Agent string.
pub fn get_user_agent_string(ua: Option<&UserAgent>) -> (s: &str)
    ensures
        s@ == spec_user_agent_string(ua),
{
    match ua {
        Some(UserAgent::Mozilla) => "Mozilla/5.0 (Windows NT 10.0; Win64; x64) Firefox/120.0",
        Some(UserAgent::Webkit) => "AppleWebKit/605.1.15 (KHTML, like Gecko) Version/16.4 Safari/605.1.15",
        Some(UserAgent::Chrome) => "Chrome/120.0.0.0 Safari/537.36",
        None => "Mozilla/5.0 (Windows NT 10.0; Win64; x64) AppleWebKit/537.36 (KHTML, like Gecko) Chrome/120.0.0.0 Safari/537.36",
    }
}

} // verus!
