//! Checks of the assistant configuration file (`editor/assistant.json`).
//!
//! The file is read and decoded by the host; the library decides whether the decoded values make
//! a usable configuration. The temperature is a float: the host tests its range and hands the
//! answer over as a `bool`.

use vstd::prelude::*;

use crate::text::{blank, is_blank};

verus! {

/// The only configuration format version understood.
pub const CONFIG_VERSION: u8 = 1;

/// Longest accepted request timeout, in seconds.
pub const MAX_REQUEST_TIMEOUT_SEC: u64 = 3600;

/// Why a decoded configuration is refused.
#[derive(Debug, Clone, PartialEq, Eq)]
pub enum ConfigIssue {
    /// The file has another format version.
    Version(u8),
    /// `baseUrl` is empty or white space only.
    EmptyBaseUrl,
    /// `model` is empty or white space only.
    EmptyModel,
    /// The temperature is not a finite number in `[0, 2]`.
    Temperature,
    /// `requestTimeoutSec` is outside `1..=3600`.
    RequestTimeout(u64),
}

/// The first rule that the decoded values break, in the order the rules are checked.
pub open spec fn config_issue(
    version: u8,
    base_url: Seq<char>,
    model: Seq<char>,
    temperature_in_range: bool,
    request_timeout_sec: u64,
) -> Option<ConfigIssue> {
    if version != CONFIG_VERSION {
        Some(ConfigIssue::Version(version))
    } else if blank(base_url) {
        Some(ConfigIssue::EmptyBaseUrl)
    } else if blank(model) {
        Some(ConfigIssue::EmptyModel)
    } else if !temperature_in_range {
        Some(ConfigIssue::Temperature)
    } else if request_timeout_sec == 0 || request_timeout_sec > MAX_REQUEST_TIMEOUT_SEC {
        Some(ConfigIssue::RequestTimeout(request_timeout_sec))
    } else {
        None
    }
}

/// Checks decoded configuration values: `Ok` exactly when no rule is broken, else the first
/// broken rule.
pub fn check_assistant_config(
    version: u8,
    base_url: &str,
    model: &str,
    temperature_in_range: bool,
    request_timeout_sec: u64,
) -> (r: Result<(), ConfigIssue>)
    ensures
        r is Ok <==> config_issue(version, base_url@, model@, temperature_in_range, request_timeout_sec) is None,
        r matches Err(i) ==> config_issue(version, base_url@, model@, temperature_in_range, request_timeout_sec)
            == Some(i),
{
    if version != CONFIG_VERSION {
        return Err(ConfigIssue::Version(version));
    }
    if is_blank(base_url) {
        return Err(ConfigIssue::EmptyBaseUrl);
    }
    if is_blank(model) {
        return Err(ConfigIssue::EmptyModel);
    }
    if !temperature_in_range {
        return Err(ConfigIssue::Temperature);
    }
    if request_timeout_sec == 0 || request_timeout_sec > MAX_REQUEST_TIMEOUT_SEC {
        return Err(ConfigIssue::RequestTimeout(request_timeout_sec));
    }
    Ok(())
}

/// A configuration is accepted exactly when it is format version 1, its base URL and its model
/// each hold a character other than white space (a space, a line feed, ...), its temperature is in
/// range, and its request timeout is 1 to 3600 seconds; an unsupported version is reported first.
pub proof fn lemma_config_accepted(
    version: u8,
    base_url: Seq<char>,
    model: Seq<char>,
    temperature_in_range: bool,
    request_timeout_sec: u64,
)
    ensures
        config_issue(version, base_url, model, temperature_in_range, request_timeout_sec) is None <==> {
            &&& version == 1
            &&& exists|i: int| 0 <= i < base_url.len() && !crate::text::is_white_space(#[trigger] base_url[i])
            &&& exists|i: int| 0 <= i < model.len() && !crate::text::is_white_space(#[trigger] model[i])
            &&& temperature_in_range
            &&& 1 <= request_timeout_sec <= 3600
        },
        version != 1 ==> config_issue(version, base_url, model, temperature_in_range, request_timeout_sec) == Some(
            ConfigIssue::Version(version),
        ),
        crate::text::is_white_space(' ') && crate::text::is_white_space('\n'),
{
}

} // verus!
