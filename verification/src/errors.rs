//! The typed failures that surface to callers. Every failure carries a
//! human-readable reason; none is retried internally — retrying is the
//! caller's decision.

use vstd::prelude::*;
use vstd::string::*;

use crate::strutil::{spec_digits, usize_to_string};

verus! {

/// Everything that can go wrong across the automation surface, from
/// launching the browser to applying one action.
#[derive(Debug)]
pub enum BrowserError {
    /// The browser process could not be launched.
    LaunchFailed(String),
    /// Connecting to a running browser failed.
    ConnectionFailed(String),
    /// A navigation did not complete.
    NavigationFailed(String),
    /// The in-page extraction routine failed to run or its result failed to
    /// parse.
    ExtractionFailed(String),
    /// No element matched the locator.
    ElementNotFound(String),
    /// Creating, switching or closing a tab failed.
    TabOperationFailed(String),
    /// No open page qualifies as the active one.
    NoActivePage,
    /// Both a raw locator and an index were given.
    AmbiguousTarget,
    /// Neither a raw locator nor an index was given.
    MissingTarget,
    /// The given index is not in the current registry — expected after a
    /// navigation invalidates all indices; the caller must re-extract.
    UnknownIndex(usize),
    /// The underlying engine failed while applying a command.
    ActionFailed {
        /// The command being applied.
        command: String,
        /// What the engine reported.
        reason: String,
    },
}

/// The reason text of each failure.
pub open spec fn spec_message(e: BrowserError) -> Seq<char> {
    match e {
        BrowserError::LaunchFailed(s) => "launch failed: "@ + s@,
        BrowserError::ConnectionFailed(s) => "connection failed: "@ + s@,
        BrowserError::NavigationFailed(s) => "navigation failed: "@ + s@,
        BrowserError::ExtractionFailed(s) => "extraction failed: "@ + s@,
        BrowserError::ElementNotFound(s) => "element not found: "@ + s@,
        BrowserError::TabOperationFailed(s) => "tab operation failed: "@ + s@,
        BrowserError::NoActivePage => "no active page"@,
        BrowserError::AmbiguousTarget => "cannot specify both 'selector' and 'index'"@,
        BrowserError::MissingTarget => "must specify either 'selector' or 'index'"@,
        BrowserError::UnknownIndex(i) => "no element with index "@ + spec_digits(i as nat),
        BrowserError::ActionFailed { command, reason } => "action '"@ + command@ + "' failed: "@
            + reason@,
    }
}

impl BrowserError {
    /// The failure as readable text.
    pub fn message(&self) -> (r: String)
        ensures
            r@ == spec_message(*self),
    {
        match self {
            BrowserError::LaunchFailed(s) => {
                let mut m = String::from_str("launch failed: ");
                m.append(s.as_str());
                m
            },
            BrowserError::ConnectionFailed(s) => {
                let mut m = String::from_str("connection failed: ");
                m.append(s.as_str());
                m
            },
            BrowserError::NavigationFailed(s) => {
                let mut m = String::from_str("navigation failed: ");
                m.append(s.as_str());
                m
            },
            BrowserError::ExtractionFailed(s) => {
                let mut m = String::from_str("extraction failed: ");
                m.append(s.as_str());
                m
            },
            BrowserError::ElementNotFound(s) => {
                let mut m = String::from_str("element not found: ");
                m.append(s.as_str());
                m
            },
            BrowserError::TabOperationFailed(s) => {
                let mut m = String::from_str("tab operation failed: ");
                m.append(s.as_str());
                m
            },
            BrowserError::NoActivePage => String::from_str("no active page"),
            BrowserError::AmbiguousTarget => String::from_str(
                "cannot specify both 'selector' and 'index'",
            ),
            BrowserError::MissingTarget => String::from_str(
                "must specify either 'selector' or 'index'",
            ),
            BrowserError::UnknownIndex(i) => {
                let mut m = String::from_str("no element with index ");
                let d = usize_to_string(*i);
                m.append(d.as_str());
                m
            },
            BrowserError::ActionFailed { command, reason } => {
                let mut m = String::from_str("action '");
                m.append(command.as_str());
                m.append("' failed: ");
                m.append(reason.as_str());
                m
            },
        }
    }
}

} // verus!
