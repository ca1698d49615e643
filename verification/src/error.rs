//! Errors that end a session, and which of them no retry can mend.

use vstd::prelude::*;

use crate::sink::{MissingPulsePlugin, OpenError};

verus! {

/// A configuration that cannot work, with the reason in words.
#[derive(Debug)]
pub struct ConfigurationError {
    message: String,
}

impl ConfigurationError {
    /// The reason.
    pub closed spec fn view(self) -> Seq<char> {
        self.message@
    }

    pub fn new(message: &str) -> (error: Self)
        ensures
            error@ == message@,
    {
        ConfigurationError { message: message.to_owned() }
    }

    pub fn message(&self) -> (message: &str)
        ensures
            message@ == self@,
    {
        self.message.as_str()
    }
}

/// Why a session ended.
#[derive(Debug)]
pub enum SessionError {
    MissingPulsePlugin(MissingPulsePlugin),
    Configuration(ConfigurationError),
    /// Anything else, with the reason in words: a new session may do better.
    Lost(String),
}

impl SessionError {
    /// The reason in words.
    pub open spec fn text(self) -> Seq<char> {
        match self {
            SessionError::MissingPulsePlugin(_) => MissingPulsePlugin::text(),
            SessionError::Configuration(error) => error@,
            SessionError::Lost(reason) => reason@,
        }
    }

    pub fn message(&self) -> (message: &str)
        ensures
            message@ == self.text(),
    {
        match self {
            SessionError::MissingPulsePlugin(plugin) => plugin.message(),
            SessionError::Configuration(error) => error.message(),
            SessionError::Lost(reason) => reason.as_str(),
        }
    }

    pub fn lost(reason: &str) -> (error: Self)
        ensures
            error is Lost,
            error.text() == reason@,
    {
        SessionError::Lost(reason.to_owned())
    }

    /// Whether a new session may do better.
    pub fn is_retryable(&self) -> (retryable: bool)
        ensures
            retryable == (self is Lost),
    {
        match self {
            SessionError::Lost(_) => true,
            _ => false,
        }
    }

    /// A device that could not be opened ends the session for the same reason.
    pub fn from_open(error: OpenError) -> (session: Self)
        ensures
            session == match error {
                OpenError::MissingPulsePlugin(plugin) => SessionError::MissingPulsePlugin(plugin),
                OpenError::Configuration(error) => SessionError::Configuration(error),
                OpenError::Unavailable(reason) => SessionError::Lost(reason),
            },
    {
        match error {
            OpenError::MissingPulsePlugin(plugin) => SessionError::MissingPulsePlugin(plugin),
            OpenError::Configuration(error) => SessionError::Configuration(error),
            OpenError::Unavailable(reason) => SessionError::Lost(reason),
        }
    }
}

} // verus!
