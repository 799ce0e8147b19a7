//! Error values of the library.
use vstd::prelude::*;

verus! {

/// A configuration value was refused.
#[derive(Debug, Clone, PartialEq, Eq)]
pub enum ConfigError {
    /// A printer access code is not six ASCII letters or digits.
    InvalidPincode,
}

/// The printer could not be reached.
#[derive(Debug, Clone, PartialEq, Eq)]
pub enum PrinterError {
    NotConnected,
}

/// Printer discovery and setup failures.
#[derive(Debug, Clone, PartialEq, Eq)]
pub enum SetupError {
    InvalidPincode,
    VerificationFailed(String),
}

/// A notification could not be delivered.
#[derive(Debug, Clone, PartialEq, Eq)]
pub enum NotificationError {
    TelegramFailed(String),
}

/// Errors answered by the HTTP API.
#[derive(Debug, Clone, PartialEq, Eq)]
pub enum AppError {
    Validation(String),
    Config(ConfigError),
    Printer(PrinterError),
    Setup(SetupError),
    Notification(NotificationError),
}

} // verus!
