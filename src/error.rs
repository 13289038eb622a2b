//! Error type shared by every display operation.
use vstd::prelude::*;

verus! {

/// The ways a display operation can fail.
#[derive(Debug)]
pub enum DisplayError {
    /// A GPIO line could not be requested, set or read.
    Gpio(String),
    /// The SPI device could not be opened, configured or written.
    Spi(String),
    /// An image could not be decoded or has the wrong geometry.
    Png(String),
    /// An image operation was attempted before `init`.
    NotInitialized,
    /// A frame buffer does not hold exactly one packed frame.
    InvalidDataSize {
        /// Bytes that one packed frame takes on the active model.
        expected: usize,
        /// Bytes that were supplied.
        actual: usize,
    },
    /// The busy line did not clear within the polling ceiling.
    Timeout,
    /// An operating-system I/O call failed.
    Io(String),
    /// The firmware or hardware description is invalid or missing.
    Config(String),
}

impl DisplayError {
    /// The numeric code that the C-callable layer reports for this error
    /// (negative; success is reported as 1 by that layer).
    pub fn code(&self) -> (r: i32)
        ensures
            r < 0,
            r == error_code(*self),
    {
        match self {
            DisplayError::Gpio(_) => -1,
            DisplayError::Spi(_) => -2,
            DisplayError::Config(_) => -3,
            DisplayError::Timeout => -4,
            DisplayError::NotInitialized => -5,
            DisplayError::InvalidDataSize { .. } => -6,
            DisplayError::Png(_) => -7,
            DisplayError::Io(_) => -8,
        }
    }
}

/// The code of each error kind, as the C-callable layer reports it.
pub open spec fn error_code(e: DisplayError) -> int {
    match e {
        DisplayError::Gpio(_) => -1,
        DisplayError::Spi(_) => -2,
        DisplayError::Config(_) => -3,
        DisplayError::Timeout => -4,
        DisplayError::NotInitialized => -5,
        DisplayError::InvalidDataSize { .. } => -6,
        DisplayError::Png(_) => -7,
        DisplayError::Io(_) => -8,
    }
}

} // verus!
