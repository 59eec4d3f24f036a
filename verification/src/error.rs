use vstd::prelude::*;
use vstd::string::StringExecFns;

use crate::utils::{decimal, hex_digit_char, push_decimal, push_hex_byte};

verus! {

/// Everything that can go wrong while reading, editing or writing EDID data.
#[derive(Debug, Clone, PartialEq, Eq)]
pub enum EdidError {
    InvalidLength,
    InvalidHeader,
    InvalidChecksum { block_index: usize },
    ExtensionCountMismatch { expected: usize, actual: usize },
    UnsupportedExtension(u8),
    ParseError(String),
    ValidationError(String),
}

/// The mathematical content of an [`EdidError`]: messages are seen as character sequences.
pub enum ErrorView {
    InvalidLength,
    InvalidHeader,
    InvalidChecksum { block_index: int },
    ExtensionCountMismatch { expected: int, actual: int },
    UnsupportedExtension(u8),
    Parse(Seq<char>),
    Validation(Seq<char>),
}

impl View for EdidError {
    type V = ErrorView;

    open spec fn view(&self) -> ErrorView {
        match self {
            EdidError::InvalidLength => ErrorView::InvalidLength,
            EdidError::InvalidHeader => ErrorView::InvalidHeader,
            EdidError::InvalidChecksum { block_index } => ErrorView::InvalidChecksum {
                block_index: *block_index as int,
            },
            EdidError::ExtensionCountMismatch { expected, actual } =>
                ErrorView::ExtensionCountMismatch {
                expected: *expected as int,
                actual: *actual as int,
            },
            EdidError::UnsupportedExtension(tag) => ErrorView::UnsupportedExtension(*tag),
            EdidError::ParseError(message) => ErrorView::Parse(message@),
            EdidError::ValidationError(message) => ErrorView::Validation(message@),
        }
    }
}

/// `r` fails exactly when `expected` names an error, and then with that error.
pub open spec fn fails_as<T>(r: Result<T, EdidError>, expected: Option<ErrorView>) -> bool {
    match r {
        Ok(_) => expected is None,
        Err(e) => expected == Some(e@),
    }
}

/// The human-readable message for an error.
pub open spec fn error_message(e: ErrorView) -> Seq<char> {
    match e {
        ErrorView::InvalidLength => "invalid EDID length"@,
        ErrorView::InvalidHeader => "invalid EDID header"@,
        ErrorView::InvalidChecksum { block_index } => "invalid checksum for block "@ + decimal(
            block_index as nat,
        ),
        ErrorView::ExtensionCountMismatch { expected, actual } =>
            "extension count mismatch: expected "@ + decimal(expected as nat) + ", got "@
            + decimal(actual as nat),
        ErrorView::UnsupportedExtension(tag) => "unsupported extension tag 0x"@ + seq![
            hex_digit_char((tag / 16) as int),
            hex_digit_char((tag % 16) as int),
        ],
        ErrorView::Parse(message) => "parse error: "@ + message,
        ErrorView::Validation(message) => "validation error: "@ + message,
    }
}

impl EdidError {
    /// The human-readable message for this error.
    pub fn message(&self) -> (r: String)
        ensures
            r@ == error_message(self@),
    {
        match self {
            EdidError::InvalidLength => "invalid EDID length".to_owned(),
            EdidError::InvalidHeader => "invalid EDID header".to_owned(),
            EdidError::InvalidChecksum { block_index } => {
                let mut out = "invalid checksum for block ".to_owned();
                push_decimal(&mut out, *block_index);
                out
            },
            EdidError::ExtensionCountMismatch { expected, actual } => {
                let mut out = "extension count mismatch: expected ".to_owned();
                push_decimal(&mut out, *expected);
                out.append(", got ");
                push_decimal(&mut out, *actual);
                out
            },
            EdidError::UnsupportedExtension(tag) => {
                let mut out = "unsupported extension tag 0x".to_owned();
                push_hex_byte(&mut out, *tag);
                out
            },
            EdidError::ParseError(message) => {
                let mut out = "parse error: ".to_owned();
                out.append(message.as_str());
                out
            },
            EdidError::ValidationError(message) => {
                let mut out = "validation error: ".to_owned();
                out.append(message.as_str());
                out
            },
        }
    }
}

/// Builds a parse error carrying `message`.
pub fn parse_error(message: &str) -> (e: EdidError)
    ensures
        e@ == ErrorView::Parse(message@),
{
    EdidError::ParseError(message.to_owned())
}

/// Builds a validation error carrying `message`.
pub fn validation_error(message: &str) -> (e: EdidError)
    ensures
        e@ == ErrorView::Validation(message@),
{
    EdidError::ValidationError(message.to_owned())
}

} // verus!
