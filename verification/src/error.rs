//! Errors of a host run, and the checks that give them.

use vstd::prelude::*;
use vstd::string::StringSliceAdditionalSpecFns;
use crate::abi::FilterStatus;
use crate::plugin_loader::LoadError;
use vstd::utf8::valid_utf8;

verus! {

/// The error that `std` gives for bytes that are not UTF-8.
#[verifier::external_type_specification]
#[verifier::external_body]
pub struct ExUtf8Error(core::str::Utf8Error);

/// The error that `std` gives for failed reads and writes.
#[verifier::external_type_specification]
#[verifier::external_body]
pub struct ExIoError(std::io::Error);

/// The error of the `image` crate, for an image that cannot be decoded or encoded.
#[verifier::external_type_specification]
#[verifier::external_body]
pub struct ExImageError(image::ImageError);

/// The error of the `libloading` crate, for a module that cannot be opened or
/// lacks the entry point.
#[verifier::external_type_specification]
#[verifier::external_body]
pub struct ExLibraryError(libloading::Error);

/// `core::str::from_utf8` checks that the bytes are valid UTF-8 and, if they
/// are, hands them back as a string slice over the same bytes.
pub assume_specification[ core::str::from_utf8 ](v: &[u8]) -> (r: Result<
    &str,
    core::str::Utf8Error,
>)
    ensures
        r is Ok <==> valid_utf8(v@),
        r matches Ok(s) ==> s.spec_bytes() == v@,
;

/// Why a host run ended without a result.
#[derive(Debug)]
pub enum AppError {
    /// The input image file does not exist.
    MissingInput(String),
    /// The parameter file does not exist.
    MissingParams(String),
    /// The module file does not exist.
    MissingPlugin(String),
    /// A file could not be read or written.
    Io(std::io::Error),
    /// The image could not be decoded or encoded.
    Image(image::ImageError),
    /// The module could not be opened.
    Plugin(libloading::Error),
    /// The module was opened, but lacks the entry point.
    MissingSymbol(libloading::Error),
    /// The parameter file is not UTF-8 text.
    InvalidParamsUtf8,
    /// The parameter file holds a NUL byte, which no C string can carry.
    InvalidParamsNul,
    /// The filter could not read its configuration.
    InvalidConfig,
    /// The filter returned a number that stands for no status.
    UnknownStatus(u32),
}

/// The files a host run needs.
#[derive(Clone, Copy, Debug, PartialEq, Eq, Structural)]
pub enum HostFile {
    /// The image to read.
    Input,
    /// The text handed to the filter.
    Params,
    /// The module that holds the filter.
    Plugin,
}

/// The error for a file of the given role that is missing at `path`.
pub open spec fn missing(role: HostFile, path: String) -> AppError {
    match role {
        HostFile::Input => AppError::MissingInput(path),
        HostFile::Params => AppError::MissingParams(path),
        HostFile::Plugin => AppError::MissingPlugin(path),
    }
}

/// Passes a file that exists, and names the error for one that does not.
pub fn require_file(role: HostFile, path: String, exists: bool) -> (r: Result<(), AppError>)
    ensures
        exists ==> r is Ok,
        !exists ==> (r matches Err(e) && e == missing(role, path)),
{
    if exists {
        Ok(())
    } else {
        match role {
            HostFile::Input => Err(AppError::MissingInput(path)),
            HostFile::Params => Err(AppError::MissingParams(path)),
            HostFile::Plugin => Err(AppError::MissingPlugin(path)),
        }
    }
}

/// Whether any of the bytes is zero.
fn has_nul(bytes: &[u8]) -> (found: bool)
    ensures
        found == bytes@.contains(0u8),
{
    let mut i: usize = 0;
    while i < bytes.len()
        invariant
            i <= bytes@.len(),
            forall|j: int| 0 <= j < i ==> bytes@[j] != 0,
        decreases bytes@.len() - i,
    {
        if bytes[i] == 0 {
            return true;
        }
        i = i + 1;
    }
    false
}

/// Reads the bytes of a parameter file as the text to hand to a filter.
///
/// The bytes must be valid UTF-8, else the result is `InvalidParamsUtf8`; and
/// none of them may be zero, else the result is `InvalidParamsNul`. The text
/// returned has exactly the bytes given.
pub fn params_text(bytes: &[u8]) -> (r: Result<&str, AppError>)
    ensures
        r is Ok <==> valid_utf8(bytes@) && !bytes@.contains(0u8),
        r matches Ok(text) ==> text.spec_bytes() == bytes@,
        r matches Err(e) ==> if valid_utf8(bytes@) {
            e is InvalidParamsNul
        } else {
            e is InvalidParamsUtf8
        },
{
    match core::str::from_utf8(bytes) {
        Ok(text) => {
            if has_nul(bytes) {
                Err(AppError::InvalidParamsNul)
            } else {
                Ok(text)
            }
        },
        Err(_) => Err(AppError::InvalidParamsUtf8),
    }
}

/// What the host makes of the number a filter returned: an error where the
/// filter refused its configuration or the number stands for no status.
pub open spec fn status_outcome(code: u32) -> Result<FilterStatus, AppError> {
    match FilterStatus::spec_from_code(code) {
        Some(FilterStatus::InvalidConfig) => Err(AppError::InvalidConfig),
        Some(status) => Ok(status),
        None => Err(AppError::UnknownStatus(code)),
    }
}

/// Decides whether a run goes on after the filter has returned `code`.
///
/// It goes on after a success, and after a call that left the buffer alone
/// because it did not fit the dimensions. It ends with `InvalidConfig` where
/// the filter refused its configuration, and with `UnknownStatus` where the
/// number stands for no status.
pub fn accept_status(code: u32) -> (r: Result<FilterStatus, AppError>)
    ensures
        r == status_outcome(code),
{
    match FilterStatus::from_code(code) {
        Some(FilterStatus::InvalidConfig) => Err(AppError::InvalidConfig),
        Some(status) => Ok(status),
        None => Err(AppError::UnknownStatus(code)),
    }
}

/// The error for a step of loading that the platform refused: a missing
/// entry point where the symbol was not resolved, a failed load otherwise.
pub open spec fn platform_error(kind: LoadError, source: libloading::Error) -> AppError {
    match kind {
        LoadError::SymbolResolutionError => AppError::MissingSymbol(source),
        _ => AppError::Plugin(source),
    }
}

/// Names the error of a run for a step of loading that the platform refused
/// with `source`, so that a module without the entry point is told from one
/// that could not be opened.
pub fn platform_failure(kind: LoadError, source: libloading::Error) -> (e: AppError)
    ensures
        e == platform_error(kind, source),
{
    match kind {
        LoadError::SymbolResolutionError => AppError::MissingSymbol(source),
        _ => AppError::Plugin(source),
    }
}

} // verus!
