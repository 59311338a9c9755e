//! Errors of the cipher.
use vstd::prelude::*;

verus! {

/// hex::FromHexError, carried opaquely in `CipherError::HexError`.
#[verifier::external_type_specification]
#[verifier::external_body]
pub struct ExFromHexError(hex::FromHexError);

/// std::string::FromUtf8Error, carried opaquely in `CipherError::Utf8Error`.
#[verifier::external_type_specification]
#[verifier::external_body]
pub struct ExFromUtf8Error(std::string::FromUtf8Error);

/// What went wrong, without the details that some errors carry.
#[derive(Clone, Copy, Debug, PartialEq, Eq, Structural)]
pub enum ErrorKind {
    InvalidKey,
    HexError,
    Utf8Error,
    InvalidFormat,
    IntegrityError,
    IoError,
    EmptyFile,
    InvalidCharacters,
}

/// An error reported by encryption or decryption.
#[derive(Debug)]
pub enum CipherError {
    /// The key is empty.
    InvalidKey,
    /// The hex digits spelled by the whitespace do not decode.
    HexError(hex::FromHexError),
    /// The decrypted bytes are not UTF-8.
    Utf8Error(std::string::FromUtf8Error),
    /// The ciphertext does not have the expected shape.
    InvalidFormat(String),
    /// The checksum does not match the encrypted payload.
    IntegrityError,
    /// A file could not be read or written.
    IoError(String),
    /// The ciphertext is empty.
    EmptyFile,
    /// A character other than space or tab was met where a bit was expected.
    InvalidCharacters(String),
}

impl CipherError {
    /// The kind of this error, in contracts.
    pub open spec fn spec_kind(&self) -> ErrorKind {
        match self {
            CipherError::InvalidKey => ErrorKind::InvalidKey,
            CipherError::HexError(_) => ErrorKind::HexError,
            CipherError::Utf8Error(_) => ErrorKind::Utf8Error,
            CipherError::InvalidFormat(_) => ErrorKind::InvalidFormat,
            CipherError::IntegrityError => ErrorKind::IntegrityError,
            CipherError::IoError(_) => ErrorKind::IoError,
            CipherError::EmptyFile => ErrorKind::EmptyFile,
            CipherError::InvalidCharacters(_) => ErrorKind::InvalidCharacters,
        }
    }

    /// The kind of this error.
    #[verifier::when_used_as_spec(spec_kind)]
    pub fn kind(&self) -> (k: ErrorKind)
        ensures
            k == self.spec_kind(),
    {
        match self {
            CipherError::InvalidKey => ErrorKind::InvalidKey,
            CipherError::HexError(_) => ErrorKind::HexError,
            CipherError::Utf8Error(_) => ErrorKind::Utf8Error,
            CipherError::InvalidFormat(_) => ErrorKind::InvalidFormat,
            CipherError::IntegrityError => ErrorKind::IntegrityError,
            CipherError::IoError(_) => ErrorKind::IoError,
            CipherError::EmptyFile => ErrorKind::EmptyFile,
            CipherError::InvalidCharacters(_) => ErrorKind::InvalidCharacters,
        }
    }
}

} // verus!

verus! {

/// The outcome `r` is the one that `expected` describes: the same text, or an
/// error of the same kind.
pub open spec fn agrees(r: Result<String, CipherError>, expected: Result<Seq<char>, ErrorKind>) -> bool {
    match expected {
        Ok(t) => r matches Ok(s) && s@ == t,
        Err(k) => r matches Err(e) && e.spec_kind() == k,
    }
}

} // verus!
