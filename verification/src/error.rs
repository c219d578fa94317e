use vstd::prelude::*;

verus! {

/// `std::io::Error`, carried through unchanged by the I/O variants.
#[verifier::external_type_specification]
#[verifier::external_body]
pub struct ExIoError(std::io::Error);

/// `std::path::PathBuf`, carried through unchanged by [`SaveError::IoAt`].
#[verifier::external_type_specification]
#[verifier::external_body]
pub struct ExPathBuf(std::path::PathBuf);

/// `bincode::ErrorKind`, carried through unchanged by [`SaveError::Serialize`].
#[verifier::external_type_specification]
#[verifier::external_body]
pub struct ExBincodeErrorKind(bincode::ErrorKind);

/// Every way a save or load can fail.
#[derive(Debug)]
pub enum SaveError {
    /// A file-system operation failed.
    Io(std::io::Error),
    /// The envelope bytes could not be (de)serialized.
    Serialize(bincode::Error),
    /// The file does not start with the save-file magic number.
    InvalidMagic { expected: u32, got: u32 },
    /// The payload checksum stored in the file does not match the payload.
    Crc32Mismatch { expected: u32, got: u32 },
    /// The file is older than the configured version and no migrations are available.
    UnsupportedVersion { version: u32, max_supported: u32 },
    /// No migration is registered for this source version.
    NoMigration(u32),
    /// The named slot (or its backup) does not exist.
    SlotNotFound(String),
    /// Compressing the payload failed.
    Compression(String),
    /// Decompressing the payload failed.
    Decompression(String),
    /// Encrypting the payload failed.
    Encryption(String),
    /// Decrypting the payload failed.
    Decryption(String),
    /// Some other integrity check failed.
    Integrity(String),
    /// A file-system operation on `path` failed.
    IoAt { path: std::path::PathBuf, source: std::io::Error },
}

/// Result of every fallible operation of this crate.
pub type SaveResult<T> = Result<T, SaveError>;

} // verus!
