//! Error taxonomy: one variant per failure cause, each carried together with a
//! human-readable message that keeps the lower-level cause for diagnostics.

use vstd::prelude::*;
use vstd::string::StringExecFns;

verus! {

/// The closed set of failure causes.
#[derive(Debug, Clone, PartialEq, Eq, Structural)]
pub enum EncryptionErrors {
    FileCreationError,
    FileOpenError,
    DecodeError,
    BufferReadInitialize,
    BufferReadError,
    WritingError,
    ArchiveCreationError,
    CreateCypherError,
    CypherEncryptError,
    CypherDecryptError,
    NonceError,
    DirectoryDeletionError,
    EncodeError,
    FileDeletionError,
}

/// The message template that belongs to each failure cause: the full message of
/// an error is this prefix followed by the propagated lower-level cause.
pub open spec fn message_prefix(code: EncryptionErrors) -> Seq<char> {
    match code {
        EncryptionErrors::FileCreationError => "→ Not able to create a file: "@,
        EncryptionErrors::FileOpenError => "→ Not able to open a file: "@,
        EncryptionErrors::DecodeError => "→ Not able to decode a file: "@,
        EncryptionErrors::BufferReadInitialize => "→ Not able to create buffer reader: "@,
        EncryptionErrors::BufferReadError => "→ Not able to read data from buffer: "@,
        EncryptionErrors::WritingError => "→ Not able to write a data: "@,
        EncryptionErrors::ArchiveCreationError => "→ Not able to create an archive: "@,
        EncryptionErrors::CreateCypherError => "→ Not able to create cypher from Master Key: "@,
        EncryptionErrors::CypherEncryptError => "→ Not able to encrypt file with current Cypher: "@,
        EncryptionErrors::CypherDecryptError => "→ Not able to decrypt file with current Cypher: "@,
        EncryptionErrors::NonceError => "→ Not enought data to decode Nonce data from file: "@,
        EncryptionErrors::DirectoryDeletionError => "→ Not able to delete directory with encrypted data: "@,
        EncryptionErrors::EncodeError => "→ Not able to encode keychain into vector: "@,
        EncryptionErrors::FileDeletionError => "→ Not able to delete unencrypted temporary .tar file: "@,
    }
}

/// A failure: its cause, and the message assembled from the cause's template
/// and the propagated lower-level description.
#[derive(Debug, Clone)]
pub struct EncryptionError {
    pub code: EncryptionErrors,
    pub error_msg: String,
}

impl EncryptionError {
    pub fn new(code: EncryptionErrors, propagated_error: &str) -> (r: EncryptionError)
        ensures
            r.code == code,
            r.error_msg@ == message_prefix(code) + propagated_error@,
    {
        let prefix: &str = match code {
            EncryptionErrors::FileCreationError => "→ Not able to create a file: ",
            EncryptionErrors::FileOpenError => "→ Not able to open a file: ",
            EncryptionErrors::DecodeError => "→ Not able to decode a file: ",
            EncryptionErrors::BufferReadInitialize => "→ Not able to create buffer reader: ",
            EncryptionErrors::BufferReadError => "→ Not able to read data from buffer: ",
            EncryptionErrors::WritingError => "→ Not able to write a data: ",
            EncryptionErrors::ArchiveCreationError => "→ Not able to create an archive: ",
            EncryptionErrors::CreateCypherError => "→ Not able to create cypher from Master Key: ",
            EncryptionErrors::CypherEncryptError => "→ Not able to encrypt file with current Cypher: ",
            EncryptionErrors::CypherDecryptError => "→ Not able to decrypt file with current Cypher: ",
            EncryptionErrors::NonceError => "→ Not enought data to decode Nonce data from file: ",
            EncryptionErrors::DirectoryDeletionError => "→ Not able to delete directory with encrypted data: ",
            EncryptionErrors::EncodeError => "→ Not able to encode keychain into vector: ",
            EncryptionErrors::FileDeletionError => "→ Not able to delete unencrypted temporary .tar file: ",
        };
        let mut msg = String::from_str(prefix);
        msg.append(propagated_error);
        EncryptionError { code, error_msg: msg }
    }

    /// The full message, for callers that want to print the error.
    pub fn message(&self) -> (r: &str)
        ensures
            r@ == self.error_msg@,
    {
        self.error_msg.as_str()
    }
}

/// Builds the error for a failure cause from the propagated lower-level text.
pub fn wrap_err(code: EncryptionErrors, propagated_error: &str) -> (r: EncryptionError)
    ensures
        r.code == code,
        r.error_msg@ == message_prefix(code) + propagated_error@,
{
    EncryptionError::new(code, propagated_error)
}

} // verus!
