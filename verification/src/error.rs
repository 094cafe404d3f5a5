//! Error types of the typed key-value layer.

use vstd::prelude::*;
use vstd::string::*;

verus! {

/// An error that carries nothing but its message.
#[derive(Clone, Debug, PartialEq)]
pub struct StringErr(pub String);

/// Result of an operation on a collection.
pub type KvResult<T> = Result<T, KvError>;

/// What can go wrong when a collection is read or written.
///
/// `DeserError` and `DbCorrupted` report damaged data and are never used for
/// a failure of the storage engine, which is always a `BackendError`.
#[derive(Clone, Debug, PartialEq)]
pub enum KvError {
    /// The storage engine failed; the payload is the engine's message.
    BackendError(String),
    /// An error raised by the caller's own code.
    Custom(String),
    /// A consistency rule between entries does not hold.
    DbCorrupted(String),
    /// Stored bytes are not the canonical encoding of any value.
    DeserError(String),
    /// The engine could not create its folder.
    FailToCreateDbFolder(String),
    /// The event hub no longer accepts subscribers.
    FailToSubscribe,
}

/// Result of a write transaction.
pub type TransactionResult<D, A, BE> = Result<D, TransactionError<A, BE>>;

/// Why a write transaction applied nothing.
#[derive(Debug)]
pub enum TransactionError<A, BE> {
    /// The caller asked for the transaction to be given up.
    Abort(A),
    /// The storage engine failed while the transaction was committed.
    BackendErr(BE),
    /// A collection reported an error while the transaction was staged.
    KvError(KvError),
}

impl StringErr {
    /// The message, which is also the text the error is displayed as.
    pub fn message(&self) -> (text: String)
        ensures
            text@ == self.0@,
    {
        self.0.clone()
    }
}

impl KvError {
    /// The text that each variant stands for in the model.
    pub open spec fn spec_message(self) -> Seq<char> {
        match self {
            KvError::BackendError(e) => "Backend error: "@ + e@,
            KvError::Custom(e) => e@,
            KvError::DbCorrupted(e) => "DB corrupted:"@ + e@,
            KvError::DeserError(e) => "DeserError: "@ + e@,
            KvError::FailToCreateDbFolder(e) => "FailToCreateDbFolder: "@ + e@,
            KvError::FailToSubscribe => "FailToSubscribe"@,
        }
    }

    /// The text the error is displayed as.
    pub fn message(&self) -> (text: String)
        ensures
            text@ == self.spec_message(),
    {
        match self {
            KvError::BackendError(e) => String::from_str("Backend error: ").concat(e.as_str()),
            KvError::Custom(e) => e.clone(),
            KvError::DbCorrupted(e) => String::from_str("DB corrupted:").concat(e.as_str()),
            KvError::DeserError(e) => String::from_str("DeserError: ").concat(e.as_str()),
            KvError::FailToCreateDbFolder(e) => String::from_str("FailToCreateDbFolder: ").concat(
                e.as_str(),
            ),
            KvError::FailToSubscribe => String::from_str("FailToSubscribe"),
        }
    }
}

/// `sled::Error`, the error of the sled engine. Nothing inside it is seen
/// here.
#[verifier::external_type_specification]
#[verifier::external_body]
pub struct ExSledError(sled::Error);

/// `sled::Error`'s `to_string`: the message that the engine gives for its
/// error. The text depends on the error and, for a failure of the
/// operating system, on the machine; what is claimed is that it is not
/// empty, since the engine begins the message for each kind of error
/// with fixed words.
#[verifier::external_body]
fn sled_message(e: &sled::Error) -> (text: String)
    ensures
        text@.len() > 0,
{
    e.to_string()
}

/// The failure of an engine, wrapped: a `BackendError` that holds the
/// engine's message as it is.
pub fn backend_error(message: String) -> (e: KvError)
    ensures
        e == KvError::BackendError(message),
{
    KvError::BackendError(message)
}

impl From<sled::Error> for KvError {
    /// An error of the sled engine as a `BackendError` with the engine's
    /// message, which is never empty.
    fn from(e: sled::Error) -> (r: KvError)
        ensures
            r matches KvError::BackendError(m) && m@.len() > 0,
    {
        backend_error(sled_message(&e))
    }
}

impl vstd::std_specs::convert::FromSpecImpl<sled::Error> for KvError {
    open spec fn obeys_from_spec() -> bool {
        false
    }

    open spec fn from_spec(e: sled::Error) -> KvError {
        arbitrary()
    }
}

} // verus!
