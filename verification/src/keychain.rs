//! The macOS Keychain entry that holds the token. The Keychain exists on
//! macOS only; here every operation reports that it is unavailable, and
//! the token lives in the other stores (see `secrets`).
use vstd::prelude::*;

verus! {

/// Why a Keychain operation did not happen.
#[derive(Debug, Clone, Copy, PartialEq, Eq, Structural)]
pub enum KeychainError {
    /// The Keychain is macOS-only.
    Unavailable,
}

impl KeychainError {
    pub fn message(&self) -> (r: &'static str)
        ensures
            r@ == "Keychain is macOS-only"@,
    {
        "Keychain is macOS-only"
    }
}

/// Stores the token (update-or-create).
pub fn set(secret: &str) -> (r: Result<(), KeychainError>)
    ensures
        r == Err::<(), KeychainError>(KeychainError::Unavailable),
{
    Err(KeychainError::Unavailable)
}

/// Reads the token back.
pub fn get() -> (r: Result<String, KeychainError>)
    ensures
        r == Err::<String, KeychainError>(KeychainError::Unavailable),
{
    Err(KeychainError::Unavailable)
}

/// Removes the token.
pub fn delete() -> (r: Result<(), KeychainError>)
    ensures
        r == Err::<(), KeychainError>(KeychainError::Unavailable),
{
    Err(KeychainError::Unavailable)
}

} // verus!
