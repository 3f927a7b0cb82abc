use vstd::prelude::*;

verus! {

/// The failure taxonomy of the vault engine.
///
/// `Error` carries a human-readable description of an I/O, crypto,
/// path or format failure; `IncorrectPassword` is kept distinct so a
/// caller can loop the user back to password entry instead of showing
/// a generic error.
#[derive(Debug)]
pub enum VaultError {
    Error(String),
    IncorrectPassword,
}

impl VaultError {
    /// A displayable description of the failure.
    pub fn message(&self) -> (r: String)
        ensures
            self is IncorrectPassword ==> r@ == "Incorrect password provided."@,
            self is Error ==> r@ == self->Error_0@,
    {
        match self {
            VaultError::IncorrectPassword => String::from_str("Incorrect password provided."),
            VaultError::Error(s) => s.clone(),
        }
    }

    /// True on the wrong-password failure, false on every other kind.
    pub fn is_incorrect_password(&self) -> (r: bool)
        ensures
            r == (self is IncorrectPassword),
    {
        match self {
            VaultError::IncorrectPassword => true,
            VaultError::Error(_) => false,
        }
    }
}

} // verus!
