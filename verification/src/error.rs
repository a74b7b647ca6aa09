//! Error kinds surfaced by the service, the parser and the evaluator.

use vstd::prelude::*;

verus! {

/// The four error kinds of the engine, with human-readable payloads.
#[derive(Debug, PartialEq, Eq)]
pub enum ZanzibarError {
    /// A check or expand targeted a namespace with no loaded configuration.
    NamespaceNotFound(String),
    /// A relation (top-level or reached through a rewrite) is absent from the
    /// resolved namespace; carries the relation and the namespace name.
    RelationNotFound(String, String),
    /// The policy text failed the DSL grammar.
    ParseError(String),
    /// A store write found the tuple already present, a delete found it
    /// absent, or the backend failed.
    StorageError(String),
}

/// Mathematical view of a [`ZanzibarError`].
pub enum SpecError {
    NamespaceNotFound(Seq<char>),
    RelationNotFound(Seq<char>, Seq<char>),
    ParseError(Seq<char>),
    StorageError(Seq<char>),
}

impl View for ZanzibarError {
    type V = SpecError;

    open spec fn view(&self) -> SpecError {
        match self {
            ZanzibarError::NamespaceNotFound(n) => SpecError::NamespaceNotFound(n@),
            ZanzibarError::RelationNotFound(r, n) => SpecError::RelationNotFound(r@, n@),
            ZanzibarError::ParseError(m) => SpecError::ParseError(m@),
            ZanzibarError::StorageError(m) => SpecError::StorageError(m@),
        }
    }
}

impl Clone for ZanzibarError {
    fn clone(&self) -> (r: Self)
        ensures
            r@ == self@,
    {
        match self {
            ZanzibarError::NamespaceNotFound(n) => ZanzibarError::NamespaceNotFound(n.clone()),
            ZanzibarError::RelationNotFound(r, n) => ZanzibarError::RelationNotFound(
                r.clone(),
                n.clone(),
            ),
            ZanzibarError::ParseError(m) => ZanzibarError::ParseError(m.clone()),
            ZanzibarError::StorageError(m) => ZanzibarError::StorageError(m.clone()),
        }
    }
}

impl ZanzibarError {
    /// The error's payload: the offending name or the detail text, in place
    /// of a `Display` implementation.
    pub fn message(&self) -> (r: &String)
        ensures
            r@ == self.message_spec(),
    {
        match self {
            ZanzibarError::NamespaceNotFound(n) => n,
            ZanzibarError::RelationNotFound(r, _) => r,
            ZanzibarError::ParseError(m) => m,
            ZanzibarError::StorageError(m) => m,
        }
    }

    /// The payload returned by [`Self::message`].
    pub open spec fn message_spec(&self) -> Seq<char> {
        match self {
            ZanzibarError::NamespaceNotFound(n) => n@,
            ZanzibarError::RelationNotFound(r, _) => r@,
            ZanzibarError::ParseError(m) => m@,
            ZanzibarError::StorageError(m) => m@,
        }
    }
}

/// View of a check result, lifting the error to its view.
pub open spec fn res_view(r: Result<bool, ZanzibarError>) -> Result<bool, SpecError> {
    match r {
        Ok(b) => Ok(b),
        Err(e) => Err(e@),
    }
}

} // verus!
