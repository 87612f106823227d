//! The store's failure modes.

use vstd::prelude::*;

verus! {

/// Why a store operation failed.
#[derive(Debug)]
pub enum StoreError {
    /// The durable database engine refused an operation; the text is its
    /// own description of the failure.
    Database(String),
    /// A record could not be encoded for hashing.
    ArchiveEncode,
    /// No record identifier could be minted; the text says why.
    IdentifierMint(String),
    /// A record names a referent that is not registered.
    UnregisteredReferent(String),
    /// A registration reuses a name already owned by another referent.
    ReferentNameConflict(String),
    /// A duplicate found during a proposal disappeared before it could be
    /// reported.
    DuplicateRecordVanished(String),
    /// A new referent name is not lowercase kebab-case.
    NonKebabReferent(String),
}

/// The human-readable description of a failure.
pub open spec fn error_text(e: StoreError) -> Seq<char> {
    match e {
        StoreError::Database(text) => "sema database engine error: "@ + text@,
        StoreError::ArchiveEncode => "failed to encode record rkyv archive"@,
        StoreError::IdentifierMint(text) => "failed to mint record identifier: "@ + text@,
        StoreError::UnregisteredReferent(text) => "unregistered referent: "@ + text@,
        StoreError::ReferentNameConflict(text) => "referent name already registered under another canonical referent: "@
            + text@,
        StoreError::DuplicateRecordVanished(text) => "duplicate record vanished during guardian proposal handling: "@
            + text@,
        StoreError::NonKebabReferent(text) => "referent name must be lowercase kebab-case: "@ + text@,
    }
}

impl StoreError {
    /// The human-readable description of the failure.
    pub fn message(&self) -> (r: String)
        ensures
            r@ == error_text(*self),
            r@.len() > 0,
    {
        let (prefix, detail): (&str, Option<&String>) = match self {
            StoreError::Database(text) => ("sema database engine error: ", Some(text)),
            StoreError::ArchiveEncode => ("failed to encode record rkyv archive", None),
            StoreError::IdentifierMint(text) => ("failed to mint record identifier: ", Some(text)),
            StoreError::UnregisteredReferent(text) => ("unregistered referent: ", Some(text)),
            StoreError::ReferentNameConflict(text) => (
                "referent name already registered under another canonical referent: ",
                Some(text),
            ),
            StoreError::DuplicateRecordVanished(text) => (
                "duplicate record vanished during guardian proposal handling: ",
                Some(text),
            ),
            StoreError::NonKebabReferent(text) => (
                "referent name must be lowercase kebab-case: ",
                Some(text),
            ),
        };
        proof {
            reveal_strlit("sema database engine error: ");
            reveal_strlit("failed to encode record rkyv archive");
            reveal_strlit("failed to mint record identifier: ");
            reveal_strlit("unregistered referent: ");
            reveal_strlit("referent name already registered under another canonical referent: ");
            reveal_strlit("duplicate record vanished during guardian proposal handling: ");
            reveal_strlit("referent name must be lowercase kebab-case: ");
        }
        let mut out = prefix.to_string();
        match detail {
            Some(text) => out.append(text.as_str()),
            None => {},
        }
        out
    }
}

} // verus!
