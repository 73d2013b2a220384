//! The error taxonomy of the core: validation failures of the caller's
//! input, and collaborator failures surfaced unchanged.

use vstd::prelude::*;
use vstd::string::StringExecFns;

use crate::traits::{StoreError, ToolError};

verus! {

/// An error of a core operation.
#[derive(Debug)]
pub enum Error {
    /// The external tool failed; the underlying failure is kept unchanged.
    Installer(ToolError),
    /// The persistence layer failed; the underlying failure is kept
    /// unchanged.
    Store(StoreError),
    PackageAlreadyExists,
    PackageDoesNotExists,
    InstallationToolDoesNotExist,
    CategoryDoesNotExist,
}

impl Error {
    /// The message of this error: a collaborator failure keeps its own
    /// message, a storage failure is prefixed with its source.
    pub open spec fn message_spec(&self) -> Seq<char> {
        match self {
            Error::Installer(e) => e.message_spec(),
            Error::Store(e) => "Store error: "@ + e.message_spec(),
            Error::PackageAlreadyExists => "Package already exists"@,
            Error::PackageDoesNotExists => "Package does not exists"@,
            Error::InstallationToolDoesNotExist => "Installation tool does not exist"@,
            Error::CategoryDoesNotExist => "Category does not exists"@,
        }
    }

    /// The human-readable message of this error.
    pub fn message(&self) -> (r: String)
        ensures
            r@ == self.message_spec(),
    {
        match self {
            Error::Installer(e) => e.message(),
            Error::Store(e) => {
                let mut m = String::from_str("Store error: ");
                m.append(e.message().as_str());
                m
            },
            Error::PackageAlreadyExists => String::from_str("Package already exists"),
            Error::PackageDoesNotExists => String::from_str("Package does not exists"),
            Error::InstallationToolDoesNotExist => {
                String::from_str("Installation tool does not exist")
            },
            Error::CategoryDoesNotExist => String::from_str("Category does not exists"),
        }
    }
}

} // verus!
