//! Failures of the node store and of the property resolver.

use vstd::prelude::*;
use vstd::string::*;

verus! {

/// Why an operation on the node store was refused.
#[derive(Debug, PartialEq, Eq)]
pub enum StoreError {
    /// No node bears this name.
    NotFound { name: String },
    /// A node of this name exists already.
    AlreadyExists { name: String },
    /// The named parent exists but is an item, which holds no children.
    InvalidParent { name: String },
    /// The value given for a property does not read as the property's type.
    InvalidValue { key: String, value: String },
    /// The property bag names a property that nodes do not have.
    UnknownProperty { key: String },
}

/// `a`, then `b`, then `c`.
pub open spec fn join3(a: Seq<char>, b: Seq<char>, c: Seq<char>) -> Seq<char> {
    a + b + c
}

impl StoreError {
    /// The text of the error, as the protocol reports it.
    pub open spec fn message_spec(&self) -> Seq<char> {
        match self {
            StoreError::NotFound { name } => join3("node '"@, name@, "' not found"@),
            StoreError::AlreadyExists { name } => join3("node '"@, name@, "' already exists"@),
            StoreError::InvalidParent { name } => join3(
                "'"@,
                name@,
                "' is an item and cannot have children"@,
            ),
            StoreError::InvalidValue { key, value } => join3("invalid "@, key@, ": "@) + value@,
            StoreError::UnknownProperty { key } => "unknown property: "@ + key@,
        }
    }

    /// The text of the error, as the protocol reports it.
    pub fn message(&self) -> (r: String)
        ensures
            r@ == self.message_spec(),
    {
        match self {
            StoreError::NotFound { name } => {
                let mut s = "node '".to_owned();
                s.append(name.as_str());
                s.append("' not found");
                s
            },
            StoreError::AlreadyExists { name } => {
                let mut s = "node '".to_owned();
                s.append(name.as_str());
                s.append("' already exists");
                s
            },
            StoreError::InvalidParent { name } => {
                let mut s = "'".to_owned();
                s.append(name.as_str());
                s.append("' is an item and cannot have children");
                s
            },
            StoreError::InvalidValue { key, value } => {
                let mut s = "invalid ".to_owned();
                s.append(key.as_str());
                s.append(": ");
                s.append(value.as_str());
                s
            },
            StoreError::UnknownProperty { key } => {
                let mut s = "unknown property: ".to_owned();
                s.append(key.as_str());
                s
            },
        }
    }
}

} // verus!
