//! Diagnostics with one or two labelled locations.
//!
//! A location is the position of a declaration in the list the front end
//! handed over (a field or a variant); mapping it back to source spans is the
//! front end's business.
use vstd::prelude::*;

verus! {

/// A message attached to one declaration.
pub struct Label {
    /// Position of the declaration in its list.
    pub at: usize,
    /// Identifier of that declaration.
    pub ident: String,
    pub message: String,
}

/// Two fields whose roles cannot be combined: `primary` is the declaration
/// that was rejected, `secondary` the earlier one that set the constraint.
pub struct RoleConflict {
    pub primary: Label,
    pub secondary: Label,
}

/// Combines the label at the offending declaration with the label at the
/// prior declaration that it conflicts with.
pub fn err_pair(at1: usize, ident1: &String, at2: usize, ident2: &String, t1: &str, t2: &str) -> (r:
    RoleConflict)
    ensures
        r.primary.at == at1,
        r.primary.ident@ == ident1@,
        r.primary.message@ == t1@,
        r.secondary.at == at2,
        r.secondary.ident@ == ident2@,
        r.secondary.message@ == t2@,
{
    RoleConflict {
        primary: Label { at: at1, ident: ident1.clone(), message: String::from_str(t1) },
        secondary: Label { at: at2, ident: ident2.clone(), message: String::from_str(t2) },
    }
}

} // verus!
