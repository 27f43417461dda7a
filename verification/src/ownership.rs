use vstd::prelude::*;

verus! {

/// Whether a symbol is held in any account, was held in the past, or never was.
#[derive(Debug, Clone, Copy, PartialEq, Eq, Structural)]
pub enum OwnershipStatus {
    CurrentlyOwned,
    PreviouslyOwned,
    NotOwned,
}

/// Priority of an ownership status in search results: lower comes first.
pub open spec fn priority(status: OwnershipStatus) -> nat {
    match status {
        OwnershipStatus::CurrentlyOwned => 0,
        OwnershipStatus::PreviouslyOwned => 1,
        OwnershipStatus::NotOwned => 2,
    }
}

/// Returns the sort priority of an ownership status (lower values first).
pub fn ownership_priority(status: &OwnershipStatus) -> (p: u8)
    ensures
        p == priority(*status),
{
    match status {
        OwnershipStatus::CurrentlyOwned => 0,
        OwnershipStatus::PreviouslyOwned => 1,
        OwnershipStatus::NotOwned => 2,
    }
}

} // verus!
