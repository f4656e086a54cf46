//! Repairs carried out on buildings.

use vstd::prelude::*;

verus! {

/// Whether a repair was planned or answered an emergency.
#[derive(Clone, Copy, Debug, PartialEq, Eq, Structural)]
pub enum RepairType {
    Scheduled,
    Emergency,
}

/// The label that staff see for a kind of repair.
pub open spec fn repair_label(kind: RepairType) -> Seq<char> {
    match kind {
        RepairType::Emergency => "Аварийный"@,
        RepairType::Scheduled => "Плановый"@,
    }
}

impl RepairType {
    /// The label that staff see for the kind of repair.
    pub fn to_string(&self) -> (label: String)
        ensures
            label@ == repair_label(*self),
    {
        match self {
            RepairType::Emergency => "Аварийный".to_string(),
            RepairType::Scheduled => "Плановый".to_string(),
        }
    }
}

} // verus!
