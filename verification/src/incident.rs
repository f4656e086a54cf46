//! Incidents reported on buildings.

use vstd::prelude::*;

verus! {

/// How far the handling of an incident has come.
#[derive(Clone, Copy, Debug, PartialEq, Eq, Structural)]
pub enum IncidentStatus {
    Reported,
    InProgress,
    Resolved,
    Closed,
    Cancelled,
}

/// The label that staff see for a status.
pub open spec fn status_label(status: IncidentStatus) -> Seq<char> {
    match status {
        IncidentStatus::Closed => "Закрыто"@,
        IncidentStatus::Cancelled => "Отменено"@,
        IncidentStatus::InProgress => "В процессе ремонта"@,
        IncidentStatus::Reported => "Обработка заявки"@,
        IncidentStatus::Resolved => "Исправлено"@,
    }
}

impl IncidentStatus {
    /// The label that staff see for the status.
    pub fn to_string(&self) -> (label: String)
        ensures
            label@ == status_label(*self),
    {
        match self {
            IncidentStatus::Closed => "Закрыто".to_string(),
            IncidentStatus::Cancelled => "Отменено".to_string(),
            IncidentStatus::InProgress => "В процессе ремонта".to_string(),
            IncidentStatus::Reported => "Обработка заявки".to_string(),
            IncidentStatus::Resolved => "Исправлено".to_string(),
        }
    }
}

} // verus!
