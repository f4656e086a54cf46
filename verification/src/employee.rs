//! Employees of the company.

use vstd::prelude::*;
use crate::error::Error;

verus! {

/// The envelope of an employee request or answer.
#[derive(Clone, Debug)]
pub struct EmployeeBody<T> {
    pub employee: T,
}

/// What deleting an employee comes to, given how many rows each of the two
/// deletions removed: nothing to delete where both removed none.
pub open spec fn deletion_result(committee_rows: u64, employee_rows: u64) -> Result<(), Error> {
    if committee_rows == 0 && employee_rows == 0 {
        Err(Error::EmployeeNotFound)
    } else {
        Ok(())
    }
}

/// Decides whether a deletion is kept (`Ok`: commit) or undone and reported
/// as an unknown employee (`Err`: roll back).
pub fn deletion_outcome(committee_rows: u64, employee_rows: u64) -> (r: Result<(), Error>)
    ensures
        r == deletion_result(committee_rows, employee_rows),
{
    if committee_rows == 0 && employee_rows == 0 {
        Err(Error::EmployeeNotFound)
    } else {
        Ok(())
    }
}

/// Whether the answer of an existence query says that the row exists: an
/// absent row and an absent value both say that it does not.
pub fn row_exists(answer: Option<Option<bool>>) -> (exists: bool)
    ensures
        exists == (answer == Some(Some(true))),
{
    match answer {
        Some(Some(found)) => found,
        _ => false,
    }
}

/// The salary of a position as lists show it: the salary itself, or a note
/// that none is stated.
pub open spec fn salary_text(salary: Option<String>) -> Seq<char> {
    match salary {
        Some(text) => text@,
        None => "Не указано"@,
    }
}

/// Writes the salary of a position as lists show it.
pub fn salary_label(salary: Option<String>) -> (label: String)
    ensures
        label@ == salary_text(salary),
{
    match salary {
        Some(text) => text,
        None => "Не указано".to_string(),
    }
}

} // verus!
