//! Buildings under management.

use vstd::prelude::*;
use crate::numeral::{append_int, int_chars};

verus! {

/// The postal address of a building.
#[derive(Clone, Debug)]
pub struct Address {
    pub country: String,
    pub region: String,
    pub city: String,
    pub street: String,
}

/// The text of a column that may be absent: empty where it is.
pub open spec fn text_or_empty(column: Option<String>) -> Seq<char> {
    match column {
        Some(text) => text@,
        None => Seq::empty(),
    }
}

/// The text of a column, empty where the column is absent.
pub fn or_empty(column: Option<String>) -> (text: String)
    ensures
        text@ == text_or_empty(column),
{
    match column {
        Some(text) => text,
        None => String::new(),
    }
}

impl Address {
    /// The address made of four columns, each empty where the column is absent.
    pub fn from_columns(
        country: Option<String>,
        region: Option<String>,
        city: Option<String>,
        street: Option<String>,
    ) -> (address: Address)
        ensures
            address.country@ == text_or_empty(country),
            address.region@ == text_or_empty(region),
            address.city@ == text_or_empty(city),
            address.street@ == text_or_empty(street),
    {
        Address {
            country: or_empty(country),
            region: or_empty(region),
            city: or_empty(city),
            street: or_empty(street),
        }
    }
}

/// The one-line address of a building, as lists show it: region, city and
/// street, then the word for "house" and the number.
pub open spec fn address_line(
    region: Seq<char>,
    city: Seq<char>,
    street: Seq<char>,
    number: int,
) -> Seq<char> {
    region + ", "@ + city + ", "@ + street + ", дом "@ + int_chars(number)
}

/// Writes the one-line address of a building.
pub fn building_address(region: &str, city: &str, street: &str, number: i32) -> (line: String)
    ensures
        line@ == address_line(region@, city@, street@, number as int),
{
    let mut line: String = String::new();
    line.append(region);
    line.append(", ");
    line.append(city);
    line.append(", ");
    line.append(street);
    line.append(", дом ");
    append_int(number, &mut line);
    assert(line@ =~= address_line(region@, city@, street@, number as int));
    line
}

} // verus!
