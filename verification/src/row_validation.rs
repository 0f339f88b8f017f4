//! What the parser gives for each row.
use vstd::prelude::*;
use crate::create_parser_error::CreateParserError;
use crate::string_map::StringMap;

verus! {

/// `Valid` holds the cells of a row of the reading range, `Header` the header row (names to
/// column indices), `Invalid` a row that a tag handler rejected or that could not be read,
/// and `CriticalFail` an error that ends the parse.
pub enum RowValidation<C> {
    Valid(Vec<C>),
    Invalid(CreateParserError),
    Header(StringMap<usize>),
    CriticalFail(CreateParserError),
}

impl<C> RowValidation<C> {
    /// Whether the row is `Valid`.
    pub fn is_valid(&self) -> (b: bool)
        ensures
            b == self is Valid,
    {
        match self {
            RowValidation::Valid(_) => true,
            _ => false,
        }
    }

    /// The row itself when it is `Valid`.
    pub fn valid(self) -> (r: Option<Self>)
        ensures
            r == (if self is Valid {
                Some(self)
            } else {
                None
            }),
    {
        match self {
            RowValidation::Valid(_) => Some(self),
            _ => None,
        }
    }

    /// Whether the row is `Invalid`.
    pub fn is_invalid(&self) -> (b: bool)
        ensures
            b == self is Invalid,
    {
        match self {
            RowValidation::Invalid(_) => true,
            _ => false,
        }
    }

    /// The row itself when it is `Invalid`.
    pub fn invalid(self) -> (r: Option<Self>)
        ensures
            r == (if self is Invalid {
                Some(self)
            } else {
                None
            }),
    {
        match self {
            RowValidation::Invalid(_) => Some(self),
            _ => None,
        }
    }

    /// The error of an `Invalid` row.
    pub fn get_invalid(self) -> (r: Option<CreateParserError>)
        ensures
            r == (match self {
                RowValidation::Invalid(x) => Some(x),
                _ => None,
            }),
    {
        if let RowValidation::Invalid(x) = self {
            Some(x)
        } else {
            None
        }
    }
}

/// A row is never both valid and invalid, and `valid`/`invalid` keep exactly the rows that
/// `is_valid`/`is_invalid` accept.
pub proof fn law_valid_and_invalid_exclusive<C>(r: RowValidation<C>)
    ensures
        !(r is Valid && r is Invalid),
        (r is Valid) == (if r is Valid {
            Some(r)
        } else {
            None::<RowValidation<C>>
        }) is Some,
        (r is Invalid) == (match r {
            RowValidation::Invalid(x) => Some(x),
            _ => None::<CreateParserError>,
        }) is Some,
{
}

} // verus!
