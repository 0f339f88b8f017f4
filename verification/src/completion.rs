//! How handling one XML event ended.
use vstd::prelude::*;
use crate::create_parser_error::CreateParserError;
use crate::row_validation::RowValidation;

verus! {

/// `RowFail` and `OkWithRow` end the current call of `next` with a row, `CriticalFail`
/// ends the parse, `EndOfRows` ends the rows, `Continue` goes on reading.
pub enum Completion<C> {
    RowFail(RowValidation<C>),
    EndOfRows,
    Continue,
    CriticalFail(CreateParserError),
    OkWithRow(RowValidation<C>),
}

} // verus!
