//! The error carried by rows that could not be read and by failures of the whole parse.
use vstd::prelude::*;

verus! {

/// The error of a row that could not be read, or of a failed parse.
pub struct CreateParserError {
    pub message: String,
}

impl CreateParserError {
    /// Builds an error that carries `inp` as its message.
    pub fn from(inp: &str) -> (e: CreateParserError)
        ensures
            e.message@ == inp@,
    {
        CreateParserError { message: inp.to_owned() }
    }

    /// The text shown for the error, which is always `Error`.
    pub fn describe(&self) -> (s: String)
        ensures
            s@ == "Error"@,
    {
        String::from_str("Error")
    }

    /// The short description, `Parse error`.
    pub fn description(&self) -> (s: &'static str)
        ensures
            s@ == "Parse error"@,
    {
        "Parse error"
    }
}

impl Clone for CreateParserError {
    fn clone(&self) -> (r: Self)
        ensures
            r == *self,
    {
        CreateParserError { message: self.message.clone() }
    }
}

} // verus!
