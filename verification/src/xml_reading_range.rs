//! Where the rows to read lie in the sheet.
use vstd::prelude::*;

verus! {

/// `Defined("A1:C9")` reads that range; `WillDefineBeforeRows` lets a tag handler set it
/// from the document before the first row.
pub enum XmlReadingRange<'a> {
    Defined(&'a str),
    WillDefineBeforeRows,
}

} // verus!
