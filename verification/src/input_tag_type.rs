//! What a tag handler is called with.
use vstd::prelude::*;
use crate::header_complete_handler::HeaderCompleteHandler;
use crate::non_row_info::NonRowInfo;
use crate::row_validation::RowValidation;
use crate::state_info::StateInfo;
use crate::string_map::StringMap;

verus! {

/// The event a handler sees, with the values it may read or change: the cell value being
/// built for the current column, the tag's attributes that the handler asked for, the text
/// of a tag, the header name being built, the finished header, the finished row.
pub enum InputTagType<'b, 'c, C> {
    ColumnStart(&'b mut C, StringMap<String>, &'b mut StateInfo<'c>),
    ColumnEnd(&'b mut C, &'b mut StateInfo<'c>),
    ColumnText(&'b mut C, &'b str, &'b mut StateInfo<'c>),
    ColumnHeader(&'b mut C, &'b mut String, &'b mut StringMap<String>, &'b mut StateInfo<'c>),
    HeaderComplete(StringMap<usize>, &'b mut HeaderCompleteHandler),
    OtherTagStart(StringMap<String>, &'b mut NonRowInfo),
    OtherTagEnd(&'b mut NonRowInfo),
    OtherTagText(&'b str, &'b mut NonRowInfo),
    RowComplete(&'b mut RowValidation<C>),
    RowStart(StringMap<String>),
}

} // verus!
