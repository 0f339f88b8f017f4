//! Handlers that the user attaches to tag paths.
use vstd::prelude::*;
use crate::helpers::{get_relative_name_parts, name_parts_of, RelativeNameParts};
use crate::input_tag_type::InputTagType;

verus! {

/// A user's handler: called with the user's shared value and the event of its tag.
pub trait TagFn<SharedInfo, ColumnReturn> {
    fn call(&self, shared: &mut SharedInfo, tag: InputTagType<'_, '_, ColumnReturn>);
}

/// A handler together with the tag description it is attached to, such as
/// `worksheet/sheetData/row/c/v` or `worksheet/dimension|ref|`.
#[verifier::reject_recursive_types(SharedInfo)]
#[verifier::reject_recursive_types(ColumnReturn)]
pub struct TagHandler<'a, SharedInfo, ColumnReturn> {
    pub f: Box<dyn TagFn<SharedInfo, ColumnReturn>>,
    pub n: RelativeNameParts<'a>,
}

impl<'a, SharedInfo, ColumnReturn> TagHandler<'a, SharedInfo, ColumnReturn> {
    /// Attaches `f` to the tag description `s`.
    pub fn new<F: TagFn<SharedInfo, ColumnReturn> + 'static>(s: &'a [u8], f: F) -> (h: Self)
        ensures
            name_parts_of(h.n, s@),
    {
        let rel = get_relative_name_parts(s);
        TagHandler { f: Box::new(f), n: rel }
    }
}

} // verus!
