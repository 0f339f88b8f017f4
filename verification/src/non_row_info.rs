//! Handed to the handler of a tag outside the rows: lets it read or set the reading range.
use vstd::prelude::*;
use crate::radix10::{range_fits, spec_rect, Radix10Error, Radix10Rectange};

verus! {

/// Handed to the handler of a tag outside the rows: the reading range, whether it is
/// defined, and whether the handler set it.
pub struct NonRowInfo {
    pub(crate) has_dimensions: bool,
    pub(crate) dimensions: Radix10Rectange,
    pub(crate) changed_dims: bool,
}

impl NonRowInfo {
    /// Whether the reading range is defined.
    pub closed spec fn spec_has_dimensions(&self) -> bool {
        self.has_dimensions
    }

    /// The reading range.
    pub closed spec fn spec_dimensions(&self) -> Radix10Rectange {
        self.dimensions
    }

    /// Whether the handler set the reading range.
    pub closed spec fn spec_changed_dims(&self) -> bool {
        self.changed_dims
    }

    /// `dim_cell` is the current reading range, `has_dims` whether it has been defined, and
    /// `changed_dims_ok` whether it has been set through this value.
    pub fn new(dim_cell: Radix10Rectange, has_dims: bool, changed_dims_ok: bool) -> (r: Self)
        ensures
            r.spec_dimensions() == dim_cell,
            r.spec_has_dimensions() == has_dims,
            r.spec_changed_dims() == changed_dims_ok,
    {
        Self { dimensions: dim_cell, has_dimensions: has_dims, changed_dims: changed_dims_ok }
    }

    /// The reading range, when it has been defined.
    pub fn get_dimensions(&self) -> (r: Option<Radix10Rectange>)
        ensures
            r == (if self.spec_has_dimensions() {
                Some(self.spec_dimensions())
            } else {
                None
            }),
    {
        if self.has_dimensions {
            Some(self.dimensions)
        } else {
            None
        }
    }

    /// Sets the reading range from a range such as `A1:D20`; the parser takes it over while
    /// it has not reached the rows. A range whose numbers do not fit in a `usize` is refused.
    pub fn set_dimensions(&mut self, dims: String) -> (res: Result<(), Radix10Error>)
        ensures
            !range_fits(dims@) ==> (res matches Err(e) && e.message@ == "Index is too large!"@
                && *final(self) == *old(self)),
            range_fits(dims@) ==> match spec_rect(dims@) {
                Ok(r) => {
                    &&& res is Ok
                    &&& final(self).spec_dimensions() == r
                    &&& final(self).spec_changed_dims()
                    &&& final(self).spec_has_dimensions() == old(self).spec_has_dimensions()
                },
                Err(m) => {
                    &&& res matches Err(e) && e.message@ == m
                    &&& *final(self) == *old(self)
                },
            },
    {
        if !Radix10Rectange::fits(dims.as_str()) {
            return Err(Radix10Error::from("Index is too large!"));
        }
        match Radix10Rectange::new(dims.as_str()) {
            Ok(r) => {
                self.dimensions = r;
                self.changed_dims = true;
                Ok(())
            },
            Err(e) => Err(e),
        }
    }
}

} // verus!
