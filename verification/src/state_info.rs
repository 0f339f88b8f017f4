//! Handed to the handlers of tags inside the rows: where the parser is, and ways to act on
//! the row being read.
use vstd::prelude::*;
use crate::col_row_position_info::ColRowPositionInfo;
use crate::drop_row_request::DropRowRequest;
use crate::radix10::{range_fits, spec_rect, Radix10Error, Radix10Rectange};
use crate::string_map::StringMap;

verus! {

/// Lets a handler see position information.
pub enum UserDataMode<'a> {
    RowItem(&'a StateInfo<'a>),
    XmlTag(),
}

/// Where the parser stands and what the handler asked of it.
pub struct CellInfoLocation<'a> {
    pub row: usize,
    pub column: usize,
    pub column_name: Option<String>,
    /// The request to drop the current row, if any.
    pub c: Option<DropRowRequest>,
    /// The reading range as the handler sees and sets it.
    pub ms: Radix10Rectange,
    pub has_dimensions: bool,
    pub dimensions: Option<Radix10Rectange>,
    pub is_dropping_row: bool,
    pub header_ref: &'a StringMap<usize>,
    /// Whether the handler set the reading range.
    pub was_dimension_call_successfull: bool,
}

/// A copy of an optional name.
pub fn clone_name(n: &Option<String>) -> (r: Option<String>)
    ensures
        r == *n,
{
    match n {
        Some(s) => Some(s.clone()),
        None => None,
    }
}

impl<'a> CellInfoLocation<'a> {
    /// Takes row, column and (when `use_column_name`) the column's header name from the
    /// position, and the rest from the arguments.
    pub fn new<D>(
        parser_data: &ColRowPositionInfo<D>,
        use_column_name: bool,
        is_reading_range_defined: bool,
        drop_cell: Option<DropRowRequest>,
        dim_cell: Radix10Rectange,
        headers: &'a StringMap<usize>,
        was_ok_dim_cell: bool,
    ) -> (r: Self)
        ensures
            r.row == parser_data.row_index,
            r.column == parser_data.column_index,
            r.column_name == (if use_column_name {
                parser_data.current_column_header
            } else {
                None
            }),
            r.has_dimensions == is_reading_range_defined,
            r.c == drop_cell,
            r.dimensions is None,
            r.ms == dim_cell,
            !r.is_dropping_row,
            r.header_ref == headers,
            r.was_dimension_call_successfull == was_ok_dim_cell,
    {
        let col_name = if use_column_name {
            clone_name(&parser_data.current_column_header)
        } else {
            None
        };
        Self {
            row: parser_data.row_index,
            column: parser_data.column_index,
            column_name: col_name,
            has_dimensions: is_reading_range_defined,
            c: drop_cell,
            dimensions: None,
            ms: dim_cell,
            is_dropping_row: false,
            header_ref: headers,
            was_dimension_call_successfull: was_ok_dim_cell,
        }
    }
}

/// Passed to the handlers of tags inside the rows.
pub struct StateInfo<'a> {
    pub(crate) cell_info: CellInfoLocation<'a>,
}

impl<'a> StateInfo<'a> {
    /// What the handler is told of the current cell.
    pub closed spec fn info(&self) -> CellInfoLocation<'a> {
        self.cell_info
    }

    /// Wraps what the handler is told of the current cell.
    pub fn new(cell_info: CellInfoLocation<'a>) -> (r: Self)
        ensures
            r.info() == cell_info,
    {
        Self { cell_info: cell_info }
    }

    /// Asks the parser to drop the current row for `reason`.
    pub fn drop_row(&mut self, reason: DropRowRequest)
        ensures
            final(self).info() == (CellInfoLocation { c: Some(reason), ..old(self).info() }),
    {
        self.cell_info.c = Some(reason);
    }

    /// Whether the row is being dropped.
    pub fn is_dropping_row(&self) -> (b: bool)
        ensures
            b == self.info().is_dropping_row,
    {
        self.cell_info.is_dropping_row
    }

    /// Whether the reading range is defined.
    pub fn has_dimenstions(&self) -> (b: bool)
        ensures
            b == self.info().has_dimensions,
    {
        self.cell_info.has_dimensions
    }

    /// Sets the reading range from a range such as `A1:D20`; a range whose numbers do not
    /// fit in a `usize` is refused.
    pub fn set_dimensions(&mut self, dims: String) -> (res: Result<(), Radix10Error>)
        ensures
            !range_fits(dims@) ==> (res matches Err(e) && e.message@ == "Index is too large!"@
                && final(self).info() == old(self).info()),
            range_fits(dims@) ==> match spec_rect(dims@) {
                Ok(r) => {
                    &&& res is Ok
                    &&& final(self).info() == (CellInfoLocation {
                        ms: r,
                        was_dimension_call_successfull: true,
                        ..old(self).info()
                    })
                },
                Err(m) => {
                    &&& res matches Err(e) && e.message@ == m
                    &&& final(self).info() == old(self).info()
                },
            },
    {
        if !Radix10Rectange::fits(dims.as_str()) {
            return Err(Radix10Error::from("Index is too large!"));
        }
        match Radix10Rectange::new(dims.as_str()) {
            Ok(r) => {
                self.cell_info.ms = r;
                self.cell_info.was_dimension_call_successfull = true;
                Ok(())
            },
            Err(e) => Err(e),
        }
    }

    /// The header name of the current column, if any.
    pub fn get_column_name(&self) -> (r: Option<String>)
        ensures
            r == self.info().column_name,
    {
        clone_name(&self.cell_info.column_name)
    }

    /// The reading range, when it is defined.
    pub fn get_dimensions(&self) -> (r: Option<Radix10Rectange>)
        ensures
            r == (if self.info().has_dimensions {
                Some(self.info().ms)
            } else {
                None
            }),
    {
        if self.cell_info.has_dimensions {
            Some(self.cell_info.ms)
        } else {
            None
        }
    }

    /// The column index that the header row gave to `col_name`.
    pub fn get_column_index_by_name(&self, col_name: &str) -> (r: Option<usize>)
        ensures
            r == self.info().header_ref.spec_get(col_name@),
    {
        match self.cell_info.header_ref.get(col_name) {
            Some(i) => Some(*i),
            None => None,
        }
    }
}

} // verus!
