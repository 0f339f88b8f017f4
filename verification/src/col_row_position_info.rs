//! Where the parser stands in the sheet: row and column indices and what is known of them.
use vstd::prelude::*;
use vstd::slice::slice_to_vec;
use vstd::utf8::{decode_utf8, valid_utf8};
use crate::create_parser_error::CreateParserError;
use crate::radix10::{index_fits, spec_real_index, NumberType, Radix10Rectange};
use crate::text::{
    bytes_eq, bytes_to_string, bytes_to_string_lossy, decimal, parse_usize, spec_parse_usize,
    usize_to_string, utf8_lossy,
};
use crate::xml_event::{attributes_view, StartTag};

verus! {

/// Where the parser is: the current row and column (0 based), whether they lie in the
/// reading range, the header name of the column, and the cell value being built.
pub struct ColRowPositionInfo<C> {
    pub column_index: usize,
    pub row_index: usize,
    pub in_range: bool,
    pub is_sub_of_row: bool,
    pub is_in_row_range: bool,
    pub is_first_row: bool,
    pub is_in_col_range: bool,
    pub current_column_header: Option<String>,
    pub drop_it: bool,
    pub last_row_index: usize,
    pub is_first_col: bool,
    pub current_column_value: C,
}

impl<C: Default> Default for ColRowPositionInfo<C> {
    /// The position before the first row: all indices 0, all flags off, no header name.
    fn default() -> (r: Self)
        ensures
            r.column_index == 0 && r.row_index == 0 && r.last_row_index == 0,
            !r.in_range && !r.is_sub_of_row && !r.is_in_row_range && !r.is_first_row,
            !r.is_in_col_range && !r.drop_it && !r.is_first_col,
            r.current_column_header is None,
            call_ensures(C::default, (), r.current_column_value),
    {
        ColRowPositionInfo {
            column_index: 0,
            row_index: 0,
            in_range: false,
            is_sub_of_row: false,
            is_in_row_range: false,
            is_first_row: false,
            is_in_col_range: false,
            current_column_header: None,
            drop_it: false,
            last_row_index: 0,
            is_first_col: false,
            current_column_value: C::default(),
        }
    }
}

/// The values of the attributes named `key`, in document order.
pub open spec fn matching_values(attrs: Seq<(Seq<u8>, Seq<u8>)>, key: Seq<u8>) -> Seq<Seq<u8>>
    decreases attrs.len(),
{
    if attrs.len() == 0 {
        Seq::empty()
    } else {
        let rest = matching_values(attrs.drop_last(), key);
        if attrs.last().0 == key {
            rest.push(attrs.last().1)
        } else {
            rest
        }
    }
}

/// The values of the attribute `name` of a tag (none when no attribute name is given).
pub open spec fn named_values(attrs: Seq<(Seq<u8>, Seq<u8>)>, name: Option<Seq<u8>>) -> Seq<
    Seq<u8>,
> {
    match name {
        Some(n) => matching_values(attrs, n),
        None => Seq::empty(),
    }
}

/// The error for a reference whose numbers do not fit in a `usize`.
pub open spec fn msg_index_too_large() -> Seq<char> {
    "Index is too large!"@
}

/// A message of the errors that reading the index of a row or a column gives.
pub open spec fn index_error(m: Seq<char>) -> bool {
    ||| m == "Row index is too large!"@
    ||| m == "Column index is too large!"@
    ||| m == "Row index is not a valid utf8 number!"@
    ||| m == "Row index is not a valid number!"@
    ||| m == "Row index canno't be less than 1!"@
    ||| m == "Because the rows are out of order."@
    ||| m == "Col index is not a valid utf8 number!"@
    ||| m == msg_index_too_large()
    ||| exists|c: nat| m == "Infinite defined in file not defined for value "@ + #[trigger] decimal(c) + "."@
    ||| exists|x: Seq<char>| m == #[trigger] ("Error parsing xlsx index "@ + "Error in Radix10 "@ + x) + " "@
    ||| exists|n: Seq<char>| m == #[trigger] ("Multiple col attributes of name "@ + n)
    ||| exists|n: Seq<char>| m == #[trigger] ("Multiple row attributes of name "@ + n)
}

/// Every error that reading a column index gives is an index error.
pub proof fn lemma_col_update_errors()
    ensures
        forall|col: usize, first: bool, attrs: Seq<(Seq<u8>, Seq<u8>)>, name: Option<Seq<u8>>|
            #[trigger] spec_col_update(col, first, attrs, name) matches Err(m) ==> index_error(m),
{
    assert forall|col: usize, first: bool, attrs: Seq<(Seq<u8>, Seq<u8>)>, name: Option<Seq<u8>>|
        #[trigger] spec_col_update(col, first, attrs, name) is Err implies index_error(
            spec_col_update(col, first, attrs, name)->Err_0,
        ) by {
        let m = named_values(attrs, name);
        if m.len() == 1 && valid_utf8(m[0]) && index_fits(decode_utf8(m[0])) {
            match spec_real_index(decode_utf8(m[0])) {
                Ok(NumberType::Infinite(c)) => {
                    assert(spec_col_update(col, first, attrs, name) == Err::<usize, Seq<char>>(
                        "Infinite defined in file not defined for value "@ + decimal(c as nat) + "."@,
                    ));
                },
                Err(msg) => {
                    assert(spec_col_update(col, first, attrs, name) == Err::<usize, Seq<char>>(
                        ("Error parsing xlsx index "@ + "Error in Radix10 "@ + msg) + " "@,
                    ));
                },
                _ => {},
            }
        } else if m.len() > 1 {
            assert(spec_col_update(col, first, attrs, name) == Err::<usize, Seq<char>>(
                "Multiple col attributes of name "@ + utf8_lossy(name->0),
            ));
        }
    }
}

/// Every error that reading a row index gives is an index error.
pub proof fn lemma_row_update_errors()
    ensures
        forall|row: usize, last: usize, first: bool, attrs: Seq<(Seq<u8>, Seq<u8>)>, name: Option<Seq<u8>>|
            #[trigger] spec_row_update(row, last, first, attrs, name).1 matches Err(m) ==> index_error(m),
{
    assert forall|row: usize, last: usize, first: bool, attrs: Seq<(Seq<u8>, Seq<u8>)>, name: Option<Seq<u8>>|
        #[trigger] spec_row_update(row, last, first, attrs, name).1 is Err implies index_error(
            spec_row_update(row, last, first, attrs, name).1->Err_0,
        ) by {
        let m = named_values(attrs, name);
        if m.len() > 1 {
            assert(spec_row_update(row, last, first, attrs, name).1 == Err::<(), Seq<char>>(
                "Multiple row attributes of name "@ + utf8_lossy(name->0),
            ));
        }
    }
}

/// The column index after a column tag: the value of its column attribute read as a cell
/// reference when there is one, the next column otherwise; or the message of the error.
pub open spec fn spec_col_update(
    col: usize,
    is_first_col: bool,
    attrs: Seq<(Seq<u8>, Seq<u8>)>,
    name: Option<Seq<u8>>,
) -> Result<usize, Seq<char>> {
    let m = named_values(attrs, name);
    if m.len() == 0 {
        Ok(
            if is_first_col {
                col
            } else {
                (col + 1) as usize
            },
        )
    } else if m.len() == 1 {
        if !valid_utf8(m[0]) {
            Err("Col index is not a valid utf8 number!"@)
        } else if !index_fits(decode_utf8(m[0])) {
            Err(msg_index_too_large())
        } else {
            match spec_real_index(decode_utf8(m[0])) {
                Ok(NumberType::Real((c, _))) => Ok(c),
                Ok(NumberType::Infinite(c)) => Err(
                    "Infinite defined in file not defined for value "@ + decimal(c as nat) + "."@,
                ),
                Err(msg) => Err("Error parsing xlsx index "@ + "Error in Radix10 "@ + msg + " "@),
            }
        }
    } else {
        Err("Multiple col attributes of name "@ + utf8_lossy(name->0))
    }
}

/// The row index after a row tag, and whether that is an error: the value of its row
/// attribute (1 based) when there is one, the next row otherwise.
pub open spec fn spec_row_update(
    row: usize,
    last_row: usize,
    is_first_row: bool,
    attrs: Seq<(Seq<u8>, Seq<u8>)>,
    name: Option<Seq<u8>>,
) -> (usize, Result<(), Seq<char>>) {
    let m = named_values(attrs, name);
    if m.len() == 0 {
        (
            if is_first_row {
                row
            } else {
                (row + 1) as usize
            },
            Ok(()),
        )
    } else if m.len() == 1 {
        if !valid_utf8(m[0]) {
            (row, Err("Row index is not a valid utf8 number!"@))
        } else {
            match spec_parse_usize(decode_utf8(m[0])) {
                None => (row, Err("Row index is not a valid number!"@)),
                Some(n) => if n == 0 {
                    (row, Err("Row index canno't be less than 1!"@))
                } else if ((n - 1) as usize) < last_row {
                    ((n - 1) as usize, Err("Because the rows are out of order."@))
                } else {
                    ((n - 1) as usize, Ok(()))
                },
            }
        }
    } else {
        (row, Err("Multiple row attributes of name "@ + utf8_lossy(name->0)))
    }
}

/// Moving on to the next index would pass `usize::MAX`: the tag gives no index attribute,
/// it is not the first row (or column), and the index is already the largest.
pub open spec fn steps_past_max(
    index: usize,
    first: bool,
    attrs: Seq<(Seq<u8>, Seq<u8>)>,
    name: Option<Seq<u8>>,
) -> bool {
    named_values(attrs, name).len() == 0 && !first && index == usize::MAX
}

/// Whether the tag gives no attribute named `name` (none when no name is given).
pub(crate) fn has_no_index_attribute(e: &StartTag, name: Option<&[u8]>) -> (b: bool)
    ensures
        b == (named_values(attributes_view(*e), opt_bytes_view(name)).len() == 0),
{
    match name {
        Some(n) => {
            let c = find_named(e, n);
            assert(c@.map_values(|v: &Vec<u8>| v@).len() == c@.len());
            c.len() == 0
        },
        None => true,
    }
}

/// An optional byte string as an optional sequence.
pub open spec fn opt_bytes_view(o: Option<&[u8]>) -> Option<Seq<u8>> {
    match o {
        Some(b) => Some(b@),
        None => None,
    }
}

/// Indices into `attrs` of the attributes named `key`, and their values.
fn find_named<'t>(e: &'t StartTag, key: &[u8]) -> (r: Vec<&'t Vec<u8>>)
    ensures
        r@.map_values(|v: &Vec<u8>| v@) == matching_values(attributes_view(*e), key@),
{
    let mut r: Vec<&'t Vec<u8>> = Vec::new();
    let mut i: usize = 0;
    while i < e.attributes.len()
        invariant
            i <= e.attributes.len(),
            r@.map_values(|v: &Vec<u8>| v@) == matching_values(
                attributes_view(*e).take(i as int),
                key@,
            ),
        decreases e.attributes.len() - i,
    {
        let ghost old_r = r@;
        assert(attributes_view(*e).take(i + 1).drop_last() =~= attributes_view(*e).take(i as int));
        if bytes_eq(e.attributes[i].key.as_slice(), key) {
            r.push(&e.attributes[i].value);
            assert(r@.map_values(|v: &Vec<u8>| v@) =~= old_r.map_values(|v: &Vec<u8>| v@).push(
                e.attributes@[i as int].value@,
            ));
        }
        i = i + 1;
    }
    assert(attributes_view(*e).take(i as int) =~= attributes_view(*e));
    r
}

/// `prefix` followed by `name` read as UTF-8 (invalid sequences replaced).
fn message_with_name(prefix: &str, name: &[u8]) -> (e: CreateParserError)
    ensures
        e.message@ == prefix@ + utf8_lossy(name@),
{
    let mut s = String::from_str(prefix);
    let n = bytes_to_string_lossy(name);
    s.append(n.as_str());
    CreateParserError { message: s }
}

impl<C> ColRowPositionInfo<C> {
    /// Moves to the column of a column tag: to the column its attribute
    /// `col_index_attribute_name` names (such as `r="C4"`), or else to the next column
    /// (staying on the first one for the first column tag of a row).
    pub fn update_col_index(&mut self, e: &StartTag, col_index_attribute_name: Option<&[u8]>) -> (res:
        Result<(), CreateParserError>)
        requires
            !steps_past_max(
                old(self).column_index,
                old(self).is_first_col,
                attributes_view(*e),
                opt_bytes_view(col_index_attribute_name),
            ),
        ensures
            match spec_col_update(
                old(self).column_index,
                old(self).is_first_col,
                attributes_view(*e),
                opt_bytes_view(col_index_attribute_name),
            ) {
                Ok(c) => res is Ok && *final(self) == ColRowPositionInfo { column_index: c, ..*old(self) },
                Err(m) => res matches Err(x) && x.message@ == m && *final(self) == *old(self),
            },
    {
        if let Some(attrib_name) = col_index_attribute_name {
            let c = find_named(e, attrib_name);
            proof {
                assert(c@.len() == named_values(attributes_view(*e), opt_bytes_view(col_index_attribute_name)).len());
            }
            if c.len() == 0 {
                if !self.is_first_col {
                    self.column_index = self.column_index + 1;
                }
                Ok(())
            } else if c.len() == 1 {
                assert(c@[0]@ == named_values(attributes_view(*e), opt_bytes_view(col_index_attribute_name))[0]);
                match bytes_to_string(slice_to_vec(c[0].as_slice())) {
                    Some(valid_ref) => {
                        if !Radix10Rectange::fits_index(valid_ref.as_str()) {
                            return Err(CreateParserError::from("Index is too large!"));
                        }
                        match Radix10Rectange::get_real_index(valid_ref.as_str()) {
                            Ok(NumberType::Real((column, _))) => {
                                self.column_index = column;
                                Ok(())
                            },
                            Ok(NumberType::Infinite(column)) => {
                                let mut s = String::from_str("Infinite defined in file not defined for value ");
                                let n = usize_to_string(column);
                                s.append(n.as_str());
                                s.append(".");
                                Err(CreateParserError { message: s })
                            },
                            Err(err) => {
                                let mut s = String::from_str("Error parsing xlsx index ");
                                let d = err.describe();
                                s.append(d.as_str());
                                Err(CreateParserError { message: s })
                            },
                        }
                    },
                    None => Err(CreateParserError::from("Col index is not a valid utf8 number!")),
                }
            } else {
                Err(message_with_name("Multiple col attributes of name ", attrib_name))
            }
        } else {
            if !self.is_first_col {
                self.column_index = self.column_index + 1;
            }
            Ok(())
        }
    }

    /// Moves to the row of a row tag: to the row its attribute `row_index_attribute_name`
    /// gives (1 based, such as `r="4"`), or else to the next row (staying on the first one
    /// before the header has been read). A row before the previous one is an error, though
    /// the index is updated.
    pub fn update_row_index(&mut self, e: &StartTag, row_index_attribute_name: Option<&[u8]>) -> (res:
        Result<(), CreateParserError>)
        requires
            !steps_past_max(
                old(self).row_index,
                old(self).is_first_row,
                attributes_view(*e),
                opt_bytes_view(row_index_attribute_name),
            ),
        ensures
            ({
                let (r, out) = spec_row_update(
                    old(self).row_index,
                    old(self).last_row_index,
                    old(self).is_first_row,
                    attributes_view(*e),
                    opt_bytes_view(row_index_attribute_name),
                );
                &&& *final(self) == ColRowPositionInfo { row_index: r, ..*old(self) }
                &&& match out {
                    Ok(_) => res is Ok,
                    Err(m) => res matches Err(x) && x.message@ == m,
                }
            }),
    {
        if let Some(attrib_name) = row_index_attribute_name {
            let c = find_named(e, attrib_name);
            proof {
                assert(c@.len() == named_values(attributes_view(*e), opt_bytes_view(row_index_attribute_name)).len());
            }
            if c.len() == 0 {
                if !self.is_first_row {
                    self.row_index = self.row_index + 1;
                }
                Ok(())
            } else if c.len() == 1 {
                assert(c@[0]@ == named_values(attributes_view(*e), opt_bytes_view(row_index_attribute_name))[0]);
                match bytes_to_string(slice_to_vec(c[0].as_slice())) {
                    Some(valid_ref) => match parse_usize(valid_ref.as_str()) {
                        Some(valid_parse) => {
                            if valid_parse > 0 {
                                self.row_index = valid_parse - 1;
                                if self.row_index < self.last_row_index {
                                    Err(CreateParserError::from("Because the rows are out of order."))
                                } else {
                                    Ok(())
                                }
                            } else {
                                Err(CreateParserError::from("Row index canno't be less than 1!"))
                            }
                        },
                        None => Err(CreateParserError::from("Row index is not a valid number!")),
                    },
                    None => Err(CreateParserError::from("Row index is not a valid utf8 number!")),
                }
            } else {
                Err(message_with_name("Multiple row attributes of name ", attrib_name))
            }
        } else {
            if !self.is_first_row {
                self.row_index = self.row_index + 1;
            }
            Ok(())
        }
    }
}

} // verus!
