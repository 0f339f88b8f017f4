//! The state of the parser and how each XML event changes it.
use vstd::prelude::*;
use vstd::slice::slice_to_vec;
use vstd::utf8::{decode_utf8, encode_utf8, valid_utf8};
use crate::col_row_position_info::{
    has_no_index_attribute, index_error, lemma_col_update_errors, lemma_row_update_errors, opt_bytes_view,
    spec_col_update, spec_row_update, steps_past_max, ColRowPositionInfo,
};
use crate::completion::Completion;
use crate::create_parser_error::CreateParserError;
use crate::current_tag_line::{popped_line, pushed_line, pushed_size, CurrentTagLine};
use crate::drop_row_request::{clone_request, DropRowRequest};
use crate::header_complete_handler::HeaderCompleteHandler;
use crate::helpers::{index_of, lemma_index_at, lemma_index_bound, RelativeNameParts, RelativeNamePartsAttribs};
use crate::input_tag_type::InputTagType;
use crate::non_row_info::NonRowInfo;
use crate::parser_flags::ParserFlags;
use crate::radix10::Radix10Rectange;
use crate::row_validation::RowValidation;
use crate::state_info::{CellInfoLocation, StateInfo};
use crate::string_map::{insert_absent, law_insert_then_lookup, lemma_text_insert, lookup, text_entries, StringMap};
use crate::tag_handler::TagHandler;
use crate::text::{bytes_eq, bytes_to_string, bytes_to_string_lossy, is_prefix, lossy_text, starts_with, utf8_lossy};
use crate::xml_event::{attributes_view, StartTag};

verus! {

/// A call the parser made to a user's handler: the handler's place among the handlers and
/// the event it was given (the attributes it asked for, for a start tag; the text, for a
/// tag's text; the finished row as it was handed over; the header and how the handler
/// answered, for the finished header).
pub enum HandlerCall<C> {
    RowStart(int, Seq<(Seq<char>, Seq<char>)>),
    ColumnStart(int, Seq<(Seq<char>, Seq<char>)>),
    OtherTagStart(int, Seq<(Seq<char>, Seq<char>)>),
    ColumnText(int, Seq<char>),
    OtherTagText(int, Seq<char>),
    ColumnEnd(int),
    OtherTagEnd(int),
    RowComplete(int, RowValidation<C>),
    ColumnHeader(int),
    HeaderComplete(int, Seq<(Seq<char>, usize)>, bool, Seq<char>),
}

/// The handler `handler` was called once, with the finished header `header`, and its
/// answer decided the outcome `c`: a critical failure with its reason when it cancelled,
/// the header otherwise.
pub open spec fn header_answered<C>(
    before: Seq<HandlerCall<C>>,
    after: Seq<HandlerCall<C>>,
    handler: int,
    header: Seq<(Seq<char>, usize)>,
    c: Completion<C>,
) -> bool {
    &&& after.len() == before.len() + 1
    &&& after.drop_last() == before
    &&& after.last() matches HandlerCall::HeaderComplete(h, given, cancel, reason)
    &&& h == handler
    &&& given == header
    &&& (c is CriticalFail <==> cancel)
    &&& c matches Completion::CriticalFail(e) ==> e.message@ == reason
    &&& !cancel ==> (c matches Completion::OkWithRow(RowValidation::Header(hd)) && hd.view() == header)
}

/// Stores what the parser needs while it walks the document.
#[verifier::reject_recursive_types(S)]
#[verifier::reject_recursive_types(C)]
pub struct ParserData<'a, S, C> {
    pub k: Vec<TagHandler<'a, S, C>>,
    pub cell: &'a mut S,
    pub reading_range: Radix10Rectange,
    pub current_tag_line: CurrentTagLine,
    pub column_tag: Option<&'a [u8]>,
    pub row_tag: &'a [u8],
    pub row_tag_string: String,
    pub row_index_attribute_name: Option<&'a [u8]>,
    pub col_index_attribute_name: Option<&'a [u8]>,
    pub holding_for_x_blank_lines: usize,
    pub header_row: StringMap<usize>,
    pub header_row_vec: Vec<String>,
    pub drop_row_request: Option<DropRowRequest>,
    pub col_row_pos_info: ColRowPositionInfo<C>,
    pub is_reading_range_defined: bool,
    pub header_attributes: StringMap<String>,
    pub parse_flags: ParserFlags,
    pub can_change_range: bool,
    pub call_end_row_user_func: bool,
    pub last_header_string: String,
    pub calls: Ghost<Seq<HandlerCall<C>>>,
}

/// The names of the tags that have handlers, in the order they were added.
pub open spec fn handler_names<'a, S, C>(k: Seq<TagHandler<'a, S, C>>) -> Seq<Seq<u8>> {
    k.map_values(|h: TagHandler<'a, S, C>| h.n.name@)
}

/// The first row past the reading range, or the current row when the range has no end.
pub open spec fn spec_largest(row_index: usize, r: Radix10Rectange) -> usize {
    if !r.is_row_count_infinite {
        if row_index > r.row + r.row_count {
            (r.row + r.row_count) as usize
        } else {
            row_index
        }
    } else {
        row_index
    }
}

/// The row lies in the rows of the range (from its first row on, when it has no end).
pub open spec fn row_in_range(row_index: usize, r: Radix10Rectange) -> bool {
    row_index >= r.row && (row_index < r.row + r.row_count || r.is_row_count_infinite)
}

/// The column lies in the columns of the range.
pub open spec fn col_in_range(column_index: usize, r: Radix10Rectange) -> bool {
    column_index >= r.column && column_index < r.column + r.column_count
}

/// The position without the cell value being built, which handlers may change.
pub open spec fn pos_view<C>(p: ColRowPositionInfo<C>) -> ColRowPositionInfo<()> {
    ColRowPositionInfo {
        column_index: p.column_index,
        row_index: p.row_index,
        in_range: p.in_range,
        is_sub_of_row: p.is_sub_of_row,
        is_in_row_range: p.is_in_row_range,
        is_first_row: p.is_first_row,
        is_in_col_range: p.is_in_col_range,
        current_column_header: p.current_column_header,
        drop_it: p.drop_it,
        last_row_index: p.last_row_index,
        is_first_col: p.is_first_col,
        current_column_value: (),
    }
}

/// The state of the parser as plain values: everything but the user's value, the handlers
/// and the cell value being built.
pub struct ParserModel {
    pub reading_range: Radix10Rectange,
    pub tag_line: Seq<char>,
    pub tag_sizes: Seq<usize>,
    pub column_tag: Option<Seq<u8>>,
    pub row_tag: Seq<u8>,
    pub row_tag_string: Seq<char>,
    pub row_attr: Option<Seq<u8>>,
    pub col_attr: Option<Seq<u8>>,
    pub holding: usize,
    pub header_row: Seq<(Seq<char>, usize)>,
    pub header_row_vec: Seq<String>,
    pub drop_row_request: Option<DropRowRequest>,
    pub pos: ColRowPositionInfo<()>,
    pub defined: bool,
    pub header_attributes: Seq<(Seq<char>, String)>,
    pub flags: ParserFlags,
    pub can_change_range: bool,
    pub call_end_row_user_func: bool,
    pub last_header_string: Seq<char>,
}

/// A handler leaves all of the state as it was, but for the drop request, the reading
/// range and whether it is defined, and whether the row's handler is due.
pub open spec fn handler_frame(a: ParserModel, b: ParserModel) -> bool {
    b == ParserModel {
        drop_row_request: b.drop_row_request,
        reading_range: b.reading_range,
        defined: b.defined,
        call_end_row_user_func: b.call_end_row_user_func,
        ..a
    }
}

/// What a handler may have done to the state: set the drop request to `drop`, and, while
/// the range may still change, set the reading range to `range` (`defines` telling whether
/// that also marks the range as defined).
pub open spec fn after_handler(
    m: ParserModel,
    drop: Option<DropRowRequest>,
    range_set: bool,
    range: Radix10Rectange,
    defines: bool,
) -> ParserModel {
    ParserModel {
        drop_row_request: drop,
        reading_range: if m.can_change_range && range_set {
            range
        } else {
            m.reading_range
        },
        defined: if m.can_change_range && range_set && defines {
            true
        } else {
            m.defined
        },
        ..m
    }
}

/// Once the rows have started the reading range is fixed: whatever a handler does, the
/// range and whether it is defined stay as they were.
pub proof fn law_range_fixed_once_rows_start(
    m: ParserModel,
    drop: Option<DropRowRequest>,
    range_set: bool,
    range: Radix10Rectange,
    defines: bool,
)
    requires
        !m.can_change_range,
    ensures
        after_handler(m, drop, range_set, range, defines).reading_range == m.reading_range,
        after_handler(m, drop, range_set, range, defines).defined == m.defined,
        after_handler(m, drop, range_set, range, defines).can_change_range == m.can_change_range,
{
}

/// `m` after storing, for each attribute named `key` (any attribute when `key` is `None`)
/// whose value is UTF-8, that value under the attribute's name, earlier values first.
pub open spec fn store_attrs(
    m: Seq<(Seq<char>, Seq<char>)>,
    key: Option<Seq<u8>>,
    attrs: Seq<(Seq<u8>, Seq<u8>)>,
) -> Seq<(Seq<char>, Seq<char>)>
    decreases attrs.len(),
{
    if attrs.len() == 0 {
        m
    } else {
        let m1 = store_attrs(m, key, attrs.drop_last());
        let a = attrs.last();
        if (key is None || key == Some(a.0)) && valid_utf8(a.1) {
            insert_absent(m1, lossy_text(a.0), decode_utf8(a.1))
        } else {
            m1
        }
    }
}

/// The attributes of a tag that a handler asked for by name, each name in turn.
pub open spec fn store_user_attrs(names: Seq<Seq<u8>>, attrs: Seq<(Seq<u8>, Seq<u8>)>) -> Seq<
    (Seq<char>, Seq<char>),
>
    decreases names.len(),
{
    if names.len() == 0 {
        Seq::empty()
    } else {
        store_attrs(store_user_attrs(names.drop_last(), attrs), Some(names.last()), attrs)
    }
}

/// The value of the last entry for column `col`.
pub open spec fn last_value<C>(rows: Seq<(usize, C)>, col: usize) -> Option<C>
    decreases rows.len(),
{
    if rows.len() == 0 {
        None
    } else if rows.last().0 == col {
        Some(rows.last().1)
    } else {
        last_value(rows.drop_last(), col)
    }
}

/// Storing the attributes named `n` keeps the entries there were and adds only entries
/// under the name `n` (as `String::from_utf8_lossy` reads them).
proof fn lemma_store_named(m: Seq<(Seq<char>, Seq<char>)>, n: Seq<u8>, attrs: Seq<(Seq<u8>, Seq<u8>)>)
    ensures
        ({
            let r = store_attrs(m, Some(n), attrs);
            &&& m.len() <= r.len()
            &&& forall|i: int| 0 <= i < m.len() ==> #[trigger] r[i] == m[i]
            &&& forall|i: int| m.len() <= i < r.len() ==> #[trigger] r[i].0 == lossy_text(n)
        }),
    decreases attrs.len(),
{
    if attrs.len() > 0 {
        lemma_store_named(m, n, attrs.drop_last());
    }
}

/// A handler is handed only attributes it asked for: every name stored is one of the names
/// of its description (as `String::from_utf8_lossy` reads them).
pub proof fn law_only_asked_for_attributes_are_picked(names: Seq<Seq<u8>>, attrs: Seq<(Seq<u8>, Seq<u8>)>)
    ensures
        forall|i: int| 0 <= i < store_user_attrs(names, attrs).len() ==> names.map_values(
            |n: Seq<u8>| lossy_text(n),
        ).contains(#[trigger] store_user_attrs(names, attrs)[i].0),
    decreases names.len(),
{
    if names.len() > 0 {
        let prev = store_user_attrs(names.drop_last(), attrs);
        let lossy = names.map_values(|n: Seq<u8>| lossy_text(n));
        law_only_asked_for_attributes_are_picked(names.drop_last(), attrs);
        lemma_store_named(prev, names.last(), attrs);
        let r = store_user_attrs(names, attrs);
        assert forall|i: int| 0 <= i < r.len() implies lossy.contains(#[trigger] r[i].0) by {
            if i < prev.len() {
                assert(r[i] == prev[i]);
                let lossy_prev = names.drop_last().map_values(|n: Seq<u8>| lossy_text(n));
                assert(lossy_prev.contains(prev[i].0));
                let j = choose|j: int| 0 <= j < lossy_prev.len() && lossy_prev[j] == prev[i].0;
                assert(lossy[j] == lossy_prev[j]);
            } else {
                assert(lossy[names.len() - 1] == lossy_text(names.last()));
            }
        }
    }
}

/// The decoded value of the first attribute named `n` whose value is UTF-8.
pub open spec fn first_value(attrs: Seq<(Seq<u8>, Seq<u8>)>, n: Seq<u8>) -> Option<Seq<char>>
    decreases attrs.len(),
{
    if attrs.len() == 0 {
        None
    } else {
        let f = first_value(attrs.drop_last(), n);
        if f is Some {
            f
        } else if attrs.last().0 == n && valid_utf8(attrs.last().1) {
            Some(decode_utf8(attrs.last().1))
        } else {
            None
        }
    }
}

/// Looking up after an insertion that keeps an existing key.
proof fn lemma_lookup_insert_absent(m: Seq<(Seq<char>, Seq<char>)>, k2: Seq<char>, v: Seq<char>, k: Seq<char>)
    ensures
        lookup(insert_absent(m, k2, v), k) == (if lookup(m, k) is Some {
            lookup(m, k)
        } else if k2 == k {
            Some(v)
        } else {
            None
        }),
{
    if lookup(m, k2) is None {
        law_insert_then_lookup(m, k2, v, k);
    }
}

/// Looking up a name after storing the attributes named `n`.
proof fn lemma_lookup_store_named(m: Seq<(Seq<char>, Seq<char>)>, n: Seq<u8>, attrs: Seq<(Seq<u8>, Seq<u8>)>, k: Seq<char>)
    ensures
        lookup(store_attrs(m, Some(n), attrs), k) == (if lookup(m, k) is Some {
            lookup(m, k)
        } else if lossy_text(n) == k {
            first_value(attrs, n)
        } else {
            None
        }),
    decreases attrs.len(),
{
    if attrs.len() > 0 {
        lemma_lookup_store_named(m, n, attrs.drop_last(), k);
        let m1 = store_attrs(m, Some(n), attrs.drop_last());
        let a = attrs.last();
        if a.0 == n && valid_utf8(a.1) {
            lemma_lookup_insert_absent(m1, lossy_text(a.0), decode_utf8(a.1), k);
        }
    }
}

/// With UTF-8 names, a name read as text is `k` exactly when its bytes encode `k`.
proof fn lemma_text_of_name(b: Seq<u8>, k: Seq<char>)
    requires
        valid_utf8(b),
    ensures
        (lossy_text(b) == k) == (b == encode_utf8(k)),
{
    vstd::utf8::decode_utf8_encode_utf8(b);
    vstd::utf8::encode_utf8_decode_utf8(k);
}

/// No attribute is named `n` when `n` is not UTF-8 and all names are.
proof fn lemma_first_value_none(attrs: Seq<(Seq<u8>, Seq<u8>)>, n: Seq<u8>)
    requires
        forall|i: int| 0 <= i < attrs.len() ==> valid_utf8(#[trigger] attrs[i].0),
        !valid_utf8(n),
    ensures
        first_value(attrs, n) is None,
    decreases attrs.len(),
{
    if attrs.len() > 0 {
        assert forall|i: int| 0 <= i < attrs.drop_last().len() implies valid_utf8(#[trigger] attrs.drop_last()[i].0) by {
            assert(attrs.drop_last()[i] == attrs[i]);
        }
        lemma_first_value_none(attrs.drop_last(), n);
        assert(valid_utf8(attrs[attrs.len() - 1].0));
    }
}

/// Looking up a name after storing every attribute, when all names are UTF-8.
proof fn lemma_lookup_store_all(m: Seq<(Seq<char>, Seq<char>)>, attrs: Seq<(Seq<u8>, Seq<u8>)>, k: Seq<char>)
    requires
        forall|i: int| 0 <= i < attrs.len() ==> valid_utf8(#[trigger] attrs[i].0),
    ensures
        lookup(store_attrs(m, None, attrs), k) == (if lookup(m, k) is Some {
            lookup(m, k)
        } else {
            first_value(attrs, encode_utf8(k))
        }),
    decreases attrs.len(),
{
    if attrs.len() > 0 {
        assert forall|i: int| 0 <= i < attrs.drop_last().len() implies valid_utf8(#[trigger] attrs.drop_last()[i].0) by {
            assert(attrs.drop_last()[i] == attrs[i]);
        }
        lemma_lookup_store_all(m, attrs.drop_last(), k);
        let m1 = store_attrs(m, None, attrs.drop_last());
        let a = attrs.last();
        assert(valid_utf8(attrs[attrs.len() - 1].0));
        lemma_text_of_name(a.0, k);
        if valid_utf8(a.1) {
            lemma_lookup_insert_absent(m1, lossy_text(a.0), decode_utf8(a.1), k);
        }
    }
}

/// A handler is handed, for each name, exactly what the tag's full attribute map holds
/// for it when the handler asked for that name, and nothing for names it did not ask for
/// (when the tag's attribute names are UTF-8): the first UTF-8 value of the attribute.
pub proof fn law_picked_attributes_are_the_asked_for_part(
    names: Seq<Seq<u8>>,
    attrs: Seq<(Seq<u8>, Seq<u8>)>,
    k: Seq<char>,
)
    requires
        forall|i: int| 0 <= i < attrs.len() ==> valid_utf8(#[trigger] attrs[i].0),
    ensures
        lookup(store_user_attrs(names, attrs), k) == (if names.contains(encode_utf8(k)) {
            lookup(store_attrs(Seq::empty(), None, attrs), k)
        } else {
            None
        }),
    decreases names.len(),
{
    lemma_lookup_store_all(Seq::empty(), attrs, k);
    vstd::utf8::encode_utf8_valid_utf8(k);
    if names.len() > 0 {
        let dl = names.drop_last();
        let n = names.last();
        law_picked_attributes_are_the_asked_for_part(dl, attrs, k);
        lemma_lookup_store_named(store_user_attrs(dl, attrs), n, attrs, k);
        assert(names.contains(encode_utf8(k)) == (dl.contains(encode_utf8(k)) || n == encode_utf8(k))) by {
            if names.contains(encode_utf8(k)) {
                let j = choose|j: int| 0 <= j < names.len() && names[j] == encode_utf8(k);
                if j < dl.len() {
                    assert(dl[j] == names[j]);
                }
            }
            if dl.contains(encode_utf8(k)) {
                let j = choose|j: int| 0 <= j < dl.len() && dl[j] == encode_utf8(k);
                assert(names[j] == dl[j]);
            }
            if n == encode_utf8(k) {
                assert(names[names.len() - 1] == n);
            }
        }
        if valid_utf8(n) {
            lemma_text_of_name(n, k);
        } else {
            lemma_first_value_none(attrs, n);
            if lossy_text(n) == k {
                assert(n != encode_utf8(k));
            }
        }
    } else {
        assert(lookup(Seq::<(Seq<char>, Seq<char>)>::empty(), k) is None);
    }
}

/// The flags ask for the row index to be read from each row tag: rows in order with blank
/// rows for the missing ones, or only the rows present, but not both.
pub open spec fn row_index_is_read(f: ParserFlags) -> bool {
    let skip = f.has(ParserFlags::ROWS_IN_SEQUENTIAL_ORDER_SKIP);
    let only = f.has(ParserFlags::ONLY_GET_ROWS_THAT_EXIST);
    (skip && !only) || (!skip && only)
}

/// The flags ask for blank rows in place of the rows missing from the document.
pub open spec fn blank_rows_are_given(f: ParserFlags) -> bool {
    f.has(ParserFlags::ROWS_IN_SEQUENTIAL_ORDER_SKIP) && !f.has(ParserFlags::ONLY_GET_ROWS_THAT_EXIST)
}

/// The start tag `e` opens a row: with it the tag path is the row tag.
pub open spec fn opens_row<'a, S, C>(d: ParserData<'a, S, C>, e: StartTag) -> bool {
    let line = pushed_line(d.current_tag_line.tag_line@, utf8_lossy(e.name@));
    is_prefix(d.row_tag_string@, line) && d.row_tag@ == encode_utf8(line)
}

/// Reading the row index from the row tag `e`, where the flags ask for it, succeeds.
pub open spec fn row_update_ok<'a, S, C>(d: ParserData<'a, S, C>, e: StartTag) -> bool {
    let p = d.col_row_pos_info;
    !row_index_is_read(d.parse_flags) || (!steps_past_max(
        p.row_index,
        p.is_first_row,
        attributes_view(e),
        opt_bytes_view(d.row_index_attribute_name),
    ) && spec_row_update(
        p.row_index,
        p.row_index,
        p.is_first_row,
        attributes_view(e),
        opt_bytes_view(d.row_index_attribute_name),
    ).1 is Ok)
}

/// The row index lies past the end of a bounded range.
pub open spec fn past_range(row_index: usize, r: Radix10Rectange) -> bool {
    row_index > r.row + r.row_count && !r.is_row_count_infinite
}

/// Every cell of the row lies in a column of the reading range.
pub open spec fn cells_in_range<C>(rows: Seq<(usize, C)>, r: Radix10Rectange) -> bool {
    forall|i: int| 0 <= i < rows.len() ==> col_in_range(#[trigger] rows[i].0, r)
}

/// `c` is what `C::default()` gives.
pub open spec fn is_default<C: Default>(c: C) -> bool {
    call_ensures(C::default, (), c)
}

/// `v` has a cell for each column of the range: a clone of the last cell read for that
/// column, or the default value where no cell was read for it.
pub open spec fn laid_out<C: Default + Clone>(v: Seq<C>, rows: Seq<(usize, C)>, r: Radix10Rectange) -> bool {
    &&& v.len() == r.column_count
    &&& forall|d: int|
        #![trigger v[d]]
        0 <= d < r.column_count ==> match last_value(rows, (r.column + d) as usize) {
            Some(x) => cloned(x, v[d]),
            None => is_default(v[d]),
        }
}

/// How a finished row with the cells `rows` is given: laid out over the columns of the
/// range, or refused when a cell lies outside them.
pub open spec fn finished_row<C: Default + Clone>(c: Completion<C>, rows: Seq<(usize, C)>, r: Radix10Rectange) -> bool {
    if cells_in_range(rows, r) {
        c matches Completion::OkWithRow(RowValidation::Valid(v)) && laid_out(v@, rows, r)
    } else {
        c matches Completion::OkWithRow(RowValidation::Invalid(e)) && e.message@
            == "Column index outside of the reading range."@
    }
}

/// The names of the attributes of a tag description.
/// The header name of the column at `column_index`: the name recorded for its offset from
/// the first column of the range `r`, when it lies in the range and a name was recorded
/// that far; none otherwise.
pub open spec fn column_header_name(
    column_index: usize,
    r: Radix10Rectange,
    header: Seq<(Seq<char>, usize)>,
    names: Seq<String>,
) -> Option<String> {
    if col_in_range(column_index, r) && column_index - r.column < header.len() {
        Some(names[column_index - r.column])
    } else {
        None
    }
}

/// The state of a parser that has read nothing yet: no tag open, no row read, no blank
/// rows held back, no header, no drop request, the position before the first row with a
/// default cell value, and the range still open to change.
pub open spec fn fresh<'a, S, C: Default>(d: ParserData<'a, S, C>) -> bool {
    let p = d.col_row_pos_info;
    &&& d.current_tag_line.tag_line@.len() == 0
    &&& d.current_tag_line.last_tag_sizes@.len() == 0
    &&& d.holding_for_x_blank_lines == 0
    &&& d.header_row.view().len() == 0
    &&& d.header_row_vec@.len() == 0
    &&& d.drop_row_request is None
    &&& p.column_index == 0 && p.row_index == 0 && p.last_row_index == 0
    &&& !p.in_range && !p.is_sub_of_row && !p.is_in_row_range && !p.is_first_row
    &&& !p.is_in_col_range && !p.drop_it && !p.is_first_col
    &&& p.current_column_header is None
    &&& is_default(p.current_column_value)
    &&& d.header_attributes.view().len() == 0
    &&& d.can_change_range
    &&& !d.call_end_row_user_func
    &&& d.last_header_string@.len() == 0
}

/// `n` default values.
pub(crate) fn default_cells<C: Default>(n: usize) -> (v: Vec<C>)
    ensures
        v@.len() == n,
        forall|i: int| 0 <= i < n ==> is_default(#[trigger] v@[i]),
{
    let mut v: Vec<C> = Vec::new();
    let mut i: usize = 0;
    while i < n
        invariant
            i <= n,
            v@.len() == i,
            forall|j: int| 0 <= j < i ==> is_default(#[trigger] v@[j]),
        decreases n - i,
    {
        v.push(C::default());
        i = i + 1;
    }
    v
}

pub open spec fn attrib_names(v: Seq<RelativeNamePartsAttribs>) -> Seq<Seq<u8>> {
    v.map_values(|a: RelativeNamePartsAttribs| a.attrib@)
}

impl<'a, S, C> ParserData<'a, S, C> {
    /// The state as plain values.
    pub open spec fn model(&self) -> ParserModel {
        ParserModel {
            reading_range: self.reading_range,
            tag_line: self.current_tag_line.tag_line@,
            tag_sizes: self.current_tag_line.last_tag_sizes@,
            column_tag: opt_bytes_view(self.column_tag),
            row_tag: self.row_tag@,
            row_tag_string: self.row_tag_string@,
            row_attr: opt_bytes_view(self.row_index_attribute_name),
            col_attr: opt_bytes_view(self.col_index_attribute_name),
            holding: self.holding_for_x_blank_lines,
            header_row: self.header_row.view(),
            header_row_vec: self.header_row_vec@,
            drop_row_request: self.drop_row_request,
            pos: pos_view(self.col_row_pos_info),
            defined: self.is_reading_range_defined,
            header_attributes: self.header_attributes.view(),
            flags: self.parse_flags,
            can_change_range: self.can_change_range,
            call_end_row_user_func: self.call_end_row_user_func,
            last_header_string: self.last_header_string@,
        }
    }

    /// What the parser keeps consistent: a reading range whose last row and column are
    /// within `usize`, and a header name for each header index.
    pub open spec fn inv(&self) -> bool {
        &&& self.reading_range.wf()
        &&& self.header_row.view().len() <= self.header_row_vec@.len()
    }

    /// Sets up the state for the row description `optional_row_id` and the column
    /// description `optional_col_id`: the attribute naming the row (or column) index is the
    /// one attribute of its description, if it has exactly one.
    pub fn new(
        s: &'a mut S,
        read_range: Option<Radix10Rectange>,
        optional_row_id: RelativeNameParts<'a>,
        optional_col_id: Option<RelativeNameParts<'a>>,
        parser_flags: ParserFlags,
    ) -> (p: Self)
        where C: Default,
        requires
            read_range matches Some(r) ==> r.wf(),
        ensures
            p.inv(),
            p.k@.len() == 0,
            p.reading_range == (match read_range {
                Some(r) => r,
                None => Radix10Rectange { column: 0, row: 0, column_count: 0, row_count: 0, is_row_count_infinite: false },
            }),
            p.is_reading_range_defined == read_range is Some,
            p.current_tag_line.tag_line@.len() == 0,
            p.current_tag_line.last_tag_sizes@.len() == 0,
            opt_bytes_view(p.column_tag) == (match optional_col_id {
                Some(c) => Some(c.name@),
                None => None,
            }),
            p.row_tag@ == optional_row_id.name@,
            p.row_tag_string@ == utf8_lossy(optional_row_id.name@),
            opt_bytes_view(p.row_index_attribute_name) == (if optional_row_id.attribs@.len() == 1 {
                Some(optional_row_id.attribs@[0].attrib@)
            } else {
                None
            }),
            opt_bytes_view(p.col_index_attribute_name) == (match optional_col_id {
                Some(c) => if c.attribs@.len() == 1 {
                    Some(c.attribs@[0].attrib@)
                } else {
                    None
                },
                None => None,
            }),
            p.holding_for_x_blank_lines == 0,
            p.header_row.view().len() == 0,
            p.header_row_vec@.len() == 0,
            p.drop_row_request is None,
            p.col_row_pos_info.column_index == 0 && p.col_row_pos_info.row_index == 0,
            p.col_row_pos_info.last_row_index == 0,
            !p.col_row_pos_info.is_first_row && !p.col_row_pos_info.is_first_col,
            !p.col_row_pos_info.in_range && !p.col_row_pos_info.is_sub_of_row,
            p.header_attributes.view().len() == 0,
            p.parse_flags == parser_flags,
            p.can_change_range,
            !p.call_end_row_user_func,
            p.last_header_string@.len() == 0,
            fresh(p),
    {
        let row_index_id = if optional_row_id.attribs.len() == 1 {
            Some(optional_row_id.attribs[0].attrib)
        } else {
            None
        };
        let (col_index_id, col_name_to_pass) = match &optional_col_id {
            Some(col_rel) => {
                let id = if col_rel.attribs.len() == 1 {
                    Some(col_rel.attribs[0].attrib)
                } else {
                    None
                };
                (id, Some(col_rel.name))
            },
            None => (None, None),
        };
        let (range_def, is_range_def) = match read_range {
            Some(r) => (r, true),
            None => (Radix10Rectange::zero(), false),
        };
        let row_tag_string = bytes_to_string_lossy(optional_row_id.name);
        Self {
            k: Vec::new(),
            cell: s,
            reading_range: range_def,
            is_reading_range_defined: is_range_def,
            current_tag_line: CurrentTagLine::new(),
            column_tag: col_name_to_pass,
            row_tag: optional_row_id.name,
            row_tag_string: row_tag_string,
            row_index_attribute_name: row_index_id,
            col_index_attribute_name: col_index_id,
            holding_for_x_blank_lines: 0,
            header_row: StringMap::new(),
            drop_row_request: None,
            col_row_pos_info: ColRowPositionInfo::default(),
            header_attributes: StringMap::new(),
            parse_flags: parser_flags,
            can_change_range: true,
            header_row_vec: Vec::new(),
            call_end_row_user_func: false,
            last_header_string: String::new(),
            calls: Ghost(Seq::empty()),
        }
    }

    /// Recomputes whether the position is inside the reading range (rows, columns, both)
    /// and whether the current tag lies under the row tag.
    #[verifier::rlimit(40)]
    pub fn update_range_items(&mut self)
        requires
            old(self).inv(),
        ensures
            final(self).calls == old(self).calls,
            final(self).model() == (ParserModel {
                pos: ColRowPositionInfo {
                    is_in_row_range: row_in_range(old(self).col_row_pos_info.row_index, old(self).reading_range),
                    is_in_col_range: col_in_range(old(self).col_row_pos_info.column_index, old(self).reading_range),
                    in_range: row_in_range(old(self).col_row_pos_info.row_index, old(self).reading_range)
                        && col_in_range(old(self).col_row_pos_info.column_index, old(self).reading_range),
                    is_sub_of_row: is_prefix(old(self).row_tag_string@, old(self).current_tag_line.tag_line@),
                    ..old(self).model().pos
                },
                ..old(self).model()
            }),
            final(self).col_row_pos_info.current_column_value == old(self).col_row_pos_info.current_column_value,
            final(self).k == old(self).k,
            *final(self).cell == *old(self).cell,
            final(self).row_tag == old(self).row_tag,
    {
        let r = self.reading_range;
        let p = &self.col_row_pos_info;
        let in_rows = p.row_index >= r.row && (p.row_index < r.row + r.row_count || r.is_row_count_infinite);
        let in_cols = p.column_index >= r.column && p.column_index < r.column + r.column_count;
        let sub = starts_with(&self.current_tag_line.tag_line, &self.row_tag_string);
        self.col_row_pos_info.is_in_row_range = in_rows;
        self.col_row_pos_info.is_in_col_range = in_cols;
        self.col_row_pos_info.in_range = in_rows && in_cols;
        self.col_row_pos_info.is_sub_of_row = sub;
    }

    /// When rows were skipped (the row index is more than one past the last row) and the
    /// row is in the reading range, queues a blank row for each skipped row within range.
    pub fn update_for_missing_rows(&mut self)
        requires
            old(self).inv(),
        ensures
            final(self).calls == old(self).calls,
            final(self).model() == (ParserModel {
                holding: if old(self).col_row_pos_info.row_index > old(self).col_row_pos_info.last_row_index + 1
                    && row_in_range(old(self).col_row_pos_info.row_index, old(self).reading_range) {
                    (spec_largest(old(self).col_row_pos_info.row_index, old(self).reading_range)
                        - old(self).col_row_pos_info.last_row_index) as usize
                } else {
                    old(self).holding_for_x_blank_lines
                },
                ..old(self).model()
            }),
            final(self).col_row_pos_info == old(self).col_row_pos_info,
            final(self).k == old(self).k,
            *final(self).cell == *old(self).cell,
            final(self).row_tag == old(self).row_tag,
    {
        let row = self.col_row_pos_info.row_index;
        let last = self.col_row_pos_info.last_row_index;
        if row > last && row - last > 1 {
            let in_range = row >= self.reading_range.row && (row < self.reading_range.row
                + self.reading_range.row_count || self.reading_range.is_row_count_infinite);
            let largest = ParserData::get_largest_avalable_empty_lines(&self);
            if in_range {
                self.holding_for_x_blank_lines = largest - last;
            }
        }
    }

    /// Whether the row index lies past the end of a bounded reading range.
    pub fn is_row_greater_than_reading_range(&self) -> (b: bool)
        requires
            self.inv(),
        ensures
            b == (self.col_row_pos_info.row_index > self.reading_range.row + self.reading_range.row_count
                && !self.reading_range.is_row_count_infinite),
    {
        (self.col_row_pos_info.row_index > self.reading_range.row + self.reading_range.row_count)
            && !self.reading_range.is_row_count_infinite
    }

    /// The header name of the current column, when the column is in range and the header
    /// row has a name for it.
    pub fn get_current_column_name_by_column_index(&self) -> (r: Option<String>)
        requires
            self.inv(),
            self.col_row_pos_info.is_in_col_range ==> self.col_row_pos_info.column_index
                >= self.reading_range.column,
        ensures
            r == (if self.col_row_pos_info.is_in_col_range && self.col_row_pos_info.column_index
                - self.reading_range.column < self.header_row.view().len() {
                Some(self.header_row_vec@[self.col_row_pos_info.column_index - self.reading_range.column])
            } else {
                None::<String>
            }),
    {
        if self.col_row_pos_info.is_in_col_range {
            let vvv = self.col_row_pos_info.column_index - self.reading_range.column;
            if vvv < self.header_row.len() {
                Some(self.header_row_vec[vvv].clone())
            } else {
                None
            }
        } else {
            None
        }
    }

    /// The handler for the tag path `name`, if one was added.
    pub fn find_handler(&self, name: &[u8]) -> (i: Option<usize>)
        ensures
            i matches Some(j) ==> j == index_of(handler_names(self.k@), name@) && j < self.k@.len(),
            i is None ==> index_of(handler_names(self.k@), name@) == self.k@.len(),
    {
        let mut j: usize = 0;
        while j < self.k.len()
            invariant
                j <= self.k.len(),
                forall|t: int| 0 <= t < j ==> handler_names(self.k@)[t] != name@,
            decreases self.k.len() - j,
        {
            if bytes_eq(self.k[j].n.name, name) {
                proof {
                    lemma_index_at(handler_names(self.k@), name@, j as int);
                }
                return Some(j);
            }
            j = j + 1;
        }
        proof {
            lemma_index_at(handler_names(self.k@), name@, self.k@.len() as int);
        }
        None
    }

    /// Stores into `m` each attribute of `e` named `key` (any when `None`) whose value is
    /// UTF-8, unless its name already has a value.
    fn store_attributes(m: &mut StringMap<String>, key: Option<&[u8]>, e: &StartTag)
        ensures
            text_entries(final(m).view()) == store_attrs(
                text_entries(old(m).view()),
                opt_bytes_view(key),
                attributes_view(*e),
            ),
    {
        let mut j: usize = 0;
        while j < e.attributes.len()
            invariant
                j <= e.attributes.len(),
                text_entries(m.view()) == store_attrs(
                    text_entries(old(m).view()),
                    opt_bytes_view(key),
                    attributes_view(*e).take(j as int),
                ),
            decreases e.attributes.len() - j,
        {
            proof {
                assert(attributes_view(*e).take(j + 1).drop_last() =~= attributes_view(*e).take(j as int));
            }
            let a = &e.attributes[j];
            let wanted = match key {
                Some(k) => bytes_eq(a.key.as_slice(), k),
                None => true,
            };
            if wanted {
                match bytes_to_string(slice_to_vec(a.value.as_slice())) {
                    Some(value_fine) => {
                        let vk = bytes_to_string_lossy(a.key.as_slice());
                        proof {
                            lemma_text_insert(m.view(), vk@, value_fine);
                        }
                        m.insert_if_absent(vk, value_fine);
                    },
                    None => {},
                }
            }
            j = j + 1;
        }
        assert(attributes_view(*e).take(j as int) =~= attributes_view(*e));
    }

    /// The attributes of `e` that the handler asked for by name: for each name, each
    /// attribute of that name whose value is UTF-8; the first value for a name stays.
    pub fn hash_attribs_that_exist_both_user_and_xml(
        user_attbs: &Vec<RelativeNamePartsAttribs>,
        e: &StartTag,
    ) -> (m: StringMap<String>)
        ensures
            text_entries(m.view()) == store_user_attrs(attrib_names(user_attbs@), attributes_view(*e)),
    {
        let mut hsh: StringMap<String> = StringMap::new();
        let mut i: usize = 0;
        assert(text_entries(hsh.view()) =~= Seq::<(Seq<char>, Seq<char>)>::empty());
        while i < user_attbs.len()
            invariant
                i <= user_attbs.len(),
                text_entries(hsh.view()) == store_user_attrs(
                    attrib_names(user_attbs@).take(i as int),
                    attributes_view(*e),
                ),
            decreases user_attbs.len() - i,
        {
            proof {
                assert(attrib_names(user_attbs@).take(i + 1).drop_last() =~= attrib_names(user_attbs@).take(i as int));
            }
            Self::store_attributes(&mut hsh, Some(user_attbs[i].attrib), e);
            i = i + 1;
        }
        assert(attrib_names(user_attbs@).take(i as int) =~= attrib_names(user_attbs@));
        hsh
    }

    /// Every attribute of `e` whose value is UTF-8; the first value for a name stays.
    pub fn get_all_tag_attributes(e: &StartTag) -> (m: StringMap<String>)
        ensures
            text_entries(m.view()) == store_attrs(Seq::empty(), None, attributes_view(*e)),
    {
        let mut hsh: StringMap<String> = StringMap::new();
        assert(text_entries(hsh.view()) =~= Seq::<(Seq<char>, Seq<char>)>::empty());
        Self::store_attributes(&mut hsh, None, e);
        hsh
    }

    /// Lays the cells of a row out over the columns of the reading range: each column gets
    /// a clone of the value of the last entry for it, or the default value; `row_data` is
    /// left as it is.
    pub fn sort_columns_for_return(&self, row_data: &Vec<(usize, C)>) -> (r: RowValidation<C>)
        where C: Default + Clone,
        requires
            self.reading_range.wf(),
            cells_in_range(row_data@, self.reading_range),
        ensures
            r matches RowValidation::Valid(v) && laid_out(v@, row_data@, self.reading_range),
    {
        let n = self.reading_range.column_count;
        let column = self.reading_range.column;
        let mut ve: Vec<C> = default_cells(n);
        let mut i: usize = 0;
        assert(row_data@.take(0) =~= Seq::<(usize, C)>::empty());
        while i < row_data.len()
            invariant
                ve@.len() == n,
                n == self.reading_range.column_count,
                column == self.reading_range.column,
                column + n <= usize::MAX,
                i <= row_data@.len(),
                cells_in_range(row_data@, self.reading_range),
                forall|d: int|
                    #![trigger ve@[d]]
                    0 <= d < n ==> match last_value(row_data@.take(i as int), (column + d) as usize) {
                        Some(x) => cloned(x, ve@[d]),
                        None => is_default(ve@[d]),
                    },
            decreases row_data.len() - i,
        {
            proof {
                assert(row_data@.take(i + 1).drop_last() =~= row_data@.take(i as int));
                assert(row_data@.take(i + 1).last() == row_data@[i as int]);
                assert(col_in_range(row_data@[i as int].0, self.reading_range));
            }
            let c = row_data[i].0;
            let d = c - column;
            let val = row_data[i].1.clone();
            let ghost old_ve = ve@;
            ve.set(d, val);
            proof {
                assert forall|d2: int|
                    #![trigger ve@[d2]]
                    0 <= d2 < n implies match last_value(row_data@.take(i + 1), (column + d2) as usize) {
                        Some(x) => cloned(x, ve@[d2]),
                        None => is_default(ve@[d2]),
                    } by {
                    if d2 == d {
                        assert((column + d2) as usize == c);
                    } else {
                        assert((column + d2) as usize != c);
                        assert(ve@[d2] == old_ve[d2]);
                    }
                }
            }
            i = i + 1;
        }
        assert(row_data@.take(i as int) =~= row_data@);
        RowValidation::Valid(ve)
    }

    /// Calls the handler of the tag path `row_tag_id` for its start tag, if it has one: with
    /// `RowStart` for the row tag, `ColumnStart` otherwise, and the attributes it asked for.
    /// The handler may drop the row and, while the range may change, set it.
    pub fn run_start_user_tag(
        &mut self,
        row_tag_id: &[u8],
        e: &StartTag,
        drop_it: &mut Option<DropRowRequest>,
        dims: &mut Radix10Rectange,
    )
        requires
            old(self).inv(),
            old(dims).wf(),
        ensures
            final(self).inv(),
            final(dims).wf(),
            final(self).k == old(self).k,
            final(self).row_tag == old(self).row_tag,
            handler_frame(old(self).model(), final(self).model()),
            !old(self).can_change_range ==> final(self).reading_range == old(self).reading_range
                && final(self).is_reading_range_defined == old(self).is_reading_range_defined,
            ({
                let i = index_of(handler_names(old(self).k@), row_tag_id@);
                let attrs = store_user_attrs(attrib_names(old(self).k@[i as int].n.attribs@), attributes_view(*e));
                i < old(self).k@.len() ==> final(self).calls@ == old(self).calls@.push(
                    if old(self).row_tag@ == row_tag_id@ {
                        HandlerCall::RowStart(i as int, attrs)
                    } else {
                        HandlerCall::ColumnStart(i as int, attrs)
                    },
                )
            }),
            index_of(handler_names(old(self).k@), row_tag_id@) == old(self).k@.len() ==> {
                &&& *final(self) == *old(self)
                &&& *final(drop_it) == *old(drop_it)
                &&& *final(dims) == *old(dims)
            },
            index_of(handler_names(old(self).k@), row_tag_id@) < old(self).k@.len() ==> exists|set: bool|
                final(self).model() == after_handler(old(self).model(), *final(drop_it), set, *final(dims), true),
    {
        match self.find_handler(row_tag_id) {
            Some(i) => {
                let hsh = Self::hash_attribs_that_exist_both_user_and_xml(&self.k[i].n.attribs, e);
                let mut sti = StateInfo { cell_info: CellInfoLocation::new(
                    &self.col_row_pos_info,
                    true,
                    self.is_reading_range_defined,
                    clone_request(drop_it),
                    *dims,
                    &self.header_row,
                    false,
                ) };
                let ghost attrs = text_entries(hsh.view());
                if bytes_eq(self.row_tag, row_tag_id) {
                    self.k[i].f.call(&mut *self.cell, InputTagType::RowStart(hsh));
                    self.calls = Ghost(self.calls@.push(HandlerCall::RowStart(i as int, attrs)));
                } else {
                    let cv = &mut self.col_row_pos_info.current_column_value;
                    self.k[i].f.call(&mut *self.cell, InputTagType::ColumnStart(cv, hsh, &mut sti));
                    self.calls = Ghost(self.calls@.push(HandlerCall::ColumnStart(i as int, attrs)));
                }
                let ms = sti.cell_info.ms;
                let ok_dims = ms.is_wf();
                if ok_dims {
                    *dims = ms;
                }
                let was_ok = sti.cell_info.was_dimension_call_successfull && ok_dims;
                *drop_it = clone_request(&sti.cell_info.c);
                if self.can_change_range {
                    if was_ok {
                        self.reading_range = *dims;
                        self.is_reading_range_defined = true;
                    }
                }
                self.drop_row_request = clone_request(drop_it);
                assert(self.model() == after_handler(old(self).model(), *drop_it, was_ok, *dims, true));
            },
            None => {},
        }
    }

    /// Calls the handler of the tag path `row_tag_id` for a start tag outside the rows, if
    /// it has one, with the attributes it asked for. The handler may set the range while it
    /// may change.
    pub fn run_start_user_tag_non_row(&mut self, row_tag_id: &[u8], e: &StartTag, dims: &mut Radix10Rectange)
        requires
            old(self).inv(),
            old(dims).wf(),
        ensures
            final(self).inv(),
            final(dims).wf(),
            final(self).k == old(self).k,
            final(self).row_tag == old(self).row_tag,
            handler_frame(old(self).model(), final(self).model()),
            !old(self).can_change_range ==> final(self).reading_range == old(self).reading_range
                && final(self).is_reading_range_defined == old(self).is_reading_range_defined,
            index_of(handler_names(old(self).k@), row_tag_id@) < old(self).k@.len() ==> final(self).calls@ == old(self).calls@.push(
                HandlerCall::OtherTagStart(
                    index_of(handler_names(old(self).k@), row_tag_id@) as int,
                    store_user_attrs(attrib_names(old(self).k@[index_of(handler_names(old(self).k@), row_tag_id@) as int].n.attribs@), attributes_view(*e)),
                ),
            ),
            index_of(handler_names(old(self).k@), row_tag_id@) == old(self).k@.len() ==> {
                &&& *final(self) == *old(self)
                &&& *final(dims) == *old(dims)
            },
            index_of(handler_names(old(self).k@), row_tag_id@) < old(self).k@.len() ==> exists|set: bool|
                final(self).model() == after_handler(old(self).model(), old(self).drop_row_request, set, *final(dims), true),
    {
        match self.find_handler(row_tag_id) {
            Some(i) => {
                let hsh = Self::hash_attribs_that_exist_both_user_and_xml(&self.k[i].n.attribs, e);
                let mut info = NonRowInfo::new(*dims, self.is_reading_range_defined, false);
                let ghost attrs = text_entries(hsh.view());
                self.k[i].f.call(&mut *self.cell, InputTagType::OtherTagStart(hsh, &mut info));
                self.calls = Ghost(self.calls@.push(HandlerCall::OtherTagStart(i as int, attrs)));
                let nd = info.dimensions;
                let ok_dims = nd.is_wf();
                if ok_dims {
                    *dims = nd;
                }
                let was_ok = info.changed_dims && ok_dims;
                if self.can_change_range {
                    if was_ok {
                        self.reading_range = *dims;
                        self.is_reading_range_defined = true;
                    }
                }
                assert(self.model() == after_handler(old(self).model(), old(self).drop_row_request, was_ok, *dims, true));
            },
            None => {},
        }
    }

    /// Calls the handler of the tag path `row_tag_id` for an end tag outside the rows, if it
    /// has one. The handler may set the range while it may change.
    pub fn run_end_user_tag_non_row(&mut self, row_tag_id: &[u8], dims: &mut Radix10Rectange)
        requires
            old(self).inv(),
            old(dims).wf(),
        ensures
            final(self).inv(),
            final(dims).wf(),
            final(self).k == old(self).k,
            final(self).row_tag == old(self).row_tag,
            handler_frame(old(self).model(), final(self).model()),
            !old(self).can_change_range ==> final(self).reading_range == old(self).reading_range
                && final(self).is_reading_range_defined == old(self).is_reading_range_defined,
            index_of(handler_names(old(self).k@), row_tag_id@) < old(self).k@.len() ==> final(self).calls@ == old(self).calls@.push(
                HandlerCall::OtherTagEnd(index_of(handler_names(old(self).k@), row_tag_id@) as int),
            ),
            index_of(handler_names(old(self).k@), row_tag_id@) == old(self).k@.len() ==> {
                &&& *final(self) == *old(self)
                &&& *final(dims) == *old(dims)
            },
            index_of(handler_names(old(self).k@), row_tag_id@) < old(self).k@.len() ==> exists|set: bool|
                final(self).model() == after_handler(old(self).model(), old(self).drop_row_request, set, *final(dims), true),
    {
        match self.find_handler(row_tag_id) {
            Some(i) => {
                let mut info = NonRowInfo::new(*dims, self.is_reading_range_defined, false);
                self.k[i].f.call(&mut *self.cell, InputTagType::OtherTagEnd(&mut info));
                self.calls = Ghost(self.calls@.push(HandlerCall::OtherTagEnd(i as int)));
                let nd = info.dimensions;
                let ok_dims = nd.is_wf();
                if ok_dims {
                    *dims = nd;
                }
                let was_ok = info.changed_dims && ok_dims;
                if self.can_change_range {
                    if was_ok {
                        self.reading_range = *dims;
                        self.is_reading_range_defined = true;
                    }
                }
                assert(self.model() == after_handler(old(self).model(), old(self).drop_row_request, was_ok, *dims, true));
            },
            None => {},
        }
    }

    /// Calls the handler of the tag path `row_tag_id` with the text of a tag inside the
    /// rows, if it has one. The handler may drop the row and, when the range was already
    /// defined and may still change, set it.
    pub fn run_text_user_tag(&mut self, row_tag_id: &[u8], text: &str, drop_it: &mut Option<DropRowRequest>)
        requires
            old(self).inv(),
        ensures
            final(self).inv(),
            final(self).k == old(self).k,
            final(self).row_tag == old(self).row_tag,
            handler_frame(old(self).model(), final(self).model()),
            !old(self).can_change_range ==> final(self).reading_range == old(self).reading_range
                && final(self).is_reading_range_defined == old(self).is_reading_range_defined,
            index_of(handler_names(old(self).k@), row_tag_id@) < old(self).k@.len() ==> final(self).calls@
                == old(self).calls@.push(HandlerCall::ColumnText(index_of(handler_names(old(self).k@), row_tag_id@) as int, text@)),
            index_of(handler_names(old(self).k@), row_tag_id@) == old(self).k@.len() ==> {
                &&& *final(self) == *old(self)
                &&& *final(drop_it) == *old(drop_it)
            },
            index_of(handler_names(old(self).k@), row_tag_id@) < old(self).k@.len() ==> exists|set: bool, r: Radix10Rectange|
                #![trigger after_handler(old(self).model(), *final(drop_it), set, r, true)]
                r.wf() && (set ==> old(self).is_reading_range_defined) && final(self).model()
                    == after_handler(old(self).model(), *final(drop_it), set, r, true),
    {
        match self.find_handler(row_tag_id) {
            Some(i) => {
                let mut sti = StateInfo { cell_info: CellInfoLocation::new(
                    &self.col_row_pos_info,
                    true,
                    self.is_reading_range_defined,
                    clone_request(drop_it),
                    self.reading_range,
                    &self.header_row,
                    false,
                ) };
                let cv = &mut self.col_row_pos_info.current_column_value;
                self.k[i].f.call(&mut *self.cell, InputTagType::ColumnText(cv, text, &mut sti));
                self.calls = Ghost(self.calls@.push(HandlerCall::ColumnText(i as int, text@)));
                let ms = sti.cell_info.ms;
                let was_ok = sti.cell_info.was_dimension_call_successfull && ms.is_wf();
                // `has_dimensions` is set from the parser's state when the value is built and
                // no method of `StateInfo` changes it
                let new_dims = if self.is_reading_range_defined {
                    Some(ms)
                } else {
                    None
                };
                *drop_it = clone_request(&sti.cell_info.c);
                if self.can_change_range {
                    if was_ok {
                        if let Some(nd) = new_dims {
                            self.reading_range = nd;
                            self.is_reading_range_defined = true;
                        }
                    }
                }
                self.drop_row_request = clone_request(drop_it);
                let ghost r = if ms.wf() {
                        ms
                    } else {
                        old(self).reading_range
                    };
                    assert(self.model() == after_handler(old(self).model(), *drop_it, was_ok && old(self).is_reading_range_defined, r, true));
            },
            None => {},
        }
    }

    /// Calls the handler of the tag path `row_tag_id` with the text of a tag outside the
    /// rows, if it has one. The handler may set the range while it may change.
    pub fn run_text_user_tag_non_row(&mut self, row_tag_id: &[u8], text: &str, dims: &mut Radix10Rectange)
        requires
            old(self).inv(),
            old(dims).wf(),
        ensures
            final(self).inv(),
            final(dims).wf(),
            final(self).k == old(self).k,
            final(self).row_tag == old(self).row_tag,
            handler_frame(old(self).model(), final(self).model()),
            !old(self).can_change_range ==> final(self).reading_range == old(self).reading_range
                && final(self).is_reading_range_defined == old(self).is_reading_range_defined,
            index_of(handler_names(old(self).k@), row_tag_id@) < old(self).k@.len() ==> final(self).calls@ == old(self).calls@.push(
                HandlerCall::OtherTagText(index_of(handler_names(old(self).k@), row_tag_id@) as int, text@),
            ),
            index_of(handler_names(old(self).k@), row_tag_id@) == old(self).k@.len() ==> {
                &&& *final(self) == *old(self)
                &&& *final(dims) == *old(dims)
            },
            index_of(handler_names(old(self).k@), row_tag_id@) < old(self).k@.len() ==> exists|set: bool|
                final(self).model() == after_handler(old(self).model(), old(self).drop_row_request, set, *final(dims), true),
    {
        match self.find_handler(row_tag_id) {
            Some(i) => {
                let mut info = NonRowInfo::new(*dims, self.is_reading_range_defined, false);
                self.k[i].f.call(&mut *self.cell, InputTagType::OtherTagText(text, &mut info));
                self.calls = Ghost(self.calls@.push(HandlerCall::OtherTagText(i as int, text@)));
                let nd = info.dimensions;
                let ok_dims = nd.is_wf();
                if ok_dims {
                    *dims = nd;
                }
                let was_ok = info.changed_dims && ok_dims;
                if self.can_change_range {
                    if was_ok {
                        self.reading_range = *dims;
                        self.is_reading_range_defined = true;
                    }
                }
                assert(self.model() == after_handler(old(self).model(), old(self).drop_row_request, was_ok, *dims, true));
            },
            None => {},
        }
    }

    /// For the end tag of the tag path `row_tag_id`, if it has a handler: the row tag only
    /// marks that the row's handler is to be called once the row is complete; any other tag
    /// has its handler called with `ColumnEnd`, which may drop the row and, when the range
    /// was already defined and may still change, set it.
    pub fn run_end_user_tag(&mut self, row_tag_id: &[u8], drop_it: &mut Option<DropRowRequest>)
        requires
            old(self).inv(),
        ensures
            final(self).inv(),
            final(self).k == old(self).k,
            final(self).row_tag == old(self).row_tag,
            handler_frame(old(self).model(), final(self).model()),
            !old(self).can_change_range ==> final(self).reading_range == old(self).reading_range
                && final(self).is_reading_range_defined == old(self).is_reading_range_defined,
            ({
                let i = index_of(handler_names(old(self).k@), row_tag_id@);
                &&& i < old(self).k@.len() && row_tag_id@ != old(self).row_tag@ ==> final(self).calls@
                    == old(self).calls@.push(HandlerCall::ColumnEnd(i as int))
                &&& row_tag_id@ == old(self).row_tag@ ==> final(self).calls@ == old(self).calls@
            }),
            index_of(handler_names(old(self).k@), row_tag_id@) == old(self).k@.len() ==> {
                &&& *final(self) == *old(self)
                &&& *final(drop_it) == *old(drop_it)
            },
            index_of(handler_names(old(self).k@), row_tag_id@) < old(self).k@.len() && row_tag_id@ == old(self).row_tag@ ==> {
                &&& final(self).model() == (ParserModel {
                    call_end_row_user_func: true,
                    drop_row_request: *old(drop_it),
                    ..old(self).model()
                })
                &&& *final(drop_it) == *old(drop_it)
            },
            index_of(handler_names(old(self).k@), row_tag_id@) < old(self).k@.len() && row_tag_id@ != old(self).row_tag@
                ==> exists|set: bool, r: Radix10Rectange|
                #![trigger after_handler(old(self).model(), *final(drop_it), set, r, true)]
                r.wf() && (set ==> old(self).is_reading_range_defined) && final(self).model()
                    == after_handler(old(self).model(), *final(drop_it), set, r, true),
    {
        match self.find_handler(row_tag_id) {
            Some(i) => {
                let mut sti = StateInfo { cell_info: CellInfoLocation::new(
                    &self.col_row_pos_info,
                    true,
                    self.is_reading_range_defined,
                    clone_request(drop_it),
                    self.reading_range,
                    &self.header_row,
                    false,
                ) };
                if bytes_eq(self.row_tag, row_tag_id) {
                    self.call_end_row_user_func = true;
                } else {
                    let cv = &mut self.col_row_pos_info.current_column_value;
                    self.k[i].f.call(&mut *self.cell, InputTagType::ColumnEnd(cv, &mut sti));
                    self.calls = Ghost(self.calls@.push(HandlerCall::ColumnEnd(i as int)));
                }
                let ms = sti.cell_info.ms;
                let was_ok = sti.cell_info.was_dimension_call_successfull && ms.is_wf();
                // `has_dimensions` is set from the parser's state when the value is built and
                // no method of `StateInfo` changes it
                let new_dims = if self.is_reading_range_defined {
                    Some(ms)
                } else {
                    None
                };
                *drop_it = clone_request(&sti.cell_info.c);
                if self.can_change_range {
                    if was_ok {
                        if let Some(nd) = new_dims {
                            self.reading_range = nd;
                            self.is_reading_range_defined = true;
                        }
                    }
                }
                self.drop_row_request = clone_request(drop_it);
                if !bytes_eq(self.row_tag, row_tag_id) {
                    let ghost r = if ms.wf() {
                        ms
                    } else {
                        old(self).reading_range
                    };
                    assert(self.model() == after_handler(old(self).model(), *drop_it, was_ok && old(self).is_reading_range_defined, r, true));
                }
            },
            None => {},
        }
    }

    /// Once a row is complete: calls the handler of the tag path `row_tag_id`, if it has
    /// one, with the finished row (`RowComplete`) for the row tag, or with `ColumnEnd`
    /// otherwise. The handler may change the row, drop it, and, when the range was already
    /// defined and may still change, set the range.
    pub fn run_end_user_row_tag(
        &mut self,
        row_tag_id: &[u8],
        drop_it: &mut Option<DropRowRequest>,
        fin_rows: &mut RowValidation<C>,
    )
        requires
            old(self).inv(),
        ensures
            final(self).inv(),
            final(self).k == old(self).k,
            final(self).row_tag == old(self).row_tag,
            handler_frame(old(self).model(), final(self).model()),
            !old(self).can_change_range ==> final(self).reading_range == old(self).reading_range
                && final(self).is_reading_range_defined == old(self).is_reading_range_defined,
            ({
                let i = index_of(handler_names(old(self).k@), row_tag_id@);
                i < old(self).k@.len() ==> final(self).calls@ == old(self).calls@.push(
                    if row_tag_id@ == old(self).row_tag@ {
                        HandlerCall::RowComplete(i as int, *old(fin_rows))
                    } else {
                        HandlerCall::ColumnEnd(i as int)
                    },
                )
            }),
            index_of(handler_names(old(self).k@), row_tag_id@) == old(self).k@.len() ==> {
                &&& *final(self) == *old(self)
                &&& *final(drop_it) == *old(drop_it)
                &&& *final(fin_rows) == *old(fin_rows)
            },
            index_of(handler_names(old(self).k@), row_tag_id@) < old(self).k@.len() ==> exists|set: bool, r: Radix10Rectange|
                #![trigger after_handler(old(self).model(), *final(drop_it), set, r, true)]
                r.wf() && (set ==> old(self).is_reading_range_defined) && final(self).model()
                    == after_handler(old(self).model(), *final(drop_it), set, r, true),
    {
        match self.find_handler(row_tag_id) {
            Some(i) => {
                let mut sti = StateInfo { cell_info: CellInfoLocation::new(
                    &self.col_row_pos_info,
                    true,
                    self.is_reading_range_defined,
                    clone_request(drop_it),
                    self.reading_range,
                    &self.header_row,
                    false,
                ) };
                if bytes_eq(row_tag_id, self.row_tag) {
                    let ghost given = *fin_rows;
                    self.k[i].f.call(&mut *self.cell, InputTagType::RowComplete(fin_rows));
                    self.calls = Ghost(self.calls@.push(HandlerCall::RowComplete(i as int, given)));
                } else {
                    let cv = &mut self.col_row_pos_info.current_column_value;
                    self.k[i].f.call(&mut *self.cell, InputTagType::ColumnEnd(cv, &mut sti));
                    self.calls = Ghost(self.calls@.push(HandlerCall::ColumnEnd(i as int)));
                }
                let ms = sti.cell_info.ms;
                let was_ok = sti.cell_info.was_dimension_call_successfull && ms.is_wf();
                // `has_dimensions` is set from the parser's state when the value is built and
                // no method of `StateInfo` changes it
                let new_dims = if self.is_reading_range_defined {
                    Some(ms)
                } else {
                    None
                };
                *drop_it = clone_request(&sti.cell_info.c);
                if self.can_change_range {
                    if was_ok {
                        if let Some(nd) = new_dims {
                            self.reading_range = nd;
                            self.is_reading_range_defined = true;
                        }
                    }
                }
                self.drop_row_request = clone_request(drop_it);
                let ghost r = if ms.wf() {
                        ms
                    } else {
                        old(self).reading_range
                    };
                    assert(self.model() == after_handler(old(self).model(), *drop_it, was_ok && old(self).is_reading_range_defined, r, true));
            },
            None => {},
        }
    }

    /// The start of a row: back to its first column; fails the parse when no reading range
    /// is known yet; moves to the row's index as the flags ask (queuing blank rows for
    /// skipped ones); notes whether this is the header row; ends the rows past the range.
    /// Gives the outcome when handling the tag stops here.
    fn begin_row(&mut self, e: &StartTag, just_getting_the_header: &mut bool) -> (c: Option<Completion<C>>)
        where C: Default,
        requires
            old(self).inv(),
        ensures
            final(self).calls == old(self).calls,
            final(self).inv(),
            final(self).k == old(self).k,
            final(self).row_tag == old(self).row_tag,
            final(self).current_tag_line.tag_line@ == old(self).current_tag_line.tag_line@,
            final(self).current_tag_line.last_tag_sizes@ == old(self).current_tag_line.last_tag_sizes@,
            final(self).row_tag_string@ == old(self).row_tag_string@,
            final(self).column_tag == old(self).column_tag,
            final(self).drop_row_request == old(self).drop_row_request,
            final(self).col_row_pos_info.is_sub_of_row == old(self).col_row_pos_info.is_sub_of_row,
            final(self).reading_range == old(self).reading_range,
            *final(self).cell == *old(self).cell,
            !old(self).can_change_range ==> !final(self).can_change_range,
            !old(self).is_reading_range_defined ==> final(self).can_change_range == old(self).can_change_range,
            !old(self).is_reading_range_defined ==> (c matches Some(Completion::CriticalFail(err))
                && err.message@ == "Range needs to be supplied before row/columns can be processed."@),
            c matches Some(Completion::CriticalFail(_)) ==> !old(self).is_reading_range_defined,
            c matches Some(Completion::RowFail(RowValidation::Invalid(x))) ==> index_error(x.message@),
            c matches Some(Completion::RowFail(r)) ==> r is Invalid,
            c is Some ==> (c matches Some(Completion::CriticalFail(_)) || c matches Some(Completion::RowFail(_))
                || c matches Some(Completion::EndOfRows)),
            c matches Some(Completion::EndOfRows) ==> final(self).col_row_pos_info.row_index
                > final(self).reading_range.row + final(self).reading_range.row_count
                && !final(self).reading_range.is_row_count_infinite,
            old(self).is_reading_range_defined ==> !final(self).can_change_range
                && final(self).col_row_pos_info.last_row_index == old(self).col_row_pos_info.row_index,
            final(self).col_row_pos_info.column_index == 0,
            final(self).col_row_pos_info.is_first_col,
            final(self).col_row_pos_info.current_column_header is None,
            old(self).is_reading_range_defined ==> ({
                let p = old(self).col_row_pos_info;
                let upd = row_index_is_read(old(self).parse_flags);
                let (ri, out) = spec_row_update(
                    p.row_index,
                    p.row_index,
                    p.is_first_row,
                    attributes_view(*e),
                    opt_bytes_view(old(self).row_index_attribute_name),
                );
                let ovf = steps_past_max(
                    p.row_index,
                    p.is_first_row,
                    attributes_view(*e),
                    opt_bytes_view(old(self).row_index_attribute_name),
                );
                let ok = !upd || (!ovf && out is Ok);
                &&& !upd ==> final(self).col_row_pos_info.row_index == p.row_index
                &&& upd && ovf ==> (c matches Some(Completion::RowFail(RowValidation::Invalid(x)))
                    && x.message@ == "Row index is too large!"@)
                &&& upd && !ovf ==> final(self).col_row_pos_info.row_index == ri
                &&& (upd && !ovf && out is Err) ==> (c matches Some(Completion::RowFail(RowValidation::Invalid(x)))
                    && out == Err::<(), Seq<char>>(x.message@))
                &&& ok ==> {
                    &&& (c is None || c matches Some(Completion::EndOfRows))
                    &&& (c matches Some(Completion::EndOfRows)) == (final(self).col_row_pos_info.row_index
                        > old(self).reading_range.row + old(self).reading_range.row_count
                        && !old(self).reading_range.is_row_count_infinite)
                    &&& *final(just_getting_the_header) == (*old(just_getting_the_header) || (old(self).drop_row_request is None
                        && old(self).parse_flags.has(ParserFlags::HAS_HEADER)
                        && old(self).reading_range.row == final(self).col_row_pos_info.row_index))
                    &&& final(self).holding_for_x_blank_lines == (if blank_rows_are_given(old(self).parse_flags)
                        && final(self).col_row_pos_info.row_index > p.row_index + 1
                        && row_in_range(final(self).col_row_pos_info.row_index, old(self).reading_range) {
                        (spec_largest(final(self).col_row_pos_info.row_index, old(self).reading_range) - p.row_index) as usize
                    } else {
                        old(self).holding_for_x_blank_lines
                    })
                }
            }),
    {
        proof {
            lemma_row_update_errors();
        }
        self.call_end_row_user_func = false;
        self.col_row_pos_info.column_index = 0;
        self.col_row_pos_info.is_first_col = true;
        self.col_row_pos_info.current_column_header = None;
        self.col_row_pos_info.current_column_value = C::default();
        if !self.is_reading_range_defined {
            return Some(Completion::CriticalFail(
                CreateParserError::from("Range needs to be supplied before row/columns can be processed."),
            ));
        }
        self.can_change_range = false;
        self.col_row_pos_info.last_row_index = self.col_row_pos_info.row_index;
        let f = self.parse_flags;
        let skip = f.contains(ParserFlags::ROWS_IN_SEQUENTIAL_ORDER_SKIP);
        let only = f.contains(ParserFlags::ONLY_GET_ROWS_THAT_EXIST);
        if (skip && !only) || (!skip && only) {
            if self.col_row_pos_info.row_index == usize::MAX && !self.col_row_pos_info.is_first_row
                && has_no_index_attribute(e, self.row_index_attribute_name) {
                return Some(Completion::RowFail(RowValidation::Invalid(CreateParserError::from("Row index is too large!"))));
            }
            if let Err(error) = self.col_row_pos_info.update_row_index(e, self.row_index_attribute_name) {
                return Some(Completion::RowFail(RowValidation::Invalid(error)));
            }
            if skip {
                self.update_for_missing_rows();
            }
        }
        if self.drop_row_request.is_none() {
            if self.parse_flags.contains(ParserFlags::HAS_HEADER) && self.reading_range.row
                == self.col_row_pos_info.row_index {
                *just_getting_the_header = true;
            }
        }
        if self.is_row_greater_than_reading_range() {
            return Some(Completion::EndOfRows);
        }
        None
    }

    /// The start of a column: a fresh cell value, the column's index, whether it is in
    /// range, and its header name (none while reading the header row). Gives the outcome
    /// when handling the tag stops here.
    fn begin_column(&mut self, e: &StartTag, just_getting_the_header: bool) -> (c: Option<Completion<C>>)
        where C: Default,
        requires
            old(self).inv(),
        ensures
            final(self).calls == old(self).calls,
            final(self).inv(),
            final(self).k == old(self).k,
            final(self).row_tag == old(self).row_tag,
            final(self).current_tag_line.tag_line@ == old(self).current_tag_line.tag_line@,
            final(self).current_tag_line.last_tag_sizes@ == old(self).current_tag_line.last_tag_sizes@,
            final(self).row_tag_string@ == old(self).row_tag_string@,
            final(self).column_tag == old(self).column_tag,
            final(self).drop_row_request == old(self).drop_row_request,
            final(self).reading_range == old(self).reading_range,
            final(self).can_change_range == old(self).can_change_range,
            c matches Some(Completion::RowFail(RowValidation::Invalid(x))) ==> index_error(x.message@),
            c is None && !just_getting_the_header ==> final(self).col_row_pos_info.current_column_header
                == column_header_name(
                final(self).col_row_pos_info.column_index,
                old(self).reading_range,
                old(self).header_row.view(),
                old(self).header_row_vec@,
            ),
            c matches Some(Completion::RowFail(r)) ==> r is Invalid,
            c is Some ==> c matches Some(Completion::RowFail(_)),
            old(self).col_row_pos_info.is_sub_of_row == is_prefix(old(self).row_tag_string@, old(self).current_tag_line.tag_line@)
                ==> final(self).col_row_pos_info.is_sub_of_row == old(self).col_row_pos_info.is_sub_of_row,
            c is None ==> !final(self).col_row_pos_info.is_first_col
                && final(self).col_row_pos_info.is_in_col_range == col_in_range(
                    final(self).col_row_pos_info.column_index,
                    final(self).reading_range,
                ),
            steps_past_max(
                old(self).col_row_pos_info.column_index,
                old(self).col_row_pos_info.is_first_col,
                attributes_view(*e),
                opt_bytes_view(old(self).col_index_attribute_name),
            ) ==> (c matches Some(
                Completion::RowFail(RowValidation::Invalid(x)),
            ) && x.message@ == "Column index is too large!"@),
            !steps_past_max(
                old(self).col_row_pos_info.column_index,
                old(self).col_row_pos_info.is_first_col,
                attributes_view(*e),
                opt_bytes_view(old(self).col_index_attribute_name),
            ) ==> match spec_col_update(
                old(self).col_row_pos_info.column_index,
                old(self).col_row_pos_info.is_first_col,
                attributes_view(*e),
                opt_bytes_view(old(self).col_index_attribute_name),
            ) {
                Ok(ci) => c is None && final(self).col_row_pos_info.column_index == ci,
                Err(m) => c matches Some(Completion::RowFail(RowValidation::Invalid(x))) && x.message@ == m,
            },
    {
        proof {
            lemma_col_update_errors();
        }
        self.col_row_pos_info.current_column_value = C::default();
        if self.col_row_pos_info.column_index == usize::MAX && !self.col_row_pos_info.is_first_col
            && has_no_index_attribute(e, self.col_index_attribute_name) {
            return Some(Completion::RowFail(RowValidation::Invalid(CreateParserError::from("Column index is too large!"))));
        }
        if let Err(error) = self.col_row_pos_info.update_col_index(e, self.col_index_attribute_name) {
            return Some(Completion::RowFail(RowValidation::Invalid(error)));
        }
        self.update_range_items();
        self.col_row_pos_info.is_first_col = false;
        if !just_getting_the_header {
            self.col_row_pos_info.current_column_header = self.get_current_column_name_by_column_index();
        } else {
            self.col_row_pos_info.current_column_header = None;
        }
        None
    }

    /// Handles a start tag: extends the tag path; at the row tag starts a new row and at
    /// the column tag a new column (see `begin_row` and `begin_column`); then calls the
    /// tag's handler when the tag is in range (or outside the rows) and the row is not
    /// dropped, or, for the header row, keeps the column tag's attributes.
    pub fn run_start_tags(
        &mut self,
        e: &StartTag,
        just_getting_the_header: &mut bool,
        drop_it: &mut Option<DropRowRequest>,
    ) -> (c: Completion<C>)
        where C: Default + Clone,
        requires
            old(self).inv(),
        ensures
            final(self).inv(),
            final(self).k == old(self).k,
            final(self).row_tag == old(self).row_tag,
            final(self).row_tag_string@ == old(self).row_tag_string@,
            c matches Completion::RowFail(RowValidation::Invalid(x)) ==> index_error(x.message@),
            old(self).k@.len() == 0 && old(self).drop_row_request is None && *old(drop_it) is None
                ==> final(self).drop_row_request is None && *final(drop_it) is None,
            ({
                let line = pushed_line(old(self).current_tag_line.tag_line@, utf8_lossy(e.name@));
                let at_row = is_prefix(old(self).row_tag_string@, line) && old(self).row_tag@ == encode_utf8(line);
                let at_col = is_prefix(old(self).row_tag_string@, line) && opt_bytes_view(old(self).column_tag) == Some(
                    encode_utf8(line),
                );
                at_col && !at_row && old(self).drop_row_request is None && !*old(just_getting_the_header) && c is Continue
                    ==> final(self).col_row_pos_info.current_column_header == column_header_name(
                    final(self).col_row_pos_info.column_index,
                    old(self).reading_range,
                    old(self).header_row.view(),
                    old(self).header_row_vec@,
                )
            }),
            ({
                let line = pushed_line(old(self).current_tag_line.tag_line@, utf8_lossy(e.name@));
                let path = encode_utf8(line);
                let i = index_of(handler_names(old(self).k@), path);
                let attrs = store_user_attrs(attrib_names(old(self).k@[i as int].n.attribs@), attributes_view(*e));
                is_prefix(old(self).row_tag_string@, line) && c is Continue && !*final(just_getting_the_header)
                    && old(self).drop_row_request is None && final(self).col_row_pos_info.in_range && i < old(self).k@.len()
                    ==> {
                    &&& final(self).calls@ == old(self).calls@.push(
                        if old(self).row_tag@ == path {
                            HandlerCall::RowStart(i as int, attrs)
                        } else {
                            HandlerCall::ColumnStart(i as int, attrs)
                        },
                    )
                    &&& final(self).drop_row_request == *final(drop_it)
                }
            }),
            ({
                let line = pushed_line(old(self).current_tag_line.tag_line@, utf8_lossy(e.name@));
                let path = encode_utf8(line);
                let i = index_of(handler_names(old(self).k@), path);
                let attrs = store_user_attrs(attrib_names(old(self).k@[i as int].n.attribs@), attributes_view(*e));
                !is_prefix(old(self).row_tag_string@, line) && !*old(just_getting_the_header)
                    && old(self).drop_row_request is None && i < old(self).k@.len() ==> final(self).calls@
                    == old(self).calls@.push(HandlerCall::OtherTagStart(i as int, attrs))
            }),
            opens_row(*old(self), *e) && !old(self).is_reading_range_defined ==> {
                &&& final(self).can_change_range == old(self).can_change_range
                &&& *final(self).cell == *old(self).cell
            },
            final(self).current_tag_line.tag_line@ == pushed_line(
                old(self).current_tag_line.tag_line@,
                utf8_lossy(e.name@),
            ),
            final(self).current_tag_line.last_tag_sizes@ == old(self).current_tag_line.last_tag_sizes@.push(
                pushed_size(old(self).current_tag_line.tag_line@, utf8_lossy(e.name@)) as usize,
            ),
            final(self).col_row_pos_info.is_sub_of_row == is_prefix(
                old(self).row_tag_string@,
                pushed_line(old(self).current_tag_line.tag_line@, utf8_lossy(e.name@)),
            ),
            ({
                let line = pushed_line(old(self).current_tag_line.tag_line@, utf8_lossy(e.name@));
                let at_row = is_prefix(old(self).row_tag_string@, line) && old(self).row_tag@ == encode_utf8(line);
                &&& at_row && !old(self).is_reading_range_defined ==> (c matches Completion::CriticalFail(err)
                    && err.message@ == "Range needs to be supplied before row/columns can be processed."@)
                &&& c is CriticalFail ==> at_row && !old(self).is_reading_range_defined
                &&& c is EndOfRows ==> at_row && final(self).col_row_pos_info.row_index
                    > final(self).reading_range.row + final(self).reading_range.row_count
                    && !final(self).reading_range.is_row_count_infinite
                &&& c matches Completion::RowFail(r) ==> r is Invalid
                &&& !(c is OkWithRow)
                &&& !is_prefix(old(self).row_tag_string@, line) ==> c is Continue
                &&& opt_bytes_view(old(self).column_tag) != Some(old(self).row_tag@) ==> ((c is EndOfRows) <==> (opens_row(
                    *old(self),
                    *e,
                ) && old(self).is_reading_range_defined && row_update_ok(*old(self), *e) && past_range(
                    final(self).col_row_pos_info.row_index,
                    old(self).reading_range,
                )))
                &&& at_row && old(self).is_reading_range_defined ==> !final(self).can_change_range
                &&& !old(self).can_change_range ==> final(self).reading_range == old(self).reading_range
                    && !final(self).can_change_range
            }),
            ({
                let line = pushed_line(old(self).current_tag_line.tag_line@, utf8_lossy(e.name@));
                let at_row = is_prefix(old(self).row_tag_string@, line) && old(self).row_tag@ == encode_utf8(line);
                let p = old(self).col_row_pos_info;
                let upd = row_index_is_read(old(self).parse_flags);
                let (ri, out) = spec_row_update(
                    p.row_index,
                    p.row_index,
                    p.is_first_row,
                    attributes_view(*e),
                    opt_bytes_view(old(self).row_index_attribute_name),
                );
                let ovf = steps_past_max(
                    p.row_index,
                    p.is_first_row,
                    attributes_view(*e),
                    opt_bytes_view(old(self).row_index_attribute_name),
                );
                let ok = !upd || (!ovf && out is Ok);
                at_row && old(self).is_reading_range_defined && opt_bytes_view(old(self).column_tag) != Some(old(self).row_tag@)
                    ==> {
                    &&& !upd ==> final(self).col_row_pos_info.row_index == p.row_index
                    &&& upd && ovf ==> (c matches Completion::RowFail(RowValidation::Invalid(x))
                        && x.message@ == "Row index is too large!"@)
                    &&& upd && !ovf ==> final(self).col_row_pos_info.row_index == ri
                    &&& (upd && !ovf && out is Err) ==> (c matches Completion::RowFail(RowValidation::Invalid(x))
                        && out == Err::<(), Seq<char>>(x.message@))
                    &&& ok ==> {
                        &&& (c is Continue || c is EndOfRows)
                        &&& (c is EndOfRows) == (final(self).col_row_pos_info.row_index
                            > old(self).reading_range.row + old(self).reading_range.row_count
                            && !old(self).reading_range.is_row_count_infinite)
                        &&& *final(just_getting_the_header) == (*old(just_getting_the_header) || (old(self).drop_row_request is None
                            && old(self).parse_flags.has(ParserFlags::HAS_HEADER)
                            && old(self).reading_range.row == final(self).col_row_pos_info.row_index))
                        &&& final(self).holding_for_x_blank_lines == (if blank_rows_are_given(old(self).parse_flags)
                            && final(self).col_row_pos_info.row_index > p.row_index + 1
                            && row_in_range(final(self).col_row_pos_info.row_index, old(self).reading_range) {
                            (spec_largest(final(self).col_row_pos_info.row_index, old(self).reading_range) - p.row_index) as usize
                        } else {
                            old(self).holding_for_x_blank_lines
                        })
                    }
                }
            }),
            ({
                let line = pushed_line(old(self).current_tag_line.tag_line@, utf8_lossy(e.name@));
                let at_row = is_prefix(old(self).row_tag_string@, line) && old(self).row_tag@ == encode_utf8(line);
                let q = final(self).col_row_pos_info;
                at_row && opt_bytes_view(old(self).column_tag) != Some(old(self).row_tag@) ==> {
                    &&& q.column_index == 0
                    &&& q.is_first_col
                    &&& q.current_column_header is None
                    &&& final(self).reading_range == old(self).reading_range
                    &&& old(self).is_reading_range_defined ==> q.last_row_index == old(self).col_row_pos_info.row_index
                        && !final(self).can_change_range
                    &&& !old(self).is_reading_range_defined ==> final(self).can_change_range == old(self).can_change_range
                }
            }),
            ({
                let line = pushed_line(old(self).current_tag_line.tag_line@, utf8_lossy(e.name@));
                let at_row = is_prefix(old(self).row_tag_string@, line) && old(self).row_tag@ == encode_utf8(line);
                let at_col = is_prefix(old(self).row_tag_string@, line) && opt_bytes_view(old(self).column_tag) == Some(
                    encode_utf8(line),
                );
                let p = old(self).col_row_pos_info;
                at_col && !at_row && old(self).drop_row_request is None ==> {
                    &&& steps_past_max(
                        p.column_index,
                        p.is_first_col,
                        attributes_view(*e),
                        opt_bytes_view(old(self).col_index_attribute_name),
                    ) ==> (c matches Completion::RowFail(RowValidation::Invalid(x))
                        && x.message@ == "Column index is too large!"@)
                    &&& !steps_past_max(
                        p.column_index,
                        p.is_first_col,
                        attributes_view(*e),
                        opt_bytes_view(old(self).col_index_attribute_name),
                    ) ==> match spec_col_update(
                        p.column_index,
                        p.is_first_col,
                        attributes_view(*e),
                        opt_bytes_view(old(self).col_index_attribute_name),
                    ) {
                        Ok(ci) => c is Continue && final(self).col_row_pos_info.column_index == ci
                            && final(self).col_row_pos_info.is_in_col_range == col_in_range(ci, old(self).reading_range),
                        Err(m) => c matches Completion::RowFail(RowValidation::Invalid(x)) && x.message@ == m,
                    }
                }
            }),
    {
        let this_tag = bytes_to_string_lossy(e.name.as_slice());
        self.current_tag_line.modify_start_tag(this_tag);
        let zz = self.current_tag_line.tag_line.clone();
        let vr: &[u8] = zz.as_str().as_bytes();
        self.col_row_pos_info.is_sub_of_row = starts_with(&self.current_tag_line.tag_line, &self.row_tag_string);
        let ghost line = self.current_tag_line.tag_line@;
        let ghost sizes = self.current_tag_line.last_tag_sizes@;
        let ghost sub = self.col_row_pos_info.is_sub_of_row;
        if self.col_row_pos_info.is_sub_of_row {
            if bytes_eq(self.row_tag, vr) {
                match self.begin_row(e, just_getting_the_header) {
                    Some(c) => return c,
                    None => {},
                }
            }
            if let Some(ct) = self.column_tag {
                if bytes_eq(ct, vr) {
                    if self.drop_row_request.is_none() {
                        match self.begin_column(e, *just_getting_the_header) {
                            Some(c) => return c,
                            None => {},
                        }
                    }
                }
            }
            self.update_range_items();
            assert(self.current_tag_line.tag_line@ == line);
            assert(self.current_tag_line.last_tag_sizes@ == sizes);
            assert(self.col_row_pos_info.is_sub_of_row == sub);
            let should_run_user_tag_handler = !*just_getting_the_header && self.drop_row_request.is_none()
                && (self.col_row_pos_info.in_range || !self.col_row_pos_info.is_sub_of_row);
            if should_run_user_tag_handler {
                let mut dims = Radix10Rectange::zero();
                self.run_start_user_tag(vr, e, drop_it, &mut dims);
            } else if *just_getting_the_header && self.drop_row_request.is_none() {
                if let Some(ct) = self.column_tag {
                    if self.col_row_pos_info.in_range && bytes_eq(ct, vr) {
                        self.header_attributes = Self::get_all_tag_attributes(e);
                    }
                }
            }
        } else {
            let should_run_user_tag_handler = !*just_getting_the_header && self.drop_row_request.is_none()
                && (self.col_row_pos_info.in_range || !self.col_row_pos_info.is_sub_of_row);
            if should_run_user_tag_handler {
                let mut dims = self.reading_range;
                self.run_start_user_tag_non_row(vr, e, &mut dims);
            }
        }
        Completion::Continue
    }

    /// Handles the text of a tag: inside the rows, gives it to the tag's handler when the
    /// tag is in range and the row is not dropped, or keeps it as the header name while
    /// reading the header row; outside the rows, gives it to the tag's handler. Text that
    /// could not be unescaped fails the parse where it would be used.
    pub fn run_text_tags(
        &mut self,
        text: &Option<String>,
        just_getting_the_header: &mut bool,
        drop_it: &mut Option<DropRowRequest>,
    ) -> (c: Completion<C>)
        requires
            old(self).inv(),
        ensures
            final(self).inv(),
            final(self).k == old(self).k,
            final(self).holding_for_x_blank_lines == old(self).holding_for_x_blank_lines,
            final(self).row_tag == old(self).row_tag,
            final(self).current_tag_line.tag_line@ == old(self).current_tag_line.tag_line@,
            final(self).current_tag_line.last_tag_sizes@ == old(self).current_tag_line.last_tag_sizes@,
            old(self).k@.len() == 0 && old(self).drop_row_request is None && *old(drop_it) is None
                ==> final(self).drop_row_request is None && *final(drop_it) is None,
            ({
                let p = old(self).col_row_pos_info;
                let path = encode_utf8(old(self).current_tag_line.tag_line@);
                let i = index_of(handler_names(old(self).k@), path);
                p.is_sub_of_row && !*old(just_getting_the_header) && old(self).drop_row_request is None && p.in_range
                    && i < old(self).k@.len() ==> (text matches Some(t) ==> {
                    &&& final(self).calls@ == old(self).calls@.push(HandlerCall::ColumnText(i as int, t@))
                    &&& final(self).drop_row_request == *final(drop_it)
                })
            }),
            ({
                let path = encode_utf8(old(self).current_tag_line.tag_line@);
                let i = index_of(handler_names(old(self).k@), path);
                !old(self).col_row_pos_info.is_sub_of_row && !*old(just_getting_the_header)
                    && old(self).drop_row_request is None && i < old(self).k@.len() ==> (text matches Some(t)
                    ==> final(self).calls@ == old(self).calls@.push(HandlerCall::OtherTagText(i as int, t@)))
            }),
            *final(just_getting_the_header) == *old(just_getting_the_header),
            !old(self).can_change_range ==> final(self).reading_range == old(self).reading_range
                && !final(self).can_change_range,
            c is Continue || (c matches Completion::CriticalFail(err) && err.message@ == "Text could not be unescaped."@ && text is None),
            old(self).col_row_pos_info.is_sub_of_row && *old(just_getting_the_header) && old(self).drop_row_request is None ==> {
                &&& text matches Some(t) ==> final(self).last_header_string@ == t@
                &&& final(self).model() == (ParserModel { last_header_string: final(self).last_header_string@, ..old(self).model() })
                &&& *final(self).cell == *old(self).cell
                &&& final(self).col_row_pos_info.current_column_value == old(self).col_row_pos_info.current_column_value
            },
            ({
                let p = old(self).col_row_pos_info;
                let hdr = *old(just_getting_the_header);
                let run = !hdr && old(self).drop_row_request is None && (p.in_range || !p.is_sub_of_row);
                let handled = index_of(handler_names(old(self).k@), encode_utf8(old(self).current_tag_line.tag_line@))
                    < old(self).k@.len();
                let header_text = p.is_sub_of_row && hdr && old(self).drop_row_request is None;
                &&& c is CriticalFail <==> (text is None && ((run && handled) || header_text))
                &&& !run && !header_text ==> final(self).model() == old(self).model() && *final(self).cell == *old(self).cell
                    && final(self).col_row_pos_info.current_column_value == old(self).col_row_pos_info.current_column_value
                &&& run && !handled ==> final(self).model() == old(self).model() && *final(self).cell == *old(self).cell
                    && final(self).col_row_pos_info.current_column_value == old(self).col_row_pos_info.current_column_value
            }),
    {
        let rwq = self.current_tag_line.tag_line.clone();
        let vr: &[u8] = rwq.as_str().as_bytes();
        proof {
            lemma_index_bound(handler_names(self.k@), vr@);
        }
        let should_run_user_tag_handler = !*just_getting_the_header && self.drop_row_request.is_none()
            && (self.col_row_pos_info.in_range || !self.col_row_pos_info.is_sub_of_row);
        if self.col_row_pos_info.is_sub_of_row {
            if should_run_user_tag_handler {
                match text {
                    Some(t) => self.run_text_user_tag(vr, t.as_str(), drop_it),
                    None => {
                        if self.find_handler(vr).is_some() {
                            return Completion::CriticalFail(CreateParserError::from("Text could not be unescaped."));
                        }
                    },
                }
            } else if *just_getting_the_header && self.drop_row_request.is_none() {
                match text {
                    Some(t) => {
                        self.last_header_string = t.clone();
                    },
                    None => {
                        return Completion::CriticalFail(CreateParserError::from("Text could not be unescaped."));
                    },
                }
            }
        } else {
            if should_run_user_tag_handler {
                match text {
                    Some(t) => {
                        let mut dims = self.reading_range;
                        self.run_text_user_tag_non_row(vr, t.as_str(), &mut dims);
                    },
                    None => {
                        if self.find_handler(vr).is_some() {
                            return Completion::CriticalFail(CreateParserError::from("Text could not be unescaped."));
                        }
                    },
                }
            }
        }
        Completion::Continue
    }

    /// Whether every cell of the row lies in a column of the reading range.
    fn columns_in_range(&self, rows: &Vec<(usize, C)>) -> (b: bool)
        ensures
            b == cells_in_range(rows@, self.reading_range),
    {
        let mut i: usize = 0;
        while i < rows.len()
            invariant
                i <= rows.len(),
                forall|t: int| 0 <= t < i ==> col_in_range(#[trigger] rows@[t].0, self.reading_range),
            decreases rows.len() - i,
        {
            let c = rows[i].0;
            if !(c >= self.reading_range.column && c - self.reading_range.column < self.reading_range.column_count) {
                return false;
            }
            i = i + 1;
        }
        true
    }

    /// A column tag closes in range: its cell goes to the row; while reading the header
    /// row, its text becomes the column's header name instead (after the tag's handler may
    /// rewrite it, when the flags allow), the first name given to a column index staying.
    fn close_column(
        &mut self,
        vr: &[u8],
        just_getting_the_header: bool,
        drop_it: &mut Option<DropRowRequest>,
        row_data: &mut Vec<(usize, C)>,
    )
        where C: Clone,
        requires
            old(self).inv(),
        ensures
            final(self).inv(),
            final(self).k == old(self).k,
            final(self).holding_for_x_blank_lines == old(self).holding_for_x_blank_lines,
            final(self).row_tag == old(self).row_tag,
            handler_frame(old(self).model(), final(self).model()) || just_getting_the_header,
            final(self).current_tag_line.tag_line@ == old(self).current_tag_line.tag_line@,
            final(self).current_tag_line.last_tag_sizes@ == old(self).current_tag_line.last_tag_sizes@,
            final(self).col_row_pos_info.is_sub_of_row == old(self).col_row_pos_info.is_sub_of_row,
            final(self).col_row_pos_info.is_in_row_range == old(self).col_row_pos_info.is_in_row_range,
            final(self).row_tag@ == old(self).row_tag@,
            final(self).column_tag == old(self).column_tag,
            final(self).parse_flags == old(self).parse_flags,
            !old(self).can_change_range ==> final(self).reading_range == old(self).reading_range
                && !final(self).can_change_range,
            index_of(handler_names(old(self).k@), vr@) == old(self).k@.len() ==> final(self).drop_row_request
                == old(self).drop_row_request && *final(drop_it) == *old(drop_it),
            !just_getting_the_header ==> final(self).calls@ == old(self).calls@ && *final(drop_it) == *old(drop_it),
            ({
                let i = index_of(handler_names(old(self).k@), vr@);
                &&& just_getting_the_header && old(self).parse_flags.has(ParserFlags::MODIFY_HEADER) && i < old(self).k@.len()
                    ==> final(self).calls@ == old(self).calls@.push(HandlerCall::ColumnHeader(i as int))
                    && final(self).drop_row_request == *final(drop_it)
                &&& just_getting_the_header && !(old(self).parse_flags.has(ParserFlags::MODIFY_HEADER) && i < old(self).k@.len())
                    ==> final(self).calls@ == old(self).calls@
            }),
            !just_getting_the_header ==> {
                &&& final(self).model() == old(self).model()
                &&& final(row_data)@.len() == old(row_data)@.len() + 1
                &&& final(row_data)@.drop_last() == old(row_data)@
                &&& final(row_data)@.last().0 == old(self).col_row_pos_info.column_index
            },
            just_getting_the_header ==> {
                &&& final(row_data)@ == old(row_data)@
                &&& final(self).header_row_vec@ == old(self).header_row_vec@.push(final(self).last_header_string)
                &&& final(self).header_row.view() == insert_absent(
                    old(self).header_row.view(),
                    final(self).last_header_string@,
                    old(self).col_row_pos_info.column_index,
                )
            },
    {
        if !just_getting_the_header {
            let v = self.col_row_pos_info.current_column_value.clone();
            row_data.push((self.col_row_pos_info.column_index, v));
        } else {
            if self.parse_flags.contains(ParserFlags::MODIFY_HEADER) {
                match self.find_handler(vr) {
                    Some(i) => {
                        let mut sti = StateInfo { cell_info: CellInfoLocation::new(
                            &self.col_row_pos_info,
                            true,
                            self.is_reading_range_defined,
                            clone_request(drop_it),
                            Radix10Rectange::zero(),
                            &self.header_row,
                            false,
                        ) };
                        let cv = &mut self.col_row_pos_info.current_column_value;
                        self.k[i].f.call(
                            &mut *self.cell,
                            InputTagType::ColumnHeader(cv, &mut self.last_header_string, &mut self.header_attributes, &mut sti),
                        );
                        self.calls = Ghost(self.calls@.push(HandlerCall::ColumnHeader(i as int)));
                        let ms = sti.cell_info.ms;
                        let was_ok = sti.cell_info.was_dimension_call_successfull && ms.is_wf();
                        *drop_it = clone_request(&sti.cell_info.c);
                        if self.can_change_range {
                            if was_ok {
                                if self.is_reading_range_defined {
                                    self.reading_range = ms;
                                }
                            }
                        }
                        self.drop_row_request = clone_request(drop_it);
                    },
                    None => {},
                }
            }
            self.header_row_vec.push(self.last_header_string.clone());
            self.header_row.insert_if_absent(self.last_header_string.clone(), self.col_row_pos_info.column_index);
        }
    }

    /// The row tag closed with the row to be returned: the row's cells laid out over the
    /// reading range, or the dropped row's error, handed to the row's handler when it is
    /// due; while reading the header row, the header (when the flags ask for it), which the
    /// row's handler may refuse, failing the parse.
    fn finish_row(
        &mut self,
        vr: &[u8],
        just_getting_the_header: &mut bool,
        drop_it: &mut Option<DropRowRequest>,
        row_data: &Vec<(usize, C)>,
    ) -> (c: Completion<C>)
        where C: Default + Clone,
        requires
            old(self).inv(),
        ensures
            final(self).inv(),
            final(self).k == old(self).k,
            final(self).holding_for_x_blank_lines == old(self).holding_for_x_blank_lines,
            final(self).row_tag == old(self).row_tag,
            final(self).current_tag_line.tag_line@ == old(self).current_tag_line.tag_line@,
            final(self).current_tag_line.last_tag_sizes@ == old(self).current_tag_line.last_tag_sizes@,
            !*final(just_getting_the_header),
            !old(self).can_change_range ==> final(self).reading_range == old(self).reading_range
                && !final(self).can_change_range,
            index_of(handler_names(old(self).k@), vr@) == old(self).k@.len() ==> (c matches Completion::OkWithRow(
                RowValidation::Valid(v),
            ) ==> v@.len() == final(self).reading_range.column_count),
            c is Continue || c is OkWithRow || c is CriticalFail,
            *old(just_getting_the_header) ==> {
                &&& final(self).header_row.view() == old(self).header_row.view()
                &&& c matches Completion::OkWithRow(r) ==> (r matches RowValidation::Header(h) && h.view() == old(self).header_row.view())
                &&& !(c matches Completion::OkWithRow(RowValidation::Valid(_)))
                &&& !(c matches Completion::OkWithRow(RowValidation::Invalid(_)))
                &&& (c is Continue <==> !old(self).parse_flags.has(ParserFlags::RETURN_HEADER))
                &&& !final(self).col_row_pos_info.is_first_row
                &&& old(self).parse_flags.has(ParserFlags::RETURN_HEADER) && index_of(handler_names(old(self).k@), vr@)
                    == old(self).k@.len() ==> (c matches Completion::OkWithRow(RowValidation::Header(h))
                    && h.view() == old(self).header_row.view())
            },
            index_of(handler_names(old(self).k@), vr@) == old(self).k@.len() ==> final(self).drop_row_request
                == old(self).drop_row_request,
            *old(just_getting_the_header) && old(self).parse_flags.has(ParserFlags::RETURN_HEADER) && vr@ == old(self).row_tag@
                && index_of(handler_names(old(self).k@), vr@) < old(self).k@.len() ==> header_answered(
                old(self).calls@,
                final(self).calls@,
                index_of(handler_names(old(self).k@), vr@) as int,
                old(self).header_row.view(),
                c,
            ),
            ({
                let i = index_of(handler_names(old(self).k@), vr@);
                !*old(just_getting_the_header) && old(self).drop_row_request is None && cells_in_range(
                    row_data@,
                    old(self).reading_range,
                ) && vr@ == old(self).row_tag@ && old(self).call_end_row_user_func && i < old(self).k@.len() ==> {
                    &&& c is OkWithRow
                    &&& final(self).calls@.len() == old(self).calls@.len() + 1
                    &&& final(self).calls@.drop_last() == old(self).calls@
                    &&& final(self).calls@.last() matches HandlerCall::RowComplete(h, given)
                    &&& h == i
                    &&& given matches RowValidation::Valid(v)
                    &&& laid_out(v@, row_data@, old(self).reading_range)
                }
            }),
            ({
                let i = index_of(handler_names(old(self).k@), vr@);
                old(self).drop_row_request matches Some(DropRowRequest::Error(m)) ==> (!*old(just_getting_the_header)
                    && vr@ == old(self).row_tag@ && old(self).call_end_row_user_func && i < old(self).k@.len() ==> {
                    &&& c is OkWithRow
                    &&& final(self).calls@.len() == old(self).calls@.len() + 1
                    &&& final(self).calls@.drop_last() == old(self).calls@
                    &&& final(self).calls@.last() matches HandlerCall::RowComplete(h, given)
                    &&& h == i
                    &&& given matches RowValidation::Invalid(e)
                    &&& e.message@ == m@
                })
            }),
            index_of(handler_names(old(self).k@), vr@) == old(self).k@.len() ==> *final(drop_it) == *old(drop_it),
            index_of(handler_names(old(self).k@), vr@) == old(self).k@.len() ==> !(c is CriticalFail) && !(c matches Completion::OkWithRow(
                RowValidation::CriticalFail(_),
            )),
            !*old(just_getting_the_header) && index_of(handler_names(old(self).k@), vr@) == old(self).k@.len() ==> {
                &&& old(self).drop_row_request is None ==> finished_row(c, row_data@, old(self).reading_range)
                &&& old(self).drop_row_request matches Some(DropRowRequest::Error(m)) ==> (c matches Completion::OkWithRow(RowValidation::Invalid(e))
                    && e.message@ == m@)
            },
    {
        if !*just_getting_the_header {
            if self.drop_row_request.is_none() {
                if !self.columns_in_range(row_data) {
                    return Completion::OkWithRow(RowValidation::Invalid(
                        CreateParserError::from("Column index outside of the reading range."),
                    ));
                }
                let mut data = self.sort_columns_for_return(row_data);
                if bytes_eq(self.row_tag, vr) && self.call_end_row_user_func {
                    self.run_end_user_row_tag(vr, drop_it, &mut data);
                    proof {
                        lemma_index_bound(handler_names(old(self).k@), vr@);
                        if self.calls@.len() > old(self).calls@.len() {
                            assert(self.calls@.drop_last() =~= old(self).calls@);
                        }
                    }
                }
                return Completion::OkWithRow(data);
            } else {
                let req = clone_request(&self.drop_row_request);
                if let Some(DropRowRequest::Error(errz)) = req {
                    let mut data = RowValidation::Invalid(CreateParserError::from(errz.as_str()));
                    if bytes_eq(self.row_tag, vr) && self.call_end_row_user_func {
                        self.run_end_user_row_tag(vr, drop_it, &mut data);
                        proof {
                            lemma_index_bound(handler_names(old(self).k@), vr@);
                            if self.calls@.len() > old(self).calls@.len() {
                                assert(self.calls@.drop_last() =~= old(self).calls@);
                            }
                        }
                    }
                    return Completion::OkWithRow(data);
                }
            }
        } else {
            self.col_row_pos_info.is_first_row = false;
            *just_getting_the_header = false;
            if self.parse_flags.contains(ParserFlags::RETURN_HEADER) {
                let data = RowValidation::Header(self.header_row.duplicate());
                if bytes_eq(self.row_tag, vr) {
                    match self.find_handler(vr) {
                        Some(i) => {
                            let mut c_err = HeaderCompleteHandler::new();
                            let hr = self.header_row.duplicate();
                            let ghost header = hr.view();
                            self.k[i].f.call(&mut *self.cell, InputTagType::HeaderComplete(hr, &mut c_err));
                            self.calls = Ghost(self.calls@.push(HandlerCall::HeaderComplete(
                                i as int,
                                header,
                                c_err.cancel,
                                c_err.reason@,
                            )));
                            proof {
                                if self.calls@.len() > old(self).calls@.len() {
                                    assert(self.calls@.drop_last() =~= old(self).calls@);
                                }
                            }
                            if c_err.cancel {
                                return Completion::CriticalFail(CreateParserError { message: c_err.reason });
                            }
                        },
                        None => {},
                    }
                }
                return Completion::OkWithRow(data);
            }
        }
        Completion::Continue
    }

    /// Handles an end tag: gives it to the tag's handler when the tag is in range and the
    /// row is not dropped (for the row tag, only marks the row's handler as due); closes
    /// the column at the column tag; at the row tag in range, decides whether the row is
    /// returned, returned as dropped with an error, or skipped; shortens the tag path; and
    /// returns the finished row or header.
    pub fn run_end_tags(
        &mut self,
        just_getting_the_header: &mut bool,
        drop_it: &mut Option<DropRowRequest>,
        row_data: &mut Vec<(usize, C)>,
    ) -> (c: Completion<C>)
        where C: Default + Clone,
        requires
            old(self).inv(),
        ensures
            final(self).inv(),
            final(self).k == old(self).k,
            final(self).holding_for_x_blank_lines == old(self).holding_for_x_blank_lines,
            final(self).row_tag == old(self).row_tag,
            final(self).current_tag_line.tag_line@ == popped_line(
                old(self).current_tag_line.tag_line@,
                old(self).current_tag_line.last_tag_sizes@,
            ),
            final(self).current_tag_line.last_tag_sizes@ == (if old(self).current_tag_line.last_tag_sizes@.len() == 0 {
                old(self).current_tag_line.last_tag_sizes@
            } else {
                old(self).current_tag_line.last_tag_sizes@.drop_last()
            }),
            old(self).k@.len() == 0 && old(self).drop_row_request is None && *old(drop_it) is None
                ==> final(self).drop_row_request is None && *final(drop_it) is None,
            ({
                let p = old(self).col_row_pos_info;
                let at_row = old(self).row_tag@ == encode_utf8(old(self).current_tag_line.tag_line@);
                let no_row_handler = index_of(handler_names(old(self).k@), old(self).row_tag@) == old(self).k@.len();
                p.is_sub_of_row && at_row && p.is_in_row_range && !*old(just_getting_the_header) && no_row_handler
                    && old(self).drop_row_request is None ==> finished_row(c, final(row_data)@, old(self).reading_range)
            }),
            c is Continue || c is OkWithRow || c is CriticalFail,
            *old(just_getting_the_header) ==> (c matches Completion::OkWithRow(r) ==> (r matches RowValidation::Header(h)
                && h.view() == final(self).header_row.view())),
            ({
                let p = old(self).col_row_pos_info;
                let at_row = old(self).row_tag@ == encode_utf8(old(self).current_tag_line.tag_line@);
                let handler = index_of(handler_names(old(self).k@), old(self).row_tag@);
                p.is_sub_of_row && at_row && p.is_in_row_range && *old(just_getting_the_header) && opt_bytes_view(
                    old(self).column_tag,
                ) != Some(old(self).row_tag@) && old(self).drop_row_request is None && old(self).parse_flags.has(
                    ParserFlags::RETURN_HEADER,
                ) && handler < old(self).k@.len() ==> header_answered(
                    old(self).calls@,
                    final(self).calls@,
                    handler as int,
                    old(self).header_row.view(),
                    c,
                )
            }),
            ({
                let p = old(self).col_row_pos_info;
                let path = encode_utf8(old(self).current_tag_line.tag_line@);
                let i = index_of(handler_names(old(self).k@), path);
                p.is_sub_of_row && path != old(self).row_tag@ && !*old(just_getting_the_header)
                    && old(self).drop_row_request is None && p.in_range && i < old(self).k@.len() ==> {
                    &&& final(self).calls@ == old(self).calls@.push(HandlerCall::ColumnEnd(i as int))
                    &&& final(self).drop_row_request == *final(drop_it)
                }
            }),
            ({
                let p = old(self).col_row_pos_info;
                let at_row = old(self).row_tag@ == encode_utf8(old(self).current_tag_line.tag_line@);
                let i = index_of(handler_names(old(self).k@), old(self).row_tag@);
                p.is_sub_of_row && at_row && p.is_in_row_range && p.in_range && !*old(just_getting_the_header)
                    && old(self).drop_row_request is None && i < old(self).k@.len() && cells_in_range(
                    final(row_data)@,
                    old(self).reading_range,
                ) ==> {
                    &&& c is OkWithRow
                    &&& final(self).calls@.len() == old(self).calls@.len() + 1
                    &&& final(self).calls@.drop_last() == old(self).calls@
                    &&& final(self).calls@.last() matches HandlerCall::RowComplete(h, given)
                    &&& h == i
                    &&& given matches RowValidation::Valid(v)
                    &&& laid_out(v@, final(row_data)@, old(self).reading_range)
                }
            }),
            ({
                let path = encode_utf8(old(self).current_tag_line.tag_line@);
                let i = index_of(handler_names(old(self).k@), path);
                !old(self).col_row_pos_info.is_sub_of_row && !*old(just_getting_the_header)
                    && old(self).drop_row_request is None && i < old(self).k@.len() ==> final(self).calls@
                    == old(self).calls@.push(HandlerCall::OtherTagEnd(i as int))
            }),
            ({
                let p = old(self).col_row_pos_info;
                let path = encode_utf8(old(self).current_tag_line.tag_line@);
                let i = index_of(handler_names(old(self).k@), path);
                p.is_sub_of_row && opt_bytes_view(old(self).column_tag) == Some(path) && path != old(self).row_tag@
                    && *old(just_getting_the_header) && old(self).drop_row_request is None && p.in_range
                    && old(self).parse_flags.has(ParserFlags::MODIFY_HEADER) && i < old(self).k@.len() ==> final(self).calls@
                    == old(self).calls@.push(HandlerCall::ColumnHeader(i as int))
            }),
            !old(self).can_change_range ==> final(self).reading_range == old(self).reading_range
                && !final(self).can_change_range,
            index_of(handler_names(old(self).k@), old(self).row_tag@) == old(self).k@.len() ==> (c matches Completion::OkWithRow(
                RowValidation::Valid(v),
            ) ==> v@.len() == final(self).reading_range.column_count),
            index_of(handler_names(old(self).k@), old(self).row_tag@) == old(self).k@.len() ==> !(c is CriticalFail) && !(
            c matches Completion::OkWithRow(RowValidation::CriticalFail(_))),
            ({
                let p = old(self).col_row_pos_info;
                let at_row = old(self).row_tag@ == encode_utf8(old(self).current_tag_line.tag_line@);
                let no_row_handler = index_of(handler_names(old(self).k@), old(self).row_tag@) == old(self).k@.len();
                let col_apart = opt_bytes_view(old(self).column_tag) != Some(old(self).row_tag@);
                &&& !(p.is_sub_of_row && at_row && p.is_in_row_range) ==> c is Continue
                &&& p.is_sub_of_row && at_row && col_apart && opt_bytes_view(old(self).column_tag) is Some
                    ==> final(row_data)@ == old(row_data)@
                &&& (p.is_sub_of_row && at_row && p.is_in_row_range
                    && old(self).drop_row_request matches Some(DropRowRequest::Ignore)) ==> {
                    &&& c is Continue
                    &&& final(self).drop_row_request is None
                    &&& *final(drop_it) is None
                    &&& final(row_data)@ == old(row_data)@
                    &&& *final(self).cell == *old(self).cell
                    &&& final(self).col_row_pos_info.current_column_value == old(self).col_row_pos_info.current_column_value
                }
                &&& p.is_sub_of_row && at_row && p.is_in_row_range && !*old(just_getting_the_header) && no_row_handler ==> {
                    &&& old(self).drop_row_request is None ==> (c matches Completion::OkWithRow(r) && (r is Valid || r is Invalid)
                        && (r matches RowValidation::Valid(v) ==> v@.len() == old(self).reading_range.column_count))
                    &&& old(self).drop_row_request matches Some(DropRowRequest::Error(m)) ==> (c matches Completion::OkWithRow(
                        RowValidation::Invalid(e),
                    ) && e.message@ == m@ && *final(drop_it) is None && final(row_data)@ == old(row_data)@)
                    &&& old(self).drop_row_request is None && opt_bytes_view(old(self).column_tag) is Some && col_apart
                        ==> finished_row(c, old(row_data)@, old(self).reading_range)
                }
                &&& (p.is_sub_of_row && at_row && p.is_in_row_range && *old(just_getting_the_header) && col_apart
                    && old(self).drop_row_request is None) ==> {
                    &&& !*final(just_getting_the_header)
                    &&& !final(self).col_row_pos_info.is_first_row
                    &&& final(self).header_row.view() == old(self).header_row.view()
                    &&& !old(self).parse_flags.has(ParserFlags::RETURN_HEADER) ==> c is Continue
                    &&& old(self).parse_flags.has(ParserFlags::RETURN_HEADER) ==> (c is CriticalFail || (c matches Completion::OkWithRow(
                        RowValidation::Header(h),
                    ) && h.view() == old(self).header_row.view()))
                    &&& old(self).parse_flags.has(ParserFlags::RETURN_HEADER) && no_row_handler ==> (c matches Completion::OkWithRow(
                        RowValidation::Header(h),
                    ) && h.view() == old(self).header_row.view())
                }
            }),
    {
        let rwq = self.current_tag_line.tag_line.clone();
        let vr: &[u8] = rwq.as_str().as_bytes();
        if self.col_row_pos_info.is_sub_of_row {
            let mut set_row_break = false;
            let should_run_user_tag_handler = !*just_getting_the_header && self.drop_row_request.is_none()
                && (self.col_row_pos_info.in_range || !self.col_row_pos_info.is_sub_of_row);
            if should_run_user_tag_handler {
                if bytes_eq(self.row_tag, vr) {
                    self.call_end_row_user_func = true;
                } else {
                    self.run_end_user_tag(vr, drop_it);
                }
            }
            if let Some(ct) = self.column_tag {
                if bytes_eq(ct, vr) && self.drop_row_request.is_none() && self.col_row_pos_info.in_range {
                    self.close_column(vr, *just_getting_the_header, drop_it, row_data);
                }
            }
            if bytes_eq(self.row_tag, vr) && self.col_row_pos_info.is_in_row_range {
                if self.drop_row_request.is_none() {
                    if self.column_tag.is_none() {
                        let v = self.col_row_pos_info.current_column_value.clone();
                        row_data.push((self.col_row_pos_info.column_index, v));
                    }
                    set_row_break = true;
                } else if let Some(DropRowRequest::Error(_)) = &self.drop_row_request {
                    set_row_break = true;
                    *drop_it = None;
                } else {
                    *drop_it = None;
                    self.drop_row_request = None;
                }
            }
            self.current_tag_line.pop_tag();
            if set_row_break {
                let ghost line = self.current_tag_line.tag_line@;
                let c = self.finish_row(vr, just_getting_the_header, drop_it, &*row_data);
                return c;
            }
        } else {
            self.current_tag_line.pop_tag();
            let should_run_user_tag_handler = !*just_getting_the_header && self.drop_row_request.is_none()
                && (self.col_row_pos_info.in_range || !self.col_row_pos_info.is_sub_of_row);
            if should_run_user_tag_handler {
                let mut dims = self.reading_range;
                self.run_end_user_tag_non_row(vr, &mut dims);
            }
        }
        Completion::Continue
    }

    /// How many rows count as present when rows were skipped: the current row index, but
    /// no further than the first row past the reading range. With range row 10 and 2 rows,
    /// a row index of 14 gives 12.
    pub fn get_largest_avalable_empty_lines(parser_data: &ParserData<S, C>) -> (n: usize)
        requires
            parser_data.reading_range.wf(),
        ensures
            n == spec_largest(parser_data.col_row_pos_info.row_index, parser_data.reading_range),
    {
        if !parser_data.reading_range.is_row_count_infinite {
            if parser_data.col_row_pos_info.row_index > parser_data.reading_range.row
                + parser_data.reading_range.row_count {
                parser_data.reading_range.row + parser_data.reading_range.row_count
            } else {
                parser_data.col_row_pos_info.row_index
            }
        } else {
            parser_data.col_row_pos_info.row_index
        }
    }
}

} // verus!
