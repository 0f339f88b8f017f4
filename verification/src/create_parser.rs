//! The parser: reads an XML sheet row by row, calling the user's tag handlers on the way.
use vstd::prelude::*;
use vstd::utf8::encode_utf8;
use crate::completion::Completion;
use crate::create_parser_error::CreateParserError;
use crate::drop_row_request::DropRowRequest;
use crate::helpers::{
    attribs_view, get_relative_name_parts, index_of, lemma_index_bound, lemma_index_prefix, lemma_index_push_self,
    name_parts_of, spec_attrib, spec_attrib_names, spec_name, RelativeNameParts,
};
use crate::col_row_position_info::{index_error, opt_bytes_view};
use crate::parser_data::{
    cells_in_range, default_cells, fresh, handler_names, is_default, laid_out, opens_row, past_range, row_update_ok,
    ParserData,
};
use crate::parser_flags::ParserFlags;
use crate::radix10::{range_fits, spec_rect, Radix10Error, Radix10Rectange};
use crate::row_validation::RowValidation;
use crate::tag_handler::TagHandler;
use crate::current_tag_line::{popped_line, pushed_line, pushed_size};
use crate::text::{bytes_starts_with, utf8_lossy};
use crate::xml_event::{
    event_of, next_event, reader_expand_empty_elements, reader_from_str, reader_trim_text, xml_event_at, XmlEvent,
    XmlEventView, XmlSource,
};
use crate::xml_reading_range::XmlReadingRange;

verus! {

/// Why a parser could not be set up: the column description does not lie under the row
/// description, or the reading range could not be read.
pub enum CreateParserNewError {
    Parser(CreateParserError),
    Range(Radix10Error),
}

/// Reads an XML sheet (such as an xlsx worksheet) row by row: `next` gives each row of the
/// reading range, with the cells built by the tag handlers added with `add`.
#[verifier::reject_recursive_types(S)]
#[verifier::reject_recursive_types(C)]
pub struct CreateParser<'a, 'b, S, C> {
    parser_data: ParserData<'b, S, C>,
    f_reader: XmlSource<'a>,
    has_critical_error: bool,
    events_left: usize,
}

/// The column description lies under the row description and is longer than it.
pub open spec fn column_under_row(row_tag: Seq<u8>, column_tag: Seq<u8>) -> bool {
    let r = spec_name(row_tag);
    let c = spec_name(column_tag);
    r.len() <= c.len() && c.take(r.len() as int) == r && r.len() < c.len()
}

/// No handler was added for the row tag, so no handler can replace a finished row.
pub open spec fn no_row_handler<'b, S, C>(d: ParserData<'b, S, C>) -> bool {
    index_of(handler_names(d.k@), d.row_tag@) == d.k@.len()
}

/// The handlers after adding `f`: unchanged when a handler for its tag path is there already.
pub open spec fn with_handler<'b, S, C>(k: Seq<TagHandler<'b, S, C>>, f: TagHandler<'b, S, C>) -> Seq<
    TagHandler<'b, S, C>,
> {
    if index_of(handler_names(k), f.n.name@) < k.len() {
        k
    } else {
        k.push(f)
    }
}

/// The handlers after adding each of `j` in turn.
pub open spec fn with_handlers<'b, S, C>(k: Seq<TagHandler<'b, S, C>>, j: Seq<TagHandler<'b, S, C>>) -> Seq<
    TagHandler<'b, S, C>,
>
    decreases j.len(),
{
    if j.len() == 0 {
        k
    } else {
        with_handler(with_handlers(k, j.drop_last()), j.last())
    }
}

/// The end tag about to be read closes a row of the range that is neither the header row
/// nor dropped, in a parser with a column tag and no handler on the row tag: the row's
/// cells are given as they were read.
pub open spec fn closes_plain_row<'b, S, C>(d: ParserData<'b, S, C>, reading_header: bool) -> bool {
    let p = d.col_row_pos_info;
    &&& p.is_sub_of_row
    &&& d.row_tag@ == encode_utf8(d.current_tag_line.tag_line@)
    &&& p.is_in_row_range
    &&& !reading_header
    &&& no_row_handler(d)
    &&& d.drop_row_request is None
    &&& opt_bytes_view(d.column_tag) is Some
    &&& opt_bytes_view(d.column_tag) != Some(d.row_tag@)
}

/// The rows have ended: the tag path is the row tag and the row index lies past the end
/// of a bounded range.
pub open spec fn rows_ended<'b, S, C>(d: ParserData<'b, S, C>) -> bool {
    &&& d.row_tag@ == encode_utf8(d.current_tag_line.tag_line@)
    &&& past_range(d.col_row_pos_info.row_index, d.reading_range)
}

/// The end tag about to be read closes the header row of the range, which no handler
/// dropped, in a parser whose column tag differs from its row tag.
pub open spec fn closes_header_row<'b, S, C>(d: ParserData<'b, S, C>, reading_header: bool) -> bool {
    let p = d.col_row_pos_info;
    &&& p.is_sub_of_row
    &&& d.row_tag@ == encode_utf8(d.current_tag_line.tag_line@)
    &&& p.is_in_row_range
    &&& reading_header
    &&& d.drop_row_request is None
    &&& opt_bytes_view(d.column_tag) != Some(d.row_tag@)
}

/// A finished row as `next` gives it: laid out over the columns of the range, or refused
/// when a cell lies outside them.
pub open spec fn given_row<C: Default + Clone>(r: Option<Option<RowValidation<C>>>, rows: Seq<(usize, C)>, range: Radix10Rectange) -> bool {
    if cells_in_range(rows, range) {
        r matches Some(Some(RowValidation::Valid(v))) && laid_out(v@, rows, range)
    } else {
        r matches Some(Some(RowValidation::Invalid(e))) && e.message@ == "Column index outside of the reading range."@
    }
}

/// The tag path and the sizes recorded for it after the first `n` events of `doc`: a start
/// tag appends its name, an end tag takes off the last name, other events leave it.
pub open spec fn path_after(doc: Seq<char>, n: nat) -> (Seq<char>, Seq<usize>)
    decreases n,
{
    if n == 0 {
        (Seq::empty(), Seq::empty())
    } else {
        let (line, sizes) = path_after(doc, (n - 1) as nat);
        match xml_event_at(doc, (n - 1) as nat) {
            XmlEventView::Start(name, _) => (
                pushed_line(line, utf8_lossy(name)),
                sizes.push(pushed_size(line, utf8_lossy(name)) as usize),
            ),
            XmlEventView::End => (popped_line(line, sizes), if sizes.len() == 0 {
                sizes
            } else {
                sizes.drop_last()
            }),
            _ => (line, sizes),
        }
    }
}

/// The attribute that gives the index of a row or a column: the one attribute of its
/// description, when it names exactly one.
pub open spec fn index_attribute(description: Seq<u8>) -> Option<Seq<u8>> {
    if spec_attrib_names(description).len() == 1 {
        Some(spec_attrib(spec_attrib_names(description)[0]).0)
    } else {
        None
    }
}

pub open spec fn msg_column_not_under_row() -> Seq<char> {
    "Make new error type but the column tag needs to be a subset of the row tag "@
}

impl<'a, 'b, S, C> CreateParser<'a, 'b, S, C> {
    /// The state of the parser.
    pub closed spec fn data(&self) -> ParserData<'b, S, C> {
        self.parser_data
    }

    /// Whether the parse has ended with a critical failure.
    pub closed spec fn failed(&self) -> bool {
        self.has_critical_error
    }

    /// How many more events the parser reads from the document at most.
    pub closed spec fn remaining_events(&self) -> usize {
        self.events_left
    }

    /// The text of the document being read.
    pub closed spec fn document(&self) -> Seq<char> {
        self.f_reader.doc()
    }

    /// How many events of the document have been read.
    pub closed spec fn position(&self) -> nat {
        self.f_reader.pos()
    }

    /// The event of the document at `i`, as plain values.
    pub open spec fn event_at(&self, i: nat) -> XmlEventView {
        xml_event_at(self.document(), i)
    }

    /// What the parser keeps consistent: its state, and a reader that expands empty
    /// elements and trims text.
    pub closed spec fn state_ok(&self) -> bool {
        &&& self.parser_data.inv()
        &&& self.f_reader.configured()
    }

    /// The tag path is that of the events read so far.
    pub open spec fn tracks_path(&self) -> bool {
        &&& self.data().current_tag_line.tag_line@ == path_after(self.document(), self.position()).0
        &&& self.data().current_tag_line.last_tag_sizes@ == path_after(self.document(), self.position()).1
    }

    /// What the parser keeps between calls: a consistent state whose tag path is that of
    /// the events read so far.
    pub open spec fn inv(&self) -> bool {
        &&& self.state_ok()
        &&& self.tracks_path()
        &&& self.data().k@.len() == 0 ==> self.data().drop_row_request is None
    }

    /// Adds a handler, unless one was already added for the same tag path.
    pub fn add(&mut self, f: TagHandler<'b, S, C>)
        requires
            old(self).inv(),
        ensures
            final(self).inv(),
            final(self).failed() == old(self).failed(),
            final(self).data().model() == old(self).data().model(),
            final(self).data().k@ == with_handler(old(self).data().k@, f),
            final(self).remaining_events() == old(self).remaining_events(),
            final(self).document() == old(self).document(),
            final(self).position() == old(self).position(),
            *final(self).data().cell == *old(self).data().cell,
            final(self).data().col_row_pos_info == old(self).data().col_row_pos_info,
    {
        match self.parser_data.find_handler(f.n.name) {
            Some(_) => {},
            None => {
                self.parser_data.k.push(f);
            },
        }
    }

    /// Adds each handler in turn.
    pub fn add_many(&mut self, j: Vec<TagHandler<'b, S, C>>)
        requires
            old(self).inv(),
        ensures
            final(self).inv(),
            final(self).failed() == old(self).failed(),
            final(self).data().model() == old(self).data().model(),
            final(self).data().k@ == with_handlers(old(self).data().k@, j@),
            final(self).remaining_events() == old(self).remaining_events(),
            final(self).document() == old(self).document(),
            final(self).position() == old(self).position(),
            *final(self).data().cell == *old(self).data().cell,
            final(self).data().col_row_pos_info == old(self).data().col_row_pos_info,
            forall|i: int| 0 <= i < j@.len() ==> index_of(handler_names(final(self).data().k@), #[trigger] j@[i].n.name@)
                < final(self).data().k@.len(),
    {
        let mut j = j;
        let ghost all = j@;
        let ghost start = self.parser_data.k@.len();
        let mut n: usize = 0;
        assert(all.len() == j.len());
        assert(all.take(0) =~= Seq::<TagHandler<'b, S, C>>::empty());
        while j.len() > 0
            invariant
                self.inv(),
                self.failed() == old(self).failed(),
                self.data().model() == old(self).data().model(),
                j@ == all.skip(n as int),
                n <= all.len(),
                start == old(self).data().k@.len(),
                start <= self.data().k@.len() <= start + n,
                all.len() <= usize::MAX,
                self.data().k@ == with_handlers(old(self).data().k@, all.take(n as int)),
                self.remaining_events() == old(self).remaining_events(),
                self.document() == old(self).document(),
                self.position() == old(self).position(),
                *self.data().cell == *old(self).data().cell,
                self.data().col_row_pos_info == old(self).data().col_row_pos_info,
                forall|i: int| 0 <= i < n ==> index_of(handler_names(self.data().k@), #[trigger] all[i].n.name@)
                    < self.data().k@.len(),
            decreases j@.len(),
        {
            assert(j@[0] == all[n as int]);
            let f = j.remove(0);
            let ghost k_before = self.data().k@;
            self.add(f);
            proof {
                lemma_index_bound(handler_names(k_before), f.n.name@);
                if self.data().k@ != k_before {
                    assert(self.data().k@.take(k_before.len() as int) =~= k_before);
                }
                assert(j@ =~= all.skip(n + 1));
                assert(all.take(n + 1).drop_last() =~= all.take(n as int));
                assert forall|i: int| 0 <= i < n + 1 implies index_of(handler_names(self.data().k@), #[trigger] all[i].n.name@)
                    < self.data().k@.len() by {
                    if i < n {
                        lemma_index_grows(k_before, self.data().k@, all[i].n.name@);
                    } else if self.data().k@ != k_before {
                        lemma_index_push(k_before, f);
                    }
                }
            }
            n = n + 1;
        }
        assert(all.take(n as int) =~= all);
    }

    /// Sets up a parser over the sheet `sheet_file_buffer`: rows are the tags described by
    /// `row_tag` (such as `worksheet/sheetData/row|r|`, whose attribute `r` gives the row
    /// number), cells the tags described by `column_tag` (such as
    /// `worksheet/sheetData/row/c|r|`), which must lie under the row tag; `range` gives the
    /// cells to read, or leaves them to a handler to set before the first row.
    pub fn new(
        sheet_file_buffer: &'a str,
        range: XmlReadingRange,
        s: &'b mut S,
        row_tag: &'b [u8],
        column_tag: Option<&'b [u8]>,
        parser_flags: ParserFlags,
    ) -> (res: Result<Self, CreateParserNewError>)
        where C: Default,
        ensures
            column_tag matches Some(ct) && !column_under_row(row_tag@, ct@) ==> (res matches Err(
                CreateParserNewError::Parser(e),
            ) && e.message@ == msg_column_not_under_row()),
            (column_tag matches Some(ct) ==> column_under_row(row_tag@, ct@)) ==> match range {
                XmlReadingRange::Defined(r) => {
                    &&& !range_fits(r@) ==> (res matches Err(CreateParserNewError::Range(e))
                        && e.message@ == "Index is too large!"@)
                    &&& range_fits(r@) ==> match spec_rect(r@) {
                        Ok(rect) => res matches Ok(p) && p.data().reading_range == rect
                            && p.data().is_reading_range_defined,
                        Err(m) => res matches Err(CreateParserNewError::Range(e)) && e.message@ == m,
                    }
                },
                XmlReadingRange::WillDefineBeforeRows => res matches Ok(p) && !p.data().is_reading_range_defined,
            },
            res matches Ok(p) ==> {
                &&& p.inv()
                &&& !p.failed()
                &&& p.data().k@.len() == 0
                &&& p.data().row_tag@ == spec_name(row_tag@)
                &&& p.document() == sheet_file_buffer@
                &&& p.position() == 0
                &&& opt_bytes_view(p.data().column_tag) == (match column_tag {
                    Some(ct) => Some(spec_name(ct@)),
                    None => None,
                })
                &&& opt_bytes_view(p.data().row_index_attribute_name) == index_attribute(row_tag@)
                &&& opt_bytes_view(p.data().col_index_attribute_name) == (match column_tag {
                    Some(ct) => index_attribute(ct@),
                    None => None,
                })
                &&& p.data().parse_flags == parser_flags
                &&& fresh(p.data())
                &&& range is WillDefineBeforeRows ==> p.data().reading_range == (Radix10Rectange {
                    column: 0,
                    row: 0,
                    column_count: 0,
                    row_count: 0,
                    is_row_count_infinite: false,
                })
            },
    {
        let optional_row_id = get_relative_name_parts(row_tag);
        proof {
            lemma_index_attribute(optional_row_id, row_tag@);
        }
        let col_header_tag: Option<RelativeNameParts<'b>> = match column_tag {
            Some(col_tag) => {
                let ct = get_relative_name_parts(col_tag);
                proof {
                    lemma_index_attribute(ct, col_tag@);
                }
                if !(bytes_starts_with(ct.name, optional_row_id.name) && optional_row_id.name.len() < ct.name.len()) {
                    return Err(CreateParserNewError::Parser(CreateParserError::from(
                        "Make new error type but the column tag needs to be a subset of the row tag ",
                    )));
                }
                Some(ct)
            },
            None => None,
        };
        let read_ran = match range {
            XmlReadingRange::Defined(range_val) => {
                if !Radix10Rectange::fits(range_val) {
                    return Err(CreateParserNewError::Range(Radix10Error::from("Index is too large!")));
                }
                match Radix10Rectange::new(range_val) {
                    Ok(r) => Some(r),
                    Err(e) => return Err(CreateParserNewError::Range(e)),
                }
            },
            XmlReadingRange::WillDefineBeforeRows => None,
        };
        let mut reader = reader_from_str(sheet_file_buffer);
        reader_expand_empty_elements(&mut reader);
        reader_trim_text(&mut reader);
        let n = sheet_file_buffer.len();
        // quick_xml gives at most one event per byte of the document, plus the end tag of
        // each empty element `<a/>` (three bytes at least) and the end of the document
        let events_left = if n <= (usize::MAX - 3) / 2 {
            2 * n + 3
        } else {
            usize::MAX
        };
        let p = CreateParser {
            f_reader: reader,
            parser_data: ParserData::new(s, read_ran, optional_row_id, col_header_tag, parser_flags),
            has_critical_error: false,
            events_left,
        };
        proof {
            assert(p.data().current_tag_line.tag_line@ =~= path_after(p.document(), 0).0);
            assert(p.data().current_tag_line.last_tag_sizes@ =~= path_after(p.document(), 0).1);
        }
        Ok(p)
    }

    /// The next row of the reading range: a `Valid` row of cells, an `Invalid` row (a
    /// handler dropped it, or it could not be read), the `Header` row when the flags ask for
    /// it, or a `CriticalFail` that ends the parse; `None` at the end of the rows. Rows
    /// missing from the document are given as blank rows when the flags ask for it.
    pub fn next(&mut self) -> (r: Option<RowValidation<C>>)
        where C: Default + Clone,
        requires
            old(self).inv(),
        ensures
            final(self).inv(),
            final(self).data().k == old(self).data().k,
            old(self).failed() ==> r is None && final(self).failed(),
            final(self).failed() ==> (old(self).failed() || r matches Some(RowValidation::CriticalFail(_))),
            (no_row_handler(old(self).data()) && r matches Some(RowValidation::CriticalFail(_))) ==> final(self).failed(),
            !old(self).data().can_change_range ==> final(self).data().reading_range == old(self).data().reading_range
                && !final(self).data().can_change_range,
            no_row_handler(old(self).data()) ==> (r matches Some(RowValidation::Valid(v)) ==> v@.len()
                == final(self).data().reading_range.column_count),
            old(self).failed() ==> *final(self) == *old(self),
            final(self).document() == old(self).document(),
            final(self).position() >= old(self).position(),
            final(self).position() - old(self).position() == old(self).remaining_events() - final(self).remaining_events(),
            !old(self).failed() && old(self).data().holding_for_x_blank_lines == 0 && old(self).remaining_events() > 0
                ==> final(self).position() > old(self).position(),
            forall|i: nat|
                old(self).position() <= i && i + 1 < final(self).position() ==> !(#[trigger] old(self).event_at(i) is Eof)
                    && !(old(self).event_at(i) is Error),
            final(self).position() > old(self).position() ==> {
                let last = old(self).event_at((final(self).position() - 1) as nat);
                &&& last is Eof ==> r is None
                &&& last matches XmlEventView::Error(m) ==> (r matches Some(RowValidation::Invalid(e)) && e.message@ == m)
                &&& r is None ==> (last is Eof || (last is Start && rows_ended(final(self).data()))
                    || final(self).remaining_events() == 0)
                &&& no_row_handler(old(self).data()) && last is End && r is Some ==> (r matches Some(x) && (x is Valid
                    || x is Invalid || x is Header))
            },
            final(self).position() > old(self).position() ==> {
                let at = (final(self).position() - 1) as nat;
                let last = old(self).event_at(at);
                &&& last is End && r is Some ==> old(self).data().row_tag@ == encode_utf8(
                    path_after(old(self).document(), at).0,
                )
                &&& old(self).data().k@.len() == 0 && last is End ==> (r matches Some(x) ==> (x is Valid || x is Header || (
                x matches RowValidation::Invalid(e) && e.message@ == "Column index outside of the reading range."@)))
                &&& last is Start ==> (r matches Some(RowValidation::Invalid(e)) ==> index_error(e.message@))
                &&& last is Start ==> (r matches Some(RowValidation::CriticalFail(e)) ==> e.message@
                    == "Range needs to be supplied before row/columns can be processed."@)
                &&& last is Text ==> (r is None || (r matches Some(RowValidation::CriticalFail(e)) && e.message@
                    == "Text could not be unescaped."@))
                &&& last is Other ==> r is None
            },
            !old(self).failed() && old(self).data().holding_for_x_blank_lines > 0 ==> {
                &&& r matches Some(RowValidation::Valid(v)) && v@.len() == old(self).data().reading_range.column_count
                    && forall|i: int| 0 <= i < v@.len() ==> is_default(#[trigger] v@[i])
                &&& final(self).position() == old(self).position()
                &&& final(self).remaining_events() == old(self).remaining_events()
                &&& final(self).data().holding_for_x_blank_lines == old(self).data().holding_for_x_blank_lines - 1
                &&& final(self).data().model() == (crate::parser_data::ParserModel {
                    holding: (old(self).data().holding_for_x_blank_lines - 1) as usize,
                    ..old(self).data().model()
                })
                &&& *final(self).data().cell == *old(self).data().cell
                &&& final(self).data().col_row_pos_info.current_column_value == old(self).data().col_row_pos_info.current_column_value
            },
    {
        if self.has_critical_error {
            return None;
        }
        let mut row_data: Vec<(usize, C)> = Vec::new();
        let mut drop_it: Option<DropRowRequest> = None;
        let mut just_getting_the_header = false;
        loop
            invariant
                self.inv(),
                !self.has_critical_error,
                !old(self).has_critical_error,
                self.parser_data.k == old(self).parser_data.k,
                self.parser_data.row_tag == old(self).parser_data.row_tag,
                old(self).data().holding_for_x_blank_lines > 0 ==> self.parser_data.model() == old(self).data().model()
                    && *self.parser_data.cell == *old(self).data().cell
                    && self.parser_data.col_row_pos_info.current_column_value == old(self).data().col_row_pos_info.current_column_value,
                !old(self).data().can_change_range ==> self.parser_data.reading_range == old(self).data().reading_range
                    && !self.parser_data.can_change_range,
                self.document() == old(self).document(),
                self.position() >= old(self).position(),
                self.position() - old(self).position() == old(self).remaining_events() - self.events_left,
                old(self).data().holding_for_x_blank_lines > 0 ==> self.position() == old(self).position(),
                self.position() == old(self).position() ==> self.parser_data.holding_for_x_blank_lines
                    == old(self).data().holding_for_x_blank_lines,
                forall|i: nat|
                    old(self).position() <= i && i < self.position() ==> !(#[trigger] old(self).event_at(i) is Eof)
                        && !(old(self).event_at(i) is Error),
                old(self).data().k@.len() == 0 ==> drop_it is None,
                self.parser_data.holding_for_x_blank_lines > 0 && self.position() > old(self).position()
                    ==> old(self).event_at((self.position() - 1) as nat) is Start,
            decreases self.events_left,
        {
            // blank rows for rows missing from the document come first
            if self.parser_data.holding_for_x_blank_lines > 0 {
                let v: Vec<C> = default_cells(self.parser_data.reading_range.column_count);
                self.parser_data.holding_for_x_blank_lines = self.parser_data.holding_for_x_blank_lines - 1;
                return Some(RowValidation::Valid(v));
            }
            if self.events_left == 0 {
                return None;
            }
            self.events_left = self.events_left - 1;
            let ghost at = self.position();
            let event = next_event(&mut self.f_reader);
            assert(event_of(old(self).event_at(at), event));
            let ghost ev = event;
            let result = self.on_event(event, &mut just_getting_the_header, &mut drop_it, &mut row_data);
            proof {
                let prev = path_after(self.document(), at);
                assert(path_after(self.document(), at + 1) == match xml_event_at(self.document(), at) {
                    XmlEventView::Start(name, _) => (
                        pushed_line(prev.0, utf8_lossy(name)),
                        prev.1.push(pushed_size(prev.0, utf8_lossy(name)) as usize),
                    ),
                    XmlEventView::End => (popped_line(prev.0, prev.1), if prev.1.len() == 0 {
                        prev.1
                    } else {
                        prev.1.drop_last()
                    }),
                    _ => prev,
                });
            }
            match result {
                Some(r) => {
                    return r;
                },
                None => {},
            }
        }
    }

    /// Handles one event of the document: `Some(r)` when `next` is to give `r` (`Some(None)`
    /// at the end of the rows or of the document), `None` when reading goes on. A critical
    /// failure of the parser's own marks the parse as failed.
    pub fn on_event(
        &mut self,
        event: XmlEvent,
        just_getting_the_header: &mut bool,
        drop_it: &mut Option<DropRowRequest>,
        row_data: &mut Vec<(usize, C)>,
    ) -> (r: Option<Option<RowValidation<C>>>)
        where C: Default + Clone,
        requires
            old(self).state_ok(),
            !old(self).failed(),
        ensures
            final(self).state_ok(),
            final(self).data().k == old(self).data().k,
            final(self).data().row_tag == old(self).data().row_tag,
            final(self).remaining_events() == old(self).remaining_events(),
            final(self).document() == old(self).document(),
            final(self).position() == old(self).position(),
            final(self).failed() ==> r matches Some(Some(RowValidation::CriticalFail(_))),
            !old(self).data().can_change_range ==> final(self).data().reading_range == old(self).data().reading_range
                && !final(self).data().can_change_range,
            no_row_handler(old(self).data()) ==> (r matches Some(Some(RowValidation::Valid(v))) ==> v@.len()
                == final(self).data().reading_range.column_count),
            (no_row_handler(old(self).data()) && r matches Some(Some(RowValidation::CriticalFail(_)))) ==> final(self).failed(),
            rows_ended(final(self).data()) || !(r matches Some(None)) || event is Eof,
            event is End && no_row_handler(old(self).data()) ==> !(r matches Some(Some(RowValidation::CriticalFail(_)))),
            (event is End || event is Text) ==> final(self).data().holding_for_x_blank_lines
                == old(self).data().holding_for_x_blank_lines,
            old(self).data().k@.len() == 0 && old(self).data().drop_row_request is None && *old(drop_it) is None
                ==> final(self).data().drop_row_request is None && *final(drop_it) is None,
            (event is Eof || event is Error || event is Other) ==> {
                &&& *final(self) == *old(self)
                &&& *final(just_getting_the_header) == *old(just_getting_the_header)
                &&& *final(drop_it) == *old(drop_it)
                &&& final(row_data)@ == old(row_data)@
            },
            event is Eof ==> r == Some(None::<RowValidation<C>>),
            event matches XmlEvent::Error(m) ==> (r matches Some(Some(RowValidation::Invalid(e))) && e.message == m),
            event is Other ==> r is None,
            event matches XmlEvent::Start(t) ==> {
                &&& final(self).data().current_tag_line.tag_line@ == pushed_line(
                    old(self).data().current_tag_line.tag_line@,
                    utf8_lossy(t.name@),
                )
                &&& final(self).data().current_tag_line.last_tag_sizes@ == old(self).data().current_tag_line.last_tag_sizes@.push(
                    pushed_size(old(self).data().current_tag_line.tag_line@, utf8_lossy(t.name@)) as usize,
                )
                &&& (r matches Some(Some(x)) ==> (x is Invalid || (x is CriticalFail && final(self).failed())))
                &&& r matches Some(Some(RowValidation::Invalid(x))) ==> index_error(x.message@)
                &&& r matches Some(Some(RowValidation::CriticalFail(x))) ==> x.message@
                    == "Range needs to be supplied before row/columns can be processed."@
                &&& opt_bytes_view(old(self).data().column_tag) != Some(old(self).data().row_tag@) ==> ((r matches Some(
                    None,
                )) <==> (opens_row(old(self).data(), t) && old(self).data().is_reading_range_defined && row_update_ok(
                    old(self).data(),
                    t,
                ) && past_range(final(self).data().col_row_pos_info.row_index, old(self).data().reading_range)))
            },
            event is Text ==> {
                &&& final(self).data().current_tag_line.tag_line@ == old(self).data().current_tag_line.tag_line@
                &&& final(self).data().current_tag_line.last_tag_sizes@ == old(self).data().current_tag_line.last_tag_sizes@
                &&& (r is None || (r matches Some(Some(RowValidation::CriticalFail(_))) && final(self).failed()))
                &&& r matches Some(Some(RowValidation::CriticalFail(x))) ==> x.message@ == "Text could not be unescaped."@
            },
            event is End ==> {
                &&& final(self).data().current_tag_line.tag_line@ == popped_line(
                    old(self).data().current_tag_line.tag_line@,
                    old(self).data().current_tag_line.last_tag_sizes@,
                )
                &&& final(self).data().current_tag_line.last_tag_sizes@ == (if old(self).data().current_tag_line.last_tag_sizes@.len() == 0 {
                    old(self).data().current_tag_line.last_tag_sizes@
                } else {
                    old(self).data().current_tag_line.last_tag_sizes@.drop_last()
                })
                &&& !(r matches Some(None))
                &&& r is Some ==> old(self).data().col_row_pos_info.is_sub_of_row && old(self).data().row_tag@ == encode_utf8(
                    old(self).data().current_tag_line.tag_line@,
                ) && old(self).data().col_row_pos_info.is_in_row_range
                &&& *old(just_getting_the_header) ==> (r matches Some(Some(x)) ==> (x is Header || x is CriticalFail))
                &&& (old(self).data().col_row_pos_info.is_sub_of_row && old(self).data().row_tag@ == encode_utf8(
                    old(self).data().current_tag_line.tag_line@,
                ) && old(self).data().col_row_pos_info.is_in_row_range && !*old(just_getting_the_header) && no_row_handler(
                    old(self).data(),
                ) && old(self).data().drop_row_request is None) ==> given_row(
                    r,
                    final(row_data)@,
                    old(self).data().reading_range,
                )
                &&& closes_plain_row(old(self).data(), *old(just_getting_the_header)) ==> given_row(
                    r,
                    old(row_data)@,
                    old(self).data().reading_range,
                ) && final(row_data)@ == old(row_data)@
                &&& closes_header_row(old(self).data(), *old(just_getting_the_header)) ==> {
                    &&& !*final(just_getting_the_header)
                    &&& !final(self).data().col_row_pos_info.is_first_row
                    &&& !old(self).data().parse_flags.has(ParserFlags::RETURN_HEADER) ==> r is None
                    &&& old(self).data().parse_flags.has(ParserFlags::RETURN_HEADER) ==> r is Some
                    &&& old(self).data().parse_flags.has(ParserFlags::RETURN_HEADER) && no_row_handler(old(self).data())
                        ==> (r matches Some(Some(RowValidation::Header(h))) && h.view() == old(self).data().header_row.view())
                }
            },
    {
        match event {
            XmlEvent::Start(e) => {
                match self.parser_data.run_start_tags(&e, just_getting_the_header, drop_it) {
                    Completion::EndOfRows => Some(None),
                    Completion::CriticalFail(critical_error) => {
                        self.has_critical_error = true;
                        Some(Some(RowValidation::CriticalFail(critical_error)))
                    },
                    Completion::RowFail(fail_row) => Some(Some(fail_row)),
                    _ => None,
                }
            },
            XmlEvent::Text(t) => {
                match self.parser_data.run_text_tags(&t, just_getting_the_header, drop_it) {
                    Completion::OkWithRow(rw) => Some(Some(rw)),
                    Completion::CriticalFail(f) => {
                        self.has_critical_error = true;
                        Some(Some(RowValidation::CriticalFail(f)))
                    },
                    _ => None,
                }
            },
            XmlEvent::End => {
                match self.parser_data.run_end_tags(just_getting_the_header, drop_it, row_data) {
                    Completion::OkWithRow(rw) => Some(Some(rw)),
                    Completion::CriticalFail(f) => {
                        self.has_critical_error = true;
                        Some(Some(RowValidation::CriticalFail(f)))
                    },
                    Completion::EndOfRows => Some(None),
                    _ => None,
                }
            },
            XmlEvent::Eof => Some(None),
            XmlEvent::Error(e) => Some(Some(RowValidation::Invalid(CreateParserError { message: e }))),
            XmlEvent::Other => None,
        }
    }
}

/// The index attribute of a description, read off its parts.
proof fn lemma_index_attribute(parts: RelativeNameParts, s: Seq<u8>)
    requires
        name_parts_of(parts, s),
    ensures
        (if parts.attribs@.len() == 1 {
            Some(parts.attribs@[0].attrib@)
        } else {
            None
        }) == index_attribute(s),
{
    assert(attribs_view(parts.attribs@).len() == parts.attribs@.len());
    if parts.attribs@.len() == 1 {
        assert(attribs_view(parts.attribs@)[0] == (parts.attribs@[0].attrib@, parts.attribs@[0].capture));
    }
}

proof fn lemma_index_grows<'b, S, C>(a: Seq<TagHandler<'b, S, C>>, b: Seq<TagHandler<'b, S, C>>, name: Seq<u8>)
    requires
        b == a || (a.len() < b.len() && b.take(a.len() as int) == a),
        index_of(handler_names(a), name) < a.len(),
    ensures
        index_of(handler_names(b), name) < b.len(),
{
    if b != a {
        assert(handler_names(b).take(a.len() as int) =~= handler_names(a));
        lemma_index_prefix(handler_names(b), name, a.len() as int);
    }
}

proof fn lemma_index_push<'b, S, C>(a: Seq<TagHandler<'b, S, C>>, f: TagHandler<'b, S, C>)
    ensures
        index_of(handler_names(a.push(f)), f.n.name@) < a.len() + 1,
{
    assert(handler_names(a.push(f)) =~= handler_names(a).push(f.n.name@));
    lemma_index_push_self(handler_names(a), f.n.name@);
}

} // verus!
