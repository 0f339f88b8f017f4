use xlsx::xml_event::{StartTag, XmlAttribute, XmlEvent};
use xlsx::{
    CreateParser, CreateParserNewError, DropRowRequest, InputTagType, ParserFlags, RowValidation,
    TagFn, TagHandler, XmlReadingRange,
};

const SHEET: &str = "<worksheet><dimension ref=\"A1:B3\"/><sheetData>\
<row r=\"1\"><c r=\"A1\"><v>Name</v></c><c r=\"B1\"><v>Qty</v></c></row>\
<row r=\"2\"><c r=\"A2\"><v>apple</v></c><c r=\"B2\"><v>3</v></c></row>\
<row r=\"3\"><c r=\"B3\"><v>5</v></c></row>\
</sheetData></worksheet>";

const ROW_TAG: &[u8] = b"worksheet/sheetData/row|r|";
const COL_TAG: &[u8] = b"worksheet/sheetData/row/c|r|";
const VALUE_TAG: &[u8] = b"worksheet/sheetData/row/c/v";

/// Copies the text of each `v` tag into the cell, prefixed by the column's header name when
/// there is one.
struct CellText;

impl TagFn<Vec<String>, String> for CellText {
    fn call(&self, log: &mut Vec<String>, tag: InputTagType<'_, '_, String>) {
        match tag {
            InputTagType::ColumnText(value, text, info) => {
                if text == "bad" {
                    info.drop_row(DropRowRequest::Error(String::from("bad row")));
                } else if text == "skip" {
                    info.drop_row(DropRowRequest::Ignore);
                } else {
                    match info.get_column_name() {
                        Some(name) => *value = format!("{}={}", name, text),
                        None => *value = text.to_string(),
                    }
                }
                log.push(text.to_string());
            }
            _ => {}
        }
    }
}

/// Reads the reading range from the `ref` attribute of the `dimension` tag.
struct Dimension;

impl TagFn<Vec<String>, String> for Dimension {
    fn call(&self, log: &mut Vec<String>, tag: InputTagType<'_, '_, String>) {
        if let InputTagType::OtherTagStart(attrs, info) = tag {
            if let Some(r) = attrs.get("ref") {
                log.push(format!("dimension {}", r));
                let _ = info.set_dimensions(r.clone());
            }
        }
    }
}

/// Refuses the header once it is complete.
struct RefuseHeader;

impl TagFn<Vec<String>, String> for RefuseHeader {
    fn call(&self, _log: &mut Vec<String>, tag: InputTagType<'_, '_, String>) {
        if let InputTagType::HeaderComplete(_, handler) = tag {
            handler.cancel_operation(String::from("header refused"));
        }
    }
}

/// Records each call it gets, with the header names and the start tags' attributes.
struct Recorder;

impl TagFn<Vec<String>, String> for Recorder {
    fn call(&self, log: &mut Vec<String>, tag: InputTagType<'_, '_, String>) {
        match tag {
            InputTagType::HeaderComplete(h, _) => {
                log.push(format!("header {} {:?} {:?}", h.len(), h.get("Name"), h.get("Qty")));
            }
            InputTagType::RowStart(attrs) => {
                log.push(format!("row {:?}", attrs.get("r")));
            }
            InputTagType::ColumnStart(_, attrs, _) => {
                log.push(format!("column {:?}", attrs.get("r")));
            }
            _ => {}
        }
    }
}

/// Rewrites each header name to upper case.
struct UpperHeader;

impl TagFn<Vec<String>, String> for UpperHeader {
    fn call(&self, _log: &mut Vec<String>, tag: InputTagType<'_, '_, String>) {
        if let InputTagType::ColumnHeader(_, name, _, _) = tag {
            *name = name.to_uppercase();
        }
    }
}

fn flags(bits: u32) -> ParserFlags {
    ParserFlags { bits }
}

fn cells(r: &RowValidation<String>) -> Vec<String> {
    match r {
        RowValidation::Valid(v) => v.clone(),
        RowValidation::Invalid(e) => panic!("invalid row: {}", e.message),
        RowValidation::Header(_) => panic!("header row"),
        RowValidation::CriticalFail(e) => panic!("critical failure: {}", e.message),
    }
}

fn strings(v: &[&str]) -> Vec<String> {
    v.iter().map(|s| s.to_string()).collect()
}

fn collect(parser: &mut CreateParser<'_, '_, Vec<String>, String>) -> Vec<RowValidation<String>> {
    let mut rows = Vec::new();
    while let Some(r) = parser.next() {
        rows.push(r);
        assert!(rows.len() < 100, "the parser does not stop");
    }
    rows
}

fn parser_over<'a, 'b>(
    doc: &'a str,
    range: XmlReadingRange<'b>,
    log: &'b mut Vec<String>,
    bits: u32,
) -> CreateParser<'a, 'b, Vec<String>, String> {
    match CreateParser::new(doc, range, log, ROW_TAG, Some(COL_TAG), flags(bits)) {
        Ok(p) => p,
        Err(_) => panic!("the parser could not be set up"),
    }
}

#[test]
fn reads_every_row_of_the_range() {
    let mut log = Vec::new();
    let mut parser = parser_over(SHEET, XmlReadingRange::Defined("A1:B3"), &mut log, ParserFlags::DEFAULT_FLAGS_NO_HEADER);
    parser.add(TagHandler::new(VALUE_TAG, CellText));
    let rows = collect(&mut parser);
    assert_eq!(rows.len(), 3);
    assert_eq!(cells(&rows[0]), strings(&["Name", "Qty"]));
    assert_eq!(cells(&rows[1]), strings(&["apple", "3"]));
    assert_eq!(cells(&rows[2]), strings(&["", "5"]));
    assert!(parser.next().is_none());
    drop(parser);
    assert_eq!(log, strings(&["Name", "Qty", "apple", "3", "5"]));
}

#[test]
fn rows_past_the_range_end_the_parse() {
    let mut log = Vec::new();
    let mut parser = parser_over(SHEET, XmlReadingRange::Defined("A1:B1"), &mut log, ParserFlags::DEFAULT_FLAGS_NO_HEADER);
    parser.add(TagHandler::new(VALUE_TAG, CellText));
    let rows = collect(&mut parser);
    assert_eq!(rows.len(), 1);
    assert_eq!(cells(&rows[0]), strings(&["Name", "Qty"]));
    drop(parser);
    assert_eq!(log, strings(&["Name", "Qty"]));
}

#[test]
fn columns_outside_the_range_are_left_out() {
    let mut log = Vec::new();
    let mut parser = parser_over(SHEET, XmlReadingRange::Defined("B1:B3"), &mut log, ParserFlags::DEFAULT_FLAGS_NO_HEADER);
    parser.add(TagHandler::new(VALUE_TAG, CellText));
    let rows = collect(&mut parser);
    assert_eq!(rows.len(), 3);
    assert_eq!(cells(&rows[0]), strings(&["Qty"]));
    assert_eq!(cells(&rows[1]), strings(&["3"]));
    assert_eq!(cells(&rows[2]), strings(&["5"]));
    drop(parser);
    assert_eq!(log, strings(&["Qty", "3", "5"]));
}

#[test]
fn missing_rows_come_as_blank_rows() {
    let doc = "<worksheet><sheetData>\
<row r=\"1\"><c r=\"A1\"><v>x</v></c></row>\
<row r=\"4\"><c r=\"A4\"><v>y</v></c></row>\
</sheetData></worksheet>";
    let mut log = Vec::new();
    let mut parser = parser_over(doc, XmlReadingRange::Defined("A1:A5"), &mut log, ParserFlags::DEFAULT_FLAGS_NO_HEADER);
    parser.add(TagHandler::new(VALUE_TAG, CellText));
    let rows = collect(&mut parser);
    assert_eq!(rows.len(), 5);
    assert_eq!(cells(&rows[0]), strings(&["x"]));
    assert_eq!(cells(&rows[1]), strings(&[""]));
    assert_eq!(cells(&rows[2]), strings(&[""]));
    assert_eq!(cells(&rows[3]), strings(&[""]));
    assert_eq!(cells(&rows[4]), strings(&["y"]));
}

#[test]
fn only_existing_rows_skips_nothing_blank() {
    let doc = "<worksheet><sheetData>\
<row r=\"1\"><c r=\"A1\"><v>x</v></c></row>\
<row r=\"4\"><c r=\"A4\"><v>y</v></c></row>\
</sheetData></worksheet>";
    let mut log = Vec::new();
    let mut parser = parser_over(doc, XmlReadingRange::Defined("A1:A5"), &mut log, ParserFlags::ONLY_GET_ROWS_THAT_EXIST);
    parser.add(TagHandler::new(VALUE_TAG, CellText));
    let rows = collect(&mut parser);
    assert_eq!(rows.len(), 2);
    assert_eq!(cells(&rows[0]), strings(&["x"]));
    assert_eq!(cells(&rows[1]), strings(&["y"]));
}

#[test]
fn rows_out_of_order_are_invalid() {
    let doc = "<worksheet><sheetData>\
<row r=\"2\"><c r=\"A2\"><v>x</v></c></row>\
<row r=\"1\"><c r=\"A1\"><v>y</v></c></row>\
</sheetData></worksheet>";
    let mut log = Vec::new();
    let mut parser = parser_over(doc, XmlReadingRange::Defined("A2:A5"), &mut log, ParserFlags::ONLY_GET_ROWS_THAT_EXIST);
    parser.add(TagHandler::new(VALUE_TAG, CellText));
    let first = parser.next();
    assert_eq!(cells(&first.unwrap_or_else(|| panic!("no row"))), strings(&["x"]));
    match parser.next() {
        Some(RowValidation::Invalid(e)) => assert_eq!(e.message, "Because the rows are out of order."),
        _ => panic!("expected an invalid row"),
    }
}

#[test]
fn a_bad_row_number_is_invalid() {
    let doc = "<worksheet><sheetData><row r=\"0\"><c r=\"A1\"><v>x</v></c></row></sheetData></worksheet>";
    let mut log = Vec::new();
    let mut parser = parser_over(doc, XmlReadingRange::Defined("A1:A5"), &mut log, ParserFlags::DEFAULT_FLAGS_NO_HEADER);
    match parser.next() {
        Some(RowValidation::Invalid(e)) => assert_eq!(e.message, "Row index canno't be less than 1!"),
        _ => panic!("expected an invalid row"),
    }
    let doc = "<worksheet><sheetData><row r=\"x\"><c r=\"A1\"><v>x</v></c></row></sheetData></worksheet>";
    let mut log = Vec::new();
    let mut parser = parser_over(doc, XmlReadingRange::Defined("A1:A5"), &mut log, ParserFlags::DEFAULT_FLAGS_NO_HEADER);
    match parser.next() {
        Some(RowValidation::Invalid(e)) => assert_eq!(e.message, "Row index is not a valid number!"),
        _ => panic!("expected an invalid row"),
    }
}

#[test]
fn a_bad_cell_reference_is_invalid() {
    let doc = "<worksheet><sheetData><row r=\"1\"><c r=\"a1\"><v>x</v></c></row></sheetData></worksheet>";
    let mut log = Vec::new();
    let mut parser = parser_over(doc, XmlReadingRange::Defined("A1:A5"), &mut log, ParserFlags::DEFAULT_FLAGS_NO_HEADER);
    match parser.next() {
        Some(RowValidation::Invalid(e)) => {
            assert_eq!(e.message, "Error parsing xlsx index Error in Radix10 Input contains invalid digit. ")
        }
        _ => panic!("expected an invalid row"),
    }
    let doc = "<worksheet><sheetData><row r=\"1\"><c r=\"B*\"><v>x</v></c></row></sheetData></worksheet>";
    let mut log = Vec::new();
    let mut parser = parser_over(doc, XmlReadingRange::Defined("A1:A5"), &mut log, ParserFlags::DEFAULT_FLAGS_NO_HEADER);
    match parser.next() {
        Some(RowValidation::Invalid(e)) => assert_eq!(e.message, "Infinite defined in file not defined for value 1."),
        _ => panic!("expected an invalid row"),
    }
}

#[test]
fn without_a_range_the_first_row_fails_the_parse() {
    let mut log = Vec::new();
    let mut parser = parser_over(SHEET, XmlReadingRange::WillDefineBeforeRows, &mut log, ParserFlags::DEFAULT_FLAGS_NO_HEADER);
    parser.add(TagHandler::new(VALUE_TAG, CellText));
    match parser.next() {
        Some(RowValidation::CriticalFail(e)) => {
            assert_eq!(e.message, "Range needs to be supplied before row/columns can be processed.")
        }
        _ => panic!("expected a critical failure"),
    }
    assert!(parser.next().is_none());
    assert!(parser.next().is_none());
}

#[test]
fn a_handler_can_set_the_range_before_the_rows() {
    let mut log = Vec::new();
    let mut parser = parser_over(SHEET, XmlReadingRange::WillDefineBeforeRows, &mut log, ParserFlags::DEFAULT_FLAGS_NO_HEADER);
    parser.add_many(vec![
        TagHandler::new(VALUE_TAG, CellText),
        TagHandler::new(b"worksheet/dimension|ref|", Dimension),
    ]);
    let rows = collect(&mut parser);
    assert_eq!(rows.len(), 3);
    assert_eq!(cells(&rows[1]), strings(&["apple", "3"]));
    drop(parser);
    assert_eq!(log[0], "dimension A1:B3");
}

#[test]
fn the_first_handler_added_for_a_tag_stays() {
    let mut log = Vec::new();
    let mut parser = parser_over(SHEET, XmlReadingRange::Defined("A1:B3"), &mut log, ParserFlags::DEFAULT_FLAGS_NO_HEADER);
    parser.add(TagHandler::new(VALUE_TAG, CellText));
    parser.add(TagHandler::new(VALUE_TAG, UpperHeader));
    let rows = collect(&mut parser);
    assert_eq!(cells(&rows[1]), strings(&["apple", "3"]));
}

#[test]
fn the_header_row_is_returned_and_names_the_columns() {
    let mut log = Vec::new();
    let mut parser = parser_over(SHEET, XmlReadingRange::Defined("A1:B3"), &mut log, ParserFlags::FULL_HEADER);
    parser.add(TagHandler::new(VALUE_TAG, CellText));
    let rows = collect(&mut parser);
    assert_eq!(rows.len(), 3);
    match &rows[0] {
        RowValidation::Header(h) => {
            assert_eq!(h.len(), 2);
            assert_eq!(h.get("Name"), Some(&0));
            assert_eq!(h.get("Qty"), Some(&1));
        }
        _ => panic!("expected the header"),
    }
    assert_eq!(cells(&rows[1]), strings(&["Name=apple", "Qty=3"]));
    assert_eq!(cells(&rows[2]), strings(&["", "Qty=5"]));
}

#[test]
fn a_header_that_is_not_returned_still_names_the_columns() {
    let mut log = Vec::new();
    let mut parser = parser_over(SHEET, XmlReadingRange::Defined("A1:B3"), &mut log, ParserFlags::DEFAULT_FLAGS_WITH_HEADER);
    parser.add(TagHandler::new(VALUE_TAG, CellText));
    let rows = collect(&mut parser);
    assert_eq!(rows.len(), 2);
    assert_eq!(cells(&rows[0]), strings(&["Name=apple", "Qty=3"]));
}

#[test]
fn header_names_can_be_rewritten() {
    let mut log = Vec::new();
    let mut parser = parser_over(SHEET, XmlReadingRange::Defined("A1:B3"), &mut log, ParserFlags::FULL_HEADER);
    parser.add(TagHandler::new(VALUE_TAG, CellText));
    parser.add(TagHandler::new(b"worksheet/sheetData/row/c", UpperHeader));
    let rows = collect(&mut parser);
    match &rows[0] {
        RowValidation::Header(h) => {
            assert_eq!(h.get("NAME"), Some(&0));
            assert_eq!(h.get("QTY"), Some(&1));
            assert!(h.get("Name").is_none());
        }
        _ => panic!("expected the header"),
    }
    assert_eq!(cells(&rows[1]), strings(&["NAME=apple", "QTY=3"]));
}

#[test]
fn a_refused_header_fails_the_parse() {
    let mut log = Vec::new();
    let mut parser = parser_over(SHEET, XmlReadingRange::Defined("A1:B3"), &mut log, ParserFlags::FULL_HEADER);
    parser.add(TagHandler::new(VALUE_TAG, CellText));
    parser.add(TagHandler::new(b"worksheet/sheetData/row", RefuseHeader));
    match parser.next() {
        Some(RowValidation::CriticalFail(e)) => assert_eq!(e.message, "header refused"),
        _ => panic!("expected a critical failure"),
    }
    assert!(parser.next().is_none());
}

#[test]
fn a_dropped_row_with_an_error_is_invalid() {
    let doc = "<worksheet><sheetData>\
<row r=\"1\"><c r=\"A1\"><v>x</v></c></row>\
<row r=\"2\"><c r=\"A2\"><v>bad</v></c></row>\
</sheetData></worksheet>";
    let mut log = Vec::new();
    let mut parser = parser_over(doc, XmlReadingRange::Defined("A1:A2"), &mut log, ParserFlags::DEFAULT_FLAGS_NO_HEADER);
    parser.add(TagHandler::new(VALUE_TAG, CellText));
    let rows = collect(&mut parser);
    assert_eq!(rows.len(), 2);
    assert_eq!(cells(&rows[0]), strings(&["x"]));
    match &rows[1] {
        RowValidation::Invalid(e) => assert_eq!(e.message, "bad row"),
        _ => panic!("expected an invalid row"),
    }
}

#[test]
fn an_ignored_row_is_skipped() {
    let doc = "<worksheet><sheetData>\
<row r=\"1\"><c r=\"A1\"><v>skip</v></c></row>\
<row r=\"2\"><c r=\"A2\"><v>y</v></c></row>\
</sheetData></worksheet>";
    let mut log = Vec::new();
    let mut parser = parser_over(doc, XmlReadingRange::Defined("A1:A2"), &mut log, ParserFlags::DEFAULT_FLAGS_NO_HEADER);
    parser.add(TagHandler::new(VALUE_TAG, CellText));
    let rows = collect(&mut parser);
    assert_eq!(rows.len(), 1);
    assert_eq!(cells(&rows[0]), strings(&["y"]));
}

#[test]
fn escaped_text_reaches_the_handler_unescaped() {
    let doc = "<worksheet><sheetData><row r=\"1\"><c r=\"A1\"><v>a &amp; b &lt;c&gt;</v></c></row></sheetData></worksheet>";
    let mut log = Vec::new();
    let mut parser = parser_over(doc, XmlReadingRange::Defined("A1:A1"), &mut log, ParserFlags::DEFAULT_FLAGS_NO_HEADER);
    parser.add(TagHandler::new(VALUE_TAG, CellText));
    let rows = collect(&mut parser);
    assert_eq!(rows.len(), 1);
    assert_eq!(cells(&rows[0]), strings(&["a & b <c>"]));
}

#[test]
fn a_row_without_columns_takes_the_row_value() {
    let doc = "<list><item>one</item><item>two</item></list>";
    let mut log = Vec::new();
    let row_tag: &[u8] = b"list/item";
    let mut parser: CreateParser<'_, '_, Vec<String>, String> = match CreateParser::new(
        doc,
        XmlReadingRange::Defined("A1:A*"),
        &mut log,
        row_tag,
        None,
        flags(ParserFlags::DEFAULT_FLAGS_NO_HEADER),
    ) {
        Ok(p) => p,
        Err(_) => panic!("the parser could not be set up"),
    };
    parser.add(TagHandler::new(b"list/item", CellText));
    let rows = collect(&mut parser);
    assert_eq!(rows.len(), 2);
    assert_eq!(cells(&rows[0]), strings(&["one"]));
    assert_eq!(cells(&rows[1]), strings(&["two"]));
}

#[test]
fn a_column_tag_outside_the_row_tag_is_refused() {
    let mut log: Vec<String> = Vec::new();
    let r: Result<CreateParser<'_, '_, Vec<String>, String>, CreateParserNewError> = CreateParser::new(
        SHEET,
        XmlReadingRange::Defined("A1:B3"),
        &mut log,
        ROW_TAG,
        Some(b"worksheet/other/c"),
        flags(ParserFlags::DEFAULT_FLAGS_NO_HEADER),
    );
    match r {
        Err(CreateParserNewError::Parser(e)) => assert_eq!(
            e.message,
            "Make new error type but the column tag needs to be a subset of the row tag "
        ),
        _ => panic!("expected the column tag to be refused"),
    }
}

#[test]
fn a_column_tag_equal_to_the_row_tag_is_refused() {
    let mut log: Vec<String> = Vec::new();
    let r: Result<CreateParser<'_, '_, Vec<String>, String>, CreateParserNewError> = CreateParser::new(
        SHEET,
        XmlReadingRange::Defined("A1:B3"),
        &mut log,
        ROW_TAG,
        Some(b"worksheet/sheetData/row"),
        flags(ParserFlags::DEFAULT_FLAGS_NO_HEADER),
    );
    assert!(matches!(r, Err(CreateParserNewError::Parser(_))));
}

#[test]
fn a_bad_range_is_refused() {
    for (range, message) in [
        ("A1", "Need to have a : to get column and row"),
        ("", "Canno't be an empty string"),
        ("A1:", "Undescripbed error"),
        ("A1:B2:C3", "Too many : in input"),
    ] {
        let mut log: Vec<String> = Vec::new();
        let r: Result<CreateParser<'_, '_, Vec<String>, String>, CreateParserNewError> = CreateParser::new(
            SHEET,
            XmlReadingRange::Defined(range),
            &mut log,
            ROW_TAG,
            Some(COL_TAG),
            flags(ParserFlags::DEFAULT_FLAGS_NO_HEADER),
        );
        match r {
            Err(CreateParserNewError::Range(e)) => assert_eq!(e.message, message),
            _ => panic!("expected the range {:?} to be refused", range),
        }
    }
}

#[test]
fn broken_xml_gives_an_invalid_row() {
    let doc = "<worksheet><sheetData><row r=\"1\"><c r=\"A1\"><v>x</w></c></row></sheetData></worksheet>";
    let mut log = Vec::new();
    let mut parser = parser_over(doc, XmlReadingRange::Defined("A1:A1"), &mut log, ParserFlags::DEFAULT_FLAGS_NO_HEADER);
    parser.add(TagHandler::new(VALUE_TAG, CellText));
    match parser.next() {
        Some(RowValidation::Invalid(e)) => assert!(!e.message.is_empty()),
        _ => panic!("expected an invalid row"),
    }
}

fn start(name: &str, attrs: &[(&str, &str)]) -> XmlEvent {
    XmlEvent::Start(StartTag {
        name: name.as_bytes().to_vec(),
        attributes: attrs
            .iter()
            .map(|(k, v)| XmlAttribute { key: k.as_bytes().to_vec(), value: v.as_bytes().to_vec() })
            .collect(),
    })
}

#[test]
fn events_build_a_row_one_at_a_time() {
    let mut log = Vec::new();
    let mut parser = parser_over("", XmlReadingRange::Defined("A1:B2"), &mut log, ParserFlags::DEFAULT_FLAGS_NO_HEADER);
    parser.add(TagHandler::new(VALUE_TAG, CellText));
    let mut header = false;
    let mut drop_it: Option<DropRowRequest> = None;
    let mut row: Vec<(usize, String)> = Vec::new();
    let events = vec![
        start("worksheet", &[]),
        start("sheetData", &[]),
        start("row", &[("r", "1")]),
        start("c", &[("r", "B1")]),
        start("v", &[]),
        XmlEvent::Text(Some(String::from("7"))),
        XmlEvent::End,
        XmlEvent::End,
    ];
    for ev in events {
        assert!(parser.on_event(ev, &mut header, &mut drop_it, &mut row).is_none());
    }
    assert_eq!(row, vec![(1, String::from("7"))]);
    match parser.on_event(XmlEvent::End, &mut header, &mut drop_it, &mut row) {
        Some(Some(r)) => assert_eq!(cells(&r), strings(&["", "7"])),
        _ => panic!("expected the row"),
    }
    assert!(parser.on_event(XmlEvent::Other, &mut header, &mut drop_it, &mut row).is_none());
    match parser.on_event(XmlEvent::Error(String::from("broken")), &mut header, &mut drop_it, &mut row) {
        Some(Some(RowValidation::Invalid(e))) => assert_eq!(e.message, "broken"),
        _ => panic!("expected an invalid row"),
    }
    assert!(matches!(parser.on_event(XmlEvent::Eof, &mut header, &mut drop_it, &mut row), Some(None)));
}

#[test]
fn a_critical_failure_ends_the_parse() {
    let mut log = Vec::new();
    let mut parser = parser_over(SHEET, XmlReadingRange::WillDefineBeforeRows, &mut log, ParserFlags::DEFAULT_FLAGS_NO_HEADER);
    let mut header = false;
    let mut drop_it: Option<DropRowRequest> = None;
    let mut row: Vec<(usize, String)> = Vec::new();
    for ev in vec![start("worksheet", &[]), start("sheetData", &[])] {
        assert!(parser.on_event(ev, &mut header, &mut drop_it, &mut row).is_none());
    }
    match parser.on_event(start("row", &[("r", "1")]), &mut header, &mut drop_it, &mut row) {
        Some(Some(RowValidation::CriticalFail(e))) => {
            assert_eq!(e.message, "Range needs to be supplied before row/columns can be processed.")
        }
        _ => panic!("expected a critical failure"),
    }
    assert!(parser.next().is_none());
}

#[test]
fn text_that_cannot_be_unescaped_fails_where_a_handler_needs_it() {
    let mut log = Vec::new();
    let mut parser = parser_over("", XmlReadingRange::Defined("A1:B2"), &mut log, ParserFlags::DEFAULT_FLAGS_NO_HEADER);
    parser.add(TagHandler::new(VALUE_TAG, CellText));
    let mut header = false;
    let mut drop_it: Option<DropRowRequest> = None;
    let mut row: Vec<(usize, String)> = Vec::new();
    for ev in vec![start("worksheet", &[]), XmlEvent::Text(None), start("sheetData", &[]), start("row", &[("r", "1")]), start("c", &[("r", "A1")]), start("v", &[])] {
        assert!(parser.on_event(ev, &mut header, &mut drop_it, &mut row).is_none());
    }
    match parser.on_event(XmlEvent::Text(None), &mut header, &mut drop_it, &mut row) {
        Some(Some(RowValidation::CriticalFail(e))) => assert_eq!(e.message, "Text could not be unescaped."),
        _ => panic!("expected a critical failure"),
    }
    assert!(parser.next().is_none());
}

#[test]
fn without_handlers_each_row_is_a_row_of_default_cells() {
    let mut log = Vec::new();
    let mut parser = parser_over(SHEET, XmlReadingRange::Defined("A1:B3"), &mut log, ParserFlags::DEFAULT_FLAGS_NO_HEADER);
    let rows = collect(&mut parser);
    assert_eq!(rows.len(), 3);
    for r in &rows {
        assert_eq!(cells(r), strings(&["", ""]));
    }
    assert!(parser.next().is_none());
}

#[test]
fn the_row_handler_sees_the_finished_header_once() {
    let mut log = Vec::new();
    let mut parser = parser_over(SHEET, XmlReadingRange::Defined("A1:B3"), &mut log, ParserFlags::FULL_HEADER);
    parser.add(TagHandler::new(b"worksheet/sheetData/row", Recorder));
    match parser.next() {
        Some(RowValidation::Header(h)) => assert_eq!(h.len(), 2),
        _ => panic!("expected the header"),
    }
    drop(parser);
    assert_eq!(log, strings(&["header 2 Some(0) Some(1)"]));
}

#[test]
fn start_handlers_get_the_attributes_they_asked_for() {
    let mut log = Vec::new();
    let mut parser = parser_over(SHEET, XmlReadingRange::Defined("A1:B3"), &mut log, ParserFlags::DEFAULT_FLAGS_NO_HEADER);
    parser.add(TagHandler::new(b"worksheet/sheetData/row|r|", Recorder));
    parser.add(TagHandler::new(b"worksheet/sheetData/row/c", Recorder));
    let rows = collect(&mut parser);
    assert_eq!(rows.len(), 3);
    drop(parser);
    assert_eq!(
        log,
        strings(&[
            "row Some(\"1\")",
            "column None",
            "column None",
            "row Some(\"2\")",
            "column None",
            "column None",
            "row Some(\"3\")",
            "column None",
        ])
    );
}
