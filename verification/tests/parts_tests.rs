use xlsx::completion::Completion;
use xlsx::col_row_position_info::ColRowPositionInfo;
use xlsx::current_tag_line::CurrentTagLine;
use xlsx::parser_data::ParserData;
use xlsx::xml_event::{unescape_and_decode, StartTag, XmlAttribute};
use xlsx::{
    get_relative_name_parts, CreateParserError, HeaderCompleteHandler, NonRowInfo, ParserFlags,
    Radix10Rectange, RelativeNamePartsAttribsProps, RowValidation, StringMap,
};

fn tag(name: &str, attrs: &[(&str, &str)]) -> StartTag {
    StartTag {
        name: name.as_bytes().to_vec(),
        attributes: attrs
            .iter()
            .map(|(k, v)| XmlAttribute { key: k.as_bytes().to_vec(), value: v.as_bytes().to_vec() })
            .collect(),
    }
}

fn attribs(s: &[u8]) -> Vec<(Vec<u8>, bool)> {
    get_relative_name_parts(s)
        .attribs
        .iter()
        .map(|a| (a.attrib.to_vec(), matches!(a.capture, RelativeNamePartsAttribsProps::Capture)))
        .collect()
}

#[test]
fn a_description_splits_into_path_and_attributes() {
    let p = get_relative_name_parts(b"tag1/tag2/tag3|attrib1,attrib2|");
    assert_eq!(p.name, b"tag1/tag2/tag3");
    assert_eq!(
        attribs(b"tag1/tag2/tag3|attrib1,attrib2|"),
        vec![(b"attrib1".to_vec(), false), (b"attrib2".to_vec(), false)]
    );
}

#[test]
fn an_attribute_in_brackets_is_captured() {
    assert_eq!(attribs(b"a/b|(x),y|"), vec![(b"x".to_vec(), true), (b"y".to_vec(), false)]);
    assert_eq!(attribs(b"a|()|"), vec![(b"".to_vec(), true)]);
    assert_eq!(attribs(b"a|)x(|"), vec![(b")x(".to_vec(), false)]);
    assert_eq!(attribs(b"a|((x)|"), vec![(b"((x)".to_vec(), false)]);
}

#[test]
fn a_description_without_two_bars_has_no_attributes() {
    let p = get_relative_name_parts(b"worksheet/sheetData/row");
    assert_eq!(p.name, b"worksheet/sheetData/row");
    assert!(p.attribs.is_empty());
    let p = get_relative_name_parts(b"a|b");
    assert_eq!(p.name, b"a");
    assert!(p.attribs.is_empty());
    let p = get_relative_name_parts(b"a|b|c|");
    assert_eq!(p.name, b"a");
    assert!(p.attribs.is_empty());
    let p = get_relative_name_parts(b"a||");
    assert_eq!(p.name, b"a");
    assert_eq!(attribs(b"a||"), vec![(b"".to_vec(), false)]);
}

#[test]
fn the_tag_path_grows_and_shrinks() {
    let mut line = CurrentTagLine::new();
    line.modify_start_tag(String::from("worksheet"));
    assert_eq!(line.tag_line, "worksheet");
    assert_eq!(line.last_tag_sizes, vec![9]);
    line.modify_start_tag(String::from("sheetData"));
    assert_eq!(line.tag_line, "worksheet/sheetData");
    assert_eq!(line.last_tag_sizes, vec![9, 10]);
    line.pop_tag();
    assert_eq!(line.tag_line, "worksheet");
    assert_eq!(line.last_tag_sizes, vec![9]);
    line.pop_tag();
    assert_eq!(line.tag_line, "");
    assert!(line.last_tag_sizes.is_empty());
}

#[test]
fn flags_combine_and_test() {
    let f = ParserFlags { bits: ParserFlags::FULL_HEADER };
    assert!(f.contains(ParserFlags::RETURN_HEADER));
    assert!(f.contains(ParserFlags::HAS_HEADER | ParserFlags::MODIFY_HEADER));
    assert!(!f.contains(ParserFlags::ONLY_GET_ROWS_THAT_EXIST));
    assert_eq!(ParserFlags::empty().bits(), 0);
    let u = ParserFlags::empty().union(ParserFlags { bits: ParserFlags::HAS_HEADER });
    assert_eq!(u.bits(), ParserFlags::HAS_HEADER);
    assert_eq!(ParserFlags::DEFAULT_FLAGS_WITH_HEADER, 0b10100);
    assert_eq!(ParserFlags::FULL_HEADER, 0b10111);
}

#[test]
fn the_first_value_for_a_key_stays() {
    let mut m: StringMap<usize> = StringMap::new();
    m.insert_if_absent(String::from("a"), 1);
    m.insert_if_absent(String::from("b"), 2);
    m.insert_if_absent(String::from("a"), 3);
    assert_eq!(m.len(), 2);
    assert_eq!(m.get("a"), Some(&1));
    assert_eq!(m.get("b"), Some(&2));
    assert!(m.get("c").is_none());
    assert!(m.contains_key("b"));
    assert!(!m.contains_key("c"));
    let (k, v) = m.entry_at(1);
    assert_eq!((k.as_str(), *v), ("b", 2));
    let d = m.duplicate();
    assert_eq!(d.get("a"), Some(&1));
    assert_eq!(d.len(), 2);
}

#[test]
fn a_header_handler_can_cancel() {
    let mut h = HeaderCompleteHandler::new();
    assert!(!h.is_cancelled());
    assert_eq!(h.reason(), "");
    h.cancel_operation(String::from("no"));
    assert!(h.is_cancelled());
    assert_eq!(h.reason(), "no");
}

#[test]
fn errors_keep_their_message() {
    let e = CreateParserError::from("boom");
    assert_eq!(e.message, "boom");
    assert_eq!(e.describe(), "Error");
    assert_eq!(e.description(), "Parse error");
}

#[test]
fn rows_tell_their_kind() {
    let v: RowValidation<String> = RowValidation::Valid(vec![String::from("x")]);
    assert!(v.is_valid());
    assert!(!v.is_invalid());
    assert!(v.valid().is_some());
    let i: RowValidation<String> = RowValidation::Invalid(CreateParserError::from("bad"));
    assert!(i.is_invalid());
    assert!(!i.is_valid());
    let i2: RowValidation<String> = RowValidation::Invalid(CreateParserError::from("bad"));
    assert!(i2.valid().is_none());
    let i3: RowValidation<String> = RowValidation::Invalid(CreateParserError::from("bad"));
    assert!(i3.invalid().is_some());
    let i4: RowValidation<String> = RowValidation::Invalid(CreateParserError::from("bad"));
    assert_eq!(i4.get_invalid().map(|e| e.message), Some(String::from("bad")));
    let c: RowValidation<String> = RowValidation::CriticalFail(CreateParserError::from("x"));
    assert!(c.get_invalid().is_none());
}

#[test]
fn non_row_info_sets_the_range() {
    let mut info = NonRowInfo::new(Radix10Rectange::zero(), false, false);
    assert!(info.get_dimensions().is_none());
    assert!(info.set_dimensions(String::from("B2:C4")).is_ok());
    assert!(info.get_dimensions().is_none());
    let mut info = NonRowInfo::new(Radix10Rectange::zero(), true, false);
    assert!(info.set_dimensions(String::from("B2:C4")).is_ok());
    let d = info.get_dimensions().unwrap_or_else(|| panic!("no range"));
    assert_eq!((d.column, d.row, d.column_count, d.row_count), (1, 1, 2, 3));
    match info.set_dimensions(String::from("B2")) {
        Err(e) => assert_eq!(e.message, "Need to have a : to get column and row"),
        Ok(_) => panic!("B2 is no range"),
    }
}

#[test]
fn column_index_follows_the_reference_attribute() {
    let mut p: ColRowPositionInfo<String> = ColRowPositionInfo::default();
    assert!(p.update_col_index(&tag("c", &[("r", "C4")]), Some(b"r")).is_ok());
    assert_eq!(p.column_index, 2);
    assert!(p.update_col_index(&tag("c", &[("t", "s")]), Some(b"r")).is_ok());
    assert_eq!(p.column_index, 3);
    p.is_first_col = true;
    assert!(p.update_col_index(&tag("c", &[]), None).is_ok());
    assert_eq!(p.column_index, 3);
    match p.update_col_index(&tag("c", &[("r", "A1"), ("r", "B1")]), Some(b"r")) {
        Err(e) => assert_eq!(e.message, "Multiple col attributes of name r"),
        Ok(_) => panic!("two references should be refused"),
    }
    match p.update_col_index(&tag("c", &[("r", "1A")]), Some(b"r")) {
        Err(e) => assert_eq!(e.message, "Error parsing xlsx index Error in Radix10 Input contains invalid digit. "),
        Ok(_) => panic!("1A should be refused"),
    }
    assert_eq!(p.column_index, 3);
}

#[test]
fn row_index_follows_the_number_attribute() {
    let mut p: ColRowPositionInfo<String> = ColRowPositionInfo::default();
    assert!(p.update_row_index(&tag("row", &[("r", "5")]), Some(b"r")).is_ok());
    assert_eq!(p.row_index, 4);
    assert!(p.update_row_index(&tag("row", &[]), Some(b"r")).is_ok());
    assert_eq!(p.row_index, 5);
    p.last_row_index = 5;
    match p.update_row_index(&tag("row", &[("r", "2")]), Some(b"r")) {
        Err(e) => assert_eq!(e.message, "Because the rows are out of order."),
        Ok(_) => panic!("going back should be refused"),
    }
    assert_eq!(p.row_index, 1);
    match p.update_row_index(&tag("row", &[("r", "+")]), Some(b"r")) {
        Err(e) => assert_eq!(e.message, "Row index is not a valid number!"),
        Ok(_) => panic!("+ is no number"),
    }
    match p.update_row_index(&tag("row", &[("r", "1"), ("r", "2")]), Some(b"r")) {
        Err(e) => assert_eq!(e.message, "Multiple row attributes of name r"),
        Ok(_) => panic!("two numbers should be refused"),
    }
}

#[test]
fn text_is_unescaped_and_decoded() {
    assert_eq!(unescape_and_decode(b"plain"), Some(String::from("plain")));
    assert_eq!(unescape_and_decode(b"a &amp; b"), Some(String::from("a & b")));
    assert_eq!(unescape_and_decode(b"&#65;&#x42;"), Some(String::from("AB")));
    assert_eq!(unescape_and_decode(b"&unknown;"), None);
    assert_eq!(unescape_and_decode(b"&amp"), None);
    assert_eq!(unescape_and_decode(b"\xff"), None);
}

fn data_over<'a>(s: &'a mut Vec<String>, range: Radix10Rectange) -> ParserData<'a, Vec<String>, String> {
    ParserData::new(
        s,
        Some(range),
        get_relative_name_parts(b"sheet/row|r|"),
        Some(get_relative_name_parts(b"sheet/row/c|r|")),
        ParserFlags { bits: ParserFlags::DEFAULT_FLAGS_NO_HEADER },
    )
}

#[test]
fn blank_rows_stop_at_the_end_of_the_range() {
    let mut s = Vec::new();
    let mut r = Radix10Rectange::zero();
    r.row = 10;
    r.row_count = 2;
    r.column_count = 1;
    let mut d = data_over(&mut s, r);
    d.col_row_pos_info.row_index = 14;
    assert_eq!(ParserData::get_largest_avalable_empty_lines(&d), 12);
    assert!(d.is_row_greater_than_reading_range());
    d.col_row_pos_info.row_index = 11;
    assert_eq!(ParserData::get_largest_avalable_empty_lines(&d), 11);
    assert!(!d.is_row_greater_than_reading_range());
    d.col_row_pos_info.last_row_index = 8;
    d.update_for_missing_rows();
    assert_eq!(d.holding_for_x_blank_lines, 3);
}

#[test]
fn the_position_is_checked_against_the_range() {
    let mut s = Vec::new();
    let r = Radix10Rectange { column: 1, row: 0, column_count: 2, row_count: 3, is_row_count_infinite: false };
    let mut d = data_over(&mut s, r);
    d.current_tag_line.modify_start_tag(String::from("sheet"));
    d.current_tag_line.modify_start_tag(String::from("row"));
    d.col_row_pos_info.row_index = 2;
    d.col_row_pos_info.column_index = 2;
    d.update_range_items();
    assert!(d.col_row_pos_info.is_in_row_range);
    assert!(d.col_row_pos_info.is_in_col_range);
    assert!(d.col_row_pos_info.in_range);
    assert!(d.col_row_pos_info.is_sub_of_row);
    d.col_row_pos_info.column_index = 0;
    d.update_range_items();
    assert!(!d.col_row_pos_info.is_in_col_range);
    assert!(!d.col_row_pos_info.in_range);
}

#[test]
fn columns_are_laid_out_over_the_range() {
    let mut s = Vec::new();
    let r = Radix10Rectange { column: 1, row: 0, column_count: 3, row_count: 3, is_row_count_infinite: false };
    let d = data_over(&mut s, r);
    let row = d.sort_columns_for_return(&vec![
        (3, String::from("c")),
        (1, String::from("a")),
        (3, String::from("d")),
    ]);
    match row {
        RowValidation::Valid(v) => assert_eq!(v, vec![String::from("a"), String::new(), String::from("d")]),
        _ => panic!("expected a valid row"),
    }
}

#[test]
fn only_asked_for_attributes_are_handed_over() {
    let t = tag("c", &[("r", "A1"), ("t", "s"), ("r", "B1")]);
    let wanted = get_relative_name_parts(b"row/c|r|");
    let m = ParserData::<Vec<String>, String>::hash_attribs_that_exist_both_user_and_xml(&wanted.attribs, &t);
    assert_eq!(m.len(), 1);
    assert_eq!(m.get("r").map(|s| s.as_str()), Some("A1"));
    let all = ParserData::<Vec<String>, String>::get_all_tag_attributes(&t);
    assert_eq!(all.len(), 2);
    assert_eq!(all.get("t").map(|s| s.as_str()), Some("s"));
}

#[test]
fn a_finished_row_is_laid_out_and_its_cells_kept() {
    let mut s: Vec<String> = Vec::new();
    let range = Radix10Rectange { column: 0, row: 0, column_count: 3, row_count: 1, is_row_count_infinite: false };
    let mut p: ParserData<'_, Vec<String>, String> = ParserData::new(
        &mut s,
        Some(range),
        get_relative_name_parts(b"r"),
        Some(get_relative_name_parts(b"r/c")),
        ParserFlags::empty(),
    );
    p.current_tag_line = CurrentTagLine { tag_line: String::from("r"), last_tag_sizes: vec![1] };
    p.col_row_pos_info.is_sub_of_row = true;
    p.col_row_pos_info.is_in_row_range = true;
    let mut header = false;
    let mut drop_it = None;
    let mut rd = vec![(2, String::from("y")), (0, String::from("x"))];
    match p.run_end_tags(&mut header, &mut drop_it, &mut rd) {
        Completion::OkWithRow(RowValidation::Valid(v)) => {
            assert_eq!(v, vec![String::from("x"), String::new(), String::from("y")])
        }
        _ => panic!("expected the row"),
    }
    assert_eq!(rd, vec![(2, String::from("y")), (0, String::from("x"))]);
    assert_eq!(p.current_tag_line.tag_line, "");
    assert!(p.current_tag_line.last_tag_sizes.is_empty());
}

#[test]
fn a_range_too_large_is_refused_by_a_handler() {
    let mut info = NonRowInfo::new(Radix10Rectange::zero(), true, false);
    match info.set_dimensions(String::from("A1:B99999999999999999999999")) {
        Err(e) => assert_eq!(e.message, "Index is too large!"),
        Ok(_) => panic!("the range should be refused"),
    }
    assert_eq!(info.get_dimensions().map(|d| d.column_count), Some(0));
}

#[test]
fn an_index_attribute_is_read_at_the_largest_index() {
    let mut p: ColRowPositionInfo<String> = ColRowPositionInfo::default();
    p.row_index = usize::MAX;
    assert!(p.update_row_index(&tag("row", &[("r", "5")]), Some(b"r")).is_ok());
    assert_eq!(p.row_index, 4);
    p.column_index = usize::MAX;
    assert!(p.update_col_index(&tag("c", &[("r", "B5")]), Some(b"r")).is_ok());
    assert_eq!(p.column_index, 1);
}
