# xlsx

A streaming reader for XML sheets such as the worksheets of an xlsx file, verified with
Verus.

A `CreateParser` walks the document event by event (the events come from `quick_xml`) and
gives the rows of a reading range such as `A1:D20` one at a time. Tag handlers attached to
tag paths (`worksheet/sheetData/row/c/v`, `worksheet/dimension|ref|`) build the cell values,
may read the range from the document, rename header cells, or drop rows. Rows missing from
the document can come back as blank rows, and the first row can be read as a header that
names the columns.

Layout:

- `src/radix10.rs`: cell references (`B3`, `C*`) and ranges (`A1:C9`), decoded against an
  exact model of the reference syntax.
- `src/helpers.rs`: tag descriptions (`path|attr,(capture)|`).
- `src/parser_data.rs`: the parser's state and how each start tag, text and end tag changes
  it; `src/col_row_position_info.rs`: row and column indices from the `r` attributes.
- `src/create_parser.rs`: the parser itself (`new`, `add`, `next`, `on_event`).
- `src/xml_event.rs`, `src/text.rs`: the calls into `quick_xml` and std that the proofs
  trust, each with its contract.
- `tests/`: tests of the library on concrete documents and values.
- `app/`: `Display` and `std::error::Error` for the errors, a constructor with a boxed error,
  and an `Iterator` over the rows.
