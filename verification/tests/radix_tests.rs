use xlsx::{NumberType, Radix10Error, Radix10Rectange};

fn real_ref(s: &str) -> (usize, usize) {
    match Radix10Rectange::get_real_index(s) {
        Ok(NumberType::Real(p)) => p,
        Ok(NumberType::Infinite(c)) => panic!("{} gave infinite column {}", s, c),
        Err(e) => panic!("{} gave error {}", s, e.message),
    }
}

fn index_error(s: &str) -> String {
    match Radix10Rectange::get_real_index(s) {
        Err(e) => e.message,
        Ok(_) => panic!("{} was accepted", s),
    }
}

fn rect(s: &str) -> Radix10Rectange {
    match Radix10Rectange::new(s) {
        Ok(r) => r,
        Err(e) => panic!("{} gave error {}", s, e.message),
    }
}

fn rect_error(s: &str) -> String {
    match Radix10Rectange::new(s) {
        Err(e) => e.message,
        Ok(_) => panic!("{} was accepted", s),
    }
}

fn parts(r: Radix10Rectange) -> (usize, usize, usize, usize, bool) {
    (r.column, r.row, r.column_count, r.row_count, r.is_row_count_infinite)
}

#[test]
fn cell_references_are_zero_based() {
    assert_eq!(real_ref("A1"), (0, 0));
    assert_eq!(real_ref("B3"), (1, 2));
    assert_eq!(real_ref("Z10"), (25, 9));
    assert_eq!(real_ref("AA1"), (26, 0));
    assert_eq!(real_ref("AB12"), (27, 11));
    assert_eq!(real_ref("XFD1048576"), (16383, 1048575));
}

#[test]
fn a_star_makes_an_open_row() {
    match Radix10Rectange::get_real_index("C*") {
        Ok(NumberType::Infinite(c)) => assert_eq!(c, 2),
        _ => panic!("C* should be an open column"),
    }
    match Radix10Rectange::get_real_index("AA*") {
        Ok(NumberType::Infinite(c)) => assert_eq!(c, 26),
        _ => panic!("AA* should be an open column"),
    }
}

#[test]
fn bad_cell_references_are_refused() {
    assert_eq!(index_error(""), "Input is empty");
    assert_eq!(index_error("a1"), "Input contains invalid digit.");
    assert_eq!(index_error("A1B"), "Input contains invalid digit.");
    assert_eq!(index_error("A*1"), "If infinite then only have the * symbol and nothing else after");
    assert_eq!(index_error("A0"), "Not a valid xlsx ref.");
    assert_eq!(index_error("12"), "Not a valid xlsx ref.");
    assert_eq!(index_error("A"), "Not a valid xlsx ref.");
    assert_eq!(index_error("*"), "Not a valid xlsx ref.");
}

#[test]
fn ranges_cover_both_corners() {
    assert_eq!(parts(rect("A1:C9")), (0, 0, 3, 9, false));
    assert_eq!(parts(rect("B2:B2")), (1, 1, 1, 1, false));
    assert_eq!(parts(rect("A1:C*")), (0, 0, 3, 1, true));
    assert_eq!(parts(rect("A*:C5")), (0, 4, 3, 0, true));
    assert_eq!(parts(rect("C*:A*")), (0, 0, 3, 0, true));
}

#[test]
fn a_range_read_backwards_is_the_same_range() {
    assert_eq!(parts(rect("C9:A1")), parts(rect("A1:C9")));
    assert_eq!(parts(rect("A9:C1")), parts(rect("C1:A9")));
    assert_eq!(parts(rect("D7:B3")), (1, 2, 3, 5, false));
}

#[test]
fn bad_ranges_are_refused() {
    assert_eq!(rect_error(""), "Canno't be an empty string");
    assert_eq!(rect_error("   "), "Canno't be an empty string");
    assert_eq!(rect_error("A1"), "Need to have a : to get column and row");
    assert_eq!(rect_error("A1:B2:C3"), "Too many : in input");
    assert_eq!(rect_error("a1:b2"), "Input contains invalid digit.");
    assert_eq!(rect_error("A1:"), "Undescripbed error");
    assert_eq!(rect_error(":A1"), "Undescripbed error");
}

#[test]
fn both_corners_are_read_apart() {
    let (a, b) = Radix10Rectange::get_row_col_real_index("B2:D*");
    match (a, b) {
        (Ok(NumberType::Real(p)), Ok(NumberType::Infinite(c))) => {
            assert_eq!(p, (1, 1));
            assert_eq!(c, 3);
        }
        _ => panic!("expected a real and an open corner"),
    }
    match Radix10Rectange::get_row_col_real_index("B2") {
        (Err(x), Err(y)) => {
            assert_eq!(x.message, "Need to have a : to get column and row");
            assert_eq!(y.message, "Need to have a : to get column and row");
        }
        _ => panic!("expected two errors"),
    }
}

#[test]
fn the_zero_rectangle_is_empty() {
    assert_eq!(parts(Radix10Rectange::zero()), (0, 0, 0, 0, false));
}

#[test]
fn radix_errors_describe_themselves() {
    let e = Radix10Error::from("oops");
    assert_eq!(e.message, "oops");
    assert_eq!(e.describe(), "Error in Radix10 oops ");
    assert_eq!(e.description(), "Parse error");
}

#[test]
fn fitting_references_are_recognised() {
    assert!(Radix10Rectange::fits_index("A1"));
    assert!(Radix10Rectange::fits("A1:ZZ99999"));
    assert!(!Radix10Rectange::fits_index("A99999999999999999999999"));
    assert!(!Radix10Rectange::fits("A1:B99999999999999999999999"));
}

#[test]
fn unicode_white_space_is_an_empty_range() {
    assert_eq!(rect_error("\u{3000}\u{2003}\t"), "Canno't be an empty string");
}
