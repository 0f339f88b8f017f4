//! Spreadsheet cell references ("A1", "AB12", "C*") and the rectangles they span ("A1:C7").
//!
//! A reference is a run of upper case letters naming the column in bijective base 26
//! (`A` = 1, `Z` = 26, `AA` = 27, ...) followed by a decimal row number (1 based), or by
//! `*` for a reference that is unbounded in the row direction. Indices are returned 0 based.
use vstd::prelude::*;
use crate::text::chars_of;

verus! {

/// Error raised while reading a cell reference or a range.
pub struct Radix10Error {
    pub message: String,
}

impl Radix10Error {
    /// Builds an error that carries `inp` as its message.
    pub fn from(inp: &str) -> (e: Radix10Error)
        ensures
            e.message@ == inp@,
    {
        Radix10Error { message: inp.to_owned() }
    }

    /// The text shown for the error: `Error in Radix10 <message> `.
    pub fn describe(&self) -> (s: String)
        ensures
            s@ == "Error in Radix10 "@ + self.message@ + " "@,
    {
        let mut s = String::from_str("Error in Radix10 ");
        s.append(self.message.as_str());
        s.append(" ");
        s
    }

    /// The short description, `Parse error`.
    pub fn description(&self) -> (s: &'static str)
        ensures
            s@ == "Parse error"@,
    {
        "Parse error"
    }
}

/// A decoded reference: `Real((column, row))`, or `Infinite(column)` for `<letters>*`.
pub enum NumberType {
    Infinite(usize),
    Real((usize, usize)),
}

/// A rectangle of cells: first column and row (0 based), how many columns and rows it has,
/// and whether it is open ended downwards.
#[derive(Clone, Copy)]
pub struct Radix10Rectange {
    pub column: usize,
    pub row: usize,
    pub column_count: usize,
    pub row_count: usize,
    pub is_row_count_infinite: bool,
}

impl Radix10Rectange {
    /// The last row and the last column are within `usize`.
    pub open spec fn wf(self) -> bool {
        self.row + self.row_count <= usize::MAX && self.column + self.column_count <= usize::MAX
    }
}

// ---------------------------------------------------------------------------------------
// The model.
// ---------------------------------------------------------------------------------------
/// The error messages of references and ranges.
pub open spec fn msg_input_empty() -> Seq<char> {
    "Input is empty"@
}

pub open spec fn msg_invalid_digit() -> Seq<char> {
    "Input contains invalid digit."@
}

pub open spec fn msg_after_star() -> Seq<char> {
    "If infinite then only have the * symbol and nothing else after"@
}

pub open spec fn msg_not_valid_ref() -> Seq<char> {
    "Not a valid xlsx ref."@
}

pub open spec fn msg_need_colon() -> Seq<char> {
    "Need to have a : to get column and row"@
}

pub open spec fn msg_too_many_colons() -> Seq<char> {
    "Too many : in input"@
}

pub open spec fn msg_empty_string() -> Seq<char> {
    "Canno't be an empty string"@
}

pub open spec fn msg_undescribed() -> Seq<char> {
    "Undescripbed error"@
}

/// An upper case ASCII letter.
pub open spec fn is_upper(c: char) -> bool {
    'A' <= c && c <= 'Z'
}

/// An ASCII decimal digit.
pub open spec fn is_dec(c: char) -> bool {
    '0' <= c && c <= '9'
}

/// Length of the longest prefix of `s` made of upper case letters: the column part.
pub open spec fn upper_prefix_len(s: Seq<char>) -> nat
    decreases s.len(),
{
    if s.len() > 0 && is_upper(s[0]) {
        1 + upper_prefix_len(s.drop_first())
    } else {
        0
    }
}

/// Value of a column name in bijective base 26 (`A` = 1, ..., `Z` = 26, `AA` = 27).
pub open spec fn base26(s: Seq<char>) -> nat
    decreases s.len(),
{
    if s.len() == 0 {
        0
    } else {
        base26(s.drop_last()) * 26 + (s.last() as nat - 'A' as nat + 1) as nat
    }
}

/// Value of a string of decimal digits.
pub open spec fn base10(s: Seq<char>) -> nat
    decreases s.len(),
{
    if s.len() == 0 {
        0
    } else {
        base10(s.drop_last()) * 10 + (s.last() as nat - '0' as nat) as nat
    }
}

/// Checks the part after the column letters, left to right: `*` marks the reference as
/// unbounded, and after a `*` nothing else but `*` may follow; otherwise only digits.
/// Gives whether the reference is unbounded, or the message of the first fault.
pub open spec fn scan_rest(r: Seq<char>, inf: bool) -> Result<bool, Seq<char>>
    decreases r.len(),
{
    if r.len() == 0 {
        Ok(inf)
    } else if r[0] == '*' {
        scan_rest(r.drop_first(), true)
    } else if inf {
        Err(msg_after_star())
    } else if is_dec(r[0]) {
        scan_rest(r.drop_first(), false)
    } else {
        Err(msg_invalid_digit())
    }
}

/// What `get_real_index` gives for a reference: the decoded reference or the error message.
pub open spec fn spec_real_index(s: Seq<char>) -> Result<NumberType, Seq<char>> {
    if s.len() == 0 {
        Err(msg_input_empty())
    } else {
        let k = upper_prefix_len(s);
        match scan_rest(s.skip(k as int), false) {
            Err(m) => Err(m),
            Ok(inf) => {
                let col = base26(s.take(k as int));
                let row = base10(s.skip(k as int));
                if col == 0 || (row == 0 && !inf) {
                    Err(msg_not_valid_ref())
                } else if inf {
                    Ok(NumberType::Infinite((col - 1) as usize))
                } else {
                    Ok(NumberType::Real(((col - 1) as usize, (row - 1) as usize)))
                }
            },
        }
    }
}

/// The numbers of a reference fit in a `usize` (only asked of a reference that is well formed).
pub open spec fn index_fits(s: Seq<char>) -> bool {
    let k = upper_prefix_len(s);
    match scan_rest(s.skip(k as int), false) {
        Err(_) => true,
        Ok(inf) => base26(s.take(k as int)) <= usize::MAX && (!inf ==> base10(s.skip(k as int))
            <= usize::MAX),
    }
}

/// How many times `c` occurs in `s`.
pub open spec fn count_char(s: Seq<char>, c: char) -> nat
    decreases s.len(),
{
    if s.len() == 0 {
        0
    } else {
        count_char(s.drop_last(), c) + if s.last() == c {
            1nat
        } else {
            0nat
        }
    }
}

/// Index of the first `c` in `s` (`s.len()` when there is none).
pub open spec fn first_index_of(s: Seq<char>, c: char) -> nat
    decreases s.len(),
{
    if s.len() == 0 {
        0
    } else if s[0] == c {
        0
    } else {
        1 + first_index_of(s.drop_first(), c)
    }
}

/// The two halves of a range `left:right`, when it holds exactly one colon.
pub open spec fn range_left(s: Seq<char>) -> Seq<char> {
    s.take(first_index_of(s, ':') as int)
}

/// What follows the first colon of a range.
pub open spec fn range_right(s: Seq<char>) -> Seq<char> {
    s.skip(first_index_of(s, ':') as int + 1)
}

/// What `get_row_col_real_index` gives for a range.
pub open spec fn spec_row_col(s: Seq<char>) -> (
    Result<NumberType, Seq<char>>,
    Result<NumberType, Seq<char>>,
) {
    let n = count_char(s, ':');
    if n == 0 {
        (Err(msg_need_colon()), Err(msg_need_colon()))
    } else if n == 1 {
        (spec_real_index(range_left(s)), spec_real_index(range_right(s)))
    } else {
        (Err(msg_too_many_colons()), Err(msg_too_many_colons()))
    }
}

/// The numbers of both halves of a range fit in a `usize`.
pub open spec fn range_fits(s: Seq<char>) -> bool {
    count_char(s, ':') == 1 ==> index_fits(range_left(s)) && index_fits(range_right(s))
}

/// The characters that `char::is_whitespace` accepts (Unicode `White_Space`).
pub open spec fn is_white_space(c: char) -> bool {
    let u = c as u32;
    (0x9 <= u && u <= 0xD) || u == 0x20 || u == 0x85 || u == 0xA0 || u == 0x1680 || (0x2000 <= u
        && u <= 0x200A) || u == 0x2028 || u == 0x2029 || u == 0x202F || u == 0x205F || u
        == 0x3000
}

/// `s` is empty once white space is trimmed.
pub open spec fn all_white_space(s: Seq<char>) -> bool {
    forall|i: int| 0 <= i < s.len() ==> is_white_space(#[trigger] s[i])
}

/// The smaller of two indices.
pub open spec fn min_u(a: usize, b: usize) -> usize {
    if a > b {
        b
    } else {
        a
    }
}

/// How far apart two indices are.
pub open spec fn dist_u(a: usize, b: usize) -> int {
    if a > b {
        a - b
    } else {
        b - a
    }
}

/// The rectangle spanned by two decoded references, or the error, as `Radix10Rectange::new`
/// builds it from the halves of a range.
pub open spec fn spec_rect_of(
    l: Result<NumberType, Seq<char>>,
    r: Result<NumberType, Seq<char>>,
) -> Result<Radix10Rectange, Seq<char>> {
    match (l, r) {
        (Ok(NumberType::Real(a)), Ok(NumberType::Real(b))) => Ok(
            Radix10Rectange {
                column: min_u(a.0, b.0),
                row: min_u(a.1, b.1),
                column_count: (dist_u(a.0, b.0) + 1) as usize,
                row_count: (dist_u(a.1, b.1) + 1) as usize,
                is_row_count_infinite: false,
            },
        ),
        (Ok(NumberType::Real(a)), Ok(NumberType::Infinite(b))) => Ok(
            Radix10Rectange {
                column: min_u(a.0, b),
                row: a.1,
                column_count: (dist_u(a.0, b) + 1) as usize,
                row_count: 1,
                is_row_count_infinite: true,
            },
        ),
        (Ok(NumberType::Infinite(a)), Ok(NumberType::Real(b))) => Ok(
            Radix10Rectange {
                column: min_u(a, b.0),
                row: b.1,
                column_count: (dist_u(a, b.0) + 1) as usize,
                row_count: 0,
                is_row_count_infinite: true,
            },
        ),
        (Ok(NumberType::Infinite(a)), Ok(NumberType::Infinite(b))) => Ok(
            Radix10Rectange {
                column: min_u(a, b),
                row: 0,
                column_count: (dist_u(a, b) + 1) as usize,
                row_count: 0,
                is_row_count_infinite: true,
            },
        ),
        (Err(m), Err(_)) => Err(m),
        _ => Err(msg_undescribed()),
    }
}

/// What `Radix10Rectange::new` gives for a range.
pub open spec fn spec_rect(s: Seq<char>) -> Result<Radix10Rectange, Seq<char>> {
    if all_white_space(s) {
        Err(msg_empty_string())
    } else {
        let p = spec_row_col(s);
        spec_rect_of(p.0, p.1)
    }
}

/// An executable result agrees with a modelled one (errors by their message).
pub open spec fn index_result_is(
    r: Result<NumberType, Radix10Error>,
    m: Result<NumberType, Seq<char>>,
) -> bool {
    match (r, m) {
        (Ok(a), Ok(b)) => a == b,
        (Err(e), Err(msg)) => e.message@ == msg,
        _ => false,
    }
}

/// An executable range result agrees with a modelled one (errors by their message).
pub open spec fn rect_result_is(
    r: Result<Radix10Rectange, Radix10Error>,
    m: Result<Radix10Rectange, Seq<char>>,
) -> bool {
    match (r, m) {
        (Ok(a), Ok(b)) => a == b,
        (Err(e), Err(msg)) => e.message@ == msg,
        _ => false,
    }
}

// ---------------------------------------------------------------------------------------
// Lemmas on the model.
// ---------------------------------------------------------------------------------------
proof fn lemma_base26_mono(s: Seq<char>, i: int, j: int)
    requires
        0 <= i <= j <= s.len(),
        forall|t: int| 0 <= t < s.len() ==> is_upper(#[trigger] s[t]),
    ensures
        base26(s.take(i)) <= base26(s.take(j)),
    decreases j - i,
{
    if i < j {
        lemma_base26_mono(s, i, j - 1);
        assert(s.take(j).drop_last() =~= s.take(j - 1));
    }
}

proof fn lemma_base10_mono(s: Seq<char>, i: int, j: int)
    requires
        0 <= i <= j <= s.len(),
        forall|t: int| 0 <= t < s.len() ==> is_dec(#[trigger] s[t]),
    ensures
        base10(s.take(i)) <= base10(s.take(j)),
    decreases j - i,
{
    if i < j {
        lemma_base10_mono(s, i, j - 1);
        assert(s.take(j).drop_last() =~= s.take(j - 1));
    }
}

proof fn lemma_upper_prefix(s: Seq<char>)
    ensures
        upper_prefix_len(s) <= s.len(),
        forall|t: int| 0 <= t < upper_prefix_len(s) ==> is_upper(#[trigger] s[t]),
        upper_prefix_len(s) < s.len() ==> !is_upper(s[upper_prefix_len(s) as int]),
    decreases s.len(),
{
    if s.len() > 0 && is_upper(s[0]) {
        lemma_upper_prefix(s.drop_first());
        assert forall|t: int| 0 <= t < upper_prefix_len(s) implies is_upper(#[trigger] s[t]) by {
            if t > 0 {
                assert(s[t] == s.drop_first()[t - 1]);
            }
        }
    }
}

/// Scanning the rest left to right, one character at a time, agrees with `scan_rest`.
proof fn lemma_scan_step(r: Seq<char>, i: int, inf: bool)
    requires
        0 <= i < r.len(),
    ensures
        scan_rest(r.skip(i), inf) == (if r[i] == '*' {
            scan_rest(r.skip(i + 1), true)
        } else if inf {
            Err(msg_after_star())
        } else if is_dec(r[i]) {
            scan_rest(r.skip(i + 1), false)
        } else {
            Err(msg_invalid_digit())
        }),
{
    assert(r.skip(i).drop_first() =~= r.skip(i + 1));
}

/// A successful scan without `*` leaves only digits.
proof fn lemma_scan_ok_digits(r: Seq<char>)
    requires
        scan_rest(r, false) == Ok::<bool, Seq<char>>(false),
    ensures
        forall|t: int| 0 <= t < r.len() ==> is_dec(#[trigger] r[t]),
    decreases r.len(),
{
    if r.len() > 0 {
        if r[0] == '*' {
            lemma_scan_inf_stays(r.drop_first());
        } else {
            lemma_scan_ok_digits(r.drop_first());
            assert forall|t: int| 0 <= t < r.len() implies is_dec(#[trigger] r[t]) by {
                if t > 0 {
                    assert(r[t] == r.drop_first()[t - 1]);
                }
            }
        }
    }
}

proof fn lemma_scan_inf_stays(r: Seq<char>)
    ensures
        scan_rest(r, true) != Ok::<bool, Seq<char>>(false),
    decreases r.len(),
{
    if r.len() > 0 && r[0] == '*' {
        lemma_scan_inf_stays(r.drop_first());
    }
}

proof fn lemma_count_first(s: Seq<char>, c: char)
    ensures
        first_index_of(s, c) <= s.len(),
        first_index_of(s, c) < s.len() ==> s[first_index_of(s, c) as int] == c,
        forall|t: int| 0 <= t < first_index_of(s, c) ==> #[trigger] s[t] != c,
        count_char(s, c) == 0 <==> first_index_of(s, c) == s.len(),
        count_char(s, c) == count_char(s.take(first_index_of(s, c) as int), c) + (if first_index_of(
            s,
            c,
        ) < s.len() {
            1 + count_char(s.skip(first_index_of(s, c) as int + 1), c)
        } else {
            0
        }),
    decreases s.len(),
{
    lemma_count_split(s, c);
    if s.len() > 0 && s[0] != c {
        lemma_count_first(s.drop_first(), c);
        let f = first_index_of(s.drop_first(), c) as int;
        assert forall|t: int| 0 <= t < first_index_of(s, c) implies #[trigger] s[t] != c by {
            if t > 0 {
                assert(s[t] == s.drop_first()[t - 1]);
            }
        }
        assert(s.take(f + 1).drop_first() =~= s.drop_first().take(f as int));
        if f < s.drop_first().len() {
            assert(s.skip(f + 2) =~= s.drop_first().skip(f + 1));
        }
        lemma_count_split(s.take(f + 1), c);
    }
    if s.len() > 0 && s[0] == c {
        assert(s.take(0) =~= Seq::<char>::empty());
        assert(s.skip(1) =~= s.drop_first());
    }
}

/// Counting from the front gives the same as counting from the back.
proof fn lemma_count_split(s: Seq<char>, c: char)
    ensures
        s.len() > 0 ==> count_char(s, c) == (if s[0] == c {
            1nat
        } else {
            0nat
        }) + count_char(s.drop_first(), c),
    decreases s.len(),
{
    if s.len() > 1 {
        lemma_count_split(s.drop_last(), c);
        assert(s.drop_last().drop_first() =~= s.drop_first().drop_last());
    } else if s.len() == 1 {
        assert(s.drop_first() =~= Seq::<char>::empty());
        assert(s.drop_last() =~= Seq::<char>::empty());
    }
}

// ---------------------------------------------------------------------------------------
// Executable code.
// ---------------------------------------------------------------------------------------
/// Whether `c` is white space (Unicode `White_Space`), as `char::is_whitespace` decides.
fn char_is_whitespace(c: char) -> (b: bool)
    ensures
        b == is_white_space(c),
{
    let u = c as u32;
    (0x9 <= u && u <= 0xD) || u == 0x20 || u == 0x85 || u == 0xA0 || u == 0x1680 || (0x2000 <= u
        && u <= 0x200A) || u == 0x2028 || u == 0x2029 || u == 0x202F || u == 0x205F || u
        == 0x3000
}

/// Decodes a reference given as a sequence of characters.
fn real_index_of_chars(s: &Vec<char>) -> (res: Result<NumberType, Radix10Error>)
    requires
        index_fits(s@),
    ensures
        index_result_is(res, spec_real_index(s@)),
{
    if s.len() == 0 {
        return Err(Radix10Error::from("Input is empty"));
    }
    proof {
        lemma_upper_prefix(s@);
    }
    // the column letters
    let mut k: usize = 0;
    while k < s.len() && 'A' <= s[k] && s[k] <= 'Z'
        invariant
            k <= s.len(),
            forall|t: int| 0 <= t < k ==> is_upper(#[trigger] s@[t]),
            k <= upper_prefix_len(s@),
            upper_prefix_len(s@) <= s@.len(),
            forall|t: int| 0 <= t < upper_prefix_len(s@) ==> is_upper(#[trigger] s@[t]),
            upper_prefix_len(s@) < s@.len() ==> !is_upper(s@[upper_prefix_len(s@) as int]),
        decreases s.len() - k,
    {
        k = k + 1;
    }
    assert(k == upper_prefix_len(s@));
    let ghost r = s@.skip(k as int);
    // the rest: digits, or `*` and nothing else after it
    let mut is_inf = false;
    let mut i: usize = k;
    while i < s.len()
        invariant
            k <= i <= s.len(),
            s@.len() > 0,
            k == upper_prefix_len(s@),
            r == s@.skip(k as int),
            scan_rest(r, false) == scan_rest(s@.skip(i as int), is_inf),
            !is_inf ==> forall|t: int| k <= t < i ==> is_dec(#[trigger] s@[t]),
        decreases s.len() - i,
    {
        let c = s[i];
        proof {
            lemma_scan_step(s@, i as int, is_inf);
        }
        if c == '*' {
            is_inf = true;
        } else if is_inf {
            assert(scan_rest(r, false) == Err::<bool, Seq<char>>(msg_after_star()));
            assert(spec_real_index(s@) == Err::<NumberType, Seq<char>>(msg_after_star()));
            return Err(Radix10Error::from("If infinite then only have the * symbol and nothing else after"));
        } else if '0' <= c && c <= '9' {
        } else {
            return Err(Radix10Error::from("Input contains invalid digit."));
        }
        i = i + 1;
    }
    assert(s@.skip(s@.len() as int) =~= Seq::<char>::empty());
    assert(scan_rest(r, false) == Ok::<bool, Seq<char>>(is_inf));
    // the column number
    let ghost letters = s@.take(k as int);
    let mut column: usize = 0;
    let mut j: usize = 0;
    proof {
        assert(letters.take(0) =~= Seq::<char>::empty());
        assert forall|t: int| 0 <= t < letters.len() implies is_upper(#[trigger] letters[t]) by {}
        lemma_base26_mono(letters, 0, k as int);
        assert(letters.take(k as int) =~= letters);
    }
    while j < k
        invariant
            j <= k <= s.len(),
            letters == s@.take(k as int),
            forall|t: int| 0 <= t < letters.len() ==> is_upper(#[trigger] letters[t]),
            column == base26(letters.take(j as int)),
            base26(letters) <= usize::MAX,
        decreases k - j,
    {
        proof {
            lemma_base26_mono(letters, j + 1, k as int);
            assert(letters.take(k as int) =~= letters);
            assert(letters.take(j + 1).drop_last() =~= letters.take(j as int));
        }
        let d = (s[j] as u32 - 'A' as u32 + 1) as usize;
        column = column * 26 + d;
        j = j + 1;
    }
    assert(letters.take(k as int) =~= letters);
    // the row number
    let mut row: usize = 0;
    if !is_inf {
        proof {
            lemma_scan_ok_digits(r);
        }
        let mut j: usize = k;
        proof {
            assert(r.take(0) =~= Seq::<char>::empty());
            lemma_base10_mono(r, 0, r.len() as int);
            assert(r.take(r.len() as int) =~= r);
        }
        while j < s.len()
            invariant
                k <= j <= s.len(),
                r == s@.skip(k as int),
                forall|t: int| 0 <= t < r.len() ==> is_dec(#[trigger] r[t]),
                row == base10(r.take(j - k)),
                base10(r) <= usize::MAX,
            decreases s.len() - j,
        {
            proof {
                lemma_base10_mono(r, j - k + 1, r.len() as int);
                assert(r.take(r.len() as int) =~= r);
                assert(r.take(j - k + 1).drop_last() =~= r.take(j - k));
                assert(r[j - k] == s@[j as int]);
            }
            let d = (s[j] as u32 - '0' as u32) as usize;
            row = row * 10 + d;
            j = j + 1;
        }
        assert(r.take(r.len() as int) =~= r);
    }
    if column == 0 || (row == 0 && !is_inf) {
        Err(Radix10Error::from("Not a valid xlsx ref."))
    } else if is_inf {
        Ok(NumberType::Infinite(column - 1))
    } else {
        Ok(NumberType::Real((column - 1, row - 1)))
    }
}

/// Whether the numbers of a reference fit in a `usize`.
fn index_fits_chars(s: &Vec<char>) -> (b: bool)
    ensures
        b == index_fits(s@),
{
    proof {
        lemma_upper_prefix(s@);
    }
    let mut k: usize = 0;
    while k < s.len() && 'A' <= s[k] && s[k] <= 'Z'
        invariant
            k <= s.len(),
            k <= upper_prefix_len(s@),
            upper_prefix_len(s@) <= s@.len(),
            upper_prefix_len(s@) < s@.len() ==> !is_upper(s@[upper_prefix_len(s@) as int]),
        decreases s.len() - k,
    {
        k = k + 1;
    }
    assert(k == upper_prefix_len(s@));
    let ghost r = s@.skip(k as int);
    let mut is_inf = false;
    let mut i: usize = k;
    while i < s.len()
        invariant
            k <= i <= s.len(),
            k == upper_prefix_len(s@),
            r == s@.skip(k as int),
            scan_rest(r, false) == scan_rest(s@.skip(i as int), is_inf),
        decreases s.len() - i,
    {
        let c = s[i];
        proof {
            lemma_scan_step(s@, i as int, is_inf);
        }
        if c == '*' {
            is_inf = true;
        } else if is_inf || !('0' <= c && c <= '9') {
            return true;
        }
        i = i + 1;
    }
    assert(s@.skip(s@.len() as int) =~= Seq::<char>::empty());
    assert(scan_rest(r, false) == Ok::<bool, Seq<char>>(is_inf));
    let ghost letters = s@.take(k as int);
    let mut column: usize = 0;
    let mut j: usize = 0;
    assert(letters.take(0) =~= Seq::<char>::empty());
    while j < k
        invariant
            j <= k <= s.len(),
            letters == s@.take(k as int),
            forall|t: int| 0 <= t < upper_prefix_len(s@) ==> is_upper(#[trigger] s@[t]),
            k == upper_prefix_len(s@),
            r == s@.skip(k as int),
            scan_rest(r, false) == Ok::<bool, Seq<char>>(is_inf),
            column == base26(letters.take(j as int)),
        decreases k - j,
    {
        proof {
            assert(letters.take(j + 1).drop_last() =~= letters.take(j as int));
            assert forall|t: int| 0 <= t < letters.len() implies is_upper(#[trigger] letters[t]) by {}
            lemma_base26_mono(letters, j + 1, k as int);
            assert(letters.take(k as int) =~= letters);
        }
        let d = (s[j] as u32 - 'A' as u32 + 1) as usize;
        if column > (usize::MAX - d) / 26 {
            assert(column * 26 + d > usize::MAX) by (nonlinear_arith)
                requires
                    column > (usize::MAX - d) / 26,
                    d <= 26,
            ;
            return false;
        }
        column = column * 26 + d;
        j = j + 1;
    }
    assert(letters.take(k as int) =~= letters);
    if is_inf {
        return true;
    }
    proof {
        lemma_scan_ok_digits(r);
    }
    let mut row: usize = 0;
    let mut j: usize = k;
    assert(r.take(0) =~= Seq::<char>::empty());
    while j < s.len()
        invariant
            k <= j <= s.len(),
            k == upper_prefix_len(s@),
            r == s@.skip(k as int),
            scan_rest(r, false) == Ok::<bool, Seq<char>>(false),
            forall|t: int| 0 <= t < r.len() ==> is_dec(#[trigger] r[t]),
            row == base10(r.take(j - k)),
        decreases s.len() - j,
    {
        proof {
            assert(r.take(j - k + 1).drop_last() =~= r.take(j - k));
            assert(r[j - k] == s@[j as int]);
            lemma_base10_mono(r, j - k + 1, r.len() as int);
            assert(r.take(r.len() as int) =~= r);
        }
        let d = (s[j] as u32 - '0' as u32) as usize;
        if row > (usize::MAX - d) / 10 {
            assert(row * 10 + d > usize::MAX) by (nonlinear_arith)
                requires
                    row > (usize::MAX - d) / 10,
                    d <= 9,
            ;
            return false;
        }
        row = row * 10 + d;
        j = j + 1;
    }
    assert(r.take(r.len() as int) =~= r);
    true
}

impl Radix10Rectange {
    /// Whether the numbers of the reference `input_str` fit in a `usize`, which
    /// `get_real_index` asks of its input.
    pub fn fits_index(input_str: &str) -> (b: bool)
        ensures
            b == index_fits(input_str@),
    {
        let v = chars_of(input_str);
        index_fits_chars(&v)
    }

    /// Whether every number in the range `cell_ref` fits in a `usize`, which `new` and
    /// `get_row_col_real_index` ask of their input.
    pub fn fits(cell_ref: &str) -> (b: bool)
        ensures
            b == range_fits(cell_ref@),
    {
        let v = chars_of(cell_ref);
        proof {
            lemma_count_first(v@, ':');
        }
        let mut first: usize = 0;
        while first < v.len() && v[first] != ':'
            invariant
                first <= v.len(),
                forall|t: int| 0 <= t < first ==> #[trigger] v@[t] != ':',
                first <= first_index_of(v@, ':'),
                first_index_of(v@, ':') <= v@.len(),
                first_index_of(v@, ':') < v@.len() ==> v@[first_index_of(v@, ':') as int] == ':',
            decreases v.len() - first,
        {
            first = first + 1;
        }
        if first == v.len() {
            return true;
        }
        let mut left: Vec<char> = Vec::new();
        let mut right: Vec<char> = Vec::new();
        let mut more_colons = false;
        let mut t: usize = 0;
        while t < first
            invariant
                t <= first < v.len(),
                left@ == v@.take(t as int),
            decreases first - t,
        {
            left.push(v[t]);
            t = t + 1;
        }
        let mut t: usize = first + 1;
        while t < v.len()
            invariant
                first + 1 <= t <= v.len(),
                right@ == v@.subrange(first + 1, t as int),
                more_colons == (count_char(right@, ':') > 0),
            decreases v.len() - t,
        {
            if v[t] == ':' {
                more_colons = true;
            }
            right.push(v[t]);
            t = t + 1;
            assert(right@.drop_last() =~= v@.subrange(first + 1, t - 1));
        }
        assert(left@ =~= range_left(v@));
        assert(right@ =~= range_right(v@));
        proof {
            lemma_no_char(v@.take(first as int), ':');
        }
        if more_colons {
            return true;
        }
        index_fits_chars(&left) && index_fits_chars(&right)
    }

    /// Reads a range such as `A1:C7`, `B2:D*` or `A*:C*`. The two corners may come in any
    /// order; the rectangle starts at the smaller index of each axis.
    pub fn new(cell_ref: &str) -> (res: Result<Self, Radix10Error>)
        requires
            range_fits(cell_ref@),
        ensures
            rect_result_is(res, spec_rect(cell_ref@)),
            res matches Ok(r) ==> r.wf(),
    {
        let v = chars_of(cell_ref);
        let mut blank = true;
        let mut i: usize = 0;
        while i < v.len()
            invariant
                i <= v.len(),
                blank == (forall|t: int| 0 <= t < i ==> is_white_space(#[trigger] v@[t])),
            decreases v.len() - i,
        {
            if !char_is_whitespace(v[i]) {
                blank = false;
            }
            i = i + 1;
        }
        if blank {
            return Err(Radix10Error::from("Canno't be an empty string"));
        }
        let (l, r) = Self::row_col_of_chars(&v);
        match (l, r) {
            (Ok(NumberType::Real(p_top_left)), Ok(NumberType::Real(p_bottom_right))) => {
                let (col, col_count) = if p_top_left.0 > p_bottom_right.0 {
                    (p_bottom_right.0, p_top_left.0 - p_bottom_right.0)
                } else {
                    (p_top_left.0, p_bottom_right.0 - p_top_left.0)
                };
                let (row, row_count) = if p_top_left.1 > p_bottom_right.1 {
                    (p_bottom_right.1, p_top_left.1 - p_bottom_right.1)
                } else {
                    (p_top_left.1, p_bottom_right.1 - p_top_left.1)
                };
                Ok(
                    Radix10Rectange {
                        column: col,
                        row: row,
                        column_count: col_count + 1,
                        row_count: row_count + 1,
                        is_row_count_infinite: false,
                    },
                )
            },
            (Ok(NumberType::Real(p_top_left)), Ok(NumberType::Infinite(p_bottom_right))) => {
                let (col, col_count) = if p_top_left.0 > p_bottom_right {
                    (p_bottom_right, p_top_left.0 - p_bottom_right)
                } else {
                    (p_top_left.0, p_bottom_right - p_top_left.0)
                };
                Ok(
                    Radix10Rectange {
                        column: col,
                        row: p_top_left.1,
                        column_count: col_count + 1,
                        row_count: 0 + 1,
                        is_row_count_infinite: true,
                    },
                )
            },
            (Ok(NumberType::Infinite(inf_column)), Ok(NumberType::Real((col_ind, bottom_row_ind)))) => {
                let (col, col_count) = if inf_column > col_ind {
                    (col_ind, inf_column - col_ind)
                } else {
                    (inf_column, col_ind - inf_column)
                };
                Ok(
                    Radix10Rectange {
                        column: col,
                        row: bottom_row_ind,
                        column_count: col_count + 1,
                        row_count: 0,
                        is_row_count_infinite: true,
                    },
                )
            },
            (Ok(NumberType::Infinite(inf_column)), Ok(NumberType::Infinite(inf_column_two))) => {
                let (col, col_count) = if inf_column > inf_column_two {
                    (inf_column_two, inf_column - inf_column_two)
                } else {
                    (inf_column, inf_column_two - inf_column)
                };
                Ok(
                    Radix10Rectange {
                        column: col,
                        row: 0,
                        column_count: col_count + 1,
                        row_count: 0,
                        is_row_count_infinite: true,
                    },
                )
            },
            (Err(error1), Err(_)) => Err(error1),
            (_, _) => Err(Radix10Error::from("Undescripbed error")),
        }
    }

    /// Whether the last row and the last column are within `usize`.
    pub fn is_wf(&self) -> (b: bool)
        ensures
            b == self.wf(),
    {
        self.row <= usize::MAX - self.row_count && self.column <= usize::MAX - self.column_count
    }

    /// The empty rectangle at `A1`.
    pub fn zero() -> (r: Self)
        ensures
            r == (Radix10Rectange {
                column: 0,
                row: 0,
                column_count: 0,
                row_count: 0,
                is_row_count_infinite: false,
            }),
    {
        Radix10Rectange {
            column: 0,
            row: 0,
            column_count: 0,
            row_count: 0,
            is_row_count_infinite: false,
        }
    }

    /// Decodes one reference: `B3` gives `Real((1, 2))`, `C*` gives `Infinite(2)`.
    pub fn get_real_index(input_str: &str) -> (res: Result<NumberType, Radix10Error>)
        requires
            index_fits(input_str@),
        ensures
            index_result_is(res, spec_real_index(input_str@)),
    {
        let v = chars_of(input_str);
        real_index_of_chars(&v)
    }

    /// Decodes both corners of a range `left:right`.
    pub fn get_row_col_real_index(cell_ref: &str) -> (res: (
        Result<NumberType, Radix10Error>,
        Result<NumberType, Radix10Error>,
    ))
        requires
            range_fits(cell_ref@),
        ensures
            index_result_is(res.0, spec_row_col(cell_ref@).0),
            index_result_is(res.1, spec_row_col(cell_ref@).1),
    {
        let v = chars_of(cell_ref);
        Self::row_col_of_chars(&v)
    }

    fn row_col_of_chars(v: &Vec<char>) -> (res: (
        Result<NumberType, Radix10Error>,
        Result<NumberType, Radix10Error>,
    ))
        requires
            range_fits(v@),
        ensures
            index_result_is(res.0, spec_row_col(v@).0),
            index_result_is(res.1, spec_row_col(v@).1),
    {
        proof {
            lemma_count_first(v@, ':');
        }
        let mut first: usize = 0;
        while first < v.len() && v[first] != ':'
            invariant
                first <= v.len(),
                forall|t: int| 0 <= t < first ==> #[trigger] v@[t] != ':',
                first <= first_index_of(v@, ':'),
                first_index_of(v@, ':') <= v@.len(),
                first_index_of(v@, ':') < v@.len() ==> v@[first_index_of(v@, ':') as int] == ':',
            decreases v.len() - first,
        {
            first = first + 1;
        }
        assert(first == first_index_of(v@, ':'));
        if first == v.len() {
            return (
                Err(Radix10Error::from("Need to have a : to get column and row")),
                Err(Radix10Error::from("Need to have a : to get column and row")),
            );
        }
        // is there a second colon?

        let mut second: usize = first + 1;
        while second < v.len() && v[second] != ':'
            invariant
                first < second <= v.len(),
                forall|t: int| first < t < second ==> #[trigger] v@[t] != ':',
            decreases v.len() - second,
        {
            second = second + 1;
        }
        proof {
            let rest = v@.skip(first + 1);
            lemma_count_first(rest, ':');
            if second == v.len() {
                assert forall|t: int| 0 <= t < rest.len() implies #[trigger] rest[t] != ':' by {
                    assert(rest[t] == v@[first + 1 + t]);
                }
                lemma_no_char(rest, ':');
            } else {
                assert(rest[second - first - 1] == ':');
                lemma_has_char(rest, ':', second - first - 1);
            }
            lemma_no_char(v@.take(first as int), ':');
        }
        if second < v.len() {
            return (
                Err(Radix10Error::from("Too many : in input")),
                Err(Radix10Error::from("Too many : in input")),
            );
        }
        let mut left: Vec<char> = Vec::new();
        let mut t: usize = 0;
        while t < first
            invariant
                t <= first < v.len(),
                left@ == v@.take(t as int),
            decreases first - t,
        {
            left.push(v[t]);
            t = t + 1;
        }
        let mut right: Vec<char> = Vec::new();
        let mut t: usize = first + 1;
        while t < v.len()
            invariant
                first + 1 <= t <= v.len(),
                right@ == v@.subrange(first + 1, t as int),
            decreases v.len() - t,
        {
            right.push(v[t]);
            t = t + 1;
        }
        assert(left@ =~= range_left(v@));
        assert(right@ =~= range_right(v@));
        let start_ind = real_index_of_chars(&left);
        let end_ind = real_index_of_chars(&right);
        (start_ind, end_ind)
    }
}

proof fn lemma_no_char(s: Seq<char>, c: char)
    requires
        forall|t: int| 0 <= t < s.len() ==> #[trigger] s[t] != c,
    ensures
        count_char(s, c) == 0,
    decreases s.len(),
{
    if s.len() > 0 {
        lemma_no_char(s.drop_last(), c);
    }
}

proof fn lemma_has_char(s: Seq<char>, c: char, i: int)
    requires
        0 <= i < s.len(),
        s[i] == c,
    ensures
        count_char(s, c) >= 1,
    decreases s.len(),
{
    if i < s.len() - 1 {
        lemma_has_char(s.drop_last(), c, i);
    }
}

/// Counting over a concatenation adds the counts of the parts.
proof fn lemma_count_concat(a: Seq<char>, b: Seq<char>, c: char)
    ensures
        count_char(a + b, c) == count_char(a, c) + count_char(b, c),
    decreases b.len(),
{
    if b.len() == 0 {
        assert(a + b =~= a);
    } else {
        assert((a + b).drop_last() =~= a + b.drop_last());
        lemma_count_concat(a, b.drop_last(), c);
    }
}

proof fn lemma_count_none(s: Seq<char>, c: char)
    requires
        !s.contains(c),
    ensures
        count_char(s, c) == 0,
    decreases s.len(),
{
    if s.len() > 0 {
        assert(!s.drop_last().contains(c)) by {
            if s.drop_last().contains(c) {
                let i = choose|i: int| 0 <= i < s.drop_last().len() && s.drop_last()[i] == c;
                assert(s[i] == c);
            }
        }
        lemma_count_none(s.drop_last(), c);
    }
}

/// In `x:y` with no colon in `x`, the first colon is the one after `x`.
proof fn lemma_first_colon(x: Seq<char>, y: Seq<char>)
    requires
        !x.contains(':'),
    ensures
        first_index_of(x + seq![':'] + y, ':') == x.len(),
    decreases x.len(),
{
    if x.len() > 0 {
        assert(x[0] != ':');
        assert((x + seq![':'] + y).drop_first() =~= x.drop_first() + seq![':'] + y);
        assert(!x.drop_first().contains(':')) by {
            if x.drop_first().contains(':') {
                let i = choose|i: int| 0 <= i < x.drop_first().len() && x.drop_first()[i] == ':';
                assert(x[i + 1] == ':');
            }
        }
        lemma_first_colon(x.drop_first(), y);
    }
}

/// `x:y`, for references `x` and `y` without a colon, splits into `x` and `y`.
proof fn lemma_split_range(x: Seq<char>, y: Seq<char>)
    requires
        !x.contains(':'),
        !y.contains(':'),
    ensures
        count_char(x + seq![':'] + y, ':') == 1,
        range_left(x + seq![':'] + y) == x,
        range_right(x + seq![':'] + y) == y,
        !all_white_space(x + seq![':'] + y),
{
    let s = x + seq![':'] + y;
    lemma_count_concat(x + seq![':'], y, ':');
    lemma_count_concat(x, seq![':'], ':');
    lemma_count_none(x, ':');
    lemma_count_none(y, ':');
    assert(seq![':'].drop_last() =~= Seq::<char>::empty());
    assert(seq![':'].last() == ':');
    assert(count_char(Seq::<char>::empty(), ':') == 0);
    assert(count_char(seq![':'], ':') == 1);
    lemma_first_colon(x, y);
    assert(s.take(x.len() as int) =~= x);
    assert(s.skip(x.len() as int + 1) =~= y);
    assert(s[x.len() as int] == ':');
    assert(!is_white_space(':'));
}

// ---------------------------------------------------------------------------------------
// Laws.
// ---------------------------------------------------------------------------------------
/// A range read backwards, `y:x` in place of `x:y`, spans the same rectangle when both
/// halves are plain references, and its numbers fit in a `usize` exactly when those of the
/// range read forwards do.
pub proof fn law_range_read_backwards(x: Seq<char>, y: Seq<char>)
    requires
        !x.contains(':'),
        !y.contains(':'),
        spec_real_index(x) matches Ok(NumberType::Real(_)),
        spec_real_index(y) matches Ok(NumberType::Real(_)),
    ensures
        spec_rect(x + seq![':'] + y) == spec_rect(y + seq![':'] + x),
        range_fits(x + seq![':'] + y) == range_fits(y + seq![':'] + x),
{
    lemma_split_range(x, y);
    lemma_split_range(y, x);
    law_real_range_is_symmetric(spec_real_index(x), spec_real_index(y));
}

/// A range of two plain references spans the same rectangle whichever corner comes first.
pub proof fn law_real_range_is_symmetric(
    a: Result<NumberType, Seq<char>>,
    b: Result<NumberType, Seq<char>>,
)
    requires
        a matches Ok(NumberType::Real(_)),
        b matches Ok(NumberType::Real(_)),
    ensures
        spec_rect_of(a, b) == spec_rect_of(b, a),
{
}

/// A rectangle read from two plain references covers both corners and nothing beyond them:
/// its first and last column and row are the smaller and the larger index of each corner.
pub proof fn law_real_range_spans_corners(s: Seq<char>)
    requires
        range_fits(s),
        spec_rect(s) matches Ok(r) && !r.is_row_count_infinite,
    ensures
        ({
            let r = spec_rect(s)->Ok_0;
            let (a, b) = (spec_row_col(s).0, spec_row_col(s).1);
            &&& a matches Ok(NumberType::Real(p))
            &&& b matches Ok(NumberType::Real(q))
            &&& r.column <= p.0 < r.column + r.column_count
            &&& r.column <= q.0 < r.column + r.column_count
            &&& r.row <= p.1 < r.row + r.row_count
            &&& r.row <= q.1 < r.row + r.row_count
            &&& (r.column == p.0 || r.column == q.0)
            &&& (r.column + r.column_count - 1 == p.0 || r.column + r.column_count - 1 == q.0)
            &&& (r.row == p.1 || r.row == q.1)
            &&& (r.row + r.row_count - 1 == p.1 || r.row + r.row_count - 1 == q.1)
        }),
{
}

/// `Radix10Rectange::new` gives the same rectangle for `x:y` and for `y:x` when both halves
/// are plain references: any two results it may give for the two ranges are equal.
pub proof fn law_new_reads_backwards_alike(
    x: Seq<char>,
    y: Seq<char>,
    forward: Result<Radix10Rectange, Radix10Error>,
    backward: Result<Radix10Rectange, Radix10Error>,
)
    requires
        !x.contains(':'),
        !y.contains(':'),
        spec_real_index(x) matches Ok(NumberType::Real(_)),
        spec_real_index(y) matches Ok(NumberType::Real(_)),
        rect_result_is(forward, spec_rect(x + seq![':'] + y)),
        rect_result_is(backward, spec_rect(y + seq![':'] + x)),
    ensures
        forward is Ok,
        backward is Ok,
        forward->Ok_0 == backward->Ok_0,
{
    law_range_read_backwards(x, y);
    lemma_split_range(x, y);
}

/// A range `x:y*` from a plain reference `x` (column `c`, row `r`) to an open one `y`
/// starts at the row of `x`, holds the column of `x` and that of `y`, and has no last row
/// (where its column count fits in a `usize`).
pub proof fn law_open_range_starts_at_plain_row(x: Seq<char>, y: Seq<char>, c: usize, r: usize, d: usize)
    requires
        !x.contains(':'),
        !y.contains(':'),
        spec_real_index(x) == Ok::<NumberType, Seq<char>>(NumberType::Real((c, r))),
        spec_real_index(y) == Ok::<NumberType, Seq<char>>(NumberType::Infinite(d)),
        dist_u(c, d) < usize::MAX,
    ensures
        spec_rect(x + seq![':'] + y) matches Ok(rect) && {
            &&& rect.row == r
            &&& rect.is_row_count_infinite
            &&& rect.column <= c < rect.column + rect.column_count
            &&& rect.column <= d < rect.column + rect.column_count
        },
{
    lemma_split_range(x, y);
}

/// With the open reference first, `x*:y` from `x` (column `d`) to a plain `y` (column `c`,
/// row `r`) also starts at the row of its plain corner, holds both columns, and has no last
/// row (where its column count fits in a `usize`).
pub proof fn law_open_first_range_starts_at_plain_row(x: Seq<char>, y: Seq<char>, c: usize, r: usize, d: usize)
    requires
        !x.contains(':'),
        !y.contains(':'),
        spec_real_index(x) == Ok::<NumberType, Seq<char>>(NumberType::Infinite(d)),
        spec_real_index(y) == Ok::<NumberType, Seq<char>>(NumberType::Real((c, r))),
        dist_u(c, d) < usize::MAX,
    ensures
        spec_rect(x + seq![':'] + y) matches Ok(rect) && {
            &&& rect.row == r
            &&& rect.is_row_count_infinite
            &&& rect.column <= c < rect.column + rect.column_count
            &&& rect.column <= d < rect.column + rect.column_count
        },
{
    lemma_split_range(x, y);
}

/// What `Radix10Rectange::new` gives for `x:y*`, with `x` plain (column `c`, row `r`) and
/// `y` open: a range whose first row is `r`, with the columns of both references.
pub proof fn law_new_open_range_starts_at_plain_row(
    x: Seq<char>,
    y: Seq<char>,
    c: usize,
    r: usize,
    d: usize,
    res: Result<Radix10Rectange, Radix10Error>,
)
    requires
        !x.contains(':'),
        !y.contains(':'),
        spec_real_index(x) == Ok::<NumberType, Seq<char>>(NumberType::Real((c, r))),
        spec_real_index(y) == Ok::<NumberType, Seq<char>>(NumberType::Infinite(d)),
        dist_u(c, d) < usize::MAX,
        rect_result_is(res, spec_rect(x + seq![':'] + y)),
    ensures
        res matches Ok(rect) && rect.row == r && rect.is_row_count_infinite && rect.column <= c < rect.column
            + rect.column_count && rect.column <= d < rect.column + rect.column_count,
{
    law_open_range_starts_at_plain_row(x, y, c, r, d);
}

} // verus!
