//! Tag descriptions such as `worksheet/sheetData/row|r|`: a tag path, optionally followed by a
//! list of attribute names between two `|`, separated by `,`. An attribute written as `(name)`
//! is a capture.
use vstd::prelude::*;
use vstd::slice::slice_subrange;

verus! {

/// Whether an attribute of a tag description was written in brackets, `(attr)`.
#[derive(Clone, Copy, PartialEq, Eq, Structural)]
pub enum RelativeNamePartsAttribsProps {
    Capture,
    NonCapture,
}

/// An attribute named in a tag description.
#[derive(Clone)]
pub struct RelativeNamePartsAttribs<'b> {
    pub attrib: &'b [u8],
    pub capture: RelativeNamePartsAttribsProps,
}

/// A tag description: the tag path and the attributes it names.
#[derive(Clone)]
pub struct RelativeNameParts<'b> {
    pub name: &'b [u8],
    pub attribs: Vec<RelativeNamePartsAttribs<'b>>,
}

/// How many times `c` occurs in `s`.
pub open spec fn count_of<A>(s: Seq<A>, c: A) -> nat
    decreases s.len(),
{
    if s.len() == 0 {
        0
    } else {
        (if s[0] == c {
            1nat
        } else {
            0nat
        }) + count_of(s.drop_first(), c)
    }
}

/// Index of the first `c` in `s`, or `s.len()` when there is none.
pub open spec fn index_of<A>(s: Seq<A>, c: A) -> nat
    decreases s.len(),
{
    if s.len() == 0 {
        0
    } else if s[0] == c {
        0
    } else {
        1 + index_of(s.drop_first(), c)
    }
}

/// `s` cut at every `sep`, as `<[u8]>::split` does: `n` separators give `n + 1` pieces.
pub open spec fn split_seq(s: Seq<u8>, sep: u8) -> Seq<Seq<u8>>
    decreases s.len(),
{
    let f = index_of(s, sep);
    if f >= s.len() {
        seq![s]
    } else {
        seq![s.take(f as int)] + split_seq(s.skip(f as int + 1), sep)
    }
}

/// An attribute name with exactly one `(` and one `)`, the `(` first, is a capture of what
/// stands between them; anything else is kept whole.
pub open spec fn spec_attrib(i: Seq<u8>) -> (Seq<u8>, RelativeNamePartsAttribsProps) {
    let open = index_of(i, 40u8);
    let close = index_of(i, 41u8);
    if count_of(i, 40u8) == 1 && count_of(i, 41u8) == 1 && open < close {
        (i.subrange(open as int + 1, close as int), RelativeNamePartsAttribsProps::Capture)
    } else {
        (i, RelativeNamePartsAttribsProps::NonCapture)
    }
}

/// The attribute names of a description: the pieces between the two `|`, split at `,`, when
/// the description holds exactly two `|`; none otherwise.
pub open spec fn spec_attrib_names(s: Seq<u8>) -> Seq<Seq<u8>> {
    let parts = split_seq(s, 124u8);
    if parts.len() != 3 {
        Seq::empty()
    } else {
        split_seq(parts[1], 44u8)
    }
}

/// The tag path of a description: what comes before the first `|`.
pub open spec fn spec_name(s: Seq<u8>) -> Seq<u8> {
    split_seq(s, 124u8)[0]
}

/// The attributes as (name, capture) pairs.
pub open spec fn attribs_view(v: Seq<RelativeNamePartsAttribs>) -> Seq<
    (Seq<u8>, RelativeNamePartsAttribsProps),
> {
    v.map_values(|a: RelativeNamePartsAttribs| (a.attrib@, a.capture))
}

/// `parts` is what `get_relative_name_parts` gives for `s`.
pub open spec fn name_parts_of(parts: RelativeNameParts, s: Seq<u8>) -> bool {
    &&& parts.name@ == spec_name(s)
    &&& attribs_view(parts.attribs@) == spec_attrib_names(s).map_values(|i: Seq<u8>| spec_attrib(i))
}

/// The first `c` is at `j` when none comes before `j` and `j` holds one (or is the end).
pub proof fn lemma_index_at<A>(s: Seq<A>, c: A, j: int)
    requires
        0 <= j <= s.len(),
        forall|t: int| 0 <= t < j ==> #[trigger] s[t] != c,
        j < s.len() ==> s[j] == c,
    ensures
        index_of(s, c) == j,
    decreases s.len(),
{
    if s.len() > 0 && s[0] != c {
        assert forall|t: int| 0 <= t < j - 1 implies #[trigger] s.drop_first()[t] != c by {
            assert(s.drop_first()[t] == s[t + 1]);
        }
        lemma_index_at(s.drop_first(), c, j - 1);
    }
}

/// The index of the first `c` is at most the length (the length when `c` does not occur).
pub proof fn lemma_index_bound<A>(s: Seq<A>, c: A)
    ensures
        index_of(s, c) <= s.len(),
    decreases s.len(),
{
    if s.len() > 0 && s[0] != c {
        lemma_index_bound(s.drop_first(), c);
    }
}

/// After pushing `c`, `c` is found at the latest at the pushed position.
pub proof fn lemma_index_push_self<A>(s: Seq<A>, c: A)
    ensures
        index_of(s.push(c), c) <= s.len(),
    decreases s.len(),
{
    if s.len() > 0 && s[0] != c {
        assert(s.push(c).drop_first() =~= s.drop_first().push(c));
        lemma_index_push_self(s.drop_first(), c);
    }
}

proof fn lemma_count_zero<A>(s: Seq<A>, c: A)
    requires
        forall|t: int| 0 <= t < s.len() ==> #[trigger] s[t] != c,
    ensures
        count_of(s, c) == 0,
    decreases s.len(),
{
    if s.len() > 0 {
        assert forall|t: int| 0 <= t < s.len() - 1 implies #[trigger] s.drop_first()[t] != c by {
            assert(s.drop_first()[t] == s[t + 1]);
        }
        lemma_count_zero(s.drop_first(), c);
    }
}

/// Counting over a prefix one element at a time.
proof fn lemma_count_push<A>(s: Seq<A>, c: A, j: int)
    requires
        0 <= j < s.len(),
    ensures
        count_of(s.take(j + 1), c) == count_of(s.take(j), c) + (if s[j] == c {
            1nat
        } else {
            0nat
        }),
    decreases j,
{
    if j == 0 {
        assert(s.take(1).drop_first() =~= Seq::<A>::empty());
        assert(s.take(0) =~= Seq::<A>::empty());
    } else {
        lemma_count_push(s.drop_first(), c, j - 1);
        assert(s.take(j + 1).drop_first() =~= s.drop_first().take(j));
        assert(s.take(j).drop_first() =~= s.drop_first().take(j - 1));
    }
}

/// Index of the first `c` given over a prefix.
pub proof fn lemma_index_prefix<A>(s: Seq<A>, c: A, j: int)
    requires
        0 <= j <= s.len(),
        index_of(s.take(j), c) < j,
    ensures
        index_of(s, c) == index_of(s.take(j), c),
    decreases j,
{
    if s[0] != c {
        assert(s.take(j).drop_first() =~= s.drop_first().take(j - 1));
        lemma_index_prefix(s.drop_first(), c, j - 1);
    }
}

/// The pieces of `s` separated by `sep`, borrowed from `s`.
fn split_on<'a>(s: &'a [u8], sep: u8) -> (v: Vec<&'a [u8]>)
    ensures
        v@.map_values(|x: &[u8]| x@) == split_seq(s@, sep),
{
    let mut v: Vec<&'a [u8]> = Vec::new();
    let mut start: usize = 0;
    let mut i: usize = 0;
    assert(s@.skip(0) =~= s@);
    assert(v@.map_values(|x: &[u8]| x@) =~= Seq::<Seq<u8>>::empty());
    while i < s.len()
        invariant
            start <= i <= s.len(),
            forall|t: int| start <= t < i ==> #[trigger] s@[t] != sep,
            v@.map_values(|x: &[u8]| x@) + split_seq(s@.skip(start as int), sep) == split_seq(
                s@,
                sep,
            ),
        decreases s.len() - i,
    {
        if s[i] == sep {
            let piece = slice_subrange(s, start, i);
            proof {
                let rest = s@.skip(start as int);
                assert forall|t: int| 0 <= t < i - start implies #[trigger] rest[t] != sep by {
                    assert(rest[t] == s@[start + t]);
                }
                lemma_index_at(rest, sep, i - start);
                assert(rest.take(i - start) =~= piece@);
                assert(rest.skip(i - start + 1) =~= s@.skip(i + 1));
                assert(split_seq(rest, sep) == seq![piece@] + split_seq(s@.skip(i + 1), sep));
            }
            let ghost old_v = v@;
            v.push(piece);
            proof {
                assert(v@.map_values(|x: &[u8]| x@) =~= old_v.map_values(|x: &[u8]| x@) + seq![
                    piece@,
                ]);
            }
            start = i + 1;
        }
        i = i + 1;
    }
    let piece = slice_subrange(s, start, s.len());
    proof {
        let rest = s@.skip(start as int);
        assert forall|t: int| 0 <= t < rest.len() implies #[trigger] rest[t] != sep by {
            assert(rest[t] == s@[start + t]);
        }
        lemma_index_at(rest, sep, rest.len() as int);
        assert(rest =~= piece@);
    }
    let ghost old_v = v@;
    v.push(piece);
    proof {
        assert(v@.map_values(|x: &[u8]| x@) =~= old_v.map_values(|x: &[u8]| x@) + seq![piece@]);
    }
    v
}

/// Reads one attribute name: `(r)` is a capture of `r`, anything else is kept as it is.
fn parse_relative_name_parts_attrib<'a>(i: &'a [u8]) -> (a: RelativeNamePartsAttribs<'a>)
    ensures
        (a.attrib@, a.capture) == spec_attrib(i@),
{
    let mut start_par: usize = 0;
    let mut par_start_count: usize = 0;
    let mut found_start_par = false;
    let mut end_par: usize = 0;
    let mut par_end_count: usize = 0;
    let mut found_end_par = false;
    let mut r: usize = 0;
    while r < i.len()
        invariant
            r <= i.len(),
            par_start_count == count_of(i@.take(r as int), 40u8),
            par_end_count == count_of(i@.take(r as int), 41u8),
            found_start_par == (par_start_count > 0),
            found_end_par == (par_end_count > 0),
            par_start_count <= r,
            par_end_count <= r,
            par_start_count == 1 ==> start_par < r && index_of(i@.take(r as int), 40u8)
                == start_par,
            par_end_count == 1 ==> end_par < r && index_of(i@.take(r as int), 41u8) == end_par,
        decreases i.len() - r,
    {
        let c = i[r];
        proof {
            lemma_count_push(i@, 40u8, r as int);
            lemma_count_push(i@, 41u8, r as int);
            lemma_first_after_count(i@, 40u8, r as int);
            lemma_first_after_count(i@, 41u8, r as int);
        }
        if c == 40u8 {
            start_par = r;
            found_start_par = true;
            par_start_count = par_start_count + 1;
        }
        if c == 41u8 {
            end_par = r;
            found_end_par = true;
            par_end_count = par_end_count + 1;
        }
        r = r + 1;
    }
    assert(i@.take(i@.len() as int) =~= i@);
    if found_start_par && found_end_par && par_start_count == 1 && par_end_count == 1 && start_par
        < end_par {
        proof {
            lemma_index_prefix(i@, 40u8, i@.len() as int);
            lemma_index_prefix(i@, 41u8, i@.len() as int);
        }
        RelativeNamePartsAttribs {
            attrib: slice_subrange(i, start_par + 1, end_par),
            capture: RelativeNamePartsAttribsProps::Capture,
        }
    } else {
        proof {
            if par_start_count == 1 && par_end_count == 1 {
                lemma_index_prefix(i@, 40u8, i@.len() as int);
                lemma_index_prefix(i@, 41u8, i@.len() as int);
            }
        }
        RelativeNamePartsAttribs { attrib: i, capture: RelativeNamePartsAttribsProps::NonCapture }
    }
}

/// Where the count of `c` over a prefix is 0 and the next element is `c`, the index of the
/// first `c` in the longer prefix is that position; where it is already 1, it stays.
proof fn lemma_first_after_count<A>(s: Seq<A>, c: A, r: int)
    requires
        0 <= r < s.len(),
    ensures
        count_of(s.take(r), c) == 0 && s[r] == c ==> index_of(s.take(r + 1), c) == r,
        count_of(s.take(r), c) == 1 && index_of(s.take(r), c) < r ==> index_of(s.take(r + 1), c)
            == index_of(s.take(r), c),
{
    if count_of(s.take(r), c) == 0 && s[r] == c {
        lemma_count_zero_no_elem(s.take(r), c);
        let p = s.take(r + 1);
        assert forall|t: int| 0 <= t < r implies #[trigger] p[t] != c by {
            assert(p[t] == s.take(r)[t]);
        }
        lemma_index_at(p, c, r);
    }
    if count_of(s.take(r), c) == 1 && index_of(s.take(r), c) < r {
        assert(s.take(r + 1).take(r) =~= s.take(r));
        lemma_index_prefix(s.take(r + 1), c, r);
    }
}

proof fn lemma_count_zero_no_elem<A>(s: Seq<A>, c: A)
    requires
        count_of(s, c) == 0,
    ensures
        forall|t: int| 0 <= t < s.len() ==> #[trigger] s[t] != c,
    decreases s.len(),
{
    if s.len() > 0 {
        lemma_count_zero_no_elem(s.drop_first(), c);
        assert forall|t: int| 0 <= t < s.len() implies #[trigger] s[t] != c by {
            if t > 0 {
                assert(s[t] == s.drop_first()[t - 1]);
            }
        }
    }
}

/// Reads every attribute name of a description.
fn parse_relative_name_parts_attribs<'a>(attr: Vec<&'a [u8]>) -> (v: Vec<RelativeNamePartsAttribs<'a>>)
    ensures
        attribs_view(v@) == attr@.map_values(|x: &[u8]| x@).map_values(|i: Seq<u8>| spec_attrib(i)),
{
    let mut attb: Vec<RelativeNamePartsAttribs<'a>> = Vec::new();
    let mut k: usize = 0;
    while k < attr.len()
        invariant
            k <= attr.len(),
            attribs_view(attb@) =~= attr@.take(k as int).map_values(|x: &[u8]| x@).map_values(
                |i: Seq<u8>| spec_attrib(i),
            ),
        decreases attr.len() - k,
    {
        let a = parse_relative_name_parts_attrib(attr[k]);
        let ghost old_attb = attb@;
        attb.push(a);
        assert(attb@ =~= old_attb.push(a));
        assert(attribs_view(attb@) =~= attribs_view(old_attb).push((a.attrib@, a.capture)));
        k = k + 1;
        assert(attr@.take(k as int).drop_last() =~= attr@.take(k - 1));
        assert(attr@.take(k as int).map_values(|x: &[u8]| x@).map_values(|i: Seq<u8>| spec_attrib(i))
            =~= attr@.take(k - 1).map_values(|x: &[u8]| x@).map_values(|i: Seq<u8>| spec_attrib(i)).push(spec_attrib(attr@[k - 1]@)));
    }
    assert(attr@.take(attr.len() as int) =~= attr@);
    attb
}

/// Turns a description such as `tag1/tag2/tag3|attrib1,(attrib2)|` into its tag path
/// `tag1/tag2/tag3` and its attributes `attrib1` and the capture `attrib2`.
pub fn get_relative_name_parts<'a>(s: &'a [u8]) -> (r: RelativeNameParts<'a>)
    ensures
        name_parts_of(r, s@),
{
    let split_off_attributes = split_on(s, 124u8);
    proof {
        lemma_split_nonempty(s@, 124u8);
    }
    let attribbs: Vec<&'a [u8]> = if split_off_attributes.len() != 3 {
        Vec::new()
    } else {
        split_on(split_off_attributes[1], 44u8)
    };
    let attribs = parse_relative_name_parts_attribs(attribbs);
    proof {
        if split_off_attributes.len() != 3 {
            assert(attribbs@.map_values(|x: &[u8]| x@) =~= Seq::<Seq<u8>>::empty());
        }
        assert(split_off_attributes@.map_values(|x: &[u8]| x@)[0] == split_off_attributes@[0]@);
    }
    RelativeNameParts { name: split_off_attributes[0], attribs: attribs }
}

/// The pieces joined back, with `sep` between each two.
pub open spec fn join_with(pieces: Seq<Seq<u8>>, sep: u8) -> Seq<u8>
    decreases pieces.len(),
{
    if pieces.len() == 0 {
        Seq::empty()
    } else if pieces.len() == 1 {
        pieces[0]
    } else {
        pieces[0] + seq![sep] + join_with(pieces.drop_first(), sep)
    }
}

/// The text of a description between its first and its second `|`.
pub open spec fn between_bars(s: Seq<u8>) -> Seq<u8> {
    let rest = s.skip(index_of(s, 124u8) as int + 1);
    rest.take(index_of(rest, 124u8) as int)
}

/// Nothing before the first `c` is `c`, and the first `c` is one.
proof fn lemma_index_facts<A>(s: Seq<A>, c: A)
    ensures
        index_of(s, c) <= s.len(),
        forall|t: int| 0 <= t < index_of(s, c) ==> #[trigger] s[t] != c,
        index_of(s, c) < s.len() ==> s[index_of(s, c) as int] == c,
    decreases s.len(),
{
    if s.len() > 0 && s[0] != c {
        lemma_index_facts(s.drop_first(), c);
        assert forall|t: int| 0 <= t < index_of(s, c) implies #[trigger] s[t] != c by {
            if t > 0 {
                assert(s[t] == s.drop_first()[t - 1]);
            }
        }
    }
}

/// Counting over two sequences one after the other.
proof fn lemma_count_concat<A>(a: Seq<A>, b: Seq<A>, c: A)
    ensures
        count_of(a + b, c) == count_of(a, c) + count_of(b, c),
    decreases a.len(),
{
    if a.len() > 0 {
        assert((a + b).drop_first() =~= a.drop_first() + b);
        lemma_count_concat(a.drop_first(), b, c);
    } else {
        assert(a + b =~= b);
    }
}

/// Cutting `s` at every `sep` gives pieces that hold no `sep`, one more than the number of
/// `sep` in `s`, and that give back `s` when joined with `sep`.
pub proof fn lemma_split_pieces(s: Seq<u8>, sep: u8)
    ensures
        join_with(split_seq(s, sep), sep) == s,
        split_seq(s, sep).len() == count_of(s, sep) + 1,
        forall|i: int| 0 <= i < split_seq(s, sep).len() ==> !(#[trigger] split_seq(s, sep)[i]).contains(sep),
    decreases s.len(),
{
    let f = index_of(s, sep);
    lemma_index_facts(s, sep);
    if f >= s.len() {
        lemma_count_zero(s, sep);
        assert(split_seq(s, sep) =~= seq![s]);
        assert forall|i: int| 0 <= i < split_seq(s, sep).len() implies !(#[trigger] split_seq(s, sep)[i]).contains(sep) by {
            assert(split_seq(s, sep)[i] == s);
        }
    } else {
        let head = s.take(f as int);
        let tail = s.skip(f as int + 1);
        lemma_split_pieces(tail, sep);
        lemma_split_nonempty(tail, sep);
        let p = split_seq(s, sep);
        assert(p == seq![head] + split_seq(tail, sep));
        assert(p.drop_first() =~= split_seq(tail, sep));
        assert(p[0] == head);
        assert(s =~= head + seq![sep] + tail);
        lemma_count_zero(head, sep);
        lemma_count_concat(head + seq![sep], tail, sep);
        lemma_count_concat(head, seq![sep], sep);
        assert(count_of(seq![sep], sep) == 1) by {
            assert(seq![sep].drop_first() =~= Seq::<u8>::empty());
            assert(seq![sep][0] == sep);
            assert(count_of(Seq::<u8>::empty(), sep) == 0);
        }
        assert forall|i: int| 0 <= i < p.len() implies !(#[trigger] p[i]).contains(sep) by {
            if i == 0 {
                assert forall|t: int| 0 <= t < head.len() implies head[t] != sep by {
                    assert(head[t] == s[t]);
                }
            } else {
                assert(p[i] == split_seq(tail, sep)[i - 1]);
            }
        }
    }
}

/// The attribute names of a description with two `|` are the pieces of the text between
/// them cut at every `,`: none holds a `,`, joined with `,` they give back that text, and
/// there is one more of them than there are `,` in it.
pub proof fn law_attribute_names_are_the_comma_pieces(s: Seq<u8>)
    requires
        count_of(s, 124u8) == 2,
    ensures
        join_with(spec_attrib_names(s), 44u8) == between_bars(s),
        spec_attrib_names(s).len() == count_of(between_bars(s), 44u8) + 1,
        forall|i: int| 0 <= i < spec_attrib_names(s).len() ==> !(#[trigger] spec_attrib_names(s)[i]).contains(44u8),
{
    lemma_split_pieces(s, 124u8);
    let f = index_of(s, 124u8);
    lemma_index_facts(s, 124u8);
    let rest = s.skip(f as int + 1);
    lemma_index_facts(rest, 124u8);
    lemma_split_nonempty(rest, 124u8);
    if f >= s.len() {
        lemma_count_zero(s, 124u8);
    }
    assert(split_seq(s, 124u8)[1] == split_seq(rest, 124u8)[0]);
    let g = index_of(rest, 124u8);
    if g >= rest.len() {
        assert(split_seq(rest, 124u8) =~= seq![rest]);
    } else {
        assert(split_seq(rest, 124u8)[0] == rest.take(g as int));
    }
    assert(split_seq(s, 124u8)[1] == between_bars(s));
    lemma_split_pieces(between_bars(s), 44u8);
}

/// The tag path of a description is all of it before its first `|`, and holds no `|`.
pub proof fn law_tag_path_is_before_the_first_bar(s: Seq<u8>)
    ensures
        spec_name(s) == s.take(index_of(s, 124u8) as int),
        !spec_name(s).contains(124u8),
{
    lemma_split_pieces(s, 124u8);
    lemma_split_nonempty(s, 124u8);
    lemma_index_facts(s, 124u8);
    if index_of(s, 124u8) >= s.len() {
        assert(s.take(index_of(s, 124u8) as int) =~= s);
    }
}

/// An attribute written `(a)`, with no bracket inside `a`, is a capture of `a`; one
/// written without brackets is taken as it is.
pub proof fn law_bracketed_attribute_is_a_capture(a: Seq<u8>)
    requires
        !a.contains(40u8),
        !a.contains(41u8),
    ensures
        spec_attrib(seq![40u8] + a + seq![41u8]) == (a, RelativeNamePartsAttribsProps::Capture),
        spec_attrib(a) == (a, RelativeNamePartsAttribsProps::NonCapture),
{
    let w = seq![40u8] + a + seq![41u8];
    assert forall|t: int| 0 <= t < a.len() implies #[trigger] a[t] != 40u8 && a[t] != 41u8 by {
        if a[t] == 40u8 {
            assert(a.contains(40u8));
        }
        if a[t] == 41u8 {
            assert(a.contains(41u8));
        }
    }
    lemma_count_zero(a, 40u8);
    lemma_count_zero(a, 41u8);
    lemma_count_concat(seq![40u8] + a, seq![41u8], 40u8);
    lemma_count_concat(seq![40u8], a, 40u8);
    lemma_count_concat(seq![40u8] + a, seq![41u8], 41u8);
    lemma_count_concat(seq![40u8], a, 41u8);
    assert(seq![40u8].drop_first() =~= Seq::<u8>::empty());
    assert(seq![41u8].drop_first() =~= Seq::<u8>::empty());
    assert(count_of(Seq::<u8>::empty(), 40u8) == 0);
    assert(count_of(Seq::<u8>::empty(), 41u8) == 0);
    assert(seq![40u8][0] == 40u8);
    assert(seq![41u8][0] == 41u8);
    assert(count_of(seq![40u8], 40u8) == 1);
    assert(count_of(seq![41u8], 41u8) == 1);
    assert(count_of(seq![40u8], 41u8) == 0);
    assert(count_of(seq![41u8], 40u8) == 0);
    lemma_index_at(w, 40u8, 0);
    assert forall|t: int| 0 <= t < a.len() + 1 implies #[trigger] w[t] != 41u8 by {
        if t > 0 {
            assert(w[t] == a[t - 1]);
        }
    }
    lemma_index_at(w, 41u8, (a.len() + 1) as int);
    assert(w.subrange(1, (a.len() + 1) as int) =~= a);
}

/// The attributes that `get_relative_name_parts` reads from a description with two `|`
/// are as many as the pieces of the text between them cut at every `,`.
pub proof fn law_one_attribute_per_comma_piece(parts: RelativeNameParts, s: Seq<u8>)
    requires
        count_of(s, 124u8) == 2,
        name_parts_of(parts, s),
    ensures
        parts.attribs@.len() == count_of(between_bars(s), 44u8) + 1,
{
    law_attribute_names_are_the_comma_pieces(s);
    assert(attribs_view(parts.attribs@).len() == parts.attribs@.len());
}

proof fn lemma_split_nonempty(s: Seq<u8>, sep: u8)
    ensures
        split_seq(s, sep).len() >= 1,
    decreases s.len(),
{
    let f = index_of(s, sep);
    if f < s.len() {
        lemma_split_nonempty(s.skip(f as int + 1), sep);
    }
}

} // verus!
