//! The path of open tags, such as `worksheet/sheetData/row/c`.
use vstd::prelude::*;
use vstd::utf8::encode_utf8;
use crate::text::{string_byte_len, string_pop};

verus! {

/// The path of the open tags, joined by `/`, and how many bytes each open tag added to it.
pub struct CurrentTagLine {
    pub tag_line: String,
    pub last_tag_sizes: Vec<usize>,
}

/// The path after opening `tag`: `/tag` appended, or `tag` alone on an empty path.
pub open spec fn pushed_line(line: Seq<char>, tag: Seq<char>) -> Seq<char> {
    if line.len() == 0 {
        tag
    } else {
        line + "/"@ + tag
    }
}

/// The size recorded for `tag`: its length in bytes, one more when a `/` was added.
pub open spec fn pushed_size(line: Seq<char>, tag: Seq<char>) -> nat {
    if line.len() == 0 {
        encode_utf8(tag).len()
    } else {
        encode_utf8(tag).len() + 1
    }
}

/// The path after closing the innermost tag: the last recorded size removed, and that many
/// characters taken off the end of the path.
pub open spec fn popped_line(line: Seq<char>, sizes: Seq<usize>) -> Seq<char> {
    if sizes.len() == 0 {
        line
    } else if sizes.last() >= line.len() {
        Seq::empty()
    } else {
        line.take(line.len() - sizes.last())
    }
}

impl CurrentTagLine {
    /// An empty path.
    pub fn new() -> (t: Self)
        ensures
            t.tag_line@ == Seq::<char>::empty(),
            t.last_tag_sizes@ == Seq::<usize>::empty(),
    {
        CurrentTagLine { tag_line: String::new(), last_tag_sizes: Vec::new() }
    }

    /// Opens `this_tag`: appends it to the path (after a `/` unless the path is empty) and
    /// records how many bytes that added.
    pub fn modify_start_tag(&mut self, this_tag: String)
        ensures
            final(self).tag_line@ == pushed_line(old(self).tag_line@, this_tag@),
            final(self).last_tag_sizes@ == old(self).last_tag_sizes@.push(
                pushed_size(old(self).tag_line@, this_tag@) as usize,
            ),
    {
        let mut tag_length = string_byte_len(&this_tag);
        if !self.tag_line.as_str().is_empty() {
            self.tag_line.append("/");
            tag_length = tag_length + 1;
        }
        self.last_tag_sizes.push(tag_length);
        self.tag_line.append(this_tag.as_str());
        proof {
            reveal_strlit("/");
        }
    }

    /// Closes the innermost tag: takes its recorded size off the end of the path.
    pub fn pop_tag(&mut self)
        ensures
            final(self).tag_line@ == popped_line(old(self).tag_line@, old(self).last_tag_sizes@),
            final(self).last_tag_sizes@ == (if old(self).last_tag_sizes@.len() == 0 {
                old(self).last_tag_sizes@
            } else {
                old(self).last_tag_sizes@.drop_last()
            }),
    {
        match self.last_tag_sizes.pop() {
            Some(n) => {
                let mut i: usize = 0;
                while i < n
                    invariant
                        i <= n,
                        n == old(self).last_tag_sizes@.last(),
                        self.last_tag_sizes@ == old(self).last_tag_sizes@.drop_last(),
                        old(self).last_tag_sizes@.len() > 0,
                        self.tag_line@ == (if i >= old(self).tag_line@.len() {
                            Seq::<char>::empty()
                        } else {
                            old(self).tag_line@.take(old(self).tag_line@.len() - i)
                        }),
                    decreases n - i,
                {
                    string_pop(&mut self.tag_line);
                    i = i + 1;
                    proof {
                        if i <= old(self).tag_line@.len() {
                            assert(old(self).tag_line@.take(old(self).tag_line@.len() - i)
                                =~= old(self).tag_line@.take(old(self).tag_line@.len() - (i - 1)).drop_last());
                        }
                    }
                }
                assert(old(self).tag_line@.take(old(self).tag_line@.len() as int) =~= old(self).tag_line@);
            },
            None => {},
        }
    }
}

/// Closing a tag undoes opening it, for a tag whose name is ASCII: the path comes back to
/// what it was before.
pub proof fn law_close_undoes_open(line: Seq<char>, sizes: Seq<usize>, tag: Seq<char>)
    requires
        vstd::utf8::is_ascii_chars(tag),
        pushed_size(line, tag) <= usize::MAX,
    ensures
        popped_line(pushed_line(line, tag), sizes.push(pushed_size(line, tag) as usize)) == line,
{
    vstd::utf8::is_ascii_chars_encode_utf8(tag);
    reveal_strlit("/");
    if line.len() == 0 {
        assert(tag.take(0) =~= Seq::<char>::empty());
    } else {
        assert((line + "/"@ + tag).take(line.len() as int) =~= line);
    }
}

/// The sum of the sizes recorded for the open tags.
pub open spec fn total_size(sizes: Seq<usize>) -> int
    decreases sizes.len(),
{
    if sizes.len() == 0 {
        0
    } else {
        total_size(sizes.drop_last()) + sizes.last()
    }
}

/// Encoding a concatenation concatenates the encodings.
proof fn lemma_encode_concat(a: Seq<char>, b: Seq<char>)
    ensures
        encode_utf8(a + b) == encode_utf8(a) + encode_utf8(b),
    decreases a.len(),
{
    if a.len() > 0 {
        assert((a + b).drop_first() =~= a.drop_first() + b);
        assert((a + b)[0] == a[0]);
        lemma_encode_concat(a.drop_first(), b);
        assert(encode_utf8(a + b) =~= encode_utf8(a) + encode_utf8(b));
    } else {
        assert(a + b =~= b);
        assert(encode_utf8(a) =~= Seq::<u8>::empty());
        assert(encode_utf8(a) + encode_utf8(b) =~= encode_utf8(b));
    }
}

/// The sizes recorded for the open tags add up to the length in bytes of the tag path, and
/// opening a tag keeps it so: the path grows by the recorded size and keeps its old path
/// as a prefix.
pub proof fn law_sizes_add_up(line: Seq<char>, sizes: Seq<usize>, tag: Seq<char>)
    requires
        total_size(sizes) == encode_utf8(line).len(),
        pushed_size(line, tag) <= usize::MAX,
    ensures
        total_size(sizes.push(pushed_size(line, tag) as usize)) == encode_utf8(pushed_line(line, tag)).len(),
        encode_utf8(pushed_line(line, tag)).len() == encode_utf8(line).len() + pushed_size(line, tag),
        pushed_line(line, tag).take(line.len() as int) == line,
{
    assert(sizes.push(pushed_size(line, tag) as usize).drop_last() =~= sizes);
    if line.len() > 0 {
        reveal_strlit("/");
        vstd::utf8::is_ascii_chars_encode_utf8("/"@);
        lemma_encode_concat(line, "/"@);
        lemma_encode_concat(line + "/"@, tag);
        assert((line + "/"@ + tag).take(line.len() as int) =~= line);
    } else {
        assert(tag.take(0) =~= line);
    }
}

} // verus!
