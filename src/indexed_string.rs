//! A string together with the byte offset of each of its codepoints.
use vstd::prelude::*;
use vstd::string::StringSliceAdditionalSpecFns;
use vstd::utf8::*;

verus! {

broadcast use encode_utf8_valid_utf8, encode_utf8_decode_utf8;

/// Number of bytes in the UTF-8 encoding of `s`.
pub open spec fn byte_len(s: Seq<char>) -> int {
    encode_utf8(s).len() as int
}

/// Byte offset at which codepoint `i` of `s` starts (for `i == s.len()`, the
/// length of the whole encoding).
pub open spec fn byte_offset(s: Seq<char>, i: int) -> int {
    byte_len(s.take(i))
}

/// The encoding of a concatenation is the concatenation of the encodings.
pub proof fn lemma_encode_concat(a: Seq<char>, b: Seq<char>)
    ensures
        encode_utf8(a + b) == encode_utf8(a) + encode_utf8(b),
    decreases a.len(),
{
    if a.len() == 0 {
        assert(a + b =~= b);
        assert(encode_utf8(a) + encode_utf8(b) =~= encode_utf8(b));
    } else {
        assert((a + b).drop_first() =~= a.drop_first() + b);
        lemma_encode_concat(a.drop_first(), b);
        assert(encode_utf8(a + b) =~= encode_utf8(a) + encode_utf8(b));
    }
}

/// Every codepoint takes at least one byte.
proof fn lemma_byte_len_at_least_len(s: Seq<char>)
    ensures
        byte_len(s) >= s.len(),
    decreases s.len(),
{
    if s.len() > 0 {
        lemma_byte_len_at_least_len(s.drop_first());
    }
}

/// The end of an encoded prefix is a character boundary of the whole encoding.
proof fn lemma_prefix_is_boundary(a: Seq<char>, b: Seq<char>)
    ensures
        is_char_boundary(encode_utf8(a + b), encode_utf8(a).len() as int),
    decreases a.len(),
{
    if a.len() > 0 {
        let bytes = encode_utf8(a + b);
        encode_utf8_first_scalar(a + b);
        assert((a + b).drop_first() =~= a.drop_first() + b);
        assert(pop_first_scalar(bytes) =~= encode_utf8(a.drop_first() + b));
        lemma_prefix_is_boundary(a.drop_first(), b);
    }
}

/// Byte offsets of codepoints grow by the width of each codepoint.
proof fn lemma_byte_offset_step(s: Seq<char>, i: int)
    requires
        0 <= i < s.len(),
    ensures
        byte_offset(s, i + 1) == byte_offset(s, i) + encode_scalar(s[i] as u32).len(),
{
    assert(s.take(i + 1) =~= s.take(i) + seq![s[i]]);
    lemma_encode_concat(s.take(i), seq![s[i]]);
    assert(seq![s[i]].drop_first() =~= Seq::<char>::empty());
    assert(encode_utf8(Seq::<char>::empty()) =~= Seq::<u8>::empty());
    assert(encode_utf8(seq![s[i]]) =~= encode_scalar(s[i] as u32));
}

/// Splitting `s` at codepoint `i` splits its encoding at byte `byte_offset(s, i)`.
proof fn lemma_split_encoding(s: Seq<char>, i: int)
    requires
        0 <= i <= s.len(),
    ensures
        encode_utf8(s) == encode_utf8(s.take(i)) + encode_utf8(s.skip(i)),
        is_char_boundary(encode_utf8(s), byte_offset(s, i)),
        0 <= byte_offset(s, i) <= byte_len(s),
{
    assert(s =~= s.take(i) + s.skip(i));
    lemma_encode_concat(s.take(i), s.skip(i));
    lemma_prefix_is_boundary(s.take(i), s.skip(i));
}

/// Number of bytes in the UTF-8 encoding of `c`.
fn utf8_width(c: char) -> (r: usize)
    ensures
        r == encode_scalar(c as u32).len(),
        1 <= r <= 4,
{
    let v = c as u32;
    if v <= 0x7f {
        1
    } else if v <= 0x7ff {
        2
    } else if v <= 0xffff {
        proof {
            char_is_scalar(c);
        }
        3
    } else {
        proof {
            char_is_scalar(c);
        }
        4
    }
}

/// A string and, for each of its codepoints in order, the byte offset at
/// which it starts and the codepoint itself.
pub struct IndexedString<'a> {
    string: &'a str,
    char_indexes: Vec<(usize, char)>,
}

impl<'a> View for IndexedString<'a> {
    type V = Seq<char>;

    closed spec fn view(&self) -> Seq<char> {
        self.string@
    }
}

impl<'a> IndexedString<'a> {
    /// The table holds one entry per codepoint, with its byte offset, and the
    /// encoding fits in the address space.
    pub closed spec fn wf(&self) -> bool {
        &&& self.char_indexes@.len() == self.string@.len()
        &&& byte_len(self.string@) <= usize::MAX
        &&& forall|i: int|
            0 <= i < self.char_indexes@.len() ==> {
                &&& (#[trigger] self.char_indexes@[i]).1 == self.string@[i]
                &&& self.char_indexes@[i].0 == byte_offset(self.string@, i)
            }
    }

    /// Builds the codepoint table of `src` in one pass.
    pub fn from_str(src: &'a str) -> (r: IndexedString<'a>)
        ensures
            r.wf(),
            r@ == src@,
    {
        let total = src.as_bytes().len();
        let mut char_indexes: Vec<(usize, char)> = Vec::new();
        let mut pos: usize = 0;
        for c in it: src.chars()
            invariant
                it.seq() == src@,
                total == byte_len(src@),
                char_indexes@.len() == it.index(),
                pos == byte_offset(src@, it.index() as int),
                forall|i: int|
                    0 <= i < char_indexes@.len() ==> {
                        &&& (#[trigger] char_indexes@[i]).1 == src@[i]
                        &&& char_indexes@[i].0 == byte_offset(src@, i)
                    },
        {
            proof {
                lemma_byte_offset_step(src@, it.index() as int);
                lemma_split_encoding(src@, it.index() + 1);
            }
            char_indexes.push((pos, c));
            pos = pos + utf8_width(c);
        }
        IndexedString { string: src, char_indexes }
    }

    /// The number of codepoints fits in a `usize`.
    pub proof fn lemma_len_fits(&self)
        requires
            self.wf(),
        ensures
            self@.len() <= usize::MAX,
    {
        lemma_byte_len_at_least_len(self@);
    }

    /// Number of codepoints.
    pub fn len(&self) -> (r: usize)
        requires
            self.wf(),
        ensures
            r == self@.len(),
    {
        self.char_indexes.len()
    }

    /// Byte offset at which codepoint `idx` starts; `idx == len()` gives the
    /// length of the string in bytes.
    pub fn idx_of_char_in_str(&self, idx: usize) -> (r: usize)
        requires
            self.wf(),
            idx <= self@.len(),
        ensures
            r == byte_offset(self@, idx as int),
    {
        if idx == self.char_indexes.len() {
            if idx == 0 {
                proof {
                    assert(self@.take(0) =~= Seq::<char>::empty());
                }
                0
            } else {
                let (idx_in_str, last_char) = self.char_indexes[idx - 1];
                proof {
                    lemma_byte_offset_step(self@, idx - 1);
                    lemma_split_encoding(self@, idx as int);
                }
                idx_in_str + utf8_width(last_char)
            }
        } else {
            let (idx_in_str, _) = self.char_indexes[idx];
            idx_in_str
        }
    }

    /// Codepoint number `idx`.
    pub fn char_at_idx(&self, idx: usize) -> (r: char)
        requires
            self.wf(),
            idx < self@.len(),
        ensures
            r == self@[idx as int],
    {
        self.char_indexes[idx].1
    }

    /// The slice of the indexed string made of codepoints `from..to`.
    pub fn substring(&self, from: usize, to: usize) -> (r: &'a str)
        requires
            self.wf(),
            from <= to <= self@.len(),
        ensures
            r@ == self@.subrange(from as int, to as int),
    {
        let start = self.idx_of_char_in_str(from);
        let end = self.idx_of_char_in_str(to);
        let ghost s = self@;
        let ghost mid = s.subrange(from as int, to as int);
        proof {
            lemma_split_encoding(s, from as int);
            let tail = s.skip(from as int);
            assert(tail.take(to - from) =~= mid);
            assert(s.take(to as int) =~= s.take(from as int) + mid);
            lemma_encode_concat(s.take(from as int), mid);
            lemma_split_encoding(tail, to - from);
        }
        let (_, rest) = self.string.split_at(start);
        proof {
            assert(rest.spec_bytes() =~= encode_utf8(s.skip(from as int)));
            encode_utf8_decode_utf8(rest@);
            encode_utf8_decode_utf8(s.skip(from as int));
        }
        let (part, _) = rest.split_at(end - start);
        proof {
            assert(part.spec_bytes() =~= encode_utf8(mid));
            encode_utf8_decode_utf8(part@);
            encode_utf8_decode_utf8(mid);
        }
        part
    }

    /// The entries of the table from codepoint `from` on.
    pub fn get_char_index_range_from<'b>(&'b self, from: usize) -> (r: &'b [(usize, char)])
        requires
            self.wf(),
            from <= self@.len(),
        ensures
            r@.len() == self@.len() - from,
            forall|i: int|
                0 <= i < r@.len() ==> {
                    &&& (#[trigger] r@[i]).1 == self@[from + i]
                    &&& r@[i].0 == byte_offset(self@, from + i)
                },
    {
        &self.char_indexes.as_slice()[from..self.char_indexes.len()]
    }
}

} // verus!
