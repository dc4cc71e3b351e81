//! Source positions and ranges.
use vstd::prelude::*;
use vstd::utf8::*;

verus! {

/// A location in source text: byte offset, zero-based line and column.
#[derive(Debug, Copy, Clone, PartialEq, Eq, Structural)]
pub struct FileIndex {
    pub index: usize,
    pub line: usize,
    pub column: usize,
}

/// A half-open range between two locations.
#[derive(Debug, Copy, Clone, PartialEq, Eq, Structural)]
pub struct Span(pub FileIndex, pub FileIndex);

impl Default for FileIndex {
    /// The start of a text.
    fn default() -> (r: FileIndex)
        ensures
            r == (FileIndex { index: 0, line: 0, column: 0 }),
    {
        FileIndex { index: 0, line: 0, column: 0 }
    }
}

impl Default for Span {
    /// The empty span at the start of a text.
    fn default() -> (r: Span)
        ensures
            r == Span(FileIndex { index: 0, line: 0, column: 0 }, FileIndex { index: 0, line: 0, column: 0 }),
    {
        Span(FileIndex::default(), FileIndex::default())
    }
}

/// Number of bytes of the UTF-8 encoding of `c`.
pub open spec fn utf8_width(c: char) -> nat {
    if c as u32 <= 0x7f {
        1
    } else if c as u32 <= 0x7ff {
        2
    } else if c as u32 <= 0xffff {
        3
    } else {
        4
    }
}

/// Byte offset of the character at index `i` of `s`: the length of the
/// UTF-8 encoding of everything before it.
pub open spec fn offset_at(s: Seq<char>, i: int) -> nat {
    encode_utf8(s.subrange(0, i)).len()
}

/// Number of newlines before index `i`.
pub open spec fn line_at(s: Seq<char>, i: int) -> nat
    decreases i,
{
    if i <= 0 {
        0
    } else if s[i - 1] == '\n' {
        line_at(s, i - 1) + 1
    } else {
        line_at(s, i - 1)
    }
}

/// Number of characters between the last newline before index `i` and `i`.
pub open spec fn column_at(s: Seq<char>, i: int) -> nat
    decreases i,
{
    if i <= 0 {
        0
    } else if s[i - 1] == '\n' {
        0
    } else {
        column_at(s, i - 1) + 1
    }
}

/// The location of the character at index `i` of `s`.
pub open spec fn position_at(s: Seq<char>, i: int) -> FileIndex {
    FileIndex {
        index: offset_at(s, i) as usize,
        line: line_at(s, i) as usize,
        column: column_at(s, i) as usize,
    }
}

/// The span of the characters `s[a..b]`.
pub open spec fn span_between(s: Seq<char>, a: int, b: int) -> Span {
    Span(position_at(s, a), position_at(s, b))
}

/// Whether every location of `s` fits the machine's offsets.
pub open spec fn fits_offsets(s: Seq<char>) -> bool {
    offset_at(s, s.len() as int) <= usize::MAX
}

impl FileIndex {
    /// The location `c` moves to when the cursor passes over it.
    pub open spec fn advanced(self, c: char) -> FileIndex {
        if c == '\n' {
            FileIndex { index: (self.index + utf8_width(c)) as usize, line: (self.line + 1) as usize, column: 0 }
        } else {
            FileIndex {
                index: (self.index + utf8_width(c)) as usize,
                line: self.line,
                column: (self.column + 1) as usize,
            }
        }
    }
}

/// Number of bytes of the UTF-8 encoding of `c`.
pub fn char_width(c: char) -> (w: usize)
    ensures
        w == utf8_width(c),
{
    let u = c as u32;
    if u <= 0x7f {
        1
    } else if u <= 0x7ff {
        2
    } else if u <= 0xffff {
        3
    } else {
        4
    }
}

impl Span {
    /// Moves the end of the span over the character `c`.
    pub fn notice(&mut self, c: char)
        requires
            old(self).1.index + utf8_width(c) <= usize::MAX,
            old(self).1.line < usize::MAX,
            old(self).1.column < usize::MAX,
        ensures
            final(self).0 == old(self).0,
            final(self).1 == old(self).1.advanced(c),
    {
        self.1.index = self.1.index + char_width(c);
        self.1.column = self.1.column + 1;
        if c == '\n' {
            self.1.line = self.1.line + 1;
            self.1.column = 0;
        }
    }

    /// Moves the end of the span to the end of `other`.
    pub fn extend(&mut self, other: &Span)
        ensures
            final(self).0 == old(self).0,
            final(self).1 == other.1,
    {
        self.1 = other.1;
    }

    /// Collapses the span to the empty span at its end.
    pub fn blip(&mut self)
        ensures
            final(self).0 == old(self).1,
            final(self).1 == old(self).1,
    {
        self.0 = self.1;
    }
}

pub proof fn lemma_encode_utf8_concat(a: Seq<char>, b: Seq<char>)
    ensures
        encode_utf8(a + b) == encode_utf8(a) + encode_utf8(b),
    decreases a.len(),
{
    if a.len() == 0 {
        assert(a + b =~= b);
        assert(encode_utf8(a) =~= Seq::<u8>::empty());
        assert(encode_utf8(a) + encode_utf8(b) =~= encode_utf8(b));
    } else {
        assert((a + b).drop_first() =~= a.drop_first() + b);
        lemma_encode_utf8_concat(a.drop_first(), b);
        assert(encode_utf8(a + b) =~= encode_utf8(a) + encode_utf8(b));
    }
}

pub proof fn lemma_scalar_width(c: char)
    ensures
        encode_scalar(c as u32).len() == utf8_width(c),
        1 <= utf8_width(c) <= 4,
{
    char_is_scalar(c);
}

/// The offset after a character is the offset before it plus its width.
pub proof fn lemma_offset_step(s: Seq<char>, i: int)
    requires
        0 <= i < s.len(),
    ensures
        offset_at(s, i + 1) == offset_at(s, i) + utf8_width(s[i]),
{
    let a = s.subrange(0, i);
    let c = seq![s[i]];
    assert(s.subrange(0, i + 1) =~= a + c);
    lemma_encode_utf8_concat(a, c);
    assert(c.drop_first() =~= Seq::<char>::empty());
    assert(encode_utf8(c.drop_first()) =~= Seq::<u8>::empty());
    assert(encode_utf8(c).len() == encode_scalar(c[0] as u32).len());
    lemma_scalar_width(s[i]);
}

/// Offsets grow by at least one byte per character.
pub proof fn lemma_offset_grows(s: Seq<char>, i: int, j: int)
    requires
        0 <= i <= j <= s.len(),
    ensures
        offset_at(s, i) + (j - i) <= offset_at(s, j),
    decreases j - i,
{
    if i < j {
        lemma_offset_grows(s, i, j - 1);
        lemma_offset_step(s, j - 1);
        lemma_scalar_width(s[j - 1]);
    }
}

/// Lines and columns never exceed the character index.
pub proof fn lemma_line_column_bounded(s: Seq<char>, i: int)
    requires
        0 <= i,
    ensures
        line_at(s, i) <= i,
        column_at(s, i) <= i,
    decreases i,
{
    if i > 0 {
        lemma_line_column_bounded(s, i - 1);
    }
}

/// Passing over the character at index `i` moves `position_at(s, i)` to
/// `position_at(s, i + 1)`.
pub proof fn lemma_position_step(s: Seq<char>, i: int)
    requires
        0 <= i < s.len(),
        fits_offsets(s),
    ensures
        position_at(s, i + 1) == position_at(s, i).advanced(s[i]),
        position_at(s, i).index + utf8_width(s[i]) <= usize::MAX,
        position_at(s, i).line < usize::MAX,
        position_at(s, i).column < usize::MAX,
{
    lemma_offset_step(s, i);
    lemma_offset_grows(s, 0, i + 1);
    lemma_offset_grows(s, i + 1, s.len() as int);
    lemma_line_column_bounded(s, i);
    lemma_line_column_bounded(s, i + 1);
}

} // verus!
