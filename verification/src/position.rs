//! Places in the source text, and values annotated with the range of text
//! they were read from.

use vstd::prelude::*;
use vstd::utf8::*;

verus! {

/// A place in the source text: the byte offset from the start, and the
/// zero-based line and column. The column counts characters, not bytes.
#[derive(Clone, Copy, Debug, PartialEq, Eq, PartialOrd, Ord, Hash)]
pub struct SourcePosition {
    pub index: usize,
    pub line: usize,
    pub col: usize,
}

/// A value together with the range of source text it was read from. `end`
/// is the place just past the last character of the range.
#[derive(Clone, Debug, PartialEq, Eq, Hash)]
pub struct Spanning<T> {
    pub start: SourcePosition,
    pub end: SourcePosition,
    pub item: T,
}

impl DeepView for SourcePosition {
    type V = SourcePosition;

    open spec fn deep_view(&self) -> SourcePosition {
        *self
    }
}

impl<T: DeepView> DeepView for Spanning<T> {
    type V = Spanning<T::V>;

    open spec fn deep_view(&self) -> Spanning<T::V> {
        Spanning { start: self.start, end: self.end, item: self.item.deep_view() }
    }
}

/// The number of bytes that `c` takes in UTF-8.
pub open spec fn char_width(c: char) -> nat {
    let v = c as u32;
    if v < 0x80 {
        1
    } else if v < 0x800 {
        2
    } else if v < 0x10000 {
        3
    } else {
        4
    }
}

/// The byte offset of the character with index `i` in `src`: the widths of
/// the `i` characters before it, added up.
pub open spec fn offset_at(src: Seq<char>, i: int) -> nat
    decreases i,
{
    if i <= 0 {
        0
    } else {
        offset_at(src, i - 1) + char_width(src[i - 1])
    }
}

/// The number of line feeds among the first `i` characters of `src`.
pub open spec fn line_at(src: Seq<char>, i: int) -> nat
    decreases i,
{
    if i <= 0 {
        0
    } else if src[i - 1] == '\n' {
        line_at(src, i - 1) + 1
    } else {
        line_at(src, i - 1)
    }
}

/// The number of characters between the last line feed among the first `i`
/// characters of `src` and the character with index `i`.
pub open spec fn col_at(src: Seq<char>, i: int) -> nat
    decreases i,
{
    if i <= 0 {
        0
    } else if src[i - 1] == '\n' {
        0
    } else {
        col_at(src, i - 1) + 1
    }
}

/// The length of `src` in bytes.
pub open spec fn byte_len(src: Seq<char>) -> nat {
    offset_at(src, src.len() as int)
}

/// The place of the character with index `i` in `src`; with `i == src.len()`,
/// the place of the end of the text.
pub open spec fn position_at(src: Seq<char>, i: int) -> SourcePosition {
    SourcePosition {
        index: offset_at(src, i) as usize,
        line: line_at(src, i) as usize,
        col: col_at(src, i) as usize,
    }
}

/// Offsets grow with the character index, by at least one byte a character,
/// and lines and columns together count no more than the characters passed.
pub proof fn lemma_offsets_grow(src: Seq<char>, i: int, j: int)
    requires
        0 <= i <= j,
    ensures
        offset_at(src, i) + (j - i) <= offset_at(src, j),
        line_at(src, i) <= line_at(src, j),
        line_at(src, j) + col_at(src, j) <= j,
    decreases j,
{
    if j > 0 {
        if i < j {
            lemma_offsets_grow(src, i, j - 1);
        } else {
            lemma_offsets_grow(src, 0, j - 1);
        }
    }
}

proof fn lemma_scalar_width(c: char)
    ensures
        encode_scalar(c as u32).len() == char_width(c),
{
    char_is_scalar(c);
}

proof fn lemma_encode_push(s: Seq<char>, c: char)
    ensures
        encode_utf8(s.push(c)).len() == encode_utf8(s).len() + char_width(c),
    decreases s.len(),
{
    lemma_scalar_width(c);
    if s.len() == 0 {
        assert(s.push(c).drop_first() =~= s);
        assert(encode_utf8(s) =~= seq![]);
        assert(encode_utf8(s.push(c)) =~= encode_scalar(c as u32) + encode_utf8(s));
    } else {
        assert(s.push(c).drop_first() =~= s.drop_first().push(c));
        lemma_encode_push(s.drop_first(), c);
    }
}

/// The offset of a character is the length of the UTF-8 encoding of the
/// characters before it.
pub proof fn lemma_offset_is_encoded_len(src: Seq<char>, i: int)
    requires
        0 <= i <= src.len(),
    ensures
        offset_at(src, i) == encode_utf8(src.take(i)).len(),
    decreases i,
{
    if i == 0 {
        assert(src.take(0) =~= Seq::<char>::empty());
    } else {
        lemma_offset_is_encoded_len(src, i - 1);
        assert(src.take(i) =~= src.take(i - 1).push(src[i - 1]));
        lemma_encode_push(src.take(i - 1), src[i - 1]);
    }
}

/// `byte_len` is the length of the UTF-8 encoding of the text, which is how
/// Rust measures a `str`.
pub proof fn lemma_byte_len_is_encoded_len(src: Seq<char>)
    ensures
        byte_len(src) == encode_utf8(src).len(),
{
    lemma_offset_is_encoded_len(src, src.len() as int);
    assert(src.take(src.len() as int) =~= src);
}

/// The number of bytes that `c` takes in UTF-8.
pub fn utf8_width(c: char) -> (w: usize)
    ensures
        w == char_width(c),
{
    let v: u32 = c as u32;
    if v < 0x80 {
        1
    } else if v < 0x800 {
        2
    } else if v < 0x10000 {
        3
    } else {
        4
    }
}

impl SourcePosition {
    /// The place after `self` once the character `c` has been passed.
    pub open spec fn spec_advance(self, c: char) -> SourcePosition {
        if c == '\n' {
            SourcePosition {
                index: (self.index + char_width(c)) as usize,
                line: (self.line + 1) as usize,
                col: 0,
            }
        } else {
            SourcePosition {
                index: (self.index + char_width(c)) as usize,
                line: self.line,
                col: (self.col + 1) as usize,
            }
        }
    }

    pub fn new(index: usize, line: usize, col: usize) -> (p: SourcePosition)
        ensures
            p == (SourcePosition { index, line, col }),
    {
        SourcePosition { index, line, col }
    }

    /// The place of the first character of a text.
    pub fn new_origin() -> (p: SourcePosition)
        ensures
            p == (SourcePosition { index: 0, line: 0, col: 0 }),
    {
        SourcePosition { index: 0, line: 0, col: 0 }
    }

    /// Moves past the character `c`: the index grows by the bytes of `c`; a
    /// line feed starts a new line, any other character widens the column.
    pub fn advance(&mut self, c: char)
        requires
            old(self).index + char_width(c) <= usize::MAX,
            old(self).line < usize::MAX,
            old(self).col < usize::MAX,
        ensures
            *final(self) == old(self).spec_advance(c),
    {
        self.index = self.index + utf8_width(c);
        if c == '\n' {
            self.line = self.line + 1;
            self.col = 0;
        } else {
            self.col = self.col + 1;
        }
    }

    pub fn index(&self) -> (i: usize)
        ensures
            i == self.index,
    {
        self.index
    }

    pub fn line(&self) -> (l: usize)
        ensures
            l == self.line,
    {
        self.line
    }

    pub fn column(&self) -> (c: usize)
        ensures
            c == self.col,
    {
        self.col
    }
}

/// Passing the character with index `i` leads from its place to the place
/// of the next character.
pub proof fn lemma_position_step(src: Seq<char>, i: int)
    requires
        0 <= i < src.len(),
        byte_len(src) <= usize::MAX,
    ensures
        position_at(src, i + 1) == position_at(src, i).spec_advance(src[i]),
        position_at(src, i).index + char_width(src[i]) <= usize::MAX,
        position_at(src, i).line < usize::MAX,
        position_at(src, i).col < usize::MAX,
        position_at(src, i).index == offset_at(src, i),
{
    lemma_offsets_grow(src, i, i + 1);
    lemma_offsets_grow(src, i + 1, src.len() as int);
    lemma_offsets_grow(src, 0, i + 1);
    lemma_offsets_grow(src, 0, i);
}

impl<T> Spanning<T> {
    /// `item` at the single place `pos`, covering no text.
    pub fn zero_width(pos: &SourcePosition, item: T) -> (s: Spanning<T>)
        ensures
            s == (Spanning { start: *pos, end: *pos, item }),
    {
        Spanning { start: *pos, end: *pos, item }
    }

    /// `item` over the text from `start` up to `end`.
    pub fn start_end(start: &SourcePosition, end: &SourcePosition, item: T) -> (s: Spanning<T>)
        ensures
            s == (Spanning { start: *start, end: *end, item }),
    {
        Spanning { start: *start, end: *end, item }
    }
}

} // verus!
