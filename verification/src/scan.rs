//! Reading one token from a text held as a sequence of characters.
//!
//! The functions here look at the text and change nothing. Each `spec`
//! function says where a piece of a token ends, or where and why it is
//! malformed; the executable function of the same name computes it.

use vstd::prelude::*;
use crate::token::{LexError, LexErrorView, Scalar, ScalarView, Token, TokenView};

verus! {

/// Where reading failed, by character index, and why.
pub type ScanError = (int, LexErrorView);

/// White space and commas: text between tokens that means nothing.
pub open spec fn is_ignored(c: char) -> bool {
    c == '\t' || c == ' ' || c == '\n' || c == '\r' || c == ','
}

pub open spec fn is_digit(c: char) -> bool {
    '0' <= c <= '9'
}

pub open spec fn is_letter(c: char) -> bool {
    ('A' <= c <= 'Z') || ('a' <= c <= 'z')
}

pub open spec fn is_name_start(c: char) -> bool {
    c == '_' || is_letter(c)
}

pub open spec fn is_name_cont(c: char) -> bool {
    is_name_start(c) || is_digit(c)
}

pub open spec fn is_hex_digit(c: char) -> bool {
    is_digit(c) || ('A' <= c <= 'F') || ('a' <= c <= 'f')
}

/// A character that may stand unescaped in a string literal or a comment:
/// a tab, or anything from the space upwards.
pub open spec fn is_text_char(c: char) -> bool {
    c == '\t' || c >= ' '
}

/// The byte order mark, which may stand before the first token.
pub open spec fn byte_order_mark() -> char {
    '\u{feff}'
}

/// The value of a decimal digit.
pub open spec fn digit_of(c: char) -> int {
    c as u32 - 0x30
}

/// The value of a hexadecimal digit.
pub open spec fn hex_of(c: char) -> int {
    if is_digit(c) {
        c as u32 - 0x30
    } else if 'a' <= c <= 'f' {
        c as u32 - 0x61 + 10
    } else {
        c as u32 - 0x41 + 10
    }
}

/// The number that a run of decimal digits denotes.
pub open spec fn digits_value(s: Seq<char>) -> nat
    decreases s.len(),
{
    if s.len() == 0 {
        0
    } else {
        (digits_value(s.drop_last()) * 10 + digit_of(s.last())) as nat
    }
}

/// A comment runs up to and including the next line feed, or to the end of
/// the text: the index just past the comment whose text starts at `i`.
pub open spec fn comment_end(src: Seq<char>, i: int) -> int
    decreases src.len() - i,
{
    if i >= src.len() {
        i
    } else if src[i] == '\n' {
        i + 1
    } else {
        comment_end(src, i + 1)
    }
}

/// The index of the first character at or after `i` that belongs to a
/// token: white space, commas, comments, and a byte order mark at the very
/// start of the text are passed over.
pub open spec fn skip_ignored(src: Seq<char>, i: int) -> int
    decreases src.len() - i,
{
    if i < 0 || i >= src.len() {
        i
    } else if is_ignored(src[i]) || (i == 0 && src[i] == byte_order_mark()) {
        skip_ignored(src, i + 1)
    } else if src[i] == '#' {
        if i < comment_end(src, i + 1) <= src.len() {
            skip_ignored(src, comment_end(src, i + 1))
        } else {
            i
        }
    } else {
        i
    }
}

/// The index of the first character at or after `i` that cannot continue a
/// name.
pub open spec fn name_end(src: Seq<char>, i: int) -> int
    decreases src.len() - i,
{
    if 0 <= i < src.len() && is_name_cont(src[i]) {
        name_end(src, i + 1)
    } else {
        i
    }
}

/// The index of the first character at or after `i` that is no digit.
pub open spec fn digits_end(src: Seq<char>, i: int) -> int
    decreases src.len() - i,
{
    if 0 <= i < src.len() && is_digit(src[i]) {
        digits_end(src, i + 1)
    } else {
        i
    }
}

/// The end of one or more digits starting at `i`.
pub open spec fn required_digits_end(src: Seq<char>, i: int) -> Result<int, ScanError> {
    if i >= src.len() {
        Err((i, LexErrorView::UnexpectedEndOfFile))
    } else if !is_digit(src[i]) {
        Err((i, LexErrorView::InvalidNumber))
    } else {
        Ok(digits_end(src, i))
    }
}

/// The end of the integer part starting at `i`, after any sign: a single
/// zero, or digits that do not start with zero.
pub open spec fn integer_end(src: Seq<char>, i: int) -> Result<int, ScanError> {
    if i >= src.len() {
        Err((i, LexErrorView::UnexpectedEndOfFile))
    } else if !is_digit(src[i]) {
        Err((i, LexErrorView::InvalidNumber))
    } else if src[i] == '0' {
        if i + 1 < src.len() && is_digit(src[i + 1]) {
            Err((i + 1, LexErrorView::InvalidNumber))
        } else {
            Ok(i + 1)
        }
    } else {
        Ok(digits_end(src, i))
    }
}

/// The end of the fraction starting at `i`, if there is one: a dot and one
/// or more digits. Where there is none the result is `i`.
pub open spec fn fraction_end(src: Seq<char>, i: int) -> Result<int, ScanError> {
    if 0 <= i < src.len() && src[i] == '.' {
        required_digits_end(src, i + 1)
    } else {
        Ok(i)
    }
}

/// The end of the exponent starting at `i`, if there is one: `e` or `E`, an
/// optional sign, and one or more digits. Where there is none the result
/// is `i`.
pub open spec fn exponent_end(src: Seq<char>, i: int) -> Result<int, ScanError> {
    if 0 <= i < src.len() && (src[i] == 'e' || src[i] == 'E') {
        if i + 1 < src.len() && (src[i + 1] == '+' || src[i + 1] == '-') {
            required_digits_end(src, i + 2)
        } else {
            required_digits_end(src, i + 1)
        }
    } else {
        Ok(i)
    }
}

/// The number token that starts at `i`, where a minus sign or a digit
/// stands, and the index just past it.
///
/// A number with a fraction or an exponent is a `Float` and keeps its text.
/// Any other is an `Int`, and must fit in 64 bits. A number may not run into
/// a name.
pub open spec fn number_at(src: Seq<char>, i: int) -> Result<(TokenView, int), ScanError> {
    let negative = src[i] == '-';
    let first = if negative { i + 1 } else { i };
    match integer_end(src, first) {
        Err(e) => Err(e),
        Ok(k) => match fraction_end(src, k) {
            Err(e) => Err(e),
            Ok(m) => match exponent_end(src, m) {
                Err(e) => Err(e),
                Ok(n) => {
                    if n < src.len() && is_name_start(src[n]) {
                        Err((n, LexErrorView::InvalidNumber))
                    } else if n > k {
                        Ok((TokenView::Scalar(ScalarView::Float(src.subrange(i, n))), n))
                    } else {
                        let magnitude = digits_value(src.subrange(first, k));
                        let value = if negative { -magnitude } else { magnitude as int };
                        if i64::MIN <= value <= i64::MAX {
                            Ok((TokenView::Scalar(ScalarView::Int(value as i64)), k))
                        } else {
                            Err((i, LexErrorView::InvalidNumber))
                        }
                    }
                },
            },
        },
    }
}

pub proof fn lemma_comment_end_bounds(src: Seq<char>, i: int)
    requires
        0 <= i <= src.len(),
    ensures
        i <= comment_end(src, i) <= src.len(),
    decreases src.len() - i,
{
    if i < src.len() && src[i] != '\n' {
        lemma_comment_end_bounds(src, i + 1);
    }
}

pub proof fn lemma_skip_ignored_bounds(src: Seq<char>, i: int)
    requires
        0 <= i <= src.len(),
    ensures
        i <= skip_ignored(src, i) <= src.len(),
    decreases src.len() - i,
{
    if i < src.len() {
        if is_ignored(src[i]) || (i == 0 && src[i] == byte_order_mark()) {
            lemma_skip_ignored_bounds(src, i + 1);
        } else if src[i] == '#' {
            lemma_comment_end_bounds(src, i + 1);
            lemma_skip_ignored_bounds(src, comment_end(src, i + 1));
        }
    }
}

pub proof fn lemma_name_end_bounds(src: Seq<char>, i: int)
    requires
        0 <= i <= src.len(),
    ensures
        i <= name_end(src, i) <= src.len(),
    decreases src.len() - i,
{
    if i < src.len() && is_name_cont(src[i]) {
        lemma_name_end_bounds(src, i + 1);
    }
}

pub proof fn lemma_digits_end_bounds(src: Seq<char>, i: int)
    requires
        0 <= i <= src.len(),
    ensures
        i <= digits_end(src, i) <= src.len(),
        i < src.len() && is_digit(src[i]) ==> i < digits_end(src, i),
    decreases src.len() - i,
{
    if i < src.len() && is_digit(src[i]) {
        lemma_digits_end_bounds(src, i + 1);
    }
}

/// The digits read so far never denote more than all the digits do.
pub proof fn lemma_digits_value_grows(src: Seq<char>, from: int, mid: int, to: int)
    requires
        0 <= from <= mid <= to <= src.len(),
        forall|k: int| from <= k < to ==> is_digit(#[trigger] src[k]),
    ensures
        digits_value(src.subrange(from, mid)) <= digits_value(src.subrange(from, to)),
    decreases to - mid,
{
    if mid < to {
        lemma_digits_value_grows(src, from, mid, to - 1);
        assert(src.subrange(from, to).drop_last() =~= src.subrange(from, to - 1));
    }
}

fn is_ignored_char(c: char) -> (b: bool)
    ensures
        b == is_ignored(c),
{
    c == '\t' || c == ' ' || c == '\n' || c == '\r' || c == ','
}

fn is_digit_char(c: char) -> (b: bool)
    ensures
        b == is_digit(c),
{
    '0' <= c && c <= '9'
}

fn is_name_start_char(c: char) -> (b: bool)
    ensures
        b == is_name_start(c),
{
    c == '_' || ('A' <= c && c <= 'Z') || ('a' <= c && c <= 'z')
}

fn is_name_cont_char(c: char) -> (b: bool)
    ensures
        b == is_name_cont(c),
{
    is_name_start_char(c) || is_digit_char(c)
}

fn is_hex_digit_char(c: char) -> (b: bool)
    ensures
        b == is_hex_digit(c),
{
    is_digit_char(c) || ('A' <= c && c <= 'F') || ('a' <= c && c <= 'f')
}

fn hex_digit_value(c: char) -> (v: u32)
    requires
        is_hex_digit(c),
    ensures
        v == hex_of(c),
        v < 16,
{
    if is_digit_char(c) {
        c as u32 - 0x30
    } else if 'a' <= c && c <= 'f' {
        c as u32 - 0x61 + 10
    } else {
        c as u32 - 0x41 + 10
    }
}

/// Passes over white space, commas and comments from `i` on.
pub(crate) fn skip_ignored_from(src: &Vec<char>, i: usize) -> (j: usize)
    requires
        i <= src@.len(),
    ensures
        j == skip_ignored(src@, i as int),
        i <= j <= src@.len(),
{
    let mut j: usize = i;
    while j < src.len()
        invariant
            i <= j <= src@.len(),
            skip_ignored(src@, i as int) == skip_ignored(src@, j as int),
        decreases src@.len() - j,
    {
        let c = src[j];
        if is_ignored_char(c) || (j == 0 && c == '\u{feff}') {
            j = j + 1;
        } else if c == '#' {
            let ghost start = j as int;
            j = j + 1;
            while j < src.len() && src[j] != '\n'
                invariant
                    start < j <= src@.len(),
                    comment_end(src@, start + 1) == comment_end(src@, j as int),
                decreases src@.len() - j,
            {
                j = j + 1;
            }
            if j < src.len() {
                j = j + 1;
            }
            proof {
                lemma_comment_end_bounds(src@, start + 1);
            }
        } else {
            return j;
        }
    }
    j
}

/// Finds the end of the name that has a character at `i`.
fn name_end_from(src: &Vec<char>, i: usize) -> (j: usize)
    requires
        i <= src@.len(),
    ensures
        j == name_end(src@, i as int),
        i <= j <= src@.len(),
        i < src@.len() && is_name_cont(src@[i as int]) ==> i < j,
{
    let mut j: usize = i;
    while j < src.len() && is_name_cont_char(src[j])
        invariant
            i <= j <= src@.len(),
            name_end(src@, i as int) == name_end(src@, j as int),
        decreases src@.len() - j,
    {
        j = j + 1;
    }
    j
}

/// Finds the end of the digits from `i` on.
fn digits_end_from(src: &Vec<char>, i: usize) -> (j: usize)
    requires
        i <= src@.len(),
    ensures
        j == digits_end(src@, i as int),
        i <= j <= src@.len(),
        forall|k: int| i <= k < j ==> is_digit(#[trigger] src@[k]),
{
    let mut j: usize = i;
    while j < src.len() && is_digit_char(src[j])
        invariant
            i <= j <= src@.len(),
            digits_end(src@, i as int) == digits_end(src@, j as int),
            forall|k: int| i <= k < j ==> is_digit(#[trigger] src@[k]),
        decreases src@.len() - j,
    {
        j = j + 1;
    }
    j
}

/// Whether the index or failure that was computed is the one specified.
pub open spec fn same_end(r: Result<usize, (usize, LexError)>, s: Result<int, ScanError>) -> bool {
    match (r, s) {
        (Ok(a), Ok(b)) => a == b,
        (Err((k, e)), Err((k2, e2))) => k == k2 && e.deep_view() == e2,
        _ => false,
    }
}

/// Whether the token or failure that was computed is the one specified.
pub open spec fn same_token(
    r: Result<(Token, usize), (usize, LexError)>,
    s: Result<(TokenView, int), ScanError>,
) -> bool {
    match (r, s) {
        (Ok((t, a)), Ok((t2, b))) => t.deep_view() == t2 && a == b,
        (Err((k, e)), Err((k2, e2))) => k == k2 && e.deep_view() == e2,
        _ => false,
    }
}

/// Whether an index that was computed, or the index of a failure, lies
/// between `i` and `len`.
pub open spec fn end_within(r: Result<usize, (usize, LexError)>, i: int, len: int) -> bool {
    match r {
        Ok(j) => i <= j <= len,
        Err((k, _)) => i <= k <= len,
    }
}

/// Whether the end of a token that was computed, or the index of a failure,
/// lies between `i` and `len`.
pub open spec fn token_within(r: Result<(Token, usize), (usize, LexError)>, i: int, len: int) -> bool {
    match r {
        Ok((_, j)) => i <= j <= len,
        Err((k, _)) => i <= k <= len,
    }
}

/// Copies the characters from `from` up to `to` into a string.
fn text_of(src: &Vec<char>, from: usize, to: usize) -> (s: String)
    requires
        from <= to <= src@.len(),
    ensures
        s@ == src@.subrange(from as int, to as int),
{
    let mut s = String::new();
    let mut k: usize = from;
    while k < to
        invariant
            from <= k <= to <= src@.len(),
            s@ == src@.subrange(from as int, k as int),
        decreases to - k,
    {
        s.push(src[k]);
        k = k + 1;
        assert(s@ =~= src@.subrange(from as int, k as int));
    }
    s
}

fn required_digits_end_from(src: &Vec<char>, i: usize) -> (r: Result<usize, (usize, LexError)>)
    requires
        i <= src@.len(),
    ensures
        same_end(r, required_digits_end(src@, i as int)),
        end_within(r, i as int, src@.len() as int),
{
    if i >= src.len() {
        Err((i, LexError::UnexpectedEndOfFile))
    } else if !is_digit_char(src[i]) {
        Err((i, LexError::InvalidNumber))
    } else {
        Ok(digits_end_from(src, i))
    }
}

fn integer_end_from(src: &Vec<char>, i: usize) -> (r: Result<usize, (usize, LexError)>)
    requires
        i <= src@.len(),
    ensures
        same_end(r, integer_end(src@, i as int)),
        end_within(r, i as int, src@.len() as int),
        r matches Ok(j) ==> forall|k: int| i <= k < j ==> is_digit(#[trigger] src@[k]),
{
    if i >= src.len() {
        Err((i, LexError::UnexpectedEndOfFile))
    } else if !is_digit_char(src[i]) {
        Err((i, LexError::InvalidNumber))
    } else if src[i] == '0' {
        if i + 1 < src.len() && is_digit_char(src[i + 1]) {
            Err((i + 1, LexError::InvalidNumber))
        } else {
            Ok(i + 1)
        }
    } else {
        Ok(digits_end_from(src, i))
    }
}

fn fraction_end_from(src: &Vec<char>, i: usize) -> (r: Result<usize, (usize, LexError)>)
    requires
        i <= src@.len(),
    ensures
        same_end(r, fraction_end(src@, i as int)),
        end_within(r, i as int, src@.len() as int),
{
    if i < src.len() && src[i] == '.' {
        required_digits_end_from(src, i + 1)
    } else {
        Ok(i)
    }
}

fn exponent_end_from(src: &Vec<char>, i: usize) -> (r: Result<usize, (usize, LexError)>)
    requires
        i <= src@.len(),
    ensures
        same_end(r, exponent_end(src@, i as int)),
        end_within(r, i as int, src@.len() as int),
{
    if i < src.len() && (src[i] == 'e' || src[i] == 'E') {
        if i + 1 < src.len() && (src[i + 1] == '+' || src[i + 1] == '-') {
            required_digits_end_from(src, i + 2)
        } else {
            required_digits_end_from(src, i + 1)
        }
    } else {
        Ok(i)
    }
}

/// The number that the digits from `from` up to `to` denote, unless it is
/// more than two to the power 63.
fn magnitude_of(src: &Vec<char>, from: usize, to: usize) -> (r: Option<u64>)
    requires
        from <= to <= src@.len(),
        forall|k: int| from <= k < to ==> is_digit(#[trigger] src@[k]),
    ensures
        match r {
            Some(v) => v == digits_value(src@.subrange(from as int, to as int)) && v
                <= 0x8000_0000_0000_0000u64,
            None => digits_value(src@.subrange(from as int, to as int)) > 0x8000_0000_0000_0000u64,
        },
{
    let mut acc: u64 = 0;
    let mut k: usize = from;
    while k < to
        invariant
            from <= k <= to <= src@.len(),
            forall|k: int| from <= k < to ==> is_digit(#[trigger] src@[k]),
            acc == digits_value(src@.subrange(from as int, k as int)),
            acc <= 0x8000_0000_0000_0000u64,
        decreases to - k,
    {
        let c = src[k];
        assert(is_digit(src@[k as int]));
        let d: u64 = (c as u32 - 0x30) as u64;
        proof {
            assert(src@.subrange(from as int, k + 1).drop_last() =~= src@.subrange(
                from as int,
                k as int,
            ));
            assert(digits_value(src@.subrange(from as int, k + 1)) == acc * 10 + d);
        }
        if acc > (0x8000_0000_0000_0000u64 - d) / 10 {
            proof {
                lemma_digits_value_grows(src@, from as int, k + 1, to as int);
            }
            return None;
        }
        acc = acc * 10 + d;
        k = k + 1;
    }
    Some(acc)
}

/// Reads the number that starts at `i`.
fn number_from(src: &Vec<char>, i: usize) -> (r: Result<(Token, usize), (usize, LexError)>)
    requires
        i < src@.len(),
    ensures
        same_token(r, number_at(src@, i as int)),
        token_within(r, i as int, src@.len() as int),
        r matches Ok((t, j)) ==> i < j && !(t is EndOfFile),
{
    let len = src.len();
    let negative = src[i] == '-';
    let first: usize = if negative { i + 1 } else { i };
    let k = match integer_end_from(src, first) {
        Ok(k) => k,
        Err(e) => { return Err(e); },
    };
    let m = match fraction_end_from(src, k) {
        Ok(m) => m,
        Err(e) => { return Err(e); },
    };
    let n = match exponent_end_from(src, m) {
        Ok(n) => n,
        Err(e) => { return Err(e); },
    };
    proof {
        lemma_digits_end_bounds(src@, first as int);
    }
    if n < src.len() && is_name_start_char(src[n]) {
        Err((n, LexError::InvalidNumber))
    } else if n > k {
        Ok((Token::Scalar(Scalar::Float(text_of(src, i, n))), n))
    } else {
        match magnitude_of(src, first, k) {
            None => Err((i, LexError::InvalidNumber)),
            Some(v) => {
                if negative {
                    if v == 0x8000_0000_0000_0000u64 {
                        Ok((Token::Scalar(Scalar::Int(i64::MIN)), k))
                    } else {
                        Ok((Token::Scalar(Scalar::Int(-(v as i64))), k))
                    }
                } else if v <= 0x7fff_ffff_ffff_ffffu64 {
                    Ok((Token::Scalar(Scalar::Int(v as i64)), k))
                } else {
                    Err((i, LexError::InvalidNumber))
                }
            },
        }
    }
}

/// How many of the characters from `i` on are letters or digits, counting
/// no further than `max` and stopping at the first that is neither.
pub open spec fn alphanumeric_run(src: Seq<char>, i: int, max: int) -> int
    decreases max,
{
    if max <= 0 || i < 0 || i >= src.len() || !(is_letter(src[i]) || is_digit(src[i])) {
        0
    } else {
        1 + alphanumeric_run(src, i + 1, max - 1)
    }
}

/// The number that the four hexadecimal digits from `i` on denote, if four
/// such digits stand there.
pub open spec fn hex4_at(src: Seq<char>, i: int) -> Option<u32> {
    if 0 <= i && i + 4 <= src.len() && is_hex_digit(src[i]) && is_hex_digit(src[i + 1])
        && is_hex_digit(src[i + 2]) && is_hex_digit(src[i + 3]) {
        Some(
            (((hex_of(src[i]) * 16 + hex_of(src[i + 1])) * 16 + hex_of(src[i + 2])) * 16 + hex_of(
                src[i + 3],
            )) as u32,
        )
    } else {
        None
    }
}

/// The text of a failed `\u` escape whose `u` has index `i`: the backslash,
/// the `u`, and the letters and digits read after it.
pub open spec fn bad_unicode_escape(src: Seq<char>, i: int) -> ScanError {
    (
        i,
        LexErrorView::UnknownEscapeSequence(
            seq!['\\', 'u'] + src.subrange(i + 1, i + 1 + alphanumeric_run(src, i + 1, 4)),
        ),
    )
}

/// The character that the `\u` escape whose `u` has index `i` denotes, and
/// the index just past the escape.
///
/// Four hexadecimal digits give the character's number. A number from
/// `0xD800` to `0xDBFF` is the first half of a surrogate pair: a second
/// `\u` escape with a number from `0xDC00` to `0xDFFF` must follow at once,
/// and the two together denote one character above `0xFFFF`.
pub open spec fn unicode_escape_at(src: Seq<char>, i: int) -> Result<(char, int), ScanError> {
    let n = alphanumeric_run(src, i + 1, 4);
    if n < 4 && i + 1 + n >= src.len() {
        Err((src.len() as int, LexErrorView::UnterminatedString))
    } else {
        match hex4_at(src, i + 1) {
            None => Err(bad_unicode_escape(src, i)),
            Some(unit) => {
                if 0xD800 <= unit <= 0xDBFF {
                    if i + 6 < src.len() && src[i + 5] == '\\' && src[i + 6] == 'u' {
                        match hex4_at(src, i + 7) {
                            Some(low) => {
                                if 0xDC00 <= low <= 0xDFFF {
                                    Ok(
                                        (
                                            (0x10000 + (unit - 0xD800) * 0x400 + (low
                                                - 0xDC00)) as char,
                                            i + 11,
                                        ),
                                    )
                                } else {
                                    Err(bad_unicode_escape(src, i))
                                }
                            },
                            None => Err(bad_unicode_escape(src, i)),
                        }
                    } else {
                        Err(bad_unicode_escape(src, i))
                    }
                } else if 0xDC00 <= unit <= 0xDFFF {
                    Err(bad_unicode_escape(src, i))
                } else {
                    Ok((unit as char, i + 5))
                }
            },
        }
    }
}

/// The character that the escape denotes whose backslash stands just
/// before `i`, and the index just past the escape.
pub open spec fn escape_at(src: Seq<char>, i: int) -> Result<(char, int), ScanError> {
    if i >= src.len() {
        Err((i, LexErrorView::UnterminatedString))
    } else {
        let c = src[i];
        if c == '"' || c == '\\' || c == '/' {
            Ok((c, i + 1))
        } else if c == 'b' {
            Ok(('\u{8}', i + 1))
        } else if c == 'f' {
            Ok(('\u{c}', i + 1))
        } else if c == 'n' {
            Ok(('\n', i + 1))
        } else if c == 'r' {
            Ok(('\r', i + 1))
        } else if c == 't' {
            Ok(('\t', i + 1))
        } else if c == 'u' {
            unicode_escape_at(src, i)
        } else {
            Err((i, LexErrorView::UnknownEscapeSequence(seq!['\\', c])))
        }
    }
}

/// The rest of a string literal from `i` on, where `text` is what the
/// literal denotes up to there: the whole text that it denotes, and the
/// index just past the closing quote.
pub open spec fn string_body(src: Seq<char>, i: int, text: Seq<char>) -> Result<
    (Seq<char>, int),
    ScanError,
>
    decreases src.len() - i,
{
    if i < 0 || i >= src.len() {
        Err((i, LexErrorView::UnterminatedString))
    } else if src[i] == '"' {
        Ok((text, i + 1))
    } else if src[i] == '\\' {
        match escape_at(src, i + 1) {
            Err(e) => Err(e),
            Ok((c, j)) => {
                if i < j <= src.len() {
                    string_body(src, j, text.push(c))
                } else {
                    Err((i, LexErrorView::UnterminatedString))
                }
            },
        }
    } else if src[i] == '\n' || src[i] == '\r' {
        Err((i, LexErrorView::UnterminatedString))
    } else if !is_text_char(src[i]) {
        Err((i, LexErrorView::UnknownCharacterInString(src[i])))
    } else {
        string_body(src, i + 1, text.push(src[i]))
    }
}

/// The string token whose opening quote has index `i`, and the index just
/// past its closing quote.
pub open spec fn string_at(src: Seq<char>, i: int) -> Result<(TokenView, int), ScanError> {
    match string_body(src, i + 1, Seq::<char>::empty()) {
        Ok((text, end)) => Ok((TokenView::Scalar(ScalarView::String(text)), end)),
        Err(e) => Err(e),
    }
}

/// The token `...` whose first dot has index `i`.
pub open spec fn ellipsis_at(src: Seq<char>, i: int) -> Result<(TokenView, int), ScanError> {
    if i + 1 >= src.len() {
        Err((src.len() as int, LexErrorView::UnexpectedEndOfFile))
    } else if src[i + 1] != '.' {
        Err((i, LexErrorView::UnknownCharacter('.')))
    } else if i + 2 >= src.len() {
        Err((src.len() as int, LexErrorView::UnexpectedEndOfFile))
    } else if src[i + 2] != '.' {
        Err((i, LexErrorView::UnknownCharacter('.')))
    } else {
        Ok((TokenView::Ellipsis, i + 3))
    }
}

/// The token that the single character `c` is, if it is one.
pub open spec fn punctuator(c: char) -> Option<TokenView> {
    if c == '!' {
        Some(TokenView::ExclamationMark)
    } else if c == '$' {
        Some(TokenView::Dollar)
    } else if c == '(' {
        Some(TokenView::ParenOpen)
    } else if c == ')' {
        Some(TokenView::ParenClose)
    } else if c == '[' {
        Some(TokenView::BracketOpen)
    } else if c == ']' {
        Some(TokenView::BracketClose)
    } else if c == '{' {
        Some(TokenView::CurlyOpen)
    } else if c == '}' {
        Some(TokenView::CurlyClose)
    } else if c == ':' {
        Some(TokenView::Colon)
    } else if c == '=' {
        Some(TokenView::Equals)
    } else if c == '@' {
        Some(TokenView::At)
    } else if c == '|' {
        Some(TokenView::Pipe)
    } else {
        None
    }
}

/// The token that starts at `i`, and the index just past it; at the end of
/// the text, the token `EndOfFile`. `i` is the index of a character that is
/// not passed over between tokens.
pub open spec fn token_at(src: Seq<char>, i: int) -> Result<(TokenView, int), ScanError> {
    if i >= src.len() {
        Ok((TokenView::EndOfFile, i))
    } else {
        let c = src[i];
        if punctuator(c) is Some {
            Ok((punctuator(c)->Some_0, i + 1))
        } else if c == '.' {
            ellipsis_at(src, i)
        } else if c == '"' {
            string_at(src, i)
        } else if c == '-' || is_digit(c) {
            number_at(src, i)
        } else if is_name_start(c) {
            Ok((TokenView::Name(src.subrange(i, name_end(src, i))), name_end(src, i)))
        } else {
            Err((i, LexErrorView::UnknownCharacter(c)))
        }
    }
}

fn hex4_from(src: &Vec<char>, i: usize) -> (r: Option<u32>)
    requires
        i <= src@.len(),
    ensures
        r == hex4_at(src@, i as int),
        r matches Some(v) ==> v <= 0xFFFF,
{
    let len = src.len();
    if len - i >= 4 && is_hex_digit_char(src[i]) && is_hex_digit_char(src[i + 1])
        && is_hex_digit_char(src[i + 2]) && is_hex_digit_char(src[i + 3]) {
        let a = hex_digit_value(src[i]);
        let b = hex_digit_value(src[i + 1]);
        let c = hex_digit_value(src[i + 2]);
        let d = hex_digit_value(src[i + 3]);
        Some(((a * 16 + b) * 16 + c) * 16 + d)
    } else {
        None
    }
}

fn bad_unicode_escape_from(src: &Vec<char>, i: usize) -> (r: (usize, LexError))
    requires
        i < src@.len(),
    ensures
        r.0 == i,
        r.1.deep_view() == bad_unicode_escape(src@, i as int).1,
{
    let len = src.len();
    let mut n: usize = 0;
    let mut text = String::new();
    text.push('\\');
    text.push('u');
    while n < 4 && n < len - i - 1 && (is_name_start_char(src[i + 1 + n]) && src[i + 1 + n] != '_'
        || is_digit_char(src[i + 1 + n]))
        invariant
            i < src@.len(),
            len == src@.len(),
            n <= 4,
            i + 1 + n <= len,
            alphanumeric_run(src@, i + 1, 4) == n + alphanumeric_run(src@, i + 1 + n, 4 - n),
            text@ == seq!['\\', 'u'] + src@.subrange(i + 1, i + 1 + n),
        decreases 4 - n,
    {
        text.push(src[i + 1 + n]);
        n = n + 1;
        assert(text@ =~= seq!['\\', 'u'] + src@.subrange(i + 1, i + 1 + n));
    }
    (i, LexError::UnknownEscapeSequence(text))
}

fn unicode_escape_from(src: &Vec<char>, i: usize) -> (r: Result<(char, usize), (usize, LexError)>)
    requires
        i < src@.len(),
    ensures
        match (r, unicode_escape_at(src@, i as int)) {
            (Ok((c, j)), Ok((c2, j2))) => c == c2 && j == j2 && i < j <= src@.len(),
            (Err((k, e)), Err((k2, e2))) => k == k2 && e.deep_view() == e2 && i <= k <= src@.len(),
            _ => false,
        },
{
    let len = src.len();
    let mut n: usize = 0;
    while n < 4 && n < len - i - 1 && (is_name_start_char(src[i + 1 + n]) && src[i + 1 + n] != '_'
        || is_digit_char(src[i + 1 + n]))
        invariant
            i < src@.len(),
            len == src@.len(),
            n <= 4,
            i + 1 + n <= len,
            alphanumeric_run(src@, i + 1, 4) == n + alphanumeric_run(src@, i + 1 + n, 4 - n),
        decreases 4 - n,
    {
        n = n + 1;
    }
    if n < 4 && n >= len - i - 1 {
        return Err((len, LexError::UnterminatedString));
    }
    let unit = match hex4_from(src, i + 1) {
        Some(unit) => unit,
        None => { return Err(bad_unicode_escape_from(src, i)); },
    };
    if 0xD800 <= unit && unit <= 0xDBFF {
        if len - i > 6 && src[i + 5] == '\\' && src[i + 6] == 'u' {
            match hex4_from(src, i + 7) {
                Some(low) => {
                    if 0xDC00 <= low && low <= 0xDFFF {
                        match char::from_u32(0x10000 + (unit - 0xD800) * 0x400 + (low - 0xDC00)) {
                            Some(c) => Ok((c, i + 11)),
                            None => Err(bad_unicode_escape_from(src, i)),
                        }
                    } else {
                        Err(bad_unicode_escape_from(src, i))
                    }
                },
                None => Err(bad_unicode_escape_from(src, i)),
            }
        } else {
            Err(bad_unicode_escape_from(src, i))
        }
    } else {
        match char::from_u32(unit) {
            Some(c) => Ok((c, i + 5)),
            None => Err(bad_unicode_escape_from(src, i)),
        }
    }
}

fn escape_from(src: &Vec<char>, i: usize) -> (r: Result<(char, usize), (usize, LexError)>)
    requires
        i <= src@.len(),
    ensures
        match (r, escape_at(src@, i as int)) {
            (Ok((c, j)), Ok((c2, j2))) => c == c2 && j == j2 && i < j <= src@.len(),
            (Err((k, e)), Err((k2, e2))) => k == k2 && e.deep_view() == e2 && i <= k <= src@.len(),
            _ => false,
        },
{
    if i >= src.len() {
        return Err((i, LexError::UnterminatedString));
    }
    let c = src[i];
    if c == '"' || c == '\\' || c == '/' {
        Ok((c, i + 1))
    } else if c == 'b' {
        Ok(('\u{8}', i + 1))
    } else if c == 'f' {
        Ok(('\u{c}', i + 1))
    } else if c == 'n' {
        Ok(('\n', i + 1))
    } else if c == 'r' {
        Ok(('\r', i + 1))
    } else if c == 't' {
        Ok(('\t', i + 1))
    } else if c == 'u' {
        unicode_escape_from(src, i)
    } else {
        let mut text = String::new();
        text.push('\\');
        text.push(c);
        assert(text@ =~= seq!['\\', c]);
        Err((i, LexError::UnknownEscapeSequence(text)))
    }
}

/// Reads the string literal whose opening quote has index `i`.
fn string_from(src: &Vec<char>, i: usize) -> (r: Result<(Token, usize), (usize, LexError)>)
    requires
        i < src@.len(),
    ensures
        same_token(r, string_at(src@, i as int)),
        token_within(r, i as int, src@.len() as int),
        r matches Ok((t, j)) ==> i < j && !(t is EndOfFile),
{
    let len = src.len();
    let mut text = String::new();
    let mut j: usize = i + 1;
    loop
        invariant
            i < j <= src@.len(),
            len == src@.len(),
            string_body(src@, i + 1, Seq::<char>::empty()) == string_body(src@, j as int, text@),
        decreases src@.len() - j,
    {
        if j >= len {
            return Err((j, LexError::UnterminatedString));
        }
        let c = src[j];
        if c == '"' {
            return Ok((Token::Scalar(Scalar::String(text)), j + 1));
        } else if c == '\\' {
            match escape_from(src, j + 1) {
                Err(e) => { return Err(e); },
                Ok((d, next)) => {
                    text.push(d);
                    j = next;
                },
            }
        } else if c == '\n' || c == '\r' {
            return Err((j, LexError::UnterminatedString));
        } else if c < ' ' && c != '\t' {
            return Err((j, LexError::UnknownCharacterInString(c)));
        } else {
            text.push(c);
            j = j + 1;
        }
    }
}

fn ellipsis_from(src: &Vec<char>, i: usize) -> (r: Result<(Token, usize), (usize, LexError)>)
    requires
        i < src@.len(),
    ensures
        same_token(r, ellipsis_at(src@, i as int)),
        token_within(r, i as int, src@.len() as int),
        r matches Ok((t, j)) ==> i < j && !(t is EndOfFile),
{
    let len = src.len();
    if len - i <= 1 {
        Err((len, LexError::UnexpectedEndOfFile))
    } else if src[i + 1] != '.' {
        Err((i, LexError::UnknownCharacter('.')))
    } else if len - i <= 2 {
        Err((len, LexError::UnexpectedEndOfFile))
    } else if src[i + 2] != '.' {
        Err((i, LexError::UnknownCharacter('.')))
    } else {
        Ok((Token::Ellipsis, i + 3))
    }
}

fn punctuator_of(c: char) -> (r: Option<Token>)
    ensures
        r.deep_view() == punctuator(c),
{
    if c == '!' {
        Some(Token::ExclamationMark)
    } else if c == '$' {
        Some(Token::Dollar)
    } else if c == '(' {
        Some(Token::ParenOpen)
    } else if c == ')' {
        Some(Token::ParenClose)
    } else if c == '[' {
        Some(Token::BracketOpen)
    } else if c == ']' {
        Some(Token::BracketClose)
    } else if c == '{' {
        Some(Token::CurlyOpen)
    } else if c == '}' {
        Some(Token::CurlyClose)
    } else if c == ':' {
        Some(Token::Colon)
    } else if c == '=' {
        Some(Token::Equals)
    } else if c == '@' {
        Some(Token::At)
    } else if c == '|' {
        Some(Token::Pipe)
    } else {
        None
    }
}

/// Reads the token that starts at `i`.
pub(crate) fn token_from(src: &Vec<char>, i: usize) -> (r: Result<(Token, usize), (usize, LexError)>)
    requires
        i <= src@.len(),
    ensures
        same_token(r, token_at(src@, i as int)),
        token_within(r, i as int, src@.len() as int),
        r matches Ok((t, j)) ==> (i < j <==> i < src@.len()) && (t.deep_view() is EndOfFile <==> i
            == src@.len()),
{
    if i >= src.len() {
        return Ok((Token::EndOfFile, i));
    }
    let c = src[i];
    match punctuator_of(c) {
        Some(t) => { return Ok((t, i + 1)); },
        None => {},
    }
    if c == '.' {
        ellipsis_from(src, i)
    } else if c == '"' {
        string_from(src, i)
    } else if c == '-' || is_digit_char(c) {
        number_from(src, i)
    } else if is_name_start_char(c) {
        let end = name_end_from(src, i);
        Ok((Token::Name(text_of(src, i, end)), end))
    } else {
        Err((i, LexError::UnknownCharacter(c)))
    }
}

} // verus!
