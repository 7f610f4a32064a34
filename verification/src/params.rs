//! The build input: which font to bake, into an atlas of which
//! resolution, at which point size.
//!
//! The input is written as
//! `path: "<file>", resolution: <width>*<height>, size: <size>`.
//! The path comes first and is required; the resolution and the size may
//! each be left out, and come in this order. A comma may follow each of
//! the three, and blanks (space, tab, line feed, carriage return) may stand
//! between any two tokens. The path is written between double quotes;
//! inside the quotes `\\` stands for a backslash and `\"` for a double
//! quote, and no other use of the backslash is accepted. Width and height
//! are decimal numbers; the size is a decimal number with a decimal point.

use crate::font::PointSize;
use vstd::prelude::*;

verus! {

/// Why the build input was not accepted.
#[derive(Clone, Copy, Debug, PartialEq, Eq, Structural)]
pub enum ParamsError {
    /// The input is not of the form that is described for this module, or
    /// a number in it is too large.
    Malformed,
}

/// Kinds of bytes of which the input holds runs.
#[derive(Clone, Copy, Debug, PartialEq, Eq, Structural)]
pub enum Class {
    /// Space, tab, line feed, carriage return.
    Blank,
    /// `0` to `9`.
    Digit,
}

/// Whether the byte is of the class.
pub open spec fn in_class(class: Class, byte: u8) -> bool {
    match class {
        Class::Blank => byte == 0x20 || byte == 0x09 || byte == 0x0A || byte == 0x0D,
        Class::Digit => 0x30 <= byte <= 0x39,
    }
}

/// End of the longest run of bytes of the class that starts at `at`.
pub open spec fn run_end(s: Seq<u8>, at: int, class: Class) -> int
    decreases s.len() - at,
{
    if 0 <= at < s.len() && in_class(class, s[at]) {
        run_end(s, at + 1, class)
    } else {
        at
    }
}

/// The number that is `start` with the decimal digits `digits` written
/// behind it.
pub open spec fn append_digits(start: int, digits: Seq<u8>) -> int
    decreases digits.len(),
{
    if digits.len() == 0 {
        start
    } else {
        append_digits(start, digits.drop_last()) * 10 + (digits.last() - 0x30)
    }
}

/// Position behind the byte `symbol`, where it is the next token at `at`.
pub open spec fn spec_symbol(s: Seq<u8>, at: int, symbol: u8) -> Option<int> {
    let p = run_end(s, at, Class::Blank);
    if p < s.len() && s[p] == symbol {
        Some(p + 1)
    } else {
        None
    }
}

/// Position behind the comma at `at`, where there is one, and else `at`.
pub open spec fn spec_comma(s: Seq<u8>, at: int) -> int {
    match spec_symbol(s, at, 0x2C) {
        Some(next) => next,
        None => at,
    }
}

/// Position behind `word`, where the next token at `at` starts with it.
pub open spec fn spec_word(s: Seq<u8>, at: int, word: Seq<u8>) -> Option<int> {
    let p = run_end(s, at, Class::Blank);
    if p + word.len() <= s.len() && s.subrange(p, p + word.len()) == word {
        Some(p + word.len())
    } else {
        None
    }
}

/// What stands between the quotes of a path from `at` on, written behind
/// `read`, and the position behind the closing quote: a backslash and the
/// backslash or double quote behind it stand for that second byte, every
/// other byte up to the closing quote stands for itself. `None` where the
/// closing quote is missing or a backslash is followed by anything else.
pub open spec fn spec_path_bytes(s: Seq<u8>, at: int, read: Seq<u8>) -> Option<(Seq<u8>, int)>
    decreases s.len() - at,
{
    if at < 0 || at >= s.len() {
        None
    } else if s[at] == 0x22 {
        Some((read, at + 1))
    } else if s[at] != 0x5C {
        spec_path_bytes(s, at + 1, read.push(s[at]))
    } else if at + 1 < s.len() && (s[at + 1] == 0x22 || s[at + 1] == 0x5C) {
        spec_path_bytes(s, at + 2, read.push(s[at + 1]))
    } else {
        None
    }
}

/// The path between the quotes and the position behind the closing quote,
/// where the next token at `at` is a quoted path.
pub open spec fn spec_quoted(s: Seq<u8>, at: int) -> Option<(Seq<u8>, int)> {
    let p = run_end(s, at, Class::Blank);
    if p < s.len() && s[p] == 0x22 {
        spec_path_bytes(s, p + 1, Seq::empty())
    } else {
        None
    }
}

/// The number and the position behind it, where the next token at `at`
/// is a decimal number that a `u32` holds.
pub open spec fn spec_number(s: Seq<u8>, at: int) -> Option<(u32, int)> {
    let p = run_end(s, at, Class::Blank);
    let e = run_end(s, p, Class::Digit);
    let value = append_digits(0, s.subrange(p, e));
    if p < e && value <= u32::MAX {
        Some((value as u32, e))
    } else {
        None
    }
}

/// The size and the position behind it, where the next token at `at` is
/// a number with a decimal point: digits, the point, and digits or none.
/// All the digits, read as one number, are the digits of the size; a `u32`
/// must hold them, and there are at most 255 behind the point.
pub open spec fn spec_decimal(s: Seq<u8>, at: int) -> Option<(PointSize, int)> {
    let p = run_end(s, at, Class::Blank);
    let e = run_end(s, p, Class::Digit);
    let f = run_end(s, e + 1, Class::Digit);
    let digits = append_digits(append_digits(0, s.subrange(p, e)), s.subrange(e + 1, f));
    if p < e && e < s.len() && s[e] == 0x2E && digits <= u32::MAX && f - (e + 1) <= u8::MAX {
        Some((PointSize { digits: digits as u32, decimals: (f - (e + 1)) as u8 }, f))
    } else {
        None
    }
}

/// The word `path`.
pub open spec fn word_path() -> Seq<u8> {
    seq![0x70u8, 0x61u8, 0x74u8, 0x68u8]
}

/// The word `resolution`.
pub open spec fn word_resolution() -> Seq<u8> {
    seq![0x72u8, 0x65u8, 0x73u8, 0x6Fu8, 0x6Cu8, 0x75u8, 0x74u8, 0x69u8, 0x6Fu8, 0x6Eu8]
}

/// The word `size`.
pub open spec fn word_size() -> Seq<u8> {
    seq![0x73u8, 0x69u8, 0x7Au8, 0x65u8]
}

/// The resolution of an atlas, in pixels.
#[derive(Clone, Copy, Debug, PartialEq, Eq, Structural)]
pub struct Resolution {
    pub width: u32,
    pub height: u32,
}

/// The point size at which the glyphs are rasterized.
#[derive(Clone, Copy, Debug, PartialEq, Eq, Structural)]
pub struct Size {
    pub size: PointSize,
}

/// What the build input asks for.
#[derive(Clone, Debug, PartialEq, Eq)]
pub struct Params {
    /// Path of the font file, as the bytes between the quotes.
    pub path: Vec<u8>,
    /// Resolution of the atlas, where the input names one.
    pub resolution: Option<Resolution>,
    /// Point size, where the input names one.
    pub size: Option<Size>,
}

/// What follows the word `resolution`: a colon, the width, a star, the
/// height, and a comma or none.
pub open spec fn spec_resolution(s: Seq<u8>, at: int) -> Option<(Resolution, int)> {
    match spec_symbol(s, at, 0x3A) {
        None => None,
        Some(a) => match spec_number(s, a) {
            None => None,
            Some((width, b)) => match spec_symbol(s, b, 0x2A) {
                None => None,
                Some(c) => match spec_number(s, c) {
                    None => None,
                    Some((height, d)) => Some((Resolution { width, height }, spec_comma(s, d))),
                },
            },
        },
    }
}

/// What follows the word `size`: a colon, the size, and a comma or none.
pub open spec fn spec_size(s: Seq<u8>, at: int) -> Option<(Size, int)> {
    match spec_symbol(s, at, 0x3A) {
        None => None,
        Some(a) => match spec_decimal(s, a) {
            None => None,
            Some((size, b)) => Some((Size { size }, spec_comma(s, b))),
        },
    }
}

/// The resolution that the input names at `at` and the position behind
/// it; no resolution and `at` where the word `resolution` does not follow;
/// `None` where the word is there and what follows it is malformed.
pub open spec fn spec_resolution_part(s: Seq<u8>, at: int) -> Option<(Option<Resolution>, int)> {
    match spec_word(s, at, word_resolution()) {
        None => Some((None, at)),
        Some(a) => match spec_resolution(s, a) {
            None => None,
            Some((resolution, next)) => Some((Some(resolution), next)),
        },
    }
}

/// The size that the input names at `at` and the position behind it; no
/// size and `at` where the word `size` does not follow; `None` where the
/// word is there and what follows it is malformed.
pub open spec fn spec_size_part(s: Seq<u8>, at: int) -> Option<(Option<Size>, int)> {
    match spec_word(s, at, word_size()) {
        None => Some((None, at)),
        Some(a) => match spec_size(s, a) {
            None => None,
            Some((size, next)) => Some((Some(size), next)),
        },
    }
}

/// The path that the input names and the position behind it and its
/// comma.
pub open spec fn spec_path_part(s: Seq<u8>) -> Option<(Seq<u8>, int)> {
    match spec_word(s, 0, word_path()) {
        None => None,
        Some(a) => match spec_symbol(s, a, 0x3A) {
            None => None,
            Some(b) => match spec_quoted(s, b) {
                None => None,
                Some((path, c)) => Some((path, spec_comma(s, c))),
            },
        },
    }
}

/// What the whole input asks for, as path, resolution and size, or `None`
/// where it is malformed.
pub open spec fn spec_params(s: Seq<u8>) -> Option<(Seq<u8>, Option<Resolution>, Option<Size>)> {
    match spec_path_part(s) {
        None => None,
        Some((path, a)) => match spec_resolution_part(s, a) {
            None => None,
            Some((resolution, b)) => match spec_size_part(s, b) {
                None => None,
                Some((size, c)) => if run_end(s, c, Class::Blank) == s.len() {
                    Some((path, resolution, size))
                } else {
                    None
                },
            },
        },
    }
}

/// More digits do not make the number smaller.
proof fn lemma_append_digits_grows(start: int, digits: Seq<u8>, n: int)
    requires
        0 <= start,
        0 <= n <= digits.len(),
        forall|i: int| 0 <= i < digits.len() ==> in_class(Class::Digit, #[trigger] digits[i]),
    ensures
        start <= append_digits(start, digits.take(n)) <= append_digits(start, digits),
    decreases digits.len() - n,
{
    lemma_append_digits_positive(start, digits.take(n));
    if n == digits.len() {
        assert(digits.take(n) =~= digits);
    } else {
        assert(digits.take(n + 1).drop_last() =~= digits.take(n));
        lemma_append_digits_grows(start, digits, n + 1);
    }
}

/// Digits written behind a number do not make it smaller.
proof fn lemma_append_digits_positive(start: int, digits: Seq<u8>)
    requires
        0 <= start,
        forall|i: int| 0 <= i < digits.len() ==> in_class(Class::Digit, #[trigger] digits[i]),
    ensures
        start <= append_digits(start, digits),
    decreases digits.len(),
{
    if digits.len() > 0 {
        assert(forall|i: int|
            0 <= i < digits.drop_last().len() ==> digits.drop_last()[i] == digits[i]);
        lemma_append_digits_positive(start, digits.drop_last());
    }
}

/// Every byte of a run is of the class of the run.
proof fn lemma_run_in_class(s: Seq<u8>, at: int, class: Class)
    requires
        0 <= at <= s.len(),
    ensures
        forall|i: int| at <= i < run_end(s, at, class) ==> in_class(class, #[trigger] s[i]),
    decreases s.len() - at,
{
    if at < s.len() && in_class(class, s[at]) {
        lemma_run_in_class(s, at + 1, class);
    }
}

/// Whether the byte is of the class.
fn is_in_class(class: Class, byte: u8) -> (yes: bool)
    ensures
        yes == in_class(class, byte),
{
    match class {
        Class::Blank => byte == 0x20 || byte == 0x09 || byte == 0x0A || byte == 0x0D,
        Class::Digit => 0x30 <= byte && byte <= 0x39,
    }
}

/// End of the longest run of bytes of the class that starts at `at`.
fn scan(input: &[u8], at: usize, class: Class) -> (end: usize)
    requires
        at <= input@.len(),
    ensures
        end == run_end(input@, at as int, class),
        at <= end <= input@.len(),
{
    let mut i: usize = at;
    while i < input.len() && is_in_class(class, input[i])
        invariant
            at <= i <= input@.len(),
            run_end(input@, at as int, class) == run_end(input@, i as int, class),
        decreases input@.len() - i,
    {
        i += 1;
    }
    i
}

/// Position behind the byte `symbol`, where it is the next token.
fn expect_symbol(input: &[u8], at: usize, symbol: u8) -> (next: Option<usize>)
    requires
        at <= input@.len(),
    ensures
        match next {
            Some(n) => spec_symbol(input@, at as int, symbol) == Some(n as int) && n
                <= input@.len(),
            None => spec_symbol(input@, at as int, symbol) is None,
        },
{
    let p: usize = scan(input, at, Class::Blank);
    if p < input.len() && input[p] == symbol {
        Some(p + 1)
    } else {
        None
    }
}

/// Position behind the comma at `at`, where there is one, and else `at`.
fn skip_comma(input: &[u8], at: usize) -> (next: usize)
    requires
        at <= input@.len(),
    ensures
        next == spec_comma(input@, at as int),
        next <= input@.len(),
{
    match expect_symbol(input, at, 0x2C) {
        Some(next) => next,
        None => at,
    }
}

/// Position behind `word`, where the next token starts with it.
fn expect_word<const N: usize>(input: &[u8], at: usize, word: &[u8; N]) -> (next: Option<usize>)
    requires
        at <= input@.len(),
    ensures
        match next {
            Some(n) => spec_word(input@, at as int, word@) == Some(n as int) && n <= input@.len(),
            None => spec_word(input@, at as int, word@) is None,
        },
{
    let p: usize = scan(input, at, Class::Blank);
    if N > input.len() - p {
        return None;
    }
    let mut k: usize = 0;
    while k < N
        invariant
            k <= N,
            p == run_end(input@, at as int, Class::Blank),
            p + N <= input@.len() <= usize::MAX,
            word@.len() == N,
            forall|j: int| 0 <= j < k ==> input@[p + j] == word@[j],
        decreases N - k,
    {
        if input[p + k] != word[k] {
            proof {
                assert(input@.subrange(p as int, p + N)[k as int] != word@[k as int]);
            }
            return None;
        }
        k += 1;
    }
    proof {
        assert(input@.subrange(p as int, p + N) =~= word@);
    }
    Some(p + N)
}

/// The path between the quotes and the position behind the closing quote,
/// where the next token is a quoted path.
fn parse_quoted(input: &[u8], at: usize) -> (found: Option<(Vec<u8>, usize)>)
    requires
        at <= input@.len(),
    ensures
        match found {
            Some((path, n)) => spec_quoted(input@, at as int) == Some((path@, n as int)) && n
                <= input@.len(),
            None => spec_quoted(input@, at as int) is None,
        },
{
    let p: usize = scan(input, at, Class::Blank);
    if p >= input.len() || input[p] != 0x22 {
        return None;
    }
    let mut path: Vec<u8> = Vec::new();
    let mut i: usize = p + 1;
    while i < input.len()
        invariant
            p < i <= input@.len(),
            p == run_end(input@, at as int, Class::Blank),
            input@[p as int] == 0x22,
            spec_path_bytes(input@, p + 1, Seq::empty()) == spec_path_bytes(input@, i as int, path@),
        decreases input@.len() - i,
    {
        let byte: u8 = input[i];
        if byte == 0x22 {
            return Some((path, i + 1));
        }
        if byte != 0x5C {
            path.push(byte);
            i += 1;
        } else if i + 1 < input.len() && (input[i + 1] == 0x22 || input[i + 1] == 0x5C) {
            path.push(input[i + 1]);
            i += 2;
        } else {
            return None;
        }
    }
    None
}

/// The number that is `start` with the digits from `from` up to `to`
/// written behind it, where a `u32` holds it.
fn append(input: &[u8], from: usize, to: usize, start: u32) -> (value: Option<u32>)
    requires
        from <= to <= input@.len(),
        forall|i: int| from <= i < to ==> in_class(Class::Digit, #[trigger] input@[i]),
    ensures
        match value {
            Some(v) => v == append_digits(start as int, input@.subrange(from as int, to as int)),
            None => append_digits(start as int, input@.subrange(from as int, to as int))
                > u32::MAX,
        },
{
    let ghost digits = input@.subrange(from as int, to as int);
    let mut value: u64 = start as u64;
    let mut i: usize = from;
    while i < to
        invariant
            from <= i <= to <= input@.len(),
            digits == input@.subrange(from as int, to as int),
            forall|k: int| 0 <= k < digits.len() ==> in_class(Class::Digit, #[trigger] digits[k]),
            value <= u32::MAX,
            value == append_digits(start as int, digits.take(i - from)),
        decreases to - i,
    {
        proof {
            assert(digits.take(i - from + 1).drop_last() =~= digits.take(i - from));
            assert(digits[i - from] == input@[i as int]);
            assert(in_class(Class::Digit, digits[i - from]));
        }
        value = value * 10 + (input[i] - 0x30) as u64;
        if value > u32::MAX as u64 {
            proof {
                lemma_append_digits_grows(start as int, digits, i - from + 1);
            }
            return None;
        }
        i += 1;
    }
    proof {
        assert(digits.take(to - from) =~= digits);
    }
    Some(value as u32)
}

/// The number and the position behind it, where the next token is a
/// decimal number that a `u32` holds.
fn parse_number(input: &[u8], at: usize) -> (found: Option<(u32, usize)>)
    requires
        at <= input@.len(),
    ensures
        match found {
            Some((value, n)) => spec_number(input@, at as int) == Some((value, n as int)) && n
                <= input@.len(),
            None => spec_number(input@, at as int) is None,
        },
{
    let p: usize = scan(input, at, Class::Blank);
    let e: usize = scan(input, p, Class::Digit);
    if e == p {
        return None;
    }
    proof {
        lemma_run_in_class(input@, p as int, Class::Digit);
    }
    match append(input, p, e, 0) {
        Some(value) => Some((value, e)),
        None => None,
    }
}

/// The size and the position behind it, where the next token is a number
/// with a decimal point.
fn parse_decimal(input: &[u8], at: usize) -> (found: Option<(PointSize, usize)>)
    requires
        at <= input@.len(),
    ensures
        match found {
            Some((size, n)) => spec_decimal(input@, at as int) == Some((size, n as int)) && n
                <= input@.len(),
            None => spec_decimal(input@, at as int) is None,
        },
{
    let p: usize = scan(input, at, Class::Blank);
    let e: usize = scan(input, p, Class::Digit);
    if e == p || e >= input.len() || input[e] != 0x2E {
        return None;
    }
    let f: usize = scan(input, e + 1, Class::Digit);
    proof {
        lemma_run_in_class(input@, p as int, Class::Digit);
        lemma_run_in_class(input@, e + 1, Class::Digit);
        lemma_append_digits_positive(0, input@.subrange(p as int, e as int));
        lemma_append_digits_positive(
            append_digits(0, input@.subrange(p as int, e as int)),
            input@.subrange(e + 1, f as int),
        );
    }
    if f - (e + 1) > 255 {
        return None;
    }
    let whole: u32 = match append(input, p, e, 0) {
        Some(whole) => whole,
        None => {
            return None;
        },
    };
    match append(input, e + 1, f, whole) {
        Some(digits) => Some((PointSize { digits, decimals: (f - (e + 1)) as u8 }, f)),
        None => None,
    }
}

impl Resolution {
    /// Reads what follows the word `resolution`, from `at` on: a colon,
    /// the width, a star, the height, and a comma or none. Returns the
    /// resolution and the position behind what was read.
    pub fn parse(input: &[u8], at: usize) -> (found: Option<(Resolution, usize)>)
        requires
            at <= input@.len(),
        ensures
            match found {
                Some((resolution, n)) => spec_resolution(input@, at as int) == Some(
                    (resolution, n as int),
                ) && n <= input@.len(),
                None => spec_resolution(input@, at as int) is None,
            },
    {
        let a: usize = match expect_symbol(input, at, 0x3A) {
            Some(a) => a,
            None => {
                return None;
            },
        };
        let (width, b) = match parse_number(input, a) {
            Some(found) => found,
            None => {
                return None;
            },
        };
        let c: usize = match expect_symbol(input, b, 0x2A) {
            Some(c) => c,
            None => {
                return None;
            },
        };
        let (height, d) = match parse_number(input, c) {
            Some(found) => found,
            None => {
                return None;
            },
        };
        Some((Resolution { width, height }, skip_comma(input, d)))
    }
}

impl Size {
    /// Reads what follows the word `size`, from `at` on: a colon, the
    /// size, and a comma or none. Returns the size and the position behind
    /// what was read.
    pub fn parse(input: &[u8], at: usize) -> (found: Option<(Size, usize)>)
        requires
            at <= input@.len(),
        ensures
            match found {
                Some((size, n)) => spec_size(input@, at as int) == Some((size, n as int)) && n
                    <= input@.len(),
                None => spec_size(input@, at as int) is None,
            },
    {
        let a: usize = match expect_symbol(input, at, 0x3A) {
            Some(a) => a,
            None => {
                return None;
            },
        };
        match parse_decimal(input, a) {
            Some((size, b)) => Some((Size { size }, skip_comma(input, b))),
            None => None,
        }
    }
}

impl Params {
    /// Reads the build input.
    pub fn parse(input: &[u8]) -> (result: Result<Params, ParamsError>)
        ensures
            match result {
                Ok(params) => spec_params(input@) == Some(
                    (params.path@, params.resolution, params.size),
                ),
                Err(e) => e == ParamsError::Malformed && spec_params(input@) is None,
            },
    {
        let path_word: [u8; 4] = [0x70, 0x61, 0x74, 0x68];
        let resolution_word: [u8; 10] = [0x72, 0x65, 0x73, 0x6F, 0x6C, 0x75, 0x74, 0x69, 0x6F, 0x6E];
        let size_word: [u8; 4] = [0x73, 0x69, 0x7A, 0x65];
        proof {
            assert(path_word@ =~= word_path());
            assert(resolution_word@ =~= word_resolution());
            assert(size_word@ =~= word_size());
        }
        let a: usize = match expect_word(input, 0, &path_word) {
            Some(a) => a,
            None => {
                return Err(ParamsError::Malformed);
            },
        };
        let b: usize = match expect_symbol(input, a, 0x3A) {
            Some(b) => b,
            None => {
                return Err(ParamsError::Malformed);
            },
        };
        let (path, c) = match parse_quoted(input, b) {
            Some(found) => found,
            None => {
                return Err(ParamsError::Malformed);
            },
        };
        let c: usize = skip_comma(input, c);
        let (resolution, d) = match expect_word(input, c, &resolution_word) {
            Some(r) => match Resolution::parse(input, r) {
                Some((resolution, d)) => (Some(resolution), d),
                None => {
                    return Err(ParamsError::Malformed);
                },
            },
            None => (None, c),
        };
        let (size, e) = match expect_word(input, d, &size_word) {
            Some(z) => match Size::parse(input, z) {
                Some((size, e)) => (Some(size), e),
                None => {
                    return Err(ParamsError::Malformed);
                },
            },
            None => (None, d),
        };
        if scan(input, e, Class::Blank) != input.len() {
            return Err(ParamsError::Malformed);
        }
        Ok(Params { path, resolution, size })
    }

    /// The resolution that is asked for: 256 by 256 pixels where the
    /// input names none.
    pub fn resolution_or_default(&self) -> (resolution: Resolution)
        ensures
            resolution == match self.resolution {
                Some(named) => named,
                None => Resolution { width: 256, height: 256 },
            },
    {
        match self.resolution {
            Some(named) => named,
            None => Resolution { width: 256, height: 256 },
        }
    }

    /// The point size that is asked for: 50.0 where the input names none.
    pub fn size_or_default(&self) -> (size: PointSize)
        ensures
            size == match self.size {
                Some(named) => named.size,
                None => PointSize { digits: 500, decimals: 1 },
            },
    {
        match self.size {
            Some(named) => named.size,
            None => PointSize { digits: 500, decimals: 1 },
        }
    }
}

} // verus!
