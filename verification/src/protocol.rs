//! The text of the turn protocol: header lines that give a size, and the
//! rows of a board or a piece as they arrive.

use vstd::prelude::*;
use vstd::string::StringSliceAdditionalSpecFns;
use vstd::utf8::{
    decode_utf8, encode_utf8, encode_utf8_decode_utf8, encode_utf8_valid_utf8, is_ascii_chars,
    is_ascii_chars_encode_utf8, is_char_boundary, is_char_boundary_iff_not_is_continuation_byte,
};

verus! {

/// Whether `c` is white space: a character with the Unicode property
/// `White_Space`.
pub open spec fn is_space(c: char) -> bool {
    let code = c as u32;
    ||| 0x09 <= code <= 0x0d
    ||| code == 0x20
    ||| code == 0x85
    ||| code == 0xa0
    ||| code == 0x1680
    ||| 0x2000 <= code <= 0x200a
    ||| code == 0x2028
    ||| code == 0x2029
    ||| code == 0x202f
    ||| code == 0x205f
    ||| code == 0x3000
}

/// The first index at or after `from` that holds no white space, or the
/// length of `text` if there is none.
pub open spec fn skip_spaces(text: Seq<char>, from: int) -> int
    decreases text.len() - from,
{
    if 0 <= from < text.len() && is_space(text[from]) {
        skip_spaces(text, from + 1)
    } else {
        from
    }
}

/// The first index at or after `from` that holds white space, or the length
/// of `text` if there is none.
pub open spec fn skip_word(text: Seq<char>, from: int) -> int
    decreases text.len() - from,
{
    if 0 <= from < text.len() && !is_space(text[from]) {
        skip_word(text, from + 1)
    } else {
        from
    }
}

/// Where the word number `n` of `text` starts and where it ends, counting
/// from 0: words are the longest runs without white space. A word that
/// starts at the length of `text` is missing.
pub open spec fn word(text: Seq<char>, n: nat) -> (int, int)
    decreases n,
{
    let from = if n == 0 {
        0
    } else {
        word(text, (n - 1) as nat).1
    };
    let start = skip_spaces(text, from);
    (start, skip_word(text, start))
}

/// `token` without the colons at its end.
pub open spec fn trim_colons(token: Seq<char>) -> Seq<char>
    decreases token.len(),
{
    if token.len() > 0 && token.last() == ':' {
        trim_colons(token.drop_last())
    } else {
        token
    }
}

/// Whether `c` is one of the digits `0` to `9`.
pub open spec fn is_digit(c: char) -> bool {
    0x30 <= c as u32 <= 0x39
}

/// The number that a run of digits writes in base ten.
pub open spec fn decimal(digits: Seq<char>) -> int
    decreases digits.len(),
{
    if digits.len() == 0 {
        0
    } else {
        10 * decimal(digits.drop_last()) + (digits.last() as u32 - 0x30)
    }
}

/// The number that a run of digits writes, if there is at least one digit,
/// nothing but digits, and the number fits a machine word.
pub open spec fn number(digits: Seq<char>) -> Option<usize> {
    if digits.len() > 0 && (forall|i: int| 0 <= i < digits.len() ==> is_digit(#[trigger] digits[i]))
        && decimal(digits) <= usize::MAX {
        Some(decimal(digits) as usize)
    } else {
        None
    }
}

/// The number that `token` writes: digits after at most one `+`. `None` for
/// any other token.
pub open spec fn unsigned(token: Seq<char>) -> Option<usize> {
    if token.len() > 0 && token[0] == '+' {
        number(token.drop_first())
    } else {
        number(token)
    }
}

/// The width and the height that a header line gives as its second and
/// third word, the height with any colons after it; or what is wrong with
/// the line, in words.
pub open spec fn size_in(line: Seq<char>) -> Result<(usize, usize), Seq<char>> {
    let second = word(line, 1);
    let third = word(line, 2);
    if third.0 >= line.len() {
        Err("Invalid input format, expected at least 3 parts"@)
    } else {
        match unsigned(line.subrange(second.0, second.1)) {
            None => Err("Failed to parse width"@),
            Some(width) => match unsigned(trim_colons(line.subrange(third.0, third.1))) {
                None => Err("Failed to parse height"@),
                Some(height) => Ok((width, height)),
            },
        }
    }
}

/// The size that a header line gives if it starts with `keyword`; `fault` if
/// it does not.
pub open spec fn headed_size(line: Seq<char>, keyword: Seq<char>, fault: Seq<char>) -> Result<
    (usize, usize),
    Seq<char>,
> {
    if keyword.is_prefix_of(line) {
        size_in(line)
    } else {
        Err(fault)
    }
}

/// Whether a line can lose its first `skip` bytes and its last byte:
/// it is longer than `skip` bytes, and a character starts at both cuts.
pub open spec fn can_cut(line: Seq<char>, skip: int) -> bool {
    let bytes = encode_utf8(line);
    &&& 0 <= skip < bytes.len()
    &&& is_char_boundary(bytes, skip)
    &&& is_char_boundary(bytes, bytes.len() - 1)
}

/// The characters of a line between its first `skip` bytes and its last
/// byte.
pub open spec fn cut(line: Seq<char>, skip: int) -> Seq<char> {
    let bytes = encode_utf8(line);
    decode_utf8(bytes.subrange(skip, bytes.len() - 1))
}

/// Whether an outcome is the one that the model gives.
pub open spec fn agrees(
    outcome: Result<(usize, usize), String>,
    model: Result<(usize, usize), Seq<char>>,
) -> bool {
    match outcome {
        Ok(size) => model == Ok::<(usize, usize), Seq<char>>(size),
        Err(fault) => model == Err::<(usize, usize), Seq<char>>(fault@),
    }
}

/// Reads the width and the height from a header line such as
/// `Anfield 20 15:`.
pub fn parse_size_input(input: &str) -> (outcome: Result<(usize, usize), String>)
    ensures
        agrees(outcome, size_in(input@)),
{
    let line = chars_of(input);
    size_of(&line)
}

/// Reads the size of the board from its header line.
pub fn grid_size(header: &str) -> (outcome: Result<(usize, usize), String>)
    ensures
        agrees(outcome, headed_size(header@, "Anfield"@, "Invalid grid input format"@)),
{
    let line = chars_of(header);
    if !starts_with(&line, "Anfield") {
        return Err("Invalid grid input format".to_owned());
    }
    size_of(&line)
}

/// Reads the size of the piece from its header line.
pub fn piece_size(header: &str) -> (outcome: Result<(usize, usize), String>)
    ensures
        agrees(outcome, headed_size(header@, "Piece"@, "Invalid piece input format"@)),
{
    let line = chars_of(header);
    if !starts_with(&line, "Piece") {
        return Err("Invalid piece input format".to_owned());
    }
    size_of(&line)
}

/// Takes a row of the board out of its line: the line without the four
/// bytes that number the row and without the line break at its end.
pub fn grid_row(line: &str) -> (row: Vec<char>)
    requires
        can_cut(line@, 4),
    ensures
        row@ == cut(line@, 4),
{
    cut_line(line, 4)
}

/// Takes a row of the piece out of its line: the line without the line
/// break at its end.
pub fn piece_row(line: &str) -> (row: Vec<char>)
    requires
        can_cut(line@, 0),
    ensures
        row@ == cut(line@, 0),
{
    cut_line(line, 0)
}

fn cut_line(line: &str, skip: usize) -> (row: Vec<char>)
    requires
        can_cut(line@, skip as int),
    ensures
        row@ == cut(line@, skip as int),
{
    let ghost bytes = line.spec_bytes();
    proof {
        encode_utf8_valid_utf8(line@);
    }
    let (_, rest) = line.split_at(skip);
    proof {
        encode_utf8_valid_utf8(rest@);
        if rest.spec_bytes().len() > 1 {
            is_char_boundary_iff_not_is_continuation_byte(bytes, bytes.len() - 1);
            is_char_boundary_iff_not_is_continuation_byte(
                rest.spec_bytes(),
                rest.spec_bytes().len() - 1,
            );
        }
    }
    let (body, _) = rest.split_at(rest.as_bytes().len() - 1);
    proof {
        assert(body.spec_bytes() =~= bytes.subrange(skip as int, bytes.len() - 1));
        encode_utf8_decode_utf8(body@);
    }
    chars_of(body)
}

fn size_of(line: &Vec<char>) -> (outcome: Result<(usize, usize), String>)
    ensures
        agrees(outcome, size_in(line@)),
{
    let first = next_word(line, 0);
    let second = next_word(line, first.1);
    let third = next_word(line, second.1);
    proof {
        reveal_with_fuel(word, 3);
        assert(word(line@, 0) == (first.0 as int, first.1 as int));
        assert(word(line@, 1) == (second.0 as int, second.1 as int));
        assert(word(line@, 2) == (third.0 as int, third.1 as int));
    }
    if third.0 >= line.len() {
        return Err("Invalid input format, expected at least 3 parts".to_owned());
    }
    let width = match parse_unsigned(line, second.0, second.1) {
        Some(width) => width,
        None => {
            return Err("Failed to parse width".to_owned());
        },
    };
    let end = before_colons(line, third.0, third.1);
    let height = match parse_unsigned(line, third.0, end) {
        Some(height) => height,
        None => {
            return Err("Failed to parse height".to_owned());
        },
    };
    Ok((width, height))
}

fn starts_with(text: &Vec<char>, prefix: &str) -> (yes: bool)
    ensures
        yes == prefix@.is_prefix_of(text@),
{
    let wanted = chars_of(prefix);
    if wanted.len() > text.len() {
        return false;
    }
    for i in 0..wanted.len()
        invariant
            wanted@ == prefix@,
            wanted.len() <= text.len(),
            forall|j: int| 0 <= j < i ==> wanted@[j] == text@[j],
    {
        if wanted[i] != text[i] {
            assert(wanted@[i as int] != text@.subrange(0, wanted.len() as int)[i as int]);
            return false;
        }
    }
    assert(wanted@ =~= text@.subrange(0, wanted.len() as int));
    true
}

fn next_word(text: &Vec<char>, from: usize) -> (bounds: (usize, usize))
    requires
        from <= text.len(),
    ensures
        bounds.0 == skip_spaces(text@, from as int),
        bounds.1 == skip_word(text@, bounds.0 as int),
        from <= bounds.0 <= bounds.1 <= text.len(),
{
    let mut start = from;
    while start < text.len() && space(text[start])
        invariant
            from <= start <= text.len(),
            skip_spaces(text@, from as int) == skip_spaces(text@, start as int),
        decreases text.len() - start,
    {
        start += 1;
    }
    let mut end = start;
    while end < text.len() && !space(text[end])
        invariant
            start <= end <= text.len(),
            skip_word(text@, start as int) == skip_word(text@, end as int),
        decreases text.len() - end,
    {
        end += 1;
    }
    (start, end)
}

fn before_colons(text: &Vec<char>, from: usize, to: usize) -> (end: usize)
    requires
        from <= to <= text.len(),
    ensures
        from <= end <= to,
        text@.subrange(from as int, end as int) == trim_colons(text@.subrange(from as int, to as int)),
{
    let mut end = to;
    while end > from && text[end - 1] == ':'
        invariant
            from <= end <= to <= text.len(),
            trim_colons(text@.subrange(from as int, end as int)) == trim_colons(
                text@.subrange(from as int, to as int),
            ),
        decreases end,
    {
        assert(text@.subrange(from as int, end as int).drop_last() =~= text@.subrange(
            from as int,
            end - 1,
        ));
        end -= 1;
    }
    end
}

fn parse_unsigned(text: &Vec<char>, from: usize, to: usize) -> (number: Option<usize>)
    requires
        from <= to <= text.len(),
    ensures
        number == unsigned(text@.subrange(from as int, to as int)),
{
    let start = if from < to && text[from] == '+' {
        from + 1
    } else {
        from
    };
    let ghost digits = text@.subrange(start as int, to as int);
    proof {
        let token = text@.subrange(from as int, to as int);
        if start > from {
            assert(digits =~= token.drop_first());
        }
        assert(unsigned(token) == number(digits));
    }
    if start == to {
        return None;
    }
    let mut value: usize = 0;
    for i in start..to
        invariant
            from <= start < to <= text.len(),
            digits == text@.subrange(start as int, to as int),
            unsigned(text@.subrange(from as int, to as int)) == number(digits),
            forall|j: int| 0 <= j < i - start ==> is_digit(#[trigger] digits[j]),
            value == decimal(digits.take(i - start)),
    {
        let code = text[i] as u32;
        if code < 0x30 || code > 0x39 {
            assert(!is_digit(digits[i - start]));
            return None;
        }
        let ghost seen = digits.take(i - start + 1);
        assert(seen.drop_last() =~= digits.take(i - start));
        assert(seen.last() == text@[i as int]);
        let next = match value.checked_mul(10) {
            Some(tens) => tens.checked_add((code - 0x30) as usize),
            None => None,
        };
        match next {
            Some(next) => {
                value = next;
            },
            None => {
                proof {
                    if forall|j: int| 0 <= j < digits.len() ==> is_digit(#[trigger] digits[j]) {
                        lemma_decimal_grows(digits, i - start + 1);
                    }
                }
                return None;
            },
        }
    }
    assert(digits.take(to - start) =~= digits);
    Some(value)
}

/// In a line of ASCII characters each character is one byte: the line can
/// be cut wherever it is longer than `skip` characters, and what is left is
/// the line without its first `skip` characters and its last one.
pub proof fn lemma_cut_of_ascii(line: Seq<char>, skip: int)
    requires
        is_ascii_chars(line),
        0 <= skip < line.len(),
    ensures
        can_cut(line, skip),
        cut(line, skip) == line.subrange(skip, line.len() - 1),
{
    let bytes = encode_utf8(line);
    let body = line.subrange(skip, line.len() - 1);
    is_ascii_chars_encode_utf8(line);
    encode_utf8_valid_utf8(line);
    if skip > 0 {
        is_char_boundary_iff_not_is_continuation_byte(bytes, skip);
    }
    if line.len() > 1 {
        is_char_boundary_iff_not_is_continuation_byte(bytes, line.len() - 1);
    }
    is_ascii_chars_encode_utf8(body);
    assert(encode_utf8(body) =~= bytes.subrange(skip, bytes.len() - 1));
    encode_utf8_decode_utf8(body);
}

/// A run of digits writes no less than any of its beginnings does.
proof fn lemma_decimal_grows(digits: Seq<char>, n: int)
    requires
        0 <= n <= digits.len(),
        forall|j: int| 0 <= j < digits.len() ==> is_digit(#[trigger] digits[j]),
    ensures
        0 <= decimal(digits.take(n)) <= decimal(digits),
    decreases digits.len(),
{
    if n == digits.len() {
        assert(digits.take(n) =~= digits);
        if n > 0 {
            lemma_decimal_grows(digits.drop_last(), n - 1);
        }
    } else {
        assert(digits.drop_last().take(n) =~= digits.take(n));
        lemma_decimal_grows(digits.drop_last(), n);
    }
}

fn space(c: char) -> (yes: bool)
    ensures
        yes == is_space(c),
{
    let code = c as u32;
    (0x09 <= code && code <= 0x0d) || code == 0x20 || code == 0x85 || code == 0xa0 || code
        == 0x1680 || (0x2000 <= code && code <= 0x200a) || code == 0x2028 || code == 0x2029
        || code == 0x202f || code == 0x205f || code == 0x3000
}

fn chars_of(text: &str) -> (chars: Vec<char>)
    ensures
        chars@ == text@,
{
    let mut chars: Vec<char> = Vec::new();
    for c in it: text.chars()
        invariant
            chars@ == it.seq().take(it.index() as int),
            it.seq() == text@,
    {
        chars.push(c);
    }
    chars
}

} // verus!
