//! The character sets that passwords are drawn from and checked against.

use vstd::prelude::*;

verus! {

/// Shortest password length that the command line accepts.
pub const MIN_PASSWORD_LENGTH: u16 = 6;

/// Longest password length that the command line accepts: 43 base64 glyphs
/// carry 258 bits, enough for a 256-bit password.
pub const MAX_PASSWORD_LENGTH: u16 = 43;

pub open spec fn is_ascii_uppercase(c: char) -> bool {
    'A' <= c <= 'Z'
}

pub open spec fn is_ascii_lowercase(c: char) -> bool {
    'a' <= c <= 'z'
}

pub open spec fn is_ascii_digit(c: char) -> bool {
    '0' <= c <= '9'
}

/// A glyph of the standard base64 alphabet (RFC 4648, section 4).
pub open spec fn is_base64_glyph(c: char) -> bool {
    is_ascii_uppercase(c) || is_ascii_lowercase(c) || is_ascii_digit(c) || c == '+' || c == '/'
}

/// The glyph of the standard base64 alphabet for a six-bit value.
pub open spec fn base64_symbol(v: int) -> char {
    if v < 26 {
        (65 + v) as char
    } else if v < 52 {
        (97 + (v - 26)) as char
    } else if v < 62 {
        (48 + (v - 52)) as char
    } else if v == 62 {
        '+'
    } else {
        '/'
    }
}

pub proof fn lemma_base64_symbol_is_glyph(v: int)
    requires
        0 <= v < 64,
    ensures
        is_base64_glyph(base64_symbol(v)),
{
}

/// Distinct six-bit values have distinct glyphs.
pub proof fn lemma_base64_symbol_injective(v: int, w: int)
    requires
        0 <= v < 64,
        0 <= w < 64,
        base64_symbol(v) == base64_symbol(w),
    ensures
        v == w,
{
    assert(base64_symbol(v) as int == base64_symbol(w) as int);
}

pub fn is_ascii_uppercase_char(c: char) -> (r: bool)
    ensures
        r == is_ascii_uppercase(c),
{
    'A' <= c && c <= 'Z'
}

pub fn is_ascii_digit_char(c: char) -> (r: bool)
    ensures
        r == is_ascii_digit(c),
{
    '0' <= c && c <= '9'
}

/// Distinct characters have distinct code points.
pub proof fn lemma_char_code_injective(c: char, d: char)
    ensures
        (c as u32 == d as u32) <==> c == d,
{
    assert((c as u32) as int == c as int);
    assert((d as u32) as int == d as int);
}

/// The special characters that `--symbols` asks for.
pub open spec fn symbol_chars() -> Seq<char> {
    seq!['!', '"', '#', '$', '%', '&', '\'', '(', ')', '*', '+', ',', '-', '.', '/', ':', ';', '<', '=', '>', '?', '@', '[', '\\', ']', '^', '_', '`', '{', '|', '}', '~']
}

pub fn symbols() -> (v: Vec<char>)
    ensures
        v@ == symbol_chars(),
{
    vec!['!', '"', '#', '$', '%', '&', '\'', '(', ')', '*', '+', ',', '-', '.', '/', ':', ';', '<', '=', '>', '?', '@', '[', '\\', ']', '^', '_', '`', '{', '|', '}', '~']
}

/// The capital letters that `--capitalize` asks for.
pub open spec fn capital_chars() -> Seq<char> {
    seq!['A', 'B', 'C', 'D', 'E', 'F', 'G', 'H', 'I', 'J', 'K', 'L', 'M', 'N', 'O', 'P', 'Q', 'R', 'S', 'T', 'U', 'V', 'W', 'X', 'Y', 'Z']
}

pub fn capitals() -> (v: Vec<char>)
    ensures
        v@ == capital_chars(),
{
    vec!['A', 'B', 'C', 'D', 'E', 'F', 'G', 'H', 'I', 'J', 'K', 'L', 'M', 'N', 'O', 'P', 'Q', 'R', 'S', 'T', 'U', 'V', 'W', 'X', 'Y', 'Z']
}

/// The digits that `--numerals` asks for.
pub open spec fn number_chars() -> Seq<char> {
    seq!['0', '1', '2', '3', '4', '5', '6', '7', '8', '9']
}

pub fn numbers() -> (v: Vec<char>)
    ensures
        v@ == number_chars(),
{
    vec!['0', '1', '2', '3', '4', '5', '6', '7', '8', '9']
}

/// The characters that `--ambiguous` leaves out, being easy to misread.
pub open spec fn ambiguous_chars() -> Seq<char> {
    seq!['B', '8', 'G', '6', 'I', '1', 'l', '0', 'O', 'Q', 'D', 'S', '5', 'Z', '2']
}

pub fn ambiguous() -> (v: Vec<char>)
    ensures
        v@ == ambiguous_chars(),
{
    vec!['B', '8', 'G', '6', 'I', '1', 'l', '0', 'O', 'Q', 'D', 'S', '5', 'Z', '2']
}

/// The vowels that `--no-vowels` leaves out in the HC-128 generator.
pub open spec fn vowels_with_y() -> Seq<char> {
    seq!['a', 'e', 'i', 'o', 'u', 'y', 'A', 'E', 'I', 'O', 'U', 'Y']
}

pub fn vowels_with_y_set() -> (v: Vec<char>)
    ensures
        v@ == vowels_with_y(),
{
    vec!['a', 'e', 'i', 'o', 'u', 'y', 'A', 'E', 'I', 'O', 'U', 'Y']
}

/// The vowels that `--no-vowels` leaves out in the ChaCha20 generator.
pub open spec fn vowel_chars() -> Seq<char> {
    seq!['a', 'e', 'i', 'o', 'u', 'A', 'E', 'I', 'O', 'U']
}

pub fn vowels() -> (v: Vec<char>)
    ensures
        v@ == vowel_chars(),
{
    vec!['a', 'e', 'i', 'o', 'u', 'A', 'E', 'I', 'O', 'U']
}

/// The 64 glyphs of the standard base64 alphabet, in order.
pub open spec fn base64_alphabet() -> Seq<char> {
    seq!['A', 'B', 'C', 'D', 'E', 'F', 'G', 'H', 'I', 'J', 'K', 'L', 'M', 'N', 'O', 'P', 'Q', 'R', 'S', 'T', 'U', 'V', 'W', 'X', 'Y', 'Z', 'a', 'b', 'c', 'd', 'e', 'f', 'g', 'h', 'i', 'j', 'k', 'l', 'm', 'n', 'o', 'p', 'q', 'r', 's', 't', 'u', 'v', 'w', 'x', 'y', 'z', '0', '1', '2', '3', '4', '5', '6', '7', '8', '9', '+', '/']
}

pub fn base64_glyphs() -> (v: Vec<char>)
    ensures
        v@ == base64_alphabet(),
{
    vec!['A', 'B', 'C', 'D', 'E', 'F', 'G', 'H', 'I', 'J', 'K', 'L', 'M', 'N', 'O', 'P', 'Q', 'R', 'S', 'T', 'U', 'V', 'W', 'X', 'Y', 'Z', 'a', 'b', 'c', 'd', 'e', 'f', 'g', 'h', 'i', 'j', 'k', 'l', 'm', 'n', 'o', 'p', 'q', 'r', 's', 't', 'u', 'v', 'w', 'x', 'y', 'z', '0', '1', '2', '3', '4', '5', '6', '7', '8', '9', '+', '/']
}

/// The alphabet holds exactly the base64 glyphs.
pub proof fn lemma_base64_alphabet()
    ensures
        base64_alphabet().len() == 64,
        forall|i: int| 0 <= i < 64 ==> is_base64_glyph(#[trigger] base64_alphabet()[i]),
        forall|c: char| is_base64_glyph(c) ==> base64_alphabet().contains(c),
{
    let a = base64_alphabet();
    assert forall|c: char| is_base64_glyph(c) implies a.contains(c) by {
        let v: int = if is_ascii_uppercase(c) {
            c as int - 65
        } else if is_ascii_lowercase(c) {
            c as int - 97 + 26
        } else if is_ascii_digit(c) {
            c as int - 48 + 52
        } else if c == '+' {
            62
        } else {
            63
        };
        assert(a[v] == c);
    }
}

} // verus!
