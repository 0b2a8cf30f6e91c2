//! The 27-symbol alphabet: the boundary marker `.` (code 0) and `a`..`z`
//! (codes 1..26).
use vstd::prelude::*;

verus! {

/// Code of the boundary symbol that opens and closes every token.
pub const BOUNDARY: u32 = 0;

/// Number of symbols in the alphabet.
pub const VOCAB_SIZE: usize = 27;

/// The characters the alphabet recognises.
pub open spec fn is_symbol(c: char) -> bool {
    c == '.' || ('a' <= c && c <= 'z')
}

/// The code of a recognised character.
pub open spec fn code_of(c: char) -> u32 {
    if c == '.' {
        0
    } else {
        (c as u32 - 96) as u32
    }
}

/// The character that a code in `0..27` stands for.
pub open spec fn char_of(i: u32) -> char {
    if i == 0 {
        '.'
    } else {
        ((i + 96) as u8) as char
    }
}

/// Whether `c` belongs to the alphabet.
pub fn is_symbol_char(c: char) -> (r: bool)
    ensures
        r == is_symbol(c),
{
    c == '.' || ('a' <= c && c <= 'z')
}

/// Maps a symbol to its code.
pub fn stoi(c: char) -> (r: u32)
    requires
        is_symbol(c),
    ensures
        r == code_of(c),
        r < VOCAB_SIZE,
{
    if c == '.' {
        0
    } else {
        c as u32 - 96
    }
}

/// Maps a code back to its symbol.
pub fn itos(i: u32) -> (r: char)
    requires
        i < VOCAB_SIZE,
    ensures
        r == char_of(i),
        is_symbol(r),
        i != BOUNDARY ==> 'a' <= r && r <= 'z',
{
    if i == 0 {
        '.'
    } else {
        (i + 96) as u8 as char
    }
}

/// The alphabet is a bijection: decoding the code of a symbol gives the
/// symbol back, and encoding the symbol of a code gives the code back.
pub proof fn lemma_code_bijection(c: char, i: u32)
    requires
        is_symbol(c),
        i < VOCAB_SIZE,
    ensures
        code_of(c) < VOCAB_SIZE,
        char_of(code_of(c)) == c,
        is_symbol(char_of(i)),
        code_of(char_of(i)) == i,
{
}

} // verus!
