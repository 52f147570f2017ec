//! The four character categories and their alphabets.

use vstd::prelude::*;

verus! {

/// A capital letter: `A` through `Z`.
pub open spec fn is_capital(c: char) -> bool {
    'A' <= c && c <= 'Z'
}

/// A simple (lowercase) letter: `a` through `z`.
pub open spec fn is_simple(c: char) -> bool {
    'a' <= c && c <= 'z'
}

/// One of the eight special symbols `!@#$%^&*`.
pub open spec fn is_special(c: char) -> bool {
    c == '!' || c == '@' || c == '#' || c == '$' || c == '%' || c == '^' || c == '&' || c == '*'
}

/// A decimal digit: `0` through `9`.
pub open spec fn is_number(c: char) -> bool {
    '0' <= c && c <= '9'
}

/// The special symbol at index `i` of the eight-symbol alphabet
/// `!@#$%^&*`; indices outside `0..8` wrap around.
pub open spec fn special_symbol(i: int) -> char {
    let d = i % 8;
    if d == 0 {
        '!'
    } else if d == 1 {
        '@'
    } else if d == 2 {
        '#'
    } else if d == 3 {
        '$'
    } else if d == 4 {
        '%'
    } else if d == 5 {
        '^'
    } else if d == 6 {
        '&'
    } else {
        '*'
    }
}

/// The capital alphabet `A..Z`, cycled: the character at index `i`.
pub open spec fn capital_at(i: int) -> char {
    ('A' as int + i % 26) as char
}

/// The simple alphabet `a..z`, cycled: the character at index `i`.
pub open spec fn simple_at(i: int) -> char {
    ('a' as int + i % 26) as char
}

/// The digit alphabet `0..9`, cycled: the character at index `i`.
pub open spec fn number_at(i: int) -> char {
    ('0' as int + i % 10) as char
}

/// The capital alphabet repeated to 130 characters, as the pool holds it.
pub open spec fn capital_pool() -> Seq<char> {
    Seq::new(130, |i: int| capital_at(i))
}

/// The simple alphabet repeated to 130 characters, as the pool holds it.
pub open spec fn simple_pool() -> Seq<char> {
    Seq::new(130, |i: int| simple_at(i))
}

/// The special alphabet repeated to 128 characters, as the pool holds it.
pub open spec fn special_pool() -> Seq<char> {
    Seq::new(128, |i: int| special_symbol(i))
}

/// The digit alphabet repeated to 130 characters, as the pool holds it.
pub open spec fn number_pool() -> Seq<char> {
    Seq::new(130, |i: int| number_at(i))
}

/// The character at index `i` of the cycled capital alphabet.
pub fn capital_char(i: usize) -> (c: char)
    ensures
        c == capital_at(i as int),
        is_capital(c),
{
    (65u8 + (i % 26) as u8) as char
}

/// The character at index `i` of the cycled simple alphabet.
pub fn simple_char(i: usize) -> (c: char)
    ensures
        c == simple_at(i as int),
        is_simple(c),
{
    (97u8 + (i % 26) as u8) as char
}

/// The character at index `i` of the cycled digit alphabet.
pub fn number_char(i: usize) -> (c: char)
    ensures
        c == number_at(i as int),
        is_number(c),
{
    (48u8 + (i % 10) as u8) as char
}

/// The character at index `i` of the cycled special alphabet `!@#$%^&*`.
pub fn special_char(i: usize) -> (c: char)
    ensures
        c == special_symbol(i as int),
        is_special(c),
{
    match i % 8 {
        0 => '!',
        1 => '@',
        2 => '#',
        3 => '$',
        4 => '%',
        5 => '^',
        6 => '&',
        _ => '*',
    }
}

/// No character belongs to two categories: the four alphabets are
/// pairwise disjoint.
pub proof fn lemma_categories_disjoint(c: char)
    ensures
        is_capital(c) ==> !is_simple(c) && !is_special(c) && !is_number(c),
        is_simple(c) ==> !is_capital(c) && !is_special(c) && !is_number(c),
        is_special(c) ==> !is_capital(c) && !is_simple(c) && !is_number(c),
        is_number(c) ==> !is_capital(c) && !is_simple(c) && !is_special(c),
{
}

} // verus!
