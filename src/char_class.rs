//! The two character classes of the cookie grammar.
use vstd::prelude::*;

verus! {

/// True iff `c` may stand in a cookie name: a token character, that is
/// `!`, `#`..`'`, `*`, `+`, `-`, `.`, digits, letters, `^`..`z`, `|` and `~`.
pub open spec fn token_char(c: char) -> bool {
    let v = c as u32;
    ||| v == 0x21
    ||| 0x23 <= v <= 0x27
    ||| v == 0x2a
    ||| v == 0x2b
    ||| v == 0x2d
    ||| v == 0x2e
    ||| 0x30 <= v <= 0x39
    ||| 0x41 <= v <= 0x5a
    ||| 0x5e <= v <= 0x7a
    ||| v == 0x7c
    ||| v == 0x7e
}

/// True iff `c` may stand in an unquoted cookie value: a token character, or
/// one of `(`, `)`, `/`, `:`, `<`, `>`..`@`, `[`, `]`, `{`, `}`.
pub open spec fn cookie_octet_char(c: char) -> bool {
    let v = c as u32;
    ||| token_char(c)
    ||| v == 0x28
    ||| v == 0x29
    ||| v == 0x2f
    ||| v == 0x3a
    ||| v == 0x3c
    ||| 0x3e <= v <= 0x40
    ||| v == 0x5b
    ||| v == 0x5d
    ||| v == 0x7b
    ||| v == 0x7d
}

/// Every character of `s` is a token character.
pub open spec fn all_token(s: Seq<char>) -> bool {
    forall|i: int| 0 <= i < s.len() ==> token_char(#[trigger] s[i])
}

/// Every character of `s` is a cookie-octet character.
pub open spec fn all_cookie_octet(s: Seq<char>) -> bool {
    forall|i: int| 0 <= i < s.len() ==> cookie_octet_char(#[trigger] s[i])
}

/// Tells whether `c` is legal in a cookie name.
pub fn is_token_char(c: char) -> (r: bool)
    ensures
        r == token_char(c),
{
    let v = c as u32;
    v == 0x21 || (0x23 <= v && v <= 0x27) || v == 0x2a || v == 0x2b || v == 0x2d || v == 0x2e
        || (0x30 <= v && v <= 0x39) || (0x41 <= v && v <= 0x5a) || (0x5e <= v && v <= 0x7a)
        || v == 0x7c || v == 0x7e
}

/// Tells whether `c` is legal in an unquoted cookie value.
pub fn is_cookie_octet(c: char) -> (r: bool)
    ensures
        r == cookie_octet_char(c),
{
    let v = c as u32;
    is_token_char(c) || v == 0x28 || v == 0x29 || v == 0x2f || v == 0x3a || v == 0x3c || (0x3e
        <= v && v <= 0x40) || v == 0x5b || v == 0x5d || v == 0x7b || v == 0x7d
}

/// Tells whether every character of `val` is a token character.
pub fn is_str_all_tokens(val: &str) -> (r: bool)
    ensures
        r == all_token(val@),
{
    let mut ok = true;
    for c in it: val.chars()
        invariant
            it.seq() == val@,
            ok == (forall|i: int| 0 <= i < it.index() ==> token_char(#[trigger] val@[i])),
    {
        ok = ok && is_token_char(c);
    }
    ok
}

/// Tells whether every character of `val` is a cookie-octet character.
pub fn is_str_all_cookie_octets(val: &str) -> (r: bool)
    ensures
        r == all_cookie_octet(val@),
{
    let mut ok = true;
    for c in it: val.chars()
        invariant
            it.seq() == val@,
            ok == (forall|i: int| 0 <= i < it.index() ==> cookie_octet_char(#[trigger] val@[i])),
    {
        ok = ok && is_cookie_octet(c);
    }
    ok
}

} // verus!
