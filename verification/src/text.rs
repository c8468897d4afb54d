//! Characters, strings and decimal rendering.
//!
//! The library computes over `Vec<char>` wherever it builds or reads text
//! character by character, and turns the result back into `String` at its
//! edges.

use vstd::prelude::*;

verus! {

/// The mathematical value of a list of strings.
pub open spec fn strings_view(v: Seq<String>) -> Seq<Seq<char>> {
    v.map_values(|s: String| s@)
}

/// The index of the first line break, or the length when there is none.
pub open spec fn first_line_end(s: Seq<char>) -> int
    decreases s.len(),
{
    if s.len() == 0 {
        0
    } else if s[0] == '\n' {
        0
    } else {
        1 + first_line_end(s.drop_first())
    }
}

/// The characters of `s`, in order.
pub fn str_to_chars(s: &str) -> (v: Vec<char>)
    ensures
        v@ == s@,
{
    let n = s.unicode_len();
    let mut v: Vec<char> = Vec::new();
    let mut i: usize = 0;
    while i < n
        invariant
            i <= n,
            n == s@.len(),
            v@ == s@.subrange(0, i as int),
        decreases n - i,
    {
        let c = s.get_char(i);
        v.push(c);
        proof {
            assert(v@ =~= s@.subrange(0, i + 1 as int));
        }
        i = i + 1;
    }
    proof {
        assert(v@ =~= s@);
    }
    v
}

/// Relies on `core::iter::Iterator::collect` into `String`, which
/// concatenates the characters in order.
#[verifier::external_body]
pub fn chars_to_string(v: &Vec<char>) -> (s: String)
    ensures
        s@ == v@,
{
    v.iter().collect()
}

/// The character of a single decimal digit.
pub open spec fn dec_digit(d: int) -> char {
    ((48 + d) as u8) as char
}

/// The decimal digits of `n`, most significant first, no sign, no leading
/// zeros (a single `'0'` for zero).
pub open spec fn spec_dec(n: nat) -> Seq<char>
    decreases n,
{
    if n < 10 {
        seq![dec_digit(n as int)]
    } else {
        spec_dec(n / 10) + seq![dec_digit((n % 10) as int)]
    }
}

/// The decimal rendering of `n`, with a leading `'-'` when negative.
pub open spec fn spec_dec_signed(n: int) -> Seq<char> {
    if n < 0 {
        seq!['-'] + spec_dec((-n) as nat)
    } else {
        spec_dec(n as nat)
    }
}

/// Appends the decimal digits of `n` to `v`.
pub fn push_dec(n: u64, v: &mut Vec<char>)
    ensures
        final(v)@ == old(v)@ + spec_dec(n as nat),
    decreases n,
{
    if n < 10 {
        v.push((48 + (n as u8)) as char);
    } else {
        push_dec(n / 10, v);
        v.push((48 + ((n % 10) as u8)) as char);
        proof {
            assert(final(v)@ =~= old(v)@ + spec_dec(n as nat));
        }
    }
}

/// The decimal rendering of `n` as a string, signed.
pub fn i32_to_string(n: i32) -> (s: String)
    ensures
        s@ == spec_dec_signed(n as int),
{
    let mut v: Vec<char> = Vec::new();
    if n < 0 {
        v.push('-');
        let m: u64 = (-(n as i64)) as u64;
        push_dec(m, &mut v);
    } else {
        push_dec(n as u64, &mut v);
    }
    chars_to_string(&v)
}

/// Relies on `char::from_u32`: `Some` exactly on Unicode scalar values
/// (below the surrogate range, or past it and below the code-point
/// ceiling), giving the character of that value.
#[verifier::external_body]
pub fn char_from_u32(u: u32) -> (r: Option<char>)
    ensures
        r matches Some(c) ==> c as u32 == u,
        r is Some <==> (u < 0xD800 || (0xE000 <= u && u < 0x110000)),
{
    char::from_u32(u)
}

/// Appends every character of `s` to `v`.
pub fn push_str_chars(s: &str, v: &mut Vec<char>)
    ensures
        final(v)@ == old(v)@ + s@,
{
    let mut chars = str_to_chars(s);
    let mut i: usize = 0;
    let n = chars.len();
    while i < n
        invariant
            i <= n,
            n == chars@.len(),
            chars@ == s@,
            v@ == old(v)@ + s@.subrange(0, i as int),
        decreases n - i,
    {
        v.push(chars[i]);
        proof {
            assert(v@ =~= old(v)@ + s@.subrange(0, i + 1 as int));
        }
        i = i + 1;
    }
    proof {
        assert(v@ =~= old(v)@ + s@);
    }
}

} // verus!
