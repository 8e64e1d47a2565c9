//! Character classes and ASCII byte access shared by the validators.
use vstd::prelude::*;

verus! {

/// `c` is an uppercase ASCII letter.
pub open spec fn is_ascii_upper(c: char) -> bool {
    'A' <= c && c <= 'Z'
}

/// `c` is a lowercase ASCII letter.
pub open spec fn is_ascii_lower(c: char) -> bool {
    'a' <= c && c <= 'z'
}

/// `c` is an ASCII decimal digit.
pub open spec fn is_ascii_digit(c: char) -> bool {
    '0' <= c && c <= '9'
}

/// `c` is an ASCII letter or digit.
pub open spec fn is_ascii_alphanumeric(c: char) -> bool {
    is_ascii_upper(c) || is_ascii_lower(c) || is_ascii_digit(c)
}

/// `c` is an ASCII control character (U+0000..U+001F or U+007F).
pub open spec fn is_ascii_control(c: char) -> bool {
    c <= '\u{1f}' || c == '\u{7f}'
}

/// The byte value of an ASCII character.
pub open spec fn ascii_byte(c: char) -> u8 {
    c as u8
}

/// For an ASCII character, the byte holds the character's code point.
pub proof fn lemma_ascii_byte(c: char)
    requires
        (c as nat) < 128,
    ensures
        (c as u8) as int == c as int,
{
}

/// Returns the bytes of `s` when every character is ASCII; each byte is then
/// the code point of the character at the same index.
pub fn ascii_bytes(s: &str) -> (r: Option<&[u8]>)
    ensures
        r is Some <==> vstd::utf8::is_ascii_chars(s@),
        r matches Some(b) ==> {
            &&& b@.len() == s@.len()
            &&& forall|i: int| 0 <= i < s@.len() ==> b@[i] as int == s@[i] as int
        },
{
    if s.is_ascii() {
        let bytes = s.as_bytes();
        proof {
            vstd::utf8::is_ascii_chars_encode_utf8(s@);
            assert forall|i: int| 0 <= i < s@.len() implies bytes@[i] as int == s@[i] as int by {
                assert('\0' <= s@[i] <= '\u{7f}');
                lemma_ascii_byte(s@[i]);
            }
        }
        Some(bytes)
    } else {
        None
    }
}

} // verus!

verus! {

/// The decimal digits of `n`, most significant first, without sign or padding.
pub open spec fn decimal_digits(n: nat) -> Seq<char>
    decreases n,
{
    if n < 10 {
        seq![digit_char(n)]
    } else {
        decimal_digits(n / 10).push(digit_char(n % 10))
    }
}

/// The ASCII digit for a value below ten.
pub open spec fn digit_char(d: nat) -> char {
    if d == 0 { '0' }
    else if d == 1 { '1' }
    else if d == 2 { '2' }
    else if d == 3 { '3' }
    else if d == 4 { '4' }
    else if d == 5 { '5' }
    else if d == 6 { '6' }
    else if d == 7 { '7' }
    else if d == 8 { '8' }
    else { '9' }
}

fn digit_for(d: u64) -> (c: char)
    requires
        d < 10,
    ensures
        c == digit_char(d as nat),
{
    if d == 0 { '0' }
    else if d == 1 { '1' }
    else if d == 2 { '2' }
    else if d == 3 { '3' }
    else if d == 4 { '4' }
    else if d == 5 { '5' }
    else if d == 6 { '6' }
    else if d == 7 { '7' }
    else if d == 8 { '8' }
    else { '9' }
}

/// Writes an unsigned integer in decimal, as `u64`'s `Display` does: its
/// digits, most significant first, without sign or padding.
pub(crate) fn u64_decimal(n: u64) -> (r: String)
    ensures
        r@ == decimal_digits(n as nat),
    decreases n,
{
    let mut out = if n < 10 {
        String::new()
    } else {
        u64_decimal(n / 10)
    };
    push_char(&mut out, digit_for(n % 10));
    proof {
        if n < 10 {
            assert(out@ =~= seq![digit_char(n as nat)]);
        }
    }
    out
}

/// Appends one character through `String::push`, which the standard library
/// documents as appending the character to the end of the string.
#[verifier::external_body]
pub(crate) fn push_char(s: &mut String, c: char)
    ensures
        final(s)@ == old(s)@.push(c),
{
    s.push(c);
}

/// The number of bytes of a character's UTF-8 encoding.
pub open spec fn utf8_width(c: char) -> nat {
    if (c as u32) < 0x80 {
        1
    } else if (c as u32) < 0x800 {
        2
    } else if (c as u32) < 0x10000 {
        3
    } else {
        4
    }
}

/// Returns the number of bytes of a character's UTF-8 encoding.
pub fn char_utf8_width(c: char) -> (r: usize)
    ensures
        r == utf8_width(c),
{
    let v = c as u32;
    if v < 0x80 {
        1
    } else if v < 0x800 {
        2
    } else if v < 0x10000 {
        3
    } else {
        4
    }
}

} // verus!
