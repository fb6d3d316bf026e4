//! Character classes used by the scrubbing stages and the field classifier.

use vstd::prelude::*;

verus! {

/// C0 control characters other than tab, line feed and carriage return,
/// together with DEL.
pub open spec fn control_char(c: char) -> bool {
    let n = c as u32;
    ||| n <= 0x08
    ||| n == 0x0B
    ||| n == 0x0C
    ||| 0x0E <= n <= 0x1F
    ||| n == 0x7F
}

/// Zero-width spaces and joiners, directional marks, bidirectional
/// embedding and override controls, word joiners and invisible operators,
/// and the byte-order mark.
pub open spec fn zero_width_char(c: char) -> bool {
    let n = c as u32;
    ||| 0x200B <= n <= 0x200F
    ||| 0x202A <= n <= 0x202E
    ||| 0x2060 <= n <= 0x2064
    ||| n == 0xFEFF
}

/// Characters that Unicode classes as `White_Space`.
pub open spec fn whitespace_char(c: char) -> bool {
    let n = c as u32;
    ||| 0x09 <= n <= 0x0D
    ||| n == 0x20
    ||| n == 0x85
    ||| n == 0xA0
    ||| n == 0x1680
    ||| 0x2000 <= n <= 0x200A
    ||| n == 0x2028
    ||| n == 0x2029
    ||| n == 0x202F
    ||| n == 0x205F
    ||| n == 0x3000
}

/// ASCII letters and digits.
pub open spec fn ascii_alphanumeric_char(c: char) -> bool {
    ||| '0' <= c <= '9'
    ||| 'A' <= c <= 'Z'
    ||| 'a' <= c <= 'z'
}

/// `c` with ASCII upper-case letters mapped to lower case.
pub open spec fn ascii_lower(c: char) -> char {
    if 'A' <= c <= 'Z' {
        ((c as u8) + 32) as char
    } else {
        c
    }
}

/// Whether `c` is a control character that scrubbing removes.
pub fn is_control_char(c: char) -> (r: bool)
    ensures
        r == control_char(c),
{
    let n: u32 = c as u32;
    n <= 0x08 || n == 0x0B || n == 0x0C || (0x0E <= n && n <= 0x1F) || n == 0x7F
}

/// Whether `c` is a zero-width or bidirectional control character.
pub fn is_zero_width_char(c: char) -> (r: bool)
    ensures
        r == zero_width_char(c),
{
    let n: u32 = c as u32;
    (0x200B <= n && n <= 0x200F) || (0x202A <= n && n <= 0x202E) || (0x2060 <= n && n <= 0x2064)
        || n == 0xFEFF
}

/// Whether `c` is whitespace.
pub fn is_whitespace_char(c: char) -> (r: bool)
    ensures
        r == whitespace_char(c),
{
    let n: u32 = c as u32;
    (0x09 <= n && n <= 0x0D) || n == 0x20 || n == 0x85 || n == 0xA0 || n == 0x1680 || (0x2000 <= n
        && n <= 0x200A) || n == 0x2028 || n == 0x2029 || n == 0x202F || n == 0x205F || n == 0x3000
}

/// Whether `c` is an ASCII letter or digit.
pub fn is_ascii_alphanumeric_char(c: char) -> (r: bool)
    ensures
        r == ascii_alphanumeric_char(c),
{
    ('0' <= c && c <= '9') || ('A' <= c && c <= 'Z') || ('a' <= c && c <= 'z')
}

/// `c` in lower case, where it is an ASCII letter.
pub fn to_ascii_lower(c: char) -> (r: char)
    ensures
        r == ascii_lower(c),
{
    if 'A' <= c && c <= 'Z' {
        let b: u8 = c as u8;
        (b + 32) as char
    } else {
        c
    }
}

} // verus!
