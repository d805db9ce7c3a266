use vstd::prelude::*;

verus! {

/// The character that the console has delivered as the byte `b`.
pub open spec fn char_of_byte(b: u8) -> char {
    b as char
}

/// The byte that the console is sent for the character `ch`: the lowest
/// eight bits of its code.
pub open spec fn byte_of_char(ch: char) -> u8 {
    (ch as u32 % 256) as u8
}

/// The character that the firmware has read from the console, from the value
/// that its call returned: the character of the lowest byte, and the null
/// character where that byte is 255, which the firmware returns when nothing
/// was typed.
pub fn getchar(raw: usize) -> (ch: char)
    ensures
        ch == (if raw % 256 == 255 {
            '\0'
        } else {
            char_of_byte((raw % 256) as u8)
        }),
{
    let c: u8 = (raw % 256) as u8;
    if c == 255 {
        '\0'
    } else {
        c as char
    }
}

/// The character that the firmware has read from the console, from the value
/// that its call returned; `None` where the value is -1, which the firmware
/// returns when nothing was typed.
pub fn getchar_option(raw: usize) -> (r: Option<char>)
    ensures
        r == (if raw == usize::MAX {
            None
        } else {
            Some(char_of_byte((raw % 256) as u8))
        }),
{
    if raw == usize::MAX {
        None
    } else {
        let c: u8 = (raw % 256) as u8;
        Some(c as char)
    }
}

/// The value to pass to the firmware for the console to show `ch`.
pub fn putchar(ch: char) -> (out: usize)
    ensures
        out == byte_of_char(ch),
{
    let code: u32 = ch as u32;
    (code % 256) as usize
}

/// The values to pass to the firmware, one after the other, for the console
/// to show `s`.
pub fn puts(s: &str) -> (out: Vec<usize>)
    ensures
        out@.len() == s@.len(),
        forall|i: int| 0 <= i < s@.len() ==> out@[i] == byte_of_char(s@[i]),
{
    let n = s.unicode_len();
    let mut out: Vec<usize> = Vec::new();
    let mut i: usize = 0;
    while i < n
        invariant
            i <= n,
            n == s@.len(),
            out@.len() == i,
            forall|k: int| 0 <= k < i ==> out@[k] == byte_of_char(s@[k]),
        decreases n - i,
    {
        out.push(putchar(s.get_char(i)));
        i = i + 1;
    }
    out
}

} // verus!
