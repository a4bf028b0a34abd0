//! Wide strings: text as NUL-terminated UTF-16, as system interfaces take it.

use vstd::prelude::*;
use vstd::string::*;

verus! {

/// The UTF-16 code units of one character: itself below U+10000, a pair of
/// surrogates from there on.
pub open spec fn utf16_units(c: char) -> Seq<u16> {
    let code = c as int;
    if code < 0x10000 {
        seq![code as u16]
    } else {
        seq![
            (0xD800 + (code - 0x10000) / 0x400) as u16,
            (0xDC00 + (code - 0x10000) % 0x400) as u16,
        ]
    }
}

/// The UTF-16 encoding of a text, without byte-order mark.
pub open spec fn utf16_encoding(text: Seq<char>) -> Seq<u16>
    decreases text.len(),
{
    if text.len() == 0 {
        Seq::empty()
    } else {
        utf16_encoding(text.drop_last()) + utf16_units(text.last())
    }
}

/// A text as a wide string: its UTF-16 encoding, closed by one NUL.
pub open spec fn wide_string(text: Seq<char>) -> Seq<u16> {
    utf16_encoding(text).push(0u16)
}

/// Appends the UTF-16 code units of `c` to `wide`.
fn push_utf16(wide: &mut Vec<u16>, c: char)
    ensures
        final(wide)@ == old(wide)@ + utf16_units(c),
{
    let code: u32 = c as u32;
    if code < 0x10000 {
        wide.push(code as u16);
    } else {
        let offset: u32 = code - 0x10000;
        wide.push((0xD800 + offset / 0x400) as u16);
        wide.push((0xDC00 + offset % 0x400) as u16);
    }
}

/// Encodes `s` as a NUL-terminated wide string.
pub fn encode_string_to_wide(s: &str) -> (wide: Vec<u16>)
    ensures
        wide@ == wide_string(s@),
{
    let mut wide: Vec<u16> = Vec::new();
    let chars = s.chars();
    proof {
        axiom_spec_iter(s);
    }
    for c in it: chars
        invariant
            it.seq() == s@,
            wide@ == utf16_encoding(s@.take(it.index())),
    {
        push_utf16(&mut wide, c);
        proof {
            assert(s@.take(it.index() + 1).drop_last() =~= s@.take(it.index()));
        }
    }
    proof {
        assert(s@.take(s@.len() as int) =~= s@);
    }
    wide.push(0u16);
    wide
}

} // verus!
