//! Text for native Windows calls: NUL-terminated UTF-16.
use vstd::prelude::*;
use vstd::string::StrSliceExecFns;

verus! {

/// The UTF-16 code units of one character: one unit in the Basic
/// Multilingual Plane, otherwise a surrogate pair.
pub open spec fn utf16_units(c: char) -> Seq<u16> {
    let v = c as u32;
    if v < 0x10000 {
        seq![v as u16]
    } else {
        let w = (v - 0x10000) as u32;
        seq![(0xD800 + w / 0x400) as u16, (0xDC00 + w % 0x400) as u16]
    }
}

/// UTF-16 encoding of a string (`str::encode_utf16`).
pub open spec fn utf16_encode(s: Seq<char>) -> Seq<u16>
    decreases s.len(),
{
    if s.len() == 0 {
        Seq::empty()
    } else {
        utf16_encode(s.drop_last()) + utf16_units(s.last())
    }
}

/// `s` as UTF-16 followed by a terminating NUL, as Win32 wide-string
/// parameters expect.
pub fn wide(s: &str) -> (w: Vec<u16>)
    ensures
        w@ == utf16_encode(s@).push(0u16),
{
    let n = s.unicode_len();
    let mut out: Vec<u16> = Vec::new();
    let mut i: usize = 0;
    while i < n
        invariant
            n == s@.len(),
            0 <= i <= n,
            out@ == utf16_encode(s@.subrange(0, i as int)),
        decreases n - i,
    {
        let c = s.get_char(i);
        let v = c as u32;
        let ghost before = out@;
        if v < 0x10000 {
            out.push(v as u16);
        } else {
            assert(v <= 0x10FFFF);
            let w = v - 0x10000;
            out.push((0xD800 + w / 0x400) as u16);
            out.push((0xDC00 + w % 0x400) as u16);
        }
        assert(out@ =~= before + utf16_units(c));
        assert(s@.subrange(0, i + 1).drop_last() =~= s@.subrange(0, i as int));
        i = i + 1;
    }
    assert(s@.subrange(0, n as int) =~= s@);
    out.push(0u16);
    out
}

} // verus!
