//! The tray tooltip: what the recorder says about its buffer.
use crate::text::{decimal, push_decimal_u64};
use vstd::prelude::*;
use vstd::string::StringExecFns;

verus! {

/// Bytes in a megabyte.
pub const MIB: u64 = 1048576;

/// `bytes` in whole megabytes, rounded to the nearest, halves to the even
/// one (as `{:.0}` rounds).
pub open spec fn rounded_megabytes(bytes: u64) -> nat {
    let q = bytes / MIB;
    let r = bytes % MIB;
    if r * 2 > MIB || (r * 2 == MIB && q % 2 == 1) {
        (q + 1) as nat
    } else {
        q as nat
    }
}

/// The tooltip for a buffer holding `bytes` over `millis` milliseconds:
/// "starting…" until a whole second is buffered, then the whole seconds and
/// the megabytes held.
pub open spec fn tooltip_spec(bytes: u64, millis: u64) -> Seq<char> {
    let secs = millis / 1000;
    if secs == 0 {
        "LowResourceCapture — starting…"@
    } else {
        "LowResourceCapture — recording · last "@ + decimal(secs as nat) + "s buffered · "@
            + decimal(rounded_megabytes(bytes)) + " MB"@
    }
}

/// The tray tooltip for the buffer's current size and length.
pub fn tooltip_text(bytes: u64, millis: u64) -> (t: String)
    ensures
        t@ == tooltip_spec(bytes, millis),
{
    proof {
        reveal_strlit("LowResourceCapture — starting…");
        reveal_strlit("LowResourceCapture — recording · last ");
        reveal_strlit("s buffered · ");
        reveal_strlit(" MB");
    }
    let secs = millis / 1000;
    if secs == 0 {
        return String::from_str("LowResourceCapture — starting…");
    }
    let q = bytes / MIB;
    let r = bytes % MIB;
    let mb = if r * 2 > MIB || (r * 2 == MIB && q % 2 == 1) {
        q + 1
    } else {
        q
    };
    let mut t = String::from_str("LowResourceCapture — recording · last ");
    push_decimal_u64(&mut t, secs);
    t.append("s buffered · ");
    push_decimal_u64(&mut t, mb);
    t.append(" MB");
    t
}

} // verus!
