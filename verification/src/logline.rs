//! The text of a log line: time since start, the thread, the level and the
//! message, in the layout `[HH:MM:SS.mmm] (thread) LEVEL  message`.
use crate::text::{decimal, lemma_decimal_digits, push_decimal_u64, push_zero_padded, zero_pad};
use vstd::prelude::*;
use vstd::string::{StrSliceExecFns, StringExecFns};

verus! {

/// The lowercase hexadecimal digit for `d` (0..=15).
pub open spec fn hex_digit(d: nat) -> char {
    if d < 10 {
        (48 + d) as char
    } else {
        (87 + d) as char
    }
}

/// Lowercase hexadecimal representation of `n`, without leading zeros
/// (`{:x}`).
pub open spec fn hex(n: nat) -> Seq<char>
    decreases n,
{
    if n < 16 {
        seq![hex_digit(n)]
    } else {
        hex(n / 16).push(hex_digit(n % 16))
    }
}

/// `s` right-padded with spaces to at least `width` characters (`{:<width}`).
pub open spec fn pad_right(s: Seq<char>, width: nat) -> Seq<char> {
    if s.len() >= width {
        s
    } else {
        s + Seq::new((width - s.len()) as nat, |_i: int| ' ')
    }
}

/// The line logged `secs` seconds and `millis` milliseconds after start by
/// `thread` at `level`.
pub open spec fn log_line_spec(
    secs: u64,
    millis: u32,
    thread: Seq<char>,
    level: Seq<char>,
    message: Seq<char>,
) -> Seq<char> {
    "["@ + zero_pad(decimal((secs / 3600) as nat), 2) + ":"@ + zero_pad(
        decimal(((secs % 3600) / 60) as nat),
        2,
    ) + ":"@ + zero_pad(decimal((secs % 60) as nat), 2) + "."@ + zero_pad(decimal(millis as nat), 3)
        + "] ("@ + thread + ") "@ + pad_right(level, 6) + " "@ + message
}

fn hex_digit_str(d: u32) -> (s: &'static str)
    requires
        d < 16,
    ensures
        s@ == seq![hex_digit(d as nat)],
{
    proof {
        reveal_strlit("0");
        reveal_strlit("1");
        reveal_strlit("2");
        reveal_strlit("3");
        reveal_strlit("4");
        reveal_strlit("5");
        reveal_strlit("6");
        reveal_strlit("7");
        reveal_strlit("8");
        reveal_strlit("9");
        reveal_strlit("a");
        reveal_strlit("b");
        reveal_strlit("c");
        reveal_strlit("d");
        reveal_strlit("e");
        reveal_strlit("f");
    }
    match d {
        0 => "0",
        1 => "1",
        2 => "2",
        3 => "3",
        4 => "4",
        5 => "5",
        6 => "6",
        7 => "7",
        8 => "8",
        9 => "9",
        10 => "a",
        11 => "b",
        12 => "c",
        13 => "d",
        14 => "e",
        _ => "f",
    }
}

fn push_hex(out: &mut String, n: u32)
    ensures
        final(out)@ == old(out)@ + hex(n as nat),
    decreases n,
{
    if n >= 16 {
        push_hex(out, n / 16);
        out.append(hex_digit_str(n % 16));
        assert(out@ =~= old(out)@ + hex(n as nat));
    } else {
        out.append(hex_digit_str(n));
        assert(out@ =~= old(out)@ + hex(n as nat));
    }
}

/// A thread id as it appears in a log line: lowercase hexadecimal.
pub fn thread_hex(id: u32) -> (s: String)
    ensures
        s@ == hex(id as nat),
{
    let mut s = String::new();
    push_hex(&mut s, id);
    s
}

/// Append `n` in decimal, left-padded with zeros to two digits.
fn push_two_digits_u64(out: &mut String, n: u64)
    ensures
        final(out)@ == old(out)@ + zero_pad(decimal(n as nat), 2),
{
    proof {
        lemma_decimal_digits(n as nat);
        if n >= 10 {
            lemma_decimal_digits((n / 10) as nat);
        }
    }
    if n < 10 {
        proof {
            reveal_strlit("0");
        }
        out.append("0");
        push_decimal_u64(out, n);
        assert(out@ =~= old(out)@ + zero_pad(decimal(n as nat), 2));
    } else {
        push_decimal_u64(out, n);
    }
}

/// Append `s` right-padded with spaces to `width` characters.
fn push_padded_right(out: &mut String, s: &str, width: usize)
    ensures
        final(out)@ == old(out)@ + pad_right(s@, width as nat),
{
    out.append(s);
    let len = s.unicode_len();
    let mut k: usize = len;
    while k < width
        invariant
            len == s@.len(),
            len <= k,
            k <= width || len > width,
            len >= width ==> k == len,
            out@ == old(out)@ + s@ + Seq::new((k - len) as nat, |_i: int| ' '),
        decreases width - k,
    {
        proof {
            reveal_strlit(" ");
        }
        out.append(" ");
        assert(out@ =~= old(out)@ + s@ + Seq::new((k + 1 - len) as nat, |_i: int| ' '));
        k = k + 1;
    }
    if len >= width {
        assert(Seq::new((k - len) as nat, |_i: int| ' ') =~= Seq::<char>::empty());
        assert(out@ =~= old(out)@ + pad_right(s@, width as nat));
    } else {
        assert(out@ =~= old(out)@ + pad_right(s@, width as nat));
    }
}

/// The log line for `message`, logged `secs` seconds and `millis`
/// milliseconds after start by `thread` at `level`.
pub fn log_line(secs: u64, millis: u32, thread: &str, level: &str, message: &str) -> (line: String)
    ensures
        line@ == log_line_spec(secs, millis, thread@, level@, message@),
{
    proof {
        reveal_strlit("[");
        reveal_strlit(":");
        reveal_strlit(".");
        reveal_strlit("] (");
        reveal_strlit(") ");
        reveal_strlit(" ");
    }
    let mut out = String::from_str("[");
    push_two_digits_u64(&mut out, secs / 3600);
    out.append(":");
    push_zero_padded(&mut out, ((secs % 3600) / 60) as u32, 2);
    out.append(":");
    push_zero_padded(&mut out, (secs % 60) as u32, 2);
    out.append(".");
    push_zero_padded(&mut out, millis, 3);
    out.append("] (");
    out.append(thread);
    out.append(") ");
    push_padded_right(&mut out, level, 6);
    out.append(" ");
    out.append(message);
    assert(out@ =~= log_line_spec(secs, millis, thread@, level@, message@));
    out
}

} // verus!
