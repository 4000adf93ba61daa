//! What the library hands the embedded browser and ffmpeg: data URIs of
//! encoded media, strings quoted for a script, and the list that joins the
//! pieces of an edit.
use crate::text::chars_of;
use base64::Engine;
use vstd::prelude::*;
use vstd::string::{StrSliceExecFns, StringExecFns};

verus! {

/// The character for a six-bit value in the standard base64 alphabet:
/// `A`–`Z`, `a`–`z`, `0`–`9`, `+`, `/`.
pub open spec fn base64_digit(v: nat) -> char {
    if v < 26 {
        (65 + v) as char
    } else if v < 52 {
        (97 + (v - 26)) as char
    } else if v < 62 {
        (48 + (v - 52)) as char
    } else if v == 62 {
        '+'
    } else {
        '/'
    }
}

/// The standard base64 encoding of `bytes` (RFC 4648), with padding: each
/// three bytes become four characters of six bits each, and a final one or
/// two bytes become two or three characters and `=` padding to four.
pub open spec fn standard_base64(bytes: Seq<u8>) -> Seq<char>
    decreases bytes.len(),
{
    if bytes.len() == 0 {
        Seq::empty()
    } else if bytes.len() == 1 {
        let a = bytes[0] as nat;
        seq![base64_digit(a / 4), base64_digit((a % 4) * 16), '=', '=']
    } else if bytes.len() == 2 {
        let a = bytes[0] as nat;
        let b = bytes[1] as nat;
        seq![base64_digit(a / 4), base64_digit((a % 4) * 16 + b / 16), base64_digit((b % 16) * 4), '=']
    } else {
        let a = bytes[0] as nat;
        let b = bytes[1] as nat;
        let c = bytes[2] as nat;
        seq![
            base64_digit(a / 4),
            base64_digit((a % 4) * 16 + b / 16),
            base64_digit((b % 16) * 4 + c / 64),
            base64_digit(c % 64),
        ] + standard_base64(bytes.subrange(3, bytes.len() as int))
    }
}

/// The length of the padded base64 encoding of `n` bytes.
pub open spec fn padded_base64_len(n: nat) -> nat {
    4 * ((n + 2) / 3)
}

/// `base64::engine::general_purpose::STANDARD.encode`: the standard
/// alphabet with padding, that is `standard_base64` of the bytes. The call
/// panics when the padded length does not fit in `usize`
/// (`base64::encoded_len`), so `requires` rules it out.
#[verifier::external_body]
fn base64_standard(bytes: &Vec<u8>) -> (s: String)
    requires
        padded_base64_len(bytes@.len()) <= usize::MAX,
    ensures
        s@ == standard_base64(bytes@),
{
    base64::engine::general_purpose::STANDARD.encode(bytes)
}

/// `data:<mime>;base64,<encoded>`.
pub open spec fn data_uri_spec(mime: Seq<char>, encoded: Seq<char>) -> Seq<char> {
    "data:"@ + mime + ";base64,"@ + encoded
}

/// A data URI from media already encoded in base64.
pub fn data_uri_of_encoded(mime: &str, encoded: &str) -> (uri: String)
    ensures
        uri@ == data_uri_spec(mime@, encoded@),
{
    let mut out = String::from_str("data:");
    out.append(mime);
    out.append(";base64,");
    out.append(encoded);
    out
}

/// The media `bytes` of type `mime` as a data URI, for the embedded browser
/// to show without touching the disk.
pub fn data_uri(mime: &str, bytes: &Vec<u8>) -> (uri: String)
    requires
        padded_base64_len(bytes@.len()) <= usize::MAX,
    ensures
        uri@ == data_uri_spec(mime@, standard_base64(bytes@)),
{
    let encoded = base64_standard(bytes);
    data_uri_of_encoded(mime, encoded.as_str())
}

/// `s` with every backslash turned into a forward slash.
pub open spec fn forward_slashes(s: Seq<char>) -> Seq<char> {
    s.map_values(|c: char| if c == '\\' { '/' } else { c })
}

/// One line of ffmpeg's concat list: `file '<path>'` with forward slashes.
pub open spec fn concat_line(path: Seq<char>) -> Seq<char> {
    "file '"@ + forward_slashes(path) + "'\n"@
}

/// The concat list for `parts`, one line each, in order.
pub open spec fn concat_list_spec(parts: Seq<Seq<char>>) -> Seq<char>
    decreases parts.len(),
{
    if parts.len() == 0 {
        Seq::empty()
    } else {
        concat_list_spec(parts.drop_last()) + concat_line(parts.last())
    }
}

/// Append `path` with its backslashes turned into forward slashes.
fn push_forward_slashed(out: &mut String, path: &str)
    ensures
        final(out)@ == old(out)@ + forward_slashes(path@),
{
    let cs = chars_of(path);
    let n = cs.len();
    let mut start: usize = 0;
    let mut i: usize = 0;
    while i < n
        invariant
            cs@ == path@,
            n == path@.len(),
            start <= i <= n,
            out@ == old(out)@ + forward_slashes(path@.subrange(0, start as int)),
            forall|k: int| start <= k < i ==> path@[k] != '\\',
        decreases n - i,
    {
        if cs[i] == '\\' {
            out.append(path.substring_char(start, i));
            out.append("/");
            proof {
                reveal_strlit("/");
                let run = path@.subrange(start as int, i as int);
                assert(forward_slashes(run) =~= run);
                assert(path@.subrange(0, i + 1) =~= path@.subrange(0, start as int) + run + seq![
                    '\\',
                ]);
                assert(forward_slashes(path@.subrange(0, i + 1)) =~= forward_slashes(
                    path@.subrange(0, start as int),
                ) + run + "/"@);
            }
            start = i + 1;
        }
        i = i + 1;
    }
    out.append(path.substring_char(start, n));
    proof {
        let run = path@.subrange(start as int, n as int);
        assert(forward_slashes(run) =~= run);
        assert(path@ =~= path@.subrange(0, start as int) + run);
        assert(forward_slashes(path@) =~= forward_slashes(path@.subrange(0, start as int))
            + run);
    }
}

/// ffmpeg's concat list for the encoded pieces of an edit, in the order they
/// are joined.
pub fn concat_list(parts: &Vec<String>) -> (list: String)
    ensures
        list@ == concat_list_spec(parts.deep_view()),
{
    let ghost ps = parts.deep_view();
    let mut out = String::new();
    let mut i: usize = 0;
    while i < parts.len()
        invariant
            0 <= i <= parts.len(),
            ps == parts.deep_view(),
            out@ == concat_list_spec(ps.subrange(0, i as int)),
        decreases parts.len() - i,
    {
        let ghost before = out@;
        out.append("file '");
        push_forward_slashed(&mut out, parts[i].as_str());
        out.append("'\n");
        proof {
            reveal_strlit("file '");
            reveal_strlit("'\n");
            assert(ps.subrange(0, i + 1).drop_last() =~= ps.subrange(0, i as int));
            assert(ps.subrange(0, i + 1).last() == ps[i as int]);
            assert(out@ =~= before + concat_line(ps[i as int]));
        }
        i = i + 1;
    }
    assert(ps.subrange(0, parts.len() as int) =~= ps);
    out
}

/// `serde_json::Error`, carried through opaque.
#[verifier::external_type_specification]
#[verifier::external_body]
pub struct ExJsonError(serde_json::Error);

/// The hexadecimal digit for `d` (0..=15), lowercase.
pub open spec fn lower_hex_digit(d: nat) -> char {
    if d < 10 {
        (48 + d) as char
    } else {
        (87 + d) as char
    }
}

/// How one character is written inside a JSON string: `"` and `\` behind a
/// backslash, backspace, tab, line feed, form feed and carriage return as
/// `\b \t \n \f \r`, every other control character below U+0020 as
/// `\u00` and two lowercase hex digits, anything else as itself.
pub open spec fn json_escape_char(c: char) -> Seq<char> {
    let v = c as nat;
    if c == '"' {
        seq!['\\', '"']
    } else if c == '\\' {
        seq!['\\', '\\']
    } else if v == 8 {
        seq!['\\', 'b']
    } else if v == 9 {
        seq!['\\', 't']
    } else if v == 10 {
        seq!['\\', 'n']
    } else if v == 12 {
        seq!['\\', 'f']
    } else if v == 13 {
        seq!['\\', 'r']
    } else if v < 32 {
        seq!['\\', 'u', '0', '0', lower_hex_digit(v / 16), lower_hex_digit(v % 16)]
    } else {
        seq![c]
    }
}

/// The characters of `s`, each as written inside a JSON string.
pub open spec fn json_escaped(s: Seq<char>) -> Seq<char>
    decreases s.len(),
{
    if s.len() == 0 {
        Seq::empty()
    } else {
        json_escaped(s.drop_last()) + json_escape_char(s.last())
    }
}

/// `s` as a JSON string literal: its characters escaped, between quotes.
pub open spec fn json_string_literal(s: Seq<char>) -> Seq<char> {
    seq!['"'] + json_escaped(s) + seq!['"']
}

/// `serde_json::to_string` on a string: the JSON literal of `s`, escaped as
/// its serialiser's escape table does (`json_string_literal`). It succeeds: serialising a `str` only writes the escaped
/// text into serde_json's own `Vec` buffer, and its errors come only from the
/// value's serialiser or from the writer, neither of which fails here.
#[verifier::external_body]
fn json_of_str(s: &str) -> (r: Result<String, serde_json::Error>)
    ensures
        r is Ok,
        r matches Ok(j) ==> j@ == json_string_literal(s@),
{
    serde_json::to_string(s)
}

/// `s` quoted for a line of script: its JSON string literal.
pub fn js_str(s: &str) -> (r: String)
    ensures
        r@ == json_string_literal(s@),
{
    match json_of_str(s) {
        Ok(j) => j,
        Err(_) => String::from_str("\"\""),
    }
}

} // verus!
