//! Small string predicates the rest of the library is specified with:
//! exact and ASCII-case-insensitive equality, blank detection, and decimal
//! parsing, each proved against a direct statement of what it decides.
use vstd::prelude::*;
use vstd::string::{StrSliceExecFns, StringExecFns};

verus! {

/// ASCII lowercasing of one code point; everything outside `A..=Z` is kept.
pub open spec fn ascii_lower(c: char) -> u32 {
    if 'A' <= c && c <= 'Z' {
        (c as u32 + 32) as u32
    } else {
        c as u32
    }
}

/// Equal up to ASCII case, as `str::eq_ignore_ascii_case` decides.
pub open spec fn eq_ignore_ascii_case_spec(a: Seq<char>, b: Seq<char>) -> bool {
    &&& a.len() == b.len()
    &&& forall|i: int| 0 <= i < a.len() ==> #[trigger] ascii_lower(a[i]) == ascii_lower(b[i])
}

/// Whether `s` equals some entry of `list` up to ASCII case.
pub open spec fn any_eq_ignore_ascii_case(list: Seq<Seq<char>>, s: Seq<char>) -> bool {
    exists|i: int| 0 <= i < list.len() && #[trigger] eq_ignore_ascii_case_spec(list[i], s)
}

/// The Unicode `White_Space` property (`char::is_whitespace`): tab, line
/// feed, vertical tab, form feed, carriage return, space, next line,
/// no-break space, ogham space mark, the spaces U+2000 to U+200A, line and
/// paragraph separators, narrow no-break space, medium mathematical space and
/// ideographic space.
pub open spec fn unicode_white_space(c: char) -> bool {
    let v = c as u32;
    ||| 0x09 <= v <= 0x0D
    ||| v == 0x20
    ||| v == 0x85
    ||| v == 0xA0
    ||| v == 0x1680
    ||| 0x2000 <= v <= 0x200A
    ||| v == 0x2028
    ||| v == 0x2029
    ||| v == 0x202F
    ||| v == 0x205F
    ||| v == 0x3000
}

/// A list holds `s` up to ASCII case exactly when some entry, wherever it
/// stands, equals `s` up to ASCII case.
pub proof fn law_list_membership_is_any_entry(list: Seq<Seq<char>>, s: Seq<char>)
    ensures
        any_eq_ignore_ascii_case(list, s) <==> exists|i: int|
            0 <= i < list.len() && #[trigger] eq_ignore_ascii_case_spec(list[i], s),
        forall|i: int|
            0 <= i < list.len() && #[trigger] eq_ignore_ascii_case_spec(list[i], s)
                ==> any_eq_ignore_ascii_case(list, s),
        list.len() == 0 ==> !any_eq_ignore_ascii_case(list, s),
{
}

/// Every character is whitespace: what `s.trim().is_empty()` decides.
pub open spec fn is_blank_spec(s: Seq<char>) -> bool {
    forall|i: int| 0 <= i < s.len() ==> #[trigger] unicode_white_space(s[i])
}

/// Whether `c` has the Unicode `White_Space` property.
fn char_is_whitespace(c: char) -> (b: bool)
    ensures
        b == unicode_white_space(c),
{
    let v = c as u32;
    (0x09 <= v && v <= 0x0D) || v == 0x20 || v == 0x85 || v == 0xA0 || v == 0x1680 || (0x2000 <= v
        && v <= 0x200A) || v == 0x2028 || v == 0x2029 || v == 0x202F || v == 0x205F || v == 0x3000
}

fn ascii_lower_exec(c: char) -> (r: u32)
    ensures
        r == ascii_lower(c),
{
    let v = c as u32;
    if 65 <= v && v <= 90 {
        v + 32
    } else {
        v
    }
}

/// Exact string equality.
pub fn str_eq(a: &str, b: &str) -> (r: bool)
    ensures
        r == (a@ == b@),
{
    let n = a.unicode_len();
    if n != b.unicode_len() {
        return false;
    }
    let mut i: usize = 0;
    while i < n
        invariant
            n == a@.len(),
            n == b@.len(),
            0 <= i <= n,
            forall|k: int| 0 <= k < i ==> a@[k] == b@[k],
        decreases n - i,
    {
        if a.get_char(i) != b.get_char(i) {
            return false;
        }
        i = i + 1;
    }
    assert(a@ =~= b@);
    true
}

/// `str::eq_ignore_ascii_case`.
pub fn eq_ignore_ascii_case(a: &str, b: &str) -> (r: bool)
    ensures
        r == eq_ignore_ascii_case_spec(a@, b@),
{
    let n = a.unicode_len();
    if n != b.unicode_len() {
        return false;
    }
    let mut i: usize = 0;
    while i < n
        invariant
            n == a@.len(),
            n == b@.len(),
            0 <= i <= n,
            forall|k: int| 0 <= k < i ==> #[trigger] ascii_lower(a@[k]) == ascii_lower(b@[k]),
        decreases n - i,
    {
        if ascii_lower_exec(a.get_char(i)) != ascii_lower_exec(b.get_char(i)) {
            return false;
        }
        i = i + 1;
    }
    true
}

/// True if some entry of `list` equals `s` ignoring ASCII case.
pub fn contains_ignore_ascii_case(list: &Vec<String>, s: &str) -> (r: bool)
    ensures
        r == any_eq_ignore_ascii_case(list.deep_view(), s@),
{
    let mut i: usize = 0;
    while i < list.len()
        invariant
            0 <= i <= list.len(),
            forall|k: int|
                0 <= k < i ==> !#[trigger] eq_ignore_ascii_case_spec(list.deep_view()[k], s@),
        decreases list.len() - i,
    {
        if eq_ignore_ascii_case(list[i].as_str(), s) {
            assert(eq_ignore_ascii_case_spec(list.deep_view()[i as int], s@));
            return true;
        }
        i = i + 1;
    }
    false
}

/// Whether `s` is empty once surrounding whitespace is trimmed.
pub fn is_blank(s: &str) -> (r: bool)
    ensures
        r == is_blank_spec(s@),
{
    let n = s.unicode_len();
    let mut i: usize = 0;
    while i < n
        invariant
            n == s@.len(),
            0 <= i <= n,
            forall|k: int| 0 <= k < i ==> #[trigger] unicode_white_space(s@[k]),
        decreases n - i,
    {
        if !char_is_whitespace(s.get_char(i)) {
            return false;
        }
        i = i + 1;
    }
    true
}

/// Value of a run of ASCII decimal digits, most significant first.
pub open spec fn digits_value(s: Seq<char>) -> nat
    decreases s.len(),
{
    if s.len() == 0 {
        0
    } else {
        digits_value(s.drop_last()) * 10 + ((s.last() as u32) - 48) as nat
    }
}

pub open spec fn is_digit(c: char) -> bool {
    '0' <= c && c <= '9'
}

pub open spec fn all_digits(s: Seq<char>) -> bool {
    forall|i: int| 0 <= i < s.len() ==> #[trigger] is_digit(s[i])
}

/// What `str::parse::<u32>` accepts: an optional `+`, then one or more ASCII
/// digits whose value fits in a `u32`.
pub open spec fn parse_u32_spec(s: Seq<char>) -> Option<u32> {
    let body = if s.len() > 0 && s[0] == '+' {
        s.drop_first()
    } else {
        s
    };
    if body.len() > 0 && all_digits(body) && digits_value(body) <= u32::MAX {
        Some(digits_value(body) as u32)
    } else {
        None
    }
}

proof fn lemma_digits_value_push(s: Seq<char>, c: char)
    ensures
        digits_value(s.push(c)) == digits_value(s) * 10 + ((c as u32) - 48) as nat,
{
    assert(s.push(c).drop_last() =~= s);
}

proof fn lemma_digits_value_monotone(s: Seq<char>, c: char)
    requires
        is_digit(c),
    ensures
        digits_value(s.push(c)) >= digits_value(s) * 10,
{
    lemma_digits_value_push(s, c);
}

/// `str::parse::<u32>`.
pub fn parse_u32(s: &str) -> (r: Option<u32>)
    ensures
        r == parse_u32_spec(s@),
{
    let cs = chars_of(s);
    assert(cs@.subrange(0, cs@.len() as int) =~= s@);
    parse_u32_in(&cs, 0, cs.len())
}

/// `str::parse::<u32>` of the characters `cs[a..b]`.
pub fn parse_u32_in(cs: &Vec<char>, a: usize, b: usize) -> (r: Option<u32>)
    requires
        a <= b <= cs.len(),
    ensures
        r == parse_u32_spec(cs@.subrange(a as int, b as int)),
{
    let ghost s = cs@.subrange(a as int, b as int);
    let mut i: usize = a;
    if a < b && cs[a] == '+' {
        i = a + 1;
    }
    let ghost body = if s.len() > 0 && s[0] == '+' {
        s.drop_first()
    } else {
        s
    };
    let start = i;
    assert(body =~= cs@.subrange(start as int, b as int));
    if start == b {
        return None;
    }
    let mut acc: u64 = 0;
    while i < b
        invariant
            a <= start <= i <= b <= cs.len(),
            start < b,
            s == cs@.subrange(a as int, b as int),
            body == (if s.len() > 0 && s[0] == '+' {
                s.drop_first()
            } else {
                s
            }),
            body =~= cs@.subrange(start as int, b as int),
            all_digits(cs@.subrange(start as int, i as int)),
            acc == digits_value(cs@.subrange(start as int, i as int)),
            acc <= u32::MAX,
        decreases b - i,
    {
        let c = cs[i];
        if !('0' <= c && c <= '9') {
            proof {
                assert(body[i - start] == cs@[i as int]);
                assert(!is_digit(body[i - start]));
                assert(!all_digits(body));
            }
            return None;
        }
        let d = (c as u32 - 48) as u64;
        proof {
            assert(cs@.subrange(start as int, i + 1) =~= cs@.subrange(start as int, i as int).push(
                c,
            ));
            lemma_digits_value_push(cs@.subrange(start as int, i as int), c);
        }
        let next = acc * 10 + d;
        if next > 4294967295 {
            proof {
                if all_digits(body) {
                    lemma_digits_prefix_bound(body, (i + 1 - start) as int);
                    assert(body.subrange(0, i + 1 - start) =~= cs@.subrange(start as int, i + 1));
                }
            }
            return None;
        }
        acc = next;
        i = i + 1;
    }
    assert(cs@.subrange(start as int, b as int) =~= body);
    Some(acc as u32)
}

/// A prefix of a digit string never has a larger value than the whole.
proof fn lemma_digits_prefix_bound(s: Seq<char>, k: int)
    requires
        0 <= k <= s.len(),
        all_digits(s),
    ensures
        digits_value(s.subrange(0, k)) <= digits_value(s),
    decreases s.len() - k,
{
    if k < s.len() {
        lemma_digits_prefix_bound(s, k + 1);
        let p = s.subrange(0, k);
        assert(s.subrange(0, k + 1) =~= p.push(s[k]));
        assert(is_digit(s[k]));
        lemma_digits_value_monotone(p, s[k]);
        assert(digits_value(p) * 10 >= digits_value(p)) by (nonlinear_arith);
    } else {
        assert(s.subrange(0, k) =~= s);
    }
}

/// The ASCII digit for `d` (0..=9).
pub open spec fn digit_char(d: nat) -> char {
    (48 + d) as char
}

/// Decimal representation of `n`, without leading zeros (`"0"` for zero).
pub open spec fn decimal(n: nat) -> Seq<char>
    decreases n,
{
    if n < 10 {
        seq![digit_char(n)]
    } else {
        decimal(n / 10).push(digit_char(n % 10))
    }
}

/// `s` left-padded with `'0'` to at least `width` characters (`{:0width}`).
pub open spec fn zero_pad(s: Seq<char>, width: nat) -> Seq<char> {
    if s.len() >= width {
        s
    } else {
        Seq::new((width - s.len()) as nat, |_i: int| '0') + s
    }
}

fn digit_str(d: u32) -> (s: &'static str)
    requires
        d < 10,
    ensures
        s@ == seq![digit_char(d as nat)],
{
    proof {
        reveal_strlit("0");
        reveal_strlit("1");
        reveal_strlit("2");
        reveal_strlit("3");
        reveal_strlit("4");
        reveal_strlit("5");
        reveal_strlit("6");
        reveal_strlit("7");
        reveal_strlit("8");
        reveal_strlit("9");
    }
    match d {
        0 => "0",
        1 => "1",
        2 => "2",
        3 => "3",
        4 => "4",
        5 => "5",
        6 => "6",
        7 => "7",
        8 => "8",
        _ => "9",
    }
}

/// Append the decimal representation of `n` (`{}`).
pub fn push_decimal(out: &mut String, n: u32)
    ensures
        final(out)@ == old(out)@ + decimal(n as nat),
    decreases n,
{
    if n >= 10 {
        push_decimal(out, n / 10);
        out.append(digit_str(n % 10));
        assert(out@ =~= old(out)@ + decimal(n as nat));
    } else {
        out.append(digit_str(n));
        assert(out@ =~= old(out)@ + decimal(n as nat));
    }
}

/// Append the decimal representation of `n` (`{}`).
pub fn push_decimal_u64(out: &mut String, n: u64)
    ensures
        final(out)@ == old(out)@ + decimal(n as nat),
    decreases n,
{
    if n >= 10 {
        push_decimal_u64(out, n / 10);
        out.append(digit_str((n % 10) as u32));
        assert(out@ =~= old(out)@ + decimal(n as nat));
    } else {
        out.append(digit_str(n as u32));
        assert(out@ =~= old(out)@ + decimal(n as nat));
    }
}

fn decimal_len(n: u32) -> (len: usize)
    ensures
        len == decimal(n as nat).len(),
    decreases n,
{
    if n >= 10 {
        let l = decimal_len(n / 10);
        proof {
            reveal_with_fuel(pow10, 11);
            assert(pow10(10) == 10000000000);
            lemma_decimal_len_bound((n / 10) as nat, 10);
        }
        l + 1
    } else {
        1
    }
}

pub open spec fn pow10(k: nat) -> nat
    decreases k,
{
    if k == 0 {
        1
    } else {
        10 * pow10((k - 1) as nat)
    }
}

/// Below 10^k (k >= 1), a decimal has at most k digits.
proof fn lemma_decimal_len_bound(n: nat, k: nat)
    requires
        k >= 1,
        n < pow10(k),
    ensures
        decimal(n).len() <= k,
    decreases k,
{
    if n >= 10 {
        assert(pow10(k) == 10 * pow10((k - 1) as nat));
        if k == 1 {
            assert(pow10(0) == 1);
            assert(false);
        }
        assert(n / 10 < pow10((k - 1) as nat)) by (nonlinear_arith)
            requires
                n < 10 * pow10((k - 1) as nat),
        ;
        lemma_decimal_len_bound(n / 10, (k - 1) as nat);
    }
}

/// Append `n` in decimal, left-padded with zeros to `width` (`{:0width}`).
pub fn push_zero_padded(out: &mut String, n: u32, width: usize)
    requires
        width <= 16,
    ensures
        final(out)@ == old(out)@ + zero_pad(decimal(n as nat), width as nat),
{
    let len = decimal_len(n);
    let mut k: usize = len;
    while k < width
        invariant
            len == decimal(n as nat).len(),
            len <= k,
            k <= width || len > width,
            len >= width ==> k == len,
            out@ == old(out)@ + Seq::new((k - len) as nat, |_i: int| '0'),
        decreases width - k,
    {
        proof {
            reveal_strlit("0");
        }
        out.append("0");
        assert(out@ =~= old(out)@ + Seq::new((k + 1 - len) as nat, |_i: int| '0'));
        k = k + 1;
    }
    push_decimal(out, n);
    if len >= width {
        assert(Seq::new((k - len) as nat, |_i: int| '0') =~= Seq::<char>::empty());
        assert(out@ =~= old(out)@ + zero_pad(decimal(n as nat), width as nat));
    } else {
        assert(k == width);
        assert(out@ =~= old(out)@ + zero_pad(decimal(n as nat), width as nat));
    }
}

/// A decimal representation is a nonempty run of digits with value `n`.
pub proof fn lemma_decimal_digits(n: nat)
    ensures
        decimal(n).len() > 0,
        all_digits(decimal(n)),
        digits_value(decimal(n)) == n,
        decimal(n)[0] != '+',
    decreases n,
{
    if n < 10 {
        let c = digit_char(n);
        assert(c as u32 == 48 + n);
        lemma_digits_value_push(Seq::<char>::empty(), c);
        assert(seq![c] =~= Seq::<char>::empty().push(c));
        assert(digits_value(Seq::<char>::empty()) == 0);
    }
    if n >= 10 {
        lemma_decimal_digits(n / 10);
        let d = decimal(n / 10);
        assert(decimal(n).drop_last() =~= d);
        let c = digit_char(n % 10);
        assert(c as u32 == 48 + n % 10);
        lemma_digits_value_push(d, c);
        assert(decimal(n) == d.push(c));
        assert(decimal(n)[0] == d[0]);
        assert forall|i: int| 0 <= i < decimal(n).len() implies #[trigger] is_digit(
            decimal(n)[i],
        ) by {
            if i < d.len() {
                assert(decimal(n)[i] == d[i]);
            }
        }
    }
}

/// Leading zeros add nothing to a run of digits.
proof fn lemma_digits_value_leading_zeros(z: nat, s: Seq<char>)
    ensures
        digits_value(Seq::new(z, |_i: int| '0') + s) == digits_value(s),
    decreases s.len(), z,
{
    let zs = Seq::new(z, |_i: int| '0');
    if s.len() > 0 {
        assert((zs + s).drop_last() =~= zs + s.drop_last());
        assert((zs + s).last() == s.last());
        lemma_digits_value_leading_zeros(z, s.drop_last());
    } else if z > 0 {
        assert(zs + s =~= Seq::new((z - 1) as nat, |_i: int| '0').push('0'));
        lemma_digits_value_push(Seq::new((z - 1) as nat, |_i: int| '0'), '0');
        lemma_digits_value_leading_zeros((z - 1) as nat, s);
        assert(Seq::new((z - 1) as nat, |_i: int| '0') + s =~= Seq::new((z - 1) as nat, |_i: int| '0'));
    } else {
        assert(zs + s =~= s);
    }
}

/// A number below `10^width` written zero-padded to `width` digits takes
/// exactly `width` characters and reads back as itself.
pub proof fn law_zero_padded_reads_back(n: nat, width: nat)
    requires
        1 <= width <= 9,
        n < pow10(width),
    ensures
        zero_pad(decimal(n), width).len() == width,
        parse_u32_spec(zero_pad(decimal(n), width)) == Some(n as u32),
{
    lemma_decimal_digits(n);
    lemma_decimal_len_bound(n, width);
    let d = decimal(n);
    let z = (width - d.len()) as nat;
    let p = zero_pad(d, width);
    assert(p =~= Seq::new(z, |_i: int| '0') + d);
    lemma_digits_value_leading_zeros(z, d);
    assert forall|i: int| 0 <= i < p.len() implies #[trigger] is_digit(p[i]) by {
        if i >= z {
            assert(p[i] == d[i - z]);
        }
    }
    assert(p[0] != '+') by {
        if z == 0 {
            assert(p[0] == d[0]);
        }
    }
    assert(pow10(width) <= 1000000000) by {
        lemma_pow10_monotone(width, 9);
        reveal_with_fuel(pow10, 10);
    }
}

proof fn lemma_pow10_monotone(a: nat, b: nat)
    requires
        a <= b,
    ensures
        pow10(a) <= pow10(b),
    decreases b,
{
    if a < b {
        lemma_pow10_monotone(a, (b - 1) as nat);
    }
}

/// Reading back a decimal gives the number written.
pub proof fn law_decimal_round_trips(n: u32)
    ensures
        parse_u32_spec(decimal(n as nat)) == Some(n),
{
    lemma_decimal_digits(n as nat);
}

/// What `str::parse::<u64>` accepts: an optional `+`, then one or more ASCII
/// digits whose value fits in a `u64`.
pub open spec fn parse_u64_spec(s: Seq<char>) -> Option<u64> {
    let body = if s.len() > 0 && s[0] == '+' {
        s.drop_first()
    } else {
        s
    };
    if body.len() > 0 && all_digits(body) && digits_value(body) <= u64::MAX {
        Some(digits_value(body) as u64)
    } else {
        None
    }
}

/// `str::parse::<u64>`.
pub fn parse_u64(s: &str) -> (r: Option<u64>)
    ensures
        r == parse_u64_spec(s@),
{
    let n = s.unicode_len();
    let mut i: usize = 0;
    if n > 0 && s.get_char(0) == '+' {
        i = 1;
    }
    let ghost body = if n > 0 && s@[0] == '+' {
        s@.drop_first()
    } else {
        s@
    };
    let start = i;
    assert(body =~= s@.subrange(start as int, n as int));
    if start == n {
        return None;
    }
    let mut acc: u128 = 0;
    while i < n
        invariant
            n == s@.len(),
            start <= i <= n,
            start < n,
            body == (if s@.len() > 0 && s@[0] == '+' {
                s@.drop_first()
            } else {
                s@
            }),
            body =~= s@.subrange(start as int, n as int),
            all_digits(s@.subrange(start as int, i as int)),
            acc == digits_value(s@.subrange(start as int, i as int)),
            acc <= u64::MAX,
        decreases n - i,
    {
        let c = s.get_char(i);
        if !('0' <= c && c <= '9') {
            proof {
                assert(body[i - start] == s@[i as int]);
                assert(!is_digit(body[i - start]));
                assert(!all_digits(body));
            }
            return None;
        }
        let d = (c as u32 - 48) as u128;
        proof {
            assert(s@.subrange(start as int, i + 1) =~= s@.subrange(start as int, i as int).push(
                c,
            ));
            lemma_digits_value_push(s@.subrange(start as int, i as int), c);
        }
        let next = acc * 10 + d;
        if next > 18446744073709551615 {
            proof {
                if all_digits(body) {
                    lemma_digits_prefix_bound(body, (i + 1 - start) as int);
                    assert(body.subrange(0, i + 1 - start) =~= s@.subrange(start as int, i + 1));
                }
            }
            return None;
        }
        acc = next;
        i = i + 1;
    }
    assert(s@.subrange(start as int, n as int) =~= body);
    Some(acc as u64)
}

/// Index of the first non-whitespace character at or after `i` (or the
/// length).
pub open spec fn trim_start_index(s: Seq<char>, i: int) -> int
    decreases s.len() - i,
{
    if i < 0 || i >= s.len() {
        s.len() as int
    } else if unicode_white_space(s[i]) {
        trim_start_index(s, i + 1)
    } else {
        i
    }
}

/// One past the last non-whitespace character before `end`, not going below
/// `lo`.
pub open spec fn trim_end_index(s: Seq<char>, lo: int, end: int) -> int
    decreases end - lo,
{
    if end <= lo {
        lo
    } else if unicode_white_space(s[end - 1]) {
        trim_end_index(s, lo, end - 1)
    } else {
        end
    }
}

/// `s` without leading and trailing whitespace (`str::trim`).
pub open spec fn trim_spec(s: Seq<char>) -> Seq<char> {
    let a = trim_start_index(s, 0);
    s.subrange(a, trim_end_index(s, a, s.len() as int))
}

/// `str::trim`.
pub fn trim(s: &str) -> (t: &str)
    ensures
        t@ == trim_spec(s@),
{
    let n = s.unicode_len();
    let mut a: usize = 0;
    while a < n && char_is_whitespace(s.get_char(a))
        invariant
            n == s@.len(),
            0 <= a <= n,
            trim_start_index(s@, 0) == trim_start_index(s@, a as int),
        decreases n - a,
    {
        a = a + 1;
    }
    assert(trim_start_index(s@, 0) == a);
    let mut b: usize = n;
    while b > a && char_is_whitespace(s.get_char(b - 1))
        invariant
            n == s@.len(),
            0 <= a <= b <= n,
            trim_end_index(s@, a as int, n as int) == trim_end_index(s@, a as int, b as int),
        decreases b - a,
    {
        b = b - 1;
    }
    s.substring_char(a, b)
}

/// `s` begins with `prefix`.
pub open spec fn has_prefix_spec(s: Seq<char>, prefix: Seq<char>) -> bool {
    prefix.len() <= s.len() && s.subrange(0, prefix.len() as int) == prefix
}

/// `str::starts_with` for a string prefix.
pub fn has_prefix(s: &str, prefix: &str) -> (r: bool)
    ensures
        r == has_prefix_spec(s@, prefix@),
{
    let n = s.unicode_len();
    let m = prefix.unicode_len();
    if m > n {
        return false;
    }
    let mut i: usize = 0;
    while i < m
        invariant
            n == s@.len(),
            m == prefix@.len(),
            m <= n,
            0 <= i <= m,
            forall|k: int| 0 <= k < i ==> s@[k] == prefix@[k],
        decreases m - i,
    {
        if s.get_char(i) != prefix.get_char(i) {
            assert(s@.subrange(0, m as int)[i as int] == s@[i as int]);
            return false;
        }
        i = i + 1;
    }
    assert(s@.subrange(0, m as int) =~= prefix@);
    true
}

/// `a` sorts strictly before `b` in `str`'s order: code point by code point,
/// a proper prefix first. (UTF-8 keeps code point order, so this is the byte
/// order that `Ord for str` compares by.)
pub open spec fn str_lt_spec(a: Seq<char>, b: Seq<char>) -> bool
    decreases a.len(),
{
    if b.len() == 0 {
        false
    } else if a.len() == 0 {
        true
    } else if a[0] != b[0] {
        a[0] < b[0]
    } else {
        str_lt_spec(a.drop_first(), b.drop_first())
    }
}

/// `a < b` on strings.
pub fn str_lt(a: &str, b: &str) -> (r: bool)
    ensures
        r == str_lt_spec(a@, b@),
{
    let na = a.unicode_len();
    let nb = b.unicode_len();
    let mut i: usize = 0;
    assert(a@.skip(0) =~= a@);
    assert(b@.skip(0) =~= b@);
    while i < na && i < nb
        invariant
            na == a@.len(),
            nb == b@.len(),
            0 <= i <= na,
            i <= nb,
            str_lt_spec(a@, b@) == str_lt_spec(a@.skip(i as int), b@.skip(i as int)),
        decreases na - i,
    {
        let ca = a.get_char(i);
        let cb = b.get_char(i);
        assert(a@.skip(i as int)[0] == ca);
        assert(b@.skip(i as int)[0] == cb);
        if ca != cb {
            return ca < cb;
        }
        assert(a@.skip(i as int).drop_first() =~= a@.skip(i + 1));
        assert(b@.skip(i as int).drop_first() =~= b@.skip(i + 1));
        i = i + 1;
    }
    i < nb
}

/// No string sorts before itself.
pub proof fn lemma_str_lt_irreflexive(a: Seq<char>)
    ensures
        !str_lt_spec(a, a),
    decreases a.len(),
{
    if a.len() > 0 {
        lemma_str_lt_irreflexive(a.drop_first());
    }
}

/// The string order is transitive.
pub proof fn lemma_str_lt_transitive(a: Seq<char>, b: Seq<char>, c: Seq<char>)
    requires
        str_lt_spec(a, b),
        str_lt_spec(b, c),
    ensures
        str_lt_spec(a, c),
    decreases a.len(),
{
    if a.len() > 0 && b.len() > 0 && c.len() > 0 && a[0] == b[0] && b[0] == c[0] {
        lemma_str_lt_transitive(a.drop_first(), b.drop_first(), c.drop_first());
    }
}

/// Of two different strings, one sorts before the other.
pub proof fn lemma_str_lt_total(a: Seq<char>, b: Seq<char>)
    requires
        a != b,
    ensures
        str_lt_spec(a, b) || str_lt_spec(b, a),
    decreases a.len(),
{
    if a.len() == 0 {
        assert(b.len() > 0) by {
            if b.len() == 0 {
                assert(a =~= b);
            }
        }
    } else if b.len() == 0 {
    } else if a[0] != b[0] {
    } else {
        assert(a.drop_first() != b.drop_first()) by {
            if a.drop_first() == b.drop_first() {
                assert(a =~= seq![a[0]] + a.drop_first());
                assert(b =~= seq![b[0]] + b.drop_first());
            }
        }
        lemma_str_lt_total(a.drop_first(), b.drop_first());
    }
}

/// The characters of `s`, in order, in one pass.
pub fn chars_of(s: &str) -> (v: Vec<char>)
    ensures
        v@ == s@,
{
    let mut v: Vec<char> = Vec::new();
    for c in it: s.chars()
        invariant
            v@ == it.seq().take(it.index() as int),
    {
        v.push(c);
    }
    v
}

} // verus!
