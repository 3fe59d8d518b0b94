//! Text output: decimal numbers and JSON string literals.

use vstd::prelude::*;

verus! {

/// Appends a character to a string.
///
/// Trusted: calls `String::push` of std, which appends the character at the
/// end of the string.
#[verifier::external_body]
pub(crate) fn push_char(s: &mut String, c: char)
    ensures
        final(s)@ == old(s)@.push(c),
{
    s.push(c);
}

/// The ASCII digit for `d`, where `d` is below ten.
pub open spec fn digit_char(d: nat) -> char {
    (48 + d) as char
}

/// The decimal digits of `n`, without leading zeros.
pub open spec fn decimal(n: nat) -> Seq<char>
    decreases n,
{
    if n < 10 {
        seq![digit_char(n)]
    } else {
        decimal(n / 10).push(digit_char(n % 10))
    }
}

/// Appends the decimal digits of `n`.
pub fn push_decimal(s: &mut String, n: u64)
    ensures
        final(s)@ == old(s)@ + decimal(n as nat),
    decreases n,
{
    if n >= 10 {
        push_decimal(s, n / 10);
    }
    let d: u8 = (n % 10) as u8;
    push_char(s, (48u8 + d) as char);
    proof {
        assert((48u8 + d) as char == digit_char((n % 10) as nat));
    }
}

/// The lower-case hexadecimal digit for `d`, where `d` is below sixteen.
pub open spec fn hex_char(d: nat) -> char {
    if d < 10 {
        (48 + d) as char
    } else {
        (87 + d) as char
    }
}

/// A control character: Unicode general category Cc.
pub open spec fn is_control(c: char) -> bool {
    (c as u32) < 0x20 || (0x7f <= (c as u32) && (c as u32) <= 0x9f)
}

/// How a character stands inside a JSON string literal.
pub open spec fn json_escape(c: char) -> Seq<char> {
    if c == '"' {
        seq!['\\', '"']
    } else if c == '\\' {
        seq!['\\', '\\']
    } else if c == '\n' {
        seq!['\\', 'n']
    } else if c == '\r' {
        seq!['\\', 'r']
    } else if c == '\t' {
        seq!['\\', 't']
    } else if is_control(c) {
        let v = c as u32 as nat;
        seq![
            '\\',
            'u',
            hex_char((v / 4096) % 16),
            hex_char((v / 256) % 16),
            hex_char((v / 16) % 16),
            hex_char(v % 16),
        ]
    } else {
        seq![c]
    }
}

/// The escaped characters of a string, one after the other.
pub open spec fn json_escape_all(s: Seq<char>) -> Seq<char>
    decreases s.len(),
{
    if s.len() == 0 {
        Seq::empty()
    } else {
        json_escape_all(s.drop_last()) + json_escape(s.last())
    }
}

/// The JSON string literal that holds `s`.
pub open spec fn json_quoted(s: Seq<char>) -> Seq<char> {
    seq!['"'] + json_escape_all(s) + seq!['"']
}

fn push_hex(s: &mut String, d: u32)
    requires
        d < 16,
    ensures
        final(s)@ == old(s)@.push(hex_char(d as nat)),
{
    if d < 10 {
        push_char(s, (48u8 + d as u8) as char);
    } else {
        push_char(s, (87u8 + d as u8) as char);
    }
}

fn push_escaped(s: &mut String, c: char)
    ensures
        final(s)@ == old(s)@ + json_escape(c),
{
    let ghost start = s@;
    if c == '"' {
        push_char(s, '\\');
        push_char(s, '"');
    } else if c == '\\' {
        push_char(s, '\\');
        push_char(s, '\\');
    } else if c == '\n' {
        push_char(s, '\\');
        push_char(s, 'n');
    } else if c == '\r' {
        push_char(s, '\\');
        push_char(s, 'r');
    } else if c == '\t' {
        push_char(s, '\\');
        push_char(s, 't');
    } else {
        let v: u32 = c as u32;
        if v < 0x20 || (0x7f <= v && v <= 0x9f) {
            push_char(s, '\\');
            push_char(s, 'u');
            push_hex(s, (v / 4096) % 16);
            push_hex(s, (v / 256) % 16);
            push_hex(s, (v / 16) % 16);
            push_hex(s, v % 16);
        } else {
            push_char(s, c);
        }
    }
    assert(s@ =~= start + json_escape(c));
}

/// The JSON string literal that holds `input`, with quotes, backslashes and
/// control characters escaped.
pub fn json_string(input: &str) -> (out: String)
    ensures
        out@ == json_quoted(input@),
{
    let mut out = String::new();
    push_char(&mut out, '"');
    let n = input.unicode_len();
    let mut i: usize = 0;
    while i < n
        invariant
            n == input@.len(),
            i <= n,
            out@ == seq!['"'] + json_escape_all(input@.take(i as int)),
        decreases n - i,
    {
        let c = input.get_char(i);
        push_escaped(&mut out, c);
        proof {
            assert(input@.take(i + 1).drop_last() == input@.take(i as int));
            assert(input@.take(i + 1).last() == c);
        }
        i = i + 1;
    }
    assert(input@.take(n as int) == input@);
    push_char(&mut out, '"');
    out
}

/// The value of a hexadecimal digit, in either case.
pub open spec fn hex_value(c: char) -> Option<nat> {
    let v = c as u32;
    if 48 <= v <= 57 {
        Some((v - 48) as nat)
    } else if 97 <= v <= 102 {
        Some((v - 87) as nat)
    } else if 65 <= v <= 70 {
        Some((v - 55) as nat)
    } else {
        None
    }
}

/// The value of four hexadecimal digits, most significant first.
pub open spec fn hex4_value(t: Seq<char>) -> Option<nat> {
    match (hex_value(t[0]), hex_value(t[1]), hex_value(t[2]), hex_value(t[3])) {
        (Some(a), Some(b), Some(c), Some(d)) => Some(4096 * a + 256 * b + 16 * c + d),
        _ => None,
    }
}

/// The character that a two-character escape `\x` of JSON stands for.
pub open spec fn simple_unescape(x: char) -> Option<char> {
    if x == '"' {
        Some('"')
    } else if x == '\\' {
        Some('\\')
    } else if x == '/' {
        Some('/')
    } else if x == 'b' {
        Some('\u{8}')
    } else if x == 'f' {
        Some('\u{c}')
    } else if x == 'n' {
        Some('\n')
    } else if x == 'r' {
        Some('\r')
    } else if x == 't' {
        Some('\t')
    } else {
        None
    }
}

/// A hexadecimal digit reads back as its value.
pub proof fn lemma_hex_digit(d: nat)
    requires
        d < 16,
    ensures
        hex_value(hex_char(d)) == Some(d),
{
}

/// The escaping of a text is that of its first character followed by that
/// of the rest.
#[verifier::spinoff_prover]
#[verifier::rlimit(40)]
pub proof fn lemma_escape_all_front(s: Seq<char>)
    requires
        s.len() > 0,
    ensures
        json_escape_all(s) == json_escape(s[0]) + json_escape_all(s.skip(1)),
    decreases s.len(),
{
    if s.len() == 1 {
        assert(s.drop_last() =~= Seq::<char>::empty());
        assert(s.skip(1) =~= Seq::<char>::empty());
        assert(json_escape_all(s.drop_last()) == Seq::<char>::empty());
        assert(json_escape_all(s.skip(1)) == Seq::<char>::empty());
        assert(s.last() == s[0]);
        assert(json_escape_all(s) == json_escape_all(s.drop_last()) + json_escape(s.last()));
        assert(json_escape_all(s) =~= json_escape(s[0]) + json_escape_all(s.skip(1)));
    } else {
        let d = s.drop_last();
        lemma_escape_all_front(d);
        assert(d.skip(1) =~= s.skip(1).drop_last());
        assert(s.skip(1).last() == s.last());
        assert(json_escape_all(s.skip(1)) == json_escape_all(s.skip(1).drop_last()) + json_escape(s.skip(1).last()));
        assert(json_escape_all(s) =~= json_escape(s[0]) + json_escape_all(s.skip(1)));
    }
}

/// The number that a sequence of decimal digits stands for, most
/// significant first.
pub open spec fn digits_value(ds: Seq<char>) -> nat
    decreases ds.len(),
{
    if ds.len() == 0 {
        0
    } else {
        digits_value(ds.drop_last()) * 10 + (ds.last() as u32 - 48) as nat
    }
}

/// Whether `c` is an ASCII decimal digit.
pub open spec fn is_digit(c: char) -> bool {
    48 <= c as u32 <= 57
}

/// The digits that `push_decimal` writes are a JSON number (RFC 8259): one
/// or more decimal digits with no leading zero, and they read back as the
/// number they were made from.
#[verifier::spinoff_prover]
#[verifier::rlimit(40)]
pub proof fn lemma_decimal_reads_back(n: nat)
    ensures
        decimal(n).len() >= 1,
        n >= 10 ==> decimal(n).len() > 1,
        forall|i: int| 0 <= i < decimal(n).len() ==> is_digit(#[trigger] decimal(n)[i]),
        decimal(n).len() > 1 ==> decimal(n)[0] != '0',
        digits_value(decimal(n)) == n,
    decreases n,
{
    if n < 10 {
        assert(decimal(n) == seq![digit_char(n)]);
        assert(decimal(n).drop_last() =~= Seq::<char>::empty());
        assert(digit_char(n) as u32 == 48 + n);
        assert(digits_value(decimal(n)) == digits_value(decimal(n).drop_last()) * 10 + (decimal(n).last() as u32 - 48) as nat);
    } else {
        lemma_decimal_reads_back(n / 10);
        let d = decimal(n);
        assert(d == decimal(n / 10).push(digit_char(n % 10)));
        assert(d.drop_last() =~= decimal(n / 10));
        assert forall|i: int| 0 <= i < d.len() implies is_digit(#[trigger] d[i]) by {
            if i < d.len() - 1 {
                assert(d[i] == decimal(n / 10)[i]);
            }
        }
        if decimal(n / 10).len() == 1 {
            let m = n / 10;
            assert(m >= 1 && m < 10);
            assert(decimal(m) == seq![digit_char(m)]);
            assert(decimal(m)[0] == digit_char(m));
            assert(digit_char(m) as u32 == 48 + m);
        }
        assert(d[0] == decimal(n / 10)[0]);
        assert(d.last() == digit_char(n % 10));
        assert(digit_char(n % 10) as u32 == 48 + n % 10);
        assert(digits_value(d) == digits_value(d.drop_last()) * 10 + (d.last() as u32 - 48) as nat);
        assert((n / 10) * 10 + n % 10 == n);
    }
}

} // verus!
