//! JSON text as RFC 8259 reads it, for the values that gas reports hold:
//! objects, arrays, strings and non-negative integers.

use crate::text::{
    decimal, digits_value, hex4_value, is_control, is_digit, json_escape, json_escape_all,
    json_quoted, lemma_decimal_reads_back, lemma_escape_all_front, lemma_hex_digit,
    simple_unescape, hex_char,
};
use vstd::prelude::*;

verus! {

/// A JSON value made of objects (members in order), arrays, strings and
/// non-negative integers.
pub enum Json {
    Object(Seq<(Seq<char>, Json)>),
    Array(Seq<Json>),
    Str(Seq<char>),
    Num(nat),
}

/// JSON whitespace.
pub open spec fn is_ws(c: char) -> bool {
    c == ' ' || c == '\n' || c == '\r' || c == '\t'
}

/// The text after its leading whitespace.
pub open spec fn skip_ws(t: Seq<char>) -> Seq<char>
    decreases t.len(),
{
    if t.len() > 0 && is_ws(t[0]) {
        skip_ws(t.skip(1))
    } else {
        t
    }
}

/// Every character of `t` is whitespace.
pub open spec fn all_ws(t: Seq<char>) -> bool {
    forall|i: int| 0 <= i < t.len() ==> is_ws(#[trigger] t[i])
}

/// `c` in front of the text read so far, with what follows it.
pub open spec fn prepend_pair(c: char, r: Option<(Seq<char>, Seq<char>)>) -> Option<(Seq<char>, Seq<char>)> {
    match r {
        Some((s, rest)) => Some((seq![c] + s, rest)),
        None => None,
    }
}

/// The text of a string literal whose opening quote is read, and what
/// follows its closing quote. A `\u` escape of a surrogate half is not
/// read.
pub open spec fn parse_string_body(t: Seq<char>) -> Option<(Seq<char>, Seq<char>)>
    decreases t.len(),
{
    if t.len() == 0 {
        None
    } else if t[0] == '"' {
        Some((Seq::empty(), t.skip(1)))
    } else if t[0] == '\\' {
        if t.len() >= 2 && simple_unescape(t[1]) is Some {
            prepend_pair(simple_unescape(t[1])->0, parse_string_body(t.skip(2)))
        } else if t.len() >= 6 && t[1] == 'u' {
            match hex4_value(t.subrange(2, 6)) {
                Some(v) => if 0xD800 <= v <= 0xDFFF {
                    None
                } else {
                    prepend_pair(v as char, parse_string_body(t.skip(6)))
                },
                None => None,
            }
        } else {
            None
        }
    } else if (t[0] as u32) < 0x20 {
        None
    } else {
        prepend_pair(t[0], parse_string_body(t.skip(1)))
    }
}

/// The number of decimal digits that `t` begins with.
pub open spec fn digit_run(t: Seq<char>) -> nat
    decreases t.len(),
{
    if t.len() > 0 && is_digit(t[0]) {
        1 + digit_run(t.skip(1))
    } else {
        0
    }
}

/// A non-negative integer: digits with no leading zero, and what follows
/// them.
pub open spec fn parse_number(t: Seq<char>) -> Option<(nat, Seq<char>)> {
    let k = digit_run(t);
    if k == 0 || k > t.len() || (k > 1 && t[0] == '0') {
        None
    } else {
        Some((digits_value(t.take(k as int)), t.skip(k as int)))
    }
}

/// A value after optional whitespace, and what follows it.
pub open spec fn parse_value(t: Seq<char>) -> Option<(Json, Seq<char>)>
    decreases t.len(), 0nat,
{
    let u = skip_ws(t);
    if u.len() == 0 || u.len() > t.len() {
        None
    } else if u[0] == '{' {
        parse_object(u.skip(1))
    } else if u[0] == '[' {
        parse_array(u.skip(1))
    } else if u[0] == '"' {
        match parse_string_body(u.skip(1)) {
            Some((s, rest)) => Some((Json::Str(s), rest)),
            None => None,
        }
    } else {
        match parse_number(u) {
            Some((n, rest)) => Some((Json::Num(n), rest)),
            None => None,
        }
    }
}

/// An object whose opening brace is read, and what follows it.
pub open spec fn parse_object(t: Seq<char>) -> Option<(Json, Seq<char>)>
    decreases t.len(), 2nat,
{
    let u = skip_ws(t);
    if u.len() > t.len() {
        None
    } else if u.len() > 0 && u[0] == '}' {
        Some((Json::Object(Seq::empty()), u.skip(1)))
    } else {
        parse_members(u, Seq::empty())
    }
}

/// The members of an object from the quote of the next key on, after the
/// members `acc`, up to the closing brace, and what follows it.
pub open spec fn parse_members(t: Seq<char>, acc: Seq<(Seq<char>, Json)>) -> Option<(Json, Seq<char>)>
    decreases t.len(), 1nat,
{
    if t.len() == 0 || t[0] != '"' {
        None
    } else {
        match parse_string_body(t.skip(1)) {
            None => None,
            Some((key, r1)) => {
                let r2 = skip_ws(r1);
                if r2.len() == 0 || r2[0] != ':' || r2.len() > t.len() {
                    None
                } else {
                    match parse_value(r2.skip(1)) {
                        None => None,
                        Some((v, r3)) => members_continue(r3, acc.push((key, v)), t.len()),
                    }
                }
            },
        }
    }
}

/// What follows a member's value in an object whose text from that
/// member's key on has `n` characters: a closing brace, or a comma and the
/// next members.
pub open spec fn members_continue(r3: Seq<char>, acc: Seq<(Seq<char>, Json)>, n: nat) -> Option<
    (Json, Seq<char>),
>
    decreases n, 0nat,
{
    let r4 = skip_ws(r3);
    if r4.len() == 0 || r4.len() >= n {
        None
    } else if r4[0] == '}' {
        Some((Json::Object(acc), r4.skip(1)))
    } else if r4[0] == ',' {
        let r5 = skip_ws(r4.skip(1));
        if r5.len() < n {
            parse_members(r5, acc)
        } else {
            None
        }
    } else {
        None
    }
}

/// An array whose opening bracket is read, and what follows it.
pub open spec fn parse_array(t: Seq<char>) -> Option<(Json, Seq<char>)>
    decreases t.len(), 2nat,
{
    let u = skip_ws(t);
    if u.len() > t.len() {
        None
    } else if u.len() > 0 && u[0] == ']' {
        Some((Json::Array(Seq::empty()), u.skip(1)))
    } else {
        parse_items(u, Seq::empty())
    }
}

/// The items of an array from the next one on, after the items `acc`, up
/// to the closing bracket, and what follows it.
pub open spec fn parse_items(t: Seq<char>, acc: Seq<Json>) -> Option<(Json, Seq<char>)>
    decreases t.len(), 1nat,
{
    match parse_value(t) {
        None => None,
        Some((v, r1)) => items_continue(r1, acc.push(v), t.len()),
    }
}

/// What follows an item in an array whose text from that item on has `n`
/// characters: a closing bracket, or a comma and the next items.
pub open spec fn items_continue(r1: Seq<char>, acc: Seq<Json>, n: nat) -> Option<(Json, Seq<char>)>
    decreases n, 0nat,
{
    let r2 = skip_ws(r1);
    if r2.len() == 0 || r2.len() >= n {
        None
    } else if r2[0] == ']' {
        Some((Json::Array(acc), r2.skip(1)))
    } else if r2[0] == ',' {
        let r3 = skip_ws(r2.skip(1));
        if r3.len() < n {
            parse_items(r3, acc)
        } else {
            None
        }
    } else {
        None
    }
}

/// The value that a JSON text holds, or `None` where it is not one.
pub open spec fn json_parse(t: Seq<char>) -> Option<Json> {
    match parse_value(t) {
        Some((v, rest)) => if skip_ws(rest).len() == 0 {
            Some(v)
        } else {
            None
        },
        None => None,
    }
}

/// What may follow a value in a document: a separator, a closing bracket
/// or brace, or whitespace.
pub open spec fn ends_value(more: Seq<char>) -> bool {
    more.len() > 0 && (more[0] == ',' || more[0] == '}' || more[0] == ']' || is_ws(more[0]))
}

/// `text`, followed by whatever may follow a value, reads as `v`.
#[verifier::opaque]
pub closed spec fn reads_as(text: Seq<char>, v: Json) -> bool {
    forall|more: Seq<char>| #[trigger] ends_value(more) ==> parse_value(text + more) == Some((v, more))
}

/// A value's text followed by a new line is a JSON document that holds
/// the value.
pub proof fn lemma_document(text: Seq<char>, v: Json)
    requires
        reads_as(text, v),
    ensures
        json_parse(text + seq!['\n']) == Some(v),
{
    reveal(reads_as);
    let nl = seq!['\n'];
    assert(ends_value(nl));
    assert(skip_ws(nl) == skip_ws(nl.skip(1)));
    assert(nl.skip(1) =~= Seq::<char>::empty());
}

/// The text of an object member.
pub open spec fn member_text(key: Seq<char>, vtext: Seq<char>) -> Seq<char> {
    json_quoted(key) + seq![':', ' '] + vtext
}

/// The members `keys[i]: vtexts[i]`, joined by `sep`.
pub open spec fn members_text(keys: Seq<Seq<char>>, vtexts: Seq<Seq<char>>, sep: Seq<char>) -> Seq<char>
    decreases keys.len(),
{
    if keys.len() == 0 {
        Seq::empty()
    } else if keys.len() == 1 {
        member_text(keys[0], vtexts[0])
    } else {
        member_text(keys[0], vtexts[0]) + sep + members_text(keys.skip(1), vtexts.skip(1), sep)
    }
}

/// The members that `keys` and `values` make, in order.
pub open spec fn zip_members(keys: Seq<Seq<char>>, values: Seq<Json>) -> Seq<(Seq<char>, Json)> {
    Seq::new(keys.len(), |i: int| (keys[i], values[i]))
}

/// The texts `texts`, joined by `sep`.
pub open spec fn items_text(texts: Seq<Seq<char>>, sep: Seq<char>) -> Seq<char>
    decreases texts.len(),
{
    if texts.len() == 0 {
        Seq::empty()
    } else if texts.len() == 1 {
        texts[0]
    } else {
        texts[0] + sep + items_text(texts.skip(1), sep)
    }
}

/// A separator: a comma and whitespace.
pub open spec fn separator(sep: Seq<char>) -> bool {
    sep.len() >= 1 && sep[0] == ',' && all_ws(sep.skip(1))
}

pub proof fn lemma_skip_ws_facts(t: Seq<char>)
    ensures
        skip_ws(t).len() <= t.len(),
        skip_ws(t).len() == 0 || !is_ws(skip_ws(t)[0]),
    decreases t.len(),
{
    if t.len() > 0 && is_ws(t[0]) {
        lemma_skip_ws_facts(t.skip(1));
    }
}

pub proof fn lemma_skip_ws_prefix(w: Seq<char>, s: Seq<char>)
    requires
        all_ws(w),
    ensures
        skip_ws(w + s) == skip_ws(s),
    decreases w.len(),
{
    if w.len() == 0 {
        assert(w + s =~= s);
    } else {
        assert((w + s)[0] == w[0]);
        assert(is_ws(w[0]));
        assert((w + s).skip(1) =~= w.skip(1) + s);
        assert forall|i: int| 0 <= i < w.skip(1).len() implies is_ws(#[trigger] w.skip(1)[i]) by {
            assert(w.skip(1)[i] == w[i + 1]);
        }
        lemma_skip_ws_prefix(w.skip(1), s);
    }
}

pub proof fn lemma_parse_value_ws(w: Seq<char>, s: Seq<char>)
    requires
        all_ws(w),
    ensures
        parse_value(w + s) == parse_value(s),
{
    lemma_skip_ws_prefix(w, s);
    lemma_skip_ws_facts(s);
}

proof fn lemma_parse_escape_one(c: char, more: Seq<char>)
    ensures
        parse_string_body(json_escape(c) + more) == prepend_pair(c, parse_string_body(more)),
{
    let t = json_escape(c) + more;
    if c == '"' || c == '\\' || c == '\n' || c == '\r' || c == '\t' {
        assert(t.skip(2) =~= more);
    } else if is_control(c) {
        let v = c as u32 as nat;
        assert(v < 256);
        lemma_hex_digit((v / 4096) % 16);
        lemma_hex_digit((v / 256) % 16);
        lemma_hex_digit((v / 16) % 16);
        lemma_hex_digit(v % 16);
        assert(t.subrange(2, 6) =~= seq![
            hex_char((v / 4096) % 16),
            hex_char((v / 256) % 16),
            hex_char((v / 16) % 16),
            hex_char(v % 16),
        ]);
        assert(hex4_value(t.subrange(2, 6)) == Some(v));
        assert(t.skip(6) =~= more);
        assert(v as char == c);
    } else {
        assert(t.skip(1) =~= more);
    }
}

/// An escaped text followed by a quote reads back as the text, and what
/// follows the quote is left.
#[verifier::spinoff_prover]
#[verifier::rlimit(40)]
pub proof fn lemma_parse_escaped(s: Seq<char>, rest: Seq<char>)
    ensures
        parse_string_body(json_escape_all(s) + seq!['"'] + rest) == Some((s, rest)),
    decreases s.len(),
{
    if s.len() == 0 {
        assert(json_escape_all(s) =~= Seq::<char>::empty());
        assert(json_escape_all(s) + seq!['"'] + rest =~= seq!['"'] + rest);
        assert((seq!['"'] + rest).skip(1) =~= rest);
    } else {
        lemma_escape_all_front(s);
        let tail = json_escape_all(s.skip(1)) + seq!['"'] + rest;
        assert(json_escape_all(s) + seq!['"'] + rest =~= json_escape(s[0]) + tail);
        lemma_parse_escape_one(s[0], tail);
        lemma_parse_escaped(s.skip(1), rest);
        assert(seq![s[0]] + s.skip(1) =~= s);
    }
}

proof fn lemma_digit_run(d: Seq<char>, rest: Seq<char>)
    requires
        forall|i: int| 0 <= i < d.len() ==> is_digit(#[trigger] d[i]),
        rest.len() == 0 || !is_digit(rest[0]),
    ensures
        digit_run(d + rest) == d.len(),
    decreases d.len(),
{
    if d.len() == 0 {
        assert(d + rest =~= rest);
    } else {
        assert((d + rest)[0] == d[0]);
        assert((d + rest).skip(1) =~= d.skip(1) + rest);
        assert forall|i: int| 0 <= i < d.skip(1).len() implies is_digit(#[trigger] d.skip(1)[i]) by {
            assert(d.skip(1)[i] == d[i + 1]);
        }
        lemma_digit_run(d.skip(1), rest);
    }
}

/// The decimal digits of `n`, followed by anything but a digit, read back
/// as `n`.
pub proof fn lemma_parse_decimal(n: nat, rest: Seq<char>)
    requires
        rest.len() == 0 || !is_digit(rest[0]),
    ensures
        parse_number(decimal(n) + rest) == Some((n, rest)),
{
    lemma_decimal_reads_back(n);
    let d = decimal(n);
    lemma_digit_run(d, rest);
    assert((d + rest).take(d.len() as int) =~= d);
    assert((d + rest).skip(d.len() as int) =~= rest);
    assert((d + rest)[0] == d[0]);
}

/// A string literal reads as its text.
pub proof fn lemma_reads_string(s: Seq<char>)
    ensures
        reads_as(json_quoted(s), Json::Str(s)),
{
    reveal(reads_as);
    assert forall|more: Seq<char>| #[trigger] ends_value(more) implies parse_value(json_quoted(s) + more) == Some(
        (Json::Str(s), more),
    ) by {
        let t = json_quoted(s) + more;
        assert(t[0] == '"');
        assert(skip_ws(t) == t);
        assert(t.skip(1) =~= json_escape_all(s) + seq!['"'] + more);
        lemma_parse_escaped(s, more);
    }
}

/// The literal that `json_string` writes is a JSON document that holds the
/// text it was made from.
pub proof fn lemma_json_string_reads_back(s: Seq<char>)
    ensures
        json_parse(json_quoted(s)) == Some(Json::Str(s)),
{
    let t = json_quoted(s);
    assert(t[0] == '"');
    assert(skip_ws(t) == t);
    assert(t.skip(1) =~= json_escape_all(s) + seq!['"'] + Seq::<char>::empty());
    lemma_parse_escaped(s, Seq::<char>::empty());
    assert(skip_ws(Seq::<char>::empty()) == Seq::<char>::empty());
}

/// The decimal digits of a number read as the number.
pub proof fn lemma_reads_number(n: nat)
    ensures
        reads_as(decimal(n), Json::Num(n)),
{
    reveal(reads_as);
    lemma_decimal_reads_back(n);
    assert forall|more: Seq<char>| #[trigger] ends_value(more) implies parse_value(decimal(n) + more) == Some(
        (Json::Num(n), more),
    ) by {
        let t = decimal(n) + more;
        assert(t[0] == decimal(n)[0]);
        assert(is_digit(decimal(n)[0]));
        assert(skip_ws(t) == t);
        assert(!is_digit(more[0]));
        lemma_parse_decimal(n, more);
    }
}

proof fn lemma_members_start(keys: Seq<Seq<char>>, vtexts: Seq<Seq<char>>, sep: Seq<char>)
    requires
        keys.len() >= 1,
    ensures
        members_text(keys, vtexts, sep).len() >= 1,
        members_text(keys, vtexts, sep)[0] == '"',
{
    let m = member_text(keys[0], vtexts[0]);
    assert(m[0] == '"');
    if keys.len() > 1 {
        assert(members_text(keys, vtexts, sep) == m + sep + members_text(keys.skip(1), vtexts.skip(1), sep));
        assert((m + sep + members_text(keys.skip(1), vtexts.skip(1), sep))[0] == m[0]);
    }
}

#[verifier::spinoff_prover]
#[verifier::rlimit(40)]
proof fn lemma_members_first(k0: Seq<char>, v0: Seq<char>, val: Json, x: Seq<char>, acc: Seq<(Seq<char>, Json)>)
    requires
        reads_as(v0, val),
        ends_value(x),
    ensures
        parse_members(member_text(k0, v0) + x, acc) == members_continue(
            x,
            acc.push((k0, val)),
            (member_text(k0, v0) + x).len(),
        ),
{
    reveal(reads_as);
    let t = member_text(k0, v0) + x;
    let r1 = seq![':', ' '] + v0 + x;
    assert(t =~= seq!['"'] + json_escape_all(k0) + seq!['"'] + r1);
    assert(t[0] == '"');
    assert(t.skip(1) =~= json_escape_all(k0) + seq!['"'] + r1);
    lemma_parse_escaped(k0, r1);
    assert(skip_ws(r1) == r1);
    assert(r1.skip(1) =~= seq![' '] + (v0 + x));
    assert(all_ws(seq![' ']));
    lemma_parse_value_ws(seq![' '], v0 + x);
}

/// Object members, then whitespace and a closing brace, read as the
/// members after those already read.
#[verifier::spinoff_prover]
#[verifier::rlimit(40)]
pub proof fn lemma_members(
    keys: Seq<Seq<char>>,
    vtexts: Seq<Seq<char>>,
    values: Seq<Json>,
    sep: Seq<char>,
    close_ws: Seq<char>,
    tail: Seq<char>,
    acc: Seq<(Seq<char>, Json)>,
)
    requires
        keys.len() >= 1,
        vtexts.len() == keys.len(),
        values.len() == keys.len(),
        forall|i: int| 0 <= i < keys.len() ==> reads_as(#[trigger] vtexts[i], values[i]),
        separator(sep),
        all_ws(close_ws),
    ensures
        parse_members(members_text(keys, vtexts, sep) + close_ws + seq!['}'] + tail, acc) == Some(
            (Json::Object(acc + zip_members(keys, values)), tail),
        ),
    decreases keys.len(),
{
    let k0 = keys[0];
    let v0 = vtexts[0];
    let m0 = member_text(k0, v0);
    let acc2 = acc.push((k0, values[0]));
    assert(reads_as(vtexts[0], values[0]));
    if keys.len() == 1 {
        let x = close_ws + seq!['}'] + tail;
        assert(members_text(keys, vtexts, sep) + close_ws + seq!['}'] + tail =~= m0 + x);
        assert(ends_value(x)) by {
            if close_ws.len() > 0 {
                assert(x[0] == close_ws[0]);
            } else {
                assert(x[0] == '}');
            }
        }
        lemma_members_first(k0, v0, values[0], x, acc);
        lemma_skip_ws_prefix(close_ws, seq!['}'] + tail);
        assert(x =~= close_ws + (seq!['}'] + tail));
        assert(skip_ws(seq!['}'] + tail) == seq!['}'] + tail);
        assert(skip_ws(x) == seq!['}'] + tail);
        assert((seq!['}'] + tail).skip(1) =~= tail);
        assert(members_continue(x, acc2, (m0 + x).len()) == Some((Json::Object(acc2), tail)));
        assert(acc2 =~= acc + zip_members(keys, values));
    } else {
        let rest_text = members_text(keys.skip(1), vtexts.skip(1), sep) + close_ws + seq!['}'] + tail;
        let x = sep + rest_text;
        assert(members_text(keys, vtexts, sep) + close_ws + seq!['}'] + tail =~= m0 + x);
        assert(x[0] == ',');
        assert(ends_value(x));
        lemma_members_first(k0, v0, values[0], x, acc);
        assert(skip_ws(x) == x);
        assert(x.skip(1) =~= sep.skip(1) + rest_text);
        lemma_skip_ws_prefix(sep.skip(1), rest_text);
        lemma_members_start(keys.skip(1), vtexts.skip(1), sep);
        assert(rest_text[0] == '"');
        assert(skip_ws(rest_text) == rest_text);
        assert forall|i: int| 0 <= i < keys.skip(1).len() implies reads_as(
            #[trigger] vtexts.skip(1)[i],
            values.skip(1)[i],
        ) by {
            assert(vtexts.skip(1)[i] == vtexts[i + 1]);
            assert(values.skip(1)[i] == values[i + 1]);
        }
        assert(skip_ws(x.skip(1)) == rest_text);
        assert(members_continue(x, acc2, (m0 + x).len()) == parse_members(rest_text, acc2));
        lemma_members(keys.skip(1), vtexts.skip(1), values.skip(1), sep, close_ws, tail, acc2);
        assert(acc2 + zip_members(keys.skip(1), values.skip(1)) =~= acc + zip_members(keys, values));
    }
}

/// An object with at least one member reads as its members.
#[verifier::spinoff_prover]
#[verifier::rlimit(40)]
pub proof fn lemma_reads_object(
    open_ws: Seq<char>,
    keys: Seq<Seq<char>>,
    vtexts: Seq<Seq<char>>,
    values: Seq<Json>,
    sep: Seq<char>,
    close_ws: Seq<char>,
)
    requires
        keys.len() >= 1,
        vtexts.len() == keys.len(),
        values.len() == keys.len(),
        forall|i: int| 0 <= i < keys.len() ==> reads_as(#[trigger] vtexts[i], values[i]),
        separator(sep),
        all_ws(open_ws),
        all_ws(close_ws),
    ensures
        reads_as(
            seq!['{'] + open_ws + members_text(keys, vtexts, sep) + close_ws + seq!['}'],
            Json::Object(zip_members(keys, values)),
        ),
{
    reveal(reads_as);
    let text = seq!['{'] + open_ws + members_text(keys, vtexts, sep) + close_ws + seq!['}'];
    assert forall|more: Seq<char>| #[trigger] ends_value(more) implies parse_value(text + more) == Some(
        (Json::Object(zip_members(keys, values)), more),
    ) by {
        let t = text + more;
        let inner = members_text(keys, vtexts, sep) + close_ws + seq!['}'] + more;
        assert(t[0] == '{');
        assert(skip_ws(t) == t);
        assert(t.skip(1) =~= open_ws + inner);
        lemma_skip_ws_prefix(open_ws, inner);
        lemma_members_start(keys, vtexts, sep);
        assert(inner[0] == '"');
        assert(skip_ws(inner) == inner);
        lemma_members(keys, vtexts, values, sep, close_ws, more, Seq::empty());
        assert(Seq::<(Seq<char>, Json)>::empty() + zip_members(keys, values) =~= zip_members(keys, values));
    }
}

#[verifier::spinoff_prover]
#[verifier::rlimit(40)]
proof fn lemma_items_first(t0: Seq<char>, v0: Json, x: Seq<char>, acc: Seq<Json>)
    requires
        reads_as(t0, v0),
        ends_value(x),
    ensures
        parse_items(t0 + x, acc) == items_continue(x, acc.push(v0), (t0 + x).len()),
{
    reveal(reads_as);
    assert(parse_value(t0 + x) == Some((v0, x)));
}

#[verifier::spinoff_prover]
#[verifier::rlimit(40)]
proof fn lemma_items(
    texts: Seq<Seq<char>>,
    values: Seq<Json>,
    sep: Seq<char>,
    close_ws: Seq<char>,
    tail: Seq<char>,
    acc: Seq<Json>,
)
    requires
        texts.len() >= 1,
        values.len() == texts.len(),
        forall|i: int| 0 <= i < texts.len() ==> reads_as(#[trigger] texts[i], values[i]),
        forall|i: int| 0 <= i < texts.len() ==> (#[trigger] texts[i]).len() > 0 && !is_ws(texts[i][0]),
        separator(sep),
        all_ws(close_ws),
    ensures
        parse_items(items_text(texts, sep) + close_ws + seq![']'] + tail, acc) == Some(
            (Json::Array(acc + values), tail),
        ),
    decreases texts.len(),
{
    let t0 = texts[0];
    let acc2 = acc.push(values[0]);
    assert(reads_as(texts[0], values[0]));
    assert(texts[0].len() > 0);
    if texts.len() == 1 {
        let x = close_ws + seq![']'] + tail;
        assert(items_text(texts, sep) + close_ws + seq![']'] + tail =~= t0 + x);
        assert(ends_value(x)) by {
            if close_ws.len() > 0 {
                assert(x[0] == close_ws[0]);
            } else {
                assert(x[0] == ']');
            }
        }
        lemma_items_first(t0, values[0], x, acc);
        lemma_skip_ws_prefix(close_ws, seq![']'] + tail);
        assert(x =~= close_ws + (seq![']'] + tail));
        assert(skip_ws(seq![']'] + tail) == seq![']'] + tail);
        assert(skip_ws(x) == seq![']'] + tail);
        assert((seq![']'] + tail).skip(1) =~= tail);
        assert(items_continue(x, acc2, (t0 + x).len()) == Some((Json::Array(acc2), tail)));
        assert(acc2 =~= acc + values);
    } else {
        let rest_text = items_text(texts.skip(1), sep) + close_ws + seq![']'] + tail;
        let x = sep + rest_text;
        assert(items_text(texts, sep) + close_ws + seq![']'] + tail =~= t0 + x);
        assert(x[0] == ',');
        assert(ends_value(x));
        lemma_items_first(t0, values[0], x, acc);
        assert(skip_ws(x) == x);
        assert(x.skip(1) =~= sep.skip(1) + rest_text);
        lemma_skip_ws_prefix(sep.skip(1), rest_text);
        assert(texts.skip(1)[0] == texts[1]);
        assert(texts[1].len() > 0 && !is_ws(texts[1][0]));
        if texts.len() > 2 {
            assert(items_text(texts.skip(1), sep) == texts.skip(1)[0] + sep + items_text(texts.skip(1).skip(1), sep));
        }
        assert(rest_text[0] == texts[1][0]);
        assert(skip_ws(rest_text) == rest_text);
        assert forall|i: int| 0 <= i < texts.skip(1).len() implies reads_as(#[trigger] texts.skip(1)[i], values.skip(1)[i])
            by {
            assert(texts.skip(1)[i] == texts[i + 1]);
            assert(values.skip(1)[i] == values[i + 1]);
        }
        assert forall|i: int| 0 <= i < texts.skip(1).len() implies (#[trigger] texts.skip(1)[i]).len() > 0 && !is_ws(
            texts.skip(1)[i][0],
        ) by {
            assert(texts.skip(1)[i] == texts[i + 1]);
        }
        assert(skip_ws(x.skip(1)) == rest_text);
        assert(items_continue(x, acc2, (t0 + x).len()) == parse_items(rest_text, acc2));
        lemma_items(texts.skip(1), values.skip(1), sep, close_ws, tail, acc2);
        assert(acc2 + values.skip(1) =~= acc + values);
    }
}

/// An array with at least one item, each a text that starts with no
/// whitespace, reads as its items.
#[verifier::spinoff_prover]
#[verifier::rlimit(40)]
pub proof fn lemma_reads_array(
    open_ws: Seq<char>,
    texts: Seq<Seq<char>>,
    values: Seq<Json>,
    sep: Seq<char>,
    close_ws: Seq<char>,
)
    requires
        texts.len() >= 1,
        values.len() == texts.len(),
        forall|i: int| 0 <= i < texts.len() ==> reads_as(#[trigger] texts[i], values[i]),
        forall|i: int| 0 <= i < texts.len() ==> (#[trigger] texts[i]).len() > 0 && !is_ws(texts[i][0]),
        separator(sep),
        all_ws(open_ws),
        all_ws(close_ws),
    ensures
        reads_as(seq!['['] + open_ws + items_text(texts, sep) + close_ws + seq![']'], Json::Array(values)),
{
    reveal(reads_as);
    let text = seq!['['] + open_ws + items_text(texts, sep) + close_ws + seq![']'];
    assert forall|more: Seq<char>| #[trigger] ends_value(more) implies parse_value(text + more) == Some(
        (Json::Array(values), more),
    ) by {
        let t = text + more;
        let inner = items_text(texts, sep) + close_ws + seq![']'] + more;
        assert(t[0] == '[');
        assert(skip_ws(t) == t);
        assert(t.skip(1) =~= open_ws + inner);
        lemma_skip_ws_prefix(open_ws, inner);
        if texts.len() > 1 {
            assert(items_text(texts, sep) == texts[0] + sep + items_text(texts.skip(1), sep));
        }
        assert(inner[0] == texts[0][0]);
        assert(texts[0].len() > 0 && !is_ws(texts[0][0]));
        assert(skip_ws(inner) == inner);
        assert(inner[0] != ']');
        lemma_items(texts, values, sep, close_ws, more, Seq::empty());
        assert(Seq::<Json>::empty() + values =~= values);
    }
}

/// An empty array reads as no items.
pub proof fn lemma_reads_empty_array(inner_ws: Seq<char>)
    requires
        all_ws(inner_ws),
    ensures
        reads_as(seq!['['] + inner_ws + seq![']'], Json::Array(Seq::empty())),
{
    reveal(reads_as);
    let text = seq!['['] + inner_ws + seq![']'];
    assert forall|more: Seq<char>| #[trigger] ends_value(more) implies parse_value(text + more) == Some(
        (Json::Array(Seq::empty()), more),
    ) by {
        let t = text + more;
        assert(t[0] == '[');
        assert(skip_ws(t) == t);
        assert(t.skip(1) =~= inner_ws + (seq![']'] + more));
        lemma_skip_ws_prefix(inner_ws, seq![']'] + more);
        assert(skip_ws(seq![']'] + more) == seq![']'] + more);
        assert((seq![']'] + more).skip(1) =~= more);
    }
}

} // verus!
