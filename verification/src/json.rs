use vstd::prelude::*;
use vstd::string::*;
use crate::decimal::{dec_int, i64_to_dec};

verus! {

broadcast use vstd::std_specs::vec::group_vec_axioms, vstd::seq::group_seq_axioms;

/// Relies on std's String::push: appends exactly the one character.
#[verifier::external_body]
fn push_char(out: &mut String, c: char)
    ensures
        final(out)@ == old(out)@ + seq![c],
{
    out.push(c)
}

/// The character for one hexadecimal digit value, lower case.
pub open spec fn hex_digit_char(d: nat) -> char {
    if d == 0 {
        '0'
    } else if d == 1 {
        '1'
    } else if d == 2 {
        '2'
    } else if d == 3 {
        '3'
    } else if d == 4 {
        '4'
    } else if d == 5 {
        '5'
    } else if d == 6 {
        '6'
    } else if d == 7 {
        '7'
    } else if d == 8 {
        '8'
    } else if d == 9 {
        '9'
    } else if d == 10 {
        'a'
    } else if d == 11 {
        'b'
    } else if d == 12 {
        'c'
    } else if d == 13 {
        'd'
    } else if d == 14 {
        'e'
    } else {
        'f'
    }
}

/// How one character appears inside a JSON string literal: quote and
/// backslash are escaped, control characters get their short escape or a
/// \u00XX form, and everything else stands as itself.
pub open spec fn escape_char(c: char) -> Seq<char> {
    if c == '"' {
        seq!['\\', '"']
    } else if c == '\\' {
        seq!['\\', '\\']
    } else if c == '\u{8}' {
        seq!['\\', 'b']
    } else if c == '\t' {
        seq!['\\', 't']
    } else if c == '\n' {
        seq!['\\', 'n']
    } else if c == '\u{c}' {
        seq!['\\', 'f']
    } else if c == '\r' {
        seq!['\\', 'r']
    } else if (c as u32) < 32 {
        seq!['\\', 'u', '0', '0', hex_digit_char(((c as u32) / 16) as nat), hex_digit_char(
            ((c as u32) % 16) as nat,
        )]
    } else {
        seq![c]
    }
}

/// A whole character sequence, escaped for a JSON string literal.
pub open spec fn escape_seq(s: Seq<char>) -> Seq<char>
    decreases s.len(),
{
    if s.len() == 0 {
        Seq::<char>::empty()
    } else {
        escape_seq(s.drop_last()) + escape_char(s.last())
    }
}

/// A JSON string literal: the escaped characters between double quotes.
pub open spec fn json_string(s: Seq<char>) -> Seq<char> {
    seq!['"'] + escape_seq(s) + seq!['"']
}

fn hex_str(d: u32) -> (r: &'static str)
    requires
        d < 16,
    ensures
        r@ =~= seq![hex_digit_char(d as nat)],
{
    proof {
        reveal_strlit("0");
        reveal_strlit("1");
        reveal_strlit("2");
        reveal_strlit("3");
        reveal_strlit("4");
        reveal_strlit("5");
        reveal_strlit("6");
        reveal_strlit("7");
        reveal_strlit("8");
        reveal_strlit("9");
        reveal_strlit("a");
        reveal_strlit("b");
        reveal_strlit("c");
        reveal_strlit("d");
        reveal_strlit("e");
        reveal_strlit("f");
    }
    if d == 0 {
        "0"
    } else if d == 1 {
        "1"
    } else if d == 2 {
        "2"
    } else if d == 3 {
        "3"
    } else if d == 4 {
        "4"
    } else if d == 5 {
        "5"
    } else if d == 6 {
        "6"
    } else if d == 7 {
        "7"
    } else if d == 8 {
        "8"
    } else if d == 9 {
        "9"
    } else if d == 10 {
        "a"
    } else if d == 11 {
        "b"
    } else if d == 12 {
        "c"
    } else if d == 13 {
        "d"
    } else if d == 14 {
        "e"
    } else {
        "f"
    }
}

fn write_escaped_char(out: &mut String, c: char)
    ensures
        final(out)@ == old(out)@ + escape_char(c),
{
    proof {
        reveal_strlit("\\\"");
        reveal_strlit("\\\\");
        reveal_strlit("\\b");
        reveal_strlit("\\t");
        reveal_strlit("\\n");
        reveal_strlit("\\f");
        reveal_strlit("\\r");
        reveal_strlit("\\u00");
    }
    if c == '"' {
        out.append("\\\"");
        assert(final(out)@ =~= old(out)@ + escape_char(c));
    } else if c == '\\' {
        out.append("\\\\");
        assert(final(out)@ =~= old(out)@ + escape_char(c));
    } else if c == '\u{8}' {
        out.append("\\b");
        assert(final(out)@ =~= old(out)@ + escape_char(c));
    } else if c == '\t' {
        out.append("\\t");
        assert(final(out)@ =~= old(out)@ + escape_char(c));
    } else if c == '\n' {
        out.append("\\n");
        assert(final(out)@ =~= old(out)@ + escape_char(c));
    } else if c == '\u{c}' {
        out.append("\\f");
        assert(final(out)@ =~= old(out)@ + escape_char(c));
    } else if c == '\r' {
        out.append("\\r");
        assert(final(out)@ =~= old(out)@ + escape_char(c));
    } else if (c as u32) < 32 {
        let code: u32 = c as u32;
        out.append("\\u00");
        out.append(hex_str(code / 16));
        out.append(hex_str(code % 16));
        assert(final(out)@ =~= old(out)@ + escape_char(c));
    } else {
        push_char(out, c);
        assert(final(out)@ =~= old(out)@ + escape_char(c));
    }
}

/// Appends `s` to `out` as a JSON string literal, quotes and escapes
/// included.
pub fn write_json_string(out: &mut String, s: &str)
    ensures
        final(out)@ == old(out)@ + json_string(s@),
{
    proof {
        reveal_strlit("\"");
    }
    out.append("\"");
    let n = s.unicode_len();
    let mut i: usize = 0;
    while i < n
        invariant
            n == s@.len(),
            0 <= i <= n,
            out@ == old(out)@ + seq!['"'] + escape_seq(s@.subrange(0, i as int)),
        decreases n - i,
    {
        let c = s.get_char(i);
        write_escaped_char(out, c);
        proof {
            let pre = s@.subrange(0, i as int);
            let post = s@.subrange(0, i + 1 as int);
            assert(post.drop_last() =~= pre);
            assert(post.last() == s@[i as int]);
            assert(out@ =~= old(out)@ + seq!['"'] + escape_seq(post));
        }
        i = i + 1;
    }
    proof {
        assert(s@.subrange(0, s@.len() as int) =~= s@);
    }
    out.append("\"");
    proof {
        assert(final(out)@ =~= old(out)@ + json_string(s@));
    }
}

/// The character a short escape stands for.
pub open spec fn short_escape_char(c: char) -> char {
    if c == '"' {
        '"'
    } else if c == '\\' {
        '\\'
    } else if c == 'b' {
        '\u{8}'
    } else if c == 't' {
        '\t'
    } else if c == 'n' {
        '\n'
    } else if c == 'f' {
        '\u{c}'
    } else {
        '\r'
    }
}

pub open spec fn is_short_escape(c: char) -> bool {
    c == '"' || c == '\\' || c == 'b' || c == 't' || c == 'n' || c == 'f' || c == 'r'
}

/// The value of one lower-case hexadecimal digit character.
pub open spec fn hex_val(c: char) -> nat {
    if c == '0' {
        0
    } else if c == '1' {
        1
    } else if c == '2' {
        2
    } else if c == '3' {
        3
    } else if c == '4' {
        4
    } else if c == '5' {
        5
    } else if c == '6' {
        6
    } else if c == '7' {
        7
    } else if c == '8' {
        8
    } else if c == '9' {
        9
    } else if c == 'a' {
        10
    } else if c == 'b' {
        11
    } else if c == 'c' {
        12
    } else if c == 'd' {
        13
    } else if c == 'e' {
        14
    } else {
        15
    }
}

pub open spec fn is_hex_digit_lower(c: char) -> bool {
    c == '0' || c == '1' || c == '2' || c == '3' || c == '4' || c == '5' || c == '6' || c == '7'
        || c == '8' || c == '9' || c == 'a' || c == 'b' || c == 'c' || c == 'd' || c == 'e' || c
        == 'f'
}

/// A character's code point.
pub open spec fn code_of(c: char) -> int {
    (c as u32) as int
}

/// The character with a given code point.
pub open spec fn char_of_code(n: int) -> char {
    choose|c: char| code_of(c) == n
}

/// What a sequence of escaped characters stood for, read back escape by
/// escape; `None` where no escaping could have produced the text.
pub open spec fn unescape_seq(s: Seq<char>) -> Option<Seq<char>>
    decreases s.len(),
{
    if s.len() == 0 {
        Some(Seq::<char>::empty())
    } else if s[0] == '\\' {
        if s.len() >= 2 && is_short_escape(s[1]) {
            match unescape_seq(s.skip(2)) {
                Some(r) => Some(seq![short_escape_char(s[1])] + r),
                None => None,
            }
        } else if s.len() >= 6 && s[1] == 'u' && s[2] == '0' && s[3] == '0' && is_hex_digit_lower(
            s[4],
        ) && is_hex_digit_lower(s[5]) {
            match unescape_seq(s.skip(6)) {
                Some(r) => Some(seq![char_of_code(16 * hex_val(s[4]) + hex_val(s[5]) as int)] + r),
                None => None,
            }
        } else {
            None
        }
    } else {
        match unescape_seq(s.drop_first()) {
            Some(r) => Some(seq![s[0]] + r),
            None => None,
        }
    }
}

/// `escape_seq` can also be unfolded from the front.
proof fn lemma_escape_seq_front(t: Seq<char>)
    requires
        t.len() > 0,
    ensures
        escape_seq(t) == escape_char(t[0]) + escape_seq(t.drop_first()),
    decreases t.len(),
{
    if t.len() == 1 {
        assert(t.drop_last() =~= Seq::<char>::empty());
        assert(t.drop_first() =~= Seq::<char>::empty());
        assert(escape_seq(t) =~= escape_char(t[0]) + escape_seq(t.drop_first()));
    } else {
        let u = t.drop_last();
        lemma_escape_seq_front(u);
        assert(u[0] == t[0]);
        assert(u.drop_first() =~= t.drop_first().drop_last());
        assert(t.drop_first().last() == t.last());
        assert(escape_seq(t) == escape_seq(u) + escape_char(t.last()));
        assert(escape_seq(t.drop_first()) == escape_seq(t.drop_first().drop_last()) + escape_char(
            t.drop_first().last(),
        ));
        assert(escape_seq(t) =~= escape_char(t[0]) + escape_seq(t.drop_first()));
    }
}

/// Escaping loses nothing: reading an escaped text back escape by escape
/// recovers the characters that were escaped, all of them.
pub proof fn lemma_unescape_escape(t: Seq<char>)
    ensures
        unescape_seq(escape_seq(t)) == Some(t),
    decreases t.len(),
{
    if t.len() == 0 {
        assert(unescape_seq(escape_seq(t)) == Some(Seq::<char>::empty()));
        assert(t =~= Seq::<char>::empty());
    } else {
        let c = t[0];
        let rest = t.drop_first();
        lemma_escape_seq_front(t);
        lemma_unescape_escape(rest);
        let e = escape_char(c);
        let s = escape_seq(t);
        assert(s == e + escape_seq(rest));
        if c == '"' || c == '\\' || c == '\u{8}' || c == '\t' || c == '\n' || c == '\u{c}' || c
            == '\r' {
            assert(s[0] == '\\');
            assert(is_short_escape(s[1]));
            assert(s.skip(2) =~= escape_seq(rest));
            assert(short_escape_char(s[1]) == c);
            assert(unescape_seq(s) == Some(seq![c] + rest));
            assert(seq![c] + rest =~= t);
        } else if (c as u32) < 32 {
            assert(e == seq!['\\', 'u', '0', '0', hex_digit_char(((c as u32) / 16) as nat),
                hex_digit_char(((c as u32) % 16) as nat)]);
            assert(s[0] == '\\');
            assert(s[1] == 'u');
            assert(!is_short_escape('u'));
            assert(s[2] == '0');
            assert(s[3] == '0');
            let v = (c as u32) as int;
            let hi = (((c as u32) / 16)) as nat;
            let lo = (((c as u32) % 16)) as nat;
            assert(0 <= v < 32);
            assert(hi < 16 && lo < 16);
            assert(is_hex_digit_lower(hex_digit_char(hi)));
            assert(is_hex_digit_lower(hex_digit_char(lo)));
            assert(hex_val(hex_digit_char(hi)) == hi);
            assert(hex_val(hex_digit_char(lo)) == lo);
            assert(s.skip(6) =~= escape_seq(rest));
            let code = 16 * hex_val(s[4]) + hex_val(s[5]) as int;
            assert(code == v) by {
                assert(16 * (v / 16) + v % 16 == v) by (nonlinear_arith);
            }
            assert(code_of(c) == code);
            let c2 = char_of_code(code);
            assert(exists|x: char| code_of(x) == code) by {
                assert(code_of(c) == code);
            }
            assert(code_of(c2) == code);
            assert(c as u32 == c2 as u32);
            vstd::utf8::char_u32_cast(c, c as u32);
            vstd::utf8::char_u32_cast(c2, c2 as u32);
            assert(c2 == c);
            assert(unescape_seq(s) == Some(seq![c] + rest));
            assert(seq![c] + rest =~= t);
        } else {
            assert(e == seq![c]);
            assert(s[0] == c);
            assert(s[0] != '\\');
            assert(s.drop_first() =~= escape_seq(rest));
            assert(unescape_seq(s) == Some(seq![c] + rest));
            assert(seq![c] + rest =~= t);
        }
    }
}

/// How many characters a JSON string literal's body runs on before its
/// closing quote: negative when no closing quote follows.
pub open spec fn str_lit_scan(s: Seq<char>) -> int
    decreases s.len(),
{
    if s.len() == 0 {
        -1
    } else if s[0] == '"' {
        0
    } else if s[0] == '\\' {
        if s.len() >= 2 {
            let r = str_lit_scan(s.skip(2));
            if r < 0 {
                -1
            } else {
                2 + r
            }
        } else {
            -1
        }
    } else {
        let r = str_lit_scan(s.skip(1));
        if r < 0 {
            -1
        } else {
            1 + r
        }
    }
}

/// Scanning an escaped body finds exactly its end: the first quote after it
/// that no escape covers.
pub proof fn lemma_str_lit_scan_escape(t: Seq<char>, tail: Seq<char>)
    requires
        tail.len() > 0,
        tail[0] == '"',
    ensures
        str_lit_scan(escape_seq(t) + tail) == escape_seq(t).len(),
    decreases t.len(),
{
    let s = escape_seq(t) + tail;
    if t.len() == 0 {
        assert(escape_seq(t) =~= Seq::<char>::empty());
        assert(s =~= tail);
        assert(str_lit_scan(s) == 0);
    } else {
        let c = t[0];
        let rest = t.drop_first();
        lemma_escape_seq_front(t);
        lemma_str_lit_scan_escape(rest, tail);
        let e = escape_char(c);
        let s2 = escape_seq(rest) + tail;
        assert(s =~= e + s2);
        assert(str_lit_scan(s2) == escape_seq(rest).len());
        if c == '"' || c == '\\' || c == '\u{8}' || c == '\t' || c == '\n' || c == '\u{c}' || c
            == '\r' {
            assert(e.len() == 2);
            assert(s[0] == '\\');
            assert(s.len() >= 2);
            assert(s.skip(2) =~= s2);
            assert(str_lit_scan(s) == 2 + escape_seq(rest).len());
        } else if (c as u32) < 32 {
            let h1 = hex_digit_char(((c as u32) / 16) as nat);
            let h2 = hex_digit_char(((c as u32) % 16) as nat);
            assert(e == seq!['\\', 'u', '0', '0', h1, h2]);
            assert(s[0] == '\\');
            assert(s.len() >= 2);
            let q0 = s.skip(2);
            assert(q0 =~= seq!['0', '0', h1, h2] + s2);
            let q1 = q0.skip(1);
            assert(q1 =~= seq!['0', h1, h2] + s2);
            let q2 = q1.skip(1);
            assert(q2 =~= seq![h1, h2] + s2);
            let q3 = q2.skip(1);
            assert(q3 =~= seq![h2] + s2);
            let q4 = q3.skip(1);
            assert(q4 =~= s2);
            assert(h1 != '"' && h1 != '\\');
            assert(h2 != '"' && h2 != '\\');
            assert(str_lit_scan(q3) == 1 + escape_seq(rest).len());
            assert(str_lit_scan(q2) == 2 + escape_seq(rest).len());
            assert(str_lit_scan(q1) == 3 + escape_seq(rest).len());
            assert(str_lit_scan(q0) == 4 + escape_seq(rest).len());
            assert(str_lit_scan(s) == 6 + escape_seq(rest).len());
        } else {
            assert(e =~= seq![c]);
            assert(s[0] == c);
            assert(c != '"' && c != '\\');
            assert(s.skip(1) =~= s2);
            assert(str_lit_scan(s) == 1 + escape_seq(rest).len());
        }
        assert(escape_seq(t).len() == e.len() + escape_seq(rest).len());
    }
}

/// The characters a JSON string literal at the head of `s` stood for, with
/// the count of characters the literal takes, quotes included.
pub open spec fn parse_str_lit(s: Seq<char>) -> Option<(Seq<char>, int)> {
    if s.len() > 0 && s[0] == '"' {
        let e = str_lit_scan(s.skip(1));
        if e >= 0 && 1 + e < s.len() {
            match unescape_seq(s.subrange(1, 1 + e)) {
                Some(t) => Some((t, 2 + e)),
                None => None,
            }
        } else {
            None
        }
    } else {
        None
    }
}

/// Round trip: a JSON string literal at the head of any text is read back
/// as the characters it was built from.
pub proof fn lemma_parse_str_lit_round_trip(t: Seq<char>, rest: Seq<char>)
    ensures
        parse_str_lit(json_string(t) + rest) == Some((t, json_string(t).len() as int)),
{
    let s = json_string(t) + rest;
    let tail = seq!['"'] + rest;
    assert(s[0] == '"');
    assert(s.skip(1) =~= escape_seq(t) + tail);
    assert(tail[0] == '"');
    lemma_str_lit_scan_escape(t, tail);
    let e = str_lit_scan(s.skip(1));
    assert(e == escape_seq(t).len());
    assert(1 + e < s.len());
    assert(s.subrange(1, 1 + e) =~= escape_seq(t));
    lemma_unescape_escape(t);
    assert(unescape_seq(s.subrange(1, 1 + e)) == Some(t));
    assert(json_string(t).len() == 2 + e);
}

/// Character-for-character string equality.
pub fn str_eq(a: &str, b: &str) -> (r: bool)
    ensures
        r == (a@ == b@),
{
    let n = a.unicode_len();
    let m = b.unicode_len();
    if n != m {
        assert(a@ != b@) by {
            assert(a@.len() != b@.len());
        }
        return false;
    }
    let mut i: usize = 0;
    while i < n
        invariant
            n == a@.len(),
            n == b@.len(),
            0 <= i <= n,
            forall|j: int| 0 <= j < i ==> a@[j] == b@[j],
        decreases n - i,
    {
        let ca = a.get_char(i);
        let cb = b.get_char(i);
        if ca != cb {
            assert(a@ != b@);
            return false;
        }
        i = i + 1;
    }
    proof {
        assert(a@ =~= b@);
    }
    true
}

/// One structured JSON value: the open-ended configuration payload a request
/// may carry. Numbers are whole; order of object members is the order they
/// were built in.
pub enum JsonValue {
    Null,
    Bool(bool),
    Int(i64),
    Str(String),
    Arr(Vec<JsonValue>),
    Obj(Vec<(String, JsonValue)>),
}

/// The JSON text of a value.
pub open spec fn json_of(v: JsonValue) -> Seq<char>
    decreases v,
{
    match v {
        JsonValue::Null => seq!['n', 'u', 'l', 'l'],
        JsonValue::Bool(b) => if b {
            seq!['t', 'r', 'u', 'e']
        } else {
            seq!['f', 'a', 'l', 's', 'e']
        },
        JsonValue::Int(i) => dec_int(i as int),
        JsonValue::Str(s) => json_string(s@),
        JsonValue::Arr(a) => seq!['['] + json_of_list(a@) + seq![']'],
        JsonValue::Obj(o) => seq!['{'] + json_of_members(o@) + seq!['}'],
    }
}

/// The comma-separated JSON texts of a sequence of values.
pub open spec fn json_of_list(elems: Seq<JsonValue>) -> Seq<char>
    decreases elems,
{
    if elems.len() == 0 {
        Seq::<char>::empty()
    } else if elems.len() == 1 {
        json_of(elems[0])
    } else {
        json_of(elems[0]) + seq![','] + json_of_list(elems.drop_first())
    }
}

/// The comma-separated `"key":value` texts of a sequence of members.
pub open spec fn json_of_members(mems: Seq<(String, JsonValue)>) -> Seq<char>
    decreases mems,
{
    if mems.len() == 0 {
        Seq::<char>::empty()
    } else if mems.len() == 1 {
        json_string(mems[0].0@) + seq![':'] + json_of(mems[0].1)
    } else {
        json_string(mems[0].0@) + seq![':'] + json_of(mems[0].1) + seq![','] + json_of_members(
            mems.drop_first(),
        )
    }
}

/// Appends the JSON text of `v` to `out`.
pub fn write_json(out: &mut String, v: &JsonValue)
    ensures
        final(out)@ == old(out)@ + json_of(*v),
    decreases *v,
{
    proof {
        reveal_strlit("null");
        reveal_strlit("true");
        reveal_strlit("false");
        reveal_strlit("[");
        reveal_strlit("]");
        reveal_strlit("{");
        reveal_strlit("}");
        reveal_strlit(",");
        reveal_strlit(":");
    }
    match v {
        JsonValue::Null => {
            out.append("null");
            assert(final(out)@ =~= old(out)@ + json_of(*v));
        },
        JsonValue::Bool(b) => {
            if *b {
                out.append("true");
            } else {
                out.append("false");
            }
            assert(final(out)@ =~= old(out)@ + json_of(*v));
        },
        JsonValue::Int(i) => {
            let d = i64_to_dec(*i);
            out.append(d.as_str());
        },
        JsonValue::Str(s) => {
            write_json_string(out, s.as_str());
        },
        JsonValue::Arr(a) => {
            out.append("[");
            let n = a.len();
            let mut i: usize = 0;
            while i < n
                invariant
                    *v == JsonValue::Arr(*a),
                    n == a@.len(),
                    0 <= i <= n,
                    out@ == old(out)@ + seq!['['] + json_of_list(a@.subrange(0, i as int)) + (
                    if 0 < i < n {
                        seq![',']
                    } else {
                        Seq::<char>::empty()
                    }),
                decreases n - i,
            {
                proof {
                    reveal_strlit(",");
                    assert(decreases_to!(*v => v->Arr_0));
                    assert(v->Arr_0 == *a);
                    assert(decreases_to!(*a => a@));
                    assert(decreases_to!(a@ => a@[i as int]));
                }
                write_json(out, &a[i]);
                if i + 1 < n {
                    out.append(",");
                }
                proof {
                    lemma_json_of_list_snoc(a@, i as int);
                    let pre = a@.subrange(0, i as int);
                    let post = a@.subrange(0, i as int + 1);
                    assert(json_of_list(post) == json_of_list(pre) + (if i > 0 {
                        seq![',']
                    } else {
                        Seq::<char>::empty()
                    }) + json_of(a@[i as int]));
                    assert(out@ =~= old(out)@ + seq!['['] + json_of_list(post) + (if i + 1 < n {
                        seq![',']
                    } else {
                        Seq::<char>::empty()
                    }));
                }
                i = i + 1;
            }
            proof {
                assert(a@.subrange(0, a@.len() as int) =~= a@);
            }
            out.append("]");
            assert(final(out)@ =~= old(out)@ + json_of(*v));
        },
        JsonValue::Obj(o) => {
            proof {
                assert(decreases_to!(*v => v->Obj_0));
                assert(v->Obj_0 == *o);
                assert(decreases_to!(*o => o@));
            }
            write_json_object(out, o);
            assert(final(out)@ =~= old(out)@ + json_of(*v));
        },
    }
}

/// Appends a whole JSON object, braces included, built from the given
/// members in order.
pub fn write_json_object(out: &mut String, o: &Vec<(String, JsonValue)>)
    ensures
        final(out)@ == old(out)@ + seq!['{'] + json_of_members(o@) + seq!['}'],
    decreases o@,
{
    proof {
        reveal_strlit("{");
        reveal_strlit("}");
    }
    out.append("{");
    let n = o.len();
    let mut i: usize = 0;
    while i < n
        invariant
            n == o@.len(),
            0 <= i <= n,
            out@ == old(out)@ + seq!['{'] + json_of_members(o@.subrange(0, i as int)) + (if 0 < i
                < n {
                seq![',']
            } else {
                Seq::<char>::empty()
            }),
        decreases n - i,
    {
        proof {
            reveal_strlit(",");
            reveal_strlit(":");
        }
        write_json_string(out, o[i].0.as_str());
        out.append(":");
        proof {
            assert(decreases_to!(o@ => o@[i as int]));
            assert(decreases_to!(o@[i as int] => o@[i as int].1));
        }
        write_json(out, &o[i].1);
        if i + 1 < n {
            out.append(",");
        }
        proof {
            lemma_json_of_members_snoc(o@, i as int);
            let pre = o@.subrange(0, i as int);
            let post = o@.subrange(0, i as int + 1);
            assert(json_of_members(post) == json_of_members(pre) + (if i > 0 {
                seq![',']
            } else {
                Seq::<char>::empty()
            }) + json_string(o@[i as int].0@) + seq![':'] + json_of(o@[i as int].1));
            assert(out@ =~= old(out)@ + seq!['{'] + json_of_members(post) + (if i + 1 < n {
                seq![',']
            } else {
                Seq::<char>::empty()
            }));
        }
        i = i + 1;
    }
    proof {
        assert(o@.subrange(0, o@.len() as int) =~= o@);
    }
    out.append("}");
    assert(final(out)@ =~= old(out)@ + seq!['{'] + json_of_members(o@) + seq!['}']);
}

/// Extending a prefix of a value list by one element extends its JSON text
/// by that element's text, with a comma where an element came before.
proof fn lemma_json_of_list_snoc(s: Seq<JsonValue>, i: int)
    requires
        0 <= i < s.len(),
    ensures
        json_of_list(s.subrange(0, i + 1)) == json_of_list(s.subrange(0, i)) + (if i > 0 {
            seq![',']
        } else {
            Seq::<char>::empty()
        }) + json_of(s[i]),
    decreases i,
{
    if i == 0 {
        assert(s.subrange(0, 1) =~= seq![s[0]]);
        assert(json_of_list(seq![s[0]]) == json_of(s[0]));
        assert(json_of_list(s.subrange(0, 0)) =~= Seq::<char>::empty());
        assert(json_of_list(s.subrange(0, 1)) =~= json_of_list(s.subrange(0, 0)) + Seq::<
            char,
        >::empty() + json_of(s[0]));
    } else {
        lemma_json_of_list_snoc(s.drop_first(), i - 1);
        let a = s.subrange(0, i + 1);
        let b = s.subrange(0, i);
        assert(a.drop_first() =~= s.drop_first().subrange(0, i));
        assert(b.drop_first() =~= s.drop_first().subrange(0, i - 1));
        assert(a[0] == s[0]);
        assert(b[0] == s[0]);
        assert(s.drop_first()[i - 1] == s[i]);
        assert(json_of_list(a) == json_of(s[0]) + seq![','] + json_of_list(a.drop_first()));
        assert(json_of_list(b) == if i == 1 {
            json_of(s[0])
        } else {
            json_of(s[0]) + seq![','] + json_of_list(b.drop_first())
        });
        if i == 1 {
            assert(a.drop_first() =~= seq![s[1]]);
            assert(json_of_list(a.drop_first()) == json_of(s[1]));
            assert(json_of_list(a) =~= json_of_list(b) + seq![','] + json_of(s[i]));
        } else {
            assert(json_of_list(a.drop_first()) == json_of_list(s.drop_first().subrange(0, i - 1))
                + seq![','] + json_of(s.drop_first()[i - 1]));
            assert(json_of_list(a) =~= json_of_list(b) + seq![','] + json_of(s[i]));
        }
    }
}

/// The object-member counterpart of `lemma_json_of_list_snoc`.
proof fn lemma_json_of_members_snoc(s: Seq<(String, JsonValue)>, i: int)
    requires
        0 <= i < s.len(),
    ensures
        json_of_members(s.subrange(0, i + 1)) == json_of_members(s.subrange(0, i)) + (if i > 0 {
            seq![',']
        } else {
            Seq::<char>::empty()
        }) + json_string(s[i].0@) + seq![':'] + json_of(s[i].1),
    decreases i,
{
    let m0 = json_string(s[0].0@) + seq![':'] + json_of(s[0].1);
    if i == 0 {
        assert(s.subrange(0, 1) =~= seq![s[0]]);
        assert(json_of_members(seq![s[0]]) == m0);
        assert(json_of_members(s.subrange(0, 0)) =~= Seq::<char>::empty());
        assert(json_of_members(s.subrange(0, 1)) =~= json_of_members(s.subrange(0, 0)) + Seq::<
            char,
        >::empty() + json_string(s[0].0@) + seq![':'] + json_of(s[0].1));
    } else {
        lemma_json_of_members_snoc(s.drop_first(), i - 1);
        let a = s.subrange(0, i + 1);
        let b = s.subrange(0, i);
        assert(a.drop_first() =~= s.drop_first().subrange(0, i));
        assert(b.drop_first() =~= s.drop_first().subrange(0, i - 1));
        assert(a[0] == s[0]);
        assert(b[0] == s[0]);
        assert(s.drop_first()[i - 1] == s[i]);
        if i == 1 {
            assert(a.drop_first() =~= seq![s[1]]);
            assert(json_of_members(a) =~= json_of_members(b) + seq![','] + json_string(s[i].0@)
                + seq![':'] + json_of(s[i].1));
        } else {
            assert(json_of_members(a) =~= json_of_members(b) + seq![','] + json_string(s[i].0@)
                + seq![':'] + json_of(s[i].1));
        }
    }
}

/// The JSON text of `v` as a fresh string.
pub fn json_to_string(v: &JsonValue) -> (r: String)
    ensures
        r@ == json_of(*v),
{
    let mut out = String::new();
    write_json(&mut out, v);
    proof {
        assert(out@ =~= json_of(*v));
    }
    out
}

} // verus!
