use vstd::prelude::*;
use vstd::string::*;
use crate::decimal::dec_int;
use crate::decimal::i64_to_dec;
use crate::decimal::is_num_char;
use crate::decimal::is_dec_digit;
use crate::decimal::parse_dec_int;
use crate::decimal::lemma_dec_int_round_trip;
use crate::decimal::lemma_dec_digits_shape;
use crate::decimal::dec_digits;
use crate::decimal::digits_val;
use crate::decimal::valid_dec_digits;
use crate::decimal::digit_lookup;
use crate::decimal::pow10;
use crate::decimal::lemma_pow10_monotone;
use crate::decimal::lemma_long_dec_out_of_range;
use crate::json::str_eq;
use crate::json::parse_str_lit;
use crate::json::lemma_parse_str_lit_round_trip;
use crate::json::json_string;
use crate::json::json_of_members;
use crate::json::write_json_string;
use crate::json::write_json_object;
use crate::envelope::RunRequest;
use crate::envelope::RunResponse;
use crate::envelope::TestRequest;
use crate::envelope::TestResponse;
use crate::envelope::VisualizeRequest;
use crate::envelope::VisualizeResponse;

verus! {

broadcast use vstd::std_specs::vec::group_vec_axioms, vstd::seq::group_seq_axioms;

/// The JSON text of an optional in-band error: `null` when absent, a JSON
/// string literal when present.
pub open spec fn opt_error_json(e: Option<Seq<char>>) -> Seq<char> {
    match e {
        None => seq!['n', 'u', 'l', 'l'],
        Some(m) => json_string(m),
    }
}

/// The JSON text of a run response.
pub open spec fn run_response_json(e: Option<Seq<char>>) -> Seq<char> {
    seq!['{', '"', 'e', 'r', 'r', 'o', 'r', '"', ':'] + opt_error_json(e) + seq!['}']
}

/// The JSON text of a test response.
pub open spec fn test_response_json(e: Option<Seq<char>>) -> Seq<char> {
    seq!['{', '"', 'e', 'r', 'r', 'o', 'r', '"', ':'] + opt_error_json(e) + seq!['}']
}

/// The JSON text of a visualize response: the resource first, then the
/// in-band error.
pub open spec fn visualize_response_json(v: (Seq<char>, Option<Seq<char>>)) -> Seq<char> {
    seq!['{', '"', 'r', 'e', 's', 'o', 'u', 'r', 'c', 'e', '"', ':'] + json_string(v.0) + seq![
        ',',
        '"',
        'e',
        'r',
        'r',
        'o',
        'r',
        '"',
        ':',
    ] + opt_error_json(v.1) + seq!['}']
}

/// The out-of-band failure envelope: the message stands between the quotes
/// exactly as given, unescaped.
pub open spec fn error_envelope_json(m: Seq<char>) -> Seq<char> {
    seq!['{', '"', 'e', 'r', 'r', 'o', 'r', '"', ':', '"'] + m + seq!['"', '}']
}

/// Builds the out-of-band failure envelope around a message.
pub fn error_json(msg: &str) -> (r: String)
    ensures
        r@ == error_envelope_json(msg@),
{
    proof {
        reveal_strlit("{\"error\":\"");
        reveal_strlit("\"}");
    }
    let mut out = "{\"error\":\"".to_owned();
    out.append(msg);
    out.append("\"}");
    proof {
        assert(out@ =~= error_envelope_json(msg@));
    }
    out
}

/// Renders a run response as its JSON text.
pub fn encode_run_response(resp: &RunResponse) -> (r: String)
    ensures
        r@ == run_response_json(resp@),
{
    proof {
        reveal_strlit("{\"error\":");
        reveal_strlit("null");
        reveal_strlit("}");
    }
    let mut out = "{\"error\":".to_owned();
    match resp.get_error() {
        Some(m) => {
            write_json_string(&mut out, m.as_str());
        },
        None => {
            out.append("null");
        },
    }
    out.append("}");
    proof {
        assert(out@ =~= run_response_json(resp@));
    }
    out
}

/// Renders a test response as its JSON text.
pub fn encode_test_response(resp: &TestResponse) -> (r: String)
    ensures
        r@ == test_response_json(resp@),
{
    proof {
        reveal_strlit("{\"error\":");
        reveal_strlit("null");
        reveal_strlit("}");
    }
    let mut out = "{\"error\":".to_owned();
    match resp.get_error() {
        Some(m) => {
            write_json_string(&mut out, m.as_str());
        },
        None => {
            out.append("null");
        },
    }
    out.append("}");
    proof {
        assert(out@ =~= test_response_json(resp@));
    }
    out
}

/// Renders a visualize response as its JSON text.
pub fn encode_visualize_response(resp: &VisualizeResponse) -> (r: String)
    ensures
        r@ == visualize_response_json(resp@),
{
    proof {
        reveal_strlit("{\"resource\":");
        reveal_strlit(",\"error\":");
        reveal_strlit("null");
        reveal_strlit("}");
    }
    let mut out = "{\"resource\":".to_owned();
    write_json_string(&mut out, resp.resource().as_str());
    out.append(",\"error\":");
    match resp.get_error() {
        Some(m) => {
            write_json_string(&mut out, m.as_str());
        },
        None => {
            out.append("null");
        },
    }
    out.append("}");
    proof {
        assert(out@ =~= visualize_response_json(resp@));
    }
    out
}

/// The JSON text of a test request: the empty object.
pub open spec fn test_request_json() -> Seq<char> {
    seq!['{', '}']
}

/// Renders a test request as its JSON text.
pub fn encode_test_request(_req: &TestRequest) -> (r: String)
    ensures
        r@ == test_request_json(),
{
    proof {
        reveal_strlit("{}");
    }
    let out = "{}".to_owned();
    proof {
        assert(out@ =~= test_request_json());
    }
    out
}

/// The JSON text of a visualize request.
pub open spec fn visualize_request_json(f_p_s: int, num_frames: int) -> Seq<char> {
    seq!['{', '"', 'f', '_', 'p', '_', 's', '"', ':'] + dec_int(f_p_s) + seq![
        ',',
        '"',
        'n',
        'u',
        'm',
        '_',
        'f',
        'r',
        'a',
        'm',
        'e',
        's',
        '"',
        ':',
    ] + dec_int(num_frames) + seq!['}']
}

/// Renders a visualize request as its JSON text.
pub fn encode_visualize_request(req: &VisualizeRequest) -> (r: String)
    ensures
        r@ == visualize_request_json(req.f_p_s as int, req.num_frames as int),
{
    proof {
        reveal_strlit("{\"f_p_s\":");
        reveal_strlit(",\"num_frames\":");
        reveal_strlit("}");
    }
    let mut out = "{\"f_p_s\":".to_owned();
    let f = i64_to_dec(req.f_p_s);
    out.append(f.as_str());
    out.append(",\"num_frames\":");
    let n = i64_to_dec(req.num_frames);
    out.append(n.as_str());
    out.append("}");
    proof {
        assert(out@ =~= visualize_request_json(req.f_p_s as int, req.num_frames as int));
    }
    out
}

/// One member of the integer-keyed mapping: the key as a quoted decimal,
/// the value as a JSON string literal.
pub open spec fn foo_member_json(p: (i64, String)) -> Seq<char> {
    seq!['"'] + dec_int(p.0 as int) + seq!['"', ':'] + json_string(p.1@)
}

/// The comma-separated members of the integer-keyed mapping.
pub open spec fn foo_members_json(s: Seq<(i64, String)>) -> Seq<char>
    decreases s,
{
    if s.len() == 0 {
        Seq::<char>::empty()
    } else if s.len() == 1 {
        foo_member_json(s[0])
    } else {
        foo_member_json(s[0]) + seq![','] + foo_members_json(s.drop_first())
    }
}

/// Extending a prefix of the mapping by one member extends its JSON text by
/// that member's text, with a comma where a member came before.
proof fn lemma_foo_members_snoc(s: Seq<(i64, String)>, i: int)
    requires
        0 <= i < s.len(),
    ensures
        foo_members_json(s.subrange(0, i + 1)) == foo_members_json(s.subrange(0, i)) + (if i > 0 {
            seq![',']
        } else {
            Seq::<char>::empty()
        }) + foo_member_json(s[i]),
    decreases i,
{
    if i == 0 {
        assert(s.subrange(0, 1) =~= seq![s[0]]);
        assert(foo_members_json(seq![s[0]]) == foo_member_json(s[0]));
        assert(foo_members_json(s.subrange(0, 0)) =~= Seq::<char>::empty());
        assert(foo_members_json(s.subrange(0, 1)) =~= foo_members_json(s.subrange(0, 0)) + Seq::<
            char,
        >::empty() + foo_member_json(s[0]));
    } else {
        lemma_foo_members_snoc(s.drop_first(), i - 1);
        let a = s.subrange(0, i + 1);
        let b = s.subrange(0, i);
        assert(a.drop_first() =~= s.drop_first().subrange(0, i));
        assert(b.drop_first() =~= s.drop_first().subrange(0, i - 1));
        assert(a[0] == s[0]);
        assert(b[0] == s[0]);
        assert(s.drop_first()[i - 1] == s[i]);
        if i == 1 {
            assert(a.drop_first() =~= seq![s[1]]);
            assert(foo_members_json(a) =~= foo_members_json(b) + seq![','] + foo_member_json(s[i]));
        } else {
            assert(foo_members_json(a) =~= foo_members_json(b) + seq![','] + foo_member_json(s[i]));
        }
    }
}

/// The JSON text of a run request, fields in declaration order, the two
/// mappings as JSON objects.
pub open spec fn run_request_json(
    id: Seq<char>,
    backend: Seq<char>,
    input: Seq<char>,
    config: Seq<(String, crate::json::JsonValue)>,
    foo: Seq<(i64, String)>,
) -> Seq<char> {
    seq!['{', '"', 'i', 'd', '"', ':'] + json_string(id) + seq![
        ',',
        '"',
        'b',
        'a',
        'c',
        'k',
        'e',
        'n',
        'd',
        '"',
        ':',
    ] + json_string(backend) + seq![',', '"', 'i', 'n', 'p', 'u', 't', '"', ':'] + json_string(
        input,
    ) + seq![',', '"', 'c', 'o', 'n', 'f', 'i', 'g', '"', ':', '{'] + json_of_members(config)
        + seq!['}', ',', '"', 'f', 'o', 'o', '"', ':', '{'] + foo_members_json(foo) + seq![
        '}',
        '}',
    ]
}

/// Renders a run request as its JSON text.
pub fn encode_run_request(req: &RunRequest) -> (r: String)
    ensures
        r@ == run_request_json(req.id@, req.backend@, req.input@, req.config@, req.foo@),
{
    proof {
        reveal_strlit("{\"id\":");
        reveal_strlit(",\"backend\":");
        reveal_strlit(",\"input\":");
        reveal_strlit(",\"config\":");
        reveal_strlit(",\"foo\":");
        reveal_strlit("}");
    }
    let mut out = "{\"id\":".to_owned();
    write_json_string(&mut out, req.id.as_str());
    out.append(",\"backend\":");
    write_json_string(&mut out, req.backend.as_str());
    out.append(",\"input\":");
    write_json_string(&mut out, req.input.as_str());
    out.append(",\"config\":");
    write_json_object(&mut out, &req.config);
    out.append(",\"foo\":");
    write_foo_object(&mut out, &req.foo);
    out.append("}");
    proof {
        assert(out@ =~= run_request_json(req.id@, req.backend@, req.input@, req.config@, req.foo@));
    }
    out
}

/// Appends the integer-keyed mapping as a JSON object, braces included.
fn write_foo_object(out: &mut String, foo: &Vec<(i64, String)>)
    ensures
        final(out)@ == old(out)@ + seq!['{'] + foo_members_json(foo@) + seq!['}'],
{
    proof {
        reveal_strlit("{");
        reveal_strlit("}");
    }
    out.append("{");
    let n = foo.len();
    let mut i: usize = 0;
    while i < n
        invariant
            n == foo@.len(),
            0 <= i <= n,
            out@ == old(out)@ + seq!['{'] + foo_members_json(foo@.subrange(0, i as int)) + (if 0 < i
                < n {
                seq![',']
            } else {
                Seq::<char>::empty()
            }),
        decreases n - i,
    {
        proof {
            reveal_strlit("\"");
            reveal_strlit("\":");
            reveal_strlit(",");
        }
        out.append("\"");
        let k = i64_to_dec(foo[i].0);
        out.append(k.as_str());
        out.append("\":");
        write_json_string(out, foo[i].1.as_str());
        if i + 1 < n {
            out.append(",");
        }
        proof {
            lemma_foo_members_snoc(foo@, i as int);
            let post = foo@.subrange(0, i as int + 1);
            assert(out@ =~= old(out)@ + seq!['{'] + foo_members_json(post) + (if i + 1 < n {
                seq![',']
            } else {
                Seq::<char>::empty()
            }));
        }
        i = i + 1;
    }
    proof {
        assert(foo@.subrange(0, foo@.len() as int) =~= foo@);
    }
    out.append("}");
    assert(final(out)@ =~= old(out)@ + seq!['{'] + foo_members_json(foo@) + seq!['}']);
}

/// Where a run of number characters starting at `i` ends.
pub open spec fn num_end(s: Seq<char>, i: int) -> int
    decreases s.len() - i when 0 <= i <= s.len()
{
    if i < s.len() && is_num_char(s[i]) {
        num_end(s, i + 1)
    } else {
        i
    }
}

proof fn lemma_num_end_of_span(s: Seq<char>, i: int, j: int)
    requires
        0 <= i <= j <= s.len(),
        forall|k: int| i <= k < j ==> is_num_char(#[trigger] s[k]),
        j == s.len() || !is_num_char(s[j]),
    ensures
        num_end(s, i) == j,
    decreases j - i,
{
    if i < j {
        lemma_num_end_of_span(s, i + 1, j);
    }
}

/// A canonical test request text denotes the marker entity; any other text
/// denotes nothing.
pub open spec fn parse_test_request(s: Seq<char>) -> bool {
    s == test_request_json()
}

/// The fields a canonical visualize request text denotes, in declaration
/// order, read strictly: no spare whitespace, members in order.
pub open spec fn parse_visualize_request(s: Seq<char>) -> Option<(int, int)> {
    if s.len() >= 9 && s.subrange(0, 9) == seq!['{', '"', 'f', '_', 'p', '_', 's', '"', ':'] {
        let e1 = num_end(s, 9);
        match parse_dec_int(s.subrange(9, e1)) {
            Some(f) => if e1 + 14 <= s.len() && s.subrange(e1, e1 + 14) == seq![
                ',',
                '"',
                'n',
                'u',
                'm',
                '_',
                'f',
                'r',
                'a',
                'm',
                'e',
                's',
                '"',
                ':',
            ] {
                let e2 = num_end(s, e1 + 14);
                match parse_dec_int(s.subrange(e1 + 14, e2)) {
                    Some(n) => if e2 + 1 == s.len() && s[e2] == '}' {
                        Some((f, n))
                    } else {
                        None
                    },
                    None => None,
                }
            } else {
                None
            },
            None => None,
        }
    } else {
        None
    }
}

proof fn lemma_dec_int_num_chars(n: int)
    ensures
        dec_int(n).len() > 0,
        forall|k: int| 0 <= k < dec_int(n).len() ==> is_num_char(#[trigger] dec_int(n)[k]),
{
    if n >= 0 {
        lemma_dec_digits_shape(n as nat);
    } else {
        lemma_dec_digits_shape((-n) as nat);
        assert(dec_int(n) == seq!['-'] + dec_digits((-n) as nat));
        assert forall|k: int| 0 <= k < dec_int(n).len() implies is_num_char(
            #[trigger] dec_int(n)[k],
        ) by {
            if k > 0 {
                assert(dec_int(n)[k] == dec_digits((-n) as nat)[k - 1]);
            }
        }
    }
}

/// Reads the canonical test request text back into the marker entity.
pub fn decode_test_request(s: &str) -> (r: Option<TestRequest>)
    ensures
        r is Some <==> parse_test_request(s@),
{
    proof {
        reveal_strlit("{}");
        assert(("{}")@ =~= test_request_json());
    }
    if str_eq(s, "{}") {
        Some(TestRequest::new())
    } else {
        None
    }
}

fn match_at(s: &str, i: usize, pat: &str) -> (r: bool)
    requires
        i <= s@.len(),
    ensures
        r == (i + pat@.len() <= s@.len() && s@.subrange(i as int, i as int + pat@.len() as int)
            == pat@),
{
    let n = s.unicode_len();
    let m = pat.unicode_len();
    if m > n - i {
        return false;
    }
    let mut j: usize = 0;
    while j < m
        invariant
            0 <= j <= m,
            m == pat@.len(),
            n == s@.len(),
            i + m <= n,
            forall|t: int| 0 <= t < j ==> s@[i + t] == pat@[t],
        decreases m - j,
    {
        if s.get_char(i + j) != pat.get_char(j) {
            assert(s@.subrange(i as int, i as int + m as int)[j as int] != pat@[j as int]);
            return false;
        }
        j = j + 1;
    }
    assert(s@.subrange(i as int, i as int + m as int) =~= pat@);
    true
}

fn num_span_end(s: &str, i: usize) -> (e: usize)
    requires
        i <= s@.len(),
    ensures
        i <= e <= s@.len(),
        e as int == num_end(s@, i as int),
{
    let n = s.unicode_len();
    let mut j = i;
    loop
        invariant
            i <= j <= n,
            n == s@.len(),
            num_end(s@, i as int) == num_end(s@, j as int),
        decreases n - j,
    {
        if j >= n {
            assert(num_end(s@, j as int) == j);
            return j;
        }
        let c = s.get_char(j);
        let is_num = c == '-' || digit_lookup(c).is_some();
        proof {
            assert(is_num == is_num_char(s@[j as int]));
        }
        if !is_num {
            assert(num_end(s@, j as int) == j);
            return j;
        }
        assert(num_end(s@, j as int) == num_end(s@, j + 1));
        j = j + 1;
    }
}

fn parse_span_i64(s: &str, start: usize, end: usize) -> (r: Option<i64>)
    requires
        start <= end <= s@.len(),
    ensures
        match r {
            Some(v) => parse_dec_int(s@.subrange(start as int, end as int)) == Some(v as int),
            None => match parse_dec_int(s@.subrange(start as int, end as int)) {
                Some(p) => p < i64::MIN as int || p > i64::MAX as int,
                None => true,
            },
        },
{
    let ghost seg = s@.subrange(start as int, end as int);
    if start == end {
        assert(parse_dec_int(seg) is None);
        return None;
    }
    let neg = s.get_char(start) == '-';
    let dstart = if neg {
        start + 1
    } else {
        start
    };
    let ghost digs = s@.subrange(dstart as int, end as int);
    proof {
        if neg {
            assert(digs =~= seg.skip(1));
        } else {
            assert(digs =~= seg);
        }
    }
    if dstart == end {
        assert(parse_dec_int(seg) is None);
        return None;
    }
    if end - dstart >= 2 {
        let c0 = s.get_char(dstart);
        if c0 == '0' {
            proof {
                assert(digs[0] == '0');
                assert(!valid_dec_digits(digs));
            }
            return None;
        }
    }
    if end - dstart > 19 {
        proof {
            assert(seg[0] == s@[start as int]);
            if valid_dec_digits(digs) {
                lemma_long_dec_out_of_range(digs);
                assert(digits_val(digs) > 9223372036854775808);
            }
            if neg {
                let t = seg.skip(1);
                assert(t == digs);
                if valid_dec_digits(t) && digits_val(t) > 0 {
                    assert(parse_dec_int(seg) == Some(-(digits_val(t) as int)));
                    assert(-(digits_val(t) as int) < i64::MIN as int);
                } else {
                    assert(parse_dec_int(seg) is None);
                }
            } else {
                assert(seg == digs);
                if valid_dec_digits(seg) {
                    assert(parse_dec_int(seg) == Some(digits_val(seg) as int));
                    assert(digits_val(seg) as int > i64::MAX as int);
                } else {
                    assert(parse_dec_int(seg) is None);
                }
            }
        }
        return None;
    }
    let mut acc: u64 = 0;
    let mut k = dstart;
    proof {
        assert(s@.subrange(dstart as int, dstart as int) =~= Seq::<char>::empty());
    }
    while k < end
        invariant
            start <= dstart <= k <= end <= s@.len(),
            end - dstart <= 19,
            seg == s@.subrange(start as int, end as int),
            digs == s@.subrange(dstart as int, end as int),
            neg == (s@[start as int] == '-'),
            dstart == if neg {
                start + 1
            } else {
                start as int
            },
            forall|j: int| dstart <= j < k ==> is_dec_digit(#[trigger] s@[j]),
            acc == digits_val(s@.subrange(dstart as int, k as int)),
            acc < pow10((k - dstart) as nat),
        decreases end - k,
    {
        let c = s.get_char(k);
        match digit_lookup(c) {
            None => {
                proof {
                    assert(digs[k - dstart] == s@[k as int]);
                    assert(!valid_dec_digits(digs));
                    assert(seg[0] == s@[start as int]);
                    if neg {
                        assert(digs =~= seg.skip(1));
                        assert(parse_dec_int(seg) is None);
                    } else {
                        assert(digs =~= seg);
                        assert(seg[0] != '-');
                        assert(parse_dec_int(seg) is None);
                    }
                }
                return None;
            },
            Some(d) => {
                proof {
                    assert(pow10(18) == 1000000000000000000) by {
                        reveal_with_fuel(pow10, 20);
                    }
                    lemma_pow10_monotone((k - dstart) as nat, 18);
                    assert(acc < 1000000000000000000);
                }
                acc = acc * 10 + d;
                k = k + 1;
                proof {
                    let t = s@.subrange(dstart as int, k as int);
                    assert(t.drop_last() =~= s@.subrange(dstart as int, k - 1));
                    assert(t.last() == s@[k - 1]);
                    assert(digits_val(t) == digits_val(t.drop_last()) * 10 + crate::decimal::digit_val(t.last()));
                    assert(pow10((k - dstart) as nat) == 10 * pow10((k - dstart - 1) as nat));
                }
            },
        }
    }
    proof {
        assert(s@.subrange(dstart as int, k as int) =~= digs);
        assert(forall|j: int| 0 <= j < digs.len() ==> is_dec_digit(#[trigger] digs[j]));
        assert(digs[0] == '0' ==> digs.len() == 1);
        assert(valid_dec_digits(digs));
        assert(acc == digits_val(digs));
    }
    if neg {
        assert(seg[0] == '-');
        if acc == 0 {
            assert(parse_dec_int(seg) is None);
            return None;
        }
        if acc > 9223372036854775808u64 {
            return None;
        }
        if acc == 9223372036854775808u64 {
            assert(i64::MIN as int == -(acc as int));
            return Some(i64::MIN);
        }
        return Some(-(acc as i64));
    } else {
        proof {
            assert(is_dec_digit(seg[0]));
            assert(seg[0] != '-');
        }
        if acc > 9223372036854775807u64 {
            return None;
        }
        return Some(acc as i64);
    }
}

/// Reads a canonical visualize request text back into the entity: `None`
/// for any other text, or where a field exceeds the machine integer range.
pub fn decode_visualize_request(s: &str) -> (r: Option<VisualizeRequest>)
    ensures
        match r {
            Some(v) => parse_visualize_request(s@) == Some(
                (v.f_p_s as int, v.num_frames as int),
            ),
            None => match parse_visualize_request(s@) {
                Some(p) => p.0 < i64::MIN as int || p.0 > i64::MAX as int || p.1 < i64::MIN as int
                    || p.1 > i64::MAX as int,
                None => true,
            },
        },
{
    proof {
        reveal_strlit("{\"f_p_s\":");
        reveal_strlit(",\"num_frames\":");
        assert(("{\"f_p_s\":")@ =~= seq!['{', '"', 'f', '_', 'p', '_', 's', '"', ':']);
        assert((",\"num_frames\":")@ =~= seq![
            ',',
            '"',
            'n',
            'u',
            'm',
            '_',
            'f',
            'r',
            'a',
            'm',
            'e',
            's',
            '"',
            ':',
        ]);
    }
    let total = s.unicode_len();
    if !match_at(s, 0, "{\"f_p_s\":") {
        return None;
    }
    let e1 = num_span_end(s, 9);
    assert(e1 <= total);
    match parse_span_i64(s, 9, e1) {
        None => {
            return None;
        },
        Some(fv) => {
            if !match_at(s, e1, ",\"num_frames\":") {
                return None;
            }
            let e2 = num_span_end(s, e1 + 14);
            match parse_span_i64(s, e1 + 14, e2) {
                None => {
                    return None;
                },
                Some(nv) => {
                    let n = s.unicode_len();
                    if e2 < n {
                        if e2 + 1 == n && s.get_char(e2) == '}' {
                            return Some(VisualizeRequest::make(fv, nv));
                        }
                    }
                    return None;
                },
            }
        },
    }
}

/// Round trip: the marker test request is recovered from its JSON text.
pub proof fn lemma_test_request_round_trip()
    ensures
        parse_test_request(test_request_json()),
{
}

/// Round trip: a visualize request is recovered, field for field, from its
/// JSON text.
pub proof fn lemma_visualize_request_round_trip(f_p_s: i64, num_frames: i64)
    ensures
        parse_visualize_request(visualize_request_json(f_p_s as int, num_frames as int)) == Some(
            (f_p_s as int, num_frames as int),
        ),
{
    let f = f_p_s as int;
    let n = num_frames as int;
    let df = dec_int(f);
    let dn = dec_int(n);
    let head = seq!['{', '"', 'f', '_', 'p', '_', 's', '"', ':'];
    let mid = seq![',', '"', 'n', 'u', 'm', '_', 'f', 'r', 'a', 'm', 'e', 's', '"', ':'];
    let s = visualize_request_json(f, n);
    assert(s =~= head + df + mid + dn + seq!['}']);
    lemma_dec_int_num_chars(f);
    lemma_dec_int_num_chars(n);
    let e1 = 9 + df.len() as int;
    let e2 = e1 + 14 + dn.len() as int;
    assert(s.len() == e2 + 1);
    assert(s.subrange(0, 9) =~= head);
    assert forall|k: int| 9 <= k < e1 implies is_num_char(#[trigger] s[k]) by {
        assert(s[k] == df[k - 9]);
    }
    assert(s[e1] == ',');
    assert(!is_num_char(','));
    lemma_num_end_of_span(s, 9, e1);
    assert(s.subrange(9, e1) =~= df);
    lemma_dec_int_round_trip(f);
    assert(parse_dec_int(s.subrange(9, e1)) == Some(f));
    assert(s.subrange(e1, e1 + 14) =~= mid);
    assert forall|k: int| e1 + 14 <= k < e2 implies is_num_char(#[trigger] s[k]) by {
        assert(s[k] == dn[k - (e1 + 14)]);
    }
    assert(s[e2] == '}');
    assert(!is_num_char('}'));
    lemma_num_end_of_span(s, e1 + 14, e2);
    assert(s.subrange(e1 + 14, e2) =~= dn);
    lemma_dec_int_round_trip(n);
    assert(parse_dec_int(s.subrange(e1 + 14, e2)) == Some(n));
}

/// The string fields a canonical run request text denotes, read strictly,
/// where both mappings are empty.
pub open spec fn parse_run_request_flat(s: Seq<char>) -> Option<
    (Seq<char>, Seq<char>, Seq<char>),
> {
    if s.len() >= 6 && s.subrange(0, 6) == seq!['{', '"', 'i', 'd', '"', ':'] {
        match parse_str_lit(s.skip(6)) {
            Some((id, p1)) => {
                let i1 = 6 + p1;
                if i1 + 11 <= s.len() && s.subrange(i1, i1 + 11) == seq![
                    ',',
                    '"',
                    'b',
                    'a',
                    'c',
                    'k',
                    'e',
                    'n',
                    'd',
                    '"',
                    ':',
                ] {
                    match parse_str_lit(s.skip(i1 + 11)) {
                        Some((backend, p2)) => {
                            let i2 = i1 + 11 + p2;
                            if i2 + 9 <= s.len() && s.subrange(i2, i2 + 9) == seq![
                                ',',
                                '"',
                                'i',
                                'n',
                                'p',
                                'u',
                                't',
                                '"',
                                ':',
                            ] {
                                match parse_str_lit(s.skip(i2 + 9)) {
                                    Some((input, p3)) => {
                                        let i3 = i2 + 9 + p3;
                                        if s.len() == i3 + 22 && s.subrange(i3, i3 + 22) == seq![
                                            ',',
                                            '"',
                                            'c',
                                            'o',
                                            'n',
                                            'f',
                                            'i',
                                            'g',
                                            '"',
                                            ':',
                                            '{',
                                            '}',
                                            ',',
                                            '"',
                                            'f',
                                            'o',
                                            'o',
                                            '"',
                                            ':',
                                            '{',
                                            '}',
                                            '}',
                                        ] {
                                            Some((id, backend, input))
                                        } else {
                                            None
                                        }
                                    },
                                    None => None,
                                }
                            } else {
                                None
                            }
                        },
                        None => None,
                    }
                } else {
                    None
                }
            },
            None => None,
        }
    } else {
        None
    }
}

/// Round trip: a run request whose mappings are empty is recovered, field
/// for field, from its JSON text.
pub proof fn lemma_run_request_round_trip(id: Seq<char>, backend: Seq<char>, input: Seq<char>)
    ensures
        parse_run_request_flat(
            run_request_json(
                id,
                backend,
                input,
                Seq::<(String, crate::json::JsonValue)>::empty(),
                Seq::<(i64, String)>::empty(),
            ),
        ) == Some((id, backend, input)),
{
    let s = run_request_json(
        id,
        backend,
        input,
        Seq::<(String, crate::json::JsonValue)>::empty(),
        Seq::<(i64, String)>::empty(),
    );
    let pre = seq!['{', '"', 'i', 'd', '"', ':'];
    let mid1 = seq![',', '"', 'b', 'a', 'c', 'k', 'e', 'n', 'd', '"', ':'];
    let mid2 = seq![',', '"', 'i', 'n', 'p', 'u', 't', '"', ':'];
    let tail = seq![',', '"', 'c', 'o', 'n', 'f', 'i', 'g', '"', ':', '{', '}', ',', '"', 'f',
        'o', 'o', '"', ':', '{', '}', '}'];
    assert(json_of_members(Seq::<(String, crate::json::JsonValue)>::empty())
        =~= Seq::<char>::empty());
    assert(foo_members_json(Seq::<(i64, String)>::empty()) =~= Seq::<char>::empty());
    let j1 = json_string(id);
    let j2 = json_string(backend);
    let j3 = json_string(input);
    assert(s =~= pre + j1 + mid1 + j2 + mid2 + j3 + tail);
    assert(s.subrange(0, 6) =~= pre);
    assert(s.skip(6) =~= j1 + (mid1 + j2 + mid2 + j3 + tail));
    lemma_parse_str_lit_round_trip(id, mid1 + j2 + mid2 + j3 + tail);
    let i1 = 6 + j1.len() as int;
    assert(s.subrange(i1, i1 + 11) =~= mid1);
    assert(s.skip(i1 + 11) =~= j2 + (mid2 + j3 + tail));
    lemma_parse_str_lit_round_trip(backend, mid2 + j3 + tail);
    let i2 = i1 + 11 + j2.len() as int;
    assert(s.subrange(i2, i2 + 9) =~= mid2);
    assert(s.skip(i2 + 9) =~= j3 + tail);
    lemma_parse_str_lit_round_trip(input, tail);
    let i3 = i2 + 9 + j3.len() as int;
    assert(s.len() == i3 + 22);
    assert(s.subrange(i3, i3 + 22) =~= tail);
}

} // verus!
