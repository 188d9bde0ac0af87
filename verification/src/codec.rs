//! The cache wire format for template records.
//!
//! A record is framed as eleven length-prefixed fields — `<decimal length>`,
//! a colon, then exactly that many characters — in a fixed order.  Numbers
//! travel as decimal text, options with a `+`/`-` tag, booleans as `t`/`f`.
//! Decoding is total: any text that does not parse yields `None`, which the
//! read-through cache treats as a miss.  Decoding an encoded record gives
//! the record back.

use vstd::prelude::*;
use crate::models::template::{Template, TemplateView};
use crate::text::{dec_digit, dec_str, u64_to_string};

verus! {

/// A decimal digit character.
pub open spec fn is_digit(c: char) -> bool {
    '0' <= c && c <= '9'
}

/// The numeric value of a digit character.
pub open spec fn digit_val(c: char) -> int {
    c as int - '0' as int
}

/// Every character is a digit.
pub open spec fn all_digits(s: Seq<char>) -> bool {
    forall|i: int| 0 <= i < s.len() ==> is_digit(#[trigger] s[i])
}

/// The number a digit string denotes, most significant digit first.
pub open spec fn dec_val(s: Seq<char>) -> int
    decreases s.len(),
{
    if s.len() == 0 {
        0
    } else {
        dec_val(s.drop_last()) * 10 + digit_val(s.last())
    }
}

/// Powers of ten.
pub open spec fn pow10(k: nat) -> int
    decreases k,
{
    if k == 0 {
        1int
    } else {
        10 * pow10((k - 1) as nat)
    }
}

/// Decimal notation consists of digits and denotes the number itself.
pub proof fn lemma_dec_str_val(n: nat)
    ensures
        all_digits(dec_str(n)),
        dec_val(dec_str(n)) == n,
        dec_str(n).len() >= 1,
    decreases n,
{
    reveal_strlit("0123456789");
    if n < 10 {
        assert(dec_str(n) == seq![dec_digit(n as int)]);
        assert(is_digit(dec_digit(n as int)) && digit_val(dec_digit(n as int)) == n);
        assert(dec_str(n).drop_last() =~= Seq::<char>::empty());
        assert(dec_val(Seq::<char>::empty()) == 0);
        assert(dec_str(n).last() == dec_digit(n as int));
        assert(dec_val(dec_str(n)) == 0 * 10 + digit_val(dec_digit(n as int)));
    } else {
        lemma_dec_str_val(n / 10);
        let s = dec_str(n);
        assert(s == dec_str(n / 10) + seq![dec_digit((n % 10) as int)]);
        assert(s.drop_last() =~= dec_str(n / 10));
        assert(s.last() == dec_digit((n % 10) as int));
        assert(is_digit(dec_digit((n % 10) as int)) && digit_val(dec_digit((n % 10) as int)) == n
            % 10);
        assert(dec_val(s) == (n / 10) * 10 + n % 10);
        assert((n / 10) * 10 + n % 10 == n) by (nonlinear_arith);
        assert forall|i: int| 0 <= i < s.len() implies is_digit(#[trigger] s[i]) by {
            if i < s.len() - 1 {
                assert(s[i] == dec_str(n / 10)[i]);
            }
        }
    }
}

/// A digit string of length `k` denotes less than `10^k`.
pub proof fn lemma_dec_val_bound(s: Seq<char>)
    requires
        all_digits(s),
    ensures
        0 <= dec_val(s) < pow10(s.len() as nat),
    decreases s.len(),
{
    if s.len() > 0 {
        assert(all_digits(s.drop_last())) by {
            assert forall|i: int| 0 <= i < s.len() - 1 implies is_digit(
                #[trigger] s.drop_last()[i],
            ) by {
                assert(s.drop_last()[i] == s[i]);
            }
        }
        lemma_dec_val_bound(s.drop_last());
        assert(is_digit(s[s.len() - 1]));
        assert(0 <= digit_val(s.last()) <= 9);
    }
}

/// A number below `10^k` is written with at most `k` digits.
pub proof fn lemma_dec_str_len(n: nat, k: nat)
    requires
        k >= 1,
        n < pow10(k),
    ensures
        dec_str(n).len() <= k,
    decreases n,
{
    if n < 10 {
    } else {
        assert(pow10(k) == 10 * pow10((k - 1) as nat));
        if k == 1 {
            assert(pow10(1nat) == 10);
        }
        assert(k >= 2);
        assert(n / 10 < pow10((k - 1) as nat));
        lemma_dec_str_len(n / 10, (k - 1) as nat);
    }
}

/// Every `u64` is written with at most 20 digits.
pub proof fn lemma_dec_str_len_u64(n: u64)
    ensures
        dec_str(n as nat).len() <= 20,
{
    reveal_with_fuel(pow10, 21);
    assert(pow10(20) == 100000000000000000000);
    lemma_dec_str_len(n as nat, 20);
}

/// The first non-digit position at or after `pos`.
pub open spec fn digits_end(s: Seq<char>, pos: int) -> int
    decreases s.len() - pos,
{
    if pos < 0 || pos >= s.len() || !is_digit(s[pos]) {
        pos
    } else {
        digits_end(s, pos + 1)
    }
}

/// A run of `k` digits followed by a non-digit ends exactly there.
pub proof fn lemma_digits_end_run(s: Seq<char>, pos: int, k: int)
    requires
        0 <= pos,
        0 <= k,
        pos + k <= s.len(),
        forall|i: int| pos <= i < pos + k ==> is_digit(#[trigger] s[i]),
        pos + k == s.len() || !is_digit(s[pos + k]),
    ensures
        digits_end(s, pos) == pos + k,
    decreases k,
{
    if k == 0 {
    } else {
        assert(is_digit(s[pos]));
        lemma_digits_end_run(s, pos + 1, k - 1);
    }
}

/// One parsed frame: the payload and the position after it.
pub open spec fn parse_field(s: Seq<char>, pos: int) -> Option<(Seq<char>, int)> {
    let e = digits_end(s, pos);
    if e == pos || e - pos > 20 || e >= s.len() || s[e] != ':' {
        None
    } else {
        let n = dec_val(s.subrange(pos, e));
        if n > s.len() - (e + 1) {
            None
        } else {
            Some((s.subrange(e + 1, e + 1 + n), e + 1 + n))
        }
    }
}

/// The frame for one payload.
pub open spec fn enc_field(p: Seq<char>) -> Seq<char> {
    dec_str(p.len()) + seq![':'] + p
}

/// Parsing an encoded frame in place yields the payload and stops at its
/// end.
pub proof fn lemma_parse_enc_field(s: Seq<char>, pos: int, p: Seq<char>)
    requires
        0 <= pos,
        p.len() <= u64::MAX,
        pos + enc_field(p).len() <= s.len(),
        s.subrange(pos, pos + enc_field(p).len()) == enc_field(p),
    ensures
        parse_field(s, pos) == Some((p, pos + enc_field(p).len())),
{
    reveal_strlit("0123456789");
    let f = enc_field(p);
    let d = dec_str(p.len());
    let dl = d.len() as int;
    lemma_dec_str_val(p.len());
    lemma_dec_str_len_u64(p.len() as u64);
    assert forall|i: int| pos <= i < pos + dl implies is_digit(#[trigger] s[i]) by {
        assert(s[i] == s.subrange(pos, pos + f.len())[i - pos]);
        assert(f[i - pos] == d[i - pos]);
    }
    assert(s[pos + dl] == s.subrange(pos, pos + f.len())[dl]);
    assert(f[dl] == ':');
    assert(!is_digit(':'));
    lemma_digits_end_run(s, pos, dl);
    assert(digits_end(s, pos) == pos + dl);
    assert(s.subrange(pos, pos + dl) =~= d);
    assert(dec_val(s.subrange(pos, pos + dl)) == p.len());
    assert(s.subrange(pos + dl + 1, pos + dl + 1 + p.len() as int) =~= p) by {
        assert forall|i: int| 0 <= i < p.len() implies s.subrange(
            pos + dl + 1,
            pos + dl + 1 + p.len() as int,
        )[i] == p[i] by {
            assert(s[pos + dl + 1 + i] == s.subrange(pos, pos + f.len())[dl + 1 + i]);
            assert(f[dl + 1 + i] == p[i]);
        }
    }
}

/// A number as a payload: digits denoting a value that fits in `u64`.
pub open spec fn parse_num(p: Seq<char>) -> Option<int> {
    if p.len() >= 1 && p.len() <= 20 && all_digits(p) && dec_val(p) <= u64::MAX {
        Some(dec_val(p))
    } else {
        None
    }
}

/// The number payload round trip.
pub proof fn lemma_parse_num_dec_str(n: u64)
    ensures
        parse_num(dec_str(n as nat)) == Some(n as int),
{
    lemma_dec_str_val(n as nat);
    lemma_dec_str_len_u64(n);
}

/// An optional number: `-`, or `+` before its digits.
pub open spec fn enc_opt_num(v: Option<u64>) -> Seq<char> {
    match v {
        None => seq!['-'],
        Some(n) => seq!['+'] + dec_str(n as nat),
    }
}

pub open spec fn parse_opt_num(p: Seq<char>) -> Option<Option<u64>> {
    if p.len() == 1 && p[0] == '-' {
        Some(None)
    } else if p.len() >= 2 && p[0] == '+' {
        match parse_num(p.skip(1)) {
            Some(n) => Some(Some(n as u64)),
            None => None,
        }
    } else {
        None
    }
}

pub proof fn lemma_parse_opt_num(v: Option<u64>)
    ensures
        parse_opt_num(enc_opt_num(v)) == Some(v),
{
    match v {
        None => {},
        Some(n) => {
            lemma_parse_num_dec_str(n);
            lemma_dec_str_val(n as nat);
            assert(enc_opt_num(v).skip(1) =~= dec_str(n as nat));
        },
    }
}

/// An optional text: `-`, or `+` before the text itself.
pub open spec fn enc_opt_str(v: Option<Seq<char>>) -> Seq<char> {
    match v {
        None => seq!['-'],
        Some(t) => seq!['+'] + t,
    }
}

pub open spec fn parse_opt_str(p: Seq<char>) -> Option<Option<Seq<char>>> {
    if p.len() == 1 && p[0] == '-' {
        Some(None)
    } else if p.len() >= 1 && p[0] == '+' {
        Some(Some(p.skip(1)))
    } else {
        None
    }
}

pub proof fn lemma_parse_opt_str(v: Option<Seq<char>>)
    ensures
        parse_opt_str(enc_opt_str(v)) == Some(v),
{
    match v {
        None => {},
        Some(t) => {
            assert(enc_opt_str(v).len() == 1 + t.len());
            assert(enc_opt_str(v).skip(1) =~= t);
            if 1 + t.len() == 1 {
                assert(enc_opt_str(v)[0] == '+');
            }
        },
    }
}

/// A boolean payload.
pub open spec fn enc_bool(b: bool) -> Seq<char> {
    if b {
        seq!['t']
    } else {
        seq!['f']
    }
}

pub open spec fn parse_bool(p: Seq<char>) -> Option<bool> {
    if p.len() == 1 && p[0] == 't' {
        Some(true)
    } else if p.len() == 1 && p[0] == 'f' {
        Some(false)
    } else {
        None
    }
}

/// The full encoded record.
pub open spec fn spec_encode(t: TemplateView) -> Seq<char> {
    enc_field(dec_str(t.id as nat)) + enc_field(t.template_code) + enc_field(
        dec_str(t.version as nat),
    ) + enc_field(t.template_type) + enc_field(t.language) + enc_field(t.content) + enc_field(
        enc_opt_num(t.created_by),
    ) + enc_field(dec_str(t.created_at as nat)) + enc_field(enc_opt_num(t.updated_at)) + enc_field(
        enc_bool(t.is_active),
    ) + enc_field(enc_opt_str(t.meta))
}

/// Whether a record can travel through the frame: a version in range.
pub open spec fn encodable(t: TemplateView) -> bool {
    &&& 0 <= t.version <= i32::MAX
    &&& t.template_code.len() <= u64::MAX
    &&& t.template_type.len() <= u64::MAX
    &&& t.language.len() <= u64::MAX
    &&& t.content.len() <= u64::MAX
    &&& (t.meta matches Some(m) ==> 1 + m.len() <= u64::MAX)
}

/// The decoded record, if the text is a well-formed frame sequence.
pub open spec fn spec_decode(s: Seq<char>) -> Option<TemplateView> {
    match parse_field(s, 0) {
        None => None,
        Some((p1, o1)) => match parse_field(s, o1) {
            None => None,
            Some((p2, o2)) => match parse_field(s, o2) {
                None => None,
                Some((p3, o3)) => match parse_field(s, o3) {
                    None => None,
                    Some((p4, o4)) => match parse_field(s, o4) {
                        None => None,
                        Some((p5, o5)) => match parse_field(s, o5) {
                            None => None,
                            Some((p6, o6)) => match parse_field(s, o6) {
                                None => None,
                                Some((p7, o7)) => match parse_field(s, o7) {
                                    None => None,
                                    Some((p8, o8)) => match parse_field(s, o8) {
                                        None => None,
                                        Some((p9, o9)) => match parse_field(s, o9) {
                                            None => None,
                                            Some((p10, o10)) => match parse_field(s, o10) {
                                                None => None,
                                                Some((p11, o11)) => if o11 != s.len() {
                                                    None
                                                } else {
                                                    spec_build(
                                                        p1,
                                                        p2,
                                                        p3,
                                                        p4,
                                                        p5,
                                                        p6,
                                                        p7,
                                                        p8,
                                                        p9,
                                                        p10,
                                                        p11,
                                                    )
                                                },
                                            },
                                        },
                                    },
                                },
                            },
                        },
                    },
                },
            },
        },
    }
}

/// Interprets the eleven payloads.
pub open spec fn spec_build(
    p1: Seq<char>,
    p2: Seq<char>,
    p3: Seq<char>,
    p4: Seq<char>,
    p5: Seq<char>,
    p6: Seq<char>,
    p7: Seq<char>,
    p8: Seq<char>,
    p9: Seq<char>,
    p10: Seq<char>,
    p11: Seq<char>,
) -> Option<TemplateView> {
    match (parse_num(p1), parse_num(p3), parse_opt_num(p7), parse_num(p8), parse_opt_num(p9),
    parse_bool(p10), parse_opt_str(p11)) {
        (
            Some(id),
            Some(version),
            Some(created_by),
            Some(created_at),
            Some(updated_at),
            Some(is_active),
            Some(meta),
        ) => if version <= i32::MAX {
            Some(
                TemplateView {
                    id: id as u64,
                    template_code: p2,
                    version: version,
                    template_type: p4,
                    language: p5,
                    content: p6,
                    created_by,
                    created_at: created_at as u64,
                    updated_at,
                    is_active,
                    meta,
                },
            )
        } else {
            None
        },
        _ => None,
    }
}

/// Decoding inverts encoding: the cache never hands back a different
/// record than was stored under the frame.
#[verifier::rlimit(100)]
pub proof fn lemma_decode_encode(t: TemplateView)
    requires
        encodable(t),
    ensures
        spec_decode(spec_encode(t)) == Some(t),
{
    let f1 = enc_field(dec_str(t.id as nat));
    let f2 = enc_field(t.template_code);
    let f3 = enc_field(dec_str(t.version as nat));
    let f4 = enc_field(t.template_type);
    let f5 = enc_field(t.language);
    let f6 = enc_field(t.content);
    let f7 = enc_field(enc_opt_num(t.created_by));
    let f8 = enc_field(dec_str(t.created_at as nat));
    let f9 = enc_field(enc_opt_num(t.updated_at));
    let f10 = enc_field(enc_bool(t.is_active));
    let f11 = enc_field(enc_opt_str(t.meta));
    let s = spec_encode(t);
    assert(s == f1 + f2 + f3 + f4 + f5 + f6 + f7 + f8 + f9 + f10 + f11);
    lemma_dec_str_len_u64(t.id as u64);
    lemma_dec_str_len_u64(t.version as u64);
    lemma_dec_str_len_u64(t.created_at as u64);
    lemma_dec_str_val(t.id as nat);
    lemma_dec_str_val(t.version as nat);
    lemma_dec_str_val(t.created_at as nat);
    if t.created_by is Some {
        lemma_dec_str_len_u64(match t.created_by {
            Some(n) => n,
            None => 0,
        });
    }
    if t.updated_at is Some {
        lemma_dec_str_len_u64(match t.updated_at {
            Some(n) => n,
            None => 0,
        });
    }
    let o1: int = f1.len() as int;
    let o2: int = o1 + f2.len();
    let o3: int = o2 + f3.len();
    let o4: int = o3 + f4.len();
    let o5: int = o4 + f5.len();
    let o6: int = o5 + f6.len();
    let o7: int = o6 + f7.len();
    let o8: int = o7 + f8.len();
    let o9: int = o8 + f9.len();
    let o10: int = o9 + f10.len();
    let o11: int = o10 + f11.len();
    assert(s.len() == o11);
    assert(s.subrange(0, o1) =~= f1);
    assert(s.subrange(o1, o2) =~= f2);
    assert(s.subrange(o2, o3) =~= f3);
    assert(s.subrange(o3, o4) =~= f4);
    assert(s.subrange(o4, o5) =~= f5);
    assert(s.subrange(o5, o6) =~= f6);
    assert(s.subrange(o6, o7) =~= f7);
    assert(s.subrange(o7, o8) =~= f8);
    assert(s.subrange(o8, o9) =~= f9);
    assert(s.subrange(o9, o10) =~= f10);
    assert(s.subrange(o10, o11) =~= f11);
    lemma_parse_enc_field(s, 0, dec_str(t.id as nat));
    lemma_parse_enc_field(s, o1, t.template_code);
    lemma_parse_enc_field(s, o2, dec_str(t.version as nat));
    lemma_parse_enc_field(s, o3, t.template_type);
    lemma_parse_enc_field(s, o4, t.language);
    lemma_parse_enc_field(s, o5, t.content);
    lemma_parse_enc_field(s, o6, enc_opt_num(t.created_by));
    lemma_parse_enc_field(s, o7, dec_str(t.created_at as nat));
    lemma_parse_enc_field(s, o8, enc_opt_num(t.updated_at));
    lemma_parse_enc_field(s, o9, enc_bool(t.is_active));
    lemma_parse_enc_field(s, o10, enc_opt_str(t.meta));
    lemma_parse_num_dec_str(t.id as u64);
    lemma_parse_num_dec_str(t.version as u64);
    lemma_parse_num_dec_str(t.created_at as u64);
    lemma_parse_opt_num(t.created_by);
    lemma_parse_opt_num(t.updated_at);
    lemma_parse_opt_str(t.meta);
}

/// Appends one frame.
fn push_field(out: &mut String, payload: &str)
    ensures
        final(out)@ == old(out)@ + enc_field(payload@),
{
    proof {
        reveal_strlit(":");
        assert(":"@ =~= seq![':']);
    }
    let n = payload.unicode_len();
    let len_str = u64_to_string(n as u64);
    out.append(len_str.as_str());
    out.append(":");
    out.append(payload);
    proof {
        assert(final(out)@ =~= old(out)@ + enc_field(payload@));
    }
}

/// Serializes a record for the cache.
pub fn encode_template(t: &Template) -> (r: String)
    requires
        t.version >= 0,
    ensures
        r@ == spec_encode(t@),
{
    proof {
        reveal_strlit("-");
        reveal_strlit("+");
        reveal_strlit("t");
        reveal_strlit("f");
        assert("-"@ =~= seq!['-']);
        assert("+"@ =~= seq!['+']);
        assert("t"@ =~= seq!['t']);
        assert("f"@ =~= seq!['f']);
    }
    let mut out = String::new();
    let id_str = u64_to_string(t.id);
    push_field(&mut out, id_str.as_str());
    push_field(&mut out, t.template_code.as_str());
    let ver_str = u64_to_string(t.version as u64);
    push_field(&mut out, ver_str.as_str());
    push_field(&mut out, t.template_type.as_str());
    push_field(&mut out, t.language.as_str());
    push_field(&mut out, t.content.as_str());
    let created_by_str = opt_num_payload(&t.created_by);
    push_field(&mut out, created_by_str.as_str());
    let created_at_str = u64_to_string(t.created_at);
    push_field(&mut out, created_at_str.as_str());
    let updated_at_str = opt_num_payload(&t.updated_at);
    push_field(&mut out, updated_at_str.as_str());
    push_field(&mut out, if t.is_active {
        "t"
    } else {
        "f"
    });
    let meta_str = opt_str_payload(&t.meta);
    push_field(&mut out, meta_str.as_str());
    proof {
        assert(out@ =~= spec_encode(t@));
    }
    out
}

/// The payload of an optional number.
fn opt_num_payload(v: &Option<u64>) -> (r: String)
    ensures
        r@ == enc_opt_num(*v),
{
    proof {
        reveal_strlit("-");
        reveal_strlit("+");
        assert("-"@ =~= seq!['-']);
        assert("+"@ =~= seq!['+']);
    }
    match v {
        None => "-".to_owned(),
        Some(n) => {
            let mut s = "+".to_owned();
            let d = u64_to_string(*n);
            s.append(d.as_str());
            proof {
                assert(s@ =~= enc_opt_num(*v));
            }
            s
        },
    }
}

/// The payload of an optional text.
fn opt_str_payload(v: &Option<String>) -> (r: String)
    ensures
        r@ == enc_opt_str(match v {
            Some(m) => Some(m@),
            None => None,
        }),
{
    proof {
        reveal_strlit("-");
        reveal_strlit("+");
        assert("-"@ =~= seq!['-']);
        assert("+"@ =~= seq!['+']);
    }
    match v {
        None => "-".to_owned(),
        Some(m) => {
            let mut s = "+".to_owned();
            s.append(m.as_str());
            proof {
                assert(s@ =~= seq!['+'] + m@);
            }
            s
        },
    }
}

/// Parses one frame.
fn parse_field_exec(s: &str, pos: usize) -> (r: Option<(String, usize)>)
    requires
        pos <= s@.len(),
    ensures
        match r {
            Some(pr) => parse_field(s@, pos as int) == Some((pr.0@, pr.1 as int)) && pr.1
                <= s@.len(),
            None => parse_field(s@, pos as int) is None,
        },
{
    let len = s.unicode_len();
    let mut e: usize = pos;
    while e < len && s.get_char(e) >= '0' && s.get_char(e) <= '9'
        invariant
            pos <= e <= len,
            len == s@.len(),
            digits_end(s@, pos as int) == digits_end(s@, e as int),
            forall|i: int| pos <= i < e ==> is_digit(#[trigger] s@[i]),
        decreases len - e,
    {
        e += 1;
    }
    proof {
        assert(digits_end(s@, e as int) == e as int);
    }
    if e == pos || e - pos > 20 || e >= len {
        return None;
    }
    if s.get_char(e) != ':' {
        return None;
    }
    let ghost digits = s@.subrange(pos as int, e as int);
    let mut acc: u128 = 0;
    let mut k: usize = pos;
    proof {
        reveal_with_fuel(pow10, 21);
        assert(s@.subrange(pos as int, pos as int) =~= Seq::<char>::empty());
    }
    while k < e
        invariant
            pos <= k <= e,
            e <= len,
            len == s@.len(),
            e - pos <= 20,
            forall|i: int| pos <= i < e ==> is_digit(#[trigger] s@[i]),
            acc == dec_val(s@.subrange(pos as int, k as int)),
            acc < pow10((k - pos) as nat),
            pow10(20) == 100000000000000000000,
            pow10((k - pos) as nat) <= pow10(20),
        decreases e - k,
    {
        let c = s.get_char(k);
        let d: u128 = ((c as u32) - ('0' as u32)) as u128;
        proof {
            assert(is_digit(s@[k as int]));
            assert(d == digit_val(s@[k as int]));
            assert(d <= 9);
            let pre = s@.subrange(pos as int, k as int);
            let nxt = s@.subrange(pos as int, k as int + 1);
            assert(nxt.drop_last() =~= pre);
            assert(nxt.last() == s@[k as int]);
            assert(dec_val(nxt) == dec_val(pre) * 10 + digit_val(s@[k as int]));
            assert(pow10(((k + 1) - pos) as nat) == 10 * pow10((k - pos) as nat));
            assert(pow10(((k + 1) - pos) as nat) <= pow10(20)) by {
                lemma_pow10_le((k + 1 - pos) as nat, 20);
            }
        }
        acc = acc * 10 + d;
        k += 1;
    }
    if acc > u64::MAX as u128 {
        proof {
            assert(dec_val(digits) > u64::MAX);
        }
        return None;
    }
    let remaining: usize = len - e - 1;
    if acc > remaining as u128 {
        return None;
    }
    let n: usize = acc as usize;
    let payload = s.substring_char(e + 1, e + 1 + n);
    proof {
        assert(payload@ =~= s@.subrange(e as int + 1, e as int + 1 + n as int));
    }
    Some((payload.to_owned(), e + 1 + n))
}

/// Parses a number payload.
fn parse_num_exec(p: &str) -> (r: Option<u64>)
    ensures
        match r {
            Some(n) => parse_num(p@) == Some(n as int),
            None => parse_num(p@) is None,
        },
{
    let len: usize = p.unicode_len();
    if len < 1 || len > 20 {
        return None;
    }
    let mut acc: u128 = 0;
    let mut k: usize = 0;
    proof {
        reveal_with_fuel(pow10, 21);
        assert(p@.subrange(0, 0) =~= Seq::<char>::empty());
    }
    while k < len
        invariant
            k <= len,
            len == p@.len(),
            len <= 20,
            forall|i: int| 0 <= i < k ==> is_digit(#[trigger] p@[i]),
            acc == dec_val(p@.subrange(0, k as int)),
            acc < pow10(k as nat),
            pow10(20) == 100000000000000000000,
            pow10(k as nat) <= pow10(20),
        decreases len - k,
    {
        let c = p.get_char(k);
        if c < '0' || c > '9' {
            proof {
                assert(!is_digit(p@[k as int]));
            }
            return None;
        }
        let d: u128 = ((c as u32) - ('0' as u32)) as u128;
        proof {
            assert(d == digit_val(p@[k as int]));
            assert(d <= 9);
            let pre = p@.subrange(0, k as int);
            let nxt = p@.subrange(0, k as int + 1);
            assert(nxt.drop_last() =~= pre);
            assert(nxt.last() == p@[k as int]);
            assert(pow10((k + 1) as nat) == 10 * pow10(k as nat));
            lemma_pow10_le((k + 1) as nat, 20);
        }
        acc = acc * 10 + d;
        k += 1;
    }
    proof {
        assert(p@.subrange(0, len as int) =~= p@);
    }
    if acc > u64::MAX as u128 {
        return None;
    }
    Some(acc as u64)
}

/// Parses an optional-number payload.
fn parse_opt_num_exec(p: &str) -> (r: Option<Option<u64>>)
    ensures
        match r {
            Some(v) => parse_opt_num(p@) == Some(v),
            None => parse_opt_num(p@) is None,
        },
{
    let len: usize = p.unicode_len();
    if len == 1 && p.get_char(0) == '-' {
        return Some(None);
    }
    if len >= 2 && p.get_char(0) == '+' {
        let rest = p.substring_char(1, len);
        proof {
            assert(rest@ =~= p@.skip(1));
        }
        return match parse_num_exec(rest) {
            Some(n) => Some(Some(n)),
            None => None,
        };
    }
    None
}

/// Parses an optional-text payload.
fn parse_opt_str_exec(p: &str) -> (r: Option<Option<String>>)
    ensures
        match r {
            Some(v) => parse_opt_str(p@) == Some(
                match v {
                    Some(ref m) => Some(m@),
                    None => None,
                },
            ),
            None => parse_opt_str(p@) is None,
        },
{
    let len: usize = p.unicode_len();
    if len == 1 && p.get_char(0) == '-' {
        return Some(None);
    }
    if len >= 1 && p.get_char(0) == '+' {
        let rest = p.substring_char(1, len);
        proof {
            assert(rest@ =~= p@.skip(1));
        }
        return Some(Some(rest.to_owned()));
    }
    None
}

/// Parses a boolean payload.
fn parse_bool_exec(p: &str) -> (r: Option<bool>)
    ensures
        match r {
            Some(b) => parse_bool(p@) == Some(b),
            None => parse_bool(p@) is None,
        },
{
    let len: usize = p.unicode_len();
    if len == 1 && p.get_char(0) == 't' {
        Some(true)
    } else if len == 1 && p.get_char(0) == 'f' {
        Some(false)
    } else {
        None
    }
}

/// Deserializes a cached record; any malformed text is `None`.
pub fn decode_template(s: &str) -> (r: Option<Template>)
    ensures
        match r {
            Some(t) => spec_decode(s@) == Some(t@),
            None => spec_decode(s@) is None,
        },
{
    let len: usize = s.unicode_len();
    let f1 = match parse_field_exec(s, 0) {
        None => {
            return None;
        },
        Some(x) => x,
    };
    let f2 = match parse_field_exec(s, f1.1) {
        None => {
            return None;
        },
        Some(x) => x,
    };
    let f3 = match parse_field_exec(s, f2.1) {
        None => {
            return None;
        },
        Some(x) => x,
    };
    let f4 = match parse_field_exec(s, f3.1) {
        None => {
            return None;
        },
        Some(x) => x,
    };
    let f5 = match parse_field_exec(s, f4.1) {
        None => {
            return None;
        },
        Some(x) => x,
    };
    let f6 = match parse_field_exec(s, f5.1) {
        None => {
            return None;
        },
        Some(x) => x,
    };
    let f7 = match parse_field_exec(s, f6.1) {
        None => {
            return None;
        },
        Some(x) => x,
    };
    let f8 = match parse_field_exec(s, f7.1) {
        None => {
            return None;
        },
        Some(x) => x,
    };
    let f9 = match parse_field_exec(s, f8.1) {
        None => {
            return None;
        },
        Some(x) => x,
    };
    let f10 = match parse_field_exec(s, f9.1) {
        None => {
            return None;
        },
        Some(x) => x,
    };
    let f11 = match parse_field_exec(s, f10.1) {
        None => {
            return None;
        },
        Some(x) => x,
    };
    if f11.1 != len {
        return None;
    }
    let id = match parse_num_exec(f1.0.as_str()) {
        None => {
            return None;
        },
        Some(v) => v,
    };
    let version_num = match parse_num_exec(f3.0.as_str()) {
        None => {
            return None;
        },
        Some(v) => v,
    };
    let created_by = match parse_opt_num_exec(f7.0.as_str()) {
        None => {
            return None;
        },
        Some(v) => v,
    };
    let created_at = match parse_num_exec(f8.0.as_str()) {
        None => {
            return None;
        },
        Some(v) => v,
    };
    let updated_at = match parse_opt_num_exec(f9.0.as_str()) {
        None => {
            return None;
        },
        Some(v) => v,
    };
    let is_active = match parse_bool_exec(f10.0.as_str()) {
        None => {
            return None;
        },
        Some(v) => v,
    };
    let meta = match parse_opt_str_exec(f11.0.as_str()) {
        None => {
            return None;
        },
        Some(v) => v,
    };
    if version_num > i32::MAX as u64 {
        return None;
    }
    let t = Template {
        id,
        template_code: f2.0,
        version: version_num as i32,
        template_type: f4.0,
        language: f5.0,
        content: f6.0,
        created_by,
        created_at,
        updated_at,
        is_active,
        meta,
    };
    Some(t)
}

/// `pow10` is monotone.
proof fn lemma_pow10_le(a: nat, b: nat)
    requires
        a <= b,
    ensures
        pow10(a) <= pow10(b),
    decreases b,
{
    if a < b {
        lemma_pow10_le(a, (b - 1) as nat);
        assert(pow10(b) == 10 * pow10((b - 1) as nat));
        assert(pow10((b - 1) as nat) >= 1) by {
            lemma_pow10_pos((b - 1) as nat);
        }
    }
}

/// `pow10` is positive.
proof fn lemma_pow10_pos(k: nat)
    ensures
        pow10(k) >= 1,
    decreases k,
{
    if k > 0 {
        lemma_pow10_pos((k - 1) as nat);
    }
}

} // verus!
