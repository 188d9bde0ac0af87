//! Verified string utilities: equality, lexicographic comparison, decimal
//! formatting and parsing, and the escaping rules the renderer relies on.

use vstd::prelude::*;

verus! {

/// Character-for-character string equality.
pub fn str_eq(a: &str, b: &str) -> (r: bool)
    ensures
        r == (a@ == b@),
{
    let alen: usize = a.unicode_len();
    let blen: usize = b.unicode_len();
    if alen != blen {
        proof {
            assert(a@.len() != b@.len());
        }
        return false;
    }
    let mut i: usize = 0;
    while i < alen
        invariant
            i <= alen,
            alen == a@.len(),
            alen == b@.len(),
            forall|j: int| 0 <= j < i ==> a@[j] == b@[j],
        decreases alen - i,
    {
        if a.get_char(i) != b.get_char(i) {
            proof {
                assert(a@[i as int] != b@[i as int]);
            }
            return false;
        }
        i += 1;
    }
    proof {
        assert(a@ =~= b@);
    }
    true
}

/// The digit characters, indexable by digit value.
pub open spec fn dec_digit(d: int) -> char {
    "0123456789"@[d]
}

/// Decimal notation of `n`, without leading zeros (`0` is written "0").
pub open spec fn dec_str(n: nat) -> Seq<char>
    decreases n,
{
    if n < 10 {
        seq![dec_digit(n as int)]
    } else {
        dec_str(n / 10) + seq![dec_digit((n % 10) as int)]
    }
}

/// The single-character string for one decimal digit.
fn digit_str(d: u8) -> (s: &'static str)
    requires
        d < 10,
    ensures
        s@ =~= seq![dec_digit(d as int)],
{
    proof {
        reveal_strlit("0123456789");
        reveal_strlit("0");
        reveal_strlit("1");
        reveal_strlit("2");
        reveal_strlit("3");
        reveal_strlit("4");
        reveal_strlit("5");
        reveal_strlit("6");
        reveal_strlit("7");
        reveal_strlit("8");
        reveal_strlit("9");
    }
    match d {
        0 => "0",
        1 => "1",
        2 => "2",
        3 => "3",
        4 => "4",
        5 => "5",
        6 => "6",
        7 => "7",
        8 => "8",
        _ => "9",
    }
}

/// Decimal rendering of an unsigned integer.
pub fn u64_to_string(n: u64) -> (s: String)
    ensures
        s@ == dec_str(n as nat),
    decreases n,
{
    let d: u8 = (n % 10) as u8;
    let ds = digit_str(d);
    if n < 10 {
        ds.to_owned()
    } else {
        let mut s = u64_to_string(n / 10);
        s.append(ds);
        s
    }
}

/// Decimal notation of a signed integer.
pub open spec fn int_str(n: int) -> Seq<char> {
    if n >= 0 {
        dec_str(n as nat)
    } else {
        seq!['-'] + dec_str((-n) as nat)
    }
}

/// Decimal rendering of a signed integer.
pub fn i64_to_string(n: i64) -> (s: String)
    ensures
        s@ == int_str(n as int),
{
    proof {
        reveal_strlit("-");
    }
    if n >= 0 {
        u64_to_string(n as u64)
    } else {
        let mag: u64 = ((-(n + 1)) as u64) + 1;
        proof {
            assert(mag as int == -(n as int));
        }
        let mut s = "-".to_owned();
        let digits = u64_to_string(mag);
        s.append(digits.as_str());
        proof {
            assert(s@ =~= int_str(n as int));
        }
        s
    }
}

/// The hexadecimal digit characters, indexable by value.
pub open spec fn hex_digit(d: int) -> char {
    "0123456789abcdef"@[d]
}

/// The single-character string for one lower-case hexadecimal digit.
pub fn hex_digit_str(d: u8) -> (s: &'static str)
    requires
        d < 16,
    ensures
        s@ =~= seq![hex_digit(d as int)],
{
    proof {
        reveal_strlit("0123456789abcdef");
        reveal_strlit("0");
        reveal_strlit("1");
        reveal_strlit("2");
        reveal_strlit("3");
        reveal_strlit("4");
        reveal_strlit("5");
        reveal_strlit("6");
        reveal_strlit("7");
        reveal_strlit("8");
        reveal_strlit("9");
        reveal_strlit("a");
        reveal_strlit("b");
        reveal_strlit("c");
        reveal_strlit("d");
        reveal_strlit("e");
        reveal_strlit("f");
    }
    match d {
        0 => "0",
        1 => "1",
        2 => "2",
        3 => "3",
        4 => "4",
        5 => "5",
        6 => "6",
        7 => "7",
        8 => "8",
        9 => "9",
        10 => "a",
        11 => "b",
        12 => "c",
        13 => "d",
        14 => "e",
        _ => "f",
    }
}

/// Relies on `String::push`: appends exactly one character.
#[verifier::external_body]
pub fn string_push(s: &mut String, c: char)
    ensures
        final(s)@ == old(s)@ + seq![c],
{
    s.push(c);
}

/// Strict lexicographic order on character sequences, by code point.
pub open spec fn lex_lt(a: Seq<char>, b: Seq<char>) -> bool
    decreases a.len(),
{
    if b.len() == 0 {
        false
    } else if a.len() == 0 {
        true
    } else if a[0] == b[0] {
        lex_lt(a.skip(1), b.skip(1))
    } else {
        a[0] < b[0]
    }
}

/// `lex_lt` is irreflexive and asymmetric.
pub proof fn lemma_lex_lt_asymm(a: Seq<char>, b: Seq<char>)
    requires
        lex_lt(a, b),
    ensures
        !lex_lt(b, a),
        a != b,
    decreases a.len(),
{
    if b.len() == 0 {
    } else if a.len() == 0 {
    } else if a[0] == b[0] {
        lemma_lex_lt_asymm(a.skip(1), b.skip(1));
        assert(a != b) by {
            assert(a.skip(1) != b.skip(1));
            if a == b {
                assert(a.skip(1) =~= b.skip(1));
            }
        }
    }
}

/// Pointwise-equal sequences of equal length are equal.
proof fn lemma_seq_pointwise_eq(a: Seq<char>, b: Seq<char>)
    requires
        a.len() == b.len(),
        forall|j: int| 0 <= j < a.len() ==> a[j] == b[j],
    ensures
        a == b,
{
    assert(a =~= b);
}

/// Any two distinct sequences are ordered one way or the other.
pub proof fn lemma_lex_lt_total(a: Seq<char>, b: Seq<char>)
    requires
        a != b,
    ensures
        lex_lt(a, b) || lex_lt(b, a),
    decreases a.len(),
{
    if a.len() == 0 && b.len() == 0 {
        assert(a =~= b);
    } else if a.len() == 0 || b.len() == 0 {
    } else if a[0] == b[0] {
        assert(a.skip(1) != b.skip(1)) by {
            if a.skip(1) == b.skip(1) {
                assert(a.len() == b.len()) by {
                    assert(a.skip(1).len() == a.len() - 1);
                    assert(b.skip(1).len() == b.len() - 1);
                }
                assert forall|j: int| 0 <= j < a.len() implies a[j] == b[j] by {
                    if j > 0 {
                        assert(a[j] == a.skip(1)[j - 1]);
                        assert(b[j] == b.skip(1)[j - 1]);
                    }
                }
                lemma_seq_pointwise_eq(a, b);
            }
        }
        lemma_lex_lt_total(a.skip(1), b.skip(1));
    }
}

/// `lex_lt` is transitive.
pub proof fn lemma_lex_lt_trans(a: Seq<char>, b: Seq<char>, c: Seq<char>)
    requires
        lex_lt(a, b),
        lex_lt(b, c),
    ensures
        lex_lt(a, c),
    decreases a.len(),
{
    if a.len() == 0 {
    } else if b.len() == 0 {
    } else if c.len() == 0 {
    } else {
        if a[0] == b[0] && b[0] == c[0] {
            lemma_lex_lt_trans(a.skip(1), b.skip(1), c.skip(1));
        }
    }
}

/// A common prefix of length `i` reduces the order to the suffixes.
pub proof fn lemma_lex_lt_common_prefix(a: Seq<char>, b: Seq<char>, i: int)
    requires
        0 <= i <= a.len(),
        i <= b.len(),
        forall|j: int| 0 <= j < i ==> a[j] == b[j],
    ensures
        lex_lt(a, b) == lex_lt(a.skip(i), b.skip(i)),
    decreases i,
{
    if i == 0 {
        assert(a.skip(0) =~= a);
        assert(b.skip(0) =~= b);
    } else {
        assert(a.len() > 0 && b.len() > 0);
        assert(a[0] == b[0]);
        assert forall|j: int| 0 <= j < i - 1 implies a.skip(1)[j] == b.skip(1)[j] by {
            assert(a.skip(1)[j] == a[j + 1]);
            assert(b.skip(1)[j] == b[j + 1]);
        }
        lemma_lex_lt_common_prefix(a.skip(1), b.skip(1), i - 1);
        assert(a.skip(1).skip(i - 1) =~= a.skip(i));
        assert(b.skip(1).skip(i - 1) =~= b.skip(i));
    }
}

/// Three-way comparison; negative, zero, positive as `a` is below, equal to,
/// or above `b` in `lex_lt`.
pub fn str_cmp(a: &str, b: &str) -> (r: i32)
    ensures
        (r < 0) == lex_lt(a@, b@),
        (r == 0) == (a@ == b@),
        (r > 0) == lex_lt(b@, a@),
{
    let alen: usize = a.unicode_len();
    let blen: usize = b.unicode_len();
    let n: usize = if alen < blen {
        alen
    } else {
        blen
    };
    let mut i: usize = 0;
    while i < n
        invariant
            i <= n,
            alen == a@.len(),
            blen == b@.len(),
            n == if alen < blen {
                alen
            } else {
                blen
            },
            forall|j: int| 0 <= j < i ==> a@[j] == b@[j],
        decreases n - i,
    {
        let ca = a.get_char(i);
        let cb = b.get_char(i);
        if ca < cb {
            proof {
                lemma_lex_lt_common_prefix(a@, b@, i as int);
                assert(a@.skip(i as int)[0] == ca);
                assert(b@.skip(i as int)[0] == cb);
                assert(lex_lt(a@.skip(i as int), b@.skip(i as int)));
                lemma_lex_lt_asymm(a@, b@);
            }
            return -1;
        }
        if cb < ca {
            proof {
                lemma_lex_lt_common_prefix(b@, a@, i as int);
                assert(b@.skip(i as int)[0] == cb);
                assert(a@.skip(i as int)[0] == ca);
                assert(lex_lt(b@.skip(i as int), a@.skip(i as int)));
                lemma_lex_lt_asymm(b@, a@);
            }
            return 1;
        }
        i += 1;
    }
    proof {
        lemma_lex_lt_common_prefix(a@, b@, n as int);
        lemma_lex_lt_common_prefix(b@, a@, n as int);
    }
    if alen < blen {
        proof {
            assert(a@.skip(n as int).len() == 0);
            assert(b@.skip(n as int).len() > 0);
            lemma_lex_lt_asymm(a@, b@);
        }
        -1
    } else if alen > blen {
        proof {
            assert(b@.skip(n as int).len() == 0);
            assert(a@.skip(n as int).len() > 0);
            lemma_lex_lt_asymm(b@, a@);
        }
        1
    } else {
        proof {
            assert(a@ =~= b@);
        }
        0
    }
}

/// How one character is written inside a JSON string literal.
pub open spec fn json_escape_char(c: char) -> Seq<char> {
    if c == '"' {
        seq!['\\', '"']
    } else if c == '\\' {
        seq!['\\', '\\']
    } else if c == '\n' {
        seq!['\\', 'n']
    } else if c == '\r' {
        seq!['\\', 'r']
    } else if c == '\t' {
        seq!['\\', 't']
    } else if (c as u32) < 32 {
        seq!['\\', 'u', '0', '0', hex_digit((c as u32) as int / 16), hex_digit(
            (c as u32) as int % 16,
        )]
    } else {
        seq![c]
    }
}

/// A sequence written as the body of a JSON string literal.
pub open spec fn json_escape(s: Seq<char>) -> Seq<char>
    decreases s.len(),
{
    if s.len() == 0 {
        Seq::empty()
    } else {
        json_escape(s.drop_last()) + json_escape_char(s.last())
    }
}

/// How one character is written inside HTML text: the five markup-significant
/// characters become entities.
pub open spec fn html_escape_char(c: char) -> Seq<char> {
    if c == '&' {
        "&amp;"@
    } else if c == '<' {
        "&lt;"@
    } else if c == '>' {
        "&gt;"@
    } else if c == '"' {
        "&quot;"@
    } else if c == '\'' {
        "&#x27;"@
    } else {
        seq![c]
    }
}

/// A sequence with every markup-significant character escaped.
pub open spec fn html_escape(s: Seq<char>) -> Seq<char>
    decreases s.len(),
{
    if s.len() == 0 {
        Seq::empty()
    } else {
        html_escape(s.drop_last()) + html_escape_char(s.last())
    }
}

/// Appends `json_escape_char(c)` to `out`.
fn push_json_escaped_char(out: &mut String, c: char)
    ensures
        final(out)@ == old(out)@ + json_escape_char(c),
{
    proof {
        reveal_strlit("\\\"");
        reveal_strlit("\\\\");
        reveal_strlit("\\n");
        reveal_strlit("\\r");
        reveal_strlit("\\t");
        reveal_strlit("\\u00");
    }
    if c == '"' {
        out.append("\\\"");
    } else if c == '\\' {
        out.append("\\\\");
    } else if c == '\n' {
        out.append("\\n");
    } else if c == '\r' {
        out.append("\\r");
    } else if c == '\t' {
        out.append("\\t");
    } else if (c as u32) < 32 {
        out.append("\\u00");
        let hi: u8 = ((c as u32) / 16) as u8;
        let lo: u8 = ((c as u32) % 16) as u8;
        out.append(hex_digit_str(hi));
        out.append(hex_digit_str(lo));
        proof {
            assert(final(out)@ =~= old(out)@ + json_escape_char(c));
        }
    } else {
        string_push(out, c);
    }
}

/// The body of a JSON string literal for `s`.
pub fn json_escape_str(s: &str) -> (r: String)
    ensures
        r@ == json_escape(s@),
{
    let len: usize = s.unicode_len();
    let mut out = String::new();
    let mut i: usize = 0;
    while i < len
        invariant
            i <= len,
            len == s@.len(),
            out@ == json_escape(s@.take(i as int)),
        decreases len - i,
    {
        let c = s.get_char(i);
        push_json_escaped_char(&mut out, c);
        proof {
            assert(s@.take(i + 1 as int).drop_last() =~= s@.take(i as int));
            assert(s@.take(i + 1 as int).last() == c);
        }
        i += 1;
    }
    proof {
        assert(s@.take(len as int) =~= s@);
    }
    out
}

/// Appends `html_escape_char(c)` to `out`.
fn push_html_escaped_char(out: &mut String, c: char)
    ensures
        final(out)@ == old(out)@ + html_escape_char(c),
{
    proof {
        reveal_strlit("&amp;");
        reveal_strlit("&lt;");
        reveal_strlit("&gt;");
        reveal_strlit("&quot;");
        reveal_strlit("&#x27;");
    }
    if c == '&' {
        out.append("&amp;");
    } else if c == '<' {
        out.append("&lt;");
    } else if c == '>' {
        out.append("&gt;");
    } else if c == '"' {
        out.append("&quot;");
    } else if c == '\'' {
        out.append("&#x27;");
    } else {
        string_push(out, c);
    }
}

/// `s` with every markup-significant character escaped.
pub fn html_escape_str(s: &str) -> (r: String)
    ensures
        r@ == html_escape(s@),
{
    let len: usize = s.unicode_len();
    let mut out = String::new();
    let mut i: usize = 0;
    while i < len
        invariant
            i <= len,
            len == s@.len(),
            out@ == html_escape(s@.take(i as int)),
        decreases len - i,
    {
        let c = s.get_char(i);
        push_html_escaped_char(&mut out, c);
        proof {
            assert(s@.take(i + 1 as int).drop_last() =~= s@.take(i as int));
            assert(s@.take(i + 1 as int).last() == c);
        }
        i += 1;
    }
    proof {
        assert(s@.take(len as int) =~= s@);
    }
    out
}

/// Escaped HTML text never contains a raw `<` or `>`: interpolated values
/// cannot open or close a tag.
pub proof fn lemma_html_escape_no_markup(s: Seq<char>)
    ensures
        forall|i: int| 0 <= i < html_escape(s).len() ==> html_escape(s)[i] != '<',
        forall|i: int| 0 <= i < html_escape(s).len() ==> html_escape(s)[i] != '>',
    decreases s.len(),
{
    reveal_strlit("&amp;");
    reveal_strlit("&lt;");
    reveal_strlit("&gt;");
    reveal_strlit("&quot;");
    reveal_strlit("&#x27;");
    if s.len() > 0 {
        lemma_html_escape_no_markup(s.drop_last());
        let pre = html_escape(s.drop_last());
        let tail = html_escape_char(s.last());
        assert forall|i: int| 0 <= i < tail.len() implies tail[i] != '<' && tail[i] != '>' by {
            let c = s.last();
            if c == '&' {
                assert(tail =~= seq!['&', 'a', 'm', 'p', ';']);
            } else if c == '<' {
                assert(tail =~= seq!['&', 'l', 't', ';']);
            } else if c == '>' {
                assert(tail =~= seq!['&', 'g', 't', ';']);
            } else if c == '"' {
                assert(tail =~= seq!['&', 'q', 'u', 'o', 't', ';']);
            } else if c == '\'' {
                assert(tail =~= seq!['&', '#', 'x', '2', '7', ';']);
            } else {
                assert(tail =~= seq![c]);
            }
        }
        assert(html_escape(s) == pre + tail);
        assert forall|i: int| 0 <= i < html_escape(s).len() implies html_escape(s)[i] != '<'
            && html_escape(s)[i] != '>' by {
            if i < pre.len() {
                assert(html_escape(s)[i] == pre[i]);
            } else {
                assert(html_escape(s)[i] == tail[i - pre.len()]);
            }
        }
    }
}

} // verus!
