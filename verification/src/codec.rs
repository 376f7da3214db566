//! The structured line codec: every message serializes to one
//! tag-discriminated JSON line, and a verified parser reads the line
//! back. Serializing and then parsing any message gives the message back
//! ([`lemma_message_round_trip`]).

use vstd::prelude::*;
use vstd::string::StrSliceExecFns;

use crate::text::{all_digits, dec_chars, dec_value, digit_val, format_usize, is_digit};

verus! {

/// Strips a literal off the front of the input, or refuses.
pub open spec fn p_lit(s: Seq<char>, lit: Seq<char>) -> Option<Seq<char>> {
    if s.len() >= lit.len() && s.take(lit.len() as int) == lit {
        Some(s.skip(lit.len() as int))
    } else {
        None
    }
}

/// A literal strips itself off the front of what it prefixes.
pub proof fn lemma_lit_rt(lit: Seq<char>, rest: Seq<char>)
    ensures
        p_lit(lit + rest, lit) == Some(rest),
{
    assert((lit + rest).take(lit.len() as int) =~= lit);
    assert((lit + rest).skip(lit.len() as int) =~= rest);
}

/// Matches the literal at position `i`, returning the position after it.
fn match_lit(s: &str, i: usize, lit: &str) -> (r: Option<usize>)
    requires
        i <= s@.len(),
    ensures
        match r {
            Some(j) => i <= j <= s@.len() && j - i == lit@.len() && p_lit(
                s@.skip(i as int),
                lit@,
            ) == Some(s@.skip(j as int)),
            None => p_lit(s@.skip(i as int), lit@) is None,
        },
{
    let slen = s.unicode_len();
    let n = lit.unicode_len();
    if slen - i < n {
        return None;
    }
    let mut k: usize = 0;
    while k < n
        invariant
            k <= n,
            slen == s@.len(),
            i + n <= slen,
            n == lit@.len(),
            forall|m: int| 0 <= m < k ==> s@[i + m] == lit@[m],
        decreases n - k,
    {
        if s.get_char(i + k) != lit.get_char(k) {
            proof {
                let suf = s@.skip(i as int);
                if suf.len() >= lit@.len() && suf.take(lit@.len() as int) == lit@ {
                    assert(suf.take(lit@.len() as int)[k as int] == suf[k as int]);
                    assert(suf[k as int] == s@[i + k]);
                }
            }
            return None;
        }
        k = k + 1;
    }
    proof {
        let suf = s@.skip(i as int);
        assert(suf.take(n as int) =~= lit@);
        assert(suf.skip(n as int) =~= s@.skip((i + n) as int));
    }
    Some(i + n)
}

/// How many decimal digits the input starts with.
pub open spec fn digit_prefix_len(s: Seq<char>) -> int
    decreases s.len(),
{
    if s.len() == 0 || !is_digit(s[0]) {
        0
    } else {
        1 + digit_prefix_len(s.skip(1))
    }
}

/// The digit prefix length is the position of the first non-digit.
pub proof fn lemma_digit_prefix_char(s: Seq<char>, k: int)
    requires
        0 <= k <= s.len(),
        forall|m: int| 0 <= m < k ==> is_digit(#[trigger] s[m]),
        k == s.len() || !is_digit(s[k]),
    ensures
        digit_prefix_len(s) == k,
    decreases k,
{
    if k == 0 {
    } else {
        assert(is_digit(s[0]));
        lemma_digit_prefix_char(s.skip(1), k - 1);
    }
}

/// Reads a number off the front of the input: the longest digit prefix,
/// refused when empty or too large for a machine word.
pub open spec fn p_num(s: Seq<char>) -> Option<(usize, Seq<char>)> {
    let k = digit_prefix_len(s);
    if k == 0 {
        None
    } else if dec_value(s.take(k)) > usize::MAX {
        None
    } else {
        Some((dec_value(s.take(k)) as usize, s.skip(k)))
    }
}

/// The digits of a number's rendering are exactly the digit prefix when
/// nothing right after them is a digit, so parsing gives the number back.
pub proof fn lemma_num_rt(n: usize, rest: Seq<char>)
    requires
        rest.len() == 0 || !is_digit(rest[0]),
    ensures
        p_num(dec_chars(n as int) + rest) == Some((n, rest)),
{
    crate::text::lemma_dec_chars_value(n as int);
    let enc = dec_chars(n as int);
    let s = enc + rest;
    let k = enc.len() as int;
    assert forall|m: int| 0 <= m < k implies is_digit(#[trigger] s[m]) by {
        assert(s[m] == enc[m]);
    }
    lemma_digit_prefix_char(s, k);
    assert(s.take(k) =~= enc);
    assert(s.skip(k) =~= rest);
}

/// Reads a number at position `i` as [`p_num`] describes.
fn parse_number(s: &str, i: usize) -> (r: Option<(usize, usize)>)
    requires
        i <= s@.len(),
    ensures
        match r {
            Some((n, j)) => i < j <= s@.len() && p_num(s@.skip(i as int)) == Some((
                n,
                s@.skip(j as int),
            )),
            None => p_num(s@.skip(i as int)) is None,
        },
{
    let slen = s.unicode_len();
    let ghost suf = s@.skip(i as int);
    let mut j: usize = i;
    while j < slen && is_digit_exec(s.get_char(j))
        invariant
            i <= j <= slen,
            slen == s@.len(),
            suf == s@.skip(i as int),
            forall|m: int| 0 <= m < j - i ==> is_digit(#[trigger] suf[m]),
        decreases slen - j,
    {
        proof {
            assert(suf[j - i] == s@[j as int]);
        }
        j = j + 1;
    }
    proof {
        if j < slen {
            assert(suf[j - i] == s@[j as int]);
        }
        lemma_digit_prefix_char(suf, j - i);
    }
    if j == i {
        return None;
    }
    let mut acc: usize = 0;
    let mut m: usize = i;
    proof {
        assert(suf.take(0int) =~= Seq::<char>::empty());
    }
    while m < j
        invariant
            i <= m <= j <= slen,
            i < j,
            slen == s@.len(),
            suf == s@.skip(i as int),
            digit_prefix_len(suf) == j - i,
            forall|t: int| 0 <= t < j - i ==> is_digit(#[trigger] suf[t]),
            acc == dec_value(suf.take(m - i)),
        decreases j - m,
    {
        let c = s.get_char(m);
        proof {
            assert(suf[m - i] == s@[m as int]);
            assert(suf.take(m - i + 1).drop_last() =~= suf.take(m - i));
            assert(suf.take(m - i + 1).last() == suf[m - i]);
        }
        let d = (c as u32 - 48) as usize;
        proof {
            assert(digit_val(suf[m - i]) == d);
            assert(dec_value(suf.take(m - i + 1)) == acc * 10 + d);
        }
        if acc > (usize::MAX - d) / 10 {
            proof {
                assert(acc * 10 + d > usize::MAX) by (nonlinear_arith)
                    requires
                        acc > (usize::MAX - d) / 10,
                        d < 10,
                ;
                assert(all_digits(suf.take(j - i))) by {
                    assert forall|t: int| 0 <= t < j - i implies is_digit(
                        #[trigger] suf.take(j - i)[t],
                    ) by {
                        assert(suf.take(j - i)[t] == suf[t]);
                    }
                }
                crate::text::lemma_dec_prefix_le(suf.take(j - i), m - i + 1);
                assert(suf.take(j - i).take(m - i + 1) =~= suf.take(m - i + 1));
            }
            return None;
        }
        acc = acc * 10 + d;
        m = m + 1;
    }
    proof {
        assert(suf.skip(j - i) =~= s@.skip(j as int));
    }
    Some((acc, j))
}

/// Whether the character is a decimal digit.
fn is_digit_exec(c: char) -> (r: bool)
    ensures
        r == is_digit(c),
{
    let u = c as u32;
    48 <= u && u <= 57
}

/// The escape sequence of one character inside a quoted string: the
/// backslash, the quote, and the newline are escaped, everything else
/// stands for itself.
pub open spec fn esc_one(c: char) -> Seq<char> {
    if c == '\\' {
        seq!['\\', '\\']
    } else if c == '"' {
        seq!['\\', '"']
    } else if c == '\n' {
        seq!['\\', 'n']
    } else {
        seq![c]
    }
}

/// A whole text escaped character by character.
pub open spec fn esc_chars(t: Seq<char>) -> Seq<char>
    decreases t.len(),
{
    if t.len() == 0 {
        Seq::<char>::empty()
    } else {
        esc_chars(t.drop_last()) + esc_one(t.last())
    }
}

/// Escaping can also be unrolled from the front.
pub proof fn lemma_esc_front(t: Seq<char>)
    requires
        t.len() > 0,
    ensures
        esc_chars(t) == esc_one(t[0]) + esc_chars(t.skip(1)),
    decreases t.len(),
{
    if t.len() == 1 {
        assert(t.drop_last() =~= Seq::<char>::empty());
        assert(t.skip(1) =~= Seq::<char>::empty());
        assert(esc_chars(t) =~= esc_one(t[0]) + esc_chars(t.skip(1)));
    } else {
        lemma_esc_front(t.drop_last());
        assert(t.drop_last().skip(1) =~= t.skip(1).drop_last());
        assert(t.skip(1).last() == t.last());
        assert(t.drop_last()[0] == t[0]);
        assert(esc_chars(t) == (esc_one(t[0]) + esc_chars(t.skip(1).drop_last())) + esc_one(
            t.skip(1).last(),
        ));
        assert((esc_one(t[0]) + esc_chars(t.skip(1).drop_last())) + esc_one(t.skip(1).last())
            =~= esc_one(t[0]) + esc_chars(t.skip(1)));
    }
}

/// A quoted, escaped string.
pub open spec fn enc_string(t: Seq<char>) -> Seq<char> {
    seq!['"'] + esc_chars(t) + seq!['"']
}

/// The character an escape code stands for.
pub open spec fn unesc(c: char) -> Option<char> {
    if c == '\\' {
        Some('\\')
    } else if c == '"' {
        Some('"')
    } else if c == 'n' {
        Some('\n')
    } else {
        None
    }
}

/// Reads the inside of a quoted string up to the closing quote,
/// undoing the escapes; the opening quote is already consumed.
pub open spec fn p_str_body(s: Seq<char>) -> Option<(Seq<char>, Seq<char>)>
    decreases s.len(),
{
    if s.len() == 0 {
        None
    } else if s[0] == '"' {
        Some((Seq::<char>::empty(), s.skip(1)))
    } else if s[0] == '\\' {
        if s.len() < 2 {
            None
        } else {
            match unesc(s[1]) {
                None => None,
                Some(c) => match p_str_body(s.skip(2)) {
                    None => None,
                    Some((t, r)) => Some((seq![c] + t, r)),
                },
            }
        }
    } else {
        match p_str_body(s.skip(1)) {
            None => None,
            Some((t, r)) => Some((seq![s[0]] + t, r)),
        }
    }
}

/// Reads a quoted string off the front of the input.
pub open spec fn p_string(s: Seq<char>) -> Option<(Seq<char>, Seq<char>)> {
    if s.len() >= 1 && s[0] == '"' {
        p_str_body(s.skip(1))
    } else {
        None
    }
}

/// Parsing an escaped body up to its closing quote gives the text back.
#[verifier::rlimit(100)]
#[verifier::spinoff_prover]
pub proof fn lemma_str_body_rt(t: Seq<char>, rest: Seq<char>)
    ensures
        p_str_body(esc_chars(t) + (seq!['"'] + rest)) == Some((t, rest)),
    decreases t.len(),
{
    let s = esc_chars(t) + (seq!['"'] + rest);
    if t.len() == 0 {
        assert(s =~= seq!['"'] + rest);
        assert(s[0] == '"');
        assert(s.skip(1) =~= rest);
    } else {
        lemma_esc_front(t);
        lemma_str_body_rt(t.skip(1), rest);
        let tail = esc_chars(t.skip(1)) + (seq!['"'] + rest);
        let c = t[0];
        if c == '\\' || c == '"' || c == '\n' {
            assert(s =~= seq!['\\', if c == '\\' {
                '\\'
            } else if c == '"' {
                '"'
            } else {
                'n'
            }] + tail);
            assert(s[0] == '\\');
            assert(s.skip(2) =~= tail);
            assert(seq![c] + t.skip(1) =~= t);
        } else {
            assert(s =~= seq![c] + tail);
            assert(s[0] == c);
            assert(s.skip(1) =~= tail);
            assert(seq![c] + t.skip(1) =~= t);
        }
    }
}

/// Parsing a quoted, escaped string gives the text back.
#[verifier::rlimit(100)]
#[verifier::spinoff_prover]
pub proof fn lemma_string_rt(t: Seq<char>, rest: Seq<char>)
    ensures
        p_string(enc_string(t) + rest) == Some((t, rest)),
{
    let s = enc_string(t) + rest;
    assert(s[0] == '"');
    assert(s.skip(1) =~= esc_chars(t) + (seq!['"'] + rest));
    lemma_str_body_rt(t, rest);
}

/// Escapes a text as [`esc_chars`] describes.
fn escape_string(t: &str) -> (r: String)
    ensures
        r@ == esc_chars(t@),
{
    let len = t.unicode_len();
    let mut out = String::new();
    let mut j: usize = 0;
    proof {
        assert(out@ =~= esc_chars(t@.take(0int)));
    }
    while j < len
        invariant
            j <= len,
            len == t@.len(),
            out@ == esc_chars(t@.take(j as int)),
        decreases len - j,
    {
        let c = t.get_char(j);
        proof {
            reveal_strlit("\\\\");
            reveal_strlit("\\\"");
            reveal_strlit("\\n");
            assert(t@.take(j + 1).drop_last() =~= t@.take(j as int));
            assert(t@.take(j + 1).last() == t@[j as int]);
        }
        if c == '\\' {
            out.append("\\\\");
            proof {
                assert("\\\\"@ =~= esc_one(t@[j as int]));
            }
        } else if c == '"' {
            out.append("\\\"");
            proof {
                assert("\\\""@ =~= esc_one(t@[j as int]));
            }
        } else if c == '\n' {
            out.append("\\n");
            proof {
                assert("\\n"@ =~= esc_one(t@[j as int]));
            }
        } else {
            out.append(t.substring_char(j, j + 1));
            proof {
                assert(t@.subrange(j as int, j + 1) =~= esc_one(t@[j as int]));
            }
        }
        proof {
            assert(out@ =~= esc_chars(t@.take(j + 1)));
        }
        j = j + 1;
    }
    proof {
        assert(t@.take(len as int) =~= t@);
    }
    out
}

/// Renders a quoted, escaped string as [`enc_string`] describes.
fn encode_string(t: &str) -> (r: String)
    ensures
        r@ == enc_string(t@),
{
    let mut out = String::new();
    out.append("\"");
    let body = escape_string(t);
    out.append(body.as_str());
    out.append("\"");
    proof {
        reveal_strlit("\"");
        assert(out@ =~= enc_string(t@));
    }
    out
}

/// Joins an already-read prefix onto what a body parse still returns.
pub open spec fn glue(prefix: Seq<char>, r: Option<(Seq<char>, Seq<char>)>) -> Option<
    (Seq<char>, Seq<char>),
> {
    match r {
        Some((t, rest)) => Some((prefix + t, rest)),
        None => None,
    }
}

/// Reads a quoted string at position `i` as [`p_string`] describes.
fn parse_string(s: &str, i: usize) -> (r: Option<(String, usize)>)
    requires
        i <= s@.len(),
    ensures
        match r {
            Some((t, j)) => i <= j <= s@.len() && p_string(s@.skip(i as int)) == Some((
                t@,
                s@.skip(j as int),
            )),
            None => p_string(s@.skip(i as int)) is None,
        },
{
    let slen = s.unicode_len();
    if i == slen {
        return None;
    }
    if s.get_char(i) != '"' {
        proof {
            assert(s@.skip(i as int)[0] == s@[i as int]);
        }
        return None;
    }
    proof {
        assert(s@.skip(i as int)[0] == s@[i as int]);
        assert(s@.skip(i as int).skip(1) =~= s@.skip(i + 1));
    }
    let mut out = String::new();
    let mut b: usize = i + 1;
    while b < slen
        invariant
            i < slen,
            slen == s@.len(),
            s@[i as int] == '"',
            i + 1 <= b <= slen,
            p_str_body(s@.skip(i + 1)) == glue(out@, p_str_body(s@.skip(b as int))),
        decreases slen - b,
    {
        let c = s.get_char(b);
        proof {
            assert(s@.skip(b as int)[0] == s@[b as int]);
        }
        if c == '"' {
            proof {
                assert(s@.skip(i as int)[0] == s@[i as int]);
                assert(s@.skip(i as int).skip(1) =~= s@.skip(i + 1));
                assert(s@.skip(b as int).skip(1) =~= s@.skip(b + 1));
                assert(p_str_body(s@.skip(b as int)) == Some(
                    (Seq::<char>::empty(), s@.skip(b + 1)),
                ));
                assert(out@ + Seq::<char>::empty() =~= out@);
                assert(p_string(s@.skip(i as int)) == Some((out@, s@.skip(b + 1))));
            }
            return Some((out, b + 1));
        }
        if c == '\\' {
            if b + 1 == slen {
                proof {
                    assert(s@.skip(b as int).len() < 2);
                    assert(s@.skip(i as int)[0] == s@[i as int]);
                    assert(s@.skip(i as int).skip(1) =~= s@.skip(i + 1));
                }
                return None;
            }
            let c2 = s.get_char(b + 1);
            proof {
                assert(s@.skip(b as int)[1] == s@[b + 1]);
            }
            let u: char;
            if c2 == '\\' {
                u = '\\';
                out.append("\\");
                proof {
                    reveal_strlit("\\");
                    assert("\\"@ =~= seq!['\\']);
                }
            } else if c2 == '"' {
                u = '"';
                out.append("\"");
                proof {
                    reveal_strlit("\"");
                    assert("\""@ =~= seq!['"']);
                }
            } else if c2 == 'n' {
                u = '\n';
                out.append("\n");
                proof {
                    reveal_strlit("\n");
                    assert("\n"@ =~= seq!['\n']);
                }
            } else {
                proof {
                    assert(unesc(s@[b + 1]) is None);
                    assert(s@.skip(i as int)[0] == s@[i as int]);
                    assert(s@.skip(i as int).skip(1) =~= s@.skip(i + 1));
                }
                return None;
            }
            let ghost out0 = out@.take(out@.len() - 1);
            proof {
                assert(out@ =~= out0 + seq![u]);
                assert(s@.skip(b as int).skip(2) =~= s@.skip(b + 2));
                assert(p_str_body(s@.skip(b as int)) == glue(
                    seq![u],
                    p_str_body(s@.skip(b + 2)),
                ));
                match p_str_body(s@.skip(b + 2)) {
                    Some((t, r)) => {
                        assert(out0 + (seq![u] + t) =~= out@ + t);
                    },
                    None => {},
                }
            }
            b = b + 2;
        } else {
            out.append(s.substring_char(b, b + 1));
            let ghost out0 = out@.take(out@.len() - 1);
            proof {
                assert(s@.subrange(b as int, b + 1) =~= seq![s@[b as int]]);
                assert(out@ =~= out0 + seq![s@[b as int]]);
                assert(s@.skip(b as int).skip(1) =~= s@.skip(b + 1));
                assert(p_str_body(s@.skip(b as int)) == glue(
                    seq![s@[b as int]],
                    p_str_body(s@.skip(b + 1)),
                ));
                match p_str_body(s@.skip(b + 1)) {
                    Some((t, r)) => {
                        assert(out0 + (seq![s@[b as int]] + t) =~= out@ + t);
                    },
                    None => {},
                }
            }
            b = b + 1;
        }
    }
    proof {
        assert(s@.skip(b as int).len() == 0);
        assert(s@.skip(i as int)[0] == s@[i as int]);
        assert(s@.skip(i as int).skip(1) =~= s@.skip(i + 1));
    }
    None
}

/// Reads a boolean off the front of the input.
pub open spec fn p_bool(s: Seq<char>) -> Option<(bool, Seq<char>)> {
    match p_lit(s, "true"@) {
        Some(r) => Some((true, r)),
        None => match p_lit(s, "false"@) {
            Some(r) => Some((false, r)),
            None => None,
        },
    }
}

/// The rendering of a boolean.
pub open spec fn enc_bool(b: bool) -> Seq<char> {
    if b {
        "true"@
    } else {
        "false"@
    }
}

/// Parsing a rendered boolean gives it back.
pub proof fn lemma_bool_rt(b: bool, rest: Seq<char>)
    ensures
        p_bool(enc_bool(b) + rest) == Some((b, rest)),
{
    reveal_strlit("true");
    reveal_strlit("false");
    if b {
        lemma_lit_rt("true"@, rest);
    } else {
        lemma_lit_rt("false"@, rest);
        let s = "false"@ + rest;
        if s.len() >= "true"@.len() && s.take("true"@.len() as int) == "true"@ {
            assert(s.take("true"@.len() as int)[0] == s[0]);
        }
    }
}

/// Reads a boolean at position `i` as [`p_bool`] describes.
fn parse_bool(s: &str, i: usize) -> (r: Option<(bool, usize)>)
    requires
        i <= s@.len(),
    ensures
        match r {
            Some((b, j)) => i <= j <= s@.len() && p_bool(s@.skip(i as int)) == Some((
                b,
                s@.skip(j as int),
            )),
            None => p_bool(s@.skip(i as int)) is None,
        },
{
    if let Some(j) = match_lit(s, i, "true") {
        return Some((true, j));
    }
    if let Some(j) = match_lit(s, i, "false") {
        return Some((false, j));
    }
    None
}


/// Joins already-read items onto what a list parse still returns.
pub open spec fn glue_list<A>(prefix: Seq<A>, r: Option<(Seq<A>, Seq<char>)>) -> Option<
    (Seq<A>, Seq<char>),
> {
    match r {
        Some((items, rest)) => Some((prefix + items, rest)),
        None => None,
    }
}

/// One card as a structured record.
pub open spec fn enc_card(c: crate::cards::Card) -> Seq<char> {
    "{\"suit\":"@ + dec_chars(c.suit as int) + ",\"value\":"@ + dec_chars(c.value as int) + "}"@
}

/// Reads one card record off the front of the input.
pub open spec fn p_card(s: Seq<char>) -> Option<(crate::cards::Card, Seq<char>)> {
    match p_lit(s, "{\"suit\":"@) {
        None => None,
        Some(s1) => match p_num(s1) {
            None => None,
            Some((suit, s2)) => match p_lit(s2, ",\"value\":"@) {
                None => None,
                Some(s3) => match p_num(s3) {
                    None => None,
                    Some((value, s4)) => match p_lit(s4, "}"@) {
                        None => None,
                        Some(s5) => Some((crate::cards::Card { suit, value }, s5)),
                    },
                },
            },
        },
    }
}

/// Parsing a rendered card gives the card back; the rendering is never
/// empty.
#[verifier::rlimit(100)]
#[verifier::spinoff_prover]
pub proof fn lemma_card_rt(c: crate::cards::Card, rest: Seq<char>)
    ensures
        p_card(enc_card(c) + rest) == Some((c, rest)),
        enc_card(c).len() > 0,
        (enc_card(c) + rest)[0] == '{',
{
    reveal_strlit("{\"suit\":");
    reveal_strlit(",\"value\":");
    reveal_strlit("}");
    let s = enc_card(c) + rest;
    let s1 = dec_chars(c.suit as int) + (",\"value\":"@ + (dec_chars(c.value as int) + ("}"@
        + rest)));
    assert(s =~= "{\"suit\":"@ + s1);
    lemma_lit_rt("{\"suit\":"@, s1);
    let s2 = ",\"value\":"@ + (dec_chars(c.value as int) + ("}"@ + rest));
    lemma_num_rt(c.suit, s2);
    let s3 = dec_chars(c.value as int) + ("}"@ + rest);
    lemma_lit_rt(",\"value\":"@, s3);
    let s4 = "}"@ + rest;
    crate::text::lemma_dec_chars_value(c.value as int);
    lemma_num_rt(c.value, s4);
    lemma_lit_rt("}"@, rest);
    crate::text::lemma_dec_chars_value(c.suit as int);
    assert(s[0] == '{');
}

/// Renders one card as [`enc_card`] describes.
fn encode_card(c: crate::cards::Card) -> (r: String)
    ensures
        r@ == enc_card(c),
{
    let mut out = String::new();
    out.append("{\"suit\":");
    let suit = format_usize(c.suit);
    out.append(suit.as_str());
    out.append(",\"value\":");
    let value = format_usize(c.value);
    out.append(value.as_str());
    out.append("}");
    proof {
        assert(out@ =~= enc_card(c));
    }
    out
}

/// Reads one card record at position `i` as [`p_card`] describes.
fn parse_card(s: &str, i: usize) -> (r: Option<(crate::cards::Card, usize)>)
    requires
        i <= s@.len(),
    ensures
        match r {
            Some((c, j)) => i < j <= s@.len() && p_card(s@.skip(i as int)) == Some((
                c,
                s@.skip(j as int),
            )),
            None => p_card(s@.skip(i as int)) is None,
        },
{
    proof {
        reveal_strlit("{\"suit\":");
    }
    let j1 = match match_lit(s, i, "{\"suit\":") {
        Some(j) => j,
        None => {
            return None;
        },
    };
    let (suit, j2) = match parse_number(s, j1) {
        Some(v) => v,
        None => {
            return None;
        },
    };
    let j3 = match match_lit(s, j2, ",\"value\":") {
        Some(j) => j,
        None => {
            return None;
        },
    };
    let (value, j4) = match parse_number(s, j3) {
        Some(v) => v,
        None => {
            return None;
        },
    };
    let j5 = match match_lit(s, j4, "}") {
        Some(j) => j,
        None => {
            return None;
        },
    };
    Some((crate::cards::Card { suit, value }, j5))
}

/// The items of a card list after the first, each preceded by a comma,
/// closed by the bracket.
pub open spec fn enc_cards_more(cards: Seq<crate::cards::Card>) -> Seq<char>
    decreases cards.len(),
{
    if cards.len() == 0 {
        "]"@
    } else {
        ","@ + enc_card(cards[0]) + enc_cards_more(cards.skip(1))
    }
}

/// A whole card list in brackets.
pub open spec fn enc_cards(cards: Seq<crate::cards::Card>) -> Seq<char> {
    if cards.len() == 0 {
        "[]"@
    } else {
        "["@ + enc_card(cards[0]) + enc_cards_more(cards.skip(1))
    }
}

/// Reads the rest of a card list: a closing bracket, or a comma and a
/// card and the rest again.
pub open spec fn p_cards_more(s: Seq<char>) -> Option<(Seq<crate::cards::Card>, Seq<char>)>
    decreases s.len(),
{
    if s.len() == 0 {
        None
    } else if s[0] == ']' {
        Some((Seq::empty(), s.skip(1)))
    } else if s[0] == ',' {
        match p_card(s.skip(1)) {
            None => None,
            Some((c, s2)) => if s2.len() < s.len() {
                match p_cards_more(s2) {
                    None => None,
                    Some((cs, r)) => Some((seq![c] + cs, r)),
                }
            } else {
                None
            },
        }
    } else {
        None
    }
}

/// Reads a bracketed card list off the front of the input.
pub open spec fn p_cards(s: Seq<char>) -> Option<(Seq<crate::cards::Card>, Seq<char>)> {
    match p_lit(s, "["@) {
        None => None,
        Some(s1) => if s1.len() > 0 && s1[0] == ']' {
            Some((Seq::empty(), s1.skip(1)))
        } else {
            match p_card(s1) {
                None => None,
                Some((c, s2)) => if s2.len() < s1.len() {
                    match p_cards_more(s2) {
                        None => None,
                        Some((cs, r)) => Some((seq![c] + cs, r)),
                    }
                } else {
                    None
                },
            }
        },
    }
}

/// Parsing the rendered tail of a card list gives the cards back.
#[verifier::rlimit(100)]
#[verifier::spinoff_prover]
pub proof fn lemma_cards_more_rt(cards: Seq<crate::cards::Card>, rest: Seq<char>)
    ensures
        p_cards_more(enc_cards_more(cards) + rest) == Some((cards, rest)),
    decreases cards.len(),
{
    reveal_strlit("]");
    reveal_strlit(",");
    let s = enc_cards_more(cards) + rest;
    if cards.len() == 0 {
        assert(s =~= "]"@ + rest);
        assert(s[0] == ']');
        assert(s.skip(1) =~= rest);
        assert(cards =~= Seq::<crate::cards::Card>::empty());
    } else {
        let tail = enc_cards_more(cards.skip(1)) + rest;
        assert(s =~= ","@ + (enc_card(cards[0]) + tail));
        assert(s[0] == ',');
        assert(s.skip(1) =~= enc_card(cards[0]) + tail);
        lemma_card_rt(cards[0], tail);
        lemma_cards_more_rt(cards.skip(1), rest);
        assert(tail.len() < s.len());
        assert(seq![cards[0]] + cards.skip(1) =~= cards);
    }
}

/// Parsing a rendered card list gives the cards back.
#[verifier::rlimit(100)]
#[verifier::spinoff_prover]
pub proof fn lemma_cards_rt(cards: Seq<crate::cards::Card>, rest: Seq<char>)
    ensures
        p_cards(enc_cards(cards) + rest) == Some((cards, rest)),
{
    reveal_strlit("[");
    reveal_strlit("[]");
    reveal_strlit("]");
    let s = enc_cards(cards) + rest;
    if cards.len() == 0 {
        assert(s =~= "["@ + ("]"@ + rest));
        lemma_lit_rt("["@, "]"@ + rest);
        assert(("]"@ + rest)[0] == ']');
        assert(("]"@ + rest).skip(1) =~= rest);
        assert(cards =~= Seq::<crate::cards::Card>::empty());
    } else {
        let tail = enc_cards_more(cards.skip(1)) + rest;
        let s1 = enc_card(cards[0]) + tail;
        assert(s =~= "["@ + s1);
        lemma_lit_rt("["@, s1);
        lemma_card_rt(cards[0], tail);
        assert(s1[0] == '{');
        lemma_cards_more_rt(cards.skip(1), rest);
        assert(tail.len() < s1.len());
        assert(seq![cards[0]] + cards.skip(1) =~= cards);
    }
}

/// Renders a card list as [`enc_cards`] describes.
fn encode_cards(cards: &Vec<crate::cards::Card>) -> (r: String)
    ensures
        r@ == enc_cards(cards@),
{
    if cards.len() == 0 {
        let mut out = String::new();
        out.append("[]");
        proof {
            assert(out@ =~= enc_cards(cards@));
        }
        return out;
    }
    let mut out = String::new();
    out.append("[");
    let first = encode_card(cards[0]);
    out.append(first.as_str());
    let mut k: usize = 1;
    let ghost prefix = out@;
    while k < cards.len()
        invariant
            1 <= k <= cards@.len(),
            prefix == "["@ + enc_card(cards@[0]),
            out@ + enc_cards_more(cards@.skip(k as int)) == prefix + enc_cards_more(
                cards@.skip(1),
            ),
        decreases cards@.len() - k,
    {
        out.append(",");
        let piece = encode_card(cards[k]);
        out.append(piece.as_str());
        proof {
            assert(cards@.skip(k as int)[0] == cards@[k as int]);
            assert(cards@.skip(k as int).skip(1) =~= cards@.skip(k + 1));
            assert(enc_cards_more(cards@.skip(k as int)) == ","@ + enc_card(cards@[k as int])
                + enc_cards_more(cards@.skip(k + 1)));
        }
        k = k + 1;
    }
    out.append("]");
    proof {
        assert(cards@.skip(cards@.len() as int).len() == 0);
        assert(enc_cards_more(cards@.skip(cards@.len() as int)) == "]"@);
        assert(out@ =~= prefix + enc_cards_more(cards@.skip(1)));
        assert(out@ =~= enc_cards(cards@));
    }
    out
}

/// Reads a bracketed card list at position `i` as [`p_cards`] describes.
fn parse_cards(s: &str, i: usize) -> (r: Option<(Vec<crate::cards::Card>, usize)>)
    requires
        i <= s@.len(),
    ensures
        match r {
            Some((cards, j)) => i <= j <= s@.len() && p_cards(s@.skip(i as int)) == Some((
                cards@,
                s@.skip(j as int),
            )),
            None => p_cards(s@.skip(i as int)) is None,
        },
{
    let slen = s.unicode_len();
    let j0 = match match_lit(s, i, "[") {
        Some(j) => j,
        None => {
            return None;
        },
    };
    let mut out: Vec<crate::cards::Card> = Vec::new();
    if j0 < slen && s.get_char(j0) == ']' {
        proof {
            assert(s@.skip(j0 as int)[0] == s@[j0 as int]);
            assert(s@.skip(j0 as int).skip(1) =~= s@.skip(j0 + 1));
            assert(out@ =~= Seq::<crate::cards::Card>::empty());
        }
        return Some((out, j0 + 1));
    }
    proof {
        if s@.skip(j0 as int).len() > 0 {
            assert(s@.skip(j0 as int)[0] == s@[j0 as int]);
        }
    }
    let (first, j1) = match parse_card(s, j0) {
        Some(v) => v,
        None => {
            return None;
        },
    };
    out.push(first);
    proof {
        assert(out@ =~= seq![first]);
        assert(s@.skip(j1 as int).len() < s@.skip(j0 as int).len());
    }
    let mut b: usize = j1;
    while b < slen
        invariant
            slen == s@.len(),
            i <= b <= slen,
            out@.len() >= 1,
            p_cards(s@.skip(i as int)) == glue_list(
                out@,
                p_cards_more(s@.skip(b as int)),
            ),
        decreases slen - b,
    {
        let c = s.get_char(b);
        proof {
            assert(s@.skip(b as int)[0] == s@[b as int]);
        }
        if c == ']' {
            proof {
                assert(s@.skip(b as int).skip(1) =~= s@.skip(b + 1));
                assert(out@ + Seq::<crate::cards::Card>::empty() =~= out@);
            }
            return Some((out, b + 1));
        }
        if c != ',' {
            return None;
        }
        proof {
            assert(s@.skip(b as int).skip(1) =~= s@.skip(b + 1));
        }
        let (card, j2) = match parse_card(s, b + 1) {
            Some(v) => v,
            None => {
                return None;
            },
        };
        let ghost out0 = out@;
        out.push(card);
        proof {
            assert(s@.skip(j2 as int).len() < s@.skip(b as int).len());
            assert(p_cards_more(s@.skip(b as int)) == glue_list(
                seq![card],
                p_cards_more(s@.skip(j2 as int)),
            ));
            match p_cards_more(s@.skip(j2 as int)) {
                Some((cs, r_)) => {
                    assert(out0 + (seq![card] + cs) =~= out@ + cs);
                },
                None => {},
            }
        }
        b = j2;
    }
    proof {
        assert(s@.skip(b as int).len() == 0);
    }
    None
}


/// The items of a number list after the first.
pub open spec fn enc_nums_more(nums: Seq<usize>) -> Seq<char>
    decreases nums.len(),
{
    if nums.len() == 0 {
        "]"@
    } else {
        ","@ + dec_chars(nums[0] as int) + enc_nums_more(nums.skip(1))
    }
}

/// A whole number list in brackets.
pub open spec fn enc_nums(nums: Seq<usize>) -> Seq<char> {
    if nums.len() == 0 {
        "[]"@
    } else {
        "["@ + dec_chars(nums[0] as int) + enc_nums_more(nums.skip(1))
    }
}

/// Reads the rest of a number list.
pub open spec fn p_nums_more(s: Seq<char>) -> Option<(Seq<usize>, Seq<char>)>
    decreases s.len(),
{
    if s.len() == 0 {
        None
    } else if s[0] == ']' {
        Some((Seq::empty(), s.skip(1)))
    } else if s[0] == ',' {
        match p_num(s.skip(1)) {
            None => None,
            Some((n, s2)) => if s2.len() < s.len() {
                match p_nums_more(s2) {
                    None => None,
                    Some((ns, r)) => Some((seq![n] + ns, r)),
                }
            } else {
                None
            },
        }
    } else {
        None
    }
}

/// Reads a bracketed number list off the front of the input.
pub open spec fn p_nums(s: Seq<char>) -> Option<(Seq<usize>, Seq<char>)> {
    match p_lit(s, "["@) {
        None => None,
        Some(s1) => if s1.len() > 0 && s1[0] == ']' {
            Some((Seq::empty(), s1.skip(1)))
        } else {
            match p_num(s1) {
                None => None,
                Some((n, s2)) => if s2.len() < s1.len() {
                    match p_nums_more(s2) {
                        None => None,
                        Some((ns, r)) => Some((seq![n] + ns, r)),
                    }
                } else {
                    None
                },
            }
        },
    }
}

/// Parsing the rendered tail of a number list gives the numbers back.
#[verifier::rlimit(100)]
#[verifier::spinoff_prover]
pub proof fn lemma_nums_more_rt(nums: Seq<usize>, rest: Seq<char>)
    ensures
        p_nums_more(enc_nums_more(nums) + rest) == Some((nums, rest)),
    decreases nums.len(),
{
    reveal_strlit("]");
    reveal_strlit(",");
    let s = enc_nums_more(nums) + rest;
    if nums.len() == 0 {
        assert(s =~= "]"@ + rest);
        assert(s[0] == ']');
        assert(s.skip(1) =~= rest);
        assert(nums =~= Seq::<usize>::empty());
    } else {
        let tail = enc_nums_more(nums.skip(1)) + rest;
        assert(s =~= ","@ + (dec_chars(nums[0] as int) + tail));
        assert(s[0] == ',');
        assert(s.skip(1) =~= dec_chars(nums[0] as int) + tail);
        crate::text::lemma_dec_chars_value(nums[0] as int);
        assert(tail[0] == ',' || tail[0] == ']') by {
            if nums.skip(1).len() == 0 {
                assert(tail =~= "]"@ + rest);
            } else {
                assert(tail[0] == (","@ + (dec_chars(nums.skip(1)[0] as int) + (enc_nums_more(
                    nums.skip(1).skip(1),
                ) + rest)))[0]) by {
                    assert(tail =~= ","@ + (dec_chars(nums.skip(1)[0] as int) + (enc_nums_more(
                        nums.skip(1).skip(1),
                    ) + rest)));
                }
            }
        }
        lemma_num_rt(nums[0], tail);
        lemma_nums_more_rt(nums.skip(1), rest);
        assert(tail.len() < s.len());
        assert(seq![nums[0]] + nums.skip(1) =~= nums);
    }
}

/// Parsing a rendered number list gives the numbers back.
#[verifier::rlimit(100)]
#[verifier::spinoff_prover]
pub proof fn lemma_nums_rt(nums: Seq<usize>, rest: Seq<char>)
    ensures
        p_nums(enc_nums(nums) + rest) == Some((nums, rest)),
{
    reveal_strlit("[");
    reveal_strlit("[]");
    reveal_strlit("]");
    let s = enc_nums(nums) + rest;
    if nums.len() == 0 {
        assert(s =~= "["@ + ("]"@ + rest));
        lemma_lit_rt("["@, "]"@ + rest);
        assert(("]"@ + rest)[0] == ']');
        assert(("]"@ + rest).skip(1) =~= rest);
        assert(nums =~= Seq::<usize>::empty());
    } else {
        let tail = enc_nums_more(nums.skip(1)) + rest;
        let s1 = dec_chars(nums[0] as int) + tail;
        assert(s =~= "["@ + s1);
        lemma_lit_rt("["@, s1);
        crate::text::lemma_dec_chars_value(nums[0] as int);
        assert(tail[0] == ',' || tail[0] == ']') by {
            reveal_strlit(",");
            if nums.skip(1).len() == 0 {
                assert(tail =~= "]"@ + rest);
            } else {
                assert(tail =~= ","@ + (dec_chars(nums.skip(1)[0] as int) + (enc_nums_more(
                    nums.skip(1).skip(1),
                ) + rest)));
            }
        }
        lemma_num_rt(nums[0], tail);
        assert(s1[0] == dec_chars(nums[0] as int)[0]);
        assert(is_digit(s1[0]));
        assert(s1[0] != ']');
        lemma_nums_more_rt(nums.skip(1), rest);
        assert(tail.len() < s1.len());
        assert(seq![nums[0]] + nums.skip(1) =~= nums);
    }
}

/// Renders a number list as [`enc_nums`] describes.
fn encode_nums(nums: &Vec<usize>) -> (r: String)
    ensures
        r@ == enc_nums(nums@),
{
    if nums.len() == 0 {
        let mut out = String::new();
        out.append("[]");
        proof {
            assert(out@ =~= enc_nums(nums@));
        }
        return out;
    }
    let mut out = String::new();
    out.append("[");
    let first = format_usize(nums[0]);
    out.append(first.as_str());
    let mut k: usize = 1;
    let ghost prefix = out@;
    while k < nums.len()
        invariant
            1 <= k <= nums@.len(),
            prefix == "["@ + dec_chars(nums@[0] as int),
            out@ + enc_nums_more(nums@.skip(k as int)) == prefix + enc_nums_more(nums@.skip(1)),
        decreases nums@.len() - k,
    {
        out.append(",");
        let piece = format_usize(nums[k]);
        out.append(piece.as_str());
        proof {
            assert(nums@.skip(k as int)[0] == nums@[k as int]);
            assert(nums@.skip(k as int).skip(1) =~= nums@.skip(k + 1));
            assert(enc_nums_more(nums@.skip(k as int)) == ","@ + dec_chars(nums@[k as int] as int)
                + enc_nums_more(nums@.skip(k + 1)));
        }
        k = k + 1;
    }
    out.append("]");
    proof {
        assert(nums@.skip(nums@.len() as int).len() == 0);
        assert(enc_nums_more(nums@.skip(nums@.len() as int)) == "]"@);
        assert(out@ =~= prefix + enc_nums_more(nums@.skip(1)));
        assert(out@ =~= enc_nums(nums@));
    }
    out
}

/// Reads a bracketed number list at position `i` as [`p_nums`] describes.
fn parse_nums(s: &str, i: usize) -> (r: Option<(Vec<usize>, usize)>)
    requires
        i <= s@.len(),
    ensures
        match r {
            Some((nums, j)) => i <= j <= s@.len() && p_nums(s@.skip(i as int)) == Some((
                nums@,
                s@.skip(j as int),
            )),
            None => p_nums(s@.skip(i as int)) is None,
        },
{
    let slen = s.unicode_len();
    let j0 = match match_lit(s, i, "[") {
        Some(j) => j,
        None => {
            return None;
        },
    };
    let mut out: Vec<usize> = Vec::new();
    if j0 < slen && s.get_char(j0) == ']' {
        proof {
            assert(s@.skip(j0 as int)[0] == s@[j0 as int]);
            assert(s@.skip(j0 as int).skip(1) =~= s@.skip(j0 + 1));
            assert(out@ =~= Seq::<usize>::empty());
        }
        return Some((out, j0 + 1));
    }
    proof {
        if s@.skip(j0 as int).len() > 0 {
            assert(s@.skip(j0 as int)[0] == s@[j0 as int]);
        }
    }
    let (first, j1) = match parse_number(s, j0) {
        Some(v) => v,
        None => {
            return None;
        },
    };
    out.push(first);
    proof {
        assert(out@ =~= seq![first]);
        assert(s@.skip(j1 as int).len() < s@.skip(j0 as int).len());
    }
    let mut b: usize = j1;
    while b < slen
        invariant
            slen == s@.len(),
            i <= b <= slen,
            out@.len() >= 1,
            p_nums(s@.skip(i as int)) == glue_list(out@, p_nums_more(s@.skip(b as int))),
        decreases slen - b,
    {
        let c = s.get_char(b);
        proof {
            assert(s@.skip(b as int)[0] == s@[b as int]);
        }
        if c == ']' {
            proof {
                assert(s@.skip(b as int).skip(1) =~= s@.skip(b + 1));
                assert(out@ + Seq::<usize>::empty() =~= out@);
            }
            return Some((out, b + 1));
        }
        if c != ',' {
            return None;
        }
        proof {
            assert(s@.skip(b as int).skip(1) =~= s@.skip(b + 1));
        }
        let (n, j2) = match parse_number(s, b + 1) {
            Some(v) => v,
            None => {
                return None;
            },
        };
        let ghost out0 = out@;
        out.push(n);
        proof {
            assert(s@.skip(j2 as int).len() < s@.skip(b as int).len());
            assert(p_nums_more(s@.skip(b as int)) == glue_list(
                seq![n],
                p_nums_more(s@.skip(j2 as int)),
            ));
            match p_nums_more(s@.skip(j2 as int)) {
                Some((ns, r_)) => {
                    assert(out0 + (seq![n] + ns) =~= out@ + ns);
                },
                None => {},
            }
        }
        b = j2;
    }
    proof {
        assert(s@.skip(b as int).len() == 0);
    }
    None
}

/// An optional number: `null` when unset.
pub open spec fn enc_opt_num(o: Option<usize>) -> Seq<char> {
    match o {
        None => "null"@,
        Some(n) => dec_chars(n as int),
    }
}

/// Reads an optional number off the front of the input.
pub open spec fn p_opt_num(s: Seq<char>) -> Option<(Option<usize>, Seq<char>)> {
    match p_lit(s, "null"@) {
        Some(r) => Some((None, r)),
        None => match p_num(s) {
            None => None,
            Some((n, r)) => Some((Some(n), r)),
        },
    }
}

/// Parsing a rendered optional number gives it back.
#[verifier::rlimit(100)]
#[verifier::spinoff_prover]
pub proof fn lemma_opt_num_rt(o: Option<usize>, rest: Seq<char>)
    requires
        rest.len() == 0 || !is_digit(rest[0]),
    ensures
        p_opt_num(enc_opt_num(o) + rest) == Some((o, rest)),
{
    reveal_strlit("null");
    let s = enc_opt_num(o) + rest;
    match o {
        None => {
            lemma_lit_rt("null"@, rest);
        },
        Some(n) => {
            crate::text::lemma_dec_chars_value(n as int);
            assert(s[0] == dec_chars(n as int)[0]);
            assert(is_digit(s[0]));
            if s.len() >= "null"@.len() && s.take("null"@.len() as int) == "null"@ {
                assert(s.take("null"@.len() as int)[0] == s[0]);
            }
            lemma_num_rt(n, rest);
        },
    }
}

/// Reads an optional number at position `i` as [`p_opt_num`] describes.
fn parse_opt_num(s: &str, i: usize) -> (r: Option<(Option<usize>, usize)>)
    requires
        i <= s@.len(),
    ensures
        match r {
            Some((o, j)) => i <= j <= s@.len() && p_opt_num(s@.skip(i as int)) == Some((
                o,
                s@.skip(j as int),
            )),
            None => p_opt_num(s@.skip(i as int)) is None,
        },
{
    if let Some(j) = match_lit(s, i, "null") {
        return Some((None, j));
    }
    match parse_number(s, i) {
        Some((n, j)) => Some((Some(n), j)),
        None => None,
    }
}

/// One seat's public state as a structured record.
pub open spec fn enc_state(p: crate::structs::PublicState) -> Seq<char> {
    "{\"guess\":"@ + enc_opt_num(p.guess) + ",\"wins\":"@ + dec_chars(p.wins as int)
        + ",\"score\":"@ + dec_chars(p.score as int) + "}"@
}

/// Reads one public-state record off the front of the input.
pub open spec fn p_state(s: Seq<char>) -> Option<(crate::structs::PublicState, Seq<char>)> {
    match p_lit(s, "{\"guess\":"@) {
        None => None,
        Some(s1) => match p_opt_num(s1) {
            None => None,
            Some((guess, s2)) => match p_lit(s2, ",\"wins\":"@) {
                None => None,
                Some(s3) => match p_num(s3) {
                    None => None,
                    Some((wins, s4)) => match p_lit(s4, ",\"score\":"@) {
                        None => None,
                        Some(s5) => match p_num(s5) {
                            None => None,
                            Some((score, s6)) => match p_lit(s6, "}"@) {
                                None => None,
                                Some(s7) => Some(
                                    (crate::structs::PublicState { guess, wins, score }, s7),
                                ),
                            },
                        },
                    },
                },
            },
        },
    }
}

/// Parsing a rendered public state gives it back; the rendering starts
/// with a brace.
#[verifier::rlimit(100)]
#[verifier::spinoff_prover]
pub proof fn lemma_state_rt(p: crate::structs::PublicState, rest: Seq<char>)
    ensures
        p_state(enc_state(p) + rest) == Some((p, rest)),
        (enc_state(p) + rest)[0] == '{',
{
    reveal_strlit("{\"guess\":");
    reveal_strlit(",\"wins\":");
    reveal_strlit(",\"score\":");
    reveal_strlit("}");
    let s = enc_state(p) + rest;
    let s1 = enc_opt_num(p.guess) + (",\"wins\":"@ + (dec_chars(p.wins as int) + (",\"score\":"@
        + (dec_chars(p.score as int) + ("}"@ + rest)))));
    assert(s =~= "{\"guess\":"@ + s1);
    lemma_lit_rt("{\"guess\":"@, s1);
    let s2 = ",\"wins\":"@ + (dec_chars(p.wins as int) + (",\"score\":"@ + (dec_chars(
        p.score as int,
    ) + ("}"@ + rest))));
    lemma_opt_num_rt(p.guess, s2);
    let s3 = dec_chars(p.wins as int) + (",\"score\":"@ + (dec_chars(p.score as int) + ("}"@
        + rest)));
    lemma_lit_rt(",\"wins\":"@, s3);
    let s4 = ",\"score\":"@ + (dec_chars(p.score as int) + ("}"@ + rest));
    lemma_num_rt(p.wins, s4);
    let s5 = dec_chars(p.score as int) + ("}"@ + rest);
    lemma_lit_rt(",\"score\":"@, s5);
    let s6 = "}"@ + rest;
    lemma_num_rt(p.score, s6);
    lemma_lit_rt("}"@, rest);
    assert(s[0] == '{');
}

/// Renders a public state as [`enc_state`] describes.
fn encode_state(p: &crate::structs::PublicState) -> (r: String)
    ensures
        r@ == enc_state(*p),
{
    let mut out = String::new();
    out.append("{\"guess\":");
    match p.guess {
        Some(g) => {
            let num = format_usize(g);
            out.append(num.as_str());
        },
        None => {
            out.append("null");
        },
    }
    out.append(",\"wins\":");
    let wins = format_usize(p.wins);
    out.append(wins.as_str());
    out.append(",\"score\":");
    let score = format_usize(p.score);
    out.append(score.as_str());
    out.append("}");
    proof {
        assert(out@ =~= enc_state(*p));
    }
    out
}

/// Reads a public-state record at position `i` as [`p_state`] describes.
fn parse_state(s: &str, i: usize) -> (r: Option<(crate::structs::PublicState, usize)>)
    requires
        i <= s@.len(),
    ensures
        match r {
            Some((p, j)) => i < j <= s@.len() && p_state(s@.skip(i as int)) == Some((
                p,
                s@.skip(j as int),
            )),
            None => p_state(s@.skip(i as int)) is None,
        },
{
    proof {
        reveal_strlit("{\"guess\":");
    }
    let j1 = match match_lit(s, i, "{\"guess\":") {
        Some(j) => j,
        None => {
            return None;
        },
    };
    let (guess, j2) = match parse_opt_num(s, j1) {
        Some(v) => v,
        None => {
            return None;
        },
    };
    let j3 = match match_lit(s, j2, ",\"wins\":") {
        Some(j) => j,
        None => {
            return None;
        },
    };
    let (wins, j4) = match parse_number(s, j3) {
        Some(v) => v,
        None => {
            return None;
        },
    };
    let j5 = match match_lit(s, j4, ",\"score\":") {
        Some(j) => j,
        None => {
            return None;
        },
    };
    let (score, j6) = match parse_number(s, j5) {
        Some(v) => v,
        None => {
            return None;
        },
    };
    let j7 = match match_lit(s, j6, "}") {
        Some(j) => j,
        None => {
            return None;
        },
    };
    Some((crate::structs::PublicState { guess, wins, score }, j7))
}


/// One name/state pair as a two-element array.
pub open spec fn enc_pair(p: (Seq<char>, crate::structs::PublicState)) -> Seq<char> {
    "["@ + enc_string(p.0) + ","@ + enc_state(p.1) + "]"@
}

/// Reads one name/state pair off the front of the input.
pub open spec fn p_pair(s: Seq<char>) -> Option<
    ((Seq<char>, crate::structs::PublicState), Seq<char>),
> {
    match p_lit(s, "["@) {
        None => None,
        Some(s1) => match p_string(s1) {
            None => None,
            Some((name, s2)) => match p_lit(s2, ","@) {
                None => None,
                Some(s3) => match p_state(s3) {
                    None => None,
                    Some((st, s4)) => match p_lit(s4, "]"@) {
                        None => None,
                        Some(s5) => Some(((name, st), s5)),
                    },
                },
            },
        },
    }
}

/// Parsing a rendered pair gives it back; the rendering starts with a
/// bracket.
#[verifier::rlimit(100)]
#[verifier::spinoff_prover]
pub proof fn lemma_pair_rt(p: (Seq<char>, crate::structs::PublicState), rest: Seq<char>)
    ensures
        p_pair(enc_pair(p) + rest) == Some((p, rest)),
        (enc_pair(p) + rest)[0] == '[',
{
    reveal_strlit("[");
    reveal_strlit(",");
    reveal_strlit("]");
    let s = enc_pair(p) + rest;
    let s1 = enc_string(p.0) + (","@ + (enc_state(p.1) + ("]"@ + rest)));
    assert(s =~= "["@ + s1);
    lemma_lit_rt("["@, s1);
    let s2 = ","@ + (enc_state(p.1) + ("]"@ + rest));
    lemma_string_rt(p.0, s2);
    let s3 = enc_state(p.1) + ("]"@ + rest);
    lemma_lit_rt(","@, s3);
    let s4 = "]"@ + rest;
    lemma_state_rt(p.1, s4);
    lemma_lit_rt("]"@, rest);
    assert(s[0] == '[');
}

/// Renders a name/state pair as [`enc_pair`] describes.
fn encode_pair(name: &crate::structs::PlayerName, st: &crate::structs::PublicState) -> (r: String)
    ensures
        r@ == enc_pair((name@, *st)),
{
    let mut out = String::new();
    out.append("[");
    let quoted = encode_string(name.as_str());
    out.append(quoted.as_str());
    out.append(",");
    let state = encode_state(st);
    out.append(state.as_str());
    out.append("]");
    proof {
        assert(out@ =~= enc_pair((name@, *st)));
    }
    out
}

/// Reads a name/state pair at position `i` as [`p_pair`] describes.
fn parse_pair(s: &str, i: usize) -> (r: Option<
    ((crate::structs::PlayerName, crate::structs::PublicState), usize),
>)
    requires
        i <= s@.len(),
    ensures
        match r {
            Some((p, j)) => i < j <= s@.len() && p_pair(s@.skip(i as int)) == Some((
                (p.0@, p.1),
                s@.skip(j as int),
            )),
            None => p_pair(s@.skip(i as int)) is None,
        },
{
    proof {
        reveal_strlit("[");
    }
    let j1 = match match_lit(s, i, "[") {
        Some(j) => j,
        None => {
            return None;
        },
    };
    let (name, j2) = match parse_string(s, j1) {
        Some(v) => v,
        None => {
            return None;
        },
    };
    let j3 = match match_lit(s, j2, ",") {
        Some(j) => j,
        None => {
            return None;
        },
    };
    let (st, j4) = match parse_state(s, j3) {
        Some(v) => v,
        None => {
            return None;
        },
    };
    let j5 = match match_lit(s, j4, "]") {
        Some(j) => j,
        None => {
            return None;
        },
    };
    Some(((crate::structs::PlayerName(name), st), j5))
}

/// The pairs of a state list after the first.
pub open spec fn enc_pairs_more(pairs: Seq<(Seq<char>, crate::structs::PublicState)>) -> Seq<char>
    decreases pairs.len(),
{
    if pairs.len() == 0 {
        "]"@
    } else {
        ","@ + enc_pair(pairs[0]) + enc_pairs_more(pairs.skip(1))
    }
}

/// A whole state list in brackets.
pub open spec fn enc_pairs(pairs: Seq<(Seq<char>, crate::structs::PublicState)>) -> Seq<char> {
    if pairs.len() == 0 {
        "[]"@
    } else {
        "["@ + enc_pair(pairs[0]) + enc_pairs_more(pairs.skip(1))
    }
}

/// Reads the rest of a state list.
pub open spec fn p_pairs_more(s: Seq<char>) -> Option<
    (Seq<(Seq<char>, crate::structs::PublicState)>, Seq<char>),
>
    decreases s.len(),
{
    if s.len() == 0 {
        None
    } else if s[0] == ']' {
        Some((Seq::empty(), s.skip(1)))
    } else if s[0] == ',' {
        match p_pair(s.skip(1)) {
            None => None,
            Some((p, s2)) => if s2.len() < s.len() {
                match p_pairs_more(s2) {
                    None => None,
                    Some((ps, r)) => Some((seq![p] + ps, r)),
                }
            } else {
                None
            },
        }
    } else {
        None
    }
}

/// Reads a bracketed state list off the front of the input.
pub open spec fn p_pairs(s: Seq<char>) -> Option<
    (Seq<(Seq<char>, crate::structs::PublicState)>, Seq<char>),
> {
    match p_lit(s, "["@) {
        None => None,
        Some(s1) => if s1.len() > 0 && s1[0] == ']' {
            Some((Seq::empty(), s1.skip(1)))
        } else {
            match p_pair(s1) {
                None => None,
                Some((p, s2)) => if s2.len() < s1.len() {
                    match p_pairs_more(s2) {
                        None => None,
                        Some((ps, r)) => Some((seq![p] + ps, r)),
                    }
                } else {
                    None
                },
            }
        },
    }
}

/// Parsing the rendered tail of a state list gives the pairs back.
#[verifier::rlimit(100)]
#[verifier::spinoff_prover]
pub proof fn lemma_pairs_more_rt(
    pairs: Seq<(Seq<char>, crate::structs::PublicState)>,
    rest: Seq<char>,
)
    ensures
        p_pairs_more(enc_pairs_more(pairs) + rest) == Some((pairs, rest)),
    decreases pairs.len(),
{
    reveal_strlit("]");
    reveal_strlit(",");
    let s = enc_pairs_more(pairs) + rest;
    if pairs.len() == 0 {
        assert(s =~= "]"@ + rest);
        assert(s[0] == ']');
        assert(s.skip(1) =~= rest);
        assert(pairs =~= Seq::<(Seq<char>, crate::structs::PublicState)>::empty());
    } else {
        let tail = enc_pairs_more(pairs.skip(1)) + rest;
        assert(s =~= ","@ + (enc_pair(pairs[0]) + tail));
        assert(s[0] == ',');
        assert(s.skip(1) =~= enc_pair(pairs[0]) + tail);
        lemma_pair_rt(pairs[0], tail);
        lemma_pairs_more_rt(pairs.skip(1), rest);
        assert(tail.len() < s.len());
        assert(seq![pairs[0]] + pairs.skip(1) =~= pairs);
    }
}

/// Parsing a rendered state list gives the pairs back.
#[verifier::rlimit(100)]
#[verifier::spinoff_prover]
pub proof fn lemma_pairs_rt(pairs: Seq<(Seq<char>, crate::structs::PublicState)>, rest: Seq<char>)
    ensures
        p_pairs(enc_pairs(pairs) + rest) == Some((pairs, rest)),
{
    reveal_strlit("[");
    reveal_strlit("[]");
    reveal_strlit("]");
    let s = enc_pairs(pairs) + rest;
    if pairs.len() == 0 {
        assert(s =~= "["@ + ("]"@ + rest));
        lemma_lit_rt("["@, "]"@ + rest);
        assert(("]"@ + rest)[0] == ']');
        assert(("]"@ + rest).skip(1) =~= rest);
        assert(pairs =~= Seq::<(Seq<char>, crate::structs::PublicState)>::empty());
    } else {
        let tail = enc_pairs_more(pairs.skip(1)) + rest;
        let s1 = enc_pair(pairs[0]) + tail;
        assert(s =~= "["@ + s1);
        lemma_lit_rt("["@, s1);
        lemma_pair_rt(pairs[0], tail);
        assert(s1[0] == '[');
        lemma_pairs_more_rt(pairs.skip(1), rest);
        assert(tail.len() < s1.len());
        assert(seq![pairs[0]] + pairs.skip(1) =~= pairs);
    }
}

/// Renders a state list as [`enc_pairs`] describes.
fn encode_pairs(state: &crate::structs::StatePerPlayer) -> (r: String)
    ensures
        r@ == enc_pairs(crate::message::state_pairs(state@)),
{
    let ghost pairs = crate::message::state_pairs(state@);
    if state.len() == 0 {
        let mut out = String::new();
        out.append("[]");
        proof {
            assert(out@ =~= enc_pairs(pairs));
        }
        return out;
    }
    let mut out = String::new();
    out.append("[");
    let first = encode_pair(&state[0].0, &state[0].1);
    out.append(first.as_str());
    let mut k: usize = 1;
    let ghost prefix = out@;
    while k < state.len()
        invariant
            1 <= k <= state@.len(),
            pairs == crate::message::state_pairs(state@),
            pairs.len() == state@.len(),
            prefix == "["@ + enc_pair(pairs[0]),
            out@ + enc_pairs_more(pairs.skip(k as int)) == prefix + enc_pairs_more(pairs.skip(1)),
        decreases state@.len() - k,
    {
        out.append(",");
        let piece = encode_pair(&state[k].0, &state[k].1);
        out.append(piece.as_str());
        proof {
            assert(pairs[k as int] == (state@[k as int].0@, state@[k as int].1));
            assert(pairs.skip(k as int)[0] == pairs[k as int]);
            assert(pairs.skip(k as int).skip(1) =~= pairs.skip(k + 1));
            assert(enc_pairs_more(pairs.skip(k as int)) == ","@ + enc_pair(pairs[k as int])
                + enc_pairs_more(pairs.skip(k + 1)));
        }
        k = k + 1;
    }
    out.append("]");
    proof {
        assert(pairs[0] == (state@[0].0@, state@[0].1));
        assert(pairs.skip(pairs.len() as int).len() == 0);
        assert(enc_pairs_more(pairs.skip(pairs.len() as int)) == "]"@);
        assert(out@ =~= prefix + enc_pairs_more(pairs.skip(1)));
        assert(out@ =~= enc_pairs(pairs));
    }
    out
}

/// Reads a bracketed state list at position `i` as [`p_pairs`] describes.
fn parse_pairs(s: &str, i: usize) -> (r: Option<(crate::structs::StatePerPlayer, usize)>)
    requires
        i <= s@.len(),
    ensures
        match r {
            Some((state, j)) => i <= j <= s@.len() && p_pairs(s@.skip(i as int)) == Some((
                crate::message::state_pairs(state@),
                s@.skip(j as int),
            )),
            None => p_pairs(s@.skip(i as int)) is None,
        },
{
    let slen = s.unicode_len();
    let j0 = match match_lit(s, i, "[") {
        Some(j) => j,
        None => {
            return None;
        },
    };
    let mut out: crate::structs::StatePerPlayer = Vec::new();
    if j0 < slen && s.get_char(j0) == ']' {
        proof {
            assert(s@.skip(j0 as int)[0] == s@[j0 as int]);
            assert(s@.skip(j0 as int).skip(1) =~= s@.skip(j0 + 1));
            assert(crate::message::state_pairs(out@) =~= Seq::<
                (Seq<char>, crate::structs::PublicState),
            >::empty());
        }
        return Some((out, j0 + 1));
    }
    proof {
        if s@.skip(j0 as int).len() > 0 {
            assert(s@.skip(j0 as int)[0] == s@[j0 as int]);
        }
    }
    let (first, j1) = match parse_pair(s, j0) {
        Some(v) => v,
        None => {
            return None;
        },
    };
    let ghost firstv = (first.0@, first.1);
    out.push(first);
    proof {
        assert(crate::message::state_pairs(out@) =~= seq![firstv]);
        assert(s@.skip(j1 as int).len() < s@.skip(j0 as int).len());
    }
    let mut b: usize = j1;
    while b < slen
        invariant
            slen == s@.len(),
            i <= b <= slen,
            p_pairs(s@.skip(i as int)) == glue_list(
                crate::message::state_pairs(out@),
                p_pairs_more(s@.skip(b as int)),
            ),
        decreases slen - b,
    {
        let c = s.get_char(b);
        proof {
            assert(s@.skip(b as int)[0] == s@[b as int]);
        }
        if c == ']' {
            proof {
                assert(s@.skip(b as int).skip(1) =~= s@.skip(b + 1));
                assert(crate::message::state_pairs(out@) + Seq::<
                    (Seq<char>, crate::structs::PublicState),
                >::empty() =~= crate::message::state_pairs(out@));
            }
            return Some((out, b + 1));
        }
        if c != ',' {
            return None;
        }
        proof {
            assert(s@.skip(b as int).skip(1) =~= s@.skip(b + 1));
        }
        let (pair, j2) = match parse_pair(s, b + 1) {
            Some(v) => v,
            None => {
                return None;
            },
        };
        let ghost out0 = crate::message::state_pairs(out@);
        let ghost pairv = (pair.0@, pair.1);
        out.push(pair);
        proof {
            assert(crate::message::state_pairs(out@) =~= out0.push(pairv));
            assert(s@.skip(j2 as int).len() < s@.skip(b as int).len());
            assert(p_pairs_more(s@.skip(b as int)) == glue_list(
                seq![pairv],
                p_pairs_more(s@.skip(j2 as int)),
            ));
            match p_pairs_more(s@.skip(j2 as int)) {
                Some((ps, r_)) => {
                    assert(out0 + (seq![pairv] + ps) =~= out0.push(pairv) + ps);
                },
                None => {},
            }
        }
        b = j2;
    }
    proof {
        assert(s@.skip(b as int).len() == 0);
    }
    None
}

/// One player as a structured record.
pub open spec fn enc_player(p: crate::structs::PlayerV) -> Seq<char> {
    "{\"name\":"@ + enc_string(p.name) + ",\"human\":"@ + enc_bool(p.human) + ",\"hand\":"@
        + enc_cards(p.hand) + "}"@
}

/// Reads one player record off the front of the input.
pub open spec fn p_player(s: Seq<char>) -> Option<(crate::structs::PlayerV, Seq<char>)> {
    match p_lit(s, "{\"name\":"@) {
        None => None,
        Some(s1) => match p_string(s1) {
            None => None,
            Some((name, s2)) => match p_lit(s2, ",\"human\":"@) {
                None => None,
                Some(s3) => match p_bool(s3) {
                    None => None,
                    Some((human, s4)) => match p_lit(s4, ",\"hand\":"@) {
                        None => None,
                        Some(s5) => match p_cards(s5) {
                            None => None,
                            Some((hand, s6)) => match p_lit(s6, "}"@) {
                                None => None,
                                Some(s7) => Some(
                                    (crate::structs::PlayerV { name, human, hand }, s7),
                                ),
                            },
                        },
                    },
                },
            },
        },
    }
}

/// Parsing a rendered player gives the player back; the rendering starts
/// with a brace.
#[verifier::rlimit(100)]
#[verifier::spinoff_prover]
pub proof fn lemma_player_rt(p: crate::structs::PlayerV, rest: Seq<char>)
    ensures
        p_player(enc_player(p) + rest) == Some((p, rest)),
        (enc_player(p) + rest)[0] == '{',
{
    reveal_strlit("{\"name\":");
    reveal_strlit(",\"human\":");
    reveal_strlit(",\"hand\":");
    reveal_strlit("}");
    let s = enc_player(p) + rest;
    let s1 = enc_string(p.name) + (",\"human\":"@ + (enc_bool(p.human) + (",\"hand\":"@
        + (enc_cards(p.hand) + ("}"@ + rest)))));
    assert(s =~= "{\"name\":"@ + s1);
    lemma_lit_rt("{\"name\":"@, s1);
    let s2 = ",\"human\":"@ + (enc_bool(p.human) + (",\"hand\":"@ + (enc_cards(p.hand) + ("}"@
        + rest))));
    lemma_string_rt(p.name, s2);
    let s3 = enc_bool(p.human) + (",\"hand\":"@ + (enc_cards(p.hand) + ("}"@ + rest)));
    lemma_lit_rt(",\"human\":"@, s3);
    let s4 = ",\"hand\":"@ + (enc_cards(p.hand) + ("}"@ + rest));
    lemma_bool_rt(p.human, s4);
    let s5 = enc_cards(p.hand) + ("}"@ + rest);
    lemma_lit_rt(",\"hand\":"@, s5);
    let s6 = "}"@ + rest;
    lemma_cards_rt(p.hand, s6);
    lemma_lit_rt("}"@, rest);
    assert(s[0] == '{');
}

/// Renders a player as [`enc_player`] describes.
fn encode_player(p: &crate::structs::Player) -> (r: String)
    ensures
        r@ == enc_player(p@),
{
    let mut out = String::new();
    out.append("{\"name\":");
    let name = encode_string(p.name.as_str());
    out.append(name.as_str());
    out.append(",\"human\":");
    if p.human {
        out.append("true");
    } else {
        out.append("false");
    }
    out.append(",\"hand\":");
    let hand = encode_cards(&p.hand);
    out.append(hand.as_str());
    out.append("}");
    proof {
        assert(out@ =~= enc_player(p@));
    }
    out
}

/// Reads a player record at position `i` as [`p_player`] describes.
fn parse_player(s: &str, i: usize) -> (r: Option<(crate::structs::Player, usize)>)
    requires
        i <= s@.len(),
    ensures
        match r {
            Some((p, j)) => i < j <= s@.len() && p_player(s@.skip(i as int)) == Some((
                p@,
                s@.skip(j as int),
            )),
            None => p_player(s@.skip(i as int)) is None,
        },
{
    proof {
        reveal_strlit("{\"name\":");
    }
    let j1 = match match_lit(s, i, "{\"name\":") {
        Some(j) => j,
        None => {
            return None;
        },
    };
    let (name, j2) = match parse_string(s, j1) {
        Some(v) => v,
        None => {
            return None;
        },
    };
    let j3 = match match_lit(s, j2, ",\"human\":") {
        Some(j) => j,
        None => {
            return None;
        },
    };
    let (human, j4) = match parse_bool(s, j3) {
        Some(v) => v,
        None => {
            return None;
        },
    };
    let j5 = match match_lit(s, j4, ",\"hand\":") {
        Some(j) => j,
        None => {
            return None;
        },
    };
    let (hand, j6) = match parse_cards(s, j5) {
        Some(v) => v,
        None => {
            return None;
        },
    };
    let j7 = match match_lit(s, j6, "}") {
        Some(j) => j,
        None => {
            return None;
        },
    };
    Some((crate::structs::Player { name: crate::structs::PlayerName(name), human, hand }, j7))
}

/// The players of a roster list after the first.
pub open spec fn enc_players_more(players: Seq<crate::structs::PlayerV>) -> Seq<char>
    decreases players.len(),
{
    if players.len() == 0 {
        "]"@
    } else {
        ","@ + enc_player(players[0]) + enc_players_more(players.skip(1))
    }
}

/// A whole roster list in brackets.
pub open spec fn enc_players(players: Seq<crate::structs::PlayerV>) -> Seq<char> {
    if players.len() == 0 {
        "[]"@
    } else {
        "["@ + enc_player(players[0]) + enc_players_more(players.skip(1))
    }
}

/// Reads the rest of a roster list.
pub open spec fn p_players_more(s: Seq<char>) -> Option<
    (Seq<crate::structs::PlayerV>, Seq<char>),
>
    decreases s.len(),
{
    if s.len() == 0 {
        None
    } else if s[0] == ']' {
        Some((Seq::empty(), s.skip(1)))
    } else if s[0] == ',' {
        match p_player(s.skip(1)) {
            None => None,
            Some((p, s2)) => if s2.len() < s.len() {
                match p_players_more(s2) {
                    None => None,
                    Some((ps, r)) => Some((seq![p] + ps, r)),
                }
            } else {
                None
            },
        }
    } else {
        None
    }
}

/// Reads a bracketed roster list off the front of the input.
pub open spec fn p_players(s: Seq<char>) -> Option<(Seq<crate::structs::PlayerV>, Seq<char>)> {
    match p_lit(s, "["@) {
        None => None,
        Some(s1) => if s1.len() > 0 && s1[0] == ']' {
            Some((Seq::empty(), s1.skip(1)))
        } else {
            match p_player(s1) {
                None => None,
                Some((p, s2)) => if s2.len() < s1.len() {
                    match p_players_more(s2) {
                        None => None,
                        Some((ps, r)) => Some((seq![p] + ps, r)),
                    }
                } else {
                    None
                },
            }
        },
    }
}

/// Parsing the rendered tail of a roster list gives the players back.
#[verifier::rlimit(100)]
#[verifier::spinoff_prover]
pub proof fn lemma_players_more_rt(players: Seq<crate::structs::PlayerV>, rest: Seq<char>)
    ensures
        p_players_more(enc_players_more(players) + rest) == Some((players, rest)),
    decreases players.len(),
{
    reveal_strlit("]");
    reveal_strlit(",");
    let s = enc_players_more(players) + rest;
    if players.len() == 0 {
        assert(s =~= "]"@ + rest);
        assert(s[0] == ']');
        assert(s.skip(1) =~= rest);
        assert(players =~= Seq::<crate::structs::PlayerV>::empty());
    } else {
        let tail = enc_players_more(players.skip(1)) + rest;
        assert(s =~= ","@ + (enc_player(players[0]) + tail));
        assert(s[0] == ',');
        assert(s.skip(1) =~= enc_player(players[0]) + tail);
        lemma_player_rt(players[0], tail);
        lemma_players_more_rt(players.skip(1), rest);
        assert(tail.len() < s.len());
        assert(seq![players[0]] + players.skip(1) =~= players);
    }
}

/// Parsing a rendered roster list gives the players back.
#[verifier::rlimit(100)]
#[verifier::spinoff_prover]
pub proof fn lemma_players_rt(players: Seq<crate::structs::PlayerV>, rest: Seq<char>)
    ensures
        p_players(enc_players(players) + rest) == Some((players, rest)),
{
    reveal_strlit("[");
    reveal_strlit("[]");
    reveal_strlit("]");
    let s = enc_players(players) + rest;
    if players.len() == 0 {
        assert(s =~= "["@ + ("]"@ + rest));
        lemma_lit_rt("["@, "]"@ + rest);
        assert(("]"@ + rest)[0] == ']');
        assert(("]"@ + rest).skip(1) =~= rest);
        assert(players =~= Seq::<crate::structs::PlayerV>::empty());
    } else {
        let tail = enc_players_more(players.skip(1)) + rest;
        let s1 = enc_player(players[0]) + tail;
        assert(s =~= "["@ + s1);
        lemma_lit_rt("["@, s1);
        lemma_player_rt(players[0], tail);
        assert(s1[0] == '{');
        lemma_players_more_rt(players.skip(1), rest);
        assert(tail.len() < s1.len());
        assert(seq![players[0]] + players.skip(1) =~= players);
    }
}

/// Renders a roster list as [`enc_players`] describes.
fn encode_players(players: &Vec<crate::structs::Player>) -> (r: String)
    ensures
        r@ == enc_players(crate::message::player_views(players@)),
{
    let ghost views = crate::message::player_views(players@);
    if players.len() == 0 {
        let mut out = String::new();
        out.append("[]");
        proof {
            assert(out@ =~= enc_players(views));
        }
        return out;
    }
    let mut out = String::new();
    out.append("[");
    let first = encode_player(&players[0]);
    out.append(first.as_str());
    let mut k: usize = 1;
    let ghost prefix = out@;
    while k < players.len()
        invariant
            1 <= k <= players@.len(),
            views == crate::message::player_views(players@),
            views.len() == players@.len(),
            prefix == "["@ + enc_player(views[0]),
            out@ + enc_players_more(views.skip(k as int)) == prefix + enc_players_more(
                views.skip(1),
            ),
        decreases players@.len() - k,
    {
        out.append(",");
        let piece = encode_player(&players[k]);
        out.append(piece.as_str());
        proof {
            assert(views[k as int] == players@[k as int]@);
            assert(views.skip(k as int)[0] == views[k as int]);
            assert(views.skip(k as int).skip(1) =~= views.skip(k + 1));
            assert(enc_players_more(views.skip(k as int)) == ","@ + enc_player(views[k as int])
                + enc_players_more(views.skip(k + 1)));
        }
        k = k + 1;
    }
    out.append("]");
    proof {
        assert(views[0] == players@[0]@);
        assert(views.skip(views.len() as int).len() == 0);
        assert(enc_players_more(views.skip(views.len() as int)) == "]"@);
        assert(out@ =~= prefix + enc_players_more(views.skip(1)));
        assert(out@ =~= enc_players(views));
    }
    out
}

/// Reads a bracketed roster list at position `i` as [`p_players`]
/// describes.
fn parse_players(s: &str, i: usize) -> (r: Option<(Vec<crate::structs::Player>, usize)>)
    requires
        i <= s@.len(),
    ensures
        match r {
            Some((players, j)) => i <= j <= s@.len() && p_players(s@.skip(i as int)) == Some((
                crate::message::player_views(players@),
                s@.skip(j as int),
            )),
            None => p_players(s@.skip(i as int)) is None,
        },
{
    let slen = s.unicode_len();
    let j0 = match match_lit(s, i, "[") {
        Some(j) => j,
        None => {
            return None;
        },
    };
    let mut out: Vec<crate::structs::Player> = Vec::new();
    if j0 < slen && s.get_char(j0) == ']' {
        proof {
            assert(s@.skip(j0 as int)[0] == s@[j0 as int]);
            assert(s@.skip(j0 as int).skip(1) =~= s@.skip(j0 + 1));
            assert(crate::message::player_views(out@) =~= Seq::<crate::structs::PlayerV>::empty());
        }
        return Some((out, j0 + 1));
    }
    proof {
        if s@.skip(j0 as int).len() > 0 {
            assert(s@.skip(j0 as int)[0] == s@[j0 as int]);
        }
    }
    let (first, j1) = match parse_player(s, j0) {
        Some(v) => v,
        None => {
            return None;
        },
    };
    let ghost firstv = first@;
    out.push(first);
    proof {
        assert(crate::message::player_views(out@) =~= seq![firstv]);
        assert(s@.skip(j1 as int).len() < s@.skip(j0 as int).len());
    }
    let mut b: usize = j1;
    while b < slen
        invariant
            slen == s@.len(),
            i <= b <= slen,
            p_players(s@.skip(i as int)) == glue_list(
                crate::message::player_views(out@),
                p_players_more(s@.skip(b as int)),
            ),
        decreases slen - b,
    {
        let c = s.get_char(b);
        proof {
            assert(s@.skip(b as int)[0] == s@[b as int]);
        }
        if c == ']' {
            proof {
                assert(s@.skip(b as int).skip(1) =~= s@.skip(b + 1));
                assert(crate::message::player_views(out@) + Seq::<
                    crate::structs::PlayerV,
                >::empty() =~= crate::message::player_views(out@));
            }
            return Some((out, b + 1));
        }
        if c != ',' {
            return None;
        }
        proof {
            assert(s@.skip(b as int).skip(1) =~= s@.skip(b + 1));
        }
        let (player, j2) = match parse_player(s, b + 1) {
            Some(v) => v,
            None => {
                return None;
            },
        };
        let ghost out0 = crate::message::player_views(out@);
        let ghost playerv = player@;
        out.push(player);
        proof {
            assert(crate::message::player_views(out@) =~= out0.push(playerv));
            assert(s@.skip(j2 as int).len() < s@.skip(b as int).len());
            assert(p_players_more(s@.skip(b as int)) == glue_list(
                seq![playerv],
                p_players_more(s@.skip(j2 as int)),
            ));
            match p_players_more(s@.skip(j2 as int)) {
                Some((ps, r_)) => {
                    assert(out0 + (seq![playerv] + ps) =~= out0.push(playerv) + ps);
                },
                None => {},
            }
        }
        b = j2;
    }
    proof {
        assert(s@.skip(b as int).len() == 0);
    }
    None
}

/// An optional index list: `null` when any card may be played.
pub open spec fn enc_opt_nums(o: Option<Seq<usize>>) -> Seq<char> {
    match o {
        None => "null"@,
        Some(ns) => enc_nums(ns),
    }
}

/// Reads an optional index list off the front of the input.
pub open spec fn p_opt_nums(s: Seq<char>) -> Option<(Option<Seq<usize>>, Seq<char>)> {
    match p_lit(s, "null"@) {
        Some(r) => Some((None, r)),
        None => match p_nums(s) {
            None => None,
            Some((ns, r)) => Some((Some(ns), r)),
        },
    }
}

/// Parsing a rendered optional index list gives it back.
#[verifier::rlimit(100)]
#[verifier::spinoff_prover]
pub proof fn lemma_opt_nums_rt(o: Option<Seq<usize>>, rest: Seq<char>)
    ensures
        p_opt_nums(enc_opt_nums(o) + rest) == Some((o, rest)),
{
    reveal_strlit("null");
    reveal_strlit("[");
    reveal_strlit("[]");
    let s = enc_opt_nums(o) + rest;
    match o {
        None => {
            lemma_lit_rt("null"@, rest);
        },
        Some(ns) => {
            assert(s[0] == '[') by {
                if ns.len() == 0 {
                    assert(s =~= "[]"@ + rest);
                } else {
                    assert(s =~= "["@ + (dec_chars(ns[0] as int) + (enc_nums_more(ns.skip(1))
                        + rest)));
                }
            }
            if s.len() >= "null"@.len() && s.take("null"@.len() as int) == "null"@ {
                assert(s.take("null"@.len() as int)[0] == s[0]);
            }
            lemma_nums_rt(ns, rest);
        },
    }
}

/// Reads an optional index list at position `i` as [`p_opt_nums`]
/// describes.
fn parse_opt_nums(s: &str, i: usize) -> (r: Option<(Option<Vec<usize>>, usize)>)
    requires
        i <= s@.len(),
    ensures
        match r {
            Some((o, j)) => i <= j <= s@.len() && p_opt_nums(s@.skip(i as int)) == Some((
                match o {
                    Some(v) => Some(v@),
                    None => None,
                },
                s@.skip(j as int),
            )),
            None => p_opt_nums(s@.skip(i as int)) is None,
        },
{
    if let Some(j) = match_lit(s, i, "null") {
        return Some((None, j));
    }
    match parse_nums(s, i) {
        Some((ns, j)) => Some((Some(ns), j)),
        None => None,
    }
}


/// One whole message as a tag-discriminated structured line: unit
/// variants are bare tag strings, the rest wrap their payload in an
/// object keyed by the tag.
pub open spec fn enc_message(m: crate::message::MessageV) -> Seq<char> {
    match m {
        crate::message::MessageV::RequestGuessContext { player, hand, guesses, players } => {
            seq!['{'] + (enc_string("RequestGuessContext"@) + (":{\"player\":"@ + (enc_player(
                player,
            ) + (",\"hand\":"@ + (enc_cards(hand) + (",\"guesses\":"@ + (enc_nums(guesses) + (
            ",\"players\":"@ + (dec_chars(players as int) + "}}"@)))))))))
        },
        crate::message::MessageV::Guesses { state } => {
            seq!['{'] + (enc_string("Guesses"@) + (":{\"state\":"@ + (enc_pairs(state)
                + "}}"@)))
        },
        crate::message::MessageV::Turn { whose } => {
            seq!['{'] + (enc_string("Turn"@) + (":{\"whose\":"@ + (enc_player(whose) + "}}"@)))
        },
        crate::message::MessageV::PlayRequestContext { player, hand, trick, valid_cards } => {
            seq!['{'] + (enc_string("PlayRequestContext"@) + (":{\"player\":"@ + (enc_player(
                player,
            ) + (",\"hand\":"@ + (enc_cards(hand) + (",\"trick\":"@ + (enc_cards(trick) + (
            ",\"valid_cards\":"@ + (enc_opt_nums(valid_cards) + "}}"@)))))))))
        },
        crate::message::MessageV::Trick { cards } => {
            seq!['{'] + (enc_string("Trick"@) + (":"@ + (enc_cards(cards) + "}"@)))
        },
        crate::message::MessageV::Scoreboard { state } => {
            seq!['{'] + (enc_string("Scoreboard"@) + (":{\"state\":"@ + (enc_pairs(state)
                + "}}"@)))
        },
        crate::message::MessageV::Winner { player } => {
            seq!['{'] + (enc_string("Winner"@) + (":"@ + (enc_player(player) + "}"@)))
        },
        crate::message::MessageV::Winners { players, winner_indices } => {
            seq!['{'] + (enc_string("Winners"@) + (":{\"players\":"@ + (enc_players(players) + (
            ",\"winner_indices\":"@ + (enc_nums(winner_indices) + "}}"@)))))
        },
        crate::message::MessageV::RequestPlayerName => enc_string("RequestPlayerName"@),
        crate::message::MessageV::PlayRequest { player } => {
            seq!['{'] + (enc_string("PlayRequest"@) + (":"@ + (enc_player(player) + "}"@)))
        },
        crate::message::MessageV::RequestGuess => enc_string("RequestGuess"@),
        crate::message::MessageV::GameOver => enc_string("GameOver"@),
    }
}

/// Reads the body of a guess-request context after its tag.
pub open spec fn p_body_rgc(s: Seq<char>) -> Option<(crate::message::MessageV, Seq<char>)> {
    match p_lit(s, ":{\"player\":"@) {
        None => None,
        Some(s1) => match p_player(s1) {
            None => None,
            Some((player, s2)) => match p_lit(s2, ",\"hand\":"@) {
                None => None,
                Some(s3) => match p_cards(s3) {
                    None => None,
                    Some((hand, s4)) => match p_lit(s4, ",\"guesses\":"@) {
                        None => None,
                        Some(s5) => match p_nums(s5) {
                            None => None,
                            Some((guesses, s6)) => match p_lit(s6, ",\"players\":"@) {
                                None => None,
                                Some(s7) => match p_num(s7) {
                                    None => None,
                                    Some((players, s8)) => match p_lit(s8, "}}"@) {
                                        None => None,
                                        Some(s9) => Some(
                                            (
                                                crate::message::MessageV::RequestGuessContext {
                                                    player,
                                                    hand,
                                                    guesses,
                                                    players,
                                                },
                                                s9,
                                            ),
                                        ),
                                    },
                                },
                            },
                        },
                    },
                },
            },
        },
    }
}

/// Reads the body of a play-request context after its tag.
pub open spec fn p_body_prc(s: Seq<char>) -> Option<(crate::message::MessageV, Seq<char>)> {
    match p_lit(s, ":{\"player\":"@) {
        None => None,
        Some(s1) => match p_player(s1) {
            None => None,
            Some((player, s2)) => match p_lit(s2, ",\"hand\":"@) {
                None => None,
                Some(s3) => match p_cards(s3) {
                    None => None,
                    Some((hand, s4)) => match p_lit(s4, ",\"trick\":"@) {
                        None => None,
                        Some(s5) => match p_cards(s5) {
                            None => None,
                            Some((trick, s6)) => match p_lit(s6, ",\"valid_cards\":"@) {
                                None => None,
                                Some(s7) => match p_opt_nums(s7) {
                                    None => None,
                                    Some((valid_cards, s8)) => match p_lit(s8, "}}"@) {
                                        None => None,
                                        Some(s9) => Some(
                                            (
                                                crate::message::MessageV::PlayRequestContext {
                                                    player,
                                                    hand,
                                                    trick,
                                                    valid_cards,
                                                },
                                                s9,
                                            ),
                                        ),
                                    },
                                },
                            },
                        },
                    },
                },
            },
        },
    }
}

/// Reads the body of a winners broadcast after its tag.
pub open spec fn p_body_winners(s: Seq<char>) -> Option<(crate::message::MessageV, Seq<char>)> {
    match p_lit(s, ":{\"players\":"@) {
        None => None,
        Some(s1) => match p_players(s1) {
            None => None,
            Some((players, s2)) => match p_lit(s2, ",\"winner_indices\":"@) {
                None => None,
                Some(s3) => match p_nums(s3) {
                    None => None,
                    Some((winner_indices, s4)) => match p_lit(s4, "}}"@) {
                        None => None,
                        Some(s5) => Some(
                            (
                                crate::message::MessageV::Winners { players, winner_indices },
                                s5,
                            ),
                        ),
                    },
                },
            },
        },
    }
}

/// Reads a state-carrying body (`Guesses` or `Scoreboard`) after its tag.
pub open spec fn p_body_state(s: Seq<char>, guesses: bool) -> Option<
    (crate::message::MessageV, Seq<char>),
> {
    match p_lit(s, ":{\"state\":"@) {
        None => None,
        Some(s1) => match p_pairs(s1) {
            None => None,
            Some((state, s2)) => match p_lit(s2, "}}"@) {
                None => None,
                Some(s3) => Some(
                    (
                        if guesses {
                            crate::message::MessageV::Guesses { state }
                        } else {
                            crate::message::MessageV::Scoreboard { state }
                        },
                        s3,
                    ),
                ),
            },
        },
    }
}

/// Reads a player-carrying body (`Winner` or `PlayRequest`) after its tag.
pub open spec fn p_body_player(s: Seq<char>, winner: bool) -> Option<
    (crate::message::MessageV, Seq<char>),
> {
    match p_lit(s, ":"@) {
        None => None,
        Some(s1) => match p_player(s1) {
            None => None,
            Some((player, s2)) => match p_lit(s2, "}"@) {
                None => None,
                Some(s3) => Some(
                    (
                        if winner {
                            crate::message::MessageV::Winner { player }
                        } else {
                            crate::message::MessageV::PlayRequest { player }
                        },
                        s3,
                    ),
                ),
            },
        },
    }
}

/// Reads the body of a turn broadcast after its tag.
pub open spec fn p_body_turn(s: Seq<char>) -> Option<(crate::message::MessageV, Seq<char>)> {
    match p_lit(s, ":{\"whose\":"@) {
        None => None,
        Some(s1) => match p_player(s1) {
            None => None,
            Some((whose, s2)) => match p_lit(s2, "}}"@) {
                None => None,
                Some(s3) => Some((crate::message::MessageV::Turn { whose }, s3)),
            },
        },
    }
}

/// Reads the body of a trick broadcast after its tag.
pub open spec fn p_body_trick(s: Seq<char>) -> Option<(crate::message::MessageV, Seq<char>)> {
    match p_lit(s, ":"@) {
        None => None,
        Some(s1) => match p_cards(s1) {
            None => None,
            Some((cards, s2)) => match p_lit(s2, "}"@) {
                None => None,
                Some(s3) => Some((crate::message::MessageV::Trick { cards }, s3)),
            },
        },
    }
}

/// Reads one message off the front of the input: a bare tag string for a
/// unit variant, or a tag-keyed object.
pub open spec fn p_message(s: Seq<char>) -> Option<(crate::message::MessageV, Seq<char>)> {
    if s.len() == 0 {
        None
    } else if s[0] == '{' {
        match p_string(s.skip(1)) {
            None => None,
            Some((tag, s1)) => if tag == "RequestGuessContext"@ {
                p_body_rgc(s1)
            } else if tag == "Guesses"@ {
                p_body_state(s1, true)
            } else if tag == "Turn"@ {
                p_body_turn(s1)
            } else if tag == "PlayRequestContext"@ {
                p_body_prc(s1)
            } else if tag == "Trick"@ {
                p_body_trick(s1)
            } else if tag == "Scoreboard"@ {
                p_body_state(s1, false)
            } else if tag == "Winners"@ {
                p_body_winners(s1)
            } else if tag == "Winner"@ {
                p_body_player(s1, true)
            } else if tag == "PlayRequest"@ {
                p_body_player(s1, false)
            } else {
                None
            },
        }
    } else {
        match p_string(s) {
            None => None,
            Some((tag, s1)) => if tag == "RequestPlayerName"@ {
                Some((crate::message::MessageV::RequestPlayerName, s1))
            } else if tag == "RequestGuess"@ {
                Some((crate::message::MessageV::RequestGuess, s1))
            } else if tag == "GameOver"@ {
                Some((crate::message::MessageV::GameOver, s1))
            } else {
                None
            },
        }
    }
}

/// What a whole structured line means: the message it holds, provided
/// nothing trails it.
pub open spec fn decode_msg(s: Seq<char>) -> Option<crate::message::MessageV> {
    match p_message(s) {
        Some((m, rest)) => if rest.len() == 0 {
            Some(m)
        } else {
            None
        },
        None => None,
    }
}



/// Round trip of one message variant.
#[verifier::rlimit(100)]
#[verifier::spinoff_prover]
/// Round trip of the guess-request-context body after its tag.
#[verifier::rlimit(100)]
#[verifier::spinoff_prover]
proof fn lemma_body_rgc_rt(player: crate::structs::PlayerV, hand: Seq<crate::cards::Card>, guesses: Seq<usize>, players: usize)
    ensures
        p_body_rgc(
            ":{\"player\":"@ + (enc_player(player) + (",\"hand\":"@ + (enc_cards(hand)
                + (",\"guesses\":"@ + (enc_nums(guesses) + (",\"players\":"@ + (dec_chars(
                players as int,
            ) + "}}"@))))))),
        ) == Some(
            (
                crate::message::MessageV::RequestGuessContext { player, hand, guesses, players },
                Seq::<char>::empty(),
            ),
        ),
{
    reveal_strlit(":{\"player\":");
    reveal_strlit(",\"hand\":");
    reveal_strlit(",\"guesses\":");
    reveal_strlit(",\"players\":");
    reveal_strlit("}}");
    let empty = Seq::<char>::empty();
    let r2 = enc_player(player) + (",\"hand\":"@ + (enc_cards(hand) + (",\"guesses\":"@
        + (enc_nums(guesses) + (",\"players\":"@ + (dec_chars(players as int)
        + "}}"@))))));
    lemma_lit_rt(":{\"player\":"@, r2);
    let r3 = ",\"hand\":"@ + (enc_cards(hand) + (",\"guesses\":"@ + (enc_nums(guesses) + (
    ",\"players\":"@ + (dec_chars(players as int) + "}}"@)))));
    lemma_player_rt(player, r3);
    let r4 = enc_cards(hand) + (",\"guesses\":"@ + (enc_nums(guesses) + (",\"players\":"@
        + (dec_chars(players as int) + "}}"@))));
    lemma_lit_rt(",\"hand\":"@, r4);
    let r5 = ",\"guesses\":"@ + (enc_nums(guesses) + (",\"players\":"@ + (dec_chars(
        players as int,
    ) + "}}"@)));
    lemma_cards_rt(hand, r5);
    let r6 = enc_nums(guesses) + (",\"players\":"@ + (dec_chars(players as int) + "}}"@));
    lemma_lit_rt(",\"guesses\":"@, r6);
    let r7 = ",\"players\":"@ + (dec_chars(players as int) + "}}"@);
    lemma_nums_rt(guesses, r7);
    let r8 = dec_chars(players as int) + "}}"@;
    lemma_lit_rt(",\"players\":"@, r8);
    lemma_num_rt(players, "}}"@);
    assert("}}"@ =~= "}}"@ + empty);
    lemma_lit_rt("}}"@, empty);
}

/// Round trip of one message variant.
#[verifier::rlimit(100)]
#[verifier::spinoff_prover]
proof fn lemma_rt_request_guess_context(player: crate::structs::PlayerV, hand: Seq<crate::cards::Card>, guesses: Seq<usize>, players: usize)
    ensures
        decode_msg(enc_message(crate::message::MessageV::RequestGuessContext { player, hand, guesses, players })) == Some(crate::message::MessageV::RequestGuessContext { player, hand, guesses, players }),
{
    reveal_strlit("RequestGuessContext");
    reveal_strlit("Guesses");
    reveal_strlit("Turn");
    reveal_strlit("PlayRequestContext");
    reveal_strlit("Trick");
    reveal_strlit("Scoreboard");
    reveal_strlit("Winners");
    reveal_strlit("Winner");
    reveal_strlit("PlayRequest");
    let m = crate::message::MessageV::RequestGuessContext { player, hand, guesses, players };
    let s = enc_message(m);
    let r1 = ":{\"player\":"@ + (enc_player(player) + (",\"hand\":"@ + (enc_cards(hand)
        + (",\"guesses\":"@ + (enc_nums(guesses) + (",\"players\":"@ + (dec_chars(
        players as int,
    ) + "}}"@)))))));
    assert(s[0] == '{');
    assert(s.skip(1) =~= enc_string("RequestGuessContext"@) + r1);
    lemma_string_rt("RequestGuessContext"@, r1);
    lemma_body_rgc_rt(player, hand, guesses, players);
}

/// Round trip of one message variant.
#[verifier::rlimit(100)]
#[verifier::spinoff_prover]
proof fn lemma_rt_guesses(state: Seq<(Seq<char>, crate::structs::PublicState)>)
    ensures
        decode_msg(enc_message(crate::message::MessageV::Guesses { state })) == Some(crate::message::MessageV::Guesses { state }),
{
    reveal_strlit("RequestGuessContext");
    reveal_strlit("Guesses");
    reveal_strlit("Turn");
    reveal_strlit("PlayRequestContext");
    reveal_strlit("Trick");
    reveal_strlit("Scoreboard");
    reveal_strlit("Winners");
    reveal_strlit("Winner");
    reveal_strlit("PlayRequest");
    reveal_strlit("RequestPlayerName");
    reveal_strlit("RequestGuess");
    reveal_strlit("GameOver");
    assert("Winners"@ != "Guesses"@) by {
        assert("Winners"@[0] != "Guesses"@[0]);
    }
    let m = crate::message::MessageV::Guesses { state };
    let s = enc_message(m);
    let empty = Seq::<char>::empty();
    reveal_strlit(":{\"state\":");
            reveal_strlit("}}");
            let r1 = ":{\"state\":"@ + (enc_pairs(state) + "}}"@);
            assert(s[0] == '{');
            assert(s.skip(1) =~= enc_string("Guesses"@) + r1);
            lemma_string_rt("Guesses"@, r1);
            let r2 = enc_pairs(state) + "}}"@;
            lemma_lit_rt(":{\"state\":"@, r2);
            lemma_pairs_rt(state, "}}"@);
            assert("}}"@ =~= "}}"@ + empty);
            lemma_lit_rt("}}"@, empty);
}

/// Round trip of one message variant.
#[verifier::rlimit(100)]
#[verifier::spinoff_prover]
proof fn lemma_rt_turn(whose: crate::structs::PlayerV)
    ensures
        decode_msg(enc_message(crate::message::MessageV::Turn { whose })) == Some(crate::message::MessageV::Turn { whose }),
{
    reveal_strlit("RequestGuessContext");
    reveal_strlit("Guesses");
    reveal_strlit("Turn");
    reveal_strlit("PlayRequestContext");
    reveal_strlit("Trick");
    reveal_strlit("Scoreboard");
    reveal_strlit("Winners");
    reveal_strlit("Winner");
    reveal_strlit("PlayRequest");
    reveal_strlit("RequestPlayerName");
    reveal_strlit("RequestGuess");
    reveal_strlit("GameOver");
    assert("Winners"@ != "Guesses"@) by {
        assert("Winners"@[0] != "Guesses"@[0]);
    }
    let m = crate::message::MessageV::Turn { whose };
    let s = enc_message(m);
    let empty = Seq::<char>::empty();
    reveal_strlit(":{\"whose\":");
            reveal_strlit("}}");
            let r1 = ":{\"whose\":"@ + (enc_player(whose) + "}}"@);
            assert(s[0] == '{');
            assert(s.skip(1) =~= enc_string("Turn"@) + r1);
            lemma_string_rt("Turn"@, r1);
            let r2 = enc_player(whose) + "}}"@;
            lemma_lit_rt(":{\"whose\":"@, r2);
            lemma_player_rt(whose, "}}"@);
            assert("}}"@ =~= "}}"@ + empty);
            lemma_lit_rt("}}"@, empty);
}

/// Round trip of one message variant.
#[verifier::rlimit(100)]
#[verifier::spinoff_prover]
/// Round trip of the play-request-context body after its tag.
#[verifier::rlimit(100)]
#[verifier::spinoff_prover]
proof fn lemma_body_prc_rt(player: crate::structs::PlayerV, hand: Seq<crate::cards::Card>, trick: Seq<crate::cards::Card>, valid_cards: Option<Seq<usize>>)
    ensures
        p_body_prc(
            ":{\"player\":"@ + (enc_player(player) + (",\"hand\":"@ + (enc_cards(hand)
                + (",\"trick\":"@ + (enc_cards(trick) + (",\"valid_cards\":"@ + (enc_opt_nums(
                valid_cards,
            ) + "}}"@))))))),
        ) == Some(
            (
                crate::message::MessageV::PlayRequestContext { player, hand, trick, valid_cards },
                Seq::<char>::empty(),
            ),
        ),
{
    reveal_strlit(":{\"player\":");
    reveal_strlit(",\"hand\":");
    reveal_strlit(",\"trick\":");
    reveal_strlit(",\"valid_cards\":");
    reveal_strlit("}}");
    let empty = Seq::<char>::empty();
    let r2 = enc_player(player) + (",\"hand\":"@ + (enc_cards(hand) + (",\"trick\":"@
        + (enc_cards(trick) + (",\"valid_cards\":"@ + (enc_opt_nums(valid_cards)
        + "}}"@))))));
    lemma_lit_rt(":{\"player\":"@, r2);
    let r3 = ",\"hand\":"@ + (enc_cards(hand) + (",\"trick\":"@ + (enc_cards(trick) + (
    ",\"valid_cards\":"@ + (enc_opt_nums(valid_cards) + "}}"@)))));
    lemma_player_rt(player, r3);
    let r4 = enc_cards(hand) + (",\"trick\":"@ + (enc_cards(trick) + (",\"valid_cards\":"@
        + (enc_opt_nums(valid_cards) + "}}"@))));
    lemma_lit_rt(",\"hand\":"@, r4);
    let r5 = ",\"trick\":"@ + (enc_cards(trick) + (",\"valid_cards\":"@ + (enc_opt_nums(
        valid_cards,
    ) + "}}"@)));
    lemma_cards_rt(hand, r5);
    let r6 = enc_cards(trick) + (",\"valid_cards\":"@ + (enc_opt_nums(valid_cards)
        + "}}"@));
    lemma_lit_rt(",\"trick\":"@, r6);
    let r7 = ",\"valid_cards\":"@ + (enc_opt_nums(valid_cards) + "}}"@);
    lemma_cards_rt(trick, r7);
    let r8 = enc_opt_nums(valid_cards) + "}}"@;
    lemma_lit_rt(",\"valid_cards\":"@, r8);
    lemma_opt_nums_rt(valid_cards, "}}"@);
    assert("}}"@ =~= "}}"@ + empty);
    lemma_lit_rt("}}"@, empty);
}

/// Round trip of one message variant.
#[verifier::rlimit(100)]
#[verifier::spinoff_prover]
proof fn lemma_rt_play_request_context(player: crate::structs::PlayerV, hand: Seq<crate::cards::Card>, trick: Seq<crate::cards::Card>, valid_cards: Option<Seq<usize>>)
    ensures
        decode_msg(enc_message(crate::message::MessageV::PlayRequestContext { player, hand, trick, valid_cards })) == Some(crate::message::MessageV::PlayRequestContext { player, hand, trick, valid_cards }),
{
    reveal_strlit("RequestGuessContext");
    reveal_strlit("Guesses");
    reveal_strlit("Turn");
    reveal_strlit("PlayRequestContext");
    reveal_strlit("Trick");
    reveal_strlit("Scoreboard");
    reveal_strlit("Winners");
    reveal_strlit("Winner");
    reveal_strlit("PlayRequest");
    let m = crate::message::MessageV::PlayRequestContext { player, hand, trick, valid_cards };
    let s = enc_message(m);
    let r1 = ":{\"player\":"@ + (enc_player(player) + (",\"hand\":"@ + (enc_cards(hand)
        + (",\"trick\":"@ + (enc_cards(trick) + (",\"valid_cards\":"@ + (enc_opt_nums(
        valid_cards,
    ) + "}}"@)))))));
    assert(s[0] == '{');
    assert(s.skip(1) =~= enc_string("PlayRequestContext"@) + r1);
    lemma_string_rt("PlayRequestContext"@, r1);
    lemma_body_prc_rt(player, hand, trick, valid_cards);
}

/// Round trip of one message variant.
#[verifier::rlimit(100)]
#[verifier::spinoff_prover]
proof fn lemma_rt_trick(cards: Seq<crate::cards::Card>)
    ensures
        decode_msg(enc_message(crate::message::MessageV::Trick { cards })) == Some(crate::message::MessageV::Trick { cards }),
{
    reveal_strlit("RequestGuessContext");
    reveal_strlit("Guesses");
    reveal_strlit("Turn");
    reveal_strlit("PlayRequestContext");
    reveal_strlit("Trick");
    reveal_strlit("Scoreboard");
    reveal_strlit("Winners");
    reveal_strlit("Winner");
    reveal_strlit("PlayRequest");
    reveal_strlit("RequestPlayerName");
    reveal_strlit("RequestGuess");
    reveal_strlit("GameOver");
    assert("Winners"@ != "Guesses"@) by {
        assert("Winners"@[0] != "Guesses"@[0]);
    }
    let m = crate::message::MessageV::Trick { cards };
    let s = enc_message(m);
    let empty = Seq::<char>::empty();
    reveal_strlit(":");
            reveal_strlit("}");
            let r1 = ":"@ + (enc_cards(cards) + "}"@);
            assert(s[0] == '{');
            assert(s.skip(1) =~= enc_string("Trick"@) + r1);
            lemma_string_rt("Trick"@, r1);
            let r2 = enc_cards(cards) + "}"@;
            lemma_lit_rt(":"@, r2);
            lemma_cards_rt(cards, "}"@);
            assert("}"@ =~= "}"@ + empty);
            lemma_lit_rt("}"@, empty);
}

/// Round trip of one message variant.
#[verifier::rlimit(100)]
#[verifier::spinoff_prover]
proof fn lemma_rt_scoreboard(state: Seq<(Seq<char>, crate::structs::PublicState)>)
    ensures
        decode_msg(enc_message(crate::message::MessageV::Scoreboard { state })) == Some(crate::message::MessageV::Scoreboard { state }),
{
    reveal_strlit("RequestGuessContext");
    reveal_strlit("Guesses");
    reveal_strlit("Turn");
    reveal_strlit("PlayRequestContext");
    reveal_strlit("Trick");
    reveal_strlit("Scoreboard");
    reveal_strlit("Winners");
    reveal_strlit("Winner");
    reveal_strlit("PlayRequest");
    reveal_strlit("RequestPlayerName");
    reveal_strlit("RequestGuess");
    reveal_strlit("GameOver");
    assert("Winners"@ != "Guesses"@) by {
        assert("Winners"@[0] != "Guesses"@[0]);
    }
    let m = crate::message::MessageV::Scoreboard { state };
    let s = enc_message(m);
    let empty = Seq::<char>::empty();
    reveal_strlit(":{\"state\":");
            reveal_strlit("}}");
            let r1 = ":{\"state\":"@ + (enc_pairs(state) + "}}"@);
            assert(s[0] == '{');
            assert(s.skip(1) =~= enc_string("Scoreboard"@) + r1);
            lemma_string_rt("Scoreboard"@, r1);
            let r2 = enc_pairs(state) + "}}"@;
            lemma_lit_rt(":{\"state\":"@, r2);
            lemma_pairs_rt(state, "}}"@);
            assert("}}"@ =~= "}}"@ + empty);
            lemma_lit_rt("}}"@, empty);
}

/// Round trip of one message variant.
#[verifier::rlimit(100)]
#[verifier::spinoff_prover]
proof fn lemma_rt_winner(player: crate::structs::PlayerV)
    ensures
        decode_msg(enc_message(crate::message::MessageV::Winner { player })) == Some(crate::message::MessageV::Winner { player }),
{
    reveal_strlit("RequestGuessContext");
    reveal_strlit("Guesses");
    reveal_strlit("Turn");
    reveal_strlit("PlayRequestContext");
    reveal_strlit("Trick");
    reveal_strlit("Scoreboard");
    reveal_strlit("Winners");
    reveal_strlit("Winner");
    reveal_strlit("PlayRequest");
    reveal_strlit("RequestPlayerName");
    reveal_strlit("RequestGuess");
    reveal_strlit("GameOver");
    assert("Winners"@ != "Guesses"@) by {
        assert("Winners"@[0] != "Guesses"@[0]);
    }
    let m = crate::message::MessageV::Winner { player };
    let s = enc_message(m);
    let empty = Seq::<char>::empty();
    reveal_strlit(":");
            reveal_strlit("}");
            let r1 = ":"@ + (enc_player(player) + "}"@);
            assert(s[0] == '{');
            assert(s.skip(1) =~= enc_string("Winner"@) + r1);
            lemma_string_rt("Winner"@, r1);
            let r2 = enc_player(player) + "}"@;
            lemma_lit_rt(":"@, r2);
            lemma_player_rt(player, "}"@);
            assert("}"@ =~= "}"@ + empty);
            lemma_lit_rt("}"@, empty);
}

/// Round trip of one message variant.
#[verifier::rlimit(100)]
#[verifier::spinoff_prover]
proof fn lemma_rt_winners(players: Seq<crate::structs::PlayerV>, winner_indices: Seq<usize>)
    ensures
        decode_msg(enc_message(crate::message::MessageV::Winners { players, winner_indices })) == Some(crate::message::MessageV::Winners { players, winner_indices }),
{
    reveal_strlit("RequestGuessContext");
    reveal_strlit("Guesses");
    reveal_strlit("Turn");
    reveal_strlit("PlayRequestContext");
    reveal_strlit("Trick");
    reveal_strlit("Scoreboard");
    reveal_strlit("Winners");
    reveal_strlit("Winner");
    reveal_strlit("PlayRequest");
    reveal_strlit("RequestPlayerName");
    reveal_strlit("RequestGuess");
    reveal_strlit("GameOver");
    assert("Winners"@ != "Guesses"@) by {
        assert("Winners"@[0] != "Guesses"@[0]);
    }
    let m = crate::message::MessageV::Winners { players, winner_indices };
    let s = enc_message(m);
    let empty = Seq::<char>::empty();
    reveal_strlit(":{\"players\":");
            reveal_strlit(",\"winner_indices\":");
            reveal_strlit("}}");
            let r1 = ":{\"players\":"@ + (enc_players(players) + (",\"winner_indices\":"@ + (
            enc_nums(winner_indices) + "}}"@)));
            assert(s[0] == '{');
            assert(s.skip(1) =~= enc_string("Winners"@) + r1);
            lemma_string_rt("Winners"@, r1);
            let r2 = enc_players(players) + (",\"winner_indices\":"@ + (enc_nums(winner_indices)
                + "}}"@));
            lemma_lit_rt(":{\"players\":"@, r2);
            let r3 = ",\"winner_indices\":"@ + (enc_nums(winner_indices) + "}}"@);
            lemma_players_rt(players, r3);
            let r4 = enc_nums(winner_indices) + "}}"@;
            lemma_lit_rt(",\"winner_indices\":"@, r4);
            lemma_nums_rt(winner_indices, "}}"@);
            assert("}}"@ =~= "}}"@ + empty);
            lemma_lit_rt("}}"@, empty);
}

/// Round trip of one message variant.
#[verifier::rlimit(100)]
#[verifier::spinoff_prover]
proof fn lemma_rt_request_player_name()
    ensures
        decode_msg(enc_message(crate::message::MessageV::RequestPlayerName)) == Some(crate::message::MessageV::RequestPlayerName),
{
    reveal_strlit("RequestGuessContext");
    reveal_strlit("Guesses");
    reveal_strlit("Turn");
    reveal_strlit("PlayRequestContext");
    reveal_strlit("Trick");
    reveal_strlit("Scoreboard");
    reveal_strlit("Winners");
    reveal_strlit("Winner");
    reveal_strlit("PlayRequest");
    reveal_strlit("RequestPlayerName");
    reveal_strlit("RequestGuess");
    reveal_strlit("GameOver");
    assert("Winners"@ != "Guesses"@) by {
        assert("Winners"@[0] != "Guesses"@[0]);
    }
    let m = crate::message::MessageV::RequestPlayerName;
    let s = enc_message(m);
    let empty = Seq::<char>::empty();
    assert(s =~= enc_string("RequestPlayerName"@) + empty);
            assert(s[0] == '"');
            lemma_string_rt("RequestPlayerName"@, empty);
}

/// Round trip of one message variant.
#[verifier::rlimit(100)]
#[verifier::spinoff_prover]
proof fn lemma_rt_play_request(player: crate::structs::PlayerV)
    ensures
        decode_msg(enc_message(crate::message::MessageV::PlayRequest { player })) == Some(crate::message::MessageV::PlayRequest { player }),
{
    reveal_strlit("RequestGuessContext");
    reveal_strlit("Guesses");
    reveal_strlit("Turn");
    reveal_strlit("PlayRequestContext");
    reveal_strlit("Trick");
    reveal_strlit("Scoreboard");
    reveal_strlit("Winners");
    reveal_strlit("Winner");
    reveal_strlit("PlayRequest");
    reveal_strlit("RequestPlayerName");
    reveal_strlit("RequestGuess");
    reveal_strlit("GameOver");
    assert("Winners"@ != "Guesses"@) by {
        assert("Winners"@[0] != "Guesses"@[0]);
    }
    let m = crate::message::MessageV::PlayRequest { player };
    let s = enc_message(m);
    let empty = Seq::<char>::empty();
    reveal_strlit(":");
            reveal_strlit("}");
            let r1 = ":"@ + (enc_player(player) + "}"@);
            assert(s[0] == '{');
            assert(s.skip(1) =~= enc_string("PlayRequest"@) + r1);
            lemma_string_rt("PlayRequest"@, r1);
            let r2 = enc_player(player) + "}"@;
            lemma_lit_rt(":"@, r2);
            lemma_player_rt(player, "}"@);
            assert("}"@ =~= "}"@ + empty);
            lemma_lit_rt("}"@, empty);
}

/// Round trip of one message variant.
#[verifier::rlimit(100)]
#[verifier::spinoff_prover]
proof fn lemma_rt_request_guess()
    ensures
        decode_msg(enc_message(crate::message::MessageV::RequestGuess)) == Some(crate::message::MessageV::RequestGuess),
{
    reveal_strlit("RequestGuessContext");
    reveal_strlit("Guesses");
    reveal_strlit("Turn");
    reveal_strlit("PlayRequestContext");
    reveal_strlit("Trick");
    reveal_strlit("Scoreboard");
    reveal_strlit("Winners");
    reveal_strlit("Winner");
    reveal_strlit("PlayRequest");
    reveal_strlit("RequestPlayerName");
    reveal_strlit("RequestGuess");
    reveal_strlit("GameOver");
    assert("Winners"@ != "Guesses"@) by {
        assert("Winners"@[0] != "Guesses"@[0]);
    }
    let m = crate::message::MessageV::RequestGuess;
    let s = enc_message(m);
    let empty = Seq::<char>::empty();
    assert(s =~= enc_string("RequestGuess"@) + empty);
            assert(s[0] == '"');
            lemma_string_rt("RequestGuess"@, empty);
}

/// Round trip of one message variant.
#[verifier::rlimit(100)]
#[verifier::spinoff_prover]
proof fn lemma_rt_game_over()
    ensures
        decode_msg(enc_message(crate::message::MessageV::GameOver)) == Some(crate::message::MessageV::GameOver),
{
    reveal_strlit("RequestGuessContext");
    reveal_strlit("Guesses");
    reveal_strlit("Turn");
    reveal_strlit("PlayRequestContext");
    reveal_strlit("Trick");
    reveal_strlit("Scoreboard");
    reveal_strlit("Winners");
    reveal_strlit("Winner");
    reveal_strlit("PlayRequest");
    reveal_strlit("RequestPlayerName");
    reveal_strlit("RequestGuess");
    reveal_strlit("GameOver");
    assert("Winners"@ != "Guesses"@) by {
        assert("Winners"@[0] != "Guesses"@[0]);
    }
    let m = crate::message::MessageV::GameOver;
    let s = enc_message(m);
    let empty = Seq::<char>::empty();
    assert(s =~= enc_string("GameOver"@) + empty);
            assert(s[0] == '"');
            lemma_string_rt("GameOver"@, empty);
}

/// Every protocol message, serialized to its structured line and parsed
/// back, yields the original message with all field values preserved.
pub proof fn lemma_message_round_trip(m: crate::message::MessageV)
    ensures
        decode_msg(enc_message(m)) == Some(m),
{
    match m {
        crate::message::MessageV::RequestGuessContext { player, hand, guesses, players } => lemma_rt_request_guess_context(player, hand, guesses, players),
        crate::message::MessageV::Guesses { state } => lemma_rt_guesses(state),
        crate::message::MessageV::Turn { whose } => lemma_rt_turn(whose),
        crate::message::MessageV::PlayRequestContext { player, hand, trick, valid_cards } => lemma_rt_play_request_context(player, hand, trick, valid_cards),
        crate::message::MessageV::Trick { cards } => lemma_rt_trick(cards),
        crate::message::MessageV::Scoreboard { state } => lemma_rt_scoreboard(state),
        crate::message::MessageV::Winner { player } => lemma_rt_winner(player),
        crate::message::MessageV::Winners { players, winner_indices } => lemma_rt_winners(players, winner_indices),
        crate::message::MessageV::RequestPlayerName => lemma_rt_request_player_name(),
        crate::message::MessageV::PlayRequest { player } => lemma_rt_play_request(player),
        crate::message::MessageV::RequestGuess => lemma_rt_request_guess(),
        crate::message::MessageV::GameOver => lemma_rt_game_over(),
    }
}


/// Compares two strings character by character.
fn str_eq(a: &str, b: &str) -> (r: bool)
    ensures
        r == (a@ == b@),
{
    let n = a.unicode_len();
    if n != b.unicode_len() {
        return false;
    }
    let mut k: usize = 0;
    while k < n
        invariant
            k <= n,
            n == a@.len(),
            n == b@.len(),
            forall|m: int| 0 <= m < k ==> a@[m] == b@[m],
        decreases n - k,
    {
        if a.get_char(k) != b.get_char(k) {
            proof {
                if a@ == b@ {
                    assert(a@[k as int] == b@[k as int]);
                }
            }
            return false;
        }
        k = k + 1;
    }
    proof {
        assert(a@ =~= b@);
    }
    true
}

/// Reads a guess-request-context body at position `i` as [`p_body_rgc`]
/// describes.
fn parse_body_rgc(s: &str, i: usize) -> (r: Option<(crate::message::Message, usize)>)
    requires
        i <= s@.len(),
    ensures
        match r {
            Some((m, j)) => i <= j <= s@.len() && p_body_rgc(s@.skip(i as int)) == Some((
                m@,
                s@.skip(j as int),
            )),
            None => p_body_rgc(s@.skip(i as int)) is None,
        },
{
    let j2 = match match_lit(s, i, ":{\"player\":") {
        Some(j) => j,
        None => {
            return None;
        },
    };
    let (player, j3) = match parse_player(s, j2) {
        Some(v) => v,
        None => {
            return None;
        },
    };
    let j4 = match match_lit(s, j3, ",\"hand\":") {
        Some(j) => j,
        None => {
            return None;
        },
    };
    let (hand, j5) = match parse_cards(s, j4) {
        Some(v) => v,
        None => {
            return None;
        },
    };
    let j6 = match match_lit(s, j5, ",\"guesses\":") {
        Some(j) => j,
        None => {
            return None;
        },
    };
    let (guesses, j7) = match parse_nums(s, j6) {
        Some(v) => v,
        None => {
            return None;
        },
    };
    let j8 = match match_lit(s, j7, ",\"players\":") {
        Some(j) => j,
        None => {
            return None;
        },
    };
    let (players, j9) = match parse_number(s, j8) {
        Some(v) => v,
        None => {
            return None;
        },
    };
    let j10 = match match_lit(s, j9, "}}") {
        Some(j) => j,
        None => {
            return None;
        },
    };
    Some((crate::message::Message::RequestGuessContext { player, hand, guesses, players }, j10))
}

/// Reads a play-request-context body at position `i` as [`p_body_prc`]
/// describes.
fn parse_body_prc(s: &str, i: usize) -> (r: Option<(crate::message::Message, usize)>)
    requires
        i <= s@.len(),
    ensures
        match r {
            Some((m, j)) => i <= j <= s@.len() && p_body_prc(s@.skip(i as int)) == Some((
                m@,
                s@.skip(j as int),
            )),
            None => p_body_prc(s@.skip(i as int)) is None,
        },
{
    let j2 = match match_lit(s, i, ":{\"player\":") {
        Some(j) => j,
        None => {
            return None;
        },
    };
    let (player, j3) = match parse_player(s, j2) {
        Some(v) => v,
        None => {
            return None;
        },
    };
    let j4 = match match_lit(s, j3, ",\"hand\":") {
        Some(j) => j,
        None => {
            return None;
        },
    };
    let (hand, j5) = match parse_cards(s, j4) {
        Some(v) => v,
        None => {
            return None;
        },
    };
    let j6 = match match_lit(s, j5, ",\"trick\":") {
        Some(j) => j,
        None => {
            return None;
        },
    };
    let (trick_cards, j7) = match parse_cards(s, j6) {
        Some(v) => v,
        None => {
            return None;
        },
    };
    let j8 = match match_lit(s, j7, ",\"valid_cards\":") {
        Some(j) => j,
        None => {
            return None;
        },
    };
    let (valid_cards, j9) = match parse_opt_nums(s, j8) {
        Some(v) => v,
        None => {
            return None;
        },
    };
    let j10 = match match_lit(s, j9, "}}") {
        Some(j) => j,
        None => {
            return None;
        },
    };
    Some(
        (
            crate::message::Message::PlayRequestContext {
                player,
                hand,
                trick: crate::structs::Trick(trick_cards),
                valid_cards,
            },
            j10,
        ),
    )
}

/// Reads a winners body at position `i` as [`p_body_winners`] describes.
fn parse_body_winners(s: &str, i: usize) -> (r: Option<(crate::message::Message, usize)>)
    requires
        i <= s@.len(),
    ensures
        match r {
            Some((m, j)) => i <= j <= s@.len() && p_body_winners(s@.skip(i as int)) == Some((
                m@,
                s@.skip(j as int),
            )),
            None => p_body_winners(s@.skip(i as int)) is None,
        },
{
    let j2 = match match_lit(s, i, ":{\"players\":") {
        Some(j) => j,
        None => {
            return None;
        },
    };
    let (players, j3) = match parse_players(s, j2) {
        Some(v) => v,
        None => {
            return None;
        },
    };
    let j4 = match match_lit(s, j3, ",\"winner_indices\":") {
        Some(j) => j,
        None => {
            return None;
        },
    };
    let (winner_indices, j5) = match parse_nums(s, j4) {
        Some(v) => v,
        None => {
            return None;
        },
    };
    let j6 = match match_lit(s, j5, "}}") {
        Some(j) => j,
        None => {
            return None;
        },
    };
    Some((crate::message::Message::Winners { players, winner_indices }, j6))
}

/// Reads a state-carrying body at position `i` as [`p_body_state`]
/// describes.
fn parse_body_state(s: &str, i: usize, guesses: bool) -> (r: Option<
    (crate::message::Message, usize),
>)
    requires
        i <= s@.len(),
    ensures
        match r {
            Some((m, j)) => i <= j <= s@.len() && p_body_state(s@.skip(i as int), guesses)
                == Some((m@, s@.skip(j as int))),
            None => p_body_state(s@.skip(i as int), guesses) is None,
        },
{
    let j2 = match match_lit(s, i, ":{\"state\":") {
        Some(j) => j,
        None => {
            return None;
        },
    };
    let (state, j3) = match parse_pairs(s, j2) {
        Some(v) => v,
        None => {
            return None;
        },
    };
    let j4 = match match_lit(s, j3, "}}") {
        Some(j) => j,
        None => {
            return None;
        },
    };
    if guesses {
        Some((crate::message::Message::Guesses { state }, j4))
    } else {
        Some((crate::message::Message::Scoreboard { state }, j4))
    }
}

/// Reads a player-carrying body at position `i` as [`p_body_player`]
/// describes.
fn parse_body_player(s: &str, i: usize, winner: bool) -> (r: Option<
    (crate::message::Message, usize),
>)
    requires
        i <= s@.len(),
    ensures
        match r {
            Some((m, j)) => i <= j <= s@.len() && p_body_player(s@.skip(i as int), winner)
                == Some((m@, s@.skip(j as int))),
            None => p_body_player(s@.skip(i as int), winner) is None,
        },
{
    let j2 = match match_lit(s, i, ":") {
        Some(j) => j,
        None => {
            return None;
        },
    };
    let (player, j3) = match parse_player(s, j2) {
        Some(v) => v,
        None => {
            return None;
        },
    };
    let j4 = match match_lit(s, j3, "}") {
        Some(j) => j,
        None => {
            return None;
        },
    };
    if winner {
        Some((crate::message::Message::Winner(player), j4))
    } else {
        Some((crate::message::Message::PlayRequest(player), j4))
    }
}

/// Reads a turn body at position `i` as [`p_body_turn`] describes.
fn parse_body_turn(s: &str, i: usize) -> (r: Option<(crate::message::Message, usize)>)
    requires
        i <= s@.len(),
    ensures
        match r {
            Some((m, j)) => i <= j <= s@.len() && p_body_turn(s@.skip(i as int)) == Some((
                m@,
                s@.skip(j as int),
            )),
            None => p_body_turn(s@.skip(i as int)) is None,
        },
{
    let j2 = match match_lit(s, i, ":{\"whose\":") {
        Some(j) => j,
        None => {
            return None;
        },
    };
    let (whose, j3) = match parse_player(s, j2) {
        Some(v) => v,
        None => {
            return None;
        },
    };
    let j4 = match match_lit(s, j3, "}}") {
        Some(j) => j,
        None => {
            return None;
        },
    };
    Some((crate::message::Message::Turn { whose }, j4))
}

/// Reads a trick body at position `i` as [`p_body_trick`] describes.
fn parse_body_trick(s: &str, i: usize) -> (r: Option<(crate::message::Message, usize)>)
    requires
        i <= s@.len(),
    ensures
        match r {
            Some((m, j)) => i <= j <= s@.len() && p_body_trick(s@.skip(i as int)) == Some((
                m@,
                s@.skip(j as int),
            )),
            None => p_body_trick(s@.skip(i as int)) is None,
        },
{
    let j2 = match match_lit(s, i, ":") {
        Some(j) => j,
        None => {
            return None;
        },
    };
    let (cards, j3) = match parse_cards(s, j2) {
        Some(v) => v,
        None => {
            return None;
        },
    };
    let j4 = match match_lit(s, j3, "}") {
        Some(j) => j,
        None => {
            return None;
        },
    };
    Some((crate::message::Message::Trick(crate::structs::Trick(cards)), j4))
}

/// Reads one whole structured line: the message it holds, or nothing if
/// the line is not exactly one rendered message.
pub fn decode_message(s: &str) -> (r: Option<crate::message::Message>)
    ensures
        match r {
            Some(m) => decode_msg(s@) == Some(m@),
            None => decode_msg(s@) is None,
        },
{
    let slen = s.unicode_len();
    if slen == 0 {
        return None;
    }
    let c0 = s.get_char(0);
    let parsed: Option<(crate::message::Message, usize)>;
    if c0 == '{' {
        let (tag, j1) = match parse_string(s, 1) {
            Some(v) => v,
            None => {
                return None;
            },
        };
        if str_eq(tag.as_str(), "RequestGuessContext") {
            parsed = parse_body_rgc(s, j1);
        } else if str_eq(tag.as_str(), "Guesses") {
            parsed = parse_body_state(s, j1, true);
        } else if str_eq(tag.as_str(), "Turn") {
            parsed = parse_body_turn(s, j1);
        } else if str_eq(tag.as_str(), "PlayRequestContext") {
            parsed = parse_body_prc(s, j1);
        } else if str_eq(tag.as_str(), "Trick") {
            parsed = parse_body_trick(s, j1);
        } else if str_eq(tag.as_str(), "Scoreboard") {
            parsed = parse_body_state(s, j1, false);
        } else if str_eq(tag.as_str(), "Winners") {
            parsed = parse_body_winners(s, j1);
        } else if str_eq(tag.as_str(), "Winner") {
            parsed = parse_body_player(s, j1, true);
        } else if str_eq(tag.as_str(), "PlayRequest") {
            parsed = parse_body_player(s, j1, false);
        } else {
            return None;
        }
    } else {
        proof {
            assert(s@.skip(0int) =~= s@);
        }
        let (tag, j1) = match parse_string(s, 0) {
            Some(v) => v,
            None => {
                return None;
            },
        };
        if str_eq(tag.as_str(), "RequestPlayerName") {
            parsed = Some((crate::message::Message::RequestPlayerName, j1));
        } else if str_eq(tag.as_str(), "RequestGuess") {
            parsed = Some((crate::message::Message::RequestGuess, j1));
        } else if str_eq(tag.as_str(), "GameOver") {
            parsed = Some((crate::message::Message::GameOver, j1));
        } else {
            return None;
        }
    }
    match parsed {
        Some((m, j)) => {
            if j == slen {
                Some(m)
            } else {
                None
            }
        },
        None => None,
    }
}

/// Renders the shared shape of a tagged message: the tag-keyed object
/// around an already-rendered body.
fn encode_tagged(tag: &str, body: &str, double_brace: bool, keyed: Option<&str>) -> (r: String)
    ensures
        r@ == seq!['{'] + (enc_string(tag@) + ((match keyed {
            Some(key) => key@,
            None => ":"@,
        }) + (body@ + (if double_brace {
            "}}"@
        } else {
            "}"@
        })))),
{
    let mut out = String::new();
    out.append("{");
    let quoted = encode_string(tag);
    out.append(quoted.as_str());
    match keyed {
        Some(key) => {
            out.append(key);
        },
        None => {
            out.append(":");
        },
    }
    out.append(body);
    if double_brace {
        out.append("}}");
    } else {
        out.append("}");
    }
    proof {
        reveal_strlit("{");
        assert(out@ =~= seq!['{'] + (enc_string(tag@) + ((match keyed {
            Some(key) => key@,
            None => ":"@,
        }) + (body@ + (if double_brace {
            "}}"@
        } else {
            "}"@
        })))));
    }
    out
}

/// Renders the body of a guess-request context.
fn encode_body_rgc(
    player: &crate::structs::Player,
    hand: &Vec<crate::cards::Card>,
    guesses: &Vec<usize>,
    players: usize,
) -> (r: String)
    ensures
        r@ == enc_player(player@) + (",\"hand\":"@ + (enc_cards(hand@) + (",\"guesses\":"@ + (
        enc_nums(guesses@) + (",\"players\":"@ + dec_chars(players as int)))))),
{
    let mut out = encode_player(player);
    out.append(",\"hand\":");
    let h = encode_cards(hand);
    out.append(h.as_str());
    out.append(",\"guesses\":");
    let g = encode_nums(guesses);
    out.append(g.as_str());
    out.append(",\"players\":");
    let n = format_usize(players);
    out.append(n.as_str());
    proof {
        assert(out@ =~= enc_player(player@) + (",\"hand\":"@ + (enc_cards(hand@) + (
        ",\"guesses\":"@ + (enc_nums(guesses@) + (",\"players\":"@ + dec_chars(
            players as int,
        )))))));
    }
    out
}

/// Renders the body of a play-request context.
fn encode_body_prc(
    player: &crate::structs::Player,
    hand: &Vec<crate::cards::Card>,
    trick: &crate::structs::Trick,
    valid_cards: &Option<Vec<usize>>,
) -> (r: String)
    ensures
        r@ == enc_player(player@) + (",\"hand\":"@ + (enc_cards(hand@) + (",\"trick\":"@ + (
        enc_cards(trick@) + (",\"valid_cards\":"@ + enc_opt_nums(
            match valid_cards {
                Some(v) => Some(v@),
                None => None,
            },
        )))))),
{
    let mut out = encode_player(player);
    out.append(",\"hand\":");
    let h = encode_cards(hand);
    out.append(h.as_str());
    out.append(",\"trick\":");
    let t = encode_cards(&trick.0);
    out.append(t.as_str());
    out.append(",\"valid_cards\":");
    match valid_cards {
        Some(v) => {
            let ns = encode_nums(v);
            out.append(ns.as_str());
        },
        None => {
            out.append("null");
        },
    }
    proof {
        assert(out@ =~= enc_player(player@) + (",\"hand\":"@ + (enc_cards(hand@) + (
        ",\"trick\":"@ + (enc_cards(trick@) + (",\"valid_cards\":"@ + enc_opt_nums(
            match valid_cards {
                Some(v) => Some(v@),
                None => None,
            },
        )))))));
    }
    out
}

/// Renders one whole message as its structured line, exactly as
/// [`enc_message`] describes.
#[verifier::rlimit(100)]
#[verifier::spinoff_prover]
pub fn encode_message(m: &crate::message::Message) -> (r: String)
    ensures
        r@ == enc_message(m@),
{
    match m {
        crate::message::Message::RequestGuessContext { player, hand, guesses, players } => {
            let body = encode_body_rgc(player, hand, guesses, *players);
            let out = encode_tagged(
                "RequestGuessContext",
                body.as_str(),
                true,
                Some(":{\"player\":"),
            );
            proof {
                assert(out@ =~= enc_message(m@));
            }
            out
        },
        crate::message::Message::Guesses { state } => {
            let body = encode_pairs(state);
            let out = encode_tagged("Guesses", body.as_str(), true, Some(":{\"state\":"));
            proof {
                assert(out@ =~= enc_message(m@));
            }
            out
        },
        crate::message::Message::Turn { whose } => {
            let body = encode_player(whose);
            let out = encode_tagged("Turn", body.as_str(), true, Some(":{\"whose\":"));
            proof {
                assert(out@ =~= enc_message(m@));
            }
            out
        },
        crate::message::Message::PlayRequestContext { player, hand, trick, valid_cards } => {
            let body = encode_body_prc(player, hand, trick, valid_cards);
            let out = encode_tagged(
                "PlayRequestContext",
                body.as_str(),
                true,
                Some(":{\"player\":"),
            );
            proof {
                assert(out@ =~= enc_message(m@));
            }
            out
        },
        crate::message::Message::Trick(trick) => {
            let body = encode_cards(&trick.0);
            let out = encode_tagged("Trick", body.as_str(), false, None);
            proof {
                assert(out@ =~= enc_message(m@));
            }
            out
        },
        crate::message::Message::Scoreboard { state } => {
            let body = encode_pairs(state);
            let out = encode_tagged("Scoreboard", body.as_str(), true, Some(":{\"state\":"));
            proof {
                assert(out@ =~= enc_message(m@));
            }
            out
        },
        crate::message::Message::Winner(player) => {
            let body = encode_player(player);
            let out = encode_tagged("Winner", body.as_str(), false, None);
            proof {
                assert(out@ =~= enc_message(m@));
            }
            out
        },
        crate::message::Message::Winners { players, winner_indices } => {
            let mut body = encode_players(players);
            body.append(",\"winner_indices\":");
            let ws = encode_nums(winner_indices);
            body.append(ws.as_str());
            let out = encode_tagged("Winners", body.as_str(), true, Some(":{\"players\":"));
            proof {
                assert(out@ =~= enc_message(m@));
            }
            out
        },
        crate::message::Message::RequestPlayerName => {
            let out = encode_string("RequestPlayerName");
            proof {
                assert(out@ =~= enc_message(m@));
            }
            out
        },
        crate::message::Message::PlayRequest(player) => {
            let body = encode_player(player);
            let out = encode_tagged("PlayRequest", body.as_str(), false, None);
            proof {
                assert(out@ =~= enc_message(m@));
            }
            out
        },
        crate::message::Message::RequestGuess => {
            let out = encode_string("RequestGuess");
            proof {
                assert(out@ =~= enc_message(m@));
            }
            out
        },
        crate::message::Message::GameOver => {
            let out = encode_string("GameOver");
            proof {
                assert(out@ =~= enc_message(m@));
            }
            out
        },
    }
}

} // verus!
