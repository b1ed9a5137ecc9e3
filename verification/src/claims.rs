//! The signed payload of a token and its canonical wire encoding: a JSON
//! object with the issuer, subject, audience, expiry, issue time and token
//! identifier, rendered and parsed byte by byte.

use vstd::prelude::*;
use vstd::slice::slice_subrange;
use vstd::slice::slice_to_vec;
use vstd::string::StrSliceExecFns;
use vstd::utf8::encode_utf8;

use crate::numfmt::dec_of;
use crate::numfmt::dec_val;
use crate::numfmt::digit_count;
use crate::numfmt::is_digit;
use crate::numfmt::lemma_take_dec_concat;
use crate::numfmt::parse_dec_u128;
use crate::numfmt::push_dec_u128;
use crate::numfmt::push_dec_u64;
use crate::numfmt::take_dec;

verus! {

/// A byte that may appear verbatim inside a JSON string: printable ASCII
/// except the quote and the backslash.
pub open spec fn is_plain_byte(b: u8) -> bool {
    0x20 <= b <= 0x7e && b != 0x22 && b != 0x5c
}

/// Every byte of `b` may appear verbatim inside a JSON string.
pub open spec fn json_plain(b: Seq<u8>) -> bool {
    forall|i: int| 0 <= i < b.len() ==> is_plain_byte(#[trigger] b[i])
}

/// The mathematical content of a claims payload: the three string claims as
/// their UTF-8 bytes, and the three numeric claims.
pub struct ClaimsV {
    pub iss: Seq<u8>,
    pub sub: Seq<u8>,
    pub aud: Seq<u8>,
    pub exp: u64,
    pub iat: u64,
    pub jti: u128,
}

impl ClaimsV {
    /// A payload is well-formed when its string claims need no escaping.
    pub open spec fn wf(&self) -> bool {
        json_plain(self.iss) && json_plain(self.sub) && json_plain(self.aud)
    }
}

/// The signed payload of a token: issuer, subject (the user identity),
/// audience, expiry and issue time in seconds since the epoch, and the token
/// identifier correlating the token to its session record.
#[derive(Clone, Debug)]
pub struct Claims {
    pub iss: String,
    pub sub: String,
    pub aud: String,
    pub exp: u64,
    pub iat: u64,
    pub jti: u128,
}

impl View for Claims {
    type V = ClaimsV;

    open spec fn view(&self) -> ClaimsV {
        ClaimsV {
            iss: encode_utf8(self.iss@),
            sub: encode_utf8(self.sub@),
            aud: encode_utf8(self.aud@),
            exp: self.exp,
            iat: self.iat,
            jti: self.jti,
        }
    }
}

/// `{"iss":"`
pub open spec fn lit_iss() -> Seq<u8> {
    seq![0x7bu8, 0x22, 0x69, 0x73, 0x73, 0x22, 0x3a, 0x22]
}

/// `","sub":"`
pub open spec fn lit_sub() -> Seq<u8> {
    seq![0x22u8, 0x2c, 0x22, 0x73, 0x75, 0x62, 0x22, 0x3a, 0x22]
}

/// `","aud":"`
pub open spec fn lit_aud() -> Seq<u8> {
    seq![0x22u8, 0x2c, 0x22, 0x61, 0x75, 0x64, 0x22, 0x3a, 0x22]
}

/// `","exp":`
pub open spec fn lit_exp() -> Seq<u8> {
    seq![0x22u8, 0x2c, 0x22, 0x65, 0x78, 0x70, 0x22, 0x3a]
}

/// `,"iat":`
pub open spec fn lit_iat() -> Seq<u8> {
    seq![0x2cu8, 0x22, 0x69, 0x61, 0x74, 0x22, 0x3a]
}

/// `,"jti":`
pub open spec fn lit_jti() -> Seq<u8> {
    seq![0x2cu8, 0x22, 0x6a, 0x74, 0x69, 0x22, 0x3a]
}

/// `}`
pub open spec fn lit_end() -> Seq<u8> {
    seq![0x7du8]
}

/// The canonical JSON rendering of a payload.
pub open spec fn claims_json(c: ClaimsV) -> Seq<u8> {
    lit_iss() + (c.iss + (lit_sub() + (c.sub + (lit_aud() + (c.aud + (lit_exp() + (dec_of(
        c.exp as nat,
    ) + (lit_iat() + (dec_of(c.iat as nat) + (lit_jti() + (dec_of(c.jti as nat)
        + lit_end())))))))))))
}

/// Strip the literal `lit` from the front of `p`.
pub open spec fn expect(p: Seq<u8>, lit: Seq<u8>) -> Option<Seq<u8>> {
    if p.len() >= lit.len() && p.take(lit.len() as int) == lit {
        Some(p.skip(lit.len() as int))
    } else {
        None
    }
}

/// The length of the leading run of plain string bytes.
pub open spec fn plain_count(s: Seq<u8>) -> int
    decreases s.len(),
{
    if s.len() == 0 || !is_plain_byte(s[0]) {
        0
    } else {
        1 + plain_count(s.skip(1))
    }
}

/// The leading JSON string contents of `p`: the run of plain bytes, which
/// must be ended by a quote. The quote is left on the rest.
pub open spec fn take_str(p: Seq<u8>) -> Option<(Seq<u8>, Seq<u8>)> {
    let k = plain_count(p);
    if k < p.len() && p[k] == 0x22 {
        Some((p.take(k), p.skip(k)))
    } else {
        None
    }
}

/// Parse the canonical claims rendering. Accepts exactly the strings that
/// `claims_json` produces for well-formed payloads, up to redundant leading
/// zeros in the numeric claims.
pub open spec fn parse_claims_spec(p: Seq<u8>) -> Option<ClaimsV> {
    match expect(p, lit_iss()) {
        None => None,
        Some(r1) => match take_str(r1) {
            None => None,
            Some((iss, r2)) => match expect(r2, lit_sub()) {
                None => None,
                Some(r3) => match take_str(r3) {
                    None => None,
                    Some((sub, r4)) => match expect(r4, lit_aud()) {
                        None => None,
                        Some(r5) => match take_str(r5) {
                            None => None,
                            Some((aud, r6)) => match expect(r6, lit_exp()) {
                                None => None,
                                Some(r7) => match take_dec(r7) {
                                    None => None,
                                    Some((expv, k1)) => if expv > u64::MAX {
                                        None
                                    } else {
                                        match expect(r7.skip(k1), lit_iat()) {
                                            None => None,
                                            Some(r8) => match take_dec(r8) {
                                                None => None,
                                                Some((iatv, k2)) => if iatv > u64::MAX {
                                                    None
                                                } else {
                                                    match expect(r8.skip(k2), lit_jti()) {
                                                        None => None,
                                                        Some(r9) => match take_dec(r9) {
                                                            None => None,
                                                            Some((jtiv, k3)) => if jtiv
                                                                > u128::MAX || r9.skip(k3)
                                                                != lit_end() {
                                                                None
                                                            } else {
                                                                Some(
                                                                    ClaimsV {
                                                                        iss,
                                                                        sub,
                                                                        aud,
                                                                        exp: expv as u64,
                                                                        iat: iatv as u64,
                                                                        jti: jtiv as u128,
                                                                    },
                                                                )
                                                            },
                                                        },
                                                    }
                                                },
                                            },
                                        }
                                    },
                                },
                            },
                        },
                    },
                },
            },
        },
    }
}

/// Stripping a literal off itself leaves the rest.
pub proof fn lemma_expect_concat(lit: Seq<u8>, rest: Seq<u8>)
    ensures
        expect(lit + rest, lit) == Some(rest),
{
    assert((lit + rest).take(lit.len() as int) =~= lit);
    assert((lit + rest).skip(lit.len() as int) =~= rest);
}

/// The leading plain run of a plain string followed by a non-plain byte is
/// exactly that string.
pub proof fn lemma_plain_count_concat(d: Seq<u8>, rest: Seq<u8>)
    requires
        json_plain(d),
        rest.len() > 0,
        !is_plain_byte(rest[0]),
    ensures
        plain_count(d + rest) == d.len(),
    decreases d.len(),
{
    let s = d + rest;
    if d.len() == 0 {
        assert(s =~= rest);
    } else {
        assert(s[0] == d[0]);
        assert(s.skip(1) =~= d.skip(1) + rest);
        assert(json_plain(d.skip(1))) by {
            assert forall|i: int| 0 <= i < d.skip(1).len() implies is_plain_byte(
                #[trigger] d.skip(1)[i],
            ) by {
                assert(d.skip(1)[i] == d[i + 1]);
            }
        }
        lemma_plain_count_concat(d.skip(1), rest);
    }
}

/// Reading a JSON string off a plain value followed by a quote yields the
/// value and leaves the quote on the rest.
pub proof fn lemma_take_str_concat(d: Seq<u8>, rest: Seq<u8>)
    requires
        json_plain(d),
        rest.len() > 0,
        rest[0] == 0x22,
    ensures
        take_str(d + rest) == Some((d, rest)),
{
    lemma_plain_count_concat(d, rest);
    let s = d + rest;
    assert(s[d.len() as int] == rest[0]);
    assert(s.take(d.len() as int) =~= d);
    assert(s.skip(d.len() as int) =~= rest);
}

/// Parsing inverts rendering: the canonical rendering of any well-formed
/// payload parses back to exactly that payload.
pub proof fn lemma_parse_of_json(c: ClaimsV)
    requires
        c.wf(),
    ensures
        parse_claims_spec(claims_json(c)) == Some(c),
{
    let dexp = dec_of(c.exp as nat);
    let diat = dec_of(c.iat as nat);
    let djti = dec_of(c.jti as nat);
    let t11 = djti + lit_end();
    let t10 = lit_jti() + t11;
    let t9 = diat + t10;
    let t8 = lit_iat() + t9;
    let t7 = dexp + t8;
    let t6 = lit_exp() + t7;
    let t5 = c.aud + t6;
    let t4 = lit_aud() + t5;
    let t3 = c.sub + t4;
    let t2 = lit_sub() + t3;
    let t1 = c.iss + t2;
    assert(claims_json(c) == lit_iss() + t1);
    lemma_expect_concat(lit_iss(), t1);
    assert(t2[0] == 0x22) by {
        assert(t2[0] == lit_sub()[0]);
    }
    lemma_take_str_concat(c.iss, t2);
    lemma_expect_concat(lit_sub(), t3);
    assert(t4[0] == 0x22) by {
        assert(t4[0] == lit_aud()[0]);
    }
    lemma_take_str_concat(c.sub, t4);
    lemma_expect_concat(lit_aud(), t5);
    assert(t6[0] == 0x22) by {
        assert(t6[0] == lit_exp()[0]);
    }
    lemma_take_str_concat(c.aud, t6);
    lemma_expect_concat(lit_exp(), t7);
    assert(t8[0] == 0x2c && !is_digit(t8[0])) by {
        assert(t8[0] == lit_iat()[0]);
    }
    lemma_take_dec_concat(c.exp as nat, t8);
    lemma_expect_concat(lit_iat(), t9);
    assert(t10[0] == 0x2c && !is_digit(t10[0])) by {
        assert(t10[0] == lit_jti()[0]);
    }
    lemma_take_dec_concat(c.iat as nat, t10);
    lemma_expect_concat(lit_jti(), t11);
    assert(lit_end()[0] == 0x7d && !is_digit(lit_end()[0]));
    lemma_take_dec_concat(c.jti as nat, lit_end());
}

/// Relies on std's `String::from_utf8`: ASCII bytes are valid UTF-8 and
/// decode to exactly those characters.
#[verifier::external_body]
pub(crate) fn string_from_ascii(v: Vec<u8>) -> (r: String)
    requires
        forall|i: int| 0 <= i < v@.len() ==> v@[i] < 0x80,
    ensures
        encode_utf8(r@) == v@,
        r@.len() == v@.len(),
{
    match String::from_utf8(v) {
        Ok(s) => s,
        Err(_) => String::new(),
    }
}

/// `lit_iss` as a value.
fn lit_iss_vec() -> (r: Vec<u8>)
    ensures
        r@ == lit_iss(),
{
    let r = vec![0x7bu8, 0x22, 0x69, 0x73, 0x73, 0x22, 0x3a, 0x22];
    proof {
        assert(r@ =~= lit_iss());
    }
    r
}

/// `lit_sub` as a value.
fn lit_sub_vec() -> (r: Vec<u8>)
    ensures
        r@ == lit_sub(),
{
    let r = vec![0x22u8, 0x2c, 0x22, 0x73, 0x75, 0x62, 0x22, 0x3a, 0x22];
    proof {
        assert(r@ =~= lit_sub());
    }
    r
}

/// `lit_aud` as a value.
fn lit_aud_vec() -> (r: Vec<u8>)
    ensures
        r@ == lit_aud(),
{
    let r = vec![0x22u8, 0x2c, 0x22, 0x61, 0x75, 0x64, 0x22, 0x3a, 0x22];
    proof {
        assert(r@ =~= lit_aud());
    }
    r
}

/// `lit_exp` as a value.
fn lit_exp_vec() -> (r: Vec<u8>)
    ensures
        r@ == lit_exp(),
{
    let r = vec![0x22u8, 0x2c, 0x22, 0x65, 0x78, 0x70, 0x22, 0x3a];
    proof {
        assert(r@ =~= lit_exp());
    }
    r
}

/// `lit_iat` as a value.
fn lit_iat_vec() -> (r: Vec<u8>)
    ensures
        r@ == lit_iat(),
{
    let r = vec![0x2cu8, 0x22, 0x69, 0x61, 0x74, 0x22, 0x3a];
    proof {
        assert(r@ =~= lit_iat());
    }
    r
}

/// `lit_jti` as a value.
fn lit_jti_vec() -> (r: Vec<u8>)
    ensures
        r@ == lit_jti(),
{
    let r = vec![0x2cu8, 0x22, 0x6a, 0x74, 0x69, 0x22, 0x3a];
    proof {
        assert(r@ =~= lit_jti());
    }
    r
}

/// Render the payload in its canonical JSON form.
pub(crate) fn serialize_claims(c: &Claims) -> (r: Vec<u8>)
    requires
        c@.wf(),
    ensures
        r@ == claims_json(c@),
{
    let mut out = lit_iss_vec();
    let mut piece = c.iss.as_str().as_bytes_vec();
    out.append(&mut piece);
    let mut piece = lit_sub_vec();
    out.append(&mut piece);
    let mut piece = c.sub.as_str().as_bytes_vec();
    out.append(&mut piece);
    let mut piece = lit_aud_vec();
    out.append(&mut piece);
    let mut piece = c.aud.as_str().as_bytes_vec();
    out.append(&mut piece);
    let mut piece = lit_exp_vec();
    out.append(&mut piece);
    push_dec_u64(&mut out, c.exp);
    let mut piece = lit_iat_vec();
    out.append(&mut piece);
    push_dec_u64(&mut out, c.iat);
    let mut piece = lit_jti_vec();
    out.append(&mut piece);
    push_dec_u128(&mut out, c.jti);
    out.push(0x7d);
    proof {
        assert(out@ =~= claims_json(c@));
    }
    out
}

/// Strip `lit` from `p` at position `pos`, yielding the position after it.
fn expect_lit(p: &[u8], pos: usize, lit: &[u8]) -> (r: Option<usize>)
    requires
        pos <= p@.len(),
    ensures
        match r {
            Some(np) => pos <= np <= p@.len() && np == pos + lit@.len() && expect(
                p@.skip(pos as int),
                lit@,
            ) == Some(p@.skip(np as int)),
            None => expect(p@.skip(pos as int), lit@) is None,
        },
{
    let m = lit.len();
    let n = p.len();
    if n - pos < m {
        return None;
    }
    let mut i: usize = 0;
    while i < m
        invariant
            0 <= i <= m,
            m == lit@.len(),
            n == p@.len(),
            pos + m <= n,
            forall|k: int| 0 <= k < i ==> p@[pos + k] == lit@[k],
        decreases m - i,
    {
        if p[pos + i] != lit[i] {
            proof {
                let s = p@.skip(pos as int);
                assert(s.take(m as int)[i as int] == p@[pos + i]);
                assert(s.take(m as int) != lit@);
            }
            return None;
        }
        i += 1;
    }
    proof {
        let s = p@.skip(pos as int);
        assert(s.take(m as int) =~= lit@);
        assert(s.skip(m as int) =~= p@.skip((pos + m) as int));
    }
    Some(pos + m)
}

/// Read the JSON string starting at `p[pos]`, up to the closing quote, which
/// is left in place.
fn take_string(p: &[u8], pos: usize) -> (r: Option<(String, usize)>)
    requires
        pos <= p@.len(),
    ensures
        match r {
            Some(v) => {
                &&& pos <= v.1 <= p@.len()
                &&& take_str(p@.skip(pos as int)) == Some(
                    (encode_utf8(v.0@), p@.skip(v.1 as int)),
                )
            },
            None => take_str(p@.skip(pos as int)) is None,
        },
{
    let ghost tail = p@.skip(pos as int);
    proof {
        lemma_plain_count_bounds(tail);
    }
    let n = p.len();
    let mut i: usize = pos;
    while i < n && 0x20 <= p[i] && p[i] <= 0x7e && p[i] != 0x22 && p[i] != 0x5c
        invariant
            pos <= i <= n,
            n == p@.len(),
            tail == p@.skip(pos as int),
            forall|k: int| 0 <= k < i - pos ==> is_plain_byte(#[trigger] tail[k]),
            i - pos <= plain_count(tail),
        decreases n - i,
    {
        proof {
            lemma_plain_count_step(tail, i - pos);
        }
        i += 1;
    }
    proof {
        lemma_plain_count_end(tail, i - pos);
        if i < n {
            assert(tail[i - pos] == p@[i as int]);
        }
    }
    if i < n && p[i] == 0x22 {
        let body = slice_to_vec(slice_subrange(p, pos, i));
        proof {
            assert(tail.take(i - pos) =~= p@.subrange(pos as int, i as int));
            assert(tail.skip(i - pos) =~= p@.skip(i as int));
            assert forall|k: int| 0 <= k < body@.len() implies body@[k] < 0x80 by {
                assert(body@[k] == tail[k]);
            }
        }
        let s = string_from_ascii(body);
        Some((s, i))
    } else {
        None
    }
}

/// The plain run is never longer than the string.
proof fn lemma_plain_count_bounds(s: Seq<u8>)
    ensures
        0 <= plain_count(s) <= s.len(),
    decreases s.len(),
{
    if !(s.len() == 0 || !is_plain_byte(s[0])) {
        lemma_plain_count_bounds(s.skip(1));
    }
}

/// A fresh plain byte extends the plain run by one.
proof fn lemma_plain_count_step(s: Seq<u8>, k: int)
    requires
        0 <= k < s.len(),
        forall|i: int| 0 <= i < k ==> is_plain_byte(#[trigger] s[i]),
        k <= plain_count(s),
        is_plain_byte(s[k]),
    ensures
        k + 1 <= plain_count(s),
    decreases k,
{
    lemma_plain_count_bounds(s);
    if s.len() == 0 || !is_plain_byte(s[0]) {
    } else {
        lemma_plain_count_bounds(s.skip(1));
        if k > 0 {
            assert forall|i: int| 0 <= i < k - 1 implies is_plain_byte(#[trigger] s.skip(1)[i]) by {
                assert(s.skip(1)[i] == s[i + 1]);
            }
            assert(s.skip(1)[k - 1] == s[k]);
            lemma_plain_count_step(s.skip(1), k - 1);
        }
    }
}

/// A run of plain bytes that stops at the end or at a non-plain byte is the
/// whole plain run.
proof fn lemma_plain_count_end(s: Seq<u8>, k: int)
    requires
        0 <= k <= s.len(),
        forall|i: int| 0 <= i < k ==> is_plain_byte(#[trigger] s[i]),
        k <= plain_count(s),
        k == s.len() || !is_plain_byte(s[k]),
    ensures
        plain_count(s) == k,
    decreases k,
{
    lemma_plain_count_bounds(s);
    if s.len() == 0 || !is_plain_byte(s[0]) {
    } else {
        lemma_plain_count_bounds(s.skip(1));
        assert forall|i: int| 0 <= i < k - 1 implies is_plain_byte(#[trigger] s.skip(1)[i]) by {
            assert(s.skip(1)[i] == s[i + 1]);
        }
        if k - 1 < s.skip(1).len() {
            assert(s.skip(1)[k - 1] == s[k]);
        }
        lemma_plain_count_end(s.skip(1), k - 1);
    }
}

/// Parse the canonical claims rendering; the inverse of `serialize_claims`.
pub(crate) fn parse_claims(p: &[u8]) -> (r: Option<Claims>)
    ensures
        match r {
            Some(c) => parse_claims_spec(p@) == Some(c@),
            None => parse_claims_spec(p@) is None,
        },
{
    proof {
        assert(p@.skip(0) =~= p@);
    }
    let lit = lit_iss_vec();
    let pos = match expect_lit(p, 0, lit.as_slice()) {
        None => {
            return None;
        },
        Some(np) => np,
    };
    let (iss, pos) = match take_string(p, pos) {
        None => {
            return None;
        },
        Some(v) => v,
    };
    let lit = lit_sub_vec();
    let pos = match expect_lit(p, pos, lit.as_slice()) {
        None => {
            return None;
        },
        Some(np) => np,
    };
    let (sub, pos) = match take_string(p, pos) {
        None => {
            return None;
        },
        Some(v) => v,
    };
    let lit = lit_aud_vec();
    let pos = match expect_lit(p, pos, lit.as_slice()) {
        None => {
            return None;
        },
        Some(np) => np,
    };
    let (aud, pos) = match take_string(p, pos) {
        None => {
            return None;
        },
        Some(v) => v,
    };
    let lit = lit_exp_vec();
    let pos = match expect_lit(p, pos, lit.as_slice()) {
        None => {
            return None;
        },
        Some(np) => np,
    };
    let (expv, pos) = match parse_dec_u128(p, pos) {
        None => {
            return None;
        },
        Some(v) => v,
    };
    if expv > u64::MAX as u128 {
        return None;
    }
    proof {
        lemma_skip_skip(p@, pos as int);
    }
    let lit = lit_iat_vec();
    let pos = match expect_lit(p, pos, lit.as_slice()) {
        None => {
            return None;
        },
        Some(np) => np,
    };
    let (iatv, pos) = match parse_dec_u128(p, pos) {
        None => {
            return None;
        },
        Some(v) => v,
    };
    if iatv > u64::MAX as u128 {
        return None;
    }
    proof {
        lemma_skip_skip(p@, pos as int);
    }
    let lit = lit_jti_vec();
    let pos = match expect_lit(p, pos, lit.as_slice()) {
        None => {
            return None;
        },
        Some(np) => np,
    };
    let (jtiv, pos) = match parse_dec_u128(p, pos) {
        None => {
            return None;
        },
        Some(v) => v,
    };
    proof {
        lemma_skip_skip(p@, pos as int);
    }
    if !(p.len() - pos == 1 && p[pos] == 0x7d) {
        proof {
            let rest = p@.skip(pos as int);
            if rest.len() == lit_end().len() {
                assert(rest[0] == p@[pos as int]);
                assert(rest != lit_end());
            }
        }
        return None;
    }
    proof {
        assert(p@.skip(pos as int) =~= lit_end());
    }
    let c = Claims { iss, sub, aud, exp: expv as u64, iat: iatv as u64, jti: jtiv };
    Some(c)
}

/// Two skips in a row cover the digits a number parse consumed: for any
/// midpoint the tail of a tail is the tail of the sum.
proof fn lemma_skip_skip(p: Seq<u8>, pos: int)
    requires
        0 <= pos <= p.len(),
    ensures
        forall|q: int, k: int|
            0 <= q && 0 <= k && q + k == pos ==> #[trigger] p.skip(q).skip(k) == p.skip(pos),
{
    assert forall|q: int, k: int| 0 <= q && 0 <= k && q + k == pos implies #[trigger] p.skip(
        q,
    ).skip(k) == p.skip(pos) by {
        assert(p.skip(q).skip(k) =~= p.skip(pos));
    }
}

} // verus!
