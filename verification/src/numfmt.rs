//! Decimal rendering and parsing of unsigned integers, as they appear inside
//! the token payload.

use vstd::prelude::*;

verus! {

/// An ASCII decimal digit.
pub open spec fn is_digit(b: u8) -> bool {
    0x30 <= b <= 0x39
}

/// The value of a digit string, most significant digit first.
pub open spec fn dec_val(s: Seq<u8>) -> nat
    decreases s.len(),
{
    if s.len() == 0 {
        0
    } else {
        dec_val(s.drop_last()) * 10 + (s.last() - 0x30) as nat
    }
}

/// The shortest decimal rendering of `n`, without leading zeros.
pub open spec fn dec_of(n: nat) -> Seq<u8>
    decreases n,
{
    if n < 10 {
        seq![(0x30 + n) as u8]
    } else {
        dec_of(n / 10).push((0x30 + n % 10) as u8)
    }
}

/// The length of the leading run of digits.
pub open spec fn digit_count(s: Seq<u8>) -> int
    decreases s.len(),
{
    if s.len() == 0 || !is_digit(s[0]) {
        0
    } else {
        1 + digit_count(s.skip(1))
    }
}

/// The leading decimal number of `s`: its value and how many digits it has,
/// or nothing when `s` does not start with a digit.
pub open spec fn take_dec(s: Seq<u8>) -> Option<(nat, int)> {
    let k = digit_count(s);
    if k == 0 {
        None
    } else {
        Some((dec_val(s.take(k)), k))
    }
}

/// A rendering consists of digits only.
pub proof fn lemma_dec_of_digits(n: nat)
    ensures
        dec_of(n).len() >= 1,
        forall|i: int| 0 <= i < dec_of(n).len() ==> is_digit(#[trigger] dec_of(n)[i]),
    decreases n,
{
    if n >= 10 {
        lemma_dec_of_digits(n / 10);
        assert forall|i: int| 0 <= i < dec_of(n).len() implies is_digit(
            #[trigger] dec_of(n)[i],
        ) by {
            if i < dec_of(n / 10).len() {
                assert(dec_of(n)[i] == dec_of(n / 10)[i]);
            }
        }
    }
}

/// Rendering then reading a number gives it back.
pub proof fn lemma_dec_roundtrip(n: nat)
    ensures
        dec_val(dec_of(n)) == n,
    decreases n,
{
    if n < 10 {
        assert(dec_of(n) == seq![(0x30 + n) as u8]);
        assert(dec_of(n).drop_last() =~= Seq::<u8>::empty());
        assert(dec_val(Seq::<u8>::empty()) == 0);
        assert(dec_of(n).last() == (0x30 + n) as u8);
        assert(((0x30 + n) as u8 - 0x30) as nat == n);
    } else {
        lemma_dec_roundtrip(n / 10);
        assert(dec_of(n).drop_last() =~= dec_of(n / 10));
        assert(dec_of(n).last() == (0x30 + n % 10) as u8);
    }
}

/// The leading run of digits is well characterised: everything before it is
/// a digit, and the byte after it, if any, is not.
pub proof fn lemma_digit_count_props(s: Seq<u8>)
    ensures
        0 <= digit_count(s) <= s.len(),
        forall|i: int| 0 <= i < digit_count(s) ==> is_digit(#[trigger] s[i]),
        digit_count(s) < s.len() ==> !is_digit(s[digit_count(s)]),
    decreases s.len(),
{
    if s.len() == 0 || !is_digit(s[0]) {
    } else {
        lemma_digit_count_props(s.skip(1));
        assert forall|i: int| 0 <= i < digit_count(s) implies is_digit(#[trigger] s[i]) by {
            if i > 0 {
                assert(s.skip(1)[i - 1] == s[i]);
            }
        }
        if digit_count(s) < s.len() {
            assert(s.skip(1)[digit_count(s) - 1] == s[digit_count(s)]);
        }
    }
}

/// Appending more bytes after a digit run that ends in a non-digit leaves the
/// run unchanged: `digit_count` of `d + rest` is exactly `d.len()`.
pub proof fn lemma_digit_count_concat(d: Seq<u8>, rest: Seq<u8>)
    requires
        forall|i: int| 0 <= i < d.len() ==> is_digit(#[trigger] d[i]),
        rest.len() > 0,
        !is_digit(rest[0]),
    ensures
        digit_count(d + rest) == d.len(),
    decreases d.len(),
{
    let s = d + rest;
    if d.len() == 0 {
        assert(s =~= rest);
    } else {
        assert(s[0] == d[0]);
        assert(s.skip(1) =~= d.skip(1) + rest);
        lemma_digit_count_concat(d.skip(1), rest);
    }
}

/// A prefix of a digit string never exceeds the whole string in value.
pub proof fn lemma_dec_val_prefix(s: Seq<u8>, k: int)
    requires
        0 <= k <= s.len(),
        forall|i: int| 0 <= i < s.len() ==> is_digit(#[trigger] s[i]),
    ensures
        dec_val(s.take(k)) <= dec_val(s),
    decreases s.len() - k,
{
    if k < s.len() {
        lemma_dec_val_prefix(s, k + 1);
        assert(s.take(k + 1).drop_last() =~= s.take(k));
        assert(s.take(k + 1).last() == s[k]);
        let v = dec_val(s.take(k));
        assert(dec_val(s.take(k + 1)) == v * 10 + (s[k] - 0x30) as nat);
        assert(v * 10 >= v) by (nonlinear_arith);
    } else {
        assert(s.take(k) =~= s);
    }
}

/// Reading a rendered number followed by anything that is not a digit yields
/// the number back and leaves the rest untouched.
pub proof fn lemma_take_dec_concat(n: nat, rest: Seq<u8>)
    requires
        rest.len() > 0,
        !is_digit(rest[0]),
    ensures
        take_dec(dec_of(n) + rest) == Some((n, dec_of(n).len() as int)),
        (dec_of(n) + rest).skip(dec_of(n).len() as int) == rest,
{
    let d = dec_of(n);
    lemma_dec_of_digits(n);
    lemma_digit_count_concat(d, rest);
    lemma_dec_roundtrip(n);
    assert((d + rest).take(d.len() as int) =~= d);
    assert((d + rest).skip(d.len() as int) =~= rest);
}

/// Append the decimal rendering of `n` to `out`.
pub fn push_dec_u64(out: &mut Vec<u8>, n: u64)
    ensures
        final(out)@ == old(out)@ + dec_of(n as nat),
    decreases n,
{
    if n < 10 {
        out.push(0x30 + n as u8);
        proof {
            assert(final(out)@ =~= old(out)@ + dec_of(n as nat));
        }
    } else {
        push_dec_u64(out, n / 10);
        out.push(0x30 + (n % 10) as u8);
        proof {
            assert((n / 10) as nat == n as nat / 10);
            assert((n % 10) as nat == n as nat % 10);
            assert(final(out)@ =~= old(out)@ + dec_of(n as nat));
        }
    }
}

/// Append the decimal rendering of `n` to `out`.
pub fn push_dec_u128(out: &mut Vec<u8>, n: u128)
    ensures
        final(out)@ == old(out)@ + dec_of(n as nat),
    decreases n,
{
    if n < 10 {
        out.push(0x30 + n as u8);
        proof {
            assert(final(out)@ =~= old(out)@ + dec_of(n as nat));
        }
    } else {
        push_dec_u128(out, n / 10);
        out.push(0x30 + (n % 10) as u8);
        proof {
            assert((n / 10) as nat == n as nat / 10);
            assert((n % 10) as nat == n as nat % 10);
            assert(final(out)@ =~= old(out)@ + dec_of(n as nat));
        }
    }
}

/// Read the decimal number starting at `p[start]`. Yields the value and the
/// position after its last digit; fails when no digit starts there or when
/// the value does not fit in 128 bits.
pub fn parse_dec_u128(p: &[u8], start: usize) -> (r: Option<(u128, usize)>)
    requires
        start <= p@.len(),
    ensures
        ({
            let tail = p@.skip(start as int);
            let k = digit_count(tail);
            match r {
                Some(v) => {
                    &&& k > 0
                    &&& v.1 == start + k
                    &&& start < v.1 <= p@.len()
                    &&& v.0 as nat == dec_val(tail.take(k))
                },
                None => k == 0 || dec_val(tail.take(k)) > u128::MAX,
            }
        }),
{
    let ghost tail = p@.skip(start as int);
    let ghost k = digit_count(tail);
    proof {
        lemma_digit_count_props(tail);
    }
    let n = p.len();
    let mut i: usize = start;
    let mut acc: u128 = 0;
    if i == n || !(0x30 <= p[i] && p[i] <= 0x39) {
        return None;
    }
    while i < n && 0x30 <= p[i] && p[i] <= 0x39
        invariant
            start <= i <= n,
            n == p@.len(),
            tail == p@.skip(start as int),
            k == digit_count(tail),
            i - start <= k,
            i - start < k ==> i < n && is_digit(p@[i as int]),
            acc as nat == dec_val(tail.take(i - start)),
            i == start + k || i - start < k,
        decreases n - i,
    {
        proof {
            lemma_digit_count_props(tail);
            assert(tail[i - start] == p@[i as int]);
            if i - start == k {
                // The loop condition saw a digit beyond the digit run.
                assert(!is_digit(tail[k]));
                assert(false);
            }
        }
        let d = p[i] - 0x30;
        if acc > (u128::MAX - d as u128) / 10 {
            proof {
                let pre = tail.take(i - start + 1);
                assert(pre.drop_last() =~= tail.take(i - start));
                assert(pre.last() == tail[i - start]);
                assert((pre.last() - 0x30) as nat == d as nat);
                assert(dec_val(pre) == acc as nat * 10 + d as nat);
                assert(acc as nat * 10 + d as nat > u128::MAX) by (nonlinear_arith)
                    requires
                        acc as nat > (u128::MAX - d as nat) / 10,
                        d as nat <= 9,
                {}
                assert forall|j: int| 0 <= j < tail.take(k).len() implies is_digit(
                    #[trigger] tail.take(k)[j],
                ) by {
                    assert(tail.take(k)[j] == tail[j]);
                }
                lemma_dec_val_prefix(tail.take(k), i - start + 1);
                assert(tail.take(k).take(i - start + 1) =~= pre);
            }
            return None;
        }
        proof {
            let pre = tail.take(i - start + 1);
            assert(pre.drop_last() =~= tail.take(i - start));
            assert(pre.last() == tail[i - start]);
            assert(dec_val(pre) == acc as nat * 10 + d as nat);
            assert(acc as nat * 10 + d as nat <= u128::MAX) by (nonlinear_arith)
                requires
                    acc as nat <= (u128::MAX - d as nat) / 10,
                    d as nat <= 9,
            {}
        }
        acc = acc * 10 + d as u128;
        i += 1;
        proof {
            lemma_digit_count_props(tail);
            if i - start < k {
                assert(is_digit(tail[i - start]));
                assert(tail[i - start] == p@[i as int]);
            }
        }
    }
    proof {
        if i - start < k {
            // The run has another digit, so the loop could not have stopped.
            assert(is_digit(tail[i - start]));
            assert(p@[i as int] == tail[i - start]);
            assert(false);
        }
    }
    Some((acc, i))
}

} // verus!
