//! Canonical base64url without padding, at the byte level. The encoding is
//! written out as a specification function; the executable encoder and
//! decoder call the `base64` crate and are trusted to meet exactly that
//! specification.

use vstd::prelude::*;

verus! {

/// A byte of the base64url alphabet: `A`-`Z`, `a`-`z`, `0`-`9`, `-`, `_`.
pub open spec fn is_b64_byte(c: u8) -> bool {
    ||| 0x41 <= c <= 0x5a
    ||| 0x61 <= c <= 0x7a
    ||| 0x30 <= c <= 0x39
    ||| c == 0x2d
    ||| c == 0x5f
}

/// The four 6-bit groups of a three-byte block.
pub open spec fn g0(x: u8) -> int {
    x as int / 4
}

pub open spec fn g1(x: u8, y: u8) -> int {
    x as int % 4 * 16 + y as int / 16
}

pub open spec fn g2(x: u8, y: u8) -> int {
    x as int % 16 * 4 + y as int / 64
}

pub open spec fn g3(x: u8) -> int {
    x as int % 64
}

/// The base64url alphabet: the 6-bit value `v` as its ASCII byte.
pub open spec fn enc6(v: int) -> u8 {
    if v < 26 {
        (0x41 + v) as u8
    } else if v < 52 {
        (71 + v) as u8
    } else if v < 62 {
        (v - 4) as u8
    } else if v == 62 {
        0x2d
    } else {
        0x5f
    }
}

/// The canonical unpadded base64url encoding of `b`: each group of three
/// bytes becomes four alphabet bytes; a trailing group of one or two bytes
/// becomes two or three, with the unused low bits zero.
pub open spec fn b64u_of(b: Seq<u8>) -> Seq<u8>
    decreases b.len(),
{
    if b.len() == 0 {
        Seq::empty()
    } else if b.len() == 1 {
        seq![enc6(g0(b[0])), enc6(b[0] as int % 4 * 16)]
    } else if b.len() == 2 {
        seq![enc6(g0(b[0])), enc6(g1(b[0], b[1])), enc6(b[1] as int % 16 * 4)]
    } else {
        seq![enc6(g0(b[0])), enc6(g1(b[0], b[1])), enc6(g2(b[1], b[2])), enc6(g3(b[2]))]
            + b64u_of(b.skip(3))
    }
}

/// What a strict decoder yields: the unique preimage under `b64u_of` where
/// one exists, nothing otherwise.
pub open spec fn b64u_decode_spec(s: Seq<u8>) -> Option<Seq<u8>> {
    if exists|b: Seq<u8>| s == b64u_of(b) {
        Some(choose|b: Seq<u8>| s == b64u_of(b))
    } else {
        None
    }
}

/// The alphabet map lands in the alphabet and never collides.
pub proof fn lemma_enc6_props()
    ensures
        forall|v: int| 0 <= v < 64 ==> is_b64_byte(#[trigger] enc6(v)),
        forall|v: int, w: int| 0 <= v < 64 && 0 <= w < 64 && enc6(v) == enc6(w) ==> v == w,
{
}

/// Every byte of an encoding is an alphabet byte; in particular none is a
/// dot and all are ASCII.
pub proof fn lemma_b64u_alphabet(b: Seq<u8>)
    ensures
        forall|i: int| 0 <= i < b64u_of(b).len() ==> is_b64_byte(#[trigger] b64u_of(b)[i]),
    decreases b.len(),
{
    lemma_enc6_props();
    if b.len() >= 3 {
        lemma_b64u_alphabet(b.skip(3));
        let head = seq![enc6(g0(b[0])), enc6(g1(b[0], b[1])), enc6(g2(b[1], b[2])), enc6(g3(b[2]))];
        assert forall|i: int| 0 <= i < b64u_of(b).len() implies is_b64_byte(
            #[trigger] b64u_of(b)[i],
        ) by {
            if i < 4 {
                assert(b64u_of(b)[i] == head[i]);
            } else {
                assert(b64u_of(b)[i] == b64u_of(b.skip(3))[i - 4]);
            }
        }
    }
}

/// Encodings of different byte strings differ: `b64u_of` is injective.
pub proof fn lemma_b64u_injective(a: Seq<u8>, b: Seq<u8>)
    requires
        b64u_of(a) == b64u_of(b),
    ensures
        a == b,
    decreases a.len(),
{
    lemma_enc6_props();
    let ea = b64u_of(a);
    let eb = b64u_of(b);
    if a.len() == 0 {
        assert(eb.len() == 0);
        assert(b.len() == 0) by {
            if b.len() >= 3 {
                assert(eb.len() >= 4);
            }
        }
        assert(a =~= b);
    } else if b.len() == 0 {
        lemma_b64u_injective(b, a);
    } else if a.len() <= 2 || b.len() <= 2 {
        // Lengths 1 and 2 encode to 2 and 3 bytes; three or more bytes
        // encode to at least 4. Equal output lengths force equal input
        // lengths here.
        if a.len() >= 3 {
            assert(ea.len() >= 4);
        }
        if b.len() >= 3 {
            assert(eb.len() >= 4);
        }
        assert(a.len() == 1 ==> ea.len() == 2);
        assert(a.len() == 2 ==> ea.len() == 3);
        assert(b.len() == 1 ==> eb.len() == 2);
        assert(b.len() == 2 ==> eb.len() == 3);
        assert(a.len() == b.len());
        if a.len() == 1 {
            assert(enc6(g0(a[0])) == enc6(g0(b[0])));
            assert(enc6(a[0] as int % 4 * 16) == enc6(b[0] as int % 4 * 16));
            assert(a[0] as int / 4 == b[0] as int / 4 && a[0] as int % 4 == b[0] as int % 4);
            assert(a[0] == b[0]);
            assert(a =~= b);
        } else {
            assert(enc6(g0(a[0])) == enc6(g0(b[0])));
            assert(enc6(g1(a[0], a[1])) == enc6(g1(b[0], b[1])));
            assert(enc6(a[1] as int % 16 * 4) == enc6(b[1] as int % 16 * 4));
            assert(g0(a[0]) == g0(b[0]));
            assert(g1(a[0], a[1]) == g1(b[0], b[1]));
            assert(a[1] as int % 16 == b[1] as int % 16);
            assert(a[0] as int % 4 == b[0] as int % 4 && a[1] as int / 16 == b[1] as int / 16);
            assert(a[0] == b[0] && a[1] == b[1]);
            assert(a =~= b);
        }
    } else {
        let ra = b64u_of(a.skip(3));
        let rb = b64u_of(b.skip(3));
        let ha = seq![enc6(g0(a[0])), enc6(g1(a[0], a[1])), enc6(g2(a[1], a[2])), enc6(g3(a[2]))];
        let hb = seq![enc6(g0(b[0])), enc6(g1(b[0], b[1])), enc6(g2(b[1], b[2])), enc6(g3(b[2]))];
        assert(ea == ha + ra && eb == hb + rb);
        assert(ea.len() == 4 + ra.len() && eb.len() == 4 + rb.len());
        assert(ha[0] == hb[0] && ha[1] == hb[1] && ha[2] == hb[2] && ha[3] == hb[3]) by {
            assert(ea[0] == ha[0] && ea[1] == ha[1] && ea[2] == ha[2] && ea[3] == ha[3]);
            assert(eb[0] == hb[0] && eb[1] == hb[1] && eb[2] == hb[2] && eb[3] == hb[3]);
        }
        assert(enc6(g0(a[0])) == enc6(g0(b[0])));
        assert(enc6(g1(a[0], a[1])) == enc6(g1(b[0], b[1])));
        assert(enc6(g2(a[1], a[2])) == enc6(g2(b[1], b[2])));
        assert(enc6(g3(a[2])) == enc6(g3(b[2])));
        assert(g0(a[0]) == g0(b[0]));
        assert(g1(a[0], a[1]) == g1(b[0], b[1]));
        assert(g2(a[1], a[2]) == g2(b[1], b[2]));
        assert(g3(a[2]) == g3(b[2]));
        assert(a[0] as int % 4 == b[0] as int % 4 && a[1] as int / 16 == b[1] as int / 16);
        assert(a[1] as int % 16 == b[1] as int % 16 && a[2] as int / 64 == b[2] as int / 64);
        assert(a[0] == b[0] && a[1] == b[1] && a[2] == b[2]);
        assert(ra =~= rb) by {
            assert forall|i: int| 0 <= i < ra.len() implies ra[i] == rb[i] by {
                assert(ea[i + 4] == ra[i]);
                assert(eb[i + 4] == rb[i]);
            }
        }
        lemma_b64u_injective(a.skip(3), b.skip(3));
        assert(a =~= b) by {
            assert forall|i: int| 0 <= i < a.len() implies a[i] == b[i] by {
                if i >= 3 {
                    assert(a.skip(3)[i - 3] == b.skip(3)[i - 3]);
                }
            }
        }
    }
}

/// A strict decoder recovers exactly what was encoded.
pub proof fn lemma_decode_of_encoding(b: Seq<u8>)
    ensures
        b64u_decode_spec(b64u_of(b)) == Some(b),
{
    assert(b64u_of(b) == b64u_of(b));
    let w = choose|x: Seq<u8>| b64u_of(b) == b64u_of(x);
    lemma_b64u_injective(w, b);
}

/// Relies on the `base64` crate's `URL_SAFE_NO_PAD` engine: `encode` produces
/// the canonical unpadded base64url form of its input, whose bytes `b64u_of`
/// spells out.
#[verifier::external_body]
pub(crate) fn b64u_encode(b: &[u8]) -> (r: Vec<u8>)
    ensures
        r@ == b64u_of(b@),
{
    base64::Engine::encode(&base64::engine::general_purpose::URL_SAFE_NO_PAD, b).into_bytes()
}

/// Relies on the `base64` crate's `URL_SAFE_NO_PAD` engine: `decode` rejects
/// padding (`RequireNone`) and non-zero trailing bits, so it succeeds exactly
/// on canonical unpadded base64url input, returning the encoded bytes.
#[verifier::external_body]
fn b64u_decode_raw(s: &[u8]) -> (r: Option<Vec<u8>>)
    ensures
        r is Some ==> s@ == b64u_of(r->Some_0@),
        r is None ==> forall|b: Seq<u8>| s@ != b64u_of(b),
{
    base64::Engine::decode(&base64::engine::general_purpose::URL_SAFE_NO_PAD, s).ok()
}

/// Strict base64url decoding, pinned to the specification-level decoder.
pub(crate) fn b64u_decode(s: &[u8]) -> (r: Option<Vec<u8>>)
    ensures
        match r {
            Some(v) => b64u_decode_spec(s@) == Some(v@),
            None => b64u_decode_spec(s@) is None,
        },
{
    let r = b64u_decode_raw(s);
    proof {
        match &r {
            Some(v) => {
                lemma_decode_of_encoding(v@);
            },
            None => {},
        }
    }
    r
}

} // verus!
