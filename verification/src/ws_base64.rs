//! Base64 (RFC 4648, standard alphabet with `=` padding) for WebSocket
//! handshake material: `Sec-WebSocket-Key` (16 bytes, 24 characters) and
//! `Sec-WebSocket-Accept` (20-byte SHA-1, 28 characters).

use vstd::prelude::*;
use vstd::utf8::*;
use crate::text::{all_ascii, ascii_chars, ascii_to_string};
use crate::ws_error::{WsError, WsResult};

verus! {

broadcast use vstd::seq::group_seq_axioms;

/// The alphabet byte for a 6-bit value.
pub open spec fn alphabet(v: int) -> u8 {
    if v < 26 {
        (65 + v) as u8
    } else if v < 52 {
        (97 + v - 26) as u8
    } else if v < 62 {
        (48 + v - 52) as u8
    } else if v == 62 {
        43u8
    } else {
        47u8
    }
}

/// Whether a byte belongs to the standard alphabet.
pub open spec fn is_alphabet(c: u8) -> bool {
    (65 <= c <= 90) || (97 <= c <= 122) || (48 <= c <= 57) || c == 43 || c == 47
}

/// The 6-bit value of an alphabet byte.
pub open spec fn sextet(c: u8) -> int {
    if 65 <= c <= 90 {
        c - 65
    } else if 97 <= c <= 122 {
        c - 97 + 26
    } else if 48 <= c <= 57 {
        c - 48 + 52
    } else if c == 43 {
        62
    } else {
        63
    }
}

pub open spec fn is_pad(c: u8) -> bool {
    c == 61
}

/// ASCII whitespace as `u8::is_ascii_whitespace` defines it.
pub open spec fn is_ascii_ws(c: u8) -> bool {
    c == 32 || c == 9 || c == 10 || c == 12 || c == 13
}

/// The four alphabet bytes for up to three input bytes (`n` of them real).
pub open spec fn encode_group(b0: int, b1: int, b2: int, n: int) -> Seq<u8> {
    let e0 = alphabet(b0 / 4);
    let e1 = alphabet((b0 % 4) * 16 + b1 / 16);
    let e2 = alphabet((b1 % 16) * 4 + b2 / 64);
    let e3 = alphabet(b2 % 64);
    if n == 1 {
        seq![e0, e1, 61u8, 61u8]
    } else if n == 2 {
        seq![e0, e1, e2, 61u8]
    } else {
        seq![e0, e1, e2, e3]
    }
}

/// Base64 encoding of a byte sequence, as bytes of the standard alphabet.
pub open spec fn b64_encode(s: Seq<u8>) -> Seq<u8>
    decreases s.len(),
{
    if s.len() == 0 {
        seq![]
    } else if s.len() == 1 {
        encode_group(s[0] as int, 0, 0, 1)
    } else if s.len() == 2 {
        encode_group(s[0] as int, s[1] as int, 0, 2)
    } else {
        encode_group(s[0] as int, s[1] as int, s[2] as int, 3) + b64_encode(s.subrange(3, s.len() as int))
    }
}

/// The three bytes that four 6-bit values stand for.
pub open spec fn group_bytes(a: int, b: int, c: int, d: int) -> Seq<u8> {
    seq![(a * 4 + b / 16) as u8, ((b % 16) * 16 + c / 4) as u8, ((c % 4) * 64 + d) as u8]
}

/// Decodes a group of four that is not the last one: no padding allowed.
pub open spec fn decode_full_group(q: Seq<u8>) -> Option<Seq<u8>> {
    if is_alphabet(q[0]) && is_alphabet(q[1]) && is_alphabet(q[2]) && is_alphabet(q[3]) {
        Some(group_bytes(sextet(q[0]), sextet(q[1]), sextet(q[2]), sextet(q[3])))
    } else {
        None
    }
}

/// Decodes the last group of four: `xx==`, `xxx=` or `xxxx`.
pub open spec fn decode_last_group(q: Seq<u8>) -> Option<Seq<u8>> {
    if is_alphabet(q[0]) && is_alphabet(q[1]) && is_pad(q[2]) && is_pad(q[3]) {
        Some(group_bytes(sextet(q[0]), sextet(q[1]), 0, 0).subrange(0, 1))
    } else if is_alphabet(q[0]) && is_alphabet(q[1]) && is_alphabet(q[2]) && is_pad(q[3]) {
        Some(group_bytes(sextet(q[0]), sextet(q[1]), sextet(q[2]), 0).subrange(0, 2))
    } else {
        decode_full_group(q)
    }
}

/// Decodes a whitespace-free input whose length is a multiple of four.
pub open spec fn decode_groups(s: Seq<u8>) -> Option<Seq<u8>>
    decreases s.len(),
{
    if s.len() < 4 {
        if s.len() == 0 { Some(seq![]) } else { None }
    } else if s.len() == 4 {
        decode_last_group(s)
    } else {
        match decode_full_group(s.subrange(0, 4)) {
            Some(a) => match decode_groups(s.subrange(4, s.len() as int)) {
                Some(r) => Some(a + r),
                None => None,
            },
            None => None,
        }
    }
}

/// The input with its ASCII whitespace removed.
pub open spec fn strip_ws(s: Seq<u8>) -> Seq<u8>
    decreases s.len(),
{
    if s.len() == 0 {
        seq![]
    } else if is_ascii_ws(s.last()) {
        strip_ws(s.drop_last())
    } else {
        strip_ws(s.drop_last()).push(s.last())
    }
}

/// Base64 decoding of text bytes: whitespace is ignored, the rest must be a
/// whole number of groups of four with padding only at the end.
pub open spec fn b64_decode(input: Seq<u8>) -> Option<Seq<u8>> {
    let t = strip_ws(input);
    if t.len() % 4 != 0 {
        None
    } else {
        decode_groups(t)
    }
}

/// Why a group of four cannot be decoded (`last` when it ends the input),
/// or `None` when it can.
pub open spec fn group_error_text(q: Seq<u8>, last: bool) -> Option<Seq<char>> {
    if !is_alphabet(q[0]) || !is_alphabet(q[1]) {
        Some("invalid base64 character"@)
    } else if last && is_pad(q[2]) && is_pad(q[3]) {
        None
    } else if !is_alphabet(q[2]) {
        Some("invalid base64 character or padding"@)
    } else if last && is_pad(q[3]) {
        None
    } else if !is_alphabet(q[3]) {
        Some("invalid base64 character or padding"@)
    } else {
        None
    }
}

/// The complaint about the first group of `s` that cannot be decoded.
pub open spec fn groups_error_text(s: Seq<u8>) -> Seq<char>
    decreases s.len(),
{
    if s.len() < 4 {
        seq![]
    } else {
        match group_error_text(s.subrange(0, 4), s.len() == 4) {
            Some(m) => m,
            None => groups_error_text(s.subrange(4, s.len() as int)),
        }
    }
}

/// The message with which decoding `input` fails.
pub open spec fn b64_error_text(input: Seq<u8>) -> Seq<char> {
    let t = strip_ws(input);
    if t.len() % 4 != 0 {
        "invalid base64 length: must be a multiple of 4"@
    } else {
        groups_error_text(t)
    }
}

proof fn lemma_alphabet(v: int)
    requires
        0 <= v < 64,
    ensures
        is_alphabet(alphabet(v)),
        sextet(alphabet(v)) == v,
        !is_pad(alphabet(v)),
        !is_ascii_ws(alphabet(v)),
        alphabet(v) < 128,
{
}

proof fn lemma_group_round_trip(b0: int, b1: int, b2: int, n: int)
    requires
        0 <= b0 < 256,
        0 <= b1 < 256,
        0 <= b2 < 256,
        1 <= n <= 3,
        n < 2 ==> b1 == 0,
        n < 3 ==> b2 == 0,
    ensures
        decode_last_group(encode_group(b0, b1, b2, n)) == Some(
            seq![b0 as u8, b1 as u8, b2 as u8].subrange(0, n),
        ),
        n == 3 ==> decode_full_group(encode_group(b0, b1, b2, n)) == Some(
            seq![b0 as u8, b1 as u8, b2 as u8],
        ),
{
    lemma_alphabet(b0 / 4);
    lemma_alphabet((b0 % 4) * 16 + b1 / 16);
    lemma_alphabet((b1 % 16) * 4 + b2 / 64);
    lemma_alphabet(b2 % 64);
    let g = group_bytes(b0 / 4, (b0 % 4) * 16 + b1 / 16, (b1 % 16) * 4 + b2 / 64, b2 % 64);
    assert(g =~= seq![b0 as u8, b1 as u8, b2 as u8]);
    if n == 1 {
        let g1 = group_bytes(b0 / 4, (b0 % 4) * 16 + b1 / 16, 0, 0);
        assert(g1.subrange(0, 1) =~= seq![b0 as u8, b1 as u8, b2 as u8].subrange(0, 1));
    } else if n == 2 {
        let g2 = group_bytes(b0 / 4, (b0 % 4) * 16 + b1 / 16, (b1 % 16) * 4 + b2 / 64, 0);
        assert(g2.subrange(0, 2) =~= seq![b0 as u8, b1 as u8, b2 as u8].subrange(0, 2));
    } else {
        assert(seq![b0 as u8, b1 as u8, b2 as u8].subrange(0, 3) =~= seq![b0 as u8, b1 as u8, b2 as u8]);
    }
}

/// The encoding is ASCII, whitespace-free, and four characters per started
/// group of three input bytes.
pub proof fn lemma_encode_shape(s: Seq<u8>)
    ensures
        b64_encode(s).len() == (s.len() + 2) / 3 * 4,
        all_ascii(b64_encode(s)),
        forall|i: int| 0 <= i < b64_encode(s).len() ==> !is_ascii_ws(#[trigger] b64_encode(s)[i]),
        forall|i: int| 0 <= i < b64_encode(s).len() ==> 33 <= #[trigger] b64_encode(s)[i] <= 126,
    decreases s.len(),
{
    if s.len() >= 1 {
        let b0 = s[0] as int;
        let b1 = if s.len() >= 2 { s[1] as int } else { 0 };
        let b2 = if s.len() >= 3 { s[2] as int } else { 0 };
        lemma_alphabet(b0 / 4);
        lemma_alphabet((b0 % 4) * 16 + b1 / 16);
        lemma_alphabet((b1 % 16) * 4 + b2 / 64);
        lemma_alphabet(b2 % 64);
        if s.len() >= 3 {
            lemma_encode_shape(s.subrange(3, s.len() as int));
        }
    }
}

proof fn lemma_strip_ws_noop(s: Seq<u8>)
    requires
        forall|i: int| 0 <= i < s.len() ==> !is_ascii_ws(#[trigger] s[i]),
    ensures
        strip_ws(s) == s,
    decreases s.len(),
{
    if s.len() > 0 {
        lemma_strip_ws_noop(s.drop_last());
        assert(s.drop_last().push(s.last()) =~= s);
    }
}

proof fn lemma_decode_groups_encode(s: Seq<u8>)
    ensures
        decode_groups(b64_encode(s)) == Some(s),
    decreases s.len(),
{
    if s.len() == 0 {
    } else if s.len() == 1 {
        lemma_group_round_trip(s[0] as int, 0, 0, 1);
        assert(seq![s[0], 0u8, 0u8].subrange(0, 1) =~= s);
    } else if s.len() == 2 {
        lemma_group_round_trip(s[0] as int, s[1] as int, 0, 2);
        assert(seq![s[0], s[1], 0u8].subrange(0, 2) =~= s);
    } else {
        let rest = s.subrange(3, s.len() as int);
        let g = encode_group(s[0] as int, s[1] as int, s[2] as int, 3);
        lemma_group_round_trip(s[0] as int, s[1] as int, s[2] as int, 3);
        lemma_decode_groups_encode(rest);
        lemma_encode_shape(rest);
        let e = b64_encode(s);
        assert(e == g + b64_encode(rest));
        if rest.len() == 0 {
            assert(e =~= g);
            assert(seq![s[0], s[1], s[2]].subrange(0, 3) =~= s);
        } else {
            assert(e.subrange(0, 4) =~= g);
            assert(e.subrange(4, e.len() as int) =~= b64_encode(rest));
            assert(seq![s[0], s[1], s[2]] + rest =~= s);
        }
    }
}

/// Decoding an encoding gives back the bytes that were encoded.
pub proof fn lemma_decode_encode(s: Seq<u8>)
    ensures
        b64_decode(b64_encode(s)) == Some(s),
{
    lemma_encode_shape(s);
    lemma_strip_ws_noop(b64_encode(s));
    lemma_decode_groups_encode(s);
}

/// Encodes `input` as Base64 with standard padding.
pub fn encode(input: &[u8]) -> (r: String)
    ensures
        r@ == ascii_chars(b64_encode(input@)),
        r@.len() == (input@.len() + 2) / 3 * 4,
{
    let n = input.len();
    let mut out: Vec<u8> = Vec::new();
    let mut i: usize = 0;
    proof {
        assert(input@.subrange(0, n as int) =~= input@);
    }
    while i < n
        invariant
            n == input@.len(),
            i <= n,
            b64_encode(input@) == out@ + b64_encode(input@.subrange(i as int, n as int)),
            all_ascii(out@),
        decreases n - i,
    {
        let rem = n - i;
        let b0 = input[i];
        let b1: u8 = if rem >= 2 { input[i + 1] } else { 0 };
        let b2: u8 = if rem >= 3 { input[i + 2] } else { 0 };
        let k: usize = if rem >= 3 { 3 } else { rem };
        let ghost tail = input@.subrange(i as int, n as int);
        let e0 = alphabet_byte(b0 / 4);
        let e1 = alphabet_byte((b0 % 4) * 16 + b1 / 16);
        let e2 = alphabet_byte((b1 % 16) * 4 + b2 / 64);
        let e3 = alphabet_byte(b2 % 64);
        out.push(e0);
        out.push(e1);
        if k >= 2 {
            out.push(e2);
        } else {
            out.push(61);
        }
        if k >= 3 {
            out.push(e3);
        } else {
            out.push(61);
        }
        proof {
            let g = encode_group(b0 as int, b1 as int, b2 as int, k as int);
            assert(b64_encode(tail) == g + b64_encode(input@.subrange((i + k) as int, n as int))) by {
                if k == 3 {
                    assert(tail.subrange(3, tail.len() as int) =~= input@.subrange((i + 3) as int, n as int));
                } else {
                    assert(input@.subrange((i + k) as int, n as int) =~= Seq::<u8>::empty());
                }
            }
        }
        i = i + k;
        proof {
            assert(all_ascii(out@));
        }
    }
    proof {
        lemma_encode_shape(input@);
        assert(out@ =~= b64_encode(input@));
    }
    ascii_to_string(out)
}

fn alphabet_byte(v: u8) -> (r: u8)
    requires
        v < 64,
    ensures
        r == alphabet(v as int),
        r < 128,
{
    if v < 26 {
        65 + v
    } else if v < 52 {
        97 + (v - 26)
    } else if v < 62 {
        48 + (v - 52)
    } else if v == 62 {
        43
    } else {
        47
    }
}

fn sextet_of(c: u8) -> (r: Option<u8>)
    ensures
        match r {
            Some(v) => is_alphabet(c) && v == sextet(c) && v < 64,
            None => !is_alphabet(c),
        },
{
    if 65 <= c && c <= 90 {
        Some(c - 65)
    } else if 97 <= c && c <= 122 {
        Some(c - 97 + 26)
    } else if 48 <= c && c <= 57 {
        Some(c - 48 + 52)
    } else if c == 43 {
        Some(62)
    } else if c == 47 {
        Some(63)
    } else {
        None
    }
}

fn strip_ascii_ws(input: &[u8]) -> (r: Vec<u8>)
    ensures
        r@ == strip_ws(input@),
{
    let mut out: Vec<u8> = Vec::new();
    let mut i: usize = 0;
    while i < input.len()
        invariant
            i <= input@.len(),
            out@ == strip_ws(input@.subrange(0, i as int)),
        decreases input@.len() - i,
    {
        let c = input[i];
        proof {
            assert(input@.subrange(0, i + 1).drop_last() =~= input@.subrange(0, i as int));
        }
        if !(c == 32 || c == 9 || c == 10 || c == 12 || c == 13) {
            out.push(c);
        }
        i = i + 1;
    }
    proof {
        assert(input@.subrange(0, input@.len() as int) =~= input@);
    }
    out
}

/// Decodes standard Base64 text. ASCII whitespace anywhere is ignored; the
/// remaining characters must form whole groups of four from the standard
/// alphabet, with `=` padding only at the end of the last group. Unused
/// trailing bits of the last sextet are ignored.
pub fn decode(input: &str) -> (r: WsResult<Vec<u8>>)
    ensures
        match b64_decode(encode_utf8(input@)) {
            Some(v) => r matches Ok(out) && out@ == v,
            None => r matches Err(WsError::Decode(m)) && m@ == b64_error_text(encode_utf8(input@)),
        },
{
    let bytes = input.as_bytes();
    let t = strip_ascii_ws(bytes);
    let n = t.len();
    if n % 4 != 0 {
        return Err(WsError::decode("invalid base64 length: must be a multiple of 4"));
    }
    let mut out: Vec<u8> = Vec::new();
    let mut i: usize = 0;
    proof {
        assert(t@.subrange(0, n as int) =~= t@);
    }
    while i < n
        invariant
            n == t@.len(),
            n % 4 == 0,
            i <= n,
            i % 4 == 0,
            b64_decode(encode_utf8(input@)) == decode_groups(t@),
            decode_groups(t@) is None ==> b64_error_text(encode_utf8(input@))
                == groups_error_text(t@.subrange(i as int, n as int)),
            decode_groups(t@) == match decode_groups(t@.subrange(i as int, n as int)) {
                Some(r) => Some(out@ + r),
                None => None::<Seq<u8>>,
            },
        decreases n - i,
    {
        let ghost tail = t@.subrange(i as int, n as int);
        let last = i + 4 == n;
        let c0 = t[i];
        let c1 = t[i + 1];
        let c2 = t[i + 2];
        let c3 = t[i + 3];
        proof {
            assert(tail.subrange(0, 4) =~= seq![c0, c1, c2, c3]);
            assert(tail.subrange(4, tail.len() as int) =~= t@.subrange(i + 4, n as int));
        }
        let a = match sextet_of(c0) {
            Some(v) => v,
            None => {
                proof {
                    assert(decode_groups(tail) is None);
                }
                return Err(WsError::decode("invalid base64 character"));
            },
        };
        let b = match sextet_of(c1) {
            Some(v) => v,
            None => {
                proof {
                    assert(decode_groups(tail) is None);
                }
                return Err(WsError::decode("invalid base64 character"));
            },
        };
        let x0 = a * 4 + b / 16;
        if last && c2 == 61 && c3 == 61 {
            out.push(x0);
            proof {
                assert(group_bytes(a as int, b as int, 0, 0).subrange(0, 1) =~= seq![x0]);
                assert(t@.subrange((i + 4) as int, n as int) =~= Seq::<u8>::empty());
            }
            i = i + 4;
        } else {
            let c = match sextet_of(c2) {
                Some(v) => v,
                None => {
                    proof {
                    assert(decode_groups(tail) is None);
                }
                return Err(WsError::decode("invalid base64 character or padding"));
                },
            };
            let x1 = (b % 16) * 16 + c / 4;
            if last && c3 == 61 {
                out.push(x0);
                out.push(x1);
                proof {
                    assert(group_bytes(a as int, b as int, c as int, 0).subrange(0, 2) =~= seq![x0, x1]);
                    assert(t@.subrange((i + 4) as int, n as int) =~= Seq::<u8>::empty());
                }
                i = i + 4;
            } else {
                let d = match sextet_of(c3) {
                    Some(v) => v,
                    None => {
                        proof {
                    assert(decode_groups(tail) is None);
                }
                return Err(WsError::decode("invalid base64 character or padding"));
                    },
                };
                let x2 = (c % 4) * 64 + d;
                out.push(x0);
                out.push(x1);
                out.push(x2);
                proof {
                    assert(group_bytes(a as int, b as int, c as int, d as int) =~= seq![x0, x1, x2]);
                }
                i = i + 4;
            }
        }
    }
    Ok(out)
}

} // verus!
