//! Byte and character helpers shared by the text-producing modules.

use vstd::prelude::*;
use vstd::utf8::*;
use crate::outside::string_from_utf8;

verus! {

broadcast use vstd::seq::group_seq_axioms;

/// The texts of a list of strings.
pub open spec fn string_views(v: Seq<String>) -> Seq<Seq<char>> {
    v.map_values(|s: String| s@)
}

/// The characters that a sequence of ASCII bytes stands for.
pub open spec fn ascii_chars(b: Seq<u8>) -> Seq<char> {
    Seq::new(b.len(), |i: int| b[i] as char)
}

/// Every byte is an ASCII byte.
pub open spec fn all_ascii(b: Seq<u8>) -> bool {
    forall|i: int| 0 <= i < b.len() ==> #[trigger] b[i] < 128
}

/// ASCII bytes are valid UTF-8 and decode to the characters they stand for.
pub proof fn lemma_ascii_utf8(b: Seq<u8>)
    requires
        all_ascii(b),
    ensures
        valid_utf8(b),
        decode_utf8(b) == ascii_chars(b),
    decreases b.len(),
{
    if b.len() > 0 {
        let b0 = b[0];
        assert(b0 < 128);
        assert(is_leading_byte_width_1(b0));
        assert(b0 & 0x7f == b0) by (bit_vector)
            requires
                b0 < 128,
        ;
        let rest = b.subrange(1, b.len() as int);
        assert(pop_first_scalar(b) == rest);
        lemma_ascii_utf8(rest);
        assert(decode_utf8(b) =~= ascii_chars(b));
    }
}

/// Builds a `String` from ASCII bytes.
pub fn ascii_to_string(bytes: Vec<u8>) -> (s: String)
    requires
        all_ascii(bytes@),
    ensures
        s@ == ascii_chars(bytes@),
{
    proof {
        lemma_ascii_utf8(bytes@);
    }
    string_from_utf8(bytes)
}

/// UTF-8 encoding distributes over concatenation.
pub proof fn lemma_encode_concat(a: Seq<char>, b: Seq<char>)
    ensures
        encode_utf8(a + b) == encode_utf8(a) + encode_utf8(b),
    decreases a.len(),
{
    if a.len() == 0 {
        assert(a + b =~= b);
    } else {
        lemma_encode_concat(a.drop_first(), b);
        assert((a + b).drop_first() =~= a.drop_first() + b);
        assert(encode_utf8(a + b) =~= encode_utf8(a) + encode_utf8(b));
    }
}

/// Appends the UTF-8 encoding of `c`.
fn push_char_utf8(out: &mut Vec<u8>, c: char)
    ensures
        final(out)@ == old(out)@ + encode_scalar(c as u32),
{
    let u = c as u32;
    proof {
        char_is_scalar(c);
    }
    if u <= 0x7F {
        out.push((u & 0x7F) as u8);
    } else if u <= 0x7FF {
        out.push(0xC0 | ((u >> 6) & 0x1F) as u8);
        out.push(0x80 | (u & 0x3F) as u8);
    } else if u <= 0xFFFF {
        out.push(0xE0 | ((u >> 12) & 0x0F) as u8);
        out.push(0x80 | ((u >> 6) & 0x3F) as u8);
        out.push(0x80 | (u & 0x3F) as u8);
    } else {
        out.push(0xF0 | ((u >> 18) & 0x7) as u8);
        out.push(0x80 | ((u >> 12) & 0x3F) as u8);
        out.push(0x80 | ((u >> 6) & 0x3F) as u8);
        out.push(0x80 | (u & 0x3F) as u8);
    }
    proof {
        assert(final(out)@ =~= old(out)@ + encode_scalar(c as u32));
    }
}

/// Builds the `String` whose characters are `cs`.
pub fn chars_to_string(cs: &[char]) -> (s: String)
    ensures
        s@ == cs@,
{
    let mut bytes: Vec<u8> = Vec::new();
    let mut i: usize = 0;
    while i < cs.len()
        invariant
            i <= cs@.len(),
            bytes@ == encode_utf8(cs@.subrange(0, i as int)),
        decreases cs@.len() - i,
    {
        let ghost pre = cs@.subrange(0, i as int);
        push_char_utf8(&mut bytes, cs[i]);
        proof {
            lemma_encode_concat(pre, seq![cs@[i as int]]);
            assert(cs@.subrange(0, i + 1) =~= pre + seq![cs@[i as int]]);
            let one = seq![cs@[i as int]];
            assert(one.drop_first() =~= Seq::<char>::empty());
            assert(encode_utf8(one) =~= encode_scalar(cs@[i as int] as u32) + encode_utf8(one.drop_first()));
        }
        i = i + 1;
    }
    proof {
        assert(cs@.subrange(0, cs@.len() as int) =~= cs@);
        encode_utf8_valid_utf8(cs@);
        encode_utf8_decode_utf8(cs@);
    }
    string_from_utf8(bytes)
}

/// The character of a decimal digit.
pub open spec fn digit_char(d: nat) -> char {
    (48 + d) as char
}

/// The decimal representation of `v` without leading zeros (what
/// `u64::to_string` produces).
pub open spec fn decimal_chars(v: nat) -> Seq<char>
    decreases v,
{
    if v < 10 {
        seq![digit_char(v)]
    } else {
        decimal_chars(v / 10).push(digit_char(v % 10))
    }
}

fn push_decimal(out: &mut Vec<char>, v: u64)
    ensures
        final(out)@ == old(out)@ + decimal_chars(v as nat),
    decreases v,
{
    if v >= 10 {
        push_decimal(out, v / 10);
    }
    let d = (v % 10) as u8;
    out.push((48u8 + d) as char);
    proof {
        assert(final(out)@ =~= old(out)@ + decimal_chars(v as nat));
    }
}

/// `v` in decimal, as a `String`.
pub fn decimal_string(v: u64) -> (s: String)
    ensures
        s@ == decimal_chars(v as nat),
{
    let mut cs: Vec<char> = Vec::new();
    push_decimal(&mut cs, v);
    proof {
        assert(cs@ =~= decimal_chars(v as nat));
    }
    chars_to_string(cs.as_slice())
}

/// The octal representation of `v` without leading zeros (what `{:o}`
/// formats).
pub open spec fn octal_chars(v: nat) -> Seq<char>
    decreases v,
{
    if v < 8 {
        seq![digit_char(v)]
    } else {
        octal_chars(v / 8).push(digit_char(v % 8))
    }
}

fn push_octal(out: &mut Vec<char>, v: u32)
    ensures
        final(out)@ == old(out)@ + octal_chars(v as nat),
    decreases v,
{
    if v >= 8 {
        push_octal(out, v / 8);
    }
    let d = (v % 8) as u8;
    out.push((48u8 + d) as char);
    proof {
        assert(final(out)@ =~= old(out)@ + octal_chars(v as nat));
    }
}

/// `v` in octal, as a `String`.
pub fn octal_string(v: u32) -> (s: String)
    ensures
        s@ == octal_chars(v as nat),
{
    let mut cs: Vec<char> = Vec::new();
    push_octal(&mut cs, v);
    proof {
        assert(cs@ =~= octal_chars(v as nat));
    }
    chars_to_string(cs.as_slice())
}

/// The decimal representation of a signed integer (what `{}` formats).
pub open spec fn signed_chars(v: int) -> Seq<char> {
    if v < 0 {
        seq!['-'] + decimal_chars((-v) as nat)
    } else {
        decimal_chars(v as nat)
    }
}

/// `v` in decimal with its sign, as a `String`.
pub fn signed_string(v: i32) -> (s: String)
    ensures
        s@ == signed_chars(v as int),
{
    if v < 0 {
        let mag: u64 = (0i64 - (v as i64)) as u64;
        let mut s = String::from_str("-");
        let d = decimal_string(mag);
        s.append(d.as_str());
        proof {
            reveal_strlit("-");
        }
        s
    } else {
        decimal_string(v as u64)
    }
}

} // verus!
