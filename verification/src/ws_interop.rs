//! The opening handshake works between this client and this server: the
//! request the client writes parses back into the client's own fields and
//! passes the server's checks, and the `101` response the server then
//! writes parses back and passes the client's checks.

use vstd::prelude::*;
use vstd::utf8::*;
use crate::header_map::{comma_space, merge_value};
use crate::http_block::{
    crlf_join, crlf_lines, crlf_sound, lacks, lemma_crlf_join_ascii, lemma_crlf_join_sound, lemma_crlf_lines_concat,
    lemma_crlf_lines_join, lemma_tokens_join, space_join, lemma_find_char_at, lemma_lines_join, lemma_pieces_append, lemma_pieces_single, lemma_trim_local,
    lemma_trim_spaced, lemma_trim_word, lemma_visible, no_cr, no_ws, visible,
};
use crate::http_text::{eq_ignore_case, is_ws, lemma_split_shape, line_ranges, lower, split_ranges, tokens_from, trimmed};
use crate::ws_handshake::{
    HandshakeRequest, request_matches, comma_tokens, parsed_key, parsed_path, parsed_protocols, request_basics_ok, request_text, request_valid, token_listed,
    value_opt, value_or_empty, start_tokens, range_text, response_text, parse_u16_spec, digits_value, all_digits,
    response_valid, parsed_status, parsed_accept, parsed_protocol, WsClientHandshake, accept_for, first_mutual, key_ok,
    opt_text, protocol_after, response_accepted, response_basics_ok, response_extensions_ok, response_protocol_ok, strs,
    head_chars, header_end, header_end_from, header_fold, head_headers, join_comma, kept_tokens,
};
use crate::text::{ascii_chars, decimal_chars, lemma_ascii_utf8, lemma_encode_concat};
use crate::ws_base64::{b64_encode, lemma_decode_encode, lemma_encode_shape};
use crate::outside::sha1_digest_of;
use crate::ws_ids::{GUID, VERSION};

verus! {

broadcast use vstd::seq::group_seq_axioms;

/// Neither the first nor the last character of `v` is whitespace.
pub open spec fn edges_ok(v: Seq<char>) -> bool {
    v.len() == 0 || (!is_ws(v[0]) && !is_ws(v[v.len() - 1]))
}

/// The header map that `name: value` lines `j..` add to `m`.
pub open spec fn pairs_fold(
    names: Seq<Seq<char>>,
    values: Seq<Seq<char>>,
    j: int,
    m: Map<Seq<char>, Seq<char>>,
) -> Map<Seq<char>, Seq<char>>
    decreases names.len() - j,
{
    if j < 0 || j >= names.len() {
        m
    } else {
        pairs_fold(names, values, j + 1, merge_value(m, lower(names[j]), values[j]))
    }
}

/// A start line followed by one `name: value` line per header.
pub open spec fn header_lines(start: Seq<char>, names: Seq<Seq<char>>, values: Seq<Seq<char>>) -> Seq<Seq<char>> {
    seq![start] + Seq::new(names.len(), |j: int| names[j] + seq![':', ' '] + values[j])
}

/// Header names and values that the header-line reader gives back intact.
pub open spec fn fields_ok(names: Seq<Seq<char>>, values: Seq<Seq<char>>) -> bool {
    &&& values.len() == names.len()
    &&& forall|j: int| 0 <= j < names.len() ==> {
        &&& (#[trigger] names[j]).len() > 0
        &&& no_ws(names[j])
        &&& lacks(names[j], ':')
        &&& no_cr(values[j])
        &&& edges_ok(values[j])
    }
}

proof fn lemma_kept_local(a: Seq<char>, v: Seq<char>, rs: Seq<(int, int)>)
    requires
        a.len() <= v.len(),
        forall|k: int| 0 <= k < a.len() ==> #[trigger] a[k] == v[k],
        forall|j: int| 0 <= j < rs.len() ==> 0 <= (#[trigger] rs[j]).0 <= rs[j].1 <= a.len(),
    ensures
        kept_tokens(v, rs) == kept_tokens(a, rs),
    decreases rs.len(),
{
    if rs.len() > 0 {
        let r = rs.last();
        assert(rs[rs.len() - 1] == r);
        lemma_trim_local(v, a, r.0, r.1);
        lemma_kept_local(a, v, rs.drop_last());
    }
}

proof fn lemma_kept_one(v: Seq<char>, r: (int, int))
    ensures
        kept_tokens(v, seq![r]) == (if trimmed(v, r.0, r.1).len() > 0 {
            seq![trimmed(v, r.0, r.1)]
        } else {
            Seq::<Seq<char>>::empty()
        }),
{
    let rs = seq![r];
    assert(rs.drop_last() =~= Seq::<(int, int)>::empty());
    assert(rs.last() == r);
    assert(kept_tokens(v, rs.drop_last()) == Seq::<Seq<char>>::empty());
    if trimmed(v, r.0, r.1).len() > 0 {
        assert(kept_tokens(v, rs) =~= seq![trimmed(v, r.0, r.1)]);
    } else {
        assert(kept_tokens(v, rs) =~= Seq::<Seq<char>>::empty());
    }
}

proof fn lemma_comma_tokens_one(p: Seq<char>)
    requires
        p.len() > 0,
        edges_ok(p),
        lacks(p, ','),
    ensures
        comma_tokens(p) == seq![p],
{
    lemma_pieces_single(p, ',');
    lemma_trim_word(p, 0, p.len() as int);
    assert(p.subrange(0, p.len() as int) =~= p);
    lemma_kept_one(p, (0int, p.len() as int));
}

proof fn lemma_comma_tokens_step(a: Seq<char>, last: Seq<char>, init: Seq<Seq<char>>)
    requires
        comma_tokens(a) == init,
        last.len() > 0,
        edges_ok(last),
        lacks(last, ','),
    ensures
        comma_tokens(a + comma_space() + last) == init.push(last),
{
    let v = a + comma_space() + last;
    let b = seq![' '] + last;
    let n = a.len() as int;
    assert(v =~= a + seq![','] + b);
    assert forall|k: int| 0 <= k < b.len() implies #[trigger] b[k] != ',' by {
        if k > 0 {
            assert(b[k] == last[k - 1]);
        }
    }
    lemma_pieces_append(a, b, ',', 0, 0);
    let ra = split_ranges(a, ',', 0, n);
    let r = (n + 1, v.len() as int);
    let rs = split_ranges(v, ',', 0, v.len() as int);
    assert(rs == ra + seq![r]);
    assert(rs.drop_last() =~= ra);
    assert(rs.last() == r);
    lemma_split_shape(a, ',', n, 0, 0);
    assert forall|k: int| 0 <= k < a.len() implies #[trigger] a[k] == v[k] by {}
    lemma_kept_local(a, v, ra);
    assert(v[n + 1] == ' ');
    assert(is_ws(v[n + 1]));
    assert(v[n + 2] == last[0]);
    assert(v[v.len() - 1] == last[last.len() - 1]);
    lemma_trim_spaced(v, n + 1, v.len() as int);
    assert(v.subrange(n + 2, v.len() as int) =~= last);
    assert(kept_tokens(v, rs) == kept_tokens(v, ra) + seq![last]);
    assert(init + seq![last] =~= init.push(last));
}

/// A comma list written by joining non-empty items without commas and
/// without whitespace at their ends with `", "` reads back as those items.
pub proof fn lemma_comma_tokens_join(ps: Seq<Seq<char>>)
    requires
        forall|k: int| 0 <= k < ps.len() ==> (#[trigger] ps[k]).len() > 0 && edges_ok(ps[k]) && lacks(ps[k], ','),
    ensures
        comma_tokens(join_comma(ps)) == ps,
    decreases ps.len(),
{
    let v = join_comma(ps);
    if ps.len() == 0 {
        assert(split_ranges(v, ',', 0, 0) == seq![(0int, 0int)]);
        lemma_kept_one(v, (0int, 0int));
        assert(trimmed(v, 0, 0).len() == 0);
        assert(comma_tokens(v) =~= ps);
    } else if ps.len() == 1 {
        assert(v == ps[0]);
        lemma_comma_tokens_one(ps[0]);
        assert(seq![ps[0]] =~= ps);
    } else {
        let init = ps.drop_last();
        let last = ps[ps.len() - 1];
        assert forall|k: int| 0 <= k < init.len() implies (#[trigger] init[k]).len() > 0 && edges_ok(init[k])
            && lacks(init[k], ',') by {
            assert(init[k] == ps[k]);
        }
        lemma_comma_tokens_join(init);
        lemma_comma_tokens_step(join_comma(init), last, init);
        assert(init.push(last) =~= ps);
    }
}

/// `name: value` lines fold into the header map one after another.
pub proof fn lemma_fold_lines(
    cs: Seq<char>,
    r: Seq<(int, int)>,
    k: int,
    m: Map<Seq<char>, Seq<char>>,
    names: Seq<Seq<char>>,
    values: Seq<Seq<char>>,
)
    requires
        1 <= k <= r.len(),
        r.len() == names.len() + 1,
        fields_ok(names, values),
        forall|j: int| 1 <= j < r.len() ==> 0 <= (#[trigger] r[j]).0 <= r[j].1 <= cs.len()
            && cs.subrange(r[j].0, r[j].1) == names[j - 1] + seq![':', ' '] + values[j - 1],
    ensures
        header_fold(cs, r, k, m) == Some(pairs_fold(names, values, k - 1, m)),
    decreases r.len() - k,
{
    if k < r.len() {
        let lo = r[k].0;
        let hi = r[k].1;
        let name = names[k - 1];
        let value = values[k - 1];
        let line = name + seq![':', ' '] + value;
        assert(cs.subrange(lo, hi) == line);
        assert(name.len() > 0 && no_ws(name) && lacks(name, ':') && no_cr(value) && edges_ok(value));
        let c = lo + name.len();
        assert forall|i: int| lo <= i < c implies #[trigger] cs[i] != ':' by {
            assert(cs[i] == line[i - lo]);
            assert(line[i - lo] == name[i - lo]);
        }
        assert(cs[c] == line[name.len() as int]);
        assert(cs[c] == ':');
        lemma_find_char_at(cs, ':', lo, hi, c);
        assert(cs[lo] == line[0]);
        assert(cs[c - 1] == line[name.len() - 1]);
        lemma_trim_word(cs, lo, c);
        assert(cs.subrange(lo, c) =~= name);
        assert(cs[c + 1] == line[c - lo + 1]);
        assert(cs[c + 1] == ' ');
        if value.len() > 0 {
            assert(cs[c + 2] == line[c - lo + 2]);
            assert(cs[c + 2] == value[0]);
            assert(cs[hi - 1] == line[line.len() - 1]);
            assert(cs[hi - 1] == value[value.len() - 1]);
        }
        lemma_trim_spaced(cs, c + 1, hi);
        assert(hi - lo == line.len());
        assert forall|i: int| 0 <= i < value.len() implies #[trigger] cs.subrange(c + 2, hi)[i] == value[i] by {
            assert(cs.subrange(c + 2, hi)[i] == cs[c + 2 + i]);
            assert(cs[c + 2 + i] == line[c - lo + 2 + i]);
        }
        assert(cs.subrange(c + 2, hi) =~= value);
        assert(trimmed(cs, lo, c) == name);
        assert(trimmed(cs, c + 1, hi) == value);
        lemma_fold_lines(cs, r, k + 1, merge_value(m, lower(name), value), names, values);
    }
}

/// The block of a start line and `name: value` lines, joined with CR LF:
/// its first line is the start line and its headers are the fields folded
/// into a map.
pub proof fn lemma_block(start: Seq<char>, names: Seq<Seq<char>>, values: Seq<Seq<char>>)
    requires
        start.len() > 0,
        no_cr(start),
        fields_ok(names, values),
    ensures
        crlf_sound(crlf_join(header_lines(start, names, values))),
        (is_ascii_chars(start) && forall|j: int| 0 <= j < names.len() ==> is_ascii_chars(#[trigger] names[j])
            && is_ascii_chars(values[j])) ==> is_ascii_chars(crlf_join(header_lines(start, names, values))),
        line_ranges(crlf_join(header_lines(start, names, values))).len() == names.len() + 1,
        line_ranges(crlf_join(header_lines(start, names, values)))[0] == (0int, start.len() as int),
        crlf_join(header_lines(start, names, values)).subrange(0, start.len() as int) == start,
        head_headers(crlf_join(header_lines(start, names, values))) == Some(
            pairs_fold(names, values, 0, Map::empty()),
        ),
{
    let ls = header_lines(start, names, values);
    let cs = crlf_join(ls);
    assert forall|k: int| 0 <= k < ls.len() implies no_cr(#[trigger] ls[k]) by {
        if k > 0 {
            let j = k - 1;
            assert(ls[k] == names[j] + seq![':', ' '] + values[j]);
            assert(no_ws(names[j]) && no_cr(values[j]));
            assert forall|i: int| 0 <= i < ls[k].len() implies #[trigger] ls[k][i] != '\r' by {
                if i < names[j].len() {
                    assert(ls[k][i] == names[j][i]);
                    assert(!is_ws(names[j][i]));
                } else if i >= names[j].len() + 2 {
                    assert(ls[k][i] == values[j][i - names[j].len() - 2]);
                }
            }
        }
    }
    if is_ascii_chars(start) && forall|j: int| 0 <= j < names.len() ==> is_ascii_chars(#[trigger] names[j])
        && is_ascii_chars(values[j]) {
        assert forall|k: int| 0 <= k < ls.len() implies (#[trigger] ls[k]).len() > 0 && is_ascii_chars(ls[k]) by {
            if k > 0 {
                let j = k - 1;
                assert(ls[k] == names[j] + seq![':', ' '] + values[j]);
                assert(names[j].len() > 0 && is_ascii_chars(names[j]) && is_ascii_chars(values[j]));
                assert forall|i: int| 0 <= i < ls[k].len() implies '\0' <= #[trigger] ls[k][i] <= '\u{7f}' by {
                    if i < names[j].len() {
                        assert(ls[k][i] == names[j][i]);
                    } else if i >= names[j].len() + 2 {
                        assert(ls[k][i] == values[j][i - names[j].len() - 2]);
                    }
                }
            }
        }
        lemma_crlf_join_ascii(ls);
    }
    assert forall|k: int| 0 <= k < ls.len() implies (#[trigger] ls[k]).len() > 0 && no_cr(ls[k]) by {
        if k > 0 {
            assert(names[k - 1].len() > 0);
        }
    }
    lemma_crlf_join_sound(ls);
    lemma_lines_join(seq![], ls);
    assert(seq![] + cs =~= cs);
    let r = line_ranges(cs);
    assert(r[0] == (0int, start.len() as int));
    assert(cs.subrange(0, start.len() as int) == ls[0]);
    assert forall|j: int| 1 <= j < r.len() implies 0 <= (#[trigger] r[j]).0 <= r[j].1 <= cs.len()
        && cs.subrange(r[j].0, r[j].1) == names[j - 1] + seq![':', ' '] + values[j - 1] by {
        assert(ls[j] == names[j - 1] + seq![':', ' '] + values[j - 1]);
    }
    lemma_fold_lines(cs, r, 1, Map::empty(), names, values);
}


/// The blank line that ends a header block.
pub open spec fn blank_line() -> Seq<char> {
    seq!['\r', '\n', '\r', '\n']
}

proof fn lemma_scan(cs: Seq<char>, b: Seq<u8>, i: int)
    requires
        crlf_sound(cs),
        is_ascii_chars(cs + blank_line()),
        b.len() >= cs.len() + 4,
        forall|k: int| 0 <= k < cs.len() + 4 ==> #[trigger] b[k] == (cs + blank_line())[k] as u8,
        0 <= i <= cs.len(),
    ensures
        header_end_from(b, i) == Some(cs.len() as int),
    decreases cs.len() - i,
{
    let t = cs + blank_line();
    let n = cs.len() as int;
    if i == n {
        assert(b[n] == t[n] as u8 && t[n] == '\r');
        assert(b[n + 1] == t[n + 1] as u8 && t[n + 1] == '\n');
        assert(b[n + 2] == t[n + 2] as u8 && t[n + 2] == '\r');
        assert(b[n + 3] == t[n + 3] as u8 && t[n + 3] == '\n');
    } else {
        assert(b[i] == t[i] as u8);
        assert(t[i] == cs[i]);
        assert('\0' <= t[i] <= '\u{7f}');
        if b[i] == 13 {
            assert(cs[i] == '\r');
            assert(i + 2 < n && cs[i + 2] != '\r');
            assert(t[i + 2] == cs[i + 2]);
            assert('\0' <= t[i + 2] <= '\u{7f}');
            assert(b[i + 2] == t[i + 2] as u8);
            assert(b[i + 2] != 13);
        }
        lemma_scan(cs, b, i + 1);
    }
}

/// The bytes of an ASCII header block whose CRs all start line breaks,
/// followed by the blank line and then anything: the block ends where the
/// blank line starts, is UTF-8, and reads back as itself.
pub proof fn lemma_block_bytes(cs: Seq<char>, rest: Seq<u8>)
    requires
        crlf_sound(cs),
        is_ascii_chars(cs),
    ensures
        header_end(encode_utf8(cs + blank_line()) + rest) == Some(cs.len() as int),
        valid_utf8((encode_utf8(cs + blank_line()) + rest).subrange(0, cs.len() as int)),
        head_chars(encode_utf8(cs + blank_line()) + rest, cs.len() as int) == cs,
{
    let t = cs + blank_line();
    let b0 = encode_utf8(t);
    let b = b0 + rest;
    assert forall|i: int| 0 <= i < t.len() implies '\0' <= #[trigger] t[i] <= '\u{7f}' by {
        if i < cs.len() {
            assert(t[i] == cs[i]);
        }
    }
    is_ascii_chars_encode_utf8(t);
    is_ascii_chars_encode_utf8(cs);
    lemma_scan(cs, b, 0);
    lemma_encode_concat(cs, blank_line());
    assert(b.subrange(0, cs.len() as int) =~= encode_utf8(cs));
    assert(b0.subrange(0, cs.len() as int) =~= encode_utf8(cs));
    encode_utf8_valid_utf8(cs);
    encode_utf8_decode_utf8(cs);
}

/// The UTF-8 bytes of one character: one to four of them, the first
/// being CR only for CR, the others continuation bytes; CR and LF are
/// single bytes.
proof fn lemma_scalar_bytes(c: char)
    ensures
        ({
            let e = encode_scalar(c as u32);
            &&& 1 <= e.len() <= 4
            &&& (e[0] == 13u8 <==> c == '\r')
            &&& (c == '\r' ==> e == seq![13u8])
            &&& (c == '\n' ==> e == seq![10u8])
            &&& forall|j: int| 1 <= j < e.len() ==> #[trigger] e[j] >= 128
        }),
{
    let v = c as u32;
    let e = encode_scalar(v);
    if has_width_1_encoding(v) {
        assert(((v & 0x7F) as u8 == 13u8) == (v == 13u32)) by (bit_vector)
            requires
                v <= 0x7F,
        ;
        assert(v == 10u32 ==> (v & 0x7F) as u8 == 10u8) by (bit_vector);
        assert(c == '\r' <==> v == 13u32);
        assert(c == '\n' <==> v == 10u32);
    } else {
        assert(!(c == '\r') && !(c == '\n'));
        assert forall|x: u32| #![auto] (0xC0u8 | ((x >> 6) & 0x1F) as u8) != 13u8 && (0xE0u8 | ((x >> 12) & 0x0F) as u8)
            != 13u8 && (0xF0u8 | ((x >> 18) & 0x7) as u8) != 13u8 by {
            assert((0xC0u8 | ((x >> 6) & 0x1F) as u8) != 13u8) by (bit_vector);
            assert((0xE0u8 | ((x >> 12) & 0x0F) as u8) != 13u8) by (bit_vector);
            assert((0xF0u8 | ((x >> 18) & 0x7) as u8) != 13u8) by (bit_vector);
        }
        assert forall|x: u32| #![auto] (0x80u8 | (x & 0x3F) as u8) >= 128 && (0x80u8 | ((x >> 6) & 0x3F) as u8) >= 128
            && (0x80u8 | ((x >> 12) & 0x3F) as u8) >= 128 by {
            assert((0x80u8 | (x & 0x3F) as u8) >= 128) by (bit_vector);
            assert((0x80u8 | ((x >> 6) & 0x3F) as u8) >= 128) by (bit_vector);
            assert((0x80u8 | ((x >> 12) & 0x3F) as u8) >= 128) by (bit_vector);
        }
    }
}

/// Scanning for the blank line in `pre`, then the bytes of `cs` followed
/// by the blank line, then anything: when the CRs of `cs` all start line
/// breaks, the scan from the end of `pre` stops right after `cs`.
proof fn lemma_scan_utf8(pre: Seq<u8>, cs: Seq<char>, rest: Seq<u8>)
    requires
        crlf_sound(cs),
    ensures
        header_end_from(pre + encode_utf8(cs + blank_line()) + rest, pre.len() as int) == Some(
            (pre.len() + encode_utf8(cs).len()) as int,
        ),
    decreases cs.len(),
{
    let b = pre + encode_utf8(cs + blank_line()) + rest;
    let p = pre.len() as int;
    if cs.len() == 0 {
        assert(cs + blank_line() =~= blank_line());
        lemma_scalar_bytes('\r');
        lemma_scalar_bytes('\n');
        let bl = blank_line();
        assert(bl.drop_first() =~= seq!['\n', '\r', '\n']);
        assert(bl.drop_first().drop_first() =~= seq!['\r', '\n']);
        assert(bl.drop_first().drop_first().drop_first() =~= seq!['\n']);
        assert(bl.drop_first().drop_first().drop_first().drop_first() =~= Seq::<char>::empty());
        let d1 = bl.drop_first();
        let d2 = d1.drop_first();
        let d3 = d2.drop_first();
        let d4 = d3.drop_first();
        assert(encode_utf8(d4) == Seq::<u8>::empty());
        assert(encode_utf8(d3) == encode_scalar('\n' as u32) + encode_utf8(d4));
        assert(encode_utf8(d2) == encode_scalar('\r' as u32) + encode_utf8(d3));
        assert(encode_utf8(d1) == encode_scalar('\n' as u32) + encode_utf8(d2));
        assert(encode_utf8(bl) == encode_scalar('\r' as u32) + encode_utf8(d1));
        assert(encode_utf8(bl) =~= seq![13u8, 10u8, 13u8, 10u8]);
        assert(b[p] == 13 && b[p + 1] == 10 && b[p + 2] == 13 && b[p + 3] == 10);
    } else {
        let c = cs[0];
        let e = encode_scalar(c as u32);
        let tail = cs.drop_first();
        assert((cs + blank_line()).drop_first() =~= tail + blank_line());
        assert((cs + blank_line())[0] == c);
        assert(encode_utf8(cs + blank_line()) == e + encode_utf8(tail + blank_line()));
        assert(encode_utf8(cs) == e + encode_utf8(tail));
        assert forall|i: int| 0 <= i < tail.len() && #[trigger] tail[i] == '\r' implies i + 2 < tail.len() && tail[i + 1]
            == '\n' && tail[i + 2] != '\r' by {
            assert(cs[i + 1] == tail[i]);
        }
        let pre2 = pre + e;
        assert(b =~= pre2 + encode_utf8(tail + blank_line()) + rest);
        lemma_scan_utf8(pre2, tail, rest);
        lemma_scalar_bytes(c);
        let t2 = tail + blank_line();
        let after = encode_utf8(t2);
        assert forall|k: int| p <= k < p + e.len() implies header_end_from(b, k) == #[trigger] header_end_from(b, k + 1) by {
            assert(b[k] == e[k - p]);
            if k > p {
                assert(e[k - p] >= 128);
            } else if c == '\r' {
                assert(cs[1] == '\n' && cs[2] != '\r');
                assert(t2[0] == '\n' && t2[1] == cs[2]);
                lemma_scalar_bytes('\n');
                lemma_scalar_bytes(t2[1]);
                assert(after == encode_scalar(10u32) + encode_utf8(t2.drop_first()));
                assert(t2.drop_first()[0] == t2[1]);
                assert(encode_utf8(t2.drop_first()) == encode_scalar(t2[1] as u32) + encode_utf8(t2.drop_first().drop_first()));
                assert(b[k + 2] == after[1]);
                assert(after[1] == encode_scalar(t2[1] as u32)[0]);
            }
        }
        lemma_skip_scan(b, p, p + e.len());
    }
}

proof fn lemma_skip_scan(b: Seq<u8>, lo: int, hi: int)
    requires
        lo <= hi,
        forall|k: int| lo <= k < hi ==> header_end_from(b, k) == #[trigger] header_end_from(b, k + 1),
    ensures
        header_end_from(b, lo) == header_end_from(b, hi),
    decreases hi - lo,
{
    if lo < hi {
        lemma_skip_scan(b, lo + 1, hi);
    }
}

/// The bytes of a header block whose CRs all start line breaks, followed
/// by the blank line and then anything: the block ends where the blank
/// line starts, is UTF-8 and reads back as itself.
pub proof fn lemma_block_bytes_utf8(cs: Seq<char>, rest: Seq<u8>)
    requires
        crlf_sound(cs),
    ensures
        header_end(encode_utf8(cs + blank_line()) + rest) == Some(encode_utf8(cs).len() as int),
        valid_utf8((encode_utf8(cs + blank_line()) + rest).subrange(0, encode_utf8(cs).len() as int)),
        head_chars(encode_utf8(cs + blank_line()) + rest, encode_utf8(cs).len() as int) == cs,
        encode_utf8(cs + blank_line()).len() == encode_utf8(cs).len() + 4,
{
    let b = encode_utf8(cs + blank_line()) + rest;
    let n = encode_utf8(cs).len() as int;
    lemma_scan_utf8(Seq::<u8>::empty(), cs, rest);
    assert(Seq::<u8>::empty() + encode_utf8(cs + blank_line()) + rest =~= b);
    lemma_encode_concat(cs, blank_line());
    is_ascii_chars_encode_utf8(blank_line());
    assert(b.subrange(0, n) =~= encode_utf8(cs));
    encode_utf8_valid_utf8(cs);
    encode_utf8_decode_utf8(cs);
}

/// The lower-cased names are pairwise different.
pub open spec fn distinct_lower(names: Seq<Seq<char>>) -> bool {
    forall|a: int, b: int| 0 <= a < names.len() && 0 <= b < names.len() && a != b ==> lower(#[trigger] names[a]) != lower(
        #[trigger] names[b],
    )
}

/// Folding fields with pairwise different names into a map without them
/// adds each name with its value.
pub proof fn lemma_pairs_fold_distinct(
    names: Seq<Seq<char>>,
    values: Seq<Seq<char>>,
    j: int,
    m: Map<Seq<char>, Seq<char>>,
)
    requires
        values.len() == names.len(),
        0 <= j <= names.len(),
        distinct_lower(names),
        forall|a: int| j <= a < names.len() ==> !m.contains_key(lower(#[trigger] names[a])),
    ensures
        forall|x: Seq<char>| #[trigger] pairs_fold(names, values, j, m).contains_key(x) <==> (m.contains_key(x) || exists|
            a: int,
        | j <= a < names.len() && lower(#[trigger] names[a]) == x),
        forall|a: int| j <= a < names.len() ==> pairs_fold(names, values, j, m)[lower(#[trigger] names[a])] == values[a],
        forall|x: Seq<char>| #[trigger] m.contains_key(x) ==> pairs_fold(names, values, j, m)[x] == m[x],
    decreases names.len() - j,
{
    if j < names.len() {
        let m2 = merge_value(m, lower(names[j]), values[j]);
        assert(!m.contains_key(lower(names[j])));
        assert(m2 == m.insert(lower(names[j]), values[j]));
        assert forall|a: int| j + 1 <= a < names.len() implies !m2.contains_key(lower(#[trigger] names[a])) by {
            assert(lower(names[a]) != lower(names[j]));
        }
        lemma_pairs_fold_distinct(names, values, j + 1, m2);
        let r = pairs_fold(names, values, j, m);
        assert(r == pairs_fold(names, values, j + 1, m2));
        assert forall|x: Seq<char>| #[trigger] r.contains_key(x) <==> (m.contains_key(x) || exists|a: int|
            j <= a < names.len() && lower(#[trigger] names[a]) == x) by {
            if m2.contains_key(x) && !m.contains_key(x) {
                assert(x == lower(names[j]));
            }
            if exists|a: int| j <= a < names.len() && lower(#[trigger] names[a]) == x {
                let a = choose|a: int| j <= a < names.len() && lower(#[trigger] names[a]) == x;
                if a == j {
                    assert(m2.contains_key(x));
                }
            }
        }
        assert forall|a: int| j <= a < names.len() implies r[lower(#[trigger] names[a])] == values[a] by {
            if a == j {
                assert(m2.contains_key(lower(names[j])));
            }
        }
        assert forall|x: Seq<char>| #[trigger] m.contains_key(x) implies r[x] == m[x] by {
            assert(x != lower(names[j]));
            assert(m2.contains_key(x));
            assert(m2[x] == m[x]);
        }
    }
}

/// The start line of the client's request.
pub open spec fn request_start(path: Seq<char>) -> Seq<char> {
    "GET "@ + path + " HTTP/1.1"@
}

/// The header names of the client's request, in the order it writes them.
pub open spec fn request_names(origin: Option<Seq<char>>, protocols: Seq<Seq<char>>) -> Seq<Seq<char>> {
    seq!["Host"@, "Upgrade"@, "Connection"@, "Sec-WebSocket-Key"@, "Sec-WebSocket-Version"@] + (if origin is Some {
        seq!["Origin"@]
    } else {
        seq![]
    }) + (if protocols.len() > 0 {
        seq!["Sec-WebSocket-Protocol"@]
    } else {
        seq![]
    })
}

/// The header values of the client's request, in the same order.
pub open spec fn request_values(
    host: Seq<char>,
    key: Seq<char>,
    origin: Option<Seq<char>>,
    protocols: Seq<Seq<char>>,
) -> Seq<Seq<char>> {
    seq![host, "websocket"@, "Upgrade"@, key, decimal_chars(VERSION as nat)] + (match origin {
        Some(o) => seq![o],
        None => seq![],
    }) + (if protocols.len() > 0 {
        seq![join_comma(protocols)]
    } else {
        seq![]
    })
}

/// The header block of the client's request (without the blank line).
pub open spec fn request_block(
    path: Seq<char>,
    host: Seq<char>,
    key: Seq<char>,
    origin: Option<Seq<char>>,
    protocols: Seq<Seq<char>>,
) -> Seq<char> {
    crlf_join(header_lines(request_start(path), request_names(origin, protocols), request_values(host, key, origin, protocols)))
}

proof fn lemma_one_line(l: Seq<char>)
    ensures
        crlf_lines(seq![l]) == l + seq!['\r', '\n'],
{
    assert(seq![l].drop_first() =~= Seq::<Seq<char>>::empty());
    assert(crlf_lines(seq![l].drop_first()) == Seq::<char>::empty());
    assert(crlf_lines(seq![l]) =~= l + seq!['\r', '\n']);
}

/// The request text is its header block followed by the blank line.
#[verifier::spinoff_prover]
#[verifier::rlimit(40)]
pub proof fn lemma_request_text(
    path: Seq<char>,
    host: Seq<char>,
    key: Seq<char>,
    origin: Option<Seq<char>>,
    protocols: Seq<Seq<char>>,
)
    ensures
        request_text(path, host, key, origin, protocols) == request_block(path, host, key, origin, protocols) + blank_line(),
{
    let crlf = seq!['\r', '\n'];
    let names = request_names(origin, protocols);
    let values = request_values(host, key, origin, protocols);
    let start = request_start(path);
    let ls = header_lines(start, names, values);
    let sep = seq![':', ' '];
    reveal_strlit("GET ");
    reveal_strlit(" HTTP/1.1");
    reveal_strlit(" HTTP/1.1\r\n");
    reveal_strlit("Host: ");
    reveal_strlit("Host");
    reveal_strlit("\r\n");
    reveal_strlit("Upgrade: websocket\r\n");
    reveal_strlit("Upgrade");
    reveal_strlit("websocket");
    reveal_strlit("Connection: Upgrade\r\n");
    reveal_strlit("Connection");
    reveal_strlit("Sec-WebSocket-Key: ");
    reveal_strlit("Sec-WebSocket-Key");
    reveal_strlit("Sec-WebSocket-Version: ");
    reveal_strlit("Sec-WebSocket-Version");
    reveal_strlit("Origin: ");
    reveal_strlit("Origin");
    reveal_strlit("Sec-WebSocket-Protocol: ");
    reveal_strlit("Sec-WebSocket-Protocol");
    let l1 = "Host"@ + sep + host;
    let l2 = "Upgrade"@ + sep + "websocket"@;
    let l3 = "Connection"@ + sep + "Upgrade"@;
    let l4 = "Sec-WebSocket-Key"@ + sep + key;
    let l5 = "Sec-WebSocket-Version"@ + sep + decimal_chars(VERSION as nat);
    let ol: Seq<Seq<char>> = match origin {
        Some(o) => seq!["Origin"@ + sep + o],
        None => seq![],
    };
    let pl: Seq<Seq<char>> = if protocols.len() > 0 {
        seq!["Sec-WebSocket-Protocol"@ + sep + join_comma(protocols)]
    } else {
        seq![]
    };
    let base = seq![start] + seq![l1] + seq![l2] + seq![l3] + seq![l4] + seq![l5];
    assert(ls =~= base + ol + pl);
    lemma_crlf_lines_concat(base + ol, pl);
    lemma_crlf_lines_concat(base, ol);
    lemma_crlf_lines_concat(seq![start] + seq![l1] + seq![l2] + seq![l3] + seq![l4], seq![l5]);
    lemma_crlf_lines_concat(seq![start] + seq![l1] + seq![l2] + seq![l3], seq![l4]);
    lemma_crlf_lines_concat(seq![start] + seq![l1] + seq![l2], seq![l3]);
    lemma_crlf_lines_concat(seq![start] + seq![l1], seq![l2]);
    lemma_crlf_lines_concat(seq![start], seq![l1]);
    lemma_one_line(start);
    lemma_one_line(l1);
    lemma_one_line(l2);
    lemma_one_line(l3);
    lemma_one_line(l4);
    lemma_one_line(l5);
    let a0 = "GET "@ + path + " HTTP/1.1\r\n"@;
    assert(a0 =~= start + crlf);
    let a1 = a0 + "Host: "@ + host + "\r\n"@;
    assert(a1 =~= a0 + (l1 + crlf));
    let a2 = a1 + "Upgrade: websocket\r\n"@;
    assert(a2 =~= a1 + (l2 + crlf));
    let a3 = a2 + "Connection: Upgrade\r\n"@;
    assert(a3 =~= a2 + (l3 + crlf));
    let a4 = a3 + "Sec-WebSocket-Key: "@ + key + "\r\n"@;
    assert(a4 =~= a3 + (l4 + crlf));
    let a5 = a4 + "Sec-WebSocket-Version: "@ + decimal_chars(VERSION as nat) + "\r\n"@;
    assert(a5 =~= a4 + (l5 + crlf));
    assert(crlf_lines(base) == a5);
    let op: Seq<char> = match origin {
        Some(o) => "Origin: "@ + o + "\r\n"@,
        None => seq![],
    };
    match origin {
        Some(o) => {
            lemma_one_line("Origin"@ + sep + o);
            assert(op =~= crlf_lines(ol));
        },
        None => {
            assert(crlf_lines(ol) == Seq::<char>::empty());
        },
    }
    let pp: Seq<char> = if protocols.len() > 0 {
        "Sec-WebSocket-Protocol: "@ + join_comma(protocols) + "\r\n"@
    } else {
        seq![]
    };
    if protocols.len() > 0 {
        lemma_one_line("Sec-WebSocket-Protocol"@ + sep + join_comma(protocols));
        assert(pp =~= crlf_lines(pl));
    } else {
        assert(crlf_lines(pl) == Seq::<char>::empty());
    }
    assert(request_text(path, host, key, origin, protocols) == a5 + op + pp + "\r\n"@);
    assert(crlf_lines(ls) == a5 + op + pp);
    lemma_crlf_lines_join(ls);
    assert(a5 + op + pp + "\r\n"@ == crlf_lines(ls) + crlf);
}

/// Subprotocol names that a `Sec-WebSocket-Protocol` list carries intact
/// and that a response can echo: non-empty visible text without commas.
pub open spec fn protocols_ok(ps: Seq<Seq<char>>) -> bool {
    forall|k: int| 0 <= k < ps.len() ==> (#[trigger] ps[k]).len() > 0 && visible(ps[k]) && lacks(ps[k], ',')
}

/// Header value text that a header line carries intact: no CR, no
/// whitespace at either end (inner spaces and non-ASCII text are fine).
pub open spec fn field_text(v: Seq<char>) -> bool {
    no_cr(v) && edges_ok(v)
}

/// Subprotocol names that a `Sec-WebSocket-Protocol` list carries intact:
/// non-empty header value text without commas.
pub open spec fn protocol_list_ok(ps: Seq<Seq<char>>) -> bool {
    forall|k: int| 0 <= k < ps.len() ==> (#[trigger] ps[k]).len() > 0 && field_text(ps[k]) && lacks(ps[k], ',')
}

/// Visible text is header value text.
proof fn lemma_visible_field(v: Seq<char>)
    requires
        visible(v),
    ensures
        field_text(v),
{
    lemma_visible_value(v);
}

/// Visible subprotocol names make a list that is carried intact.
proof fn lemma_protocols_list(ps: Seq<Seq<char>>)
    requires
        protocols_ok(ps),
    ensures
        protocol_list_ok(ps),
{
    assert forall|k: int| 0 <= k < ps.len() implies (#[trigger] ps[k]).len() > 0 && field_text(ps[k]) && lacks(ps[k], ',') by {
        lemma_visible_field(ps[k]);
    }
}

proof fn lemma_join_comma_shape(ps: Seq<Seq<char>>)
    requires
        ps.len() > 0,
        protocol_list_ok(ps),
    ensures
        join_comma(ps).len() > 0,
        no_cr(join_comma(ps)),
        edges_ok(join_comma(ps)),
    decreases ps.len(),
{
    let v = join_comma(ps);
    let last = ps[ps.len() - 1];
    assert(last.len() > 0 && field_text(last));
    if ps.len() == 1 {
        assert(v == ps[0]);
    } else {
        let init = ps.drop_last();
        assert forall|k: int| 0 <= k < init.len() implies (#[trigger] init[k]).len() > 0 && field_text(init[k]) && lacks(
            init[k],
            ',',
        ) by {
            assert(init[k] == ps[k]);
        }
        lemma_join_comma_shape(init);
        let a = join_comma(init);
        assert(v == a + comma_space() + last);
        assert(comma_space() == seq![',', ' ']);
        assert(v[0] == a[0]);
        assert(v[v.len() - 1] == last[last.len() - 1]);
        assert forall|i: int| 0 <= i < v.len() implies #[trigger] v[i] != '\r' by {
            if i < a.len() {
                assert(v[i] == a[i]);
            } else if i >= a.len() + 2 {
                assert(v[i] == last[i - a.len() - 2]);
            }
        }
    }
}

/// The request's header names, lower-cased, and the literal values.
proof fn lemma_request_literals()
    ensures
        lower("Host"@) == "host"@,
        lower("Upgrade"@) == "upgrade"@,
        lower("Connection"@) == "connection"@,
        lower("Sec-WebSocket-Key"@) == "sec-websocket-key"@,
        lower("Sec-WebSocket-Version"@) == "sec-websocket-version"@,
        lower("Origin"@) == "origin"@,
        lower("Sec-WebSocket-Protocol"@) == "sec-websocket-protocol"@,
        visible("Host"@) && lacks("Host"@, ':'),
        visible("Upgrade"@) && lacks("Upgrade"@, ':') && lacks("Upgrade"@, ','),
        visible("Connection"@) && lacks("Connection"@, ':'),
        visible("Sec-WebSocket-Key"@) && lacks("Sec-WebSocket-Key"@, ':'),
        visible("Sec-WebSocket-Version"@) && lacks("Sec-WebSocket-Version"@, ':'),
        visible("Origin"@) && lacks("Origin"@, ':'),
        visible("Sec-WebSocket-Protocol"@) && lacks("Sec-WebSocket-Protocol"@, ':'),
        visible("websocket"@),
        visible("GET"@),
        visible("HTTP/1.1"@),
        decimal_chars(VERSION as nat) == "13"@,
        visible("13"@),
        "host"@.len() == 4,
        "upgrade"@.len() == 7,
        "connection"@.len() == 10,
        "sec-websocket-key"@.len() == 17,
        "sec-websocket-version"@.len() == 21,
        "origin"@.len() == 6,
        "sec-websocket-protocol"@.len() == 22,
{
    reveal_strlit("Host");
    reveal_strlit("host");
    reveal_strlit("Upgrade");
    reveal_strlit("upgrade");
    reveal_strlit("Connection");
    reveal_strlit("connection");
    reveal_strlit("Sec-WebSocket-Key");
    reveal_strlit("sec-websocket-key");
    reveal_strlit("Sec-WebSocket-Version");
    reveal_strlit("sec-websocket-version");
    reveal_strlit("Origin");
    reveal_strlit("origin");
    reveal_strlit("Sec-WebSocket-Protocol");
    reveal_strlit("sec-websocket-protocol");
    reveal_strlit("websocket");
    reveal_strlit("GET");
    reveal_strlit("HTTP/1.1");
    reveal_strlit("13");
    assert(lower("Host"@) =~= "host"@);
    assert(lower("Upgrade"@) =~= "upgrade"@);
    assert(lower("Connection"@) =~= "connection"@);
    assert(lower("Sec-WebSocket-Key"@) =~= "sec-websocket-key"@);
    assert(lower("Sec-WebSocket-Version"@) =~= "sec-websocket-version"@);
    assert(lower("Origin"@) =~= "origin"@);
    assert(lower("Sec-WebSocket-Protocol"@) =~= "sec-websocket-protocol"@);
    reveal_with_fuel(decimal_chars, 3);
    assert(decimal_chars(13) =~= "13"@);
}

/// Visible text keeps its value when a header line is read back.
proof fn lemma_visible_value(v: Seq<char>)
    requires
        visible(v),
    ensures
        no_cr(v),
        edges_ok(v),
        is_ascii_chars(v),
        no_ws(v),
{
    lemma_visible(v);
    if v.len() > 0 {
        assert(!is_ws(v[0]));
        assert(!is_ws(v[v.len() - 1]));
    }
}

/// A header named `name` listing `token` alone passes the token check.
proof fn lemma_token_listed_self(token: Seq<char>)
    requires
        token.len() > 0,
        visible(token),
        lacks(token, ','),
    ensures
        token_listed(token, token),
{
    lemma_pieces_single(token, ',');
    lemma_visible(token);
    lemma_trim_word(token, 0, token.len() as int);
    assert(token.subrange(0, token.len() as int) =~= token);
    let ps = split_ranges(token, ',', 0, token.len() as int);
    assert(ps[0] == (0int, token.len() as int));
    assert(lower(trimmed(token, ps[0].0, ps[0].1)) == lower(token));
}

proof fn lemma_request_fields(
    host: Seq<char>,
    key: Seq<char>,
    origin: Option<Seq<char>>,
    protocols: Seq<Seq<char>>,
)
    requires
        field_text(host),
        field_text(key),
        origin matches Some(o) ==> field_text(o),
        protocol_list_ok(protocols),
    ensures
        fields_ok(request_names(origin, protocols), request_values(host, key, origin, protocols)),
        distinct_lower(request_names(origin, protocols)),
{
    let names = request_names(origin, protocols);
    let values = request_values(host, key, origin, protocols);
    lemma_request_literals();
    lemma_visible_value("websocket"@);
    lemma_visible_value("Upgrade"@);
    lemma_visible_value("13"@);
    lemma_visible_value("Host"@);
    lemma_visible_value("Connection"@);
    lemma_visible_value("Sec-WebSocket-Key"@);
    lemma_visible_value("Sec-WebSocket-Version"@);
    lemma_visible_value("Origin"@);
    lemma_visible_value("Sec-WebSocket-Protocol"@);
    if protocols.len() > 0 {
        lemma_join_comma_shape(protocols);
    }
    let on: Seq<Seq<char>> = if origin is Some { seq!["Origin"@] } else { seq![] };
    assert(names.len() == values.len());
    assert forall|j: int| 0 <= j < names.len() implies {
        &&& (#[trigger] names[j]).len() > 0
        &&& no_ws(names[j])
        &&& lacks(names[j], ':')
        &&& no_cr(values[j])
        &&& edges_ok(values[j])
        &&& (lower(names[j]) == "host"@ || lower(names[j]) == "upgrade"@ || lower(names[j]) == "connection"@
            || lower(names[j]) == "sec-websocket-key"@ || lower(names[j]) == "sec-websocket-version"@
            || lower(names[j]) == "origin"@ || lower(names[j]) == "sec-websocket-protocol"@)
    } by {
        if j < 5 {
        } else if j == 5 && origin is Some {
        } else {
            assert(protocols.len() > 0);
            assert(names[j] == "Sec-WebSocket-Protocol"@);
            assert(values[j] == join_comma(protocols));
        }
    }
    assert forall|a: int, b: int| 0 <= a < names.len() && 0 <= b < names.len() && a != b implies lower(
        #[trigger] names[a],
    ) != lower(#[trigger] names[b]) by {
        if a < 5 && b < 5 {
        } else if a == 5 && origin is Some {
        } else if b == 5 && origin is Some {
        }
    }
}

/// The tokens of a start line `a b c` written at the front of `cs`.
proof fn lemma_start_words(cs: Seq<char>, words: Seq<Seq<char>>)
    requires
        line_ranges(cs).len() >= 1,
        line_ranges(cs)[0] == (0int, space_join(words).len() as int),
        space_join(words).len() <= cs.len(),
        cs.subrange(0, space_join(words).len() as int) == space_join(words),
        words.len() >= 1,
        forall|k: int| 0 <= k < words.len() ==> (#[trigger] words[k]).len() > 0 && no_ws(words[k]),
    ensures
        start_tokens(cs).len() == words.len(),
        forall|k: int| 0 <= k < words.len() ==> range_text(cs, #[trigger] start_tokens(cs)[k]) == words[k],
{
    let n = space_join(words).len() as int;
    lemma_tokens_join(cs, 0, n, words);
    assert(start_tokens(cs) == tokens_from(cs, n, 0, -1));
}

/// The header map of the client's request.
proof fn lemma_request_headers(
    host: Seq<char>,
    key: Seq<char>,
    origin: Option<Seq<char>>,
    protocols: Seq<Seq<char>>,
)
    requires
        field_text(host),
        field_text(key),
        origin matches Some(o) ==> field_text(o),
        protocol_list_ok(protocols),
    ensures
        ({
            let h = pairs_fold(request_names(origin, protocols), request_values(host, key, origin, protocols), 0, Map::empty());
            &&& h.contains_key("host"@)
            &&& h["host"@] == host
            &&& value_or_empty(h, "sec-websocket-key"@) == key
            &&& (if h.contains_key("sec-websocket-protocol"@) {
                comma_tokens(h["sec-websocket-protocol"@])
            } else {
                seq![]
            }) == protocols
            &&& value_opt(h, "origin"@) == origin
            &&& (request_basics_ok(h, key) <==> key.len() > 0)
            &&& h["upgrade"@] == "websocket"@
            &&& h["sec-websocket-version"@] == "13"@
        }),
{
    let names = request_names(origin, protocols);
    let values = request_values(host, key, origin, protocols);
    lemma_request_literals();
    lemma_request_fields(host, key, origin, protocols);
    let h = pairs_fold(names, values, 0, Map::empty());
    lemma_pairs_fold_distinct(names, values, 0, Map::empty());
    let base_names = seq!["Host"@, "Upgrade"@, "Connection"@, "Sec-WebSocket-Key"@, "Sec-WebSocket-Version"@];
    let base_values = seq![host, "websocket"@, "Upgrade"@, key, decimal_chars(VERSION as nat)];
    assert forall|k: int| 0 <= k < 5 implies #[trigger] names[k] == base_names[k] && values[k] == base_values[k] by {}
    assert(names[0] == "Host"@ && names[1] == "Upgrade"@ && names[2] == "Connection"@);
    assert(names[3] == "Sec-WebSocket-Key"@ && names[4] == "Sec-WebSocket-Version"@);
    assert(values[0] == host && values[1] == "websocket"@ && values[2] == "Upgrade"@ && values[3] == key);
    assert(values[4] == decimal_chars(VERSION as nat));
    assert(h.contains_key("host"@) && h["host"@] == host);
    assert(h["upgrade"@] == "websocket"@);
    assert(h["connection"@] == "Upgrade"@);
    assert(h["sec-websocket-key"@] == key);
    assert(h["sec-websocket-version"@] == decimal_chars(VERSION as nat));
    assert(h.contains_key("upgrade"@) && h.contains_key("connection"@) && h.contains_key("sec-websocket-key"@));
    assert(h.contains_key("sec-websocket-version"@));
    lemma_token_listed_self("Upgrade"@);
    match origin {
        Some(o) => {
            assert(names[5] == "Origin"@ && values[5] == o);
            assert(h.contains_key("origin"@) && h["origin"@] == o);
        },
        None => {
            assert forall|a: int| 0 <= a < names.len() implies lower(#[trigger] names[a]) != "origin"@ by {
                if a >= 5 {
                    assert(names[a] == "Sec-WebSocket-Protocol"@);
                }
            }
            assert(!h.contains_key("origin"@));
        },
    }
    if protocols.len() > 0 {
        let j = if origin is Some { 6int } else { 5int };
        assert(names[j] == "Sec-WebSocket-Protocol"@ && values[j] == join_comma(protocols));
        assert(h.contains_key("sec-websocket-protocol"@));
        assert(h["sec-websocket-protocol"@] == join_comma(protocols));
        lemma_comma_tokens_join(protocols);
    } else {
        assert forall|a: int| 0 <= a < names.len() implies lower(#[trigger] names[a]) != "sec-websocket-protocol"@ by {
            if a >= 5 {
                assert(names[a] == "Origin"@);
            }
        }
        assert(!h.contains_key("sec-websocket-protocol"@));
    }
}

/// What the server reads of the request a client writes, whatever bytes
/// follow it: the header block ends before the blank line, is UTF-8 and a
/// valid request, and gives back the client's path, host, key, origin and
/// subprotocols, so every request that `try_parse_request` can return for
/// it (`request_matches`) carries exactly these fields; the version,
/// upgrade and connection checks pass, and the key check too when the key
/// is not empty. The path has no whitespace; host, key and origin have no
/// CR and no whitespace at either end (inner spaces and non-ASCII text are
/// carried); subprotocols are non-empty such text without commas. The
/// block is measured in bytes of its UTF-8 encoding.
pub proof fn lemma_request_round_trip(
    path: Seq<char>,
    host: Seq<char>,
    key: Seq<char>,
    origin: Option<Seq<char>>,
    protocols: Seq<Seq<char>>,
    rest: Seq<u8>,
)
    requires
        path.len() > 0,
        no_ws(path),
        field_text(host),
        field_text(key),
        origin matches Some(o) ==> field_text(o),
        protocol_list_ok(protocols),
    ensures
        ({
            let b = encode_utf8(request_text(path, host, key, origin, protocols)) + rest;
            let e = encode_utf8(request_block(path, host, key, origin, protocols)).len() as int;
            let cs = head_chars(b, e);
            let h = head_headers(cs).unwrap();
            &&& header_end(b) == Some(e)
            &&& e + 4 == encode_utf8(request_text(path, host, key, origin, protocols)).len()
            &&& valid_utf8(b.subrange(0, e))
            &&& request_valid(cs)
            &&& parsed_path(cs) == path
            &&& h["host"@] == host
            &&& parsed_key(cs) == key
            &&& parsed_protocols(cs) == protocols
            &&& value_opt(h, "origin"@) == origin
            &&& (request_basics_ok(h, key) <==> key.len() > 0)
            &&& h["upgrade"@] == "websocket"@
            &&& h["sec-websocket-version"@] == "13"@
            &&& forall|req: HandshakeRequest| #[trigger] request_matches(req, cs) ==> {
                &&& req.path@ == path
                &&& req.host@ == host
                &&& req.key@ == key
                &&& strs(req.protocols@) == protocols
                &&& opt_text(req.origin) == origin
                &&& req.headers@["upgrade"@] == "websocket"@
                &&& req.headers@["sec-websocket-version"@] == "13"@
            }
        }),
{
    let names = request_names(origin, protocols);
    let values = request_values(host, key, origin, protocols);
    let start = request_start(path);
    let cs = request_block(path, host, key, origin, protocols);
    lemma_request_literals();
    lemma_request_fields(host, key, origin, protocols);
    reveal_strlit("GET ");
    reveal_strlit(" HTTP/1.1");
    reveal_strlit("GET");
    reveal_strlit("HTTP/1.1");
    let words = seq!["GET"@, path, "HTTP/1.1"@];
    assert(words.drop_first().drop_first() =~= seq!["HTTP/1.1"@]);
    assert(words.drop_first() =~= seq![path, "HTTP/1.1"@]);
    assert(space_join(seq!["HTTP/1.1"@]) == "HTTP/1.1"@);
    assert(space_join(seq![path, "HTTP/1.1"@]) == path + seq![' '] + space_join(seq!["HTTP/1.1"@]));
    assert(space_join(words) == "GET"@ + seq![' '] + space_join(seq![path, "HTTP/1.1"@]));
    assert(start =~= space_join(words));
    assert forall|i: int| 0 <= i < start.len() implies #[trigger] start[i] != '\r' by {
        if 4 <= i < 4 + path.len() {
            assert(start[i] == path[i - 4]);
            assert(!is_ws(path[i - 4]));
        }
    }
    lemma_block(start, names, values);
    lemma_request_text(path, host, key, origin, protocols);
    lemma_block_bytes_utf8(cs, rest);
    assert forall|k: int| 0 <= k < words.len() implies (#[trigger] words[k]).len() > 0 && no_ws(words[k]) by {
        if k == 0 {
            lemma_visible_value("GET"@);
        } else if k == 2 {
            lemma_visible_value("HTTP/1.1"@);
        }
    }
    lemma_start_words(cs, words);
    assert(range_text(cs, start_tokens(cs)[0]) == "GET"@);
    assert(range_text(cs, start_tokens(cs)[1]) == path);
    assert(range_text(cs, start_tokens(cs)[2]) == "HTTP/1.1"@);
    lemma_request_headers(host, key, origin, protocols);
}

/// The status line of the server's `101` response.
pub open spec fn response_start() -> Seq<char> {
    "HTTP/1.1 101 Switching Protocols"@
}

/// The header names of the server's `101` response, in order.
pub open spec fn response_names(protocol: Option<Seq<char>>) -> Seq<Seq<char>> {
    seq!["Upgrade"@, "Connection"@, "Sec-WebSocket-Accept"@] + (if protocol is Some {
        seq!["Sec-WebSocket-Protocol"@]
    } else {
        seq![]
    })
}

/// The header values of the server's `101` response, in the same order.
pub open spec fn response_values(accept: Seq<char>, protocol: Option<Seq<char>>) -> Seq<Seq<char>> {
    seq!["websocket"@, "Upgrade"@, accept] + (match protocol {
        Some(p) => seq![p],
        None => seq![],
    })
}

/// The header block of the server's `101` response (without the blank line).
pub open spec fn response_block(accept: Seq<char>, protocol: Option<Seq<char>>) -> Seq<char> {
    crlf_join(header_lines(response_start(), response_names(protocol), response_values(accept, protocol)))
}

/// The response text is its header block followed by the blank line.
#[verifier::spinoff_prover]
#[verifier::rlimit(40)]
pub proof fn lemma_response_text(accept: Seq<char>, protocol: Option<Seq<char>>)
    ensures
        response_text(accept, protocol) == response_block(accept, protocol) + blank_line(),
{
    let crlf = seq!['\r', '\n'];
    let names = response_names(protocol);
    let values = response_values(accept, protocol);
    let start = response_start();
    let ls = header_lines(start, names, values);
    let sep = seq![':', ' '];
    reveal_strlit("HTTP/1.1 101 Switching Protocols\r\n");
    reveal_strlit("HTTP/1.1 101 Switching Protocols");
    reveal_strlit("\r\n");
    reveal_strlit("Upgrade: websocket\r\n");
    reveal_strlit("Upgrade");
    reveal_strlit("websocket");
    reveal_strlit("Connection: Upgrade\r\n");
    reveal_strlit("Connection");
    reveal_strlit("Sec-WebSocket-Accept: ");
    reveal_strlit("Sec-WebSocket-Accept");
    reveal_strlit("Sec-WebSocket-Protocol: ");
    reveal_strlit("Sec-WebSocket-Protocol");
    let l1 = "Upgrade"@ + sep + "websocket"@;
    let l2 = "Connection"@ + sep + "Upgrade"@;
    let l3 = "Sec-WebSocket-Accept"@ + sep + accept;
    let pl: Seq<Seq<char>> = match protocol {
        Some(p) => seq!["Sec-WebSocket-Protocol"@ + sep + p],
        None => seq![],
    };
    let base = seq![start] + seq![l1] + seq![l2] + seq![l3];
    assert(ls =~= base + pl);
    lemma_crlf_lines_concat(base, pl);
    lemma_crlf_lines_concat(seq![start] + seq![l1] + seq![l2], seq![l3]);
    lemma_crlf_lines_concat(seq![start] + seq![l1], seq![l2]);
    lemma_crlf_lines_concat(seq![start], seq![l1]);
    lemma_one_line(start);
    lemma_one_line(l1);
    lemma_one_line(l2);
    lemma_one_line(l3);
    let a0 = "HTTP/1.1 101 Switching Protocols\r\n"@;
    assert(a0 =~= start + crlf);
    let a1 = a0 + "Upgrade: websocket\r\n"@;
    assert(a1 =~= a0 + (l1 + crlf));
    let a2 = a1 + "Connection: Upgrade\r\n"@;
    assert(a2 =~= a1 + (l2 + crlf));
    let a3 = a2 + "Sec-WebSocket-Accept: "@ + accept + "\r\n"@;
    assert(a3 =~= a2 + (l3 + crlf));
    assert(crlf_lines(base) == a3);
    let pp: Seq<char> = match protocol {
        Some(p) => "Sec-WebSocket-Protocol: "@ + p + "\r\n"@,
        None => seq![],
    };
    match protocol {
        Some(p) => {
            lemma_one_line("Sec-WebSocket-Protocol"@ + sep + p);
            assert(pp =~= crlf_lines(pl));
        },
        None => {
            assert(crlf_lines(pl) == Seq::<char>::empty());
        },
    }
    assert(response_text(accept, protocol) == a3 + pp + "\r\n"@);
    assert(crlf_lines(ls) == a3 + pp);
    lemma_crlf_lines_join(ls);
    assert(a3 + pp + "\r\n"@ == crlf_lines(ls) + crlf);
}

/// The response's header names, lower-cased, and its literal texts.
proof fn lemma_response_literals()
    ensures
        lower("Upgrade"@) == "upgrade"@,
        lower("Connection"@) == "connection"@,
        lower("Sec-WebSocket-Accept"@) == "sec-websocket-accept"@,
        lower("Sec-WebSocket-Protocol"@) == "sec-websocket-protocol"@,
        visible("Upgrade"@) && lacks("Upgrade"@, ':') && lacks("Upgrade"@, ','),
        visible("Connection"@) && lacks("Connection"@, ':'),
        visible("Sec-WebSocket-Accept"@) && lacks("Sec-WebSocket-Accept"@, ':'),
        visible("Sec-WebSocket-Protocol"@) && lacks("Sec-WebSocket-Protocol"@, ':'),
        visible("websocket"@),
        visible("HTTP/1.1"@),
        visible("101"@),
        visible("Switching"@),
        visible("Protocols"@),
        "upgrade"@.len() == 7,
        "connection"@.len() == 10,
        "sec-websocket-accept"@.len() == 20,
        "sec-websocket-protocol"@.len() == 22,
        "sec-websocket-extensions"@.len() == 24,
        parse_u16_spec("101"@) == Some(101u16),
{
    reveal_strlit("Upgrade");
    reveal_strlit("upgrade");
    reveal_strlit("Connection");
    reveal_strlit("connection");
    reveal_strlit("Sec-WebSocket-Accept");
    reveal_strlit("sec-websocket-accept");
    reveal_strlit("Sec-WebSocket-Protocol");
    reveal_strlit("sec-websocket-protocol");
    reveal_strlit("sec-websocket-extensions");
    reveal_strlit("websocket");
    reveal_strlit("HTTP/1.1");
    reveal_strlit("101");
    reveal_strlit("Switching");
    reveal_strlit("Protocols");
    assert(lower("Upgrade"@) =~= "upgrade"@);
    assert(lower("Connection"@) =~= "connection"@);
    assert(lower("Sec-WebSocket-Accept"@) =~= "sec-websocket-accept"@);
    assert(lower("Sec-WebSocket-Protocol"@) =~= "sec-websocket-protocol"@);
    let d = "101"@;
    assert(d.drop_last() =~= seq!['1', '0']);
    assert(d.drop_last().drop_last() =~= seq!['1']);
    assert(d.drop_last().drop_last().drop_last() =~= Seq::<char>::empty());
    reveal_with_fuel(digits_value, 4);
    assert(digits_value(d) == 101);
    assert(all_digits(d));
}

/// The header map of the server's `101` response.
proof fn lemma_response_headers(accept: Seq<char>, protocol: Option<Seq<char>>)
    requires
        visible(accept),
        protocol matches Some(p) ==> visible(p),
    ensures
        fields_ok(response_names(protocol), response_values(accept, protocol)),
        forall|j: int| 0 <= j < response_names(protocol).len() ==> is_ascii_chars(
            #[trigger] response_names(protocol)[j],
        ) && is_ascii_chars(response_values(accept, protocol)[j]),
        ({
            let h = pairs_fold(response_names(protocol), response_values(accept, protocol), 0, Map::empty());
            &&& eq_ignore_case(value_or_empty(h, "upgrade"@), "websocket"@)
            &&& token_listed(value_or_empty(h, "connection"@), "Upgrade"@)
            &&& value_or_empty(h, "sec-websocket-accept"@) == accept
            &&& value_opt(h, "sec-websocket-protocol"@) == protocol
            &&& !h.contains_key("sec-websocket-extensions"@)
        }),
{
    let names = response_names(protocol);
    let values = response_values(accept, protocol);
    lemma_response_literals();
    lemma_visible_value(accept);
    lemma_visible_value("websocket"@);
    lemma_visible_value("Upgrade"@);
    lemma_visible_value("Connection"@);
    lemma_visible_value("Sec-WebSocket-Accept"@);
    lemma_visible_value("Sec-WebSocket-Protocol"@);
    if let Some(p) = protocol {
        lemma_visible_value(p);
    }
    assert(names[0] == "Upgrade"@ && names[1] == "Connection"@ && names[2] == "Sec-WebSocket-Accept"@);
    assert(values[0] == "websocket"@ && values[1] == "Upgrade"@ && values[2] == accept);
    assert forall|j: int| 0 <= j < names.len() implies {
        &&& (#[trigger] names[j]).len() > 0
        &&& no_ws(names[j])
        &&& lacks(names[j], ':')
        &&& no_cr(values[j])
        &&& edges_ok(values[j])
        &&& is_ascii_chars(names[j])
        &&& is_ascii_chars(values[j])
        &&& (lower(names[j]) == "upgrade"@ || lower(names[j]) == "connection"@ || lower(names[j])
            == "sec-websocket-accept"@ || lower(names[j]) == "sec-websocket-protocol"@)
    } by {
        if j == 3 {
            assert(names[j] == "Sec-WebSocket-Protocol"@);
            assert(values[j] == protocol.unwrap());
        }
    }
    assert forall|a: int, b: int| 0 <= a < names.len() && 0 <= b < names.len() && a != b implies lower(
        #[trigger] names[a],
    ) != lower(#[trigger] names[b]) by {
        if a == 3 {
            assert(names[a] == "Sec-WebSocket-Protocol"@);
        }
        if b == 3 {
            assert(names[b] == "Sec-WebSocket-Protocol"@);
        }
    }
    let h = pairs_fold(names, values, 0, Map::empty());
    lemma_pairs_fold_distinct(names, values, 0, Map::empty());
    assert(h.contains_key("upgrade"@) && h["upgrade"@] == "websocket"@);
    assert(h.contains_key("connection"@) && h["connection"@] == "Upgrade"@);
    assert(h.contains_key("sec-websocket-accept"@) && h["sec-websocket-accept"@] == accept);
    lemma_token_listed_self("Upgrade"@);
    match protocol {
        Some(p) => {
            assert(names[3] == "Sec-WebSocket-Protocol"@ && values[3] == p);
            assert(h.contains_key("sec-websocket-protocol"@) && h["sec-websocket-protocol"@] == p);
        },
        None => {
            assert(!h.contains_key("sec-websocket-protocol"@));
        },
    }
    assert forall|a: int| 0 <= a < names.len() implies lower(#[trigger] names[a]) != "sec-websocket-extensions"@ by {}
    assert(!h.contains_key("sec-websocket-extensions"@));
}

/// What the client reads of a `101` response the server writes, whatever
/// bytes follow it: the header block ends before the blank line, is UTF-8
/// and a valid response with status 101, `Upgrade: websocket`, `Connection: Upgrade`, the accept
/// value and subprotocol that were written, and no extension. (Accept value
/// and subprotocol are visible ASCII.)
pub proof fn lemma_response_round_trip(accept: Seq<char>, protocol: Option<Seq<char>>, rest: Seq<u8>)
    requires
        visible(accept),
        protocol matches Some(p) ==> visible(p),
    ensures
        ({
            let b = encode_utf8(response_text(accept, protocol)) + rest;
            let e = response_block(accept, protocol).len() as int;
            let cs = head_chars(b, e);
            let h = head_headers(cs).unwrap();
            &&& header_end(b) == Some(e)
            &&& valid_utf8(b.subrange(0, e))
            &&& response_valid(cs)
            &&& parsed_status(cs) == 101
            &&& parsed_accept(cs) == accept
            &&& parsed_protocol(cs) == protocol
            &&& eq_ignore_case(value_or_empty(h, "upgrade"@), "websocket"@)
            &&& token_listed(value_or_empty(h, "connection"@), "Upgrade"@)
            &&& !h.contains_key("sec-websocket-extensions"@)
        }),
{
    let names = response_names(protocol);
    let values = response_values(accept, protocol);
    let start = response_start();
    let cs = response_block(accept, protocol);
    lemma_response_literals();
    lemma_response_headers(accept, protocol);
    reveal_strlit("HTTP/1.1 101 Switching Protocols");
    reveal_strlit("HTTP/1.1");
    reveal_strlit("101");
    reveal_strlit("Switching");
    reveal_strlit("Protocols");
    let words = seq!["HTTP/1.1"@, "101"@, "Switching"@, "Protocols"@];
    assert(words.drop_first() =~= seq!["101"@, "Switching"@, "Protocols"@]);
    assert(words.drop_first().drop_first() =~= seq!["Switching"@, "Protocols"@]);
    assert(words.drop_first().drop_first().drop_first() =~= seq!["Protocols"@]);
    assert(space_join(seq!["Protocols"@]) == "Protocols"@);
    assert(space_join(seq!["Switching"@, "Protocols"@]) == "Switching"@ + seq![' '] + space_join(seq!["Protocols"@]));
    assert(space_join(seq!["101"@, "Switching"@, "Protocols"@]) == "101"@ + seq![' '] + space_join(
        seq!["Switching"@, "Protocols"@],
    ));
    assert(space_join(words) == "HTTP/1.1"@ + seq![' '] + space_join(seq!["101"@, "Switching"@, "Protocols"@]));
    assert(start =~= space_join(words));
    assert forall|i: int| 0 <= i < start.len() implies #[trigger] start[i] != '\r' && '\0' <= start[i] <= '\u{7f}' by {}
    lemma_block(start, names, values);
    lemma_response_text(accept, protocol);
    lemma_block_bytes(cs, rest);
    assert forall|k: int| 0 <= k < words.len() implies (#[trigger] words[k]).len() > 0 && no_ws(words[k]) by {
        lemma_visible_value(words[k]);
    }
    lemma_start_words(cs, words);
    assert(range_text(cs, start_tokens(cs)[1]) == "101"@);
}

/// Base64 text is visible ASCII whose UTF-8 bytes are the Base64 bytes.
proof fn lemma_b64_text(s: Seq<u8>)
    ensures
        visible(ascii_chars(b64_encode(s))),
        encode_utf8(ascii_chars(b64_encode(s))) == b64_encode(s),
{
    let x = b64_encode(s);
    lemma_encode_shape(s);
    let t = ascii_chars(x);
    assert forall|i: int| 0 <= i < t.len() implies '!' <= #[trigger] t[i] && t[i] <= '~' by {
        assert(t[i] == x[i] as char);
        assert(33 <= x[i] <= 126);
    }
    lemma_ascii_utf8(x);
    decode_utf8_encode_utf8(x);
}

/// What `first_mutual` picks is one of the offered names.
proof fn lemma_first_mutual_offered(offered: Seq<Seq<char>>, supported: Seq<Seq<char>>)
    ensures
        first_mutual(offered, supported) matches Some(p) ==> offered.contains(p),
    decreases offered.len(),
{
    if offered.len() > 0 && !supported.contains(offered[0]) {
        lemma_first_mutual_offered(offered.drop_first(), supported);
        if let Some(p) = first_mutual(offered.drop_first(), supported) {
            let k = choose|k: int| 0 <= k < offered.drop_first().len() && offered.drop_first()[k] == p;
            assert(offered[k + 1] == p);
        }
    } else if offered.len() > 0 {
        assert(offered[0] == offered[0]);
    }
}

/// Law: a client and a server of this library complete the opening
/// handshake with each other. The server reads the client's request, finds
/// it well formed with a key that decodes to 16 bytes, and picks the first
/// offered subprotocol it supports; the client reads the server's `101`
/// response, accepts it, and records that same subprotocol. (The client's
/// path has no whitespace; its host and origin have no CR and no
/// whitespace at either end; its subprotocols, which the response echoes,
/// are non-empty visible ASCII without commas.)
pub proof fn lemma_handshake_interop(hs: WsClientHandshake, supported: Seq<Seq<char>>)
    requires
        hs.path@.len() > 0,
        no_ws(hs.path@),
        field_text(hs.host@),
        hs.origin matches Some(o) ==> field_text(o@),
        protocols_ok(strs(hs.protocols@)),
        hs.key_b64@ == ascii_chars(b64_encode(hs.nonce@)),
        hs.expected_accept@ == accept_for(hs.key_b64@),
        hs.selected_protocol is None,
    ensures
        ({
            let b = encode_utf8(
                request_text(hs.path@, hs.host@, hs.key_b64@, opt_text(hs.origin), strs(hs.protocols@)),
            );
            let e = encode_utf8(request_block(hs.path@, hs.host@, hs.key_b64@, opt_text(hs.origin), strs(hs.protocols@))).len() as int;
            let cs = head_chars(b, e);
            let h = head_headers(cs).unwrap();
            let p = first_mutual(parsed_protocols(cs), supported);
            let b2 = encode_utf8(response_text(accept_for(parsed_key(cs)), p));
            let e2 = response_block(accept_for(parsed_key(cs)), p).len() as int;
            let cs2 = head_chars(b2, e2);
            let h2 = head_headers(cs2).unwrap();
            &&& header_end(b) == Some(e)
            &&& valid_utf8(b.subrange(0, e))
            &&& request_valid(cs)
            &&& request_basics_ok(h, parsed_key(cs))
            &&& key_ok(parsed_key(cs))
            &&& p == first_mutual(strs(hs.protocols@), supported)
            &&& header_end(b2) == Some(e2)
            &&& valid_utf8(b2.subrange(0, e2))
            &&& response_valid(cs2)
            &&& response_accepted(hs, parsed_status(cs2), parsed_accept(cs2), parsed_protocol(cs2), h2)
            &&& protocol_after(hs, parsed_status(cs2), parsed_accept(cs2), parsed_protocol(cs2), h2) == p
        }),
{
    let path = hs.path@;
    let host = hs.host@;
    let key = hs.key_b64@;
    let origin = opt_text(hs.origin);
    let ps = strs(hs.protocols@);
    lemma_b64_text(hs.nonce@);
    assert(visible(key));
    assert(key.len() > 0) by {
        lemma_encode_shape(hs.nonce@);
    }
    lemma_visible_field(key);
    lemma_protocols_list(ps);
    lemma_request_round_trip(path, host, key, origin, ps, Seq::<u8>::empty());
    assert(encode_utf8(request_text(path, host, key, origin, ps)) + Seq::<u8>::empty() =~= encode_utf8(
        request_text(path, host, key, origin, ps),
    ));
    let b = encode_utf8(request_text(path, host, key, origin, ps));
    let e = encode_utf8(request_block(path, host, key, origin, ps)).len() as int;
    let cs = head_chars(b, e);
    assert(parsed_key(cs) == key);
    assert(parsed_protocols(cs) == ps);
    lemma_decode_encode(hs.nonce@);
    assert(key_ok(key));
    let p = first_mutual(ps, supported);
    lemma_first_mutual_offered(ps, supported);
    if let Some(q) = p {
        let k = choose|k: int| 0 <= k < ps.len() && ps[k] == q;
        assert(visible(ps[k]));
    }
    let accept = accept_for(key);
    let digest = sha1_digest_of(encode_utf8(key) + encode_utf8(GUID@));
    lemma_b64_text(digest);
    assert(visible(accept));
    lemma_response_round_trip(accept, p, Seq::<u8>::empty());
    assert(encode_utf8(response_text(accept, p)) + Seq::<u8>::empty() =~= encode_utf8(response_text(accept, p)));
    let b2 = encode_utf8(response_text(accept, p));
    let e2 = response_block(accept, p).len() as int;
    let cs2 = head_chars(b2, e2);
    let h2 = head_headers(cs2).unwrap();
    assert(eq_ignore_case(parsed_accept(cs2), hs.expected_accept@));
    assert(response_basics_ok(hs, parsed_status(cs2), parsed_accept(cs2), h2));
    match p {
        Some(q) => {
            assert(response_protocol_ok(hs, parsed_protocol(cs2), h2));
        },
        None => {
            assert(value_opt(h2, "sec-websocket-protocol"@) == p);
            assert(!h2.contains_key("sec-websocket-protocol"@));
        },
    }
    assert(response_extensions_ok(h2));
}

} // verus!
