//! Document portal helpers: `file:` URI and path handling the way GLib
//! does it, and the registration plan `xdp_register_document` follows.

use vstd::prelude::*;
use vstd::utf8::*;
use crate::http_text::{
    eq_ignore_case, eq_ignore_ascii_case_chars, find_char, find_in, int_pairs, lemma_split_shape, pieces_from, split_on, split_ranges,
    str_chars,
};
use crate::outside::string_from_utf8;
use crate::text::{chars_to_string, string_views};
use crate::ws_handshake::{opt_str, opt_text};
use crate::ws_utf8::validate_utf8;
use crate::xdp_app_info::AppInfoKind;
use crate::xdp_error::PortalError;

verus! {

broadcast use vstd::seq::group_seq_axioms;

/// The value of a hexadecimal digit byte.
pub open spec fn hex_value(b: u8) -> Option<u8> {
    if 48 <= b && b <= 57 {
        Some((b - 48) as u8)
    } else if 97 <= b && b <= 102 {
        Some((b - 87) as u8)
    } else if 65 <= b && b <= 70 {
        Some((b - 55) as u8)
    } else {
        None
    }
}

/// `p` in front of the bytes in `o`, if any.
pub open spec fn prepend_opt(p: Seq<u8>, o: Option<Seq<u8>>) -> Option<Seq<u8>> {
    match o {
        Some(d) => Some(p + d),
        None => None,
    }
}

/// Percent decoding of a `file:` URI path as GLib unescapes it: `None`
/// for an escape without two hex digits, and for an escaped NUL or `/`.
pub open spec fn percent_decoded(s: Seq<u8>) -> Option<Seq<u8>>
    decreases s.len(),
{
    if s.len() == 0 {
        Some(seq![])
    } else if s[0] != 37 {
        prepend_opt(seq![s[0]], percent_decoded(s.subrange(1, s.len() as int)))
    } else if s.len() < 3 {
        None
    } else {
        match (hex_value(s[1]), hex_value(s[2])) {
            (Some(h), Some(l)) => {
                let b = h * 16 + l;
                if b == 0 || b == 47 {
                    None
                } else {
                    prepend_opt(seq![b as u8], percent_decoded(s.subrange(3, s.len() as int)))
                }
            },
            _ => None,
        }
    }
}

/// The text a percent-encoded path stands for: its decoded bytes must be
/// UTF-8.
pub open spec fn percent_text(cs: Seq<char>) -> Option<Seq<char>> {
    match percent_decoded(encode_utf8(cs)) {
        Some(d) => if valid_utf8(d) {
            Some(decode_utf8(d))
        } else {
            None
        },
        None => None,
    }
}

/// The directory stack after walking the pieces `pieces` of `cs`: empty
/// and `.` pieces are skipped and `..` drops the last kept one.
pub open spec fn kept_segments(cs: Seq<char>, pieces: Seq<(int, int)>) -> Seq<Seq<char>>
    decreases pieces.len(),
{
    if pieces.len() == 0 {
        seq![]
    } else {
        let st = kept_segments(cs, pieces.drop_last());
        let seg = cs.subrange(pieces.last().0, pieces.last().1);
        if seg.len() == 0 || seg == seq!['.'] {
            st
        } else if seg == seq!['.', '.'] {
            if st.len() > 0 {
                st.drop_last()
            } else {
                st
            }
        } else {
            st.push(seg)
        }
    }
}

/// Each segment of `st` behind a `/`.
pub open spec fn joined_path(st: Seq<Seq<char>>) -> Seq<char>
    decreases st.len(),
{
    if st.len() == 0 {
        seq![]
    } else {
        joined_path(st.drop_last()) + seq!['/'] + st.last()
    }
}

/// `cs` with `.` and `..` segments resolved, repeated separators collapsed
/// and the trailing one dropped; `/` when nothing is left.
pub open spec fn normalized_path(cs: Seq<char>) -> Seq<char> {
    let st = kept_segments(cs, split_ranges(cs, '/', 0, cs.len() as int));
    if st.len() == 0 {
        seq!['/']
    } else {
        joined_path(st)
    }
}

/// What follows the scheme of a `file:` URI once the authority is
/// dropped: after `//` the path starts at the next `/`; without `//`
/// the rest must start with `/`.
pub open spec fn authority_stripped(rest: Seq<char>) -> Option<Seq<char>> {
    if rest.len() >= 2 && rest[0] == '/' && rest[1] == '/' {
        let after = rest.subrange(2, rest.len() as int);
        let k = find_char(after, '/', 0, after.len() as int);
        if k < 0 {
            None
        } else {
            Some(after.subrange(k, after.len() as int))
        }
    } else if rest.len() >= 1 && rest[0] == '/' {
        Some(rest)
    } else {
        None
    }
}

/// First index of `?` or `#` in `cs[i..]`, or the length.
pub open spec fn query_start(cs: Seq<char>, i: int) -> int
    decreases cs.len() - i,
{
    if i >= cs.len() {
        cs.len() as int
    } else if cs[i] == '?' || cs[i] == '#' {
        i
    } else {
        query_start(cs, i + 1)
    }
}

/// The host path of the `file:` URI `u` (scheme compared without case;
/// query and fragment dropped; percent escapes decoded; dot segments
/// resolved), or `None` when `u` is no such URI.
pub open spec fn uri_path(u: Seq<char>) -> Option<Seq<char>> {
    let colon = find_char(u, ':', 0, u.len() as int);
    if colon < 0 || !eq_ignore_case(u.subrange(0, colon), seq!['f', 'i', 'l', 'e']) {
        None
    } else {
        match authority_stripped(u.subrange(colon + 1, u.len() as int)) {
            None => None,
            Some(raw) => match percent_text(raw.subrange(0, query_start(raw, 0))) {
                None => None,
                Some(t) => Some(normalized_path(t)),
            },
        }
    }
}

/// The value of a hexadecimal digit byte.
fn hex_digit(byte: u8) -> (r: Option<u8>)
    ensures
        r == hex_value(byte),
{
    if 48 <= byte && byte <= 57 {
        Some(byte - 48)
    } else if 97 <= byte && byte <= 102 {
        Some(byte - 87)
    } else if 65 <= byte && byte <= 70 {
        Some(byte - 55)
    } else {
        None
    }
}

/// Percent decodes `value` the way GLib unescapes a `file:` URI path: a
/// bad escape, an escaped NUL or an escaped separator rejects the whole
/// path, and the result must be UTF-8.
fn decode_percent_encoding(value: &str) -> (r: Option<String>)
    ensures
        opt_text(r) == percent_text(value@),
{
    let bytes = value.as_bytes();
    let n = bytes.len();
    let mut decoded: Vec<u8> = Vec::new();
    let mut index: usize = 0;
    proof {
        assert(bytes@.subrange(0, n as int) =~= bytes@);
        if let Some(d) = percent_decoded(bytes@) {
            assert(Seq::<u8>::empty() + d =~= d);
        }
    }
    while index < n
        invariant
            n == bytes@.len(),
            index <= n,
            bytes@ == encode_utf8(value@),
            percent_decoded(bytes@) == prepend_opt(decoded@, percent_decoded(bytes@.subrange(index as int, n as int))),
        decreases n - index,
    {
        let ghost rest = bytes@.subrange(index as int, n as int);
        let ghost before = decoded@;
        if bytes[index] != 37 {
            decoded.push(bytes[index]);
            index = index + 1;
            proof {
                let tail = bytes@.subrange(index as int, n as int);
                assert(rest.subrange(1, rest.len() as int) =~= tail);
                if let Some(d) = percent_decoded(tail) {
                    assert(before + (seq![rest[0]] + d) =~= decoded@ + d);
                }
            }
            continue;
        }
        if n - index < 3 {
            return None;
        }
        let high = match hex_digit(bytes[index + 1]) {
            Some(h) => h,
            None => {
                return None;
            },
        };
        let low = match hex_digit(bytes[index + 2]) {
            Some(l) => l,
            None => {
                return None;
            },
        };
        let byte = high * 16 + low;
        if byte == 0 || byte == 47 {
            return None;
        }
        decoded.push(byte);
        index = index + 3;
        proof {
            let tail = bytes@.subrange(index as int, n as int);
            assert(rest.subrange(3, rest.len() as int) =~= tail);
            if let Some(d) = percent_decoded(tail) {
                assert(before + (seq![byte] + d) =~= decoded@ + d);
            }
        }
    }
    proof {
        assert(bytes@.subrange(n as int, n as int) =~= Seq::<u8>::empty());
        assert(decoded@ + Seq::<u8>::empty() =~= decoded@);
    }
    if validate_utf8(decoded.as_slice()).is_err() {
        return None;
    }
    Some(string_from_utf8(decoded))
}

/// The segments that the ranges `st` of `cs` stand for.
pub open spec fn range_views(cs: Seq<char>, st: Seq<(usize, usize)>) -> Seq<Seq<char>> {
    st.map_values(|p: (usize, usize)| cs.subrange(p.0 as int, p.1 as int))
}

/// Resolves `.` and `..` segments, collapses repeated separators and drops
/// the trailing one, the path handling `g_file_get_path()` applies to a
/// `file:` URI.
fn normalize_path(cs: &[char]) -> (r: Vec<char>)
    ensures
        r@ == normalized_path(cs@),
{
    let ps = split_on(cs, '/', 0, cs.len());
    let ghost all = int_pairs(ps@);
    proof {
        lemma_split_shape(cs@, '/', cs@.len() as int, 0, 0);
    }
    let mut st: Vec<(usize, usize)> = Vec::new();
    let mut k: usize = 0;
    while k < ps.len()
        invariant
            all == int_pairs(ps@),
            all == split_ranges(cs@, '/', 0, cs@.len() as int),
            k <= ps@.len(),
            forall|j: int| 0 <= j < all.len() ==> 0 <= #[trigger] all[j].0 <= all[j].1 <= cs@.len(),
            forall|j: int| 0 <= j < st@.len() ==> #[trigger] st@[j].0 <= st@[j].1 <= cs@.len(),
            range_views(cs@, st@) == kept_segments(cs@, all.subrange(0, k as int)),
        decreases ps@.len() - k,
    {
        let (lo, hi) = ps[k];
        let ghost before = st@;
        proof {
            assert(all[k as int] == (lo as int, hi as int));
            assert(all.subrange(0, k + 1).drop_last() =~= all.subrange(0, k as int));
            assert(all.subrange(0, k + 1).last() == all[k as int]);
        }
        let ghost seg = cs@.subrange(lo as int, hi as int);
        if hi - lo == 0 || (hi - lo == 1 && cs[lo] == '.') {
            proof {
                if hi - lo == 1 {
                    assert(seg =~= seq!['.']);
                }
            }
        } else if hi - lo == 2 && cs[lo] == '.' && cs[lo + 1] == '.' {
            proof {
                assert(seg =~= seq!['.', '.']);
            }
            if st.len() > 0 {
                st.pop();
                proof {
                    assert(range_views(cs@, st@) =~= range_views(cs@, before).drop_last());
                }
            }
        } else {
            proof {
                if hi - lo == 1 {
                    assert(seg[0] != '.');
                    assert(seg != seq!['.']);
                }
                if hi - lo == 2 {
                    assert(seg[0] != '.' || seg[1] != '.');
                    assert(seg != seq!['.', '.']);
                }
            }
            st.push((lo, hi));
            proof {
                assert(range_views(cs@, st@) =~= range_views(cs@, before).push(seg));
            }
        }
        k = k + 1;
    }
    proof {
        assert(all.subrange(0, ps@.len() as int) =~= all);
    }
    let ghost views = range_views(cs@, st@);
    let mut out: Vec<char> = Vec::new();
    if st.len() == 0 {
        out.push('/');
        proof {
            assert(out@ =~= seq!['/']);
        }
        return out;
    }
    let mut j: usize = 0;
    proof {
        assert(views.subrange(0, 0) =~= Seq::<Seq<char>>::empty());
    }
    while j < st.len()
        invariant
            j <= st@.len(),
            views == range_views(cs@, st@),
            forall|i: int| 0 <= i < st@.len() ==> #[trigger] st@[i].0 <= st@[i].1 <= cs@.len(),
            out@ == joined_path(views.subrange(0, j as int)),
        decreases st@.len() - j,
    {
        let (lo, hi) = st[j];
        out.push('/');
        let mut i = lo;
        let ghost base = out@;
        while i < hi
            invariant
                lo <= i <= hi <= cs@.len(),
                out@ == base + cs@.subrange(lo as int, i as int),
            decreases hi - i,
        {
            out.push(cs[i]);
            i = i + 1;
            proof {
                assert(out@ =~= base + cs@.subrange(lo as int, i as int));
            }
        }
        proof {
            assert(views.subrange(0, j + 1).drop_last() =~= views.subrange(0, j as int));
            assert(views[j as int] == cs@.subrange(lo as int, hi as int));
            assert(out@ =~= joined_path(views.subrange(0, j + 1)));
        }
        j = j + 1;
    }
    proof {
        assert(views.subrange(0, st@.len() as int) =~= views);
    }
    out
}

/// First index of `?` or `#` in `cs`, or its length.
fn find_query(cs: &[char]) -> (r: usize)
    ensures
        r == query_start(cs@, 0),
        r <= cs@.len(),
{
    let mut i: usize = 0;
    while i < cs.len()
        invariant
            i <= cs@.len(),
            query_start(cs@, 0) == query_start(cs@, i as int),
        decreases cs@.len() - i,
    {
        if cs[i] == '?' || cs[i] == '#' {
            return i;
        }
        i = i + 1;
    }
    i
}

/// Converts the `file:` URI `uri` into a host path, like
/// `g_file_new_for_uri()` followed by `g_file_get_path()`.
///
/// Returns `None` for every other scheme, for a URI without a path and
/// for percent escapes GLib refuses or cannot represent in a UTF-8 path.
/// Query and fragment are dropped and `.`/`..` segments are resolved, as
/// GLib does.
pub fn uri_to_path(uri: &str) -> (r: Option<String>)
    ensures
        opt_text(r) == uri_path(uri@),
{
    let u = str_chars(uri);
    let n = u.len();
    let colon = match find_in(u.as_slice(), ':', 0, n) {
        Some(k) => k,
        None => {
            return None;
        },
    };
    let scheme = vstd::slice::slice_subrange(u.as_slice(), 0, colon);
    let file: [char; 4] = ['f', 'i', 'l', 'e'];
    proof {
        assert(file@ =~= seq!['f', 'i', 'l', 'e']);
    }
    if !eq_ignore_ascii_case_chars(scheme, file.as_slice()) {
        return None;
    }
    let ghost rest = u@.subrange(colon + 1, n as int);
    let start = colon + 1;
    let raw_start = if n - start >= 2 && u[start] == '/' && u[start + 1] == '/' {
        let ghost after = rest.subrange(2, rest.len() as int);
        proof {
            assert(after =~= u@.subrange(start + 2, n as int));
        }
        match find_in(u.as_slice(), '/', start + 2, n) {
            Some(k) => {
                proof {
                    lemma_find_char_shift(u@, '/', start + 2, start + 2, n as int);
                    let j = find_char(after, '/', 0, after.len() as int);
                    assert(after.subrange(j, after.len() as int) =~= u@.subrange(k as int, n as int));
                }
                k
            },
            None => {
                proof {
                    lemma_find_char_shift(u@, '/', start + 2, start + 2, n as int);
                }
                return None;
            },
        }
    } else if n - start >= 1 && u[start] == '/' {
        start
    } else {
        return None;
    };
    let raw = vstd::slice::slice_subrange(u.as_slice(), raw_start, n);
    proof {
        if raw_start == start {
            assert(rest =~= raw@);
        }
        assert(authority_stripped(rest) == Some(raw@));
    }
    let end = find_query(raw);
    let raw_path = chars_to_string(vstd::slice::slice_subrange(raw, 0, end));
    let decoded = match decode_percent_encoding(raw_path.as_str()) {
        Some(d) => d,
        None => {
            return None;
        },
    };
    let dc = str_chars(decoded.as_str());
    let norm = normalize_path(dc.as_slice());
    Some(chars_to_string(norm.as_slice()))
}

/// Searching `cs[i..hi]` finds what searching the same stretch of
/// `cs[lo..hi]` finds, shifted by `lo`.
proof fn lemma_find_char_shift(cs: Seq<char>, c: char, lo: int, i: int, hi: int)
    requires
        0 <= lo <= i <= hi <= cs.len(),
    ensures
        ({
            let sub = cs.subrange(lo, hi);
            let k = find_char(cs, c, i, hi);
            let j = find_char(sub, c, i - lo, sub.len() as int);
            &&& (k < 0 <==> j < 0)
            &&& (k >= 0 ==> k == j + lo)
        }),
    decreases hi - i,
{
    let sub = cs.subrange(lo, hi);
    if i < hi {
        assert(sub[i - lo] == cs[i]);
        lemma_find_char_shift(cs, c, lo, i + 1, hi);
    }
}

/// Bytes that stay unescaped in a `file:` URI path, the set
/// `g_filename_to_uri()` keeps.
pub open spec fn uri_safe(b: u8) -> bool {
    ||| b == 33 || b == 36 || b == 38 || b == 39 || b == 40 || b == 41 || b == 42 || b == 43
    ||| b == 44 || b == 45 || b == 46 || b == 47 || b == 58 || b == 61 || b == 64 || b == 95 || b == 126
    ||| (48 <= b && b <= 57)
    ||| (65 <= b && b <= 90)
    ||| (97 <= b && b <= 122)
}

/// The upper-case hexadecimal digit of `n` (below 16).
pub open spec fn hex_upper(n: int) -> char {
    if n < 10 {
        (48 + n) as char
    } else {
        (55 + n) as char
    }
}

/// What the byte `x` becomes in a `file:` URI: itself when
/// [`uri_safe`], else `%` and two upper-case hexadecimal digits.
pub open spec fn escape_unit(x: u8) -> Seq<char> {
    if uri_safe(x) {
        seq![x as char]
    } else {
        seq!['%', hex_upper(x as int / 16), hex_upper(x as int % 16)]
    }
}

/// `b` with every byte escaped by [`escape_unit`].
pub open spec fn escaped(b: Seq<u8>) -> Seq<char>
    decreases b.len(),
{
    if b.len() == 0 {
        seq![]
    } else {
        escaped(b.drop_last()) + escape_unit(b.last())
    }
}

/// The `file:` URI of the absolute path `p`.
pub open spec fn file_uri(p: Seq<char>) -> Seq<char> {
    seq!['f', 'i', 'l', 'e', ':', '/', '/'] + escaped(encode_utf8(p))
}

/// `p` starts with `/`.
pub open spec fn is_absolute(p: Seq<char>) -> bool {
    p.len() > 0 && p[0] == '/'
}

/// `r` is what [`filename_to_uri`] gives for `p`.
pub open spec fn uri_result(r: Result<String, PortalError>, p: Seq<char>) -> bool {
    if is_absolute(p) {
        r matches Ok(s) && s@ == file_uri(p)
    } else {
        r matches Err(PortalError::InvalidArgument(m)) && m@ == "Path "@ + p + " is not an absolute path"@
    }
}

/// The upper-case hexadecimal digit of `n`.
fn hex_char(n: u8) -> (c: char)
    requires
        n < 16,
    ensures
        c == hex_upper(n as int),
{
    if n < 10 {
        (48 + n) as char
    } else {
        (55 + n) as char
    }
}

/// Whether `byte` stays unescaped in a `file:` URI path.
fn is_uri_path_safe(byte: u8) -> (r: bool)
    ensures
        r == uri_safe(byte),
{
    byte == 33 || byte == 36 || byte == 38 || byte == 39 || byte == 40 || byte == 41 || byte == 42 || byte == 43
        || byte == 44 || byte == 45 || byte == 46 || byte == 47 || byte == 58 || byte == 61 || byte == 64
        || byte == 95 || byte == 126 || (48 <= byte && byte <= 57) || (65 <= byte && byte <= 90)
        || (97 <= byte && byte <= 122)
}

/// Converts the absolute host `path` into a `file:` URI, like
/// `g_filename_to_uri()`; fails with `InvalidArgument` when `path` is not
/// absolute.
pub fn filename_to_uri(path: &str) -> (r: Result<String, PortalError>)
    ensures
        uri_result(r, path@),
{
    let absolute = path.unicode_len() > 0 && path.get_char(0) == '/';
    if !absolute {
        let mut message = String::from_str("Path ");
        message.append(path);
        message.append(" is not an absolute path");
        return Err(PortalError::InvalidArgument(message));
    }
    let bytes = path.as_bytes();
    let mut out: Vec<char> = Vec::new();
    out.push('f');
    out.push('i');
    out.push('l');
    out.push('e');
    out.push(':');
    out.push('/');
    out.push('/');
    let ghost head = out@;
    let mut i: usize = 0;
    proof {
        assert(bytes@.subrange(0, 0) =~= Seq::<u8>::empty());
        assert(head + escaped(Seq::<u8>::empty()) =~= head);
    }
    while i < bytes.len()
        invariant
            i <= bytes@.len(),
            head == seq!['f', 'i', 'l', 'e', ':', '/', '/'],
            out@ == head + escaped(bytes@.subrange(0, i as int)),
        decreases bytes@.len() - i,
    {
        let b = bytes[i];
        let ghost before = out@;
        if is_uri_path_safe(b) {
            out.push(b as char);
        } else {
            out.push('%');
            out.push(hex_char(b / 16));
            out.push(hex_char(b % 16));
        }
        i = i + 1;
        proof {
            let pre = bytes@.subrange(0, i as int);
            assert(pre.drop_last() =~= bytes@.subrange(0, i - 1));
            assert(pre.last() == b);
            assert(out@ =~= head + escaped(pre));
        }
    }
    proof {
        assert(bytes@.subrange(0, bytes@.len() as int) =~= bytes@);
    }
    Ok(chars_to_string(out.as_slice()))
}

/// The bytes of a sequence of ASCII characters.
pub open spec fn ascii_bytes(cs: Seq<char>) -> Seq<u8> {
    Seq::new(cs.len(), |i: int| cs[i] as u8)
}

/// An ASCII character that neither starts a query nor a fragment.
pub open spec fn plain_uri_char(c: char) -> bool {
    '\0' <= c && c <= '\u{7f}' && c != '?' && c != '#'
}

proof fn lemma_escaped_concat(a: Seq<u8>, c: Seq<u8>)
    ensures
        escaped(a + c) == escaped(a) + escaped(c),
    decreases c.len(),
{
    if c.len() == 0 {
        assert(a + c =~= a);
        assert(escaped(a) + escaped(c) =~= escaped(a));
    } else {
        lemma_escaped_concat(a, c.drop_last());
        assert((a + c).drop_last() =~= a + c.drop_last());
        assert((a + c).last() == c.last());
        assert(escaped(a + c) =~= escaped(a) + escaped(c));
    }
}

proof fn lemma_hex_upper(n: int)
    requires
        0 <= n < 16,
    ensures
        plain_uri_char(hex_upper(n)),
        hex_value(hex_upper(n) as u8) == Some(n as u8),
{
}

proof fn lemma_escape_unit_plain(x: u8)
    ensures
        forall|i: int| 0 <= i < escape_unit(x).len() ==> plain_uri_char(#[trigger] escape_unit(x)[i]),
{
    lemma_hex_upper(x as int / 16);
    lemma_hex_upper(x as int % 16);
}

proof fn lemma_escaped_plain(b: Seq<u8>)
    ensures
        forall|i: int| 0 <= i < escaped(b).len() ==> plain_uri_char(#[trigger] escaped(b)[i]),
    decreases b.len(),
{
    if b.len() > 0 {
        lemma_escaped_plain(b.drop_last());
        lemma_escape_unit_plain(b.last());
        let e = escaped(b.drop_last());
        let u = escape_unit(b.last());
        assert forall|i: int| 0 <= i < escaped(b).len() implies plain_uri_char(#[trigger] escaped(b)[i]) by {
            if i < e.len() {
                assert(escaped(b)[i] == e[i]);
            } else {
                assert(escaped(b)[i] == u[i - e.len()]);
            }
        }
    }
}

proof fn lemma_decode_unit(x: u8, rest: Seq<u8>)
    requires
        x != 0,
    ensures
        percent_decoded(ascii_bytes(escape_unit(x)) + rest) == prepend_opt(seq![x], percent_decoded(rest)),
{
    let s = ascii_bytes(escape_unit(x)) + rest;
    if uri_safe(x) {
        assert(s[0] == x);
        assert(s.subrange(1, s.len() as int) =~= rest);
    } else {
        lemma_hex_upper(x as int / 16);
        lemma_hex_upper(x as int % 16);
        assert(s[0] == 37);
        assert(s[1] == hex_upper(x as int / 16) as u8);
        assert(s[2] == hex_upper(x as int % 16) as u8);
        assert(s.subrange(3, s.len() as int) =~= rest);
        assert((x as int / 16) * 16 + x as int % 16 == x);
    }
}

proof fn lemma_decode_escaped(b: Seq<u8>)
    requires
        forall|i: int| 0 <= i < b.len() ==> b[i] != 0,
    ensures
        percent_decoded(ascii_bytes(escaped(b))) == Some(b),
    decreases b.len(),
{
    if b.len() == 0 {
        assert(ascii_bytes(escaped(b)) =~= Seq::<u8>::empty());
    } else {
        let head = seq![b[0]];
        let tail = b.subrange(1, b.len() as int);
        assert(b =~= head + tail);
        lemma_escaped_concat(head, tail);
        assert(head.drop_last() =~= Seq::<u8>::empty());
        assert(escaped(head.drop_last()) =~= Seq::<char>::empty());
        assert(head.last() == b[0]);
        assert(escaped(head) =~= escape_unit(b[0]));
        lemma_decode_escaped(tail);
        assert(ascii_bytes(escaped(b)) =~= ascii_bytes(escape_unit(b[0])) + ascii_bytes(escaped(tail)));
        lemma_decode_unit(b[0], ascii_bytes(escaped(tail)));
        assert(head + tail =~= b);
    }
}

proof fn lemma_query_start_plain(cs: Seq<char>, i: int)
    requires
        0 <= i <= cs.len(),
        forall|j: int| 0 <= j < cs.len() ==> plain_uri_char(#[trigger] cs[j]),
    ensures
        query_start(cs, i) == cs.len(),
    decreases cs.len() - i,
{
    if i < cs.len() {
        assert(plain_uri_char(cs[i]));
        lemma_query_start_plain(cs, i + 1);
    }
}

/// A `file:` URI made from an absolute path whose bytes hold no NUL
/// converts back to that path, normalised: `uri_to_path` undoes
/// `filename_to_uri`.
pub proof fn lemma_uri_round_trip(p: Seq<char>)
    requires
        is_absolute(p),
        forall|i: int| 0 <= i < encode_utf8(p).len() ==> encode_utf8(p)[i] != 0,
    ensures
        uri_path(file_uri(p)) == Some(normalized_path(p)),
{
    let b = encode_utf8(p);
    let esc = escaped(b);
    let u = file_uri(p);
    assert(b =~= encode_scalar(p[0] as u32) + encode_utf8(p.drop_first()));
    assert((47u32 & 0x7Fu32) as u8 == 47u8) by (bit_vector);
    assert(b[0] == 47);
    let head = seq![b[0]];
    let tail = b.subrange(1, b.len() as int);
    assert(b =~= head + tail);
    lemma_escaped_concat(head, tail);
    assert(head.drop_last() =~= Seq::<u8>::empty());
    assert(escaped(head.drop_last()) =~= Seq::<char>::empty());
    assert(head.last() == 47u8);
    assert(escaped(head) =~= escape_unit(47u8));
    assert(esc[0] == '/');
    lemma_escaped_plain(b);
    assert(u.subrange(0, 4) =~= seq!['f', 'i', 'l', 'e']);
    assert(find_char(u, ':', 4, u.len() as int) == 4);
    assert(find_char(u, ':', 3, u.len() as int) == 4);
    assert(find_char(u, ':', 2, u.len() as int) == 4);
    assert(find_char(u, ':', 1, u.len() as int) == 4);
    assert(find_char(u, ':', 0, u.len() as int) == 4);
    let rest = u.subrange(5, u.len() as int);
    assert(rest.subrange(2, rest.len() as int) =~= esc);
    assert(find_char(esc, '/', 0, esc.len() as int) == 0);
    assert(esc.subrange(0, esc.len() as int) =~= esc);
    lemma_query_start_plain(esc, 0);
    assert(esc.subrange(0, query_start(esc, 0)) =~= esc);
    assert(is_ascii_chars(esc));
    is_ascii_chars_encode_utf8(esc);
    assert(encode_utf8(esc) =~= ascii_bytes(esc));
    lemma_decode_escaped(b);
    encode_utf8_valid_utf8(p);
    encode_utf8_decode_utf8(p);
}

/// A segment that normalisation keeps as it is.
pub open spec fn plain_segment(s: Seq<char>) -> bool {
    s.len() > 0 && s != seq!['.'] && s != seq!['.', '.']
}

/// An absolute path that normalisation leaves alone: `/` itself, or `/`
/// followed by segments none of which is empty, `.` or `..`.
pub open spec fn plain_path(p: Seq<char>) -> bool {
    let ps = split_ranges(p, '/', 0, p.len() as int);
    &&& is_absolute(p)
    &&& (p == seq!['/'] || forall|k: int| 1 <= k < ps.len() ==> plain_segment(#[trigger] p.subrange(ps[k].0, ps[k].1)))
}

/// A `file:` URI made from a plain absolute path whose bytes hold no NUL
/// converts back to exactly that path.
pub proof fn lemma_uri_round_trip_plain(p: Seq<char>)
    requires
        plain_path(p),
        forall|i: int| 0 <= i < encode_utf8(p).len() ==> encode_utf8(p)[i] != 0,
    ensures
        uri_path(file_uri(p)) == Some(p),
{
    lemma_uri_round_trip(p);
    lemma_plain_normalized(p);
}

/// Consecutive pieces of a split are one separator apart, the first starts
/// where the scan began and the last ends at the end.
proof fn lemma_pieces_chain(cs: Seq<char>, sep: char, hi: int, i: int, start: int)
    requires
        0 <= start <= i <= hi <= cs.len(),
    ensures
        ({
            let t = pieces_from(cs, sep, hi, i, start);
            &&& t.len() >= 1
            &&& t[0].0 == start
            &&& t[t.len() - 1].1 == hi
            &&& forall|k: int| 0 <= k < t.len() - 1 ==> 0 <= #[trigger] t[k].1 < hi && cs[t[k].1] == sep && t[k + 1].0 == t[k].1 + 1
        }),
    decreases hi - i,
{
    let t = pieces_from(cs, sep, hi, i, start);
    if i >= hi {
        assert(t == seq![(start, hi)]);
    } else if cs[i] == sep {
        lemma_pieces_chain(cs, sep, hi, i + 1, i + 1);
        let rest = pieces_from(cs, sep, hi, i + 1, i + 1);
        assert(t == seq![(start, i)] + rest);
        assert forall|k: int| 0 <= k < t.len() - 1 implies 0 <= #[trigger] t[k].1 < hi && cs[t[k].1] == sep && t[k + 1].0 == t[k].1 + 1 by {
            if k > 0 {
                assert(t[k] == rest[k - 1]);
                assert(t[k + 1] == rest[k]);
            }
        }
    } else {
        lemma_pieces_chain(cs, sep, hi, i + 1, start);
    }
}

/// The segments `p[ps[1]], .., p[ps[n]]`.
pub open spec fn piece_views(p: Seq<char>, ps: Seq<(int, int)>, n: int) -> Seq<Seq<char>> {
    Seq::new(n as nat, |j: int| p.subrange(ps[j + 1].0, ps[j + 1].1))
}

proof fn lemma_kept_plain(p: Seq<char>, ps: Seq<(int, int)>, m: int)
    requires
        1 <= m <= ps.len(),
        ps[0].0 == ps[0].1,
        forall|k: int| 0 <= k < ps.len() ==> 0 <= #[trigger] ps[k].0 <= ps[k].1 <= p.len(),
        forall|k: int| 1 <= k < ps.len() ==> plain_segment(#[trigger] p.subrange(ps[k].0, ps[k].1)),
    ensures
        kept_segments(p, ps.subrange(0, m)) == piece_views(p, ps, m - 1),
    decreases m,
{
    let sub = ps.subrange(0, m);
    assert(sub.drop_last() =~= ps.subrange(0, m - 1));
    if m == 1 {
        assert(ps.subrange(0, 0) =~= Seq::<(int, int)>::empty());
        assert(sub.last() == ps[0]);
        assert(p.subrange(ps[0].0, ps[0].1).len() == 0);
        assert(kept_segments(p, sub.drop_last()) == Seq::<Seq<char>>::empty());
        assert(kept_segments(p, sub) == kept_segments(p, sub.drop_last()));
        assert(piece_views(p, ps, 0) =~= Seq::<Seq<char>>::empty());
    } else {
        lemma_kept_plain(p, ps, m - 1);
        assert(sub.last() == ps[m - 1]);
        assert(plain_segment(p.subrange(ps[m - 1].0, ps[m - 1].1)));
        assert(kept_segments(p, sub) == kept_segments(p, sub.drop_last()).push(p.subrange(ps[m - 1].0, ps[m - 1].1)));
        assert(piece_views(p, ps, m - 1) =~= piece_views(p, ps, m - 2).push(p.subrange(ps[m - 1].0, ps[m - 1].1)));
    }
}

proof fn lemma_joined_pieces(p: Seq<char>, ps: Seq<(int, int)>, j: int)
    requires
        0 <= j < ps.len(),
        ps[0].0 == 0,
        ps[0].1 == 0,
        forall|k: int| 0 <= k < ps.len() - 1 ==> 0 <= #[trigger] ps[k].1 < p.len() && p[ps[k].1] == '/' && ps[k + 1].0 == ps[k].1 + 1,
        forall|k: int| 0 <= k < ps.len() ==> 0 <= #[trigger] ps[k].0 <= ps[k].1 <= p.len(),
    ensures
        joined_path(piece_views(p, ps, j)) == p.subrange(0, ps[j].1),
    decreases j,
{
    if j == 0 {
        assert(piece_views(p, ps, 0) =~= Seq::<Seq<char>>::empty());
        assert(p.subrange(0, 0) =~= Seq::<char>::empty());
    } else {
        lemma_joined_pieces(p, ps, j - 1);
        let v = piece_views(p, ps, j);
        assert(v.drop_last() =~= piece_views(p, ps, j - 1));
        let a = ps[j - 1].1;
        assert(p[a] == '/');
        assert(ps[j].0 == a + 1);
        assert(p.subrange(0, a) + seq!['/'] + p.subrange(a + 1, ps[j].1) =~= p.subrange(0, ps[j].1));
    }
}

/// Normalising a plain path gives it back.
proof fn lemma_plain_normalized(p: Seq<char>)
    requires
        plain_path(p),
    ensures
        normalized_path(p) == p,
{
    let n = p.len() as int;
    let ps = split_ranges(p, '/', 0, n);
    lemma_pieces_chain(p, '/', n, 0, 0);
    lemma_split_shape(p, '/', n, 0, 0);
    let rest = pieces_from(p, '/', n, 1, 1);
    assert(ps == seq![(0int, 0int)] + rest);
    assert(ps[0] == (0int, 0int));
    assert(ps.subrange(0, ps.len() as int) =~= ps);
    if p == seq!['/'] {
        assert(rest == seq![(1int, 1int)]);
        assert(ps =~= seq![(0int, 0int), (1int, 1int)]);
        assert(ps.drop_last() =~= seq![(0int, 0int)]);
        assert(ps.drop_last().drop_last() =~= Seq::<(int, int)>::empty());
        assert(p.subrange(1, 1) =~= Seq::<char>::empty());
        assert(p.subrange(0, 0) =~= Seq::<char>::empty());
        assert(kept_segments(p, ps.drop_last().drop_last()) == Seq::<Seq<char>>::empty());
        assert(kept_segments(p, ps.drop_last()) == Seq::<Seq<char>>::empty());
        assert(kept_segments(p, ps) == Seq::<Seq<char>>::empty());
    } else {
        assert(rest.len() >= 1);
        assert(ps.len() >= 2);
        lemma_kept_plain(p, ps, ps.len() as int);
        let st = kept_segments(p, ps);
        assert(st == piece_views(p, ps, ps.len() - 1));
        assert(st.len() > 0);
        lemma_joined_pieces(p, ps, ps.len() - 1);
        assert(ps[ps.len() - 1].1 == n);
        assert(p.subrange(0, n) =~= p);
        assert(joined_path(st) == p);
    }
}

/// Index just past `cs[..hi]` once trailing `/` characters are dropped.
pub open spec fn trim_slashes_end(cs: Seq<char>, hi: int) -> int
    decreases hi,
{
    if hi <= 0 {
        0
    } else if cs[hi - 1] == '/' {
        trim_slashes_end(cs, hi - 1)
    } else {
        hi
    }
}

/// Last index of `c` in `cs[..hi]`, or a negative number.
pub open spec fn rfind_char(cs: Seq<char>, c: char, hi: int) -> int
    decreases hi,
{
    if hi <= 0 {
        -1
    } else if cs[hi - 1] == c {
        hi - 1
    } else {
        rfind_char(cs, c, hi - 1)
    }
}

/// The final component of `p`, like `g_path_get_basename()`.
pub open spec fn basename(p: Seq<char>) -> Seq<char> {
    if p.len() == 0 {
        seq!['.']
    } else {
        let t = trim_slashes_end(p, p.len() as int);
        if t == 0 {
            seq!['/']
        } else {
            let k = rfind_char(p, '/', t);
            if k < 0 {
                p.subrange(0, t)
            } else {
                p.subrange(k + 1, t)
            }
        }
    }
}

/// The directory part of `p`, like `g_path_get_dirname()`.
pub open spec fn dirname(p: Seq<char>) -> Seq<char> {
    let k = rfind_char(p, '/', p.len() as int);
    if k < 0 {
        seq!['.']
    } else {
        let d = trim_slashes_end(p, k);
        if d == 0 {
            seq!['/']
        } else {
            p.subrange(0, d)
        }
    }
}

fn trim_end_slashes(cs: &[char], hi: usize) -> (r: usize)
    requires
        hi <= cs@.len(),
    ensures
        r == trim_slashes_end(cs@, hi as int),
        r <= hi,
{
    let mut h = hi;
    while h > 0 && cs[h - 1] == '/'
        invariant
            h <= hi <= cs@.len(),
            trim_slashes_end(cs@, hi as int) == trim_slashes_end(cs@, h as int),
        decreases h,
    {
        h = h - 1;
    }
    h
}

pub(crate) fn rfind_in(cs: &[char], c: char, hi: usize) -> (r: Option<usize>)
    requires
        hi <= cs@.len(),
    ensures
        match r {
            Some(k) => k == rfind_char(cs@, c, hi as int) && k < hi,
            None => rfind_char(cs@, c, hi as int) < 0,
        },
{
    let mut h = hi;
    while h > 0
        invariant
            h <= hi <= cs@.len(),
            rfind_char(cs@, c, hi as int) == rfind_char(cs@, c, h as int),
        decreases h,
    {
        if cs[h - 1] == c {
            return Some(h - 1);
        }
        h = h - 1;
    }
    None
}

/// Returns the final path component of `path`, like
/// `g_path_get_basename()`.
pub fn path_basename(path: &str) -> (r: String)
    ensures
        r@ == basename(path@),
{
    let cs = str_chars(path);
    if cs.len() == 0 {
        let mut out: Vec<char> = Vec::new();
        out.push('.');
        proof {
            assert(out@ =~= seq!['.']);
        }
        return chars_to_string(out.as_slice());
    }
    let t = trim_end_slashes(cs.as_slice(), cs.len());
    if t == 0 {
        let mut out: Vec<char> = Vec::new();
        out.push('/');
        proof {
            assert(out@ =~= seq!['/']);
        }
        return chars_to_string(out.as_slice());
    }
    match rfind_in(cs.as_slice(), '/', t) {
        Some(k) => chars_to_string(vstd::slice::slice_subrange(cs.as_slice(), k + 1, t)),
        None => chars_to_string(vstd::slice::slice_subrange(cs.as_slice(), 0, t)),
    }
}

/// Returns the directory part of `path`, like `g_path_get_dirname()`.
pub fn path_dirname(path: &str) -> (r: String)
    ensures
        r@ == dirname(path@),
{
    let cs = str_chars(path);
    match rfind_in(cs.as_slice(), '/', cs.len()) {
        None => {
            let mut out: Vec<char> = Vec::new();
            out.push('.');
            proof {
                assert(out@ =~= seq!['.']);
            }
            chars_to_string(out.as_slice())
        },
        Some(k) => {
            let d = trim_end_slashes(cs.as_slice(), k);
            if d == 0 {
                let mut out: Vec<char> = Vec::new();
                out.push('/');
                proof {
                    assert(out@ =~= seq!['/']);
                }
                chars_to_string(out.as_slice())
            } else {
                chars_to_string(vstd::slice::slice_subrange(cs.as_slice(), 0, d))
            }
        },
    }
}

/// The non-empty `parts` joined with `/`, keeping the separators they
/// already carry, like `g_build_filename()`.
pub open spec fn built_filename(parts: Seq<Seq<char>>) -> Seq<char>
    decreases parts.len(),
{
    if parts.len() == 0 {
        seq![]
    } else {
        let out = built_filename(parts.drop_last());
        let p = parts.last();
        if p.len() == 0 {
            out
        } else if out.len() == 0 {
            p
        } else if out.last() != '/' && p[0] != '/' {
            out + seq!['/'] + p
        } else {
            out + p
        }
    }
}

/// The texts of `parts`.
pub open spec fn str_views(parts: Seq<&str>) -> Seq<Seq<char>> {
    parts.map_values(|s: &str| s@)
}

/// Joins the non-empty `parts` with `/`, like `g_build_filename()`.
fn build_filename(parts: &[&str]) -> (r: String)
    ensures
        r@ == built_filename(str_views(parts@)),
{
    let mut out: Vec<char> = Vec::new();
    let mut i: usize = 0;
    while i < parts.len()
        invariant
            i <= parts@.len(),
            out@ == built_filename(str_views(parts@.subrange(0, i as int))),
        decreases parts@.len() - i,
    {
        let part = str_chars(parts[i]);
        let ghost before = out@;
        if part.len() > 0 {
            if out.len() > 0 && out[out.len() - 1] != '/' && part[0] != '/' {
                out.push('/');
            }
            let mut j: usize = 0;
            let ghost base = out@;
            while j < part.len()
                invariant
                    j <= part@.len(),
                    out@ == base + part@.subrange(0, j as int),
                decreases part@.len() - j,
            {
                out.push(part[j]);
                j = j + 1;
                proof {
                    assert(out@ =~= base + part@.subrange(0, j as int));
                }
            }
            proof {
                assert(part@.subrange(0, part@.len() as int) =~= part@);
            }
        }
        proof {
            let pre = parts@.subrange(0, i + 1);
            assert(str_views(pre).drop_last() =~= str_views(parts@.subrange(0, i as int)));
            assert(str_views(pre).last() == part@);
            assert(out@ =~= built_filename(str_views(pre)));
        }
        i = i + 1;
    }
    proof {
        assert(parts@.subrange(0, parts@.len() as int) =~= parts@);
    }
    chars_to_string(out.as_slice())
}

/// What the caller wants the document portal to export, like
/// `XdpDocumentFlags`.
#[derive(Debug, Clone, Copy, PartialEq, Eq, Structural)]
pub struct DocumentFlags(pub u8);

impl DocumentFlags {
    /// Export an existing file as it is today.
    pub fn none() -> (f: DocumentFlags)
        ensures
            f.0 == 0,
    {
        DocumentFlags(0)
    }

    /// Reserve a name for a file that does not exist yet; the parent
    /// directory is exported instead of the file.
    pub fn for_save() -> (f: DocumentFlags)
        ensures
            f.0 == 1,
    {
        DocumentFlags(1)
    }

    /// The application may write to the file.
    pub fn writable() -> (f: DocumentFlags)
        ensures
            f.0 == 2,
    {
        DocumentFlags(2)
    }

    /// The export target is a directory.
    pub fn directory() -> (f: DocumentFlags)
        ensures
            f.0 == 4,
    {
        DocumentFlags(4)
    }

    /// The application may remove the document store entry.
    pub fn deletable() -> (f: DocumentFlags)
        ensures
            f.0 == 8,
    {
        DocumentFlags(8)
    }

    /// Returns whether every bit of `other` is present in `self`.
    pub fn contains(self, other: DocumentFlags) -> (r: bool)
        ensures
            r == (self.0 & other.0 == other.0),
    {
        self.0 & other.0 == other.0
    }

    /// Returns the raw flag bits.
    pub fn bits(self) -> (r: u8)
        ensures
            r == self.0,
    {
        self.0
    }

    /// The flags of both.
    pub fn union(self, other: DocumentFlags) -> (f: DocumentFlags)
        ensures
            f.0 == self.0 | other.0,
    {
        DocumentFlags(self.0 | other.0)
    }
}

impl Default for DocumentFlags {
    fn default() -> (f: DocumentFlags)
        ensures
            f.0 == 0,
    {
        DocumentFlags(0)
    }
}

/// Flags of the `AddFull` and `AddNamedFull` methods.
#[derive(Debug, Clone, Copy, PartialEq, Eq, Structural)]
pub struct DocumentAddFullFlags(pub u8);

impl DocumentAddFullFlags {
    /// Reuse an existing document store entry for the same file.
    pub fn reuse_existing() -> (f: DocumentAddFullFlags)
        ensures
            f.0 == 1,
    {
        DocumentAddFullFlags(1)
    }

    /// Keep the entry beyond the lifetime of the portal.
    pub fn persistent() -> (f: DocumentAddFullFlags)
        ensures
            f.0 == 2,
    {
        DocumentAddFullFlags(2)
    }

    /// Export the file only when the application cannot reach it yet.
    pub fn as_needed_by_app() -> (f: DocumentAddFullFlags)
        ensures
            f.0 == 4,
    {
        DocumentAddFullFlags(4)
    }

    /// Export a directory.
    pub fn directory() -> (f: DocumentAddFullFlags)
        ensures
            f.0 == 8,
    {
        DocumentAddFullFlags(8)
    }

    /// Every defined flag.
    pub fn all() -> (f: DocumentAddFullFlags)
        ensures
            f.0 == 15,
    {
        DocumentAddFullFlags(15)
    }

    /// Returns the flag bits as sent on the wire.
    pub fn bits(self) -> (r: u8)
        ensures
            r == self.0,
    {
        self.0
    }

    /// The flags of both.
    pub fn union(self, other: DocumentAddFullFlags) -> (f: DocumentAddFullFlags)
        ensures
            f.0 == self.0 | other.0,
    {
        DocumentAddFullFlags(self.0 | other.0)
    }
}

/// How a FUSE path maps back onto the host file system.
#[derive(Debug, Clone, Copy, PartialEq, Eq, Structural)]
pub enum ResolveDocumentStrategy {
    /// Keep the file the path points at.
    File,
    /// Reduce the path to the directory holding it.
    Directory,
}

/// The `org.freedesktop.portal.Documents` method a registration uses.
#[derive(Debug, Clone, Copy, PartialEq, Eq, Structural)]
pub enum DocumentAddMethod {
    /// `Add(h, b, b)`: versions before 2.
    Add,
    /// `AddNamed(h, ay, b, b)`: versions before 3, for saves.
    AddNamed,
    /// `AddFull(ah, u, s, as)`: version 2 and later.
    AddFull,
    /// `AddNamedFull(h, ay, u, s, as)`: version 3 and later, for saves.
    AddNamedFull,
}

/// The bit `bit` is set in `f`.
pub open spec fn flag_set(f: u8, bit: u8) -> bool {
    f & bit == bit
}

/// The permissions a registration grants: `read`, `write` for writable
/// targets and saves, always `grant-permissions`, and `delete` for
/// deletable ones.
pub open spec fn permission_names(f: u8) -> Seq<Seq<char>> {
    let w: Seq<Seq<char>> = if flag_set(f, 2) || flag_set(f, 1) { seq!["write"@] } else { seq![] };
    let d: Seq<Seq<char>> = if flag_set(f, 8) { seq!["delete"@] } else { seq![] };
    seq!["read"@] + w + seq!["grant-permissions"@] + d
}

/// Law: what a registration plan asks for, in terms of the caller's
/// flags (`FOR_SAVE` 1, `WRITABLE` 2, `DIRECTORY` 4, `DELETABLE` 8): it
/// always grants `read` (first) and `grant-permissions`; it grants `write`
/// exactly when the target is writable or being saved, and `delete`
/// exactly when it is deletable. A save opens the parent directory and uses
/// a named add; a directory target registers with the directory `AddFull`
/// flag. Full adds come with interface version 2 (named ones with 3); the
/// older adds need permissions granted afterwards.
pub proof fn lemma_plan_permissions(
    uri: Seq<char>,
    p: Seq<char>,
    app_id: Seq<char>,
    mountpoint: Option<Seq<char>>,
    flags: u8,
    version: u32,
)
    ensures
        ({
            let plan = planned(uri, p, app_id, mountpoint, flags, version);
            let perms = plan.permissions;
            &&& perms[0] == "read"@
            &&& perms.contains("grant-permissions"@)
            &&& perms.contains("write"@) <==> (flags & 2 == 2 || flags & 1 == 1)
            &&& perms.contains("delete"@) <==> flags & 8 == 8
            &&& (flags & 1 == 1 ==> plan.open_path == dirname(p)
                && (plan.method == DocumentAddMethod::AddNamed || plan.method == DocumentAddMethod::AddNamedFull))
            &&& (flags & 1 != 1 ==> plan.open_path == p
                && (plan.method == DocumentAddMethod::Add || plan.method == DocumentAddMethod::AddFull))
            &&& (plan.full_flags.0 & 8 == 8) <==> (flags & 4 == 4)
            &&& (flags & 1 == 1 && version >= 3) ==> plan.method == DocumentAddMethod::AddNamedFull
            &&& (flags & 1 == 1 && version < 3) ==> plan.method == DocumentAddMethod::AddNamed
            &&& (flags & 1 != 1 && version >= 2) ==> plan.method == DocumentAddMethod::AddFull
            &&& (flags & 1 != 1 && version < 2) ==> plan.method == DocumentAddMethod::Add
            &&& plan.needs_grant_permissions <==> (version < 2 || (flags & 1 == 1 && version < 3))
            &&& plan.path == p && plan.uri == uri && plan.app_id == app_id && plan.mountpoint == mountpoint
        }),
{
    reveal_strlit("read");
    reveal_strlit("write");
    reveal_strlit("grant-permissions");
    reveal_strlit("delete");
    let perms = permission_names(flags);
    let w: Seq<Seq<char>> = if flag_set(flags, 2) || flag_set(flags, 1) { seq!["write"@] } else { seq![] };
    let d: Seq<Seq<char>> = if flag_set(flags, 8) { seq!["delete"@] } else { seq![] };
    assert(perms == seq!["read"@] + w + seq!["grant-permissions"@] + d);
    assert(perms[0] == "read"@);
    let g = w.len() + 1;
    assert(perms[g as int] == "grant-permissions"@);
    if w.len() > 0 {
        assert(perms[1] == "write"@);
    } else {
        assert forall|i: int| 0 <= i < perms.len() implies perms[i] != "write"@ by {
            assert(perms[i].len() != "write"@.len());
        }
    }
    if d.len() > 0 {
        assert(perms[perms.len() - 1] == "delete"@);
    } else {
        assert forall|i: int| 0 <= i < perms.len() implies perms[i] != "delete"@ by {
            assert(perms[i].len() != "delete"@.len());
        }
    }
    assert((15u8 & 8u8 == 8u8) && (7u8 & 8u8 != 8u8)) by (bit_vector);
}

/// The `AddFull` flags of a registration: reuse, persistent and
/// as-needed always, directory for directories.
pub open spec fn full_flags_of(f: u8) -> u8 {
    if flag_set(f, 4) {
        15
    } else {
        7
    }
}

/// The method chosen from the interface version and the save flag.
pub open spec fn add_method_for(for_save: bool, version: u32) -> DocumentAddMethod {
    if for_save {
        if version >= 3 {
            DocumentAddMethod::AddNamedFull
        } else {
            DocumentAddMethod::AddNamed
        }
    } else if version >= 2 {
        DocumentAddMethod::AddFull
    } else {
        DocumentAddMethod::Add
    }
}

/// The D-Bus name of a method.
pub open spec fn method_name_of(m: DocumentAddMethod) -> Seq<char> {
    match m {
        DocumentAddMethod::Add => "Add"@,
        DocumentAddMethod::AddNamed => "AddNamed"@,
        DocumentAddMethod::AddFull => "AddFull"@,
        DocumentAddMethod::AddNamedFull => "AddNamedFull"@,
    }
}

/// The argument signature of a method, without the descriptor it indexes.
pub open spec fn arg_signature_of(m: DocumentAddMethod) -> Seq<char> {
    match m {
        DocumentAddMethod::Add => "hbb"@,
        DocumentAddMethod::AddNamed => "haybb"@,
        DocumentAddMethod::AddFull => "ahusas"@,
        DocumentAddMethod::AddNamedFull => "hayusas"@,
    }
}

/// What a [`DocumentAddPlan`] holds.
pub struct PlanView {
    pub uri: Seq<char>,
    pub path: Seq<char>,
    pub basename: Seq<char>,
    pub open_path: Seq<char>,
    pub app_id: Seq<char>,
    pub permissions: Seq<Seq<char>>,
    pub full_flags: DocumentAddFullFlags,
    pub method: DocumentAddMethod,
    pub needs_grant_permissions: bool,
    pub mountpoint: Option<Seq<char>>,
}

/// One `xdp_register_document` registration, prepared but not sent.
#[derive(Debug, Clone)]
pub struct DocumentAddPlan {
    uri: String,
    path: String,
    basename: String,
    open_path: String,
    app_id: String,
    permissions: Vec<String>,
    full_flags: DocumentAddFullFlags,
    method: DocumentAddMethod,
    needs_grant_permissions: bool,
    mountpoint: Option<String>,
}

impl View for DocumentAddPlan {
    type V = PlanView;

    closed spec fn view(&self) -> PlanView {
        PlanView {
            uri: self.uri@,
            path: self.path@,
            basename: self.basename@,
            open_path: self.open_path@,
            app_id: self.app_id@,
            permissions: string_views(self.permissions@),
            full_flags: self.full_flags,
            method: self.method,
            needs_grant_permissions: self.needs_grant_permissions,
            mountpoint: opt_text(self.mountpoint),
        }
    }
}

/// The plan for registering the file at `p` (decoded from `uri`) for
/// `app_id` with `flags` against interface `version`.
pub open spec fn planned(uri: Seq<char>, p: Seq<char>, app_id: Seq<char>, mountpoint: Option<Seq<char>>, flags: u8, version: u32) -> PlanView {
    let method = add_method_for(flag_set(flags, 1), version);
    PlanView {
        uri: uri,
        path: p,
        basename: basename(p),
        open_path: if flag_set(flags, 1) { dirname(p) } else { p },
        app_id: app_id,
        permissions: permission_names(flags),
        full_flags: DocumentAddFullFlags(full_flags_of(flags)),
        method: method,
        needs_grant_permissions: method == DocumentAddMethod::Add || method == DocumentAddMethod::AddNamed,
        mountpoint: mountpoint,
    }
}

impl DocumentAddPlan {
    /// Returns the URI the caller asked to register.
    pub fn uri(&self) -> (r: &str)
        ensures
            r@ == self@.uri,
    {
        self.uri.as_str()
    }

    /// Returns the host path decoded from the URI.
    pub fn path(&self) -> (r: &str)
        ensures
            r@ == self@.path,
    {
        self.path.as_str()
    }

    /// Returns the final path component, sent as the `filename` argument
    /// of the named methods.
    pub fn basename(&self) -> (r: &str)
        ensures
            r@ == self@.basename,
    {
        self.basename.as_str()
    }

    /// Returns what the registration opens: the parent directory for
    /// saves, the file itself otherwise.
    pub fn open_path(&self) -> (r: &str)
        ensures
            r@ == self@.open_path,
    {
        self.open_path.as_str()
    }

    /// Returns the application id the permissions are granted to.
    pub fn app_id(&self) -> (r: &str)
        ensures
            r@ == self@.app_id,
    {
        self.app_id.as_str()
    }

    /// Returns the permission list sent with the call.
    pub fn permissions(&self) -> (r: &[String])
        ensures
            string_views(r@) == self@.permissions,
    {
        self.permissions.as_slice()
    }

    /// Returns the `AddFull`/`AddNamedFull` flags.
    pub fn full_flags(&self) -> (r: DocumentAddFullFlags)
        ensures
            r == self@.full_flags,
    {
        self.full_flags
    }

    /// Returns the method the registration calls.
    pub fn method(&self) -> (r: DocumentAddMethod)
        ensures
            r == self@.method,
    {
        self.method
    }

    /// Returns whether permissions still have to be granted after the
    /// `Add*` call, which only the `*Full` methods do on the portal's side.
    pub fn needs_grant_permissions(&self) -> (r: bool)
        ensures
            r == self@.needs_grant_permissions,
    {
        self.needs_grant_permissions
    }

    /// Returns the FUSE mount point the document id resolves under.
    pub fn mountpoint(&self) -> (r: Option<&str>)
        ensures
            opt_str(r) == self@.mountpoint,
    {
        match &self.mountpoint {
            Some(m) => Some(m.as_str()),
            None => None,
        }
    }

    /// Returns the D-Bus method name of the registration.
    pub fn method_name(&self) -> (r: &'static str)
        ensures
            r@ == method_name_of(self@.method),
    {
        match self.method {
            DocumentAddMethod::Add => "Add",
            DocumentAddMethod::AddNamed => "AddNamed",
            DocumentAddMethod::AddFull => "AddFull",
            DocumentAddMethod::AddNamedFull => "AddNamedFull",
        }
    }

    /// Returns the argument signature of the registration, excluding the
    /// file descriptor it indexes.
    pub fn arg_signature(&self) -> (r: &'static str)
        ensures
            r@ == arg_signature_of(self@.method),
    {
        match self.method {
            DocumentAddMethod::Add => "hbb",
            DocumentAddMethod::AddNamed => "haybb",
            DocumentAddMethod::AddFull => "ahusas",
            DocumentAddMethod::AddNamedFull => "hayusas",
        }
    }

    /// Turns the document id of a successful registration into the URI
    /// the application receives: an empty id means the file was not
    /// exported and the original path is returned as a URI; otherwise
    /// the id and the basename are placed under the mount point, which
    /// must be known.
    pub fn result_uri(&self, doc_id: &str) -> (r: Result<String, PortalError>)
        ensures
            doc_id@.len() == 0 ==> uri_result(r, self@.path),
            doc_id@.len() > 0 && self@.mountpoint is None ==> (r matches Err(PortalError::Failed(m))
                && m@ == "Cannot determine the document portal mount point"@),
            doc_id@.len() > 0 && self@.mountpoint is Some ==> uri_result(r, built_filename(
                seq![self@.mountpoint.unwrap(), doc_id@, self@.basename])),
    {
        if doc_id.unicode_len() == 0 {
            return filename_to_uri(self.path.as_str());
        }
        let mountpoint = match &self.mountpoint {
            Some(m) => m.as_str(),
            None => {
                return Err(PortalError::Failed(String::from_str("Cannot determine the document portal mount point")));
            },
        };
        let parts: [&str; 3] = [mountpoint, doc_id, self.basename.as_str()];
        proof {
            assert(str_views(parts@) =~= seq![self@.mountpoint.unwrap(), doc_id@, self@.basename]);
        }
        let joined = build_filename(parts.as_slice());
        filename_to_uri(joined.as_str())
    }
}

/// Builds the permission list a registration sends.
fn permissions_for(flags: DocumentFlags) -> (r: Vec<String>)
    ensures
        string_views(r@) == permission_names(flags.0),
{
    let mut permissions: Vec<String> = Vec::new();
    permissions.push(String::from_str("read"));
    if flags.contains(DocumentFlags::writable()) || flags.contains(DocumentFlags::for_save()) {
        permissions.push(String::from_str("write"));
    }
    permissions.push(String::from_str("grant-permissions"));
    if flags.contains(DocumentFlags::deletable()) {
        permissions.push(String::from_str("delete"));
    }
    proof {
        assert(string_views(permissions@) =~= permission_names(flags.0));
    }
    permissions
}

/// Builds the `AddFull` flags a registration uses.
fn add_full_flags(flags: DocumentFlags) -> (r: DocumentAddFullFlags)
    ensures
        r.0 == full_flags_of(flags.0),
{
    let full_flags = DocumentAddFullFlags::reuse_existing().union(DocumentAddFullFlags::persistent()).union(
        DocumentAddFullFlags::as_needed_by_app(),
    );
    assert((1u8 | 2u8) | 4u8 == 7u8) by (bit_vector);
    if flags.contains(DocumentFlags::directory()) {
        assert(7u8 | 8u8 == 15u8) by (bit_vector);
        full_flags.union(DocumentAddFullFlags::directory())
    } else {
        full_flags
    }
}

/// Prepares the registration `xdp_register_document` performs for `uri`
/// on behalf of `app_id`, with documents appearing under `mountpoint`.
///
/// Fails with `InvalidArgument` when `app_id` is empty or when `uri` is
/// not a `file:` URI the document portal can export.
pub fn plan_register_document(
    uri: &str,
    app_id: &str,
    mountpoint: Option<String>,
    flags: DocumentFlags,
    version: u32,
) -> (r: Result<DocumentAddPlan, PortalError>)
    ensures
        app_id@.len() == 0 ==> (r matches Err(PortalError::InvalidArgument(m)) && m@ == "app id must not be empty"@),
        app_id@.len() > 0 && uri_path(uri@) is None ==> (r matches Err(PortalError::InvalidArgument(m))
            && m@ == "URI "@ + uri@ + " not supported by the document portal"@),
        app_id@.len() > 0 && uri_path(uri@) is Some ==> (r matches Ok(plan) && plan@ == planned(
            uri@, uri_path(uri@).unwrap(), app_id@, opt_text(mountpoint), flags.0, version)),
{
    if app_id.unicode_len() == 0 {
        return Err(PortalError::InvalidArgument(String::from_str("app id must not be empty")));
    }
    let path = match uri_to_path(uri) {
        Some(p) => p,
        None => {
            let mut message = String::from_str("URI ");
            message.append(uri);
            message.append(" not supported by the document portal");
            return Err(PortalError::InvalidArgument(message));
        },
    };
    let basename = path_basename(path.as_str());
    let for_save = flags.contains(DocumentFlags::for_save());
    let open_path = if for_save {
        path_dirname(path.as_str())
    } else {
        path.clone()
    };
    let method = if for_save {
        if version >= 3 {
            DocumentAddMethod::AddNamedFull
        } else {
            DocumentAddMethod::AddNamed
        }
    } else if version >= 2 {
        DocumentAddMethod::AddFull
    } else {
        DocumentAddMethod::Add
    };
    let needs_grant_permissions = match method {
        DocumentAddMethod::Add | DocumentAddMethod::AddNamed => true,
        _ => false,
    };
    let plan = DocumentAddPlan {
        uri: String::from_str(uri),
        path,
        basename,
        open_path,
        app_id: String::from_str(app_id),
        permissions: permissions_for(flags),
        full_flags: add_full_flags(flags),
        method,
        needs_grant_permissions,
        mountpoint,
    };
    Ok(plan)
}

/// The FUSE mount point documents of an application of kind `kind`
/// appear under: `/run/flatpak/doc` for flatpak applications, otherwise
/// `doc` below the user runtime directory `runtime_dir` when it is set
/// and not empty, else the mount point the document portal reported.
pub fn doc_mountpoint(kind: AppInfoKind, runtime_dir: Option<&str>, reported: Option<String>) -> (r: Option<String>)
    ensures
        kind == AppInfoKind::Flatpak ==> opt_text(r) == Some("/run/flatpak/doc"@),
        kind != AppInfoKind::Flatpak && (runtime_dir matches Some(d) && d@.len() > 0) ==> opt_text(r) == Some(
            runtime_dir.unwrap()@ + "/doc"@),
        kind != AppInfoKind::Flatpak && !(runtime_dir matches Some(d) && d@.len() > 0) ==> opt_text(r)
            == opt_text(reported),
{
    if kind == AppInfoKind::Flatpak {
        return Some(String::from_str("/run/flatpak/doc"));
    }
    match runtime_dir {
        Some(d) => {
            if d.unicode_len() > 0 {
                let mut m = String::from_str(d);
                m.append("/doc");
                return Some(m);
            }
        },
        None => {},
    }
    reported
}

/// First index from `i` on where `pat` occurs in `cs`, or a negative number.
pub open spec fn find_seq(cs: Seq<char>, pat: Seq<char>, i: int) -> int
    decreases cs.len() - i,
{
    if i < 0 || i >= cs.len() || i + pat.len() > cs.len() {
        -1
    } else if cs.subrange(i, i + pat.len()) == pat {
        i
    } else {
        find_seq(cs, pat, i + 1)
    }
}

/// The separator the FUSE mount inserts before a document id.
pub open spec fn doc_marker() -> Seq<char> {
    seq!['/', 'd', 'o', 'c', '/']
}

/// The document id and the rest of the path below the directory name
/// that follows it, when `p` lies under the non-empty `runtime_dir`,
/// contains `/doc/` and names a non-empty id there.
pub open spec fn doc_path_parts(p: Seq<char>, runtime_dir: Seq<char>) -> Option<(Seq<char>, Seq<char>)> {
    if runtime_dir.len() == 0 || !(runtime_dir.len() <= p.len() && p.subrange(0, runtime_dir.len() as int)
        == runtime_dir) {
        None
    } else {
        let k = find_seq(p, doc_marker(), 0);
        if k < 0 {
            None
        } else {
            let rest = p.subrange(k + 5, p.len() as int);
            let j = find_char(rest, '/', 0, rest.len() as int);
            let id = if j < 0 { rest } else { rest.subrange(0, j) };
            let tail = if j < 0 { Seq::<char>::empty() } else { rest.subrange(j + 1, rest.len() as int) };
            if id.len() == 0 {
                None
            } else {
                let m = find_char(tail, '/', 0, tail.len() as int);
                Some((id, if m < 0 { Seq::<char>::empty() } else { tail.subrange(m, tail.len() as int) }))
            }
        }
    }
}

/// The host path a document path resolves to once the document's host
/// path is `host`: the suffix appended, and cut at its last `/` for the
/// directory strategy.
pub open spec fn resolved_path(host: Seq<char>, suffix: Seq<char>, strategy: ResolveDocumentStrategy) -> Seq<char> {
    let full = host + suffix;
    let k = rfind_char(full, '/', full.len() as int);
    if strategy == ResolveDocumentStrategy::Directory && k >= 0 {
        full.subrange(0, k)
    } else {
        full
    }
}

/// The last `c` before `hi` is at `rfind_char(cs, c, hi)`, and a negative
/// result means there is none.
pub proof fn lemma_rfind_char(cs: Seq<char>, c: char, hi: int)
    requires
        0 <= hi <= cs.len(),
    ensures
        ({
            let k = rfind_char(cs, c, hi);
            &&& -1 <= k < hi
            &&& k >= 0 ==> cs[k] == c
            &&& forall|j: int| k < j < hi && j >= 0 ==> #[trigger] cs[j] != c
        }),
    decreases hi,
{
    if hi > 0 && cs[hi - 1] != c {
        lemma_rfind_char(cs, c, hi - 1);
    }
}

/// Where `find_char` stops: at the first `c` in `cs[i..hi]`, or nowhere
/// (negative) when there is none.
pub proof fn lemma_find_char_props(cs: Seq<char>, c: char, i: int, hi: int)
    requires
        0 <= i,
        hi <= cs.len(),
    ensures
        ({
            let k = find_char(cs, c, i, hi);
            &&& k >= 0 ==> i <= k < hi && cs[k] == c && forall|j: int| i <= j < k ==> #[trigger] cs[j] != c
            &&& k < 0 ==> forall|j: int| i <= j < hi ==> #[trigger] cs[j] != c
        }),
    decreases hi - i,
{
    if i < hi && cs[i] != c {
        lemma_find_char_props(cs, c, i + 1, hi);
    }
}

proof fn lemma_find_seq_props(cs: Seq<char>, pat: Seq<char>, i: int)
    ensures
        find_seq(cs, pat, i) >= 0 ==> i <= find_seq(cs, pat, i) && find_seq(cs, pat, i) + pat.len() <= cs.len()
            && cs.subrange(find_seq(cs, pat, i), find_seq(cs, pat, i) + pat.len()) == pat,
    decreases cs.len() - i,
{
    if !(i < 0 || i >= cs.len() || i + pat.len() > cs.len()) && cs.subrange(i, i + pat.len()) != pat {
        lemma_find_seq_props(cs, pat, i + 1);
    }
}

/// Law: a path the document portal can resolve lies under the runtime
/// directory and holds `/doc/` followed by the document id, which is not
/// empty and has no `/`; the part below the document is a tail of the path
/// that is empty or starts with `/`.
pub proof fn lemma_doc_path_parts(p: Seq<char>, runtime_dir: Seq<char>)
    ensures
        doc_path_parts(p, runtime_dir) matches Some((id, suffix)) ==> {
            &&& runtime_dir.len() > 0
            &&& runtime_dir.len() <= p.len() && p.subrange(0, runtime_dir.len() as int) == runtime_dir
            &&& id.len() > 0
            &&& forall|j: int| 0 <= j < id.len() ==> #[trigger] id[j] != '/'
            &&& exists|k: int| 0 <= k && k + 5 + id.len() <= p.len() && #[trigger] p.subrange(k, k + 5 + id.len())
                == doc_marker() + id
            &&& suffix.len() == 0 || suffix[0] == '/'
            &&& suffix.len() <= p.len() && p.subrange(p.len() - suffix.len(), p.len() as int) == suffix
        },
{
    if let Some((id, suffix)) = doc_path_parts(p, runtime_dir) {
        let k = find_seq(p, doc_marker(), 0);
        lemma_find_seq_props(p, doc_marker(), 0);
        let rest = p.subrange(k + 5, p.len() as int);
        lemma_find_char_props(rest, '/', 0, rest.len() as int);
        let j = find_char(rest, '/', 0, rest.len() as int);
        let tail = if j < 0 { Seq::<char>::empty() } else { rest.subrange(j + 1, rest.len() as int) };
        lemma_find_char_props(tail, '/', 0, tail.len() as int);
        let m = find_char(tail, '/', 0, tail.len() as int);
        assert forall|x: int| 0 <= x < id.len() implies #[trigger] id[x] != '/' by {
            assert(id[x] == rest[x]);
        }
        assert(p.subrange(k, k + 5 + id.len()) =~= doc_marker() + id) by {
            assert forall|x: int| 0 <= x < 5 + id.len() implies #[trigger] p.subrange(k, k + 5 + id.len())[x] == (
            doc_marker() + id)[x] by {
                if x < 5 {
                    assert(p.subrange(k, k + 5)[x] == doc_marker()[x]);
                } else {
                    assert(id[x - 5] == rest[x - 5]);
                }
            }
        }
        if m >= 0 {
            assert(suffix == tail.subrange(m, tail.len() as int));
            assert(p.subrange(p.len() - suffix.len(), p.len() as int) =~= suffix) by {
                assert forall|x: int| 0 <= x < suffix.len() implies #[trigger] p.subrange(p.len() - suffix.len(), p.len() as int)[x]
                    == suffix[x] by {
                    assert(suffix[x] == tail[m + x]);
                    assert(tail[m + x] == rest[j + 1 + m + x]);
                    assert(rest[j + 1 + m + x] == p[k + 5 + j + 1 + m + x]);
                }
            }
        } else {
            assert(p.subrange(p.len() as int, p.len() as int) =~= suffix);
        }
    }
}

/// Law: what a document path resolves to once the document's host path
/// `host` is known, with `suffix` the part of the document path below the
/// document: for the file strategy the host path followed by the suffix;
/// for the directory strategy that same text cut before its last `/` (the
/// part cut off is a `/` and a last component without `/`), or left whole
/// when it holds no `/`, whether or not the suffix is empty.
pub proof fn lemma_resolved_path(host: Seq<char>, suffix: Seq<char>)
    ensures
        resolved_path(host, suffix, ResolveDocumentStrategy::File) == host + suffix,
        ({
            let full = host + suffix;
            let r = resolved_path(host, suffix, ResolveDocumentStrategy::Directory);
            &&& (exists|i: int| 0 <= i < full.len() && full[i] == '/') ==> {
                &&& r.len() < full.len()
                &&& full.subrange(0, r.len() as int) == r
                &&& full[r.len() as int] == '/'
                &&& forall|j: int| r.len() < j < full.len() ==> #[trigger] full[j] != '/'
            }
            &&& (forall|i: int| 0 <= i < full.len() ==> full[i] != '/') ==> r == full
        }),
{
    let full = host + suffix;
    lemma_rfind_char(full, '/', full.len() as int);
    let k = rfind_char(full, '/', full.len() as int);
    if exists|i: int| 0 <= i < full.len() && full[i] == '/' {
        let i = choose|i: int| 0 <= i < full.len() && full[i] == '/';
        assert(k >= 0);
    }
}

fn find_doc_marker(cs: &[char]) -> (r: Option<usize>)
    ensures
        match r {
            Some(k) => k == find_seq(cs@, doc_marker(), 0) && k + 5 <= cs@.len(),
            None => find_seq(cs@, doc_marker(), 0) < 0,
        },
{
    let n = cs.len();
    if n < 5 {
        return None;
    }
    let mut i: usize = 0;
    while i <= n - 5
        invariant
            n == cs@.len(),
            n >= 5,
            i <= n - 4,
            find_seq(cs@, doc_marker(), 0) == find_seq(cs@, doc_marker(), i as int),
        decreases n - i,
    {
        if cs[i] == '/' && cs[i + 1] == 'd' && cs[i + 2] == 'o' && cs[i + 3] == 'c' && cs[i + 4] == '/' {
            proof {
                assert(cs@.subrange(i as int, i + 5) =~= doc_marker());
            }
            return Some(i);
        }
        proof {
            let w = cs@.subrange(i as int, i + 5);
            if w == doc_marker() {
                assert(w[0] == cs@[i as int] && w[1] == cs@[i + 1] && w[2] == cs@[i + 2] && w[3] == cs@[i + 3]
                    && w[4] == cs@[i + 4]);
            }
        }
        i = i + 1;
    }
    None
}

/// Splits `path` into the document id it points at and the part of the
/// path below the directory name that follows the id, like
/// `xdp_looks_like_document_portal_path`.
///
/// Returns `None` when `path` does not live under `runtime_dir`, does not
/// contain `/doc/` or names an empty document id. An empty `runtime_dir`
/// never matches.
pub fn parse_document_portal_path<'a>(path: &'a str, runtime_dir: &str) -> (r: Option<(&'a str, &'a str)>)
    ensures
        match doc_path_parts(path@, runtime_dir@) {
            None => r is None,
            Some((id, suffix)) => r matches Some((a, b)) && a@ == id && b@ == suffix,
        },
{
    let cs = str_chars(path);
    let rd = str_chars(runtime_dir);
    let n = cs.len();
    if rd.len() == 0 || rd.len() > n {
        return None;
    }
    let mut i: usize = 0;
    while i < rd.len()
        invariant
            cs@ == path@,
            rd@ == runtime_dir@,
            i <= rd@.len() <= cs@.len(),
            cs@.subrange(0, i as int) == rd@.subrange(0, i as int),
        decreases rd@.len() - i,
    {
        if cs[i] != rd[i] {
            proof {
                let a = cs@.subrange(0, rd@.len() as int);
                assert(a[i as int] != rd@[i as int]);
                assert(a != rd@);
            }
            return None;
        }
        i = i + 1;
        proof {
            assert(cs@.subrange(0, i as int) =~= rd@.subrange(0, i as int));
        }
    }
    proof {
        assert(rd@.subrange(0, rd@.len() as int) =~= rd@);
    }
    let k = match find_doc_marker(cs.as_slice()) {
        Some(k) => k,
        None => {
            return None;
        },
    };
    let start = k + 5;
    let ghost rest = cs@.subrange(start as int, n as int);
    let (id_end, tail_start) = match find_in(cs.as_slice(), '/', start, n) {
        Some(j) => (j, j + 1),
        None => (n, n),
    };
    proof {
        lemma_find_char_shift(cs@, '/', start as int, start as int, n as int);
    }
    if id_end == start {
        proof {
            let j = find_char(rest, '/', 0, rest.len() as int);
            if j >= 0 {
                assert(rest.subrange(0, j).len() == 0);
            }
        }
        return None;
    }
    let suffix_start = match find_in(cs.as_slice(), '/', tail_start, n) {
        Some(m) => m,
        None => n,
    };
    proof {
        lemma_find_char_shift(cs@, '/', tail_start as int, tail_start as int, n as int);
        let j = find_char(rest, '/', 0, rest.len() as int);
        if j >= 0 {
            assert(rest.subrange(0, j) =~= cs@.subrange(start as int, id_end as int));
            assert(rest.subrange(j + 1, rest.len() as int) =~= cs@.subrange(tail_start as int, n as int));
        } else {
            assert(rest =~= cs@.subrange(start as int, id_end as int));
            assert(cs@.subrange(tail_start as int, n as int) =~= Seq::<char>::empty());
        }
        let tail = cs@.subrange(tail_start as int, n as int);
        let m = find_char(tail, '/', 0, tail.len() as int);
        if m >= 0 {
            assert(tail.subrange(m, tail.len() as int) =~= cs@.subrange(suffix_start as int, n as int));
        } else {
            assert(cs@.subrange(suffix_start as int, n as int) =~= Seq::<char>::empty());
        }
    }
    let id = path.substring_char(start, id_end);
    let suffix = path.substring_char(suffix_start, n);
    Some((id, suffix))
}

/// Resolves a FUSE path to its host path with a caller supplied lookup,
/// like `xdp_resolve_document_portal_path`: when `path` is not a document
/// path, or `lookup` does not know the document id, `path` is returned
/// unchanged.
pub fn resolve_document_portal_path_with<F: FnOnce(&str) -> Option<String>>(
    path: &str,
    strategy: ResolveDocumentStrategy,
    runtime_dir: &str,
    lookup: F,
) -> (r: String)
    requires
        forall|d: &str| call_requires(lookup, (d,)),
    ensures
        match doc_path_parts(path@, runtime_dir@) {
            None => r@ == path@,
            Some((id, suffix)) => exists|d: &str, h: Option<String>|
                #[trigger] call_ensures(lookup, (d,), h) && d@ == id && match h {
                    None => r@ == path@,
                    Some(host) => r@ == resolved_path(host@, suffix, strategy),
                },
        },
{
    let (doc_id, suffix) = match parse_document_portal_path(path, runtime_dir) {
        Some(parts) => parts,
        None => {
            return String::from_str(path);
        },
    };
    let host_path = match lookup(doc_id) {
        Some(h) => h,
        None => {
            return String::from_str(path);
        },
    };
    let mut resolved = host_path.clone();
    resolved.append(suffix);
    if strategy == ResolveDocumentStrategy::Directory {
        let cs = str_chars(resolved.as_str());
        match rfind_in(cs.as_slice(), '/', cs.len()) {
            Some(k) => {
                return chars_to_string(vstd::slice::slice_subrange(cs.as_slice(), 0, k));
            },
            None => {},
        }
    }
    resolved
}


} // verus!
