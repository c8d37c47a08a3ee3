//! HTTP/1.1 opening handshake (RFC 6455 §4).
//!
//! The client sends a GET request with `Upgrade: websocket`, `Connection:
//! Upgrade`, a Base64 `Sec-WebSocket-Key` of 16 random bytes,
//! `Sec-WebSocket-Version: 13`, `Host` and optionally `Origin` and
//! `Sec-WebSocket-Protocol`. The server answers `101 Switching Protocols`
//! with `Sec-WebSocket-Accept = base64(SHA-1(key || GUID))`.
//!
//! Header blocks are parsed as text: the block up to the first CR LF CR LF
//! must be UTF-8; it splits into lines at CR LF; the start line splits at
//! Unicode whitespace; each header line splits at its first `:` into a
//! trimmed, ASCII-lower-cased name and a trimmed value, and repeated names
//! join their values with `", "`.

use vstd::prelude::*;
use vstd::utf8::*;
use crate::header_map::{HeaderMap, comma_space, merge_value, str_eq};
use crate::http_text::{
    eq_ignore_ascii_case_chars, eq_ignore_case, find_char, find_in, int_pairs, line_ranges, lines_from, lower, lower_string, pieces_from, range_eq,
    range_string, split_lines, split_on, split_ranges, split_ws, str_chars, tokens_from, trim_range,
    trimmed, ws_tokens,
};
use crate::outside::{fill_random, sha1_digest, sha1_digest_of, string_from_utf8};
use crate::text::{ascii_chars, decimal_chars, decimal_string};
use crate::ws_base64::{b64_decode, b64_encode, b64_error_text, decode, encode};
use crate::ws_error::{WsError, WsResult};
use crate::ws_frame::push_all;
use crate::ws_ids::{GUID, VERSION};
use crate::ws_utf8::validate_utf8;

verus! {

broadcast use vstd::seq::group_seq_axioms;

// ---------------------------------------------------------------------------
// Accept key and nonce
// ---------------------------------------------------------------------------

/// `Sec-WebSocket-Accept` for the key text `key`: the Base64 of the SHA-1
/// digest of the key's UTF-8 bytes followed by those of [`GUID`].
pub open spec fn accept_for(key: Seq<char>) -> Seq<char> {
    ascii_chars(b64_encode(sha1_digest_of(encode_utf8(key) + encode_utf8(GUID@))))
}

/// Generates 16 random bytes for `Sec-WebSocket-Key`; fails with
/// `RandomFailed` when the operating system's source fails.
pub fn generate_key_nonce() -> (r: WsResult<[u8; 16]>)
    ensures
        r is Err ==> r == Err::<[u8; 16], WsError>(WsError::RandomFailed),
{
    let mut v: Vec<u8> = vec![0u8, 0u8, 0u8, 0u8, 0u8, 0u8, 0u8, 0u8, 0u8, 0u8, 0u8, 0u8, 0u8, 0u8, 0u8, 0u8];
    match fill_random(&mut v) {
        Ok(()) => Ok([v[0], v[1], v[2], v[3], v[4], v[5], v[6], v[7], v[8], v[9], v[10], v[11], v[12], v[13], v[14], v[15]]),
        Err(_) => Err(WsError::RandomFailed),
    }
}

/// Computes `Sec-WebSocket-Accept` from the Base64 `Sec-WebSocket-Key` text
/// (RFC 6455 §4.2.2).
pub fn compute_accept_key(sec_websocket_key: &str) -> (r: String)
    ensures
        r@ == accept_for(sec_websocket_key@),
{
    let mut data: Vec<u8> = Vec::new();
    push_all(&mut data, sec_websocket_key.as_bytes());
    push_all(&mut data, GUID.as_bytes());
    let digest = sha1_digest(data.as_slice());
    encode(digest.as_slice())
}

/// Computes `Sec-WebSocket-Accept` from the raw 16-byte key nonce.
pub fn accept_key_from_nonce(nonce: &[u8; 16]) -> (r: String)
    ensures
        r@ == accept_for(ascii_chars(b64_encode(nonce@))),
{
    let key = encode(nonce.as_slice());
    compute_accept_key(key.as_str())
}

// ---------------------------------------------------------------------------
// Header block model
// ---------------------------------------------------------------------------

/// Index of the first CR LF CR LF in `buf` at or after `i`.
pub open spec fn header_end_from(buf: Seq<u8>, i: int) -> Option<int>
    decreases buf.len() - i,
{
    if i < 0 || i + 4 > buf.len() {
        None
    } else if buf[i] == 13 && buf[i + 1] == 10 && buf[i + 2] == 13 && buf[i + 3] == 10 {
        Some(i)
    } else {
        header_end_from(buf, i + 1)
    }
}

/// Length of the header block: the index of the first CR LF CR LF.
pub open spec fn header_end(buf: Seq<u8>) -> Option<int> {
    header_end_from(buf, 0)
}

/// The header block found from `i` lies inside `buf`, terminator included.
pub proof fn lemma_header_end_from_bound(buf: Seq<u8>, i: int)
    ensures
        header_end_from(buf, i) matches Some(e) ==> i <= e && e + 4 <= buf.len(),
    decreases buf.len() - i,
{
    if !(i < 0 || i + 4 > buf.len()) && !(buf[i] == 13 && buf[i + 1] == 10 && buf[i + 2] == 13 && buf[i + 3] == 10) {
        lemma_header_end_from_bound(buf, i + 1);
    }
}

/// The characters of a UTF-8 header block.
pub open spec fn head_chars(buf: Seq<u8>, end: int) -> Seq<char> {
    decode_utf8(buf.subrange(0, end))
}

/// Folds the header lines `lines[k..]` into `m`: an empty line ends the
/// block, a line without `:` makes it malformed (`None`).
pub open spec fn header_fold(cs: Seq<char>, lines: Seq<(int, int)>, k: int, m: Map<Seq<char>, Seq<char>>) -> Option<
    Map<Seq<char>, Seq<char>>,
>
    decreases lines.len() - k,
{
    if k < 0 || k >= lines.len() {
        Some(m)
    } else if lines[k].0 >= lines[k].1 {
        Some(m)
    } else {
        let c = find_char(cs, ':', lines[k].0, lines[k].1);
        if c < 0 {
            None
        } else {
            header_fold(
                cs,
                lines,
                k + 1,
                merge_value(m, lower(trimmed(cs, lines[k].0, c)), trimmed(cs, c + 1, lines[k].1)),
            )
        }
    }
}

/// The headers of a header block (all lines after the start line).
pub open spec fn head_headers(cs: Seq<char>) -> Option<Map<Seq<char>, Seq<char>>> {
    header_fold(cs, line_ranges(cs), 1, Map::empty())
}

/// The first header line among `lines[k..]`, before an empty line ends the
/// block, that holds no `:`.
pub open spec fn bad_header_line(cs: Seq<char>, lines: Seq<(int, int)>, k: int) -> Option<Seq<char>>
    decreases lines.len() - k,
{
    if k < 0 || k >= lines.len() || lines[k].0 >= lines[k].1 {
        None
    } else if find_char(cs, ':', lines[k].0, lines[k].1) < 0 {
        Some(cs.subrange(lines[k].0, lines[k].1))
    } else {
        bad_header_line(cs, lines, k + 1)
    }
}

/// Folding the header lines fails exactly when one of them has no `:`.
pub proof fn lemma_fold_fails(cs: Seq<char>, lines: Seq<(int, int)>, k: int, m: Map<Seq<char>, Seq<char>>)
    ensures
        header_fold(cs, lines, k, m) is None <==> bad_header_line(cs, lines, k) is Some,
    decreases lines.len() - k,
{
    if !(k < 0 || k >= lines.len() || lines[k].0 >= lines[k].1) {
        let c = find_char(cs, ':', lines[k].0, lines[k].1);
        if c >= 0 {
            lemma_fold_fails(cs, lines, k + 1, merge_value(m, lower(trimmed(cs, lines[k].0, c)), trimmed(cs, c + 1, lines[k].1)));
        }
    }
}

/// The message of a malformed header block.
pub open spec fn header_error_text(cs: Seq<char>) -> Seq<char> {
    "malformed header line: "@ + bad_header_line(cs, line_ranges(cs), 1).unwrap()
}

/// The whitespace-separated tokens of the start line.
pub open spec fn start_tokens(cs: Seq<char>) -> Seq<(int, int)> {
    ws_tokens(cs, line_ranges(cs)[0].0, line_ranges(cs)[0].1)
}

/// The text of a range.
pub open spec fn range_text(cs: Seq<char>, t: (int, int)) -> Seq<char> {
    cs.subrange(t.0, t.1)
}

/// The value of header `name`, or the empty text.
pub open spec fn value_or_empty(h: Map<Seq<char>, Seq<char>>, name: Seq<char>) -> Seq<char> {
    if h.contains_key(name) {
        h[name]
    } else {
        seq![]
    }
}

/// The value of header `name`, if present.
pub open spec fn value_opt(h: Map<Seq<char>, Seq<char>>, name: Seq<char>) -> Option<Seq<char>> {
    if h.contains_key(name) {
        Some(h[name])
    } else {
        None
    }
}

/// The texts of a sequence of strings.
pub open spec fn strs(v: Seq<String>) -> Seq<Seq<char>> {
    v.map_values(|s: String| s@)
}

/// The text of an optional string.
pub open spec fn opt_text(o: Option<String>) -> Option<Seq<char>> {
    match o {
        Some(s) => Some(s@),
        None => None,
    }
}

/// The text of an optional string slice.
pub open spec fn opt_str(o: Option<&str>) -> Option<Seq<char>> {
    match o {
        Some(s) => Some(s@),
        None => None,
    }
}

/// The non-empty trimmed pieces among `ps` of `v`.
pub open spec fn kept_tokens(v: Seq<char>, ps: Seq<(int, int)>) -> Seq<Seq<char>>
    decreases ps.len(),
{
    if ps.len() == 0 {
        seq![]
    } else {
        let t = trimmed(v, ps.last().0, ps.last().1);
        kept_tokens(v, ps.drop_last()) + (if t.len() > 0 {
            seq![t]
        } else {
            seq![]
        })
    }
}

/// The comma-separated list items of a header value, trimmed, with empty
/// items dropped.
pub open spec fn comma_tokens(v: Seq<char>) -> Seq<Seq<char>> {
    kept_tokens(v, split_ranges(v, ',', 0, v.len() as int))
}

/// Some comma-separated item of `header`, trimmed, equals `token` ignoring
/// ASCII case.
pub open spec fn token_listed(header: Seq<char>, token: Seq<char>) -> bool {
    let ps = split_ranges(header, ',', 0, header.len() as int);
    exists|k: int| 0 <= k < ps.len() && #[trigger] lower(trimmed(header, ps[k].0, ps[k].1)) == lower(token)
}

/// The value of a decimal digit string.
pub open spec fn digits_value(s: Seq<char>) -> nat
    decreases s.len(),
{
    if s.len() == 0 {
        0
    } else {
        digits_value(s.drop_last()) * 10 + (s.last() as nat - 48) as nat
    }
}

/// Every character is an ASCII digit.
pub open spec fn all_digits(s: Seq<char>) -> bool {
    forall|i: int| 0 <= i < s.len() ==> '0' <= #[trigger] s[i] && s[i] <= '9'
}

/// `u16::from_str`: an optional `+` and one or more ASCII digits whose value
/// fits in 16 bits.
pub open spec fn parse_u16_spec(s: Seq<char>) -> Option<u16> {
    let d = if s.len() > 0 && s[0] == '+' {
        s.drop_first()
    } else {
        s
    };
    if d.len() > 0 && all_digits(d) && digits_value(d) <= 65535 {
        Some(digits_value(d) as u16)
    } else {
        None
    }
}

/// A complete request block is acceptable: a start line with at least
/// three tokens, `GET` and `HTTP/1.1`, well-formed headers with `host`.
pub open spec fn request_valid(cs: Seq<char>) -> bool {
    let t = start_tokens(cs);
    &&& t.len() >= 3
    &&& range_text(cs, t[0]) == "GET"@
    &&& range_text(cs, t[2]) == "HTTP/1.1"@
    &&& head_headers(cs) matches Some(h) && h.contains_key("host"@)
}

/// The request-target of a valid request block.
pub open spec fn parsed_path(cs: Seq<char>) -> Seq<char> {
    range_text(cs, start_tokens(cs)[1])
}

/// The `Sec-WebSocket-Key` text of a valid request block (empty when absent).
pub open spec fn parsed_key(cs: Seq<char>) -> Seq<char> {
    value_or_empty(head_headers(cs).unwrap(), "sec-websocket-key"@)
}

/// The subprotocols a valid request block offers, in order.
pub open spec fn parsed_protocols(cs: Seq<char>) -> Seq<Seq<char>> {
    let h = head_headers(cs).unwrap();
    if h.contains_key("sec-websocket-protocol"@) {
        comma_tokens(h["sec-websocket-protocol"@])
    } else {
        seq![]
    }
}

/// The fields of a parsed request are those of the header block `cs`.
pub open spec fn request_matches(req: HandshakeRequest, cs: Seq<char>) -> bool {
    let h = head_headers(cs).unwrap();
    &&& req.path@ == parsed_path(cs)
    &&& req.host@ == h["host"@]
    &&& req.key@ == parsed_key(cs)
    &&& strs(req.protocols@) == parsed_protocols(cs)
    &&& opt_text(req.origin) == value_opt(h, "origin"@)
    &&& req.headers@ == h
}

/// Why a complete UTF-8 request block is refused: the first failing check
/// of the start line, the header lines and the `Host` header.
pub open spec fn request_error_text(cs: Seq<char>) -> Seq<char> {
    let t = start_tokens(cs);
    if t.len() < 3 {
        "malformed request line"@
    } else if range_text(cs, t[0]) != "GET"@ {
        "WebSocket upgrade requires GET, got '"@ + range_text(cs, t[0]) + "'"@
    } else if range_text(cs, t[2]) != "HTTP/1.1"@ {
        "WebSocket upgrade requires HTTP/1.1, got '"@ + range_text(cs, t[2]) + "'"@
    } else if head_headers(cs) is None {
        header_error_text(cs)
    } else {
        "missing Host header"@
    }
}

/// A complete response block is acceptable: a status line with at least two
/// tokens, the second a 16-bit number, and well-formed headers.
pub open spec fn response_valid(cs: Seq<char>) -> bool {
    let t = start_tokens(cs);
    &&& t.len() >= 2
    &&& parse_u16_spec(range_text(cs, t[1])) is Some
    &&& head_headers(cs) is Some
}

/// The status code of a valid response block.
pub open spec fn parsed_status(cs: Seq<char>) -> u16 {
    parse_u16_spec(range_text(cs, start_tokens(cs)[1])).unwrap()
}

/// The `Sec-WebSocket-Accept` text of a valid response block (empty when absent).
pub open spec fn parsed_accept(cs: Seq<char>) -> Seq<char> {
    value_or_empty(head_headers(cs).unwrap(), "sec-websocket-accept"@)
}

/// The `Sec-WebSocket-Protocol` text of a valid response block, if present.
pub open spec fn parsed_protocol(cs: Seq<char>) -> Option<Seq<char>> {
    value_opt(head_headers(cs).unwrap(), "sec-websocket-protocol"@)
}

/// Why a complete UTF-8 response block is refused.
pub open spec fn response_error_text(cs: Seq<char>) -> Seq<char> {
    let t = start_tokens(cs);
    if t.len() < 2 {
        "malformed status line"@
    } else if parse_u16_spec(range_text(cs, t[1])) is None {
        "invalid HTTP status code"@
    } else {
        header_error_text(cs)
    }
}

/// The fields of a parsed response are those of the header block `cs`.
pub open spec fn response_matches(resp: WsHandshakeResponse, cs: Seq<char>) -> bool {
    &&& resp.status == parsed_status(cs)
    &&& resp.accept@ == parsed_accept(cs)
    &&& opt_text(resp.protocol) == parsed_protocol(cs)
    &&& resp.headers@ == head_headers(cs).unwrap()
}

// ---------------------------------------------------------------------------
// Shape lemmas for the scanners
// ---------------------------------------------------------------------------

proof fn lemma_lines_shape(cs: Seq<char>, i: int, start: int)
    requires
        0 <= start <= i <= cs.len(),
    ensures
        lines_from(cs, i, start).len() >= 1,
        forall|k: int| 0 <= k < lines_from(cs, i, start).len() ==> 0 <= #[trigger] lines_from(cs, i, start)[k].0
            <= lines_from(cs, i, start)[k].1 <= cs.len(),
    decreases cs.len() - i,
{
    if i >= cs.len() {
    } else if i + 1 < cs.len() && cs[i] == '\r' && cs[i + 1] == '\n' {
        lemma_lines_shape(cs, i + 2, i + 2);
        let rest = lines_from(cs, i + 2, i + 2);
        assert forall|k: int| 0 <= k < lines_from(cs, i, start).len() implies 0 <= #[trigger] lines_from(cs, i, start)[k].0
            <= lines_from(cs, i, start)[k].1 <= cs.len() by {
            if k > 0 {
                assert(lines_from(cs, i, start)[k] == rest[k - 1]);
            }
        }
    } else {
        lemma_lines_shape(cs, i + 1, start);
    }
}

proof fn lemma_tokens_shape(cs: Seq<char>, hi: int, i: int, start: int, lb: int)
    requires
        0 <= lb <= i <= hi <= cs.len(),
        start < 0 || lb <= start <= i,
    ensures
        forall|k: int| 0 <= k < tokens_from(cs, hi, i, start).len() ==> lb <= #[trigger] tokens_from(cs, hi, i, start)[k].0
            <= tokens_from(cs, hi, i, start)[k].1 <= hi,
    decreases hi - i,
{
    let t = tokens_from(cs, hi, i, start);
    if i >= hi {
    } else if crate::http_text::is_ws(cs[i]) {
        lemma_tokens_shape(cs, hi, i + 1, -1, lb);
        let rest = tokens_from(cs, hi, i + 1, -1);
        if start >= 0 {
            assert(t == seq![(start, i)] + rest);
            assert forall|k: int| 0 <= k < t.len() implies lb <= #[trigger] t[k].0 <= t[k].1 <= hi by {
                if k > 0 {
                    assert(t[k] == rest[k - 1]);
                }
            }
        } else {
            assert(t == rest);
        }
    } else {
        let s2 = if start >= 0 { start } else { i };
        lemma_tokens_shape(cs, hi, i + 1, s2, lb);
        assert(t == tokens_from(cs, hi, i + 1, s2));
    }
}

proof fn lemma_pieces_shape(cs: Seq<char>, sep: char, hi: int, i: int, start: int)
    requires
        0 <= start <= i <= hi <= cs.len(),
    ensures
        forall|k: int| 0 <= k < pieces_from(cs, sep, hi, i, start).len() ==> start <= #[trigger] pieces_from(cs, sep, hi, i, start)[k].0
            <= pieces_from(cs, sep, hi, i, start)[k].1 <= hi,
    decreases hi - i,
{
    let t = pieces_from(cs, sep, hi, i, start);
    if i >= hi {
        assert(t == seq![(start, hi)]);
    } else if cs[i] == sep {
        lemma_pieces_shape(cs, sep, hi, i + 1, i + 1);
        let rest = pieces_from(cs, sep, hi, i + 1, i + 1);
        assert(t == seq![(start, i)] + rest);
        assert forall|k: int| 0 <= k < t.len() implies start <= #[trigger] t[k].0 <= t[k].1 <= hi by {
            if k > 0 {
                assert(t[k] == rest[k - 1]);
            }
        }
    } else {
        lemma_pieces_shape(cs, sep, hi, i + 1, start);
        assert(t == pieces_from(cs, sep, hi, i + 1, start));
    }
}

// ---------------------------------------------------------------------------
// Parsing helpers
// ---------------------------------------------------------------------------

/// Position of the first CR LF CR LF in `buf`.
fn find_header_end(buf: &[u8]) -> (r: Option<usize>)
    ensures
        match r {
            Some(e) => header_end(buf@) == Some(e as int) && e + 4 <= buf@.len() && e <= usize::MAX - 4,
            None => header_end(buf@) is None,
        },
{
    let n = buf.len();
    if n < 4 {
        return None;
    }
    let mut i: usize = 0;
    while i <= n - 4
        invariant
            n == buf@.len(),
            n >= 4,
            header_end_from(buf@, i as int) == header_end(buf@),
        decreases n - i,
    {
        if buf[i] == 13 && buf[i + 1] == 10 && buf[i + 2] == 13 && buf[i + 3] == 10 {
            return Some(i);
        }
        i = i + 1;
    }
    None
}

/// A handshake error whose message is `prefix`, `detail` and `suffix`.
fn handshake_error3(prefix: &str, detail: &str, suffix: &str) -> (e: WsError)
    ensures
        e matches WsError::Handshake(m) && m@ == prefix@ + detail@ + suffix@,
{
    let mut m = String::from_str(prefix);
    m.append(detail);
    m.append(suffix);
    WsError::Handshake(m)
}

/// Parses the header lines `lines[1..]` of the block `cs`.
fn parse_headers(cs: &[char], lines: &[(usize, usize)]) -> (r: WsResult<HeaderMap>)
    requires
        forall|k: int| 0 <= k < lines@.len() ==> #[trigger] lines@[k].0 <= lines@[k].1 <= cs@.len(),
    ensures
        match header_fold(cs@, int_pairs(lines@), 1, Map::empty()) {
            Some(m) => r matches Ok(h) && h@ == m,
            None => r matches Err(WsError::Handshake(msg)) && msg@ == "malformed header line: "@
                + bad_header_line(cs@, int_pairs(lines@), 1).unwrap(),
        },
{
    let ghost ls = int_pairs(lines@);
    proof {
        lemma_fold_fails(cs@, ls, 1, Map::empty());
    }
    let mut h = HeaderMap::new();
    let mut k: usize = 1;
    while k < lines.len()
        invariant
            ls == int_pairs(lines@),
            1 <= k,
            forall|j: int| 0 <= j < lines@.len() ==> #[trigger] lines@[j].0 <= lines@[j].1 <= cs@.len(),
            header_fold(cs@, ls, k as int, h@) == header_fold(cs@, ls, 1, Map::empty()),
            bad_header_line(cs@, ls, k as int) == bad_header_line(cs@, ls, 1),
        decreases lines@.len() - k,
    {
        let (lo, hi) = lines[k];
        proof {
            assert(ls[k as int] == (lo as int, hi as int));
        }
        if lo >= hi {
            return Ok(h);
        }
        match find_in(cs, ':', lo, hi) {
            None => {
                let line = range_string(cs, lo, hi);
                proof {
                    reveal_strlit("");
                    assert("malformed header line: "@ + line@ + ""@ =~= "malformed header line: "@ + line@);
                }
                return Err(handshake_error3("malformed header line: ", line.as_str(), ""));
            },
            Some(c) => {
                let (a, b) = trim_range(cs, lo, c);
                let name = lower_string(cs, a, b);
                let (va, vb) = trim_range(cs, c + 1, hi);
                let value = range_string(cs, va, vb);
                h.append_value(name, value);
            },
        }
        k = k + 1;
    }
    Ok(h)
}

/// The non-empty trimmed comma-separated items of `value`.
fn split_tokens(value: &str) -> (r: Vec<String>)
    ensures
        strs(r@) == comma_tokens(value@),
{
    let cs = str_chars(value);
    let ps = split_on(cs.as_slice(), ',', 0, cs.len());
    proof {
        lemma_pieces_shape(cs@, ',', cs@.len() as int, 0, 0);
    }
    let ghost all = int_pairs(ps@);
    let mut out: Vec<String> = Vec::new();
    let mut k: usize = 0;
    while k < ps.len()
        invariant
            all == int_pairs(ps@),
            all == split_ranges(cs@, ',', 0, cs@.len() as int),
            cs@ == value@,
            k <= ps@.len(),
            forall|j: int| 0 <= j < all.len() ==> 0 <= #[trigger] all[j].0 <= all[j].1 <= cs@.len(),
            strs(out@) == kept_tokens(cs@, all.subrange(0, k as int)),
        decreases ps@.len() - k,
    {
        let (lo, hi) = ps[k];
        proof {
            assert(all[k as int] == (lo as int, hi as int));
            assert(all.subrange(0, k + 1).drop_last() =~= all.subrange(0, k as int));
            assert(all.subrange(0, k + 1).last() == all[k as int]);
        }
        let (a, b) = trim_range(cs.as_slice(), lo, hi);
        if a < b {
            let t = range_string(cs.as_slice(), a, b);
            let ghost before = out@;
            out.push(t);
            proof {
                assert(strs(out@) =~= strs(before) + seq![t@]);
            }
        } else {
            proof {
                assert(strs(out@) =~= strs(out@) + Seq::<Seq<char>>::empty());
            }
        }
        k = k + 1;
    }
    proof {
        assert(all.subrange(0, ps@.len() as int) =~= all);
    }
    out
}

proof fn lemma_digits_monotone(s: Seq<char>, i: int)
    requires
        all_digits(s),
        0 <= i <= s.len(),
    ensures
        digits_value(s.subrange(0, i)) <= digits_value(s),
    decreases s.len() - i,
{
    if i < s.len() {
        lemma_digits_monotone(s, i + 1);
        let p = s.subrange(0, i + 1);
        assert(p.drop_last() =~= s.subrange(0, i));
        assert('0' <= s[i] && s[i] <= '9');
    } else {
        assert(s.subrange(0, i) =~= s);
    }
}

/// Parses `cs[lo..hi]` as a `u16` (see [`parse_u16_spec`]).
fn parse_u16(cs: &[char], lo: usize, hi: usize) -> (r: Option<u16>)
    requires
        lo <= hi <= cs@.len(),
    ensures
        r == parse_u16_spec(cs@.subrange(lo as int, hi as int)),
{
    let ghost s = cs@.subrange(lo as int, hi as int);
    let mut i = lo;
    if i < hi && cs[i] == '+' {
        i = i + 1;
    }
    let ghost d = cs@.subrange(i as int, hi as int);
    proof {
        if s.len() > 0 {
            assert(s[0] == cs@[lo as int]);
        }
        if s.len() > 0 && s[0] == '+' {
            assert(d =~= s.drop_first());
        } else {
            assert(d =~= s);
        }
    }
    if i >= hi {
        return None;
    }
    let start = i;
    let mut acc: u32 = 0;
    while i < hi
        invariant
            lo <= start <= i <= hi <= cs@.len(),
            start < hi,
            d == cs@.subrange(start as int, hi as int),
            s == cs@.subrange(lo as int, hi as int),
            s.len() > 0 && s[0] == '+' ==> d == s.drop_first(),
            !(s.len() > 0 && s[0] == '+') ==> d == s,
            all_digits(cs@.subrange(start as int, i as int)),
            acc == digits_value(cs@.subrange(start as int, i as int)),
            acc <= 65535,
        decreases hi - i,
    {
        let c = cs[i];
        if c < '0' || c > '9' {
            proof {
                assert(d[i - start] == c);
            }
            return None;
        }
        let digit = (c as u32) - 48;
        let next = acc * 10 + digit;
        proof {
            let p = cs@.subrange(start as int, i + 1);
            assert(p.drop_last() =~= cs@.subrange(start as int, i as int));
            assert(p.last() == c);
            assert(digits_value(p) == acc * 10 + digit);
            assert(all_digits(p));
        }
        if next > 65535 {
            proof {
                let p = cs@.subrange(start as int, i + 1);
                if all_digits(d) {
                    assert(d.subrange(0, i + 1 - start) =~= p);
                    lemma_digits_monotone(d, i + 1 - start);
                }
            }
            return None;
        }
        acc = next;
        i = i + 1;
    }
    proof {
        assert(d =~= cs@.subrange(start as int, i as int));
    }
    Some(acc as u16)
}

/// The value of `name` in `h`, or the empty string.
pub(crate) fn value_or_default(h: &HeaderMap, name: &str) -> (r: String)
    ensures
        r@ == value_or_empty(h@, name@),
{
    match h.get(name) {
        Some(v) => v.clone(),
        None => String::new(),
    }
}

/// The value of `name` in `h`, if present.
fn value_cloned(h: &HeaderMap, name: &str) -> (r: Option<String>)
    ensures
        opt_text(r) == value_opt(h@, name@),
{
    match h.get(name) {
        Some(v) => Some(v.clone()),
        None => None,
    }
}

/// `cs` are the characters of the header block `buf[..end]`, `ls` its line
/// ranges and `ts` the token ranges of its start line.
pub open spec fn scanned(cs: Seq<char>, ls: Seq<(usize, usize)>, ts: Seq<(usize, usize)>, buf: Seq<u8>, end: int) -> bool {
    &&& cs == head_chars(buf, end)
    &&& int_pairs(ls) == line_ranges(cs)
    &&& int_pairs(ts) == start_tokens(cs)
    &&& forall|k: int| 0 <= k < ls.len() ==> #[trigger] ls[k].0 <= ls[k].1 <= cs.len()
    &&& forall|k: int| 0 <= k < ts.len() ==> #[trigger] ts[k].0 <= ts[k].1 <= cs.len()
}

/// Splits a complete, UTF-8 checked header block into characters, lines and
/// start-line tokens.
fn scan_head(buf: &[u8], end: usize, utf8_message: &str) -> (r: WsResult<(Vec<char>, Vec<(usize, usize)>, Vec<(usize, usize)>)>)
    requires
        end <= buf@.len(),
    ensures
        !valid_utf8(buf@.subrange(0, end as int)) ==> (r matches Err(WsError::Handshake(m)) && m@ == utf8_message@),
        valid_utf8(buf@.subrange(0, end as int)) ==> r is Ok,
        r is Ok ==> scanned(r->Ok_0.0@, r->Ok_0.1@, r->Ok_0.2@, buf@, end as int),
{
    let block = vstd::slice::slice_subrange(buf, 0, end);
    if validate_utf8(block).is_err() {
        return Err(WsError::handshake(utf8_message));
    }
    let text = string_from_utf8(vstd::slice::slice_to_vec(block));
    let cs = str_chars(text.as_str());
    let ls = split_lines(cs.as_slice());
    proof {
        lemma_lines_shape(cs@, 0, 0);
        assert forall|k: int| 0 <= k < ls@.len() implies #[trigger] ls@[k].0 <= ls@[k].1 <= cs@.len() by {
            assert(int_pairs(ls@)[k] == (ls@[k].0 as int, ls@[k].1 as int));
        }
        assert(int_pairs(ls@)[0] == (ls@[0].0 as int, ls@[0].1 as int));
    }
    let (l0, l1) = ls[0];
    let ts = split_ws(cs.as_slice(), l0, l1);
    proof {
        lemma_tokens_shape(cs@, l1 as int, l0 as int, -1, 0);
        assert forall|k: int| 0 <= k < ts@.len() implies #[trigger] ts@[k].0 <= ts@[k].1 <= cs@.len() by {
            assert(int_pairs(ts@)[k] == (ts@[k].0 as int, ts@[k].1 as int));
        }
    }
    proof {
        assert(cs@ =~= head_chars(buf@, end as int));
        assert(int_pairs(ls@) =~= line_ranges(cs@));
        assert(int_pairs(ts@) =~= start_tokens(cs@));
    }
    assert(cs@ == head_chars(buf@, end as int));
    assert(int_pairs(ls@) == line_ranges(cs@));
    assert(int_pairs(ts@) == start_tokens(cs@));
    assert(forall|k: int| 0 <= k < ls@.len() ==> #[trigger] ls@[k].0 <= ls@[k].1 <= cs@.len());
    assert(forall|k: int| 0 <= k < ts@.len() ==> #[trigger] ts@[k].0 <= ts@[k].1 <= cs@.len());
    assert(scanned(cs@, ls@, ts@, buf@, end as int));
    Ok((cs, ls, ts))
}

// ---------------------------------------------------------------------------
// Parsed messages
// ---------------------------------------------------------------------------

/// Parsed client opening-handshake request.
#[derive(Debug, Clone)]
pub struct HandshakeRequest {
    /// Request-target path (e.g. `"/chat"`).
    pub path: String,
    /// `Host` header value.
    pub host: String,
    /// Raw Base64 `Sec-WebSocket-Key`.
    pub key: String,
    /// Requested subprotocols, in preference order.
    pub protocols: Vec<String>,
    /// Optional `Origin` header.
    pub origin: Option<String>,
    /// All headers (lower-cased names) for extension inspection.
    pub headers: HeaderMap,
}

/// Parsed server opening-handshake response.
#[derive(Debug, Clone)]
pub struct WsHandshakeResponse {
    /// HTTP status code (must be 101 for success).
    pub status: u16,
    /// `Sec-WebSocket-Accept` value.
    pub accept: String,
    /// Selected subprotocol, if any.
    pub protocol: Option<String>,
    /// All headers (lower-cased names).
    pub headers: HeaderMap,
}

/// Parses an HTTP request from `buf`.
///
/// Returns `Ok(None)` while the header block (ending in CR LF CR LF) is
/// incomplete; otherwise the request and the number of bytes it used,
/// header block and terminator included.
pub fn try_parse_request(buf: &[u8]) -> (r: WsResult<Option<(HandshakeRequest, usize)>>)
    ensures
        header_end(buf@) is None ==> r matches Ok(None),
        header_end(buf@) matches Some(e) ==> {
            &&& r is Err ==> (r matches Err(WsError::Handshake(m)) && m@ == if valid_utf8(buf@.subrange(0, e)) {
                request_error_text(head_chars(buf@, e))
            } else {
                "request headers are not valid UTF-8"@
            })
            &&& r is Ok <==> (valid_utf8(buf@.subrange(0, e)) && request_valid(head_chars(buf@, e)))
            &&& r is Ok ==> (r matches Ok(Some((req, used))) && used == e + 4
                && request_matches(req, head_chars(buf@, e)))
        },
{
    let end = match find_header_end(buf) {
        Some(e) => e,
        None => {
            return Ok(None);
        },
    };
    let (cs, ls, ts) = scan_head(buf, end, "request headers are not valid UTF-8")?;
    let ghost t = int_pairs(ts@);
    if ts.len() < 3 {
        return Err(WsError::handshake("malformed request line"));
    }
    proof {
        assert(t[0] == (ts@[0].0 as int, ts@[0].1 as int));
        assert(t[1] == (ts@[1].0 as int, ts@[1].1 as int));
        assert(t[2] == (ts@[2].0 as int, ts@[2].1 as int));
    }
    let (m0, m1) = ts[0];
    if !range_eq(cs.as_slice(), m0, m1, "GET") {
        let method = range_string(cs.as_slice(), m0, m1);
        return Err(handshake_error3("WebSocket upgrade requires GET, got '", method.as_str(), "'"));
    }
    let (v0, v1) = ts[2];
    if !range_eq(cs.as_slice(), v0, v1, "HTTP/1.1") {
        let version = range_string(cs.as_slice(), v0, v1);
        return Err(handshake_error3("WebSocket upgrade requires HTTP/1.1, got '", version.as_str(), "'"));
    }
    let headers = parse_headers(cs.as_slice(), ls.as_slice())?;
    let host = match headers.get("host") {
        Some(v) => v.clone(),
        None => {
            return Err(WsError::handshake("missing Host header"));
        },
    };
    let key = value_or_default(&headers, "sec-websocket-key");
    let protocols = match headers.get("sec-websocket-protocol") {
        Some(v) => split_tokens(v.as_str()),
        None => {
            let none: Vec<String> = Vec::new();
            proof {
                assert(strs(none@) =~= Seq::<Seq<char>>::empty());
            }
            none
        },
    };
    let origin = value_cloned(&headers, "origin");
    let (p0, p1) = ts[1];
    let path = range_string(cs.as_slice(), p0, p1);
    let req = HandshakeRequest { path, host, key, protocols, origin, headers };
    Ok(Some((req, end + 4)))
}

/// Parses an HTTP response from `buf`.
///
/// Returns `Ok(None)` while the header block is incomplete; otherwise the
/// response and the number of bytes it used.
pub fn try_parse_response(buf: &[u8]) -> (r: WsResult<Option<(WsHandshakeResponse, usize)>>)
    ensures
        header_end(buf@) is None ==> r matches Ok(None),
        header_end(buf@) matches Some(e) ==> {
            &&& r is Err ==> (r matches Err(WsError::Handshake(m)) && m@ == if valid_utf8(buf@.subrange(0, e)) {
                response_error_text(head_chars(buf@, e))
            } else {
                "response headers are not valid UTF-8"@
            })
            &&& r is Ok <==> (valid_utf8(buf@.subrange(0, e)) && response_valid(head_chars(buf@, e)))
            &&& r is Ok ==> (r matches Ok(Some((resp, used))) && used == e + 4
                && response_matches(resp, head_chars(buf@, e)))
        },
{
    let end = match find_header_end(buf) {
        Some(e) => e,
        None => {
            return Ok(None);
        },
    };
    let (cs, ls, ts) = scan_head(buf, end, "response headers are not valid UTF-8")?;
    let ghost t = int_pairs(ts@);
    if ts.len() < 2 {
        return Err(WsError::handshake("malformed status line"));
    }
    proof {
        assert(t[1] == (ts@[1].0 as int, ts@[1].1 as int));
    }
    let (s0, s1) = ts[1];
    let status = match parse_u16(cs.as_slice(), s0, s1) {
        Some(v) => v,
        None => {
            return Err(WsError::handshake("invalid HTTP status code"));
        },
    };
    let headers = parse_headers(cs.as_slice(), ls.as_slice())?;
    let accept = value_or_default(&headers, "sec-websocket-accept");
    let protocol = value_cloned(&headers, "sec-websocket-protocol");
    Ok(Some((WsHandshakeResponse { status, accept, protocol, headers }, end + 4)))
}

// ---------------------------------------------------------------------------
// Shared checks
// ---------------------------------------------------------------------------

/// `a` equals `b` ignoring ASCII case.
pub(crate) fn eq_ignore_ascii_case(a: &str, b: &str) -> (r: bool)
    ensures
        r == eq_ignore_case(a@, b@),
{
    let ca = str_chars(a);
    let cb = str_chars(b);
    eq_ignore_ascii_case_chars(ca.as_slice(), cb.as_slice())
}

/// Some comma-separated item of `header`, trimmed, equals `token` ignoring
/// ASCII case.
fn header_token_contains(header: &str, token: &str) -> (r: bool)
    ensures
        r == token_listed(header@, token@),
{
    let cs = str_chars(header);
    let tk = str_chars(token);
    let ps = split_on(cs.as_slice(), ',', 0, cs.len());
    let ghost all = int_pairs(ps@);
    proof {
        lemma_pieces_shape(cs@, ',', cs@.len() as int, 0, 0);
    }
    let mut k: usize = 0;
    while k < ps.len()
        invariant
            all == int_pairs(ps@),
            all == split_ranges(cs@, ',', 0, cs@.len() as int),
            cs@ == header@,
            tk@ == token@,
            k <= ps@.len(),
            forall|j: int| 0 <= j < all.len() ==> 0 <= #[trigger] all[j].0 <= all[j].1 <= cs@.len(),
            forall|j: int| 0 <= j < k ==> #[trigger] lower(trimmed(cs@, all[j].0, all[j].1)) != lower(tk@),
        decreases ps@.len() - k,
    {
        let (lo, hi) = ps[k];
        proof {
            assert(all[k as int] == (lo as int, hi as int));
        }
        let (a, b) = trim_range(cs.as_slice(), lo, hi);
        let piece = vstd::slice::slice_subrange(cs.as_slice(), a, b);
        if eq_ignore_ascii_case_chars(piece, tk.as_slice()) {
            proof {
                assert(lower(trimmed(cs@, all[k as int].0, all[k as int].1)) == lower(tk@));
            }
            return true;
        }
        k = k + 1;
    }
    false
}

/// The text of `v` trimmed of surrounding whitespace.
pub open spec fn trimmed_all(v: Seq<char>) -> Seq<char> {
    trimmed(v, 0, v.len() as int)
}

/// Whether the text of `v` is empty once trimmed.
fn trims_to_empty(v: &str) -> (r: bool)
    ensures
        r == (trimmed_all(v@).len() == 0),
{
    let cs = str_chars(v);
    let (a, b) = trim_range(cs.as_slice(), 0, cs.len());
    a == b
}

/// Whether some string of `v` equals `s`.
fn contains_str(v: &Vec<String>, s: &str) -> (r: bool)
    ensures
        r == strs(v@).contains(s@),
{
    let mut i: usize = 0;
    while i < v.len()
        invariant
            i <= v@.len(),
            forall|j: int| 0 <= j < i ==> v@[j]@ != s@,
        decreases v@.len() - i,
    {
        if str_eq(v[i].as_str(), s) {
            proof {
                assert(strs(v@)[i as int] == s@);
            }
            return true;
        }
        i = i + 1;
    }
    proof {
        if strs(v@).contains(s@) {
            let j = choose|j: int| 0 <= j < strs(v@).len() && strs(v@)[j] == s@;
            assert(v@[j]@ == s@);
        }
    }
    false
}

// ---------------------------------------------------------------------------
// Client side
// ---------------------------------------------------------------------------

/// The texts of `ps` joined with `", "`.
pub open spec fn join_comma(ps: Seq<Seq<char>>) -> Seq<char>
    decreases ps.len(),
{
    if ps.len() == 0 {
        seq![]
    } else if ps.len() == 1 {
        ps[0]
    } else {
        join_comma(ps.drop_last()) + comma_space() + ps.last()
    }
}

/// The HTTP Upgrade request text of a client handshake.
pub open spec fn request_text(
    path: Seq<char>,
    host: Seq<char>,
    key: Seq<char>,
    origin: Option<Seq<char>>,
    protocols: Seq<Seq<char>>,
) -> Seq<char> {
    "GET "@ + path + " HTTP/1.1\r\n"@ + "Host: "@ + host + "\r\n"@ + "Upgrade: websocket\r\n"@
        + "Connection: Upgrade\r\n"@ + "Sec-WebSocket-Key: "@ + key + "\r\n"@ + "Sec-WebSocket-Version: "@
        + decimal_chars(VERSION as nat) + "\r\n"@ + (match origin {
        Some(o) => "Origin: "@ + o + "\r\n"@,
        None => seq![],
    }) + (if protocols.len() > 0 {
        "Sec-WebSocket-Protocol: "@ + join_comma(protocols) + "\r\n"@
    } else {
        seq![]
    }) + "\r\n"@
}

/// Client-side handshake builder / validator.
#[derive(Debug, Clone)]
pub struct WsClientHandshake {
    /// Request-target path.
    pub path: String,
    /// `Host` header.
    pub host: String,
    /// Raw 16-byte nonce (before Base64).
    pub nonce: [u8; 16],
    /// Base64-encoded key sent on the wire.
    pub key_b64: String,
    /// Expected `Sec-WebSocket-Accept`.
    pub expected_accept: String,
    /// Offered subprotocols.
    pub protocols: Vec<String>,
    /// Optional `Origin`.
    pub origin: Option<String>,
    /// Selected subprotocol after a successful response.
    pub selected_protocol: Option<String>,
}

/// The checks of a server response that come before the subprotocol: status
/// 101, `Upgrade: websocket`, `Connection` listing `Upgrade`, and the
/// expected `Sec-WebSocket-Accept` (ASCII case ignored).
pub open spec fn response_basics_ok(hs: WsClientHandshake, status: u16, accept: Seq<char>, h: Map<Seq<char>, Seq<char>>) -> bool {
    &&& status == 101
    &&& eq_ignore_case(value_or_empty(h, "upgrade"@), "websocket"@)
    &&& token_listed(value_or_empty(h, "connection"@), "Upgrade"@)
    &&& eq_ignore_case(accept, hs.expected_accept@)
}

/// The subprotocol answer is acceptable: an offered one, or none at all
/// (no `Sec-WebSocket-Protocol` header).
pub open spec fn response_protocol_ok(hs: WsClientHandshake, protocol: Option<Seq<char>>, h: Map<Seq<char>, Seq<char>>) -> bool {
    match protocol {
        Some(p) => strs(hs.protocols@).contains(p),
        None => !h.contains_key("sec-websocket-protocol"@),
    }
}

/// No extension was selected (the header is absent or blank).
pub open spec fn response_extensions_ok(h: Map<Seq<char>, Seq<char>>) -> bool {
    !(h.contains_key("sec-websocket-extensions"@) && trimmed_all(h["sec-websocket-extensions"@]).len() > 0)
}

/// A response with these parts passes every check of `hs`.
pub open spec fn response_accepted(
    hs: WsClientHandshake,
    status: u16,
    accept: Seq<char>,
    protocol: Option<Seq<char>>,
    h: Map<Seq<char>, Seq<char>>,
) -> bool {
    response_basics_ok(hs, status, accept, h) && response_protocol_ok(hs, protocol, h) && response_extensions_ok(h)
}

/// Why a response with these parts is refused: the first failing check.
pub open spec fn response_rejection(
    hs: WsClientHandshake,
    status: u16,
    accept: Seq<char>,
    protocol: Option<Seq<char>>,
    h: Map<Seq<char>, Seq<char>>,
) -> Seq<char> {
    let ext = "server selected unoffered extension '"@ + value_or_empty(h, "sec-websocket-extensions"@) + "'"@;
    if status != 101 {
        "expected 101 Switching Protocols, got "@ + decimal_chars(status as nat)
    } else if !eq_ignore_case(value_or_empty(h, "upgrade"@), "websocket"@) {
        "response missing Upgrade: websocket"@
    } else if !token_listed(value_or_empty(h, "connection"@), "Upgrade"@) {
        "response missing Connection: Upgrade"@
    } else if !eq_ignore_case(accept, hs.expected_accept@) {
        "Sec-WebSocket-Accept mismatch"@
    } else {
        match protocol {
            Some(p) => if !strs(hs.protocols@).contains(p) {
                "server selected unoffered subprotocol '"@ + p + "'"@
            } else {
                ext
            },
            None => if h.contains_key("sec-websocket-protocol"@) {
                "empty Sec-WebSocket-Protocol in response"@
            } else {
                ext
            },
        }
    }
}

/// The subprotocol that validating a response with these parts records:
/// the response's when the checks before it pass and it was offered,
/// otherwise the one recorded before.
pub open spec fn protocol_after(
    hs: WsClientHandshake,
    status: u16,
    accept: Seq<char>,
    protocol: Option<Seq<char>>,
    h: Map<Seq<char>, Seq<char>>,
) -> Option<Seq<char>> {
    if response_basics_ok(hs, status, accept, h) && protocol is Some && response_protocol_ok(hs, protocol, h) {
        protocol
    } else {
        opt_text(hs.selected_protocol)
    }
}

impl WsClientHandshake {
    /// Builds a client handshake for `path` on `host` with a fresh random
    /// key; `protocols` are offered in order. The path must be non-empty and
    /// begin with `/`.
    pub fn new(path: &str, host: &str, protocols: Vec<String>, origin: Option<String>) -> (r: WsResult<WsClientHandshake>)
        ensures
            !(path@.len() > 0 && path@[0] == '/') ==> (r matches Err(WsError::Handshake(m))
                && m@ == "request path must be non-empty and begin with '/'"@),
            path@.len() > 0 && path@[0] == '/' ==> (r is Ok || r == Err::<WsClientHandshake, WsError>(WsError::RandomFailed)),
            r matches Ok(hs) ==> {
                &&& hs.path@ == path@
                &&& hs.host@ == host@
                &&& hs.key_b64@ == ascii_chars(b64_encode(hs.nonce@))
                &&& hs.expected_accept@ == accept_for(hs.key_b64@)
                &&& hs.protocols == protocols
                &&& hs.origin == origin
                &&& hs.selected_protocol is None
            },
    {
        if path.unicode_len() == 0 || path.get_char(0) != '/' {
            return Err(WsError::handshake("request path must be non-empty and begin with '/'"));
        }
        let nonce = generate_key_nonce()?;
        Self::with_nonce(path, host, protocols, origin, nonce)
    }

    /// Builds a client handshake whose key is the Base64 of `nonce` (see
    /// [`WsClientHandshake::new`], which draws the nonce at random).
    pub fn with_nonce(
        path: &str,
        host: &str,
        protocols: Vec<String>,
        origin: Option<String>,
        nonce: [u8; 16],
    ) -> (r: WsResult<WsClientHandshake>)
        ensures
            !(path@.len() > 0 && path@[0] == '/') ==> (r matches Err(WsError::Handshake(m))
                && m@ == "request path must be non-empty and begin with '/'"@),
            path@.len() > 0 && path@[0] == '/' ==> (r matches Ok(hs) && {
                &&& hs.path@ == path@
                &&& hs.host@ == host@
                &&& hs.nonce == nonce
                &&& hs.key_b64@ == ascii_chars(b64_encode(nonce@))
                &&& hs.expected_accept@ == accept_for(hs.key_b64@)
                &&& hs.protocols == protocols
                &&& hs.origin == origin
                &&& hs.selected_protocol is None
            }),
    {
        if path.unicode_len() == 0 || path.get_char(0) != '/' {
            return Err(WsError::handshake("request path must be non-empty and begin with '/'"));
        }
        let key_b64 = encode(nonce.as_slice());
        let expected_accept = compute_accept_key(key_b64.as_str());
        Ok(WsClientHandshake {
            path: String::from_str(path),
            host: String::from_str(host),
            nonce,
            key_b64,
            expected_accept,
            protocols,
            origin,
            selected_protocol: None,
        })
    }

    /// Serializes the HTTP Upgrade request.
    pub fn encode_request(&self) -> (r: Vec<u8>)
        ensures
            r@ == encode_utf8(request_text(self.path@, self.host@, self.key_b64@, opt_text(self.origin), strs(self.protocols@))),
    {
        let mut req = String::from_str("GET ");
        req.append(self.path.as_str());
        req.append(" HTTP/1.1\r\n");
        req.append("Host: ");
        req.append(self.host.as_str());
        req.append("\r\n");
        req.append("Upgrade: websocket\r\n");
        req.append("Connection: Upgrade\r\n");
        req.append("Sec-WebSocket-Key: ");
        req.append(self.key_b64.as_str());
        req.append("\r\n");
        req.append("Sec-WebSocket-Version: ");
        req.append(decimal_string(VERSION as u64).as_str());
        req.append("\r\n");
        let ghost base = req@;
        match &self.origin {
            Some(o) => {
                req.append("Origin: ");
                req.append(o.as_str());
                req.append("\r\n");
            },
            None => {},
        }
        let ghost with_origin = req@;
        proof {
            assert(with_origin == base + match opt_text(self.origin) {
                Some(o) => "Origin: "@ + o + "\r\n"@,
                None => seq![],
            });
        }
        if self.protocols.len() > 0 {
            let mut joined = String::new();
            let mut k: usize = 0;
            while k < self.protocols.len()
                invariant
                    k <= self.protocols@.len(),
                    joined@ == join_comma(strs(self.protocols@).subrange(0, k as int)),
                decreases self.protocols@.len() - k,
            {
                let ghost before = joined@;
                if k > 0 {
                    joined.append(", ");
                }
                joined.append(self.protocols[k].as_str());
                proof {
                    reveal_strlit(", ");
                    let ps = strs(self.protocols@).subrange(0, k + 1);
                    assert(ps.drop_last() =~= strs(self.protocols@).subrange(0, k as int));
                    assert(ps.last() == self.protocols@[k as int]@);
                    if k == 0 {
                        assert(joined@ =~= join_comma(ps));
                    } else {
                        assert(joined@ =~= join_comma(ps));
                    }
                }
                k = k + 1;
            }
            proof {
                assert(strs(self.protocols@).subrange(0, self.protocols@.len() as int) =~= strs(self.protocols@));
            }
            req.append("Sec-WebSocket-Protocol: ");
            req.append(joined.as_str());
            req.append("\r\n");
        }
        req.append("\r\n");
        proof {
            assert(req@ =~= request_text(self.path@, self.host@, self.key_b64@, opt_text(self.origin), strs(self.protocols@)));
        }
        vstd::slice::slice_to_vec(req.as_str().as_bytes())
    }

    /// Validates a server response against this handshake.
    ///
    /// Checks, in order: status 101, `Upgrade: websocket`, `Connection`
    /// listing `Upgrade`, the accept key, the subprotocol (an offered one is
    /// recorded as selected; an empty `Sec-WebSocket-Protocol` header is
    /// refused), and that no extension was selected. Every failure is a
    /// `Handshake` error.
    pub fn validate_response(&mut self, response: &WsHandshakeResponse) -> (r: WsResult<()>)
        ensures
            r is Ok <==> response_accepted(*old(self), response.status, response.accept@, opt_text(response.protocol),
                response.headers@),
            r is Err ==> (r matches Err(WsError::Handshake(m)) && m@ == response_rejection(*old(self), response.status,
                response.accept@, opt_text(response.protocol), response.headers@)),
            final(self).path == old(self).path,
            final(self).host == old(self).host,
            final(self).nonce == old(self).nonce,
            final(self).key_b64 == old(self).key_b64,
            final(self).expected_accept == old(self).expected_accept,
            final(self).protocols == old(self).protocols,
            final(self).origin == old(self).origin,
            opt_text(final(self).selected_protocol) == protocol_after(*old(self), response.status, response.accept@,
                opt_text(response.protocol), response.headers@),
    {
        if response.status != 101 {
            let got = decimal_string(response.status as u64);
            proof {
                reveal_strlit("");
                assert("expected 101 Switching Protocols, got "@ + got@ + ""@ =~= "expected 101 Switching Protocols, got "@ + got@);
            }
            return Err(handshake_error3("expected 101 Switching Protocols, got ", got.as_str(), ""));
        }
        let upgrade = value_or_default(&response.headers, "upgrade");
        if !eq_ignore_ascii_case(upgrade.as_str(), "websocket") {
            return Err(WsError::handshake("response missing Upgrade: websocket"));
        }
        let connection = value_or_default(&response.headers, "connection");
        if !header_token_contains(connection.as_str(), "Upgrade") {
            return Err(WsError::handshake("response missing Connection: Upgrade"));
        }
        if !eq_ignore_ascii_case(response.accept.as_str(), self.expected_accept.as_str()) {
            return Err(WsError::handshake("Sec-WebSocket-Accept mismatch"));
        }
        match &response.protocol {
            Some(proto) => {
                if !contains_str(&self.protocols, proto.as_str()) {
                    return Err(handshake_error3("server selected unoffered subprotocol '", proto.as_str(), "'"));
                }
                self.selected_protocol = Some(proto.clone());
            },
            None => {
                if response.headers.contains_key("sec-websocket-protocol") {
                    return Err(WsError::handshake("empty Sec-WebSocket-Protocol in response"));
                }
            },
        }
        match response.headers.get("sec-websocket-extensions") {
            Some(ext) => {
                if !trims_to_empty(ext.as_str()) {
                    return Err(handshake_error3("server selected unoffered extension '", ext.as_str(), "'"));
                }
            },
            None => {},
        }
        Ok(())
    }
}

// ---------------------------------------------------------------------------
// Server side
// ---------------------------------------------------------------------------

/// Server-side handshake acceptor.
#[derive(Debug, Clone)]
pub struct WsServerHandshake {
    /// Subprotocols the server is willing to select (preference order).
    pub supported_protocols: Vec<String>,
    /// Parsed request, filled after a successful `accept_request`.
    pub request: Option<HandshakeRequest>,
    /// Selected subprotocol.
    pub selected_protocol: Option<String>,
}

/// The first of `offered` that is also in `supported`.
pub open spec fn first_mutual(offered: Seq<Seq<char>>, supported: Seq<Seq<char>>) -> Option<Seq<char>>
    decreases offered.len(),
{
    if offered.len() == 0 {
        None
    } else if supported.contains(offered[0]) {
        Some(offered[0])
    } else {
        first_mutual(offered.drop_first(), supported)
    }
}

/// The request checks that come before the key is decoded: version 13,
/// `Upgrade: websocket`, `Connection` listing `Upgrade`, and a key.
pub open spec fn request_basics_ok(h: Map<Seq<char>, Seq<char>>, key: Seq<char>) -> bool {
    &&& value_or_empty(h, "sec-websocket-version"@) == decimal_chars(VERSION as nat)
    &&& eq_ignore_case(value_or_empty(h, "upgrade"@), "websocket"@)
    &&& token_listed(value_or_empty(h, "connection"@), "Upgrade"@)
    &&& key.len() > 0
}

/// Why a request is refused with a `Handshake` error: the first failing
/// check (a key that is not Base64 is a `Decode` error instead).
pub open spec fn request_rejection(h: Map<Seq<char>, Seq<char>>, key: Seq<char>) -> Seq<char> {
    let v = value_or_empty(h, "sec-websocket-version"@);
    if v != decimal_chars(VERSION as nat) {
        "unsupported Sec-WebSocket-Version '"@ + v + "' (need "@ + decimal_chars(VERSION as nat) + ")"@
    } else if !eq_ignore_case(value_or_empty(h, "upgrade"@), "websocket"@) {
        "missing Upgrade: websocket"@
    } else if !token_listed(value_or_empty(h, "connection"@), "Upgrade"@) {
        "missing Connection: Upgrade"@
    } else if key.len() == 0 {
        "missing Sec-WebSocket-Key"@
    } else {
        "Sec-WebSocket-Key must decode to 16 bytes"@
    }
}

/// The key is Base64 for 16 bytes.
pub open spec fn key_ok(key: Seq<char>) -> bool {
    b64_decode(encode_utf8(key)) is Some && b64_decode(encode_utf8(key)).unwrap().len() == 16
}

/// The `101 Switching Protocols` response text.
pub open spec fn response_text(accept: Seq<char>, protocol: Option<Seq<char>>) -> Seq<char> {
    "HTTP/1.1 101 Switching Protocols\r\n"@ + "Upgrade: websocket\r\n"@ + "Connection: Upgrade\r\n"@
        + "Sec-WebSocket-Accept: "@ + accept + "\r\n"@ + (match protocol {
        Some(p) => "Sec-WebSocket-Protocol: "@ + p + "\r\n"@,
        None => seq![],
    }) + "\r\n"@
}

/// The `400 Bad Request` text advertising the supported version.
pub open spec fn version_rejection_text() -> Seq<char> {
    "HTTP/1.1 400 Bad Request\r\n"@ + "Sec-WebSocket-Version: "@ + decimal_chars(VERSION as nat) + "\r\n"@
        + "Content-Length: 0\r\n"@ + "\r\n"@
}

impl WsServerHandshake {
    /// Creates a server handshake with the subprotocols it may select.
    pub fn new(supported_protocols: Vec<String>) -> (hs: WsServerHandshake)
        ensures
            hs.supported_protocols == supported_protocols,
            hs.request is None,
            hs.selected_protocol is None,
    {
        WsServerHandshake { supported_protocols, request: None, selected_protocol: None }
    }

    /// Validates a client request and prepares the 101 response.
    ///
    /// Checks, in order: `Sec-WebSocket-Version: 13`, `Upgrade: websocket`,
    /// `Connection` listing `Upgrade`, a non-empty key (each a `Handshake`
    /// error), a key in Base64 (a `Decode` error) of 16 bytes (a `Handshake`
    /// error). On success the request is kept and the first of its
    /// subprotocols that this server supports is selected.
    pub fn accept_request(&mut self, request: HandshakeRequest) -> (r: WsResult<()>)
        ensures
            final(self).supported_protocols == old(self).supported_protocols,
            !request_basics_ok(request.headers@, request.key@) ==> (r matches Err(WsError::Handshake(_))),
            request_basics_ok(request.headers@, request.key@) && b64_decode(encode_utf8(request.key@)) is None
                ==> (r matches Err(WsError::Decode(m)) && m@ == b64_error_text(encode_utf8(request.key@))),
            request_basics_ok(request.headers@, request.key@) && b64_decode(encode_utf8(request.key@)) is Some
                && !key_ok(request.key@) ==> (r matches Err(WsError::Handshake(_))),
            r is Ok <==> (request_basics_ok(request.headers@, request.key@) && key_ok(request.key@)),
            r matches Err(WsError::Handshake(m)) ==> m@ == request_rejection(request.headers@, request.key@),
            r is Ok ==> final(self).request == Some(request)
                && opt_text(final(self).selected_protocol)
                == first_mutual(strs(request.protocols@), strs(old(self).supported_protocols@)),
            r is Err ==> final(self).request == old(self).request
                && final(self).selected_protocol == old(self).selected_protocol,
    {
        let version = value_or_default(&request.headers, "sec-websocket-version");
        let wanted = decimal_string(VERSION as u64);
        if !str_eq(version.as_str(), wanted.as_str()) {
            let mut m = String::from_str("unsupported Sec-WebSocket-Version '");
            m.append(version.as_str());
            m.append("' (need ");
            m.append(wanted.as_str());
            m.append(")");
            return Err(WsError::Handshake(m));
        }
        let upgrade = value_or_default(&request.headers, "upgrade");
        if !eq_ignore_ascii_case(upgrade.as_str(), "websocket") {
            return Err(WsError::handshake("missing Upgrade: websocket"));
        }
        let connection = value_or_default(&request.headers, "connection");
        if !header_token_contains(connection.as_str(), "Upgrade") {
            return Err(WsError::handshake("missing Connection: Upgrade"));
        }
        if request.key.unicode_len() == 0 {
            return Err(WsError::handshake("missing Sec-WebSocket-Key"));
        }
        let decoded = decode(request.key.as_str())?;
        if decoded.len() != 16 {
            return Err(WsError::handshake("Sec-WebSocket-Key must decode to 16 bytes"));
        }
        let ghost offered = strs(request.protocols@);
        let ghost supported = strs(self.supported_protocols@);
        let mut selected: Option<String> = None;
        let mut i: usize = 0;
        proof {
            assert(offered.subrange(0, offered.len() as int) =~= offered);
        }
        while i < request.protocols.len()
            invariant
                i <= request.protocols@.len(),
                offered == strs(request.protocols@),
                supported == strs(self.supported_protocols@),
                match selected {
                    None => first_mutual(offered.subrange(i as int, offered.len() as int), supported)
                        == first_mutual(offered, supported),
                    Some(p) => Some(p@) == first_mutual(offered, supported),
                },
            decreases request.protocols@.len() - i,
        {
            let ghost rest = offered.subrange(i as int, offered.len() as int);
            proof {
                assert(rest[0] == request.protocols@[i as int]@);
                assert(rest.drop_first() =~= offered.subrange(i + 1, offered.len() as int));
            }
            if selected.is_none() && contains_str(&self.supported_protocols, request.protocols[i].as_str()) {
                selected = Some(request.protocols[i].clone());
            }
            i = i + 1;
        }
        proof {
            if selected is None {
                assert(offered.subrange(offered.len() as int, offered.len() as int) =~= Seq::<Seq<char>>::empty());
            }
        }
        self.selected_protocol = selected;
        self.request = Some(request);
        Ok(())
    }

    /// Serializes the `101 Switching Protocols` response for the accepted
    /// request; fails with `InvalidState` before a request was accepted.
    pub fn encode_response(&self) -> (r: WsResult<Vec<u8>>)
        ensures
            match self.request {
                None => r matches Err(WsError::InvalidState(m)) && m@ == "no accepted request"@,
                Some(req) => r matches Ok(v)
                    && v@ == encode_utf8(response_text(accept_for(req.key@), opt_text(self.selected_protocol))),
            },
    {
        let request = match &self.request {
            Some(req) => req,
            None => {
                return Err(WsError::invalid_state("no accepted request"));
            },
        };
        let accept = compute_accept_key(request.key.as_str());
        let mut resp = String::from_str("HTTP/1.1 101 Switching Protocols\r\n");
        resp.append("Upgrade: websocket\r\n");
        resp.append("Connection: Upgrade\r\n");
        resp.append("Sec-WebSocket-Accept: ");
        resp.append(accept.as_str());
        resp.append("\r\n");
        match &self.selected_protocol {
            Some(p) => {
                resp.append("Sec-WebSocket-Protocol: ");
                resp.append(p.as_str());
                resp.append("\r\n");
            },
            None => {},
        }
        resp.append("\r\n");
        proof {
            assert(resp@ =~= response_text(accept_for(request.key@), opt_text(self.selected_protocol)));
        }
        Ok(vstd::slice::slice_to_vec(resp.as_str().as_bytes()))
    }

    /// Builds a `400 Bad Request` response advertising the supported version.
    pub fn encode_version_rejection() -> (r: Vec<u8>)
        ensures
            r@ == encode_utf8(version_rejection_text()),
    {
        let mut resp = String::from_str("HTTP/1.1 400 Bad Request\r\n");
        resp.append("Sec-WebSocket-Version: ");
        resp.append(decimal_string(VERSION as u64).as_str());
        resp.append("\r\n");
        resp.append("Content-Length: 0\r\n");
        resp.append("\r\n");
        proof {
            assert(resp@ =~= version_rejection_text());
        }
        vstd::slice::slice_to_vec(resp.as_str().as_bytes())
    }
}

} // verus!
