//! How the header-block model reads text that was written line by line:
//! lines joined by CR LF split back into those lines, words joined by single
//! spaces split back into those words, and `name: value` lines fold into
//! the header map. These facts tie the texts the handshake writes to what
//! the parsers of the other side read.

use vstd::prelude::*;
use vstd::utf8::*;
use crate::http_text::{find_char, is_ws, lines_from, pieces_from, tokens_from, trim_hi, trim_lo, trimmed};

verus! {

broadcast use vstd::seq::group_seq_axioms;

/// No carriage return in `s`.
pub open spec fn no_cr(s: Seq<char>) -> bool {
    forall|i: int| 0 <= i < s.len() ==> #[trigger] s[i] != '\r'
}

/// No whitespace in `s`.
pub open spec fn no_ws(s: Seq<char>) -> bool {
    forall|i: int| 0 <= i < s.len() ==> !is_ws(#[trigger] s[i])
}

/// `c` does not occur in `s`.
pub open spec fn lacks(s: Seq<char>, c: char) -> bool {
    forall|i: int| 0 <= i < s.len() ==> #[trigger] s[i] != c
}

/// Every character of `s` is printable ASCII other than space (`!` to `~`).
pub open spec fn visible(s: Seq<char>) -> bool {
    forall|i: int| 0 <= i < s.len() ==> '!' <= #[trigger] s[i] && s[i] <= '~'
}

/// `ls` with CR LF between consecutive lines.
pub open spec fn crlf_join(ls: Seq<Seq<char>>) -> Seq<char>
    decreases ls.len(),
{
    if ls.len() == 0 {
        seq![]
    } else if ls.len() == 1 {
        ls[0]
    } else {
        ls[0] + seq!['\r', '\n'] + crlf_join(ls.drop_first())
    }
}

/// `ws` with a single space between consecutive words.
pub open spec fn space_join(ws: Seq<Seq<char>>) -> Seq<char>
    decreases ws.len(),
{
    if ws.len() == 0 {
        seq![]
    } else if ws.len() == 1 {
        ws[0]
    } else {
        ws[0] + seq![' '] + space_join(ws.drop_first())
    }
}

/// Visible text has neither whitespace nor carriage returns, and is ASCII.
pub proof fn lemma_visible(s: Seq<char>)
    requires
        visible(s),
    ensures
        no_ws(s),
        no_cr(s),
        is_ascii_chars(s),
{
}

proof fn lemma_lines_skip(cs: Seq<char>, i: int, j: int, start: int)
    requires
        0 <= i <= j <= cs.len(),
        forall|k: int| i <= k < j ==> #[trigger] cs[k] != '\r',
    ensures
        lines_from(cs, i, start) == lines_from(cs, j, start),
    decreases j - i,
{
    if i < j {
        lemma_lines_skip(cs, i + 1, j, start);
    }
}

/// The lines of text written as `pre` followed by `ls` joined with CR LF,
/// read from the end of `pre`, are the lines of `ls`.
pub proof fn lemma_lines_join(pre: Seq<char>, ls: Seq<Seq<char>>)
    requires
        ls.len() >= 1,
        forall|k: int| 0 <= k < ls.len() ==> no_cr(#[trigger] ls[k]),
    ensures
        lines_from(pre + crlf_join(ls), pre.len() as int, pre.len() as int).len() == ls.len(),
        lines_from(pre + crlf_join(ls), pre.len() as int, pre.len() as int)[0] == (
            pre.len() as int,
            (pre.len() + ls[0].len()) as int,
        ),
        forall|k: int| 0 <= k < ls.len() ==> {
            let r = #[trigger] lines_from(pre + crlf_join(ls), pre.len() as int, pre.len() as int)[k];
            &&& pre.len() <= r.0 <= r.1 <= (pre + crlf_join(ls)).len()
            &&& (pre + crlf_join(ls)).subrange(r.0, r.1) == ls[k]
        },
    decreases ls.len(),
{
    let cs = pre + crlf_join(ls);
    let a = pre.len() as int;
    let b = a + ls[0].len();
    assert(no_cr(ls[0]));
    assert(cs.subrange(a, b) =~= ls[0]);
    assert forall|k: int| a <= k < b implies #[trigger] cs[k] != '\r' by {
        assert(cs[k] == ls[0][k - a]);
    }
    lemma_lines_skip(cs, a, b, a);
    if ls.len() == 1 {
        assert(cs.len() == b);
        assert(lines_from(cs, b, a) == seq![(a, b)]);
    } else {
        let rest = ls.drop_first();
        let pre2 = pre + ls[0] + seq!['\r', '\n'];
        assert(cs =~= pre2 + crlf_join(rest));
        assert forall|k: int| 0 <= k < rest.len() implies no_cr(#[trigger] rest[k]) by {
            assert(rest[k] == ls[k + 1]);
        }
        lemma_lines_join(pre2, rest);
        assert(cs[b] == '\r' && cs[b + 1] == '\n');
        let tail = lines_from(cs, b + 2, b + 2);
        assert(lines_from(cs, b, a) == seq![(a, b)] + tail);
        assert forall|k: int| 0 <= k < ls.len() implies {
            let r = #[trigger] lines_from(cs, a, a)[k];
            &&& a <= r.0 <= r.1 <= cs.len()
            &&& cs.subrange(r.0, r.1) == ls[k]
        } by {
            if k > 0 {
                assert(lines_from(cs, a, a)[k] == tail[k - 1]);
                assert(rest[k - 1] == ls[k]);
            }
        }
    }
}

proof fn lemma_tokens_skip(cs: Seq<char>, hi: int, i: int, j: int, start: int)
    requires
        0 <= i <= j <= hi <= cs.len(),
        start >= 0,
        forall|k: int| i <= k < j ==> !is_ws(#[trigger] cs[k]),
    ensures
        tokens_from(cs, hi, i, start) == tokens_from(cs, hi, j, start),
    decreases j - i,
{
    if i < j {
        lemma_tokens_skip(cs, hi, i + 1, j, start);
    }
}

/// The whitespace tokens of `cs[lo..hi]`, when that text is `ws` joined
/// with single spaces, are the words of `ws`.
pub proof fn lemma_tokens_join(cs: Seq<char>, lo: int, hi: int, ws: Seq<Seq<char>>)
    requires
        0 <= lo <= hi <= cs.len(),
        cs.subrange(lo, hi) == space_join(ws),
        ws.len() >= 1,
        forall|k: int| 0 <= k < ws.len() ==> (#[trigger] ws[k]).len() > 0 && no_ws(ws[k]),
    ensures
        tokens_from(cs, hi, lo, -1).len() == ws.len(),
        forall|k: int| 0 <= k < ws.len() ==> {
            let t = #[trigger] tokens_from(cs, hi, lo, -1)[k];
            &&& lo <= t.0 <= t.1 <= hi
            &&& cs.subrange(t.0, t.1) == ws[k]
        },
    decreases ws.len(),
{
    let w = ws[0];
    let e = lo + w.len();
    let j = space_join(ws);
    assert(w.len() > 0 && no_ws(w));
    if ws.len() == 1 {
        assert(j == w);
    } else {
        assert(j =~= w + seq![' '] + space_join(ws.drop_first()));
    }
    assert(j.subrange(0, w.len() as int) =~= w);
    assert forall|k: int| lo <= k < e implies !is_ws(#[trigger] cs[k]) by {
        assert(cs[k] == j[k - lo]);
        assert(j[k - lo] == w[k - lo]);
    }
    lemma_first_token(cs, hi, lo, e);
    if ws.len() == 1 {
        assert(e == hi);
        assert(cs.subrange(lo, e) =~= w);
    } else {
        let rest = ws.drop_first();
        assert(cs[e] == j[e - lo]);
        assert(cs[e] == ' ');
        let sr = space_join(rest);
        assert(j.len() == w.len() + 1 + sr.len());
        assert forall|k: int| 0 <= k < sr.len() implies #[trigger] cs.subrange(e + 1, hi)[k] == sr[k] by {
            assert(cs.subrange(e + 1, hi)[k] == cs[e + 1 + k]);
            assert(cs[e + 1 + k] == j[w.len() + 1 + k]);
        }
        assert(cs.subrange(e + 1, hi) =~= sr);
        assert(cs.subrange(lo, e) =~= w);
        assert forall|k: int| 0 <= k < rest.len() implies (#[trigger] rest[k]).len() > 0 && no_ws(rest[k]) by {
            assert(rest[k] == ws[k + 1]);
        }
        lemma_tokens_join(cs, e + 1, hi, rest);
        let tail = tokens_from(cs, hi, e + 1, -1);
        assert(tokens_from(cs, hi, lo, -1) == seq![(lo, e)] + tail);
        assert forall|k: int| 0 <= k < ws.len() implies {
            let t = #[trigger] tokens_from(cs, hi, lo, -1)[k];
            &&& lo <= t.0 <= t.1 <= hi
            &&& cs.subrange(t.0, t.1) == ws[k]
        } by {
            if k > 0 {
                assert(tokens_from(cs, hi, lo, -1)[k] == tail[k - 1]);
                assert(rest[k - 1] == ws[k]);
            }
        }
    }
}

/// A run of non-whitespace from `lo` to `e` is read as one token that ends
/// at `e`.
proof fn lemma_first_token(cs: Seq<char>, hi: int, lo: int, e: int)
    requires
        0 <= lo < e <= hi <= cs.len(),
        forall|k: int| lo <= k < e ==> !is_ws(#[trigger] cs[k]),
    ensures
        tokens_from(cs, hi, lo, -1) == tokens_from(cs, hi, e, lo),
        e == hi ==> tokens_from(cs, hi, lo, -1) == seq![(lo, hi)],
        e < hi && is_ws(cs[e]) ==> tokens_from(cs, hi, lo, -1) == seq![(lo, e)] + tokens_from(cs, hi, e + 1, -1),
{
    assert(!is_ws(cs[lo]));
    assert(tokens_from(cs, hi, lo, -1) == tokens_from(cs, hi, lo + 1, lo));
    lemma_tokens_skip(cs, hi, lo + 1, e, lo);
}


/// The first `c` at or after `i` is at `j` when none comes before it.
pub proof fn lemma_find_char_at(cs: Seq<char>, c: char, i: int, hi: int, j: int)
    requires
        0 <= i <= j < hi <= cs.len(),
        cs[j] == c,
        forall|k: int| i <= k < j ==> #[trigger] cs[k] != c,
    ensures
        find_char(cs, c, i, hi) == j,
    decreases j - i,
{
    if i < j {
        lemma_find_char_at(cs, c, i + 1, hi, j);
    }
}

/// A run that neither starts nor ends with whitespace trims to itself.
pub proof fn lemma_trim_word(cs: Seq<char>, lo: int, hi: int)
    requires
        0 <= lo < hi <= cs.len(),
        !is_ws(cs[lo]),
        !is_ws(cs[hi - 1]),
    ensures
        trimmed(cs, lo, hi) == cs.subrange(lo, hi),
{
    assert(trim_lo(cs, lo, hi) == lo);
    assert(trim_hi(cs, lo, hi) == hi);
}

/// A space followed by nothing, or by a run that neither starts nor ends
/// with whitespace, trims to what follows the space.
pub proof fn lemma_trim_spaced(cs: Seq<char>, lo: int, hi: int)
    requires
        0 <= lo < hi <= cs.len(),
        is_ws(cs[lo]),
        lo + 1 == hi || (!is_ws(cs[lo + 1]) && !is_ws(cs[hi - 1])),
    ensures
        trimmed(cs, lo, hi) == cs.subrange(lo + 1, hi),
{
    assert(trim_lo(cs, lo, hi) == trim_lo(cs, lo + 1, hi));
    if lo + 1 == hi {
        assert(trim_lo(cs, lo + 1, hi) == hi);
        assert(trim_hi(cs, hi, hi) == hi);
    } else {
        lemma_trim_word(cs, lo + 1, hi);
    }
}

proof fn lemma_trim_lo_local(x: Seq<char>, y: Seq<char>, lo: int, hi: int)
    requires
        0 <= lo <= hi <= x.len(),
        hi <= y.len(),
        forall|k: int| lo <= k < hi ==> #[trigger] x[k] == y[k],
    ensures
        trim_lo(x, lo, hi) == trim_lo(y, lo, hi),
        lo <= trim_lo(x, lo, hi) <= hi,
    decreases hi - lo,
{
    if lo < hi {
        assert(x[lo] == y[lo]);
        lemma_trim_lo_local(x, y, lo + 1, hi);
    }
}

proof fn lemma_trim_hi_local(x: Seq<char>, y: Seq<char>, lo: int, hi: int)
    requires
        0 <= lo <= hi <= x.len(),
        hi <= y.len(),
        forall|k: int| lo <= k < hi ==> #[trigger] x[k] == y[k],
    ensures
        trim_hi(x, lo, hi) == trim_hi(y, lo, hi),
        lo <= trim_hi(x, lo, hi) <= hi,
    decreases hi - lo,
{
    if lo < hi {
        assert(x[hi - 1] == y[hi - 1]);
        lemma_trim_hi_local(x, y, lo, hi - 1);
    }
}

/// Trimming reads only the characters inside the range.
pub proof fn lemma_trim_local(x: Seq<char>, y: Seq<char>, lo: int, hi: int)
    requires
        0 <= lo <= hi <= x.len(),
        hi <= y.len(),
        forall|k: int| lo <= k < hi ==> #[trigger] x[k] == y[k],
    ensures
        trimmed(x, lo, hi) == trimmed(y, lo, hi),
{
    lemma_trim_lo_local(x, y, lo, hi);
    let l = trim_lo(x, lo, hi);
    lemma_trim_hi_local(x, y, l, hi);
    let h = trim_hi(x, l, hi);
    assert(x.subrange(l, h) =~= y.subrange(l, h));
}

proof fn lemma_pieces_skip(cs: Seq<char>, sep: char, hi: int, i: int, j: int, start: int)
    requires
        0 <= i <= j <= hi <= cs.len(),
        forall|k: int| i <= k < j ==> #[trigger] cs[k] != sep,
    ensures
        pieces_from(cs, sep, hi, i, start) == pieces_from(cs, sep, hi, j, start),
    decreases j - i,
{
    if i < j {
        lemma_pieces_skip(cs, sep, hi, i + 1, j, start);
    }
}

/// Appending `sep` and a text without `sep` adds one last piece.
pub proof fn lemma_pieces_append(a: Seq<char>, b: Seq<char>, sep: char, i: int, start: int)
    requires
        0 <= start <= i <= a.len(),
        lacks(b, sep),
    ensures
        pieces_from(a + seq![sep] + b, sep, (a.len() + 1 + b.len()) as int, i, start)
            == pieces_from(a, sep, a.len() as int, i, start) + seq![((a.len() + 1) as int, (a.len() + 1 + b.len()) as int)],
    decreases a.len() - i,
{
    let v = a + seq![sep] + b;
    let n = (a.len() + 1 + b.len()) as int;
    if i == a.len() {
        assert(v[i] == sep);
        assert forall|k: int| i + 1 <= k < n implies #[trigger] v[k] != sep by {
            assert(v[k] == b[k - i - 1]);
        }
        lemma_pieces_skip(v, sep, n, i + 1, n, i + 1);
        assert(pieces_from(v, sep, n, i, start) == seq![(start, i)] + pieces_from(v, sep, n, i + 1, i + 1));
    } else {
        assert(v[i] == a[i]);
        if a[i] == sep {
            lemma_pieces_append(a, b, sep, i + 1, i + 1);
            assert(pieces_from(v, sep, n, i, start) == seq![(start, i)] + pieces_from(v, sep, n, i + 1, i + 1));
            assert(pieces_from(a, sep, a.len() as int, i, start) == seq![(start, i)] + pieces_from(a, sep, a.len() as int, i + 1, i + 1));
        } else {
            lemma_pieces_append(a, b, sep, i + 1, start);
        }
    }
}

/// A text without `sep` is a single piece.
pub proof fn lemma_pieces_single(a: Seq<char>, sep: char)
    requires
        lacks(a, sep),
    ensures
        pieces_from(a, sep, a.len() as int, 0, 0) == seq![(0int, a.len() as int)],
{
    lemma_pieces_skip(a, sep, a.len() as int, 0, a.len() as int, 0);
}


/// Every CR starts a CR LF that a character other than CR follows, all
/// inside the text.
pub open spec fn crlf_sound(cs: Seq<char>) -> bool {
    forall|i: int| 0 <= i < cs.len() && #[trigger] cs[i] == '\r' ==> i + 2 < cs.len() && cs[i + 1] == '\n' && cs[i + 2]
        != '\r'
}

/// Non-empty lines without CR, joined with CR LF, hold CR only in the
/// separators.
pub proof fn lemma_crlf_join_sound(ls: Seq<Seq<char>>)
    requires
        ls.len() >= 1,
        forall|k: int| 0 <= k < ls.len() ==> (#[trigger] ls[k]).len() > 0 && no_cr(ls[k]),
    ensures
        crlf_sound(crlf_join(ls)),
        crlf_join(ls).len() > 0,
        crlf_join(ls)[0] == ls[0][0],
    decreases ls.len(),
{
    let cs = crlf_join(ls);
    let l0 = ls[0];
    assert(l0.len() > 0 && no_cr(l0));
    if ls.len() == 1 {
    } else {
        let rest = ls.drop_first();
        assert forall|k: int| 0 <= k < rest.len() implies (#[trigger] rest[k]).len() > 0 && no_cr(rest[k]) by {
            assert(rest[k] == ls[k + 1]);
        }
        lemma_crlf_join_sound(rest);
        let rj = crlf_join(rest);
        let n = l0.len() as int;
        assert(cs == l0 + seq!['\r', '\n'] + rj);
        assert forall|i: int| 0 <= i < cs.len() && #[trigger] cs[i] == '\r' implies i + 2 < cs.len() && cs[i + 1]
            == '\n' && cs[i + 2] != '\r' by {
            if i < n {
                assert(cs[i] == l0[i]);
            } else if i == n {
                assert(cs[i + 2] == rj[0]);
            } else if i == n + 1 {
                assert(cs[i] == '\n');
            } else {
                assert(cs[i] == rj[i - n - 2]);
                assert(cs[i + 1] == rj[i - n - 1]);
                if i + 2 < cs.len() {
                    assert(cs[i + 2] == rj[i - n]);
                }
            }
        }
    }
}

/// Lines of ASCII text joined with CR LF are ASCII text.
pub proof fn lemma_crlf_join_ascii(ls: Seq<Seq<char>>)
    requires
        forall|k: int| 0 <= k < ls.len() ==> is_ascii_chars(#[trigger] ls[k]),
    ensures
        is_ascii_chars(crlf_join(ls)),
    decreases ls.len(),
{
    if ls.len() >= 1 {
        assert(is_ascii_chars(ls[0]));
    }
    if ls.len() > 1 {
        let rest = ls.drop_first();
        assert forall|k: int| 0 <= k < rest.len() implies is_ascii_chars(#[trigger] rest[k]) by {
            assert(rest[k] == ls[k + 1]);
        }
        lemma_crlf_join_ascii(rest);
        let cs = crlf_join(ls);
        let rj = crlf_join(rest);
        let n = ls[0].len() as int;
        assert(cs == ls[0] + seq!['\r', '\n'] + rj);
        assert forall|i: int| 0 <= i < cs.len() implies '\0' <= #[trigger] cs[i] <= '\u{7f}' by {
            if i < n {
                assert(cs[i] == ls[0][i]);
            } else if i >= n + 2 {
                assert(cs[i] == rj[i - n - 2]);
            }
        }
    }
}

/// `ls` with CR LF after every line.
pub open spec fn crlf_lines(ls: Seq<Seq<char>>) -> Seq<char>
    decreases ls.len(),
{
    if ls.len() == 0 {
        seq![]
    } else {
        ls[0] + seq!['\r', '\n'] + crlf_lines(ls.drop_first())
    }
}

/// Lines each ended by CR LF, then one more CR LF, are the lines joined
/// with CR LF followed by a blank line.
pub proof fn lemma_crlf_lines_join(ls: Seq<Seq<char>>)
    requires
        ls.len() >= 1,
    ensures
        crlf_lines(ls) + seq!['\r', '\n'] == crlf_join(ls) + seq!['\r', '\n', '\r', '\n'],
    decreases ls.len(),
{
    let crlf = seq!['\r', '\n'];
    if ls.len() == 1 {
        assert(ls.drop_first().len() == 0);
        assert(crlf_lines(ls.drop_first()) == Seq::<char>::empty());
        assert(crlf_lines(ls) == ls[0] + crlf + Seq::<char>::empty());
        assert(crlf_join(ls) == ls[0]);
        assert(crlf_lines(ls) + crlf =~= crlf_join(ls) + seq!['\r', '\n', '\r', '\n']);
    } else {
        let rest = ls.drop_first();
        lemma_crlf_lines_join(rest);
        assert(crlf_lines(ls) + crlf =~= ls[0] + crlf + (crlf_lines(rest) + crlf));
        assert(crlf_join(ls) + seq!['\r', '\n', '\r', '\n'] =~= ls[0] + crlf + (crlf_join(rest) + seq![
            '\r',
            '\n',
            '\r',
            '\n',
        ]));
    }
}

/// Ending every line of two lists with CR LF is ending each list's.
pub proof fn lemma_crlf_lines_concat(a: Seq<Seq<char>>, b: Seq<Seq<char>>)
    ensures
        crlf_lines(a + b) == crlf_lines(a) + crlf_lines(b),
    decreases a.len(),
{
    if a.len() == 0 {
        assert(a + b =~= b);
        assert(crlf_lines(a) + crlf_lines(b) =~= crlf_lines(b));
    } else {
        lemma_crlf_lines_concat(a.drop_first(), b);
        assert((a + b).drop_first() =~= a.drop_first() + b);
        assert((a + b)[0] == a[0]);
        assert(crlf_lines(a + b) =~= crlf_lines(a) + crlf_lines(b));
    }
}

} // verus!
