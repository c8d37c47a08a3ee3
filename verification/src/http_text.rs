//! Character-level text model of the HTTP/1.1 header block used by the
//! opening handshake: line splitting, whitespace tokens, trimming, ASCII
//! case folding and comma lists, each stated as a spec function and
//! implemented over a `Vec<char>`.

use vstd::prelude::*;
use vstd::utf8::*;
use crate::text::chars_to_string;

verus! {

broadcast use vstd::seq::group_seq_axioms, vstd::string::group_string_axioms;

/// `char::is_whitespace`: the Unicode `White_Space` property.
pub open spec fn is_ws(c: char) -> bool {
    let u = c as u32;
    ||| (0x09 <= u && u <= 0x0D)
    ||| u == 0x20
    ||| u == 0x85
    ||| u == 0xA0
    ||| u == 0x1680
    ||| (0x2000 <= u && u <= 0x200A)
    ||| u == 0x2028
    ||| u == 0x2029
    ||| u == 0x202F
    ||| u == 0x205F
    ||| u == 0x3000
}

/// Executable form of [`is_ws`].
pub fn char_is_ws(c: char) -> (r: bool)
    ensures
        r == is_ws(c),
{
    let u = c as u32;
    (0x09 <= u && u <= 0x0D) || u == 0x20 || u == 0x85 || u == 0xA0 || u == 0x1680
        || (0x2000 <= u && u <= 0x200A) || u == 0x2028 || u == 0x2029 || u == 0x202F
        || u == 0x205F || u == 0x3000
}

/// `char::to_ascii_lowercase`.
pub open spec fn lower_char(c: char) -> char {
    if 'A' <= c && c <= 'Z' {
        ((c as u32) + 32) as char
    } else {
        c
    }
}

/// `str::to_ascii_lowercase` on a character sequence.
pub open spec fn lower(s: Seq<char>) -> Seq<char> {
    s.map_values(|c: char| lower_char(c))
}

/// `str::eq_ignore_ascii_case`.
pub open spec fn eq_ignore_case(a: Seq<char>, b: Seq<char>) -> bool {
    lower(a) == lower(b)
}

/// Executable form of [`lower_char`].
pub fn char_lower(c: char) -> (r: char)
    ensures
        r == lower_char(c),
{
    if 'A' <= c && c <= 'Z' {
        let u = (c as u8) + 32;
        u as char
    } else {
        c
    }
}

/// Collects the characters of a string slice.
pub fn str_chars(s: &str) -> (r: Vec<char>)
    ensures
        r@ == s@,
{
    let mut out: Vec<char> = Vec::new();
    for c in it: s.chars()
        invariant
            it.seq() == s@,
            out@ == s@.subrange(0, it.index() as int),
    {
        out.push(c);
        proof {
            assert(out@ =~= s@.subrange(0, it.index() + 1));
        }
    }
    proof {
        assert(out@ =~= s@);
    }
    out
}

/// Pairs of machine indices read as pairs of integers.
pub open spec fn int_pairs(v: Seq<(usize, usize)>) -> Seq<(int, int)> {
    v.map_values(|p: (usize, usize)| (p.0 as int, p.1 as int))
}

/// The pieces of `cs` separated by CR LF (`str::split("\r\n")`), as index
/// ranges: scanning from `i`, the current piece began at `start`.
pub open spec fn lines_from(cs: Seq<char>, i: int, start: int) -> Seq<(int, int)>
    decreases cs.len() - i,
{
    if i >= cs.len() {
        seq![(start, cs.len() as int)]
    } else if i + 1 < cs.len() && cs[i] == '\r' && cs[i + 1] == '\n' {
        seq![(start, i)] + lines_from(cs, i + 2, i + 2)
    } else {
        lines_from(cs, i + 1, start)
    }
}

/// The lines of `cs`.
pub open spec fn line_ranges(cs: Seq<char>) -> Seq<(int, int)> {
    lines_from(cs, 0, 0)
}

/// The maximal runs of non-whitespace characters of `cs[..hi]` scanning from
/// `i` (`str::split_whitespace`); `start` is where the current run began, or
/// negative outside a run.
pub open spec fn tokens_from(cs: Seq<char>, hi: int, i: int, start: int) -> Seq<(int, int)>
    decreases hi - i,
{
    if i >= hi {
        if start >= 0 {
            seq![(start, hi)]
        } else {
            seq![]
        }
    } else if is_ws(cs[i]) {
        if start >= 0 {
            seq![(start, i)] + tokens_from(cs, hi, i + 1, -1)
        } else {
            tokens_from(cs, hi, i + 1, -1)
        }
    } else {
        tokens_from(cs, hi, i + 1, if start >= 0 { start } else { i })
    }
}

/// The whitespace-separated tokens of `cs[lo..hi]`.
pub open spec fn ws_tokens(cs: Seq<char>, lo: int, hi: int) -> Seq<(int, int)> {
    tokens_from(cs, hi, lo, -1)
}

/// The pieces of `cs[..hi]` separated by `sep` (`str::split(sep)`), scanning
/// from `i` with the current piece begun at `start`.
pub open spec fn pieces_from(cs: Seq<char>, sep: char, hi: int, i: int, start: int) -> Seq<(int, int)>
    decreases hi - i,
{
    if i >= hi {
        seq![(start, hi)]
    } else if cs[i] == sep {
        seq![(start, i)] + pieces_from(cs, sep, hi, i + 1, i + 1)
    } else {
        pieces_from(cs, sep, hi, i + 1, start)
    }
}

/// The pieces of `cs[lo..hi]` separated by `sep`.
pub open spec fn split_ranges(cs: Seq<char>, sep: char, lo: int, hi: int) -> Seq<(int, int)> {
    pieces_from(cs, sep, hi, lo, lo)
}

/// Every piece of a split lies inside the scanned range, and there is at
/// least one.
pub proof fn lemma_split_shape(cs: Seq<char>, sep: char, hi: int, i: int, start: int)
    requires
        0 <= start <= i <= hi <= cs.len(),
    ensures
        pieces_from(cs, sep, hi, i, start).len() >= 1,
        forall|k: int| 0 <= k < pieces_from(cs, sep, hi, i, start).len()
            ==> start <= #[trigger] pieces_from(cs, sep, hi, i, start)[k].0
            <= pieces_from(cs, sep, hi, i, start)[k].1 <= hi,
    decreases hi - i,
{
    let t = pieces_from(cs, sep, hi, i, start);
    if i >= hi {
        assert(t == seq![(start, hi)]);
    } else if cs[i] == sep {
        lemma_split_shape(cs, sep, hi, i + 1, i + 1);
        let rest = pieces_from(cs, sep, hi, i + 1, i + 1);
        assert(t == seq![(start, i)] + rest);
        assert forall|k: int| 0 <= k < t.len() implies start <= #[trigger] t[k].0 <= t[k].1 <= hi by {
            if k > 0 {
                assert(t[k] == rest[k - 1]);
            }
        }
    } else {
        lemma_split_shape(cs, sep, hi, i + 1, start);
        assert(t == pieces_from(cs, sep, hi, i + 1, start));
    }
}

/// First index in `lo..hi` that is not whitespace, or `hi`.
pub open spec fn trim_lo(cs: Seq<char>, lo: int, hi: int) -> int
    decreases hi - lo,
{
    if lo >= hi {
        hi
    } else if is_ws(cs[lo]) {
        trim_lo(cs, lo + 1, hi)
    } else {
        lo
    }
}

/// One past the last index in `lo..hi` that is not whitespace, or `lo`.
pub open spec fn trim_hi(cs: Seq<char>, lo: int, hi: int) -> int
    decreases hi - lo,
{
    if hi <= lo {
        lo
    } else if is_ws(cs[hi - 1]) {
        trim_hi(cs, lo, hi - 1)
    } else {
        hi
    }
}

/// `cs[lo..hi]` without leading and trailing whitespace (`str::trim`).
pub open spec fn trimmed(cs: Seq<char>, lo: int, hi: int) -> Seq<char> {
    cs.subrange(trim_lo(cs, lo, hi), trim_hi(cs, trim_lo(cs, lo, hi), hi))
}

/// First index of `c` in `i..hi`, or a negative number.
pub open spec fn find_char(cs: Seq<char>, c: char, i: int, hi: int) -> int
    decreases hi - i,
{
    if i >= hi {
        -1
    } else if cs[i] == c {
        i
    } else {
        find_char(cs, c, i + 1, hi)
    }
}

/// Splits `cs` into lines (see [`line_ranges`]).
pub fn split_lines(cs: &[char]) -> (r: Vec<(usize, usize)>)
    ensures
        int_pairs(r@) == line_ranges(cs@),
{
    let n = cs.len();
    let mut out: Vec<(usize, usize)> = Vec::new();
    let mut i: usize = 0;
    let mut start: usize = 0;
    while i < n
        invariant
            n == cs@.len(),
            start <= i <= n,
            int_pairs(out@) + lines_from(cs@, i as int, start as int) == line_ranges(cs@),
        decreases n - i,
    {
        if i + 1 < n && cs[i] == '\r' && cs[i + 1] == '\n' {
            let ghost before = out@;
            out.push((start, i));
            proof {
                assert(int_pairs(out@) =~= int_pairs(before) + seq![(start as int, i as int)]);
                assert(int_pairs(out@) + lines_from(cs@, i + 2, i + 2)
                    =~= int_pairs(before) + lines_from(cs@, i as int, start as int));
            }
            i = i + 2;
            start = i;
        } else {
            i = i + 1;
        }
    }
    let ghost before = out@;
    out.push((start, n));
    proof {
        assert(int_pairs(out@) =~= int_pairs(before) + seq![(start as int, n as int)]);
    }
    out
}

/// The whitespace-separated tokens of `cs[lo..hi]` (see [`ws_tokens`]).
pub fn split_ws(cs: &[char], lo: usize, hi: usize) -> (r: Vec<(usize, usize)>)
    requires
        lo <= hi <= cs@.len(),
    ensures
        int_pairs(r@) == ws_tokens(cs@, lo as int, hi as int),
{
    let mut out: Vec<(usize, usize)> = Vec::new();
    let mut i: usize = lo;
    let mut in_tok = false;
    let mut start: usize = lo;
    while i < hi
        invariant
            lo <= i <= hi <= cs@.len(),
            in_tok ==> start < i,
            int_pairs(out@) + tokens_from(cs@, hi as int, i as int, if in_tok { start as int } else { -1 })
                == ws_tokens(cs@, lo as int, hi as int),
        decreases hi - i,
    {
        if char_is_ws(cs[i]) {
            if in_tok {
                let ghost before = out@;
                out.push((start, i));
                proof {
                    assert(int_pairs(out@) =~= int_pairs(before) + seq![(start as int, i as int)]);
                    assert(int_pairs(out@) + tokens_from(cs@, hi as int, i + 1, -1)
                        =~= int_pairs(before) + tokens_from(cs@, hi as int, i as int, start as int));
                }
                in_tok = false;
            }
        } else if !in_tok {
            in_tok = true;
            start = i;
        }
        i = i + 1;
    }
    if in_tok {
        let ghost before = out@;
        out.push((start, hi));
        proof {
            assert(int_pairs(out@) =~= int_pairs(before) + seq![(start as int, hi as int)]);
        }
    } else {
        proof {
            assert(int_pairs(out@) =~= int_pairs(out@) + Seq::<(int, int)>::empty());
        }
    }
    out
}

/// The pieces of `cs[lo..hi]` separated by `sep` (see [`split_ranges`]).
pub fn split_on(cs: &[char], sep: char, lo: usize, hi: usize) -> (r: Vec<(usize, usize)>)
    requires
        lo <= hi <= cs@.len(),
    ensures
        int_pairs(r@) == split_ranges(cs@, sep, lo as int, hi as int),
{
    let mut out: Vec<(usize, usize)> = Vec::new();
    let mut i: usize = lo;
    let mut start: usize = lo;
    while i < hi
        invariant
            lo <= start <= i <= hi <= cs@.len(),
            int_pairs(out@) + pieces_from(cs@, sep, hi as int, i as int, start as int)
                == split_ranges(cs@, sep, lo as int, hi as int),
        decreases hi - i,
    {
        if cs[i] == sep {
            let ghost before = out@;
            out.push((start, i));
            proof {
                assert(int_pairs(out@) =~= int_pairs(before) + seq![(start as int, i as int)]);
                assert(int_pairs(out@) + pieces_from(cs@, sep, hi as int, i + 1, i + 1)
                    =~= int_pairs(before) + pieces_from(cs@, sep, hi as int, i as int, start as int));
            }
            start = i + 1;
        }
        i = i + 1;
    }
    let ghost before = out@;
    out.push((start, hi));
    proof {
        assert(int_pairs(out@) =~= int_pairs(before) + seq![(start as int, hi as int)]);
    }
    out
}

/// The bounds of `cs[lo..hi]` with surrounding whitespace removed.
pub fn trim_range(cs: &[char], lo: usize, hi: usize) -> (r: (usize, usize))
    requires
        lo <= hi <= cs@.len(),
    ensures
        r.0 == trim_lo(cs@, lo as int, hi as int),
        r.1 == trim_hi(cs@, r.0 as int, hi as int),
        lo <= r.0 <= r.1 <= hi,
{
    let mut a = lo;
    while a < hi && char_is_ws(cs[a])
        invariant
            lo <= a <= hi <= cs@.len(),
            trim_lo(cs@, a as int, hi as int) == trim_lo(cs@, lo as int, hi as int),
        decreases hi - a,
    {
        a = a + 1;
    }
    let mut b = hi;
    while b > a && char_is_ws(cs[b - 1])
        invariant
            lo <= a <= b <= hi <= cs@.len(),
            trim_hi(cs@, a as int, b as int) == trim_hi(cs@, a as int, hi as int),
        decreases b - a,
    {
        b = b - 1;
    }
    (a, b)
}

/// The first index of `c` in `cs[lo..hi]`.
pub fn find_in(cs: &[char], c: char, lo: usize, hi: usize) -> (r: Option<usize>)
    requires
        lo <= hi <= cs@.len(),
    ensures
        match r {
            Some(k) => k == find_char(cs@, c, lo as int, hi as int) && lo <= k < hi,
            None => find_char(cs@, c, lo as int, hi as int) < 0,
        },
{
    let mut i = lo;
    while i < hi
        invariant
            lo <= i <= hi <= cs@.len(),
            find_char(cs@, c, i as int, hi as int) == find_char(cs@, c, lo as int, hi as int),
        decreases hi - i,
    {
        if cs[i] == c {
            return Some(i);
        }
        i = i + 1;
    }
    None
}

/// `cs[lo..hi]` as a `String`.
pub fn range_string(cs: &[char], lo: usize, hi: usize) -> (s: String)
    requires
        lo <= hi <= cs@.len(),
    ensures
        s@ == cs@.subrange(lo as int, hi as int),
{
    let part = vstd::slice::slice_subrange(cs, lo, hi);
    chars_to_string(part)
}

/// `cs[lo..hi]` in ASCII lower case, as a `String`.
pub fn lower_string(cs: &[char], lo: usize, hi: usize) -> (s: String)
    requires
        lo <= hi <= cs@.len(),
    ensures
        s@ == lower(cs@.subrange(lo as int, hi as int)),
{
    let mut low: Vec<char> = Vec::new();
    let mut i = lo;
    while i < hi
        invariant
            lo <= i <= hi <= cs@.len(),
            low@ == lower(cs@.subrange(lo as int, i as int)),
        decreases hi - i,
    {
        low.push(char_lower(cs[i]));
        i = i + 1;
        proof {
            assert(low@ =~= lower(cs@.subrange(lo as int, i as int)));
        }
    }
    chars_to_string(low.as_slice())
}

/// Whether `cs[lo..hi]` equals `lit`.
pub fn range_eq(cs: &[char], lo: usize, hi: usize, lit: &str) -> (r: bool)
    requires
        lo <= hi <= cs@.len(),
    ensures
        r == (cs@.subrange(lo as int, hi as int) == lit@),
{
    let n = lit.unicode_len();
    if hi - lo != n {
        return false;
    }
    let mut i: usize = 0;
    while i < n
        invariant
            n == lit@.len(),
            hi - lo == n,
            lo <= hi <= cs@.len(),
            i <= n,
            forall|k: int| 0 <= k < i ==> cs@[lo + k] == lit@[k],
        decreases n - i,
    {
        if cs[lo + i] != lit.get_char(i) {
            return false;
        }
        i = i + 1;
    }
    assert(cs@.subrange(lo as int, hi as int) =~= lit@);
    true
}

/// Whether `a` and `b` are equal ignoring ASCII case (`str::eq_ignore_ascii_case`).
pub fn eq_ignore_ascii_case_chars(a: &[char], b: &[char]) -> (r: bool)
    ensures
        r == eq_ignore_case(a@, b@),
{
    if a.len() != b.len() {
        proof {
            assert(lower(a@).len() != lower(b@).len());
        }
        return false;
    }
    let mut i: usize = 0;
    while i < a.len()
        invariant
            a@.len() == b@.len(),
            i <= a@.len(),
            forall|k: int| 0 <= k < i ==> lower_char(a@[k]) == lower_char(b@[k]),
        decreases a@.len() - i,
    {
        if char_lower(a[i]) != char_lower(b[i]) {
            proof {
                assert(lower(a@)[i as int] != lower(b@)[i as int]);
            }
            return false;
        }
        i = i + 1;
    }
    assert(lower(a@) =~= lower(b@));
    true
}

} // verus!
