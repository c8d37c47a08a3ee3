//! Incremental UTF-8 validation for WebSocket text payloads.
//!
//! RFC 6455 §5.6 lets individual text frames hold partial UTF-8 sequences,
//! but the reassembled message must be valid UTF-8; close reasons
//! (§5.5.1) must be valid UTF-8 too. Validity here is exactly vstd's
//! `valid_utf8`.

use vstd::prelude::*;
use vstd::utf8::*;
use crate::ws_error::{WsError, WsResult};

verus! {

broadcast use vstd::seq::group_seq_axioms;

/// Width of the scalar a lead byte starts (0 when the byte cannot lead).
pub open spec fn lead_width(b: u8) -> int {
    if b <= 0x7F {
        1
    } else if 0xC2 <= b <= 0xDF {
        2
    } else if 0xE0 <= b <= 0xEF {
        3
    } else if 0xF0 <= b <= 0xF4 {
        4
    } else {
        0
    }
}

pub open spec fn is_cont(b: u8) -> bool {
    0x80 <= b <= 0xBF
}

/// The allowed range of the byte after a lead byte.
pub open spec fn second_ok(lead: u8, b: u8) -> bool {
    if lead == 0xE0 {
        0xA0 <= b <= 0xBF
    } else if lead == 0xED {
        0x80 <= b <= 0x9F
    } else if lead == 0xF0 {
        0x90 <= b <= 0xBF
    } else if lead == 0xF4 {
        0x80 <= b <= 0x8F
    } else {
        is_cont(b)
    }
}

/// `s` starts with a complete, well-formed scalar.
pub open spec fn scalar_ok(s: Seq<u8>) -> bool {
    let w = lead_width(s[0]);
    &&& s.len() >= 1
    &&& w >= 1
    &&& s.len() >= w
    &&& (w >= 2 ==> second_ok(s[0], s[1]))
    &&& (w >= 3 ==> is_cont(s[2]))
    &&& (w >= 4 ==> is_cont(s[3]))
}

proof fn bv_width2(b0: u8, b1: u8)
    by (bit_vector)
    requires
        0xC0 <= b0 <= 0xDF,
        0x80 <= b1 <= 0xBF,
    ensures
        (((((b0 & 0x1F) as u32) << 6) | ((b1 & 0x3F) as u32)) >= 0x80) == (b0 >= 0xC2),
        ((((b0 & 0x1F) as u32) << 6) | ((b1 & 0x3F) as u32)) <= 0x7FF,
{
}

proof fn bv_width3(b0: u8, b1: u8, b2: u8)
    by (bit_vector)
    requires
        0xE0 <= b0 <= 0xEF,
        0x80 <= b1 <= 0xBF,
        0x80 <= b2 <= 0xBF,
    ensures
        (((((b0 & 0x0F) as u32) << 12) | (((b1 & 0x3F) as u32) << 6) | ((b2 & 0x3F) as u32))
            >= 0x800) == !(b0 == 0xE0 && b1 < 0xA0),
        ((0xD800 <= ((((b0 & 0x0F) as u32) << 12) | (((b1 & 0x3F) as u32) << 6) | ((b2
            & 0x3F) as u32))) && (((((b0 & 0x0F) as u32) << 12) | (((b1 & 0x3F) as u32) << 6)
            | ((b2 & 0x3F) as u32)) <= 0xDFFF)) == (b0 == 0xED && b1 >= 0xA0),
{
}

proof fn bv_width4(b0: u8, b1: u8, b2: u8, b3: u8)
    by (bit_vector)
    requires
        0xF0 <= b0 <= 0xF7,
        0x80 <= b1 <= 0xBF,
        0x80 <= b2 <= 0xBF,
        0x80 <= b3 <= 0xBF,
    ensures
        ((0x10000 <= ((((b0 & 0x07) as u32) << 18) | (((b1 & 0x3F) as u32) << 12) | (((b2
            & 0x3F) as u32) << 6) | ((b3 & 0x3F) as u32))) && (((((b0 & 0x07) as u32) << 18) | (((b1
            & 0x3F) as u32) << 12) | (((b2 & 0x3F) as u32) << 6) | ((b3 & 0x3F) as u32))
            <= 0x10ffff)) == ((b0 == 0xF0 ==> b1 >= 0x90) && b0 <= 0xF4 && (b0 == 0xF4 ==> b1
            <= 0x8F)),
{
}

/// The table-driven check agrees with vstd's notion of a well-formed first
/// scalar, and with its length.
pub proof fn lemma_scalar_ok(s: Seq<u8>)
    requires
        s.len() >= 1,
    ensures
        valid_first_scalar(s) == scalar_ok(s),
        scalar_ok(s) ==> length_of_first_scalar(s) == lead_width(s[0]),
{
    let b0 = s[0];
    if 0xC0 <= b0 <= 0xDF && s.len() >= 2 && is_cont(s[1]) {
        bv_width2(b0, s[1]);
    }
    if 0xE0 <= b0 <= 0xEF && s.len() >= 3 && is_cont(s[1]) && is_cont(s[2]) {
        bv_width3(b0, s[1], s[2]);
    }
    if 0xF0 <= b0 <= 0xF7 && s.len() >= 4 && is_cont(s[1]) && is_cont(s[2]) && is_cont(s[3]) {
        bv_width4(b0, s[1], s[2], s[3]);
    }
}

/// Appending to a valid prefix: the whole is valid exactly when the rest is.
pub proof fn lemma_valid_concat(a: Seq<u8>, b: Seq<u8>)
    requires
        valid_utf8(a),
    ensures
        valid_utf8(a + b) == valid_utf8(b),
    decreases a.len(),
{
    if a.len() == 0 {
        assert(a + b =~= b);
    } else {
        let ab = a + b;
        lemma_scalar_ok(a);
        lemma_scalar_ok(ab);
        let w = lead_width(a[0]);
        assert(ab.subrange(0, w) =~= a.subrange(0, w));
        assert(valid_first_scalar(ab));
        assert(pop_first_scalar(ab) =~= pop_first_scalar(a) + b);
        lemma_valid_concat(pop_first_scalar(a), b);
    }
}

proof fn lemma_single_scalar(q: Seq<u8>)
    requires
        q.len() >= 1,
        scalar_ok(q),
        q.len() == lead_width(q[0]),
    ensures
        valid_utf8(q),
{
    lemma_scalar_ok(q);
    assert(pop_first_scalar(q) =~= Seq::<u8>::empty());
    assert(valid_utf8(Seq::<u8>::empty()));
}

/// A proper prefix of a multi-byte scalar is never valid UTF-8, whatever is
/// appended unless the scalar is completed first.
proof fn lemma_incomplete_invalid(p: Seq<u8>)
    requires
        p.len() >= 1,
        p.len() < lead_width(p[0]),
    ensures
        !valid_utf8(p),
{
    lemma_scalar_ok(p);
}

fn byte_lead_width(b: u8) -> (r: usize)
    ensures
        r as int == lead_width(b),
{
    if b <= 0x7F {
        1
    } else if 0xC2 <= b && b <= 0xDF {
        2
    } else if 0xE0 <= b && b <= 0xEF {
        3
    } else if 0xF0 <= b && b <= 0xF4 {
        4
    } else {
        0
    }
}

/// Checks that the `w` bytes of `s` from `start` form one well-formed scalar
/// whose lead byte announces width `w`.
fn scalar_at_ok(s: &[u8], start: usize, w: usize) -> (r: bool)
    requires
        start + w <= s@.len(),
        1 <= w <= 4,
        lead_width(s@[start as int]) == w,
    ensures
        r == scalar_ok(s@.subrange(start as int, start + w)),
{
    let ghost q = s@.subrange(start as int, start + w);
    let a = s[start];
    if w == 1 {
        return true;
    }
    let b = s[start + 1];
    let b_ok = if a == 0xE0 {
        0xA0 <= b && b <= 0xBF
    } else if a == 0xED {
        0x80 <= b && b <= 0x9F
    } else if a == 0xF0 {
        0x90 <= b && b <= 0xBF
    } else if a == 0xF4 {
        0x80 <= b && b <= 0x8F
    } else {
        0x80 <= b && b <= 0xBF
    };
    if !b_ok {
        return false;
    }
    if w >= 3 {
        let c = s[start + 2];
        if !(0x80 <= c && c <= 0xBF) {
            return false;
        }
    }
    if w >= 4 {
        let d = s[start + 3];
        if !(0x80 <= d && d <= 0xBF) {
            return false;
        }
    }
    true
}

/// Validates that `bytes` is complete, well-formed UTF-8.
pub fn validate_utf8(bytes: &[u8]) -> (r: WsResult<()>)
    ensures
        r is Ok <==> valid_utf8(bytes@),
        r is Err ==> r == Err::<(), WsError>(WsError::InvalidUtf8),
{
    let n = bytes.len();
    let mut i: usize = 0;
    proof {
        assert(bytes@.subrange(0, n as int) =~= bytes@);
    }
    while i < n
        invariant
            n == bytes@.len(),
            i <= n,
            valid_utf8(bytes@) == valid_utf8(bytes@.subrange(i as int, n as int)),
        decreases n - i,
    {
        let ghost rest = bytes@.subrange(i as int, n as int);
        let w = byte_lead_width(bytes[i]);
        proof {
            lemma_scalar_ok(rest);
        }
        if w == 0 || n - i < w {
            return Err(WsError::InvalidUtf8);
        }
        if !scalar_at_ok(bytes, i, w) {
            proof {
                assert(rest.subrange(0, w as int) =~= bytes@.subrange(i as int, i + w));
            }
            return Err(WsError::InvalidUtf8);
        }
        proof {
            assert(rest.subrange(0, w as int) =~= bytes@.subrange(i as int, i + w));
            assert(pop_first_scalar(rest) =~= bytes@.subrange(i + w, n as int));
        }
        i = i + w;
    }
    Ok(())
}

/// Streaming UTF-8 validator that accepts incomplete trailing sequences
/// across fragment boundaries.
#[derive(Debug, Clone)]
pub struct Utf8Validator {
    /// Bytes of an incomplete multi-byte sequence carried across feeds.
    pending: Vec<u8>,
    /// Width of the sequence being assembled (0 when none is open).
    needed: u8,
}

impl View for Utf8Validator {
    type V = Seq<u8>;

    /// The bytes of the open multi-byte sequence.
    closed spec fn view(&self) -> Seq<u8> {
        self.pending@
    }
}

/// `p` is empty or a proper prefix of a well-formed multi-byte scalar: a
/// lead byte of width above the length, then bytes that may follow it.
pub open spec fn is_open_prefix(p: Seq<u8>) -> bool {
    p.len() == 0 || {
        &&& 2 <= lead_width(p[0])
        &&& p.len() < lead_width(p[0])
        &&& (p.len() >= 2 ==> second_ok(p[0], p[1]))
        &&& (p.len() >= 3 ==> is_cont(p[2]))
    }
}

/// A byte that may follow `lead` as the second byte of its scalar.
pub open spec fn second_choice(lead: u8) -> u8 {
    if lead == 0xE0 {
        0xA0
    } else if lead == 0xF0 {
        0x90
    } else {
        0x80
    }
}

/// The bytes that complete the open prefix `p` into one scalar.
pub open spec fn completion(p: Seq<u8>) -> Seq<u8> {
    let w = lead_width(p[0]);
    let mid = if p.len() == 1 {
        seq![second_choice(p[0])]
    } else {
        Seq::<u8>::empty()
    };
    mid + Seq::new((w - p.len() - mid.len()) as nat, |i: int| 0x80u8)
}

/// Every open prefix can still be completed to valid UTF-8.
pub proof fn lemma_open_prefix_extends(p: Seq<u8>)
    requires
        is_open_prefix(p),
    ensures
        exists|t: Seq<u8>| valid_utf8(#[trigger] (p + t)),
{
    if p.len() == 0 {
        assert(valid_utf8(p + Seq::<u8>::empty())) by {
            assert(p + Seq::<u8>::empty() =~= Seq::<u8>::empty());
        }
    } else {
        let t = completion(p);
        let q = p + t;
        let w = lead_width(p[0]);
        assert(q.len() == w);
        assert(q[0] == p[0]);
        if p.len() == 1 {
            assert(q[1] == second_choice(p[0]));
        } else {
            assert(q[1] == p[1]);
        }
        if w >= 3 {
            if p.len() >= 3 {
                assert(q[2] == p[2]);
            } else {
                assert(q[2] == 0x80u8);
            }
        }
        if w >= 4 {
            assert(q[3] == 0x80u8);
        }
        assert(scalar_ok(q));
        lemma_single_scalar(q);
    }
}

/// A valid prefix followed by an open sequence can still be completed.
pub proof fn lemma_consistent_extends(g: Seq<u8>, p: Seq<u8>, h: Seq<u8>)
    requires
        valid_utf8(g),
        g + p == h,
        is_open_prefix(p),
    ensures
        exists|t: Seq<u8>| valid_utf8(#[trigger] (h + t)),
{
    lemma_open_prefix_extends(p);
    let t = choose|t: Seq<u8>| valid_utf8(#[trigger] (p + t));
    lemma_valid_concat(g, p + t);
    assert(h + t =~= g + (p + t));
}

fn second_byte_ok(a: u8, b: u8) -> (r: bool)
    ensures
        r == second_ok(a, b),
{
    if a == 0xE0 {
        0xA0 <= b && b <= 0xBF
    } else if a == 0xED {
        0x80 <= b && b <= 0x9F
    } else if a == 0xF0 {
        0x90 <= b && b <= 0xBF
    } else if a == 0xF4 {
        0x80 <= b && b <= 0x8F
    } else {
        0x80 <= b && b <= 0xBF
    }
}

impl Utf8Validator {
    /// Internal consistency of the validator.
    pub closed spec fn wf(&self) -> bool {
        &&& is_open_prefix(self.pending@)
        &&& (self.pending@.len() == 0 ==> self.needed == 0)
        &&& (self.pending@.len() > 0 ==> self.needed == lead_width(self.pending@[0]))
    }

    /// The open sequence of a well-formed validator is empty or a proper
    /// prefix of a multi-byte scalar.
    pub proof fn lemma_open_prefix(&self)
        requires
            self.wf(),
        ensures
            is_open_prefix(self@),
    {
    }

    /// Creates a fresh validator with no pending state.
    pub fn new() -> (v: Utf8Validator)
        ensures
            v.wf(),
            v@ == Seq::<u8>::empty(),
    {
        Utf8Validator { pending: Vec::new(), needed: 0 }
    }

    /// Feeds the next fragment of a text message. Incomplete sequences at
    /// the end of `bytes` are retained for the next call.
    ///
    /// On success the bytes seen so far are a valid prefix followed by the
    /// open sequence; the call succeeds exactly when the bytes seen so far
    /// can still be completed to valid UTF-8, so any ill-formed byte fails.
    pub fn feed(&mut self, bytes: &[u8]) -> (r: WsResult<()>)
        requires
            old(self).wf(),
        ensures
            r is Ok ==> final(self).wf(),
            r is Ok ==> exists|g: Seq<u8>|
                valid_utf8(g) && #[trigger] (g + final(self)@) == old(self)@ + bytes@,
            (exists|t: Seq<u8>| valid_utf8(#[trigger] (old(self)@ + bytes@ + t))) <==> r is Ok,
            r is Err ==> r == Err::<(), WsError>(WsError::InvalidUtf8),
    {
        let ghost start = self.pending@;
        let ghost all = start + bytes@;
        let ghost mut g: Seq<u8> = Seq::empty();
        let n = bytes.len();
        let mut i: usize = 0;
        proof {
            assert(all.subrange(0, start.len() as int) =~= g + self.pending@);
        }
        while i < n
            invariant
                n == bytes@.len(),
                i <= n,
                all == start + bytes@,
                start == old(self)@,
                self.wf(),
                valid_utf8(g),
                g + self.pending@ == all.subrange(0, start.len() + i),
            decreases n - i,
        {
            let ghost rest = all.subrange(start.len() + i, all.len() as int);
            proof {
                assert(all =~= (g + self.pending@) + rest);
                assert(all =~= g + (self.pending@ + rest));
            }
            if self.pending.len() > 0 {
                let b = bytes[i];
                let b_ok = if self.pending.len() == 1 {
                    second_byte_ok(self.pending[0], b)
                } else {
                    0x80 <= b && b <= 0xBF
                };
                if !b_ok {
                    proof {
                        assert forall|t: Seq<u8>| !valid_utf8(#[trigger] (all + t)) by {
                            let x = self.pending@ + rest + t;
                            assert(all + t =~= g + x);
                            lemma_valid_concat(g, x);
                            lemma_scalar_ok(x);
                            assert(x[self.pending@.len() as int] == b);
                        }
                    }
                    return Err(WsError::InvalidUtf8);
                }
                self.pending.push(b);
                i = i + 1;
                proof {
                    assert(g + self.pending@ =~= all.subrange(0, start.len() + i));
                }
                if self.pending.len() == self.needed as usize {
                    let ghost p = self.pending@;
                    let ok = scalar_at_ok(self.pending.as_slice(), 0, self.needed as usize);
                    proof {
                        assert(p.subrange(0, p.len() as int) =~= p);
                        lemma_scalar_ok(p);
                    }
                    if !ok {
                        proof {
                            assert forall|t: Seq<u8>| !valid_utf8(#[trigger] (all + t)) by {
                                let rest2 = all.subrange(start.len() + i, all.len() as int);
                                let x = p + rest2 + t;
                                assert(all + t =~= g + x);
                                lemma_valid_concat(g, x);
                                lemma_scalar_ok(x);
                                assert(x.subrange(0, p.len() as int) =~= p);
                            }
                        }
                        return Err(WsError::InvalidUtf8);
                    }
                    proof {
                        lemma_single_scalar(p);
                        vstd::utf8::valid_utf8_concat(g, p);
                        g = g + p;
                    }
                    self.pending = Vec::new();
                    self.needed = 0;
                    proof {
                        assert(g + self.pending@ =~= all.subrange(0, start.len() + i));
                    }
                }
                continue;
            }
            let b = bytes[i];
            let width = byte_lead_width(b);
            if width == 0 {
                proof {
                    assert forall|t: Seq<u8>| !valid_utf8(#[trigger] (all + t)) by {
                        let x = rest + t;
                        assert(self.pending@ =~= Seq::<u8>::empty());
                        assert(all + t =~= g + x);
                        lemma_valid_concat(g, x);
                        lemma_scalar_ok(x);
                    }
                }
                return Err(WsError::InvalidUtf8);
            }
            if width == 1 {
                proof {
                    let one = seq![b];
                    lemma_single_scalar(one);
                    vstd::utf8::valid_utf8_concat(g, one);
                    g = g + one;
                }
                i = i + 1;
                proof {
                    assert(g + self.pending@ =~= all.subrange(0, start.len() + i));
                }
                continue;
            }
            let remaining = n - i;
            if remaining >= width {
                let ok = scalar_at_ok(bytes, i, width);
                let ghost q = bytes@.subrange(i as int, i + width);
                proof {
                    assert(q =~= rest.subrange(0, width as int));
                    lemma_scalar_ok(q);
                }
                if !ok {
                    proof {
                        assert forall|t: Seq<u8>| !valid_utf8(#[trigger] (all + t)) by {
                            let x = rest + t;
                            assert(self.pending@ =~= Seq::<u8>::empty());
                            assert(all + t =~= g + x);
                            lemma_valid_concat(g, x);
                            lemma_scalar_ok(x);
                            assert(x.subrange(0, width as int) =~= q);
                        }
                    }
                    return Err(WsError::InvalidUtf8);
                }
                proof {
                    lemma_single_scalar(q);
                    vstd::utf8::valid_utf8_concat(g, q);
                    g = g + q;
                }
                i = i + width;
                proof {
                    assert(g + self.pending@ =~= all.subrange(0, start.len() + i));
                }
            } else {
                if remaining >= 2 && !second_byte_ok(b, bytes[i + 1]) || remaining >= 3 && !(0x80 <= bytes[i + 2]
                    && bytes[i + 2] <= 0xBF) {
                    proof {
                        assert forall|t: Seq<u8>| !valid_utf8(#[trigger] (all + t)) by {
                            let x = rest + t;
                            assert(self.pending@ =~= Seq::<u8>::empty());
                            assert(all + t =~= g + x);
                            lemma_valid_concat(g, x);
                            lemma_scalar_ok(x);
                            assert(x[0] == b);
                            if remaining >= 2 {
                                assert(x[1] == bytes@[i + 1]);
                            }
                            if remaining >= 3 {
                                assert(x[2] == bytes@[i + 2]);
                            }
                        }
                    }
                    return Err(WsError::InvalidUtf8);
                }
                let mut k: usize = i;
                while k < n
                    invariant
                        i <= k <= n,
                        n == bytes@.len(),
                        self.pending@ == bytes@.subrange(i as int, k as int),
                    decreases n - k,
                {
                    self.pending.push(bytes[k]);
                    k = k + 1;
                    proof {
                        assert(self.pending@ =~= bytes@.subrange(i as int, k as int));
                    }
                }
                self.needed = width as u8;
                proof {
                    assert(g + self.pending@ =~= all.subrange(0, start.len() + n));
                    assert(all.subrange(0, start.len() + n) =~= all);
                    assert(self.pending@[0] == b);
                    assert(g + self@ == old(self)@ + bytes@);
                    lemma_consistent_extends(g, self@, old(self)@ + bytes@);
                }
                return Ok(());
            }
        }
        proof {
            assert(all.subrange(0, start.len() + n) =~= all);
            assert(g + self@ == old(self)@ + bytes@);
            lemma_consistent_extends(g, self@, old(self)@ + bytes@);
        }
        Ok(())
    }

    /// Completes validation; fails while a multi-byte sequence is open.
    pub fn finish(&self) -> (r: WsResult<()>)
        ensures
            r is Ok <==> self@.len() == 0,
            r is Err ==> r == Err::<(), WsError>(WsError::InvalidUtf8),
    {
        if self.pending.len() == 0 {
            Ok(())
        } else {
            Err(WsError::InvalidUtf8)
        }
    }

    /// Resets to the empty state.
    pub fn reset(&mut self)
        ensures
            final(self).wf(),
            final(self)@ == Seq::<u8>::empty(),
    {
        self.pending = Vec::new();
        self.needed = 0;
    }
}

impl Default for Utf8Validator {
    fn default() -> (v: Utf8Validator)
        ensures
            v.wf(),
            v@ == Seq::<u8>::empty(),
    {
        Utf8Validator::new()
    }
}

/// The bytes fed so far, split as a valid prefix and the open sequence that
/// a validator holds.
pub open spec fn consistent(history: Seq<u8>, pending: Seq<u8>) -> bool {
    exists|g: Seq<u8>| valid_utf8(g) && #[trigger] (g + pending) == history
}

/// After any sequence of successful feeds, `finish` succeeds exactly when
/// everything fed is valid UTF-8: a validator whose history is consistent
/// with its open sequence has an empty open sequence iff the history is
/// valid.
pub proof fn lemma_finish_iff_valid(history: Seq<u8>, pending: Seq<u8>)
    requires
        consistent(history, pending),
        is_open_prefix(pending),
    ensures
        pending.len() == 0 <==> valid_utf8(history),
{
    let g = choose|g: Seq<u8>| valid_utf8(g) && #[trigger] (g + pending) == history;
    lemma_valid_concat(g, pending);
    if pending.len() == 0 {
        assert(g + pending =~= g);
    } else {
        lemma_incomplete_invalid(pending);
    }
}

/// Successful feeds compose: if the history so far is consistent with the
/// open sequence, and a feed of `bytes` succeeded (its contract), the longer
/// history is consistent with the new open sequence.
pub proof fn lemma_feed_extends(history: Seq<u8>, pending: Seq<u8>, bytes: Seq<u8>, next: Seq<u8>)
    requires
        consistent(history, pending),
        exists|g: Seq<u8>| valid_utf8(g) && #[trigger] (g + next) == pending + bytes,
    ensures
        consistent(history + bytes, next),
{
    let g1 = choose|g: Seq<u8>| valid_utf8(g) && #[trigger] (g + pending) == history;
    let g2 = choose|g: Seq<u8>| valid_utf8(g) && #[trigger] (g + next) == pending + bytes;
    vstd::utf8::valid_utf8_concat(g1, g2);
    assert(history + bytes =~= g1 + (pending + bytes));
    assert(g1 + (g2 + next) =~= (g1 + g2) + next);
    assert((g1 + g2) + next == history + bytes);
}

/// Completeness across feeds: when the whole message (history, this chunk,
/// and what follows) is valid UTF-8, the chunk satisfies the condition under
/// which `feed` promises success.
pub proof fn lemma_valid_message_feeds(history: Seq<u8>, pending: Seq<u8>, bytes: Seq<u8>, later: Seq<u8>)
    requires
        consistent(history, pending),
        valid_utf8(history + bytes + later),
    ensures
        valid_utf8(pending + bytes + later),
{
    let g = choose|g: Seq<u8>| valid_utf8(g) && #[trigger] (g + pending) == history;
    assert(history + bytes + later =~= g + (pending + bytes + later));
    lemma_valid_concat(g, pending + bytes + later);
}

/// Feeding a byte string to a fresh validator in two pieces, split at any
/// `k`, and then finishing succeeds exactly when the string is valid UTF-8.
/// `ok1`/`q1` and `ok2`/`q2` are what the two feeds give (their contract):
/// a feed succeeds exactly when what was fed can still be completed, and
/// then leaves an open sequence after a valid prefix.
pub proof fn lemma_split_feeds(s: Seq<u8>, k: int, ok1: bool, q1: Seq<u8>, ok2: bool, q2: Seq<u8>)
    requires
        0 <= k <= s.len(),
        ok1 == exists|t: Seq<u8>| valid_utf8(#[trigger] (Seq::<u8>::empty() + s.subrange(0, k) + t)),
        ok1 ==> is_open_prefix(q1) && exists|g: Seq<u8>| valid_utf8(g) && #[trigger] (g + q1) == Seq::<u8>::empty()
            + s.subrange(0, k),
        ok2 == (ok1 && exists|t: Seq<u8>| valid_utf8(#[trigger] (q1 + s.subrange(k, s.len() as int) + t))),
        ok2 ==> is_open_prefix(q2) && exists|g: Seq<u8>| valid_utf8(g) && #[trigger] (g + q2) == q1 + s.subrange(
            k,
            s.len() as int,
        ),
    ensures
        (ok1 && ok2 && q2.len() == 0) <==> valid_utf8(s),
{
    let a = s.subrange(0, k);
    let b = s.subrange(k, s.len() as int);
    assert(Seq::<u8>::empty() + a =~= a);
    assert(a + b =~= s);
    if ok1 {
        assert(consistent(a, q1));
    }
    if valid_utf8(s) {
        assert(Seq::<u8>::empty() + a + b =~= s);
        assert(ok1);
        lemma_valid_message_feeds(a, q1, b, Seq::<u8>::empty());
        assert(q1 + b + Seq::<u8>::empty() =~= q1 + b);
        assert(ok2);
    }
    if ok1 && ok2 {
        lemma_feed_extends(a, q1, b, q2);
        lemma_finish_iff_valid(s, q2);
    }
}

} // verus!
