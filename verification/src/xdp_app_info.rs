//! Identity of the application calling a portal: capability flags, sandbox
//! kinds, USB device queries (`all`, `cls:<class>:<subclass>`,
//! `dev:<product>`, `vnd:<vendor>` rules joined with `+`), and the
//! [`AppInfo`] of host and snap applications.

use vstd::prelude::*;
use vstd::utf8::*;
use crate::http_text::{int_pairs, lemma_split_shape, split_on, split_ranges, str_chars};
use crate::header_map::str_eq;
use crate::outside::string_from_utf8;
use crate::ws_handshake::{opt_str, opt_text};
use crate::ws_utf8::validate_utf8;
use crate::xdp_error::PortalError;
use crate::text::{octal_chars, octal_string, signed_chars, signed_string, string_views};

verus! {

broadcast use vstd::seq::group_seq_axioms;

/// Capability flags of an application.
#[derive(Debug, Clone, Copy, PartialEq, Eq, Structural)]
pub struct AppInfoFlags(pub u8);

impl Default for AppInfoFlags {
    fn default() -> (f: AppInfoFlags)
        ensures
            f.0 == 0,
    {
        AppInfoFlags(0)
    }
}

impl AppInfoFlags {
    /// The application has network access inside its sandbox.
    pub fn has_network() -> (f: AppInfoFlags)
        ensures
            f.0 == 1,
    {
        AppInfoFlags(1)
    }

    /// The application may pass `O_PATH` file descriptors.
    pub fn supports_opath() -> (f: AppInfoFlags)
        ensures
            f.0 == 2,
    {
        AppInfoFlags(2)
    }

    /// A desktop entry must exist for the application id.
    pub fn require_gappinfo() -> (f: AppInfoFlags)
        ensures
            f.0 == 4,
    {
        AppInfoFlags(4)
    }

    /// Whether every bit of `other` is present in `self`.
    pub fn contains(self, other: AppInfoFlags) -> (r: bool)
        ensures
            r == (self.0 & other.0 == other.0),
    {
        self.0 & other.0 == other.0
    }

    /// The flags of both.
    pub fn union(self, other: AppInfoFlags) -> (r: AppInfoFlags)
        ensures
            r.0 == self.0 | other.0,
    {
        AppInfoFlags(self.0 | other.0)
    }
}

/// The sandbox engine hosting an application.
#[derive(Debug, Clone, Copy, PartialEq, Eq, Structural)]
pub enum AppInfoKind {
    /// No sandbox; the application runs directly on the host.
    Host,
    /// A flatpak sandbox.
    Flatpak,
    /// A snap sandbox.
    Snap,
}

/// Whether a [`UsbQuery`] matches enumerable or hidden devices.
#[derive(Debug, Clone, Copy, PartialEq, Eq)]
pub enum UsbQueryType {
    /// Devices the application may see (`enumerable-devices`).
    Enumerable,
    /// Devices the application must not see (`hidden-devices`).
    Hidden,
}

/// One rule of a USB device query.
#[derive(Debug, Clone, Copy, PartialEq, Eq)]
pub enum UsbRule {
    /// `all`: every device.
    All,
    /// `cls:<class>:<subclass>`: device class match; `subclass` is `None`
    /// for the `*` wildcard.
    Class {
        /// USB device class in hex.
        class: u16,
        /// USB subclass in hex, or `None` when wildcarded.
        subclass: Option<u16>,
    },
    /// `dev:<product>`: product id match.
    Device {
        /// USB product id in hex.
        product: u16,
    },
    /// `vnd:<vendor>`: vendor id match.
    Vendor {
        /// USB vendor id in hex.
        vendor: u16,
    },
}

/// A parsed USB device query of `+`-joined rules.
#[derive(Debug, Clone, PartialEq, Eq)]
pub struct UsbQuery {
    /// Whether the query lists enumerable or hidden devices.
    pub query_type: UsbQueryType,
    /// The rules that make up the query; never empty.
    pub rules: Vec<UsbRule>,
}

/// The value of an ASCII hexadecimal digit.
pub open spec fn hex_digit_value(c: char) -> int {
    if '0' <= c && c <= '9' {
        c as int - 48
    } else if 'a' <= c && c <= 'f' {
        c as int - 87
    } else {
        c as int - 55
    }
}

/// An ASCII hexadecimal digit.
pub open spec fn is_hex_digit(c: char) -> bool {
    ('0' <= c && c <= '9') || ('a' <= c && c <= 'f') || ('A' <= c && c <= 'F')
}

/// The value of a string of hexadecimal digits.
pub open spec fn hex_value(s: Seq<char>) -> int
    decreases s.len(),
{
    if s.len() == 0 {
        0
    } else {
        hex_value(s.drop_last()) * 16 + hex_digit_value(s.last())
    }
}

/// The number `value` stands for when it is exactly `n` hexadecimal digits
/// (ASCII case ignored) with a non-zero value that fits in 16 bits.
pub open spec fn hex_u16_spec(value: Seq<char>, n: nat) -> Option<u16> {
    if value.len() == n && n > 0 && (forall|i: int| 0 <= i < value.len() ==> #[trigger] is_hex_digit(value[i]))
        && 0 < hex_value(value) <= 0xFFFF {
        Some(hex_value(value) as u16)
    } else {
        None
    }
}

proof fn lemma_hex_monotone(s: Seq<char>, i: int)
    requires
        0 <= i <= s.len(),
        forall|k: int| 0 <= k < s.len() ==> #[trigger] is_hex_digit(s[k]),
    ensures
        0 <= hex_value(s.subrange(0, i)) <= hex_value(s),
    decreases s.len() - i,
{
    if i < s.len() {
        lemma_hex_monotone(s, i + 1);
        let p = s.subrange(0, i + 1);
        assert(p.drop_last() =~= s.subrange(0, i));
        assert(is_hex_digit(s[i]));
    } else {
        assert(s.subrange(0, i) =~= s);
    }
    lemma_hex_nonneg(s.subrange(0, i));
}

proof fn lemma_hex_nonneg(s: Seq<char>)
    requires
        forall|k: int| 0 <= k < s.len() ==> #[trigger] is_hex_digit(s[k]),
    ensures
        hex_value(s) >= 0,
    decreases s.len(),
{
    if s.len() > 0 {
        let p = s.drop_last();
        assert forall|k: int| 0 <= k < p.len() implies #[trigger] is_hex_digit(p[k]) by {
            assert(p[k] == s[k]);
        }
        lemma_hex_nonneg(p);
        assert(is_hex_digit(s[s.len() - 1]));
    }
}

/// Parses `cs[lo..hi]` as a non-zero `u16` of exactly `n` hexadecimal
/// digits.
fn hex_u16_chars(cs: &[char], lo: usize, hi: usize, n: usize) -> (r: Option<u16>)
    requires
        lo <= hi <= cs@.len(),
    ensures
        r == hex_u16_spec(cs@.subrange(lo as int, hi as int), n as nat),
{
    let ghost s = cs@.subrange(lo as int, hi as int);
    if hi - lo != n || n == 0 {
        return None;
    }
    let mut acc: u32 = 0;
    let mut i = lo;
    while i < hi
        invariant
            lo <= i <= hi <= cs@.len(),
            s == cs@.subrange(lo as int, hi as int),
            forall|k: int| lo <= k < i ==> #[trigger] is_hex_digit(cs@[k]),
            acc == hex_value(cs@.subrange(lo as int, i as int)),
            acc <= 0xFFFF,
        decreases hi - i,
    {
        let c = cs[i];
        let d: u32 = if '0' <= c && c <= '9' {
            (c as u32) - 48
        } else if 'a' <= c && c <= 'f' {
            (c as u32) - 87
        } else if 'A' <= c && c <= 'F' {
            (c as u32) - 55
        } else {
            proof {
                assert(s[i - lo] == c);
                assert(!is_hex_digit(s[i - lo]));
            }
            return None;
        };
        let next = acc * 16 + d;
        proof {
            let p = cs@.subrange(lo as int, i + 1);
            assert(p.drop_last() =~= cs@.subrange(lo as int, i as int));
            assert(p.last() == c);
            assert(hex_value(p) == next);
        }
        if next > 0xFFFF {
            proof {
                assert forall|k: int| 0 <= k < (i + 1 - lo) implies #[trigger] is_hex_digit(s[k]) by {
                    assert(s[k] == cs@[lo + k]);
                }
                if forall|k: int| 0 <= k < s.len() ==> #[trigger] is_hex_digit(s[k]) {
                    assert(s.subrange(0, i + 1 - lo) =~= cs@.subrange(lo as int, i + 1));
                    lemma_hex_monotone(s, i + 1 - lo);
                }
            }
            return None;
        }
        acc = next;
        i = i + 1;
    }
    proof {
        assert(cs@.subrange(lo as int, i as int) =~= s);
        assert forall|k: int| 0 <= k < s.len() implies #[trigger] is_hex_digit(s[k]) by {
            assert(s[k] == cs@[lo + k]);
        }
    }
    if acc == 0 {
        return None;
    }
    Some(acc as u16)
}

/// Parses `value` as a non-zero `u16` of exactly `expected_length`
/// hexadecimal digits.
pub fn validate_hex_uint16(value: &str, expected_length: usize) -> (r: Option<u16>)
    ensures
        r == hex_u16_spec(value@, expected_length as nat),
{
    let cs = str_chars(value);
    proof {
        assert(cs@.subrange(0, cs@.len() as int) =~= value@);
    }
    hex_u16_chars(cs.as_slice(), 0, cs.len(), expected_length)
}

/// The rule that `string` (pieces `ps` of its text `cs` split at `:`)
/// stands for.
pub open spec fn rule_spec(cs: Seq<char>) -> Option<UsbRule> {
    let ps = split_ranges(cs, ':', 0, cs.len() as int);
    let part = |k: int| cs.subrange(ps[k].0, ps[k].1);
    if ps.len() > 3 {
        None
    } else if part(0) == "all"@ && ps.len() == 1 {
        Some(UsbRule::All)
    } else if part(0) == "cls"@ && ps.len() == 3 {
        match hex_u16_spec(part(1), 2) {
            None => None,
            Some(class) => if part(2) == "*"@ {
                Some(UsbRule::Class { class, subclass: None })
            } else {
                match hex_u16_spec(part(2), 2) {
                    None => None,
                    Some(sub) => Some(UsbRule::Class { class, subclass: Some(sub) }),
                }
            },
        }
    } else if part(0) == "dev"@ && ps.len() == 2 {
        match hex_u16_spec(part(1), 4) {
            None => None,
            Some(product) => Some(UsbRule::Device { product }),
        }
    } else if part(0) == "vnd"@ && ps.len() == 2 {
        match hex_u16_spec(part(1), 4) {
            None => None,
            Some(vendor) => Some(UsbRule::Vendor { vendor }),
        }
    } else {
        None
    }
}

/// Parses the rule `cs[lo..hi]`.
fn rule_from_chars(cs: &[char]) -> (r: Option<UsbRule>)
    ensures
        r == rule_spec(cs@),
{
    let ps = split_on(cs, ':', 0, cs.len());
    let ghost all = int_pairs(ps@);
    proof {
        lemma_split_shape(cs@, ':', cs@.len() as int, 0, 0);
    }
    if ps.len() > 3 {
        return None;
    }
    proof {
        assert(all[0] == (ps@[0].0 as int, ps@[0].1 as int));
        if ps@.len() > 1 {
            assert(all[1] == (ps@[1].0 as int, ps@[1].1 as int));
        }
        if ps@.len() > 2 {
            assert(all[2] == (ps@[2].0 as int, ps@[2].1 as int));
        }
    }
    let (a0, b0) = ps[0];
    let head = vstd::slice::slice_subrange(cs, a0, b0);
    let kind = chars_to_str_kind(head);
    if kind == 1 && ps.len() == 1 {
        return Some(UsbRule::All);
    }
    if kind == 2 && ps.len() == 3 {
        let (a1, b1) = ps[1];
        let class = match hex_u16_chars(cs, a1, b1, 2) {
            Some(v) => v,
            None => {
                return None;
            },
        };
        let (a2, b2) = ps[2];
        if b2 > a2 && b2 - a2 == 1 && cs[a2] == '*' {
            proof {
                reveal_strlit("*");
                assert(cs@.subrange(a2 as int, b2 as int) =~= "*"@);
            }
            return Some(UsbRule::Class { class, subclass: None });
        }
        proof {
            reveal_strlit("*");
            if cs@.subrange(a2 as int, b2 as int) == "*"@ {
                assert(b2 - a2 == 1);
                assert(cs@.subrange(a2 as int, b2 as int)[0] == cs@[a2 as int]);
            }
        }
        return match hex_u16_chars(cs, a2, b2, 2) {
            Some(sub) => Some(UsbRule::Class { class, subclass: Some(sub) }),
            None => None,
        };
    }
    if kind == 3 && ps.len() == 2 {
        let (a1, b1) = ps[1];
        return match hex_u16_chars(cs, a1, b1, 4) {
            Some(product) => Some(UsbRule::Device { product }),
            None => None,
        };
    }
    if kind == 4 && ps.len() == 2 {
        let (a1, b1) = ps[1];
        return match hex_u16_chars(cs, a1, b1, 4) {
            Some(vendor) => Some(UsbRule::Vendor { vendor }),
            None => None,
        };
    }
    None
}

/// Which rule keyword `head` is: 1 `all`, 2 `cls`, 3 `dev`, 4 `vnd`, 0 none.
fn chars_to_str_kind(head: &[char]) -> (k: u8)
    ensures
        k == 1 <==> head@ == "all"@,
        k == 2 <==> head@ == "cls"@,
        k == 3 <==> head@ == "dev"@,
        k == 4 <==> head@ == "vnd"@,
        k <= 4,
{
    proof {
        reveal_strlit("all");
        reveal_strlit("cls");
        reveal_strlit("dev");
        reveal_strlit("vnd");
    }
    if head.len() != 3 {
        return 0;
    }
    let (x, y, z) = (head[0], head[1], head[2]);
    let k: u8 = if x == 'a' && y == 'l' && z == 'l' {
        1
    } else if x == 'c' && y == 'l' && z == 's' {
        2
    } else if x == 'd' && y == 'e' && z == 'v' {
        3
    } else if x == 'v' && y == 'n' && z == 'd' {
        4
    } else {
        0
    };
    proof {
        if k == 1 {
            assert(head@ =~= "all"@);
        }
        if k == 2 {
            assert(head@ =~= "cls"@);
        }
        if k == 3 {
            assert(head@ =~= "dev"@);
        }
        if k == 4 {
            assert(head@ =~= "vnd"@);
        }
    }
    k
}

/// Parses one `all`/`cls`/`dev`/`vnd` rule string.
pub fn usb_rule_from_string(string: &str) -> (r: Option<UsbRule>)
    ensures
        r == rule_spec(string@),
{
    let cs = str_chars(string);
    rule_from_chars(cs.as_slice())
}

/// The rules of the `+`-separated pieces `ps` of `cs`, or `None` when one
/// of them is not a rule.
pub open spec fn rules_of(cs: Seq<char>, ps: Seq<(int, int)>) -> Option<Seq<UsbRule>>
    decreases ps.len(),
{
    if ps.len() == 0 {
        Some(seq![])
    } else {
        match rules_of(cs, ps.drop_last()) {
            None => None,
            Some(rs) => match rule_spec(cs.subrange(ps.last().0, ps.last().1)) {
                None => None,
                Some(r) => Some(rs.push(r)),
            },
        }
    }
}

/// Parses a `+`-joined query string; `None` when any rule is invalid.
pub fn usb_query_from_string(query_type: UsbQueryType, string: &str) -> (r: Option<UsbQuery>)
    ensures
        match rules_of(string@, split_ranges(string@, '+', 0, string@.len() as int)) {
            None => r is None,
            Some(rs) => if rs.len() == 0 {
                r is None
            } else {
                r matches Some(q) && q.query_type == query_type && q.rules@ == rs
            },
        },
{
    let cs = str_chars(string);
    let ps = split_on(cs.as_slice(), '+', 0, cs.len());
    let ghost all = int_pairs(ps@);
    proof {
        lemma_split_shape(cs@, '+', cs@.len() as int, 0, 0);
    }
    let mut rules: Vec<UsbRule> = Vec::new();
    let mut k: usize = 0;
    while k < ps.len()
        invariant
            all == int_pairs(ps@),
            all == split_ranges(cs@, '+', 0, cs@.len() as int),
            cs@ == string@,
            k <= ps@.len(),
            forall|j: int| 0 <= j < all.len() ==> 0 <= #[trigger] all[j].0 <= all[j].1 <= cs@.len(),
            rules_of(cs@, all.subrange(0, k as int)) == Some(rules@),
        decreases ps@.len() - k,
    {
        let (lo, hi) = ps[k];
        proof {
            assert(all[k as int] == (lo as int, hi as int));
            assert(all.subrange(0, k + 1).drop_last() =~= all.subrange(0, k as int));
            assert(all.subrange(0, k + 1).last() == all[k as int]);
        }
        let piece = vstd::slice::slice_subrange(cs.as_slice(), lo, hi);
        match rule_from_chars(piece) {
            Some(rule) => {
                rules.push(rule);
            },
            None => {
                proof {
                    lemma_rules_none_extends(cs@, all, k as int + 1);
                    assert(all.subrange(0, ps@.len() as int) =~= all);
                }
                return None;
            },
        }
        k = k + 1;
    }
    proof {
        assert(all.subrange(0, ps@.len() as int) =~= all);
    }
    if rules.len() == 0 {
        return None;
    }
    Some(UsbQuery { query_type, rules })
}

/// Once a prefix of the pieces fails to parse, so does every longer prefix.
proof fn lemma_rules_none_extends(cs: Seq<char>, ps: Seq<(int, int)>, k: int)
    requires
        0 <= k <= ps.len(),
        rules_of(cs, ps.subrange(0, k)) is None,
    ensures
        rules_of(cs, ps) is None,
    decreases ps.len() - k,
{
    if k < ps.len() {
        assert(ps.subrange(0, k + 1).drop_last() =~= ps.subrange(0, k));
        lemma_rules_none_extends(cs, ps, k + 1);
    } else {
        assert(ps.subrange(0, k) =~= ps);
    }
}

/// The type name the C implementation reports for each kind.
pub open spec fn kind_type_name(k: AppInfoKind) -> Seq<char> {
    match k {
        AppInfoKind::Host => "XdpAppInfoHost"@,
        AppInfoKind::Flatpak => "XdpAppInfoFlatpak"@,
        AppInfoKind::Snap => "XdpAppInfoSnap"@,
    }
}

impl AppInfoKind {
    /// Returns the type name the C implementation reports for the kind.
    fn kind_name(self) -> (r: &'static str)
        ensures
            r@ == kind_type_name(self),
    {
        match self {
            AppInfoKind::Host => "XdpAppInfoHost",
            AppInfoKind::Flatpak => "XdpAppInfoFlatpak",
            AppInfoKind::Snap => "XdpAppInfoSnap",
        }
    }
}

/// The type and rules of each query.
pub open spec fn query_views(qs: Seq<UsbQuery>) -> Seq<(UsbQueryType, Seq<UsbRule>)> {
    qs.map_values(|q: UsbQuery| (q.query_type, q.rules@))
}

/// What an [`AppInfo`] holds.
pub struct AppInfoView {
    pub kind: AppInfoKind,
    pub sender: Seq<char>,
    pub id: Seq<char>,
    pub instance: Option<Seq<char>>,
    pub engine: Option<Seq<char>>,
    pub flags: u8,
    pub desktop_file: Option<Seq<char>>,
    pub usb_queries: Option<Seq<(UsbQueryType, Seq<UsbRule>)>>,
}

/// Identity of the process calling a portal.
#[derive(Debug, Clone, PartialEq, Eq)]
pub struct AppInfo {
    kind: AppInfoKind,
    sender: String,
    id: String,
    instance: Option<String>,
    engine: Option<String>,
    flags: AppInfoFlags,
    desktop_file: Option<String>,
    usb_queries: Option<Vec<UsbQuery>>,
}

impl View for AppInfo {
    type V = AppInfoView;

    closed spec fn view(&self) -> AppInfoView {
        AppInfoView {
            kind: self.kind,
            sender: self.sender@,
            id: self.id@,
            instance: opt_text(self.instance),
            engine: opt_text(self.engine),
            flags: self.flags.0,
            desktop_file: opt_text(self.desktop_file),
            usb_queries: match self.usb_queries {
                Some(v) => Some(query_views(v@)),
                None => None,
            },
        }
    }
}

/// A host application calling from `sender`: empty id, network and
/// `O_PATH` access, every USB device enumerable.
pub open spec fn host_view(sender: Seq<char>) -> AppInfoView {
    AppInfoView {
        kind: AppInfoKind::Host,
        sender: sender,
        id: seq![],
        instance: None,
        engine: None,
        flags: 3,
        desktop_file: None,
        usb_queries: Some(seq![(UsbQueryType::Enumerable, seq![UsbRule::All])]),
    }
}

/// Index of the NUL byte ending the entry of `env` that starts at `i`.
pub open spec fn entry_end(env: Seq<u8>, i: int) -> int
    decreases env.len() - i,
{
    if i >= env.len() || i < 0 {
        env.len() as int
    } else if env[i] == 0 {
        i
    } else {
        entry_end(env, i + 1)
    }
}

/// The value of the first NUL separated entry of `env`, from the one at
/// `start` on, that starts with `key`.
pub open spec fn entry_value(env: Seq<u8>, key: Seq<u8>, start: int) -> Option<Seq<u8>>
    decreases env.len() - start,
{
    if start < 0 || start > env.len() {
        None
    } else {
        let end = entry_end(env, start);
        let entry = env.subrange(start, end);
        if key.len() <= entry.len() && entry.subrange(0, key.len() as int) == key {
            Some(entry.subrange(key.len() as int, entry.len() as int))
        } else if end >= env.len() {
            None
        } else {
            proof {
                lemma_entry_end_bounds(env, start);
            }
            entry_value(env, key, end + 1)
        }
    }
}

/// An entry ends at or after its start and within the environment.
pub proof fn lemma_entry_end_bounds(env: Seq<u8>, i: int)
    requires
        0 <= i <= env.len(),
    ensures
        i <= entry_end(env, i) <= env.len(),
    decreases env.len() - i,
{
    if i < env.len() && env[i] != 0 {
        lemma_entry_end_bounds(env, i + 1);
    }
}

/// The snap application described by the process environment `env`
/// (NUL separated `KEY=value` entries): `SNAP_NAME` must be set, non-empty
/// and UTF-8; `SNAP_DESKTOP_FILE` gives the desktop file when non-empty
/// UTF-8; `SNAP_HAS_NETWORK_STATUS=true` grants network access.
pub open spec fn snap_view(sender: Seq<char>, env: Seq<u8>) -> Option<AppInfoView> {
    match entry_value(env, encode_utf8("SNAP_NAME="@), 0) {
        None => None,
        Some(name) => if name.len() == 0 || !valid_utf8(name) {
            None
        } else {
            let desktop = match entry_value(env, encode_utf8("SNAP_DESKTOP_FILE="@), 0) {
                Some(v) => if valid_utf8(v) && v.len() > 0 {
                    Some(decode_utf8(v))
                } else {
                    None
                },
                None => None,
            };
            let net = match entry_value(env, encode_utf8("SNAP_HAS_NETWORK_STATUS="@), 0) {
                Some(v) => valid_utf8(v) && decode_utf8(v) == "true"@,
                None => false,
            };
            Some(
                AppInfoView {
                    kind: AppInfoKind::Snap,
                    sender: sender,
                    id: "snap."@ + decode_utf8(name),
                    instance: None,
                    engine: Some("io.snapcraft"@),
                    flags: if net { 1 } else { 0 },
                    desktop_file: desktop,
                    usb_queries: None,
                },
            )
        },
    }
}

/// Looks up `key=value` inside NUL separated `environ` bytes.
fn environ_value(environ: &[u8], key: &[u8]) -> (r: Option<Vec<u8>>)
    ensures
        match entry_value(environ@, key@, 0) {
            Some(v) => r matches Some(w) && w@ == v,
            None => r is None,
        },
{
    let n = environ.len();
    let mut start: usize = 0;
    while start <= n
        invariant
            n == environ@.len(),
            entry_value(environ@, key@, 0) == entry_value(environ@, key@, start as int),
        decreases n + 1 - start,
    {
        let mut end = start;
        while end < n && environ[end] != 0
            invariant
                start <= end <= n,
                n == environ@.len(),
                entry_end(environ@, start as int) == entry_end(environ@, end as int),
            decreases n - end,
        {
            end = end + 1;
        }
        let ghost entry = environ@.subrange(start as int, end as int);
        if key.len() <= end - start {
            let mut i: usize = 0;
            let mut same = true;
            proof {
                assert(entry.subrange(0, 0) =~= key@.subrange(0, 0));
            }
            while i < key.len()
                invariant
                    i <= key@.len(),
                    key@.len() <= end - start,
                    end <= n,
                    n == environ@.len(),
                    same == (entry.subrange(0, i as int) == key@.subrange(0, i as int)),
                    entry == environ@.subrange(start as int, end as int),
                decreases key@.len() - i,
            {
                let ghost was = same;
                if environ[start + i] != key[i] {
                    same = false;
                }
                i = i + 1;
                proof {
                    if was && environ@[start + i - 1] == key@[i - 1] {
                        assert(entry.subrange(0, i as int) =~= key@.subrange(0, i as int));
                    } else {
                        let a = entry.subrange(0, i as int);
                        let b = key@.subrange(0, i as int);
                        if !was {
                            assert(a.subrange(0, i - 1) =~= entry.subrange(0, i - 1));
                            assert(b.subrange(0, i - 1) =~= key@.subrange(0, i - 1));
                        } else {
                            assert(a[i - 1] != b[i - 1]);
                        }
                        assert(a != b);
                    }
                }
            }
            proof {
                assert(key@.subrange(0, key@.len() as int) =~= key@);
            }
            if same {
                let mut v: Vec<u8> = Vec::new();
                let mut j = start + key.len();
                while j < end
                    invariant
                        start + key@.len() <= j <= end <= n,
                        n == environ@.len(),
                        v@ == environ@.subrange(start + key@.len(), j as int),
                    decreases end - j,
                {
                    v.push(environ[j]);
                    j = j + 1;
                    proof {
                        assert(v@ =~= environ@.subrange(start + key@.len(), j as int));
                    }
                }
                proof {
                    assert(entry.subrange(key@.len() as int, entry.len() as int) =~= v@);
                }
                return Some(v);
            }
        }
        if end >= n {
            return None;
        }
        start = end + 1;
    }
    None
}

/// `c` may stand in an application name element; `first` for its first
/// character, `last` for the final element, the only one that may hold
/// `-`.
pub open spec fn name_char_ok(c: char, first: bool, last: bool) -> bool {
    ||| ('a' <= c && c <= 'z') || ('A' <= c && c <= 'Z') || c == '_'
    ||| (last && c == '-')
    ||| (!first && '0' <= c && c <= '9')
}

/// `cs[lo..hi]` is a valid name element.
pub open spec fn element_ok(cs: Seq<char>, lo: int, hi: int, last: bool) -> bool {
    lo < hi && forall|i: int| lo <= i < hi ==> name_char_ok(#[trigger] cs[i], i == lo, last)
}

/// A valid flatpak name: 1 to 255 bytes, three or more dot separated
/// elements made of ASCII letters, digits and `_`, not starting with a
/// digit, with dashes only in the final element.
pub open spec fn flatpak_name(s: Seq<char>) -> bool {
    let ps = split_ranges(s, '.', 0, s.len() as int);
    &&& 0 < encode_utf8(s).len() <= 255
    &&& ps.len() >= 3
    &&& forall|k: int| 0 <= k < ps.len() ==> element_ok(s, #[trigger] ps[k].0, ps[k].1, k == ps.len() - 1)
}

/// Whether `string` is a valid flatpak name.
fn is_flatpak_name(string: &str) -> (r: bool)
    ensures
        r == flatpak_name(string@),
{
    let len = string.as_bytes().len();
    if len == 0 || len > 255 {
        return false;
    }
    let cs = str_chars(string);
    let ps = split_on(cs.as_slice(), '.', 0, cs.len());
    let ghost all = int_pairs(ps@);
    proof {
        lemma_split_shape(cs@, '.', cs@.len() as int, 0, 0);
    }
    if ps.len() < 3 {
        return false;
    }
    let mut k: usize = 0;
    while k < ps.len()
        invariant
            cs@ == string@,
            0 < encode_utf8(string@).len() <= 255,
            all.len() >= 3,
            all == int_pairs(ps@),
            all == split_ranges(cs@, '.', 0, cs@.len() as int),
            k <= ps@.len(),
            forall|j: int| 0 <= j < all.len() ==> 0 <= #[trigger] all[j].0 <= all[j].1 <= cs@.len(),
            forall|j: int| 0 <= j < k ==> element_ok(cs@, #[trigger] all[j].0, all[j].1, j == all.len() - 1),
        decreases ps@.len() - k,
    {
        let (lo, hi) = ps[k];
        proof {
            assert(all[k as int] == (lo as int, hi as int));
        }
        let last = k == ps.len() - 1;
        if lo >= hi {
            return false;
        }
        proof {
            assert(ps@.len() == all.len());
        }
        let mut i = lo;
        while i < hi
            invariant
                lo <= i <= hi <= cs@.len(),
                cs@ == string@,
                all == split_ranges(cs@, '.', 0, cs@.len() as int),
                k < all.len(),
                all[k as int] == (lo as int, hi as int),
                last == (k == all.len() - 1),
                forall|m: int| lo <= m < i ==> name_char_ok(#[trigger] cs@[m], m == lo, last),
            decreases hi - i,
        {
            let c = cs[i];
            let ok = ('a' <= c && c <= 'z') || ('A' <= c && c <= 'Z') || c == '_' || (last && c == '-')
                || (i != lo && '0' <= c && c <= '9');
            if !ok {
                proof {
                    assert(!name_char_ok(cs@[i as int], i == lo, last));
                    assert(!element_ok(cs@, all[k as int].0, all[k as int].1, k == all.len() - 1));
                }
                return false;
            }
            i = i + 1;
        }
        k = k + 1;
    }
    true
}

/// `sub` may act as a sub application of the application `v`: any id for
/// host applications, none for snaps, and for flatpaks the id, a dot and
/// more, forming a valid flatpak name.
pub open spec fn sub_app_ok(v: AppInfoView, sub: Seq<char>) -> bool {
    match v.kind {
        AppInfoKind::Host => true,
        AppInfoKind::Snap => false,
        AppInfoKind::Flatpak => {
            &&& v.id.len() < sub.len()
            &&& sub.subrange(0, v.id.len() as int) == v.id
            &&& sub[v.id.len() as int] == '.'
            &&& flatpak_name(sub)
        },
    }
}

/// The engine name shown to users: the engine id when set and non-empty,
/// else the kind's type name.
pub open spec fn engine_display(v: AppInfoView) -> Seq<char> {
    match v.engine {
        Some(e) => if e.len() > 0 {
            e
        } else {
            kind_type_name(v.kind)
        },
        None => kind_type_name(v.kind),
    }
}

/// What the logic reads from a flatpak application's `.flatpak-info`
/// metadata, each value looked up by group and key.
#[derive(Debug, Clone, PartialEq, Eq)]
pub struct FlatpakInfo {
    /// Whether the file has a `[Runtime]` group.
    pub has_runtime_group: bool,
    /// `name` of `[Runtime]`.
    pub runtime_name: Option<String>,
    /// `name` of `[Application]`.
    pub application_name: Option<String>,
    /// Whether the name that counts (that of `[Runtime]` when the group
    /// exists, else that of `[Application]`) passes the application-ID
    /// syntax check.
    pub name_is_valid: bool,
    /// `instance-id` of `[Instance]`.
    pub instance_id: Option<String>,
    /// The `shared` list of `[Context]`, when the key is there.
    pub shared: Option<Vec<String>>,
    /// The `enumerable-devices` list of `[USB Devices]` (empty when absent).
    pub enumerable_devices: Vec<String>,
    /// The `hidden-devices` list of `[USB Devices]` (empty when absent).
    pub hidden_devices: Vec<String>,
}

/// The query that the `+`-joined string `s` makes, as
/// [`usb_query_from_string`] parses it.
pub open spec fn query_spec(qt: UsbQueryType, s: Seq<char>) -> Option<(UsbQueryType, Seq<UsbRule>)> {
    match rules_of(s, split_ranges(s, '+', 0, s.len() as int)) {
        None => None,
        Some(rs) => if rs.len() == 0 {
            None
        } else {
            Some((qt, rs))
        },
    }
}

/// The queries of type `qt` that the strings `entries` make, in order,
/// those that do not parse left out.
pub open spec fn parsed_queries(qt: UsbQueryType, entries: Seq<Seq<char>>) -> Seq<(UsbQueryType, Seq<UsbRule>)>
    decreases entries.len(),
{
    if entries.len() == 0 {
        seq![]
    } else {
        let rest = parsed_queries(qt, entries.drop_last());
        match query_spec(qt, entries.last()) {
            Some(q) => rest.push(q),
            None => rest,
        }
    }
}

/// The application shares the network: `network` is in its `shared` list.
pub open spec fn shares_network(info: FlatpakInfo) -> bool {
    info.shared matches Some(v) && string_views(v@).contains("network"@)
}

/// What [`AppInfo::from_flatpak_info`] gives for `info`: the name of
/// `[Runtime]` (when that group exists, else of `[Application]`) must be
/// there and be a valid application ID, and the instance ID must be there;
/// the application then has `O_PATH` access, network access when it shares
/// the network, and the USB queries its metadata lists.
pub open spec fn flatpak_info_result(sender: Seq<char>, info: FlatpakInfo, r: Result<AppInfo, PortalError>) -> bool {
    let group = if info.has_runtime_group { "Runtime"@ } else { "Application"@ };
    let name = if info.has_runtime_group { opt_text(info.runtime_name) } else { opt_text(info.application_name) };
    match name {
        None => r matches Err(PortalError::NotFound(m)) && m@ == ".flatpak-info has no "@ + group + " name key"@,
        Some(id) => if !info.name_is_valid {
            r matches Err(PortalError::InvalidArgument(m)) && m@ == ".flatpak-info name '"@ + id + "' is not a valid app id"@
        } else {
            match info.instance_id {
                None => r matches Err(PortalError::NotFound(m)) && m@ == ".flatpak-info has no Instance instance-id key"@,
                Some(inst) => r matches Ok(a) && a@ == (AppInfoView {
                    kind: AppInfoKind::Flatpak,
                    sender: sender,
                    id: id,
                    instance: Some(inst@),
                    engine: Some("org.flatpak"@),
                    flags: if shares_network(info) { 3u8 } else { 2u8 },
                    desktop_file: None,
                    usb_queries: Some(parsed_queries(UsbQueryType::Enumerable, string_views(info.enumerable_devices@))
                        + parsed_queries(UsbQueryType::Hidden, string_views(info.hidden_devices@))),
                }),
            }
        },
    }
}

/// Law: a flatpak application built from its metadata is a flatpak of the
/// `org.flatpak` engine named as the metadata says, may always pass
/// `O_PATH` descriptors, never requires a desktop entry, and has network
/// access exactly when its `[Context]` `shared` list holds `network`.
pub proof fn lemma_flatpak_flags(sender: Seq<char>, info: FlatpakInfo, r: Result<AppInfo, PortalError>)
    requires
        flatpak_info_result(sender, info, r),
        r is Ok,
    ensures
        ({
            let v = r->Ok_0@;
            &&& v.kind == AppInfoKind::Flatpak
            &&& v.sender == sender
            &&& v.engine == Some("org.flatpak"@)
            &&& v.id == if info.has_runtime_group { opt_text(info.runtime_name).unwrap() } else { opt_text(info.application_name).unwrap() }
            &&& v.instance == opt_text(info.instance_id)
            &&& v.flags & 2 == 2
            &&& v.flags & 4 == 0
            &&& (v.flags & 1 == 1) <==> (info.shared matches Some(l) && exists|k: int| 0 <= k < l@.len() && #[trigger] l@[k]@ == "network"@)
        }),
{
    assert((3u8 & 2u8 == 2u8) && (2u8 & 2u8 == 2u8) && (3u8 & 4u8 == 0u8) && (2u8 & 4u8 == 0u8) && (3u8 & 1u8 == 1u8) && (2u8 & 1u8 != 1u8)) by (bit_vector);
    if let Some(l) = info.shared {
        if exists|k: int| 0 <= k < l@.len() && #[trigger] l@[k]@ == "network"@ {
            let k = choose|k: int| 0 <= k < l@.len() && #[trigger] l@[k]@ == "network"@;
            assert(string_views(l@)[k] == "network"@);
        }
        if string_views(l@).contains("network"@) {
            let k = choose|k: int| 0 <= k < string_views(l@).len() && string_views(l@)[k] == "network"@;
            assert(l@[k]@ == "network"@);
        }
    }
}

/// Appends to `out` the queries of type `qt` that `entries` make.
fn push_queries(qt: UsbQueryType, entries: &Vec<String>, out: &mut Vec<UsbQuery>)
    ensures
        query_views(final(out)@) == query_views(old(out)@) + parsed_queries(qt, string_views(entries@)),
{
    let ghost start = query_views(out@);
    let ghost views = string_views(entries@);
    let mut i: usize = 0;
    proof {
        assert(views.subrange(0, 0) =~= Seq::<Seq<char>>::empty());
        assert(start + Seq::<(UsbQueryType, Seq<UsbRule>)>::empty() =~= start);
    }
    while i < entries.len()
        invariant
            i <= entries@.len(),
            views == string_views(entries@),
            query_views(out@) == start + parsed_queries(qt, views.subrange(0, i as int)),
        decreases entries@.len() - i,
    {
        let q = usb_query_from_string(qt, entries[i].as_str());
        proof {
            let sub = views.subrange(0, i as int + 1);
            assert(sub.drop_last() =~= views.subrange(0, i as int));
            assert(sub.last() == entries@[i as int]@);
        }
        match q {
            Some(q) => {
                let ghost before = out@;
                out.push(q);
                proof {
                    assert(query_views(out@) =~= query_views(before).push((q.query_type, q.rules@)));
                    assert(start + parsed_queries(qt, views.subrange(0, i as int)).push((q.query_type, q.rules@))
                        =~= (start + parsed_queries(qt, views.subrange(0, i as int))).push((q.query_type, q.rules@)));
                }
            },
            None => {},
        }
        i = i + 1;
    }
    proof {
        assert(views.subrange(0, entries@.len() as int) =~= views);
    }
}

/// Whether `network` is among `shared`.
fn lists_network(shared: &Option<Vec<String>>) -> (r: bool)
    ensures
        r == (shared matches Some(v) && string_views(v@).contains("network"@)),
{
    match shared {
        None => false,
        Some(v) => {
            let mut i: usize = 0;
            while i < v.len()
                invariant
                    i <= v@.len(),
                    *shared == Some(*v),
                    forall|k: int| 0 <= k < i ==> v@[k]@ != "network"@,
                decreases v@.len() - i,
            {
                if str_eq(v[i].as_str(), "network") {
                    proof {
                        assert(string_views(v@)[i as int] == "network"@);
                        assert(string_views(v@).contains("network"@));
                    }
                    return true;
                }
                i = i + 1;
            }
            proof {
                if string_views(v@).contains("network"@) {
                    let k = choose|k: int| 0 <= k < string_views(v@).len() && string_views(v@)[k] == "network"@;
                    assert(v@[k]@ == "network"@);
                }
            }
            false
        },
    }
}

impl AppInfo {
    /// Builds a host app info with the empty id, like
    /// `xdp_app_info_host_new` without the systemd unit lookup.
    pub fn host(sender: &str) -> (r: AppInfo)
        ensures
            r@ == host_view(sender@),
    {
        let mut rules: Vec<UsbRule> = Vec::new();
        rules.push(UsbRule::All);
        let mut queries: Vec<UsbQuery> = Vec::new();
        queries.push(UsbQuery { query_type: UsbQueryType::Enumerable, rules });
        let flags = AppInfoFlags::has_network().union(AppInfoFlags::supports_opath());
        assert(1u8 | 2u8 == 3u8) by (bit_vector);
        let r = AppInfo {
            kind: AppInfoKind::Host,
            sender: String::from_str(sender),
            id: String::new(),
            instance: None,
            engine: None,
            flags,
            desktop_file: None,
            usb_queries: Some(queries),
        };
        proof {
            assert(query_views(queries@) =~= seq![(UsbQueryType::Enumerable, seq![UsbRule::All])]);
        }
        r
    }

    /// Builds a host app info for a registered application id, like
    /// `xdp_app_info_host_new_registered`: a desktop entry is then
    /// required.
    pub fn host_registered(sender: &str, app_id: &str) -> (r: AppInfo)
        ensures
            r@ == (AppInfoView { id: app_id@, flags: 7u8, ..host_view(sender@) }),
    {
        let mut app_info = AppInfo::host(sender);
        app_info.id = String::from_str(app_id);
        app_info.flags = app_info.flags.union(AppInfoFlags::require_gappinfo());
        assert(3u8 | 4u8 == 7u8) by (bit_vector);
        app_info
    }

    /// Builds a flatpak app info from what its `.flatpak-info` metadata
    /// holds (see [`flatpak_info_result`]).
    pub fn from_flatpak_info(sender: &str, info: &FlatpakInfo) -> (r: Result<AppInfo, PortalError>)
        ensures
            flatpak_info_result(sender@, *info, r),
    {
        let name = if info.has_runtime_group { &info.runtime_name } else { &info.application_name };
        let id = match name {
            Some(n) => n.clone(),
            None => {
                let mut m = String::from_str(".flatpak-info has no ");
                m.append(if info.has_runtime_group { "Runtime" } else { "Application" });
                m.append(" name key");
                return Err(PortalError::NotFound(m));
            },
        };
        if !info.name_is_valid {
            let mut m = String::from_str(".flatpak-info name '");
            m.append(id.as_str());
            m.append("' is not a valid app id");
            return Err(PortalError::InvalidArgument(m));
        }
        let instance = match &info.instance_id {
            Some(i) => i.clone(),
            None => {
                return Err(PortalError::NotFound(String::from_str(".flatpak-info has no Instance instance-id key")));
            },
        };
        let mut flags = AppInfoFlags::supports_opath();
        if lists_network(&info.shared) {
            flags = flags.union(AppInfoFlags::has_network());
            assert(2u8 | 1u8 == 3u8) by (bit_vector);
        }
        let mut queries: Vec<UsbQuery> = Vec::new();
        proof {
            assert(query_views(queries@) =~= Seq::<(UsbQueryType, Seq<UsbRule>)>::empty());
        }
        push_queries(UsbQueryType::Enumerable, &info.enumerable_devices, &mut queries);
        push_queries(UsbQueryType::Hidden, &info.hidden_devices, &mut queries);
        proof {
            assert(Seq::<(UsbQueryType, Seq<UsbRule>)>::empty() + parsed_queries(UsbQueryType::Enumerable, string_views(info.enumerable_devices@))
                =~= parsed_queries(UsbQueryType::Enumerable, string_views(info.enumerable_devices@)));
        }
        Ok(AppInfo {
            kind: AppInfoKind::Flatpak,
            sender: String::from_str(sender),
            id,
            instance: Some(instance),
            engine: Some(String::from_str("org.flatpak")),
            flags,
            desktop_file: None,
            usb_queries: Some(queries),
        })
    }

    /// Builds a snap app info when `environ` (the contents of
    /// `/proc/<pid>/environ`) carries a non-empty `SNAP_NAME`, returning
    /// `None` otherwise.
    pub fn from_snap_environ(sender: &str, environ: &[u8]) -> (r: Option<AppInfo>)
        ensures
            match snap_view(sender@, environ@) {
                Some(v) => r matches Some(a) && a@ == v,
                None => r is None,
            },
    {
        let name = match environ_value(environ, "SNAP_NAME=".as_bytes()) {
            Some(n) => n,
            None => {
                return None;
            },
        };
        if name.len() == 0 {
            return None;
        }
        if validate_utf8(name.as_slice()).is_err() {
            return None;
        }
        let name = string_from_utf8(name);
        let mut id = String::from_str("snap.");
        id.append(name.as_str());
        let desktop_file = match environ_value(environ, "SNAP_DESKTOP_FILE=".as_bytes()) {
            Some(v) => {
                if v.len() > 0 && validate_utf8(v.as_slice()).is_ok() {
                    Some(string_from_utf8(v))
                } else {
                    None
                }
            },
            None => None,
        };
        let has_network = match environ_value(environ, "SNAP_HAS_NETWORK_STATUS=".as_bytes()) {
            Some(v) => {
                if validate_utf8(v.as_slice()).is_ok() {
                    let text = string_from_utf8(v);
                    str_eq(text.as_str(), "true")
                } else {
                    false
                }
            },
            None => false,
        };
        let mut flags = AppInfoFlags::default();
        if has_network {
            flags = flags.union(AppInfoFlags::has_network());
            assert(0u8 | 1u8 == 1u8) by (bit_vector);
        }
        Some(
            AppInfo {
                kind: AppInfoKind::Snap,
                sender: String::from_str(sender),
                id,
                instance: None,
                engine: Some(String::from_str("io.snapcraft")),
                flags,
                desktop_file,
                usb_queries: None,
            },
        )
    }

    /// Returns the sandbox engine of the application.
    pub fn kind(&self) -> (r: AppInfoKind)
        ensures
            r == self@.kind,
    {
        self.kind
    }

    /// Returns the application id; the empty string for unidentified host
    /// applications.
    pub fn id(&self) -> (r: &str)
        ensures
            r@ == self@.id,
    {
        self.id.as_str()
    }

    /// Returns the sandbox instance id.
    pub fn instance(&self) -> (r: Option<&str>)
        ensures
            opt_str(r) == self@.instance,
    {
        match &self.instance {
            Some(s) => Some(s.as_str()),
            None => None,
        }
    }

    /// Returns the engine id (`org.flatpak`, `io.snapcraft`), or `None` for
    /// host applications.
    pub fn engine(&self) -> (r: Option<&str>)
        ensures
            opt_str(r) == self@.engine,
    {
        match &self.engine {
            Some(s) => Some(s.as_str()),
            None => None,
        }
    }

    /// Returns the D-Bus name the application called from.
    pub fn sender(&self) -> (r: &str)
        ensures
            r@ == self@.sender,
    {
        self.sender.as_str()
    }

    /// Returns the capability flags of the application.
    pub fn flags(&self) -> (r: AppInfoFlags)
        ensures
            r.0 == self@.flags,
    {
        self.flags
    }

    /// Returns whether the application has network access.
    pub fn has_network(&self) -> (r: bool)
        ensures
            r == (self@.flags & 1 == 1),
    {
        self.flags.contains(AppInfoFlags::has_network())
    }

    /// Returns whether the application runs unconfined.
    pub fn is_host(&self) -> (r: bool)
        ensures
            r == self@.engine is None,
    {
        self.engine.is_none()
    }

    /// Returns the snap desktop file id when the environment provided one.
    pub fn desktop_file(&self) -> (r: Option<&str>)
        ensures
            opt_str(r) == self@.desktop_file,
    {
        match &self.desktop_file {
            Some(s) => Some(s.as_str()),
            None => None,
        }
    }

    /// Returns a human readable application name: the application id, or
    /// `None` when it is empty.
    pub fn app_display_name(&self) -> (r: Option<&str>)
        ensures
            opt_str(r) == if self@.id.len() == 0 {
                None
            } else {
                Some(self@.id)
            },
    {
        if self.id.unicode_len() == 0 {
            None
        } else {
            Some(self.id.as_str())
        }
    }

    /// Maps a path as the application sees it to where it lives on the
    /// host: flatpaks go through [`flatpak_remap_path`] with their
    /// `[Instance]` paths `info`, `$XDG_RUNTIME_DIR` and `$HOME`; host and
    /// snap applications see host paths already.
    pub fn remap_path(&self, path: &str, info: Option<&FlatpakPaths>, runtime_dir: &str, home: &str) -> (r: String)
        ensures
            self@.kind == AppInfoKind::Flatpak ==> r@ == remapped(
                match info {
                    Some(i) => opt_text(i.app_path),
                    None => None,
                },
                match info {
                    Some(i) => opt_text(i.runtime_path),
                    None => None,
                },
                runtime_dir@,
                home@,
                self@.id,
                path@,
            ),
            self@.kind != AppInfoKind::Flatpak ==> r@ == path@,
    {
        match self.kind {
            AppInfoKind::Flatpak => flatpak_remap_path(info, self.id.as_str(), path, runtime_dir, home),
            _ => String::from_str(path),
        }
    }

    /// Returns a human readable engine name.
    pub fn engine_display_name(&self) -> (r: &str)
        ensures
            r@ == engine_display(self@),
    {
        match &self.engine {
            Some(engine) => {
                if engine.unicode_len() > 0 {
                    return engine.as_str();
                }
            },
            None => {},
        }
        self.kind.kind_name()
    }

    /// Returns the USB queries of the application; `None` when the kind
    /// defines none.
    pub fn usb_queries(&self) -> (r: Option<&[UsbQuery]>)
        ensures
            match self@.usb_queries {
                Some(q) => r matches Some(s) && query_views(s@) == q,
                None => r is None,
            },
    {
        match &self.usb_queries {
            Some(v) => Some(v.as_slice()),
            None => None,
        }
    }

    /// Returns whether `sub_app_id` may act as a sub application of this
    /// one, like `xdp_app_info_is_valid_sub_app_id`.
    pub fn is_valid_sub_app_id(&self, sub_app_id: &str) -> (r: bool)
        ensures
            r == sub_app_ok(self@, sub_app_id@),
    {
        match self.kind {
            AppInfoKind::Host => true,
            AppInfoKind::Snap => false,
            AppInfoKind::Flatpak => {
                let sub = str_chars(sub_app_id);
                let id = str_chars(self.id.as_str());
                if id.len() >= sub.len() {
                    return false;
                }
                let mut i: usize = 0;
                while i < id.len()
                    invariant
                        i <= id@.len() < sub@.len(),
                        sub@ == sub_app_id@,
                        id@ == self@.id,
                        self@.kind == AppInfoKind::Flatpak,
                        sub@.subrange(0, i as int) == id@.subrange(0, i as int),
                    decreases id@.len() - i,
                {
                    if sub[i] != id[i] {
                        proof {
                            let a = sub@.subrange(0, id@.len() as int);
                            assert(a[i as int] != id@[i as int]);
                            assert(a != id@);
                        }
                        return false;
                    }
                    i = i + 1;
                    proof {
                        assert(sub@.subrange(0, i as int) =~= id@.subrange(0, i as int));
                    }
                }
                proof {
                    assert(id@.subrange(0, id@.len() as int) =~= id@);
                }
                if sub[id.len()] != '.' {
                    return false;
                }
                is_flatpak_name(sub_app_id)
            },
        }
    }
}

// ---------------------------------------------------------------------------
// Flatpak path remapping
// ---------------------------------------------------------------------------

/// The two `[Instance]` entries of a flatpak's metadata that locate its
/// application and runtime trees on the host.
#[derive(Debug, Clone, PartialEq, Eq)]
pub struct FlatpakPaths {
    /// `app-path`: where `/app` of the sandbox lives on the host.
    pub app_path: Option<String>,
    /// `runtime-path`: where `/usr` of the sandbox lives on the host.
    pub runtime_path: Option<String>,
}

/// `p` begins with `pre`.
pub open spec fn has_prefix(p: Seq<char>, pre: Seq<char>) -> bool {
    pre.len() <= p.len() && p.subrange(0, pre.len() as int) == pre
}

/// `p` without its first `n` characters.
pub open spec fn drop_front(p: Seq<char>, n: int) -> Seq<char> {
    p.subrange(n, p.len() as int)
}

/// `base` and `rest` joined with a single `/` (just `rest` when `base` is
/// empty).
pub open spec fn joined(base: Seq<char>, rest: Seq<char>) -> Seq<char> {
    if base.len() == 0 {
        rest
    } else if base[base.len() - 1] == '/' {
        base + rest
    } else {
        base + "/"@ + rest
    }
}

/// The path without the `/newroot` prefix bubblewrap adds.
pub open spec fn without_newroot(p: Seq<char>) -> Seq<char> {
    if has_prefix(p, "/newroot"@) && p.len() > 8 && p[8] == '/' {
        drop_front(p, 8)
    } else {
        p
    }
}

/// `~/.var/app/<app_id>/<leaf>` under `home`.
pub open spec fn per_app_dir(home: Seq<char>, app_id: Seq<char>, leaf: Seq<char>) -> Seq<char> {
    joined(joined(joined(joined(home, ".var"@), "app"@), app_id), leaf)
}

/// Where the sandbox path `path` of flatpak `app_id` lives on the host:
/// `/app/` and `/usr/` map into the application and runtime trees when the
/// metadata names them, the host's `/usr` and `/etc` come back from
/// `/run/host`, `/run/flatpak/{app,doc}/` map under the runtime directory,
/// `/var/{config,data}/` under `~/.var/app/<app_id>`, anything else stays.
pub open spec fn remapped(
    app_path: Option<Seq<char>>,
    runtime_path: Option<Seq<char>>,
    runtime_dir: Seq<char>,
    home: Seq<char>,
    app_id: Seq<char>,
    path: Seq<char>,
) -> Seq<char> {
    let p = without_newroot(path);
    if app_path is Some && has_prefix(p, "/app/"@) {
        joined(app_path.unwrap(), drop_front(p, 5))
    } else if runtime_path is Some && has_prefix(p, "/usr/"@) {
        joined(runtime_path.unwrap(), drop_front(p, 5))
    } else if has_prefix(p, "/run/host/usr/"@) {
        joined("/usr"@, drop_front(p, 14))
    } else if has_prefix(p, "/run/host/etc/"@) {
        joined("/etc"@, drop_front(p, 14))
    } else if has_prefix(p, "/run/flatpak/app/"@) {
        joined(joined(runtime_dir, "app"@), drop_front(p, 17))
    } else if has_prefix(p, "/run/flatpak/doc/"@) {
        joined(joined(runtime_dir, "doc"@), drop_front(p, 17))
    } else if has_prefix(p, "/var/config/"@) {
        joined(per_app_dir(home, app_id, "config"@), drop_front(p, 12))
    } else if has_prefix(p, "/var/data/"@) {
        joined(per_app_dir(home, app_id, "data"@), drop_front(p, 10))
    } else {
        p
    }
}

/// `p` ends with `suf`.
pub open spec fn has_suffix(p: Seq<char>, suf: Seq<char>) -> bool {
    suf.len() <= p.len() && p.subrange(p.len() - suf.len(), p.len() as int) == suf
}

/// What the link text `link` of `/proc/self/fd/<fd>` resolves to: it must
/// be an absolute path; one marked ` (deleted)` is accepted, without the
/// mark, only inside the document portal's mount point `mountpoint`.
pub open spec fn fd_target_result(link: Seq<char>, mountpoint: Option<&str>, r: Result<String, PortalError>) -> bool {
    if link.len() == 0 || link[0] != '/' {
        r matches Err(PortalError::Failed(m)) && m@ == "Not a regular file or directory: "@ + link
    } else if has_suffix(link, " (deleted)"@) {
        if mountpoint matches Some(mp) && has_prefix(link, mp@) {
            r matches Ok(t) && t@ == link.subrange(0, link.len() - 10)
        } else {
            r matches Err(PortalError::Failed(m)) && m@ == "Cannot share deleted file: "@ + link
        }
    } else {
        r matches Ok(t) && t@ == link
    }
}

/// The path a descriptor's `/proc/self/fd` link text `link` names: an
/// absolute path, with a deleted file accepted only inside the document
/// portal's mount point `documents_mountpoint` (the mark dropped).
pub fn fd_target(link: &str, documents_mountpoint: Option<&str>) -> (r: Result<String, PortalError>)
    ensures
        fd_target_result(link@, documents_mountpoint, r),
{
    let n = link.unicode_len();
    if n == 0 || link.get_char(0) != '/' {
        let mut m = String::from_str("Not a regular file or directory: ");
        m.append(link);
        return Err(PortalError::Failed(m));
    }
    let mark = " (deleted)";
    proof {
        reveal_strlit(" (deleted)");
    }
    if n >= 10 && str_eq(link.substring_char(n - 10, n), mark) {
        let allowed = match documents_mountpoint {
            Some(mp) => starts_with_str(link, mp),
            None => false,
        };
        if allowed {
            return Ok(String::from_str(link.substring_char(0, n - 10)));
        }
        let mut m = String::from_str("Cannot share deleted file: ");
        m.append(link);
        return Err(PortalError::Failed(m));
    }
    Ok(String::from_str(link))
}

/// Law: how a sandbox path maps to the host: the host's `/usr` and `/etc`
/// come back from under `/run/host`, `/app/...` lands under the
/// application's `app-path` and `/usr/...` under its `runtime-path` when
/// the metadata names them, and a path under none of the sandbox's mapped
/// places is left as it is.
pub proof fn lemma_remap_places(
    app_path: Option<Seq<char>>,
    runtime_path: Option<Seq<char>>,
    runtime_dir: Seq<char>,
    home: Seq<char>,
    app_id: Seq<char>,
    path: Seq<char>,
)
    ensures
        ({
            let r = remapped(app_path, runtime_path, runtime_dir, home, app_id, path);
            &&& has_prefix(path, "/run/host/usr/"@) ==> r == "/usr/"@ + path.subrange(14, path.len() as int)
            &&& has_prefix(path, "/run/host/etc/"@) ==> r == "/etc/"@ + path.subrange(14, path.len() as int)
            &&& (app_path matches Some(a) && a.len() > 0 && a[a.len() - 1] != '/' && has_prefix(path, "/app/"@))
                ==> r == app_path.unwrap() + "/"@ + path.subrange(5, path.len() as int)
            &&& (runtime_path matches Some(u) && u.len() > 0 && u[u.len() - 1] != '/' && has_prefix(path, "/usr/"@))
                ==> r == runtime_path.unwrap() + "/"@ + path.subrange(5, path.len() as int)
            &&& (path.len() > 0 && path[0] != '/') ==> r == path
        }),
{
    reveal_strlit("/run/host/usr/");
    reveal_strlit("/run/host/etc/");
    reveal_strlit("/usr/");
    reveal_strlit("/usr");
    reveal_strlit("/etc/");
    reveal_strlit("/etc");
    reveal_strlit("/app/");
    reveal_strlit("/newroot");
    reveal_strlit("/run/flatpak/app/");
    reveal_strlit("/run/flatpak/doc/");
    reveal_strlit("/var/config/");
    reveal_strlit("/var/data/");
    reveal_strlit("/");
    let p = without_newroot(path);
    if has_prefix(path, "/run/host/usr/"@) || has_prefix(path, "/run/host/etc/"@) || has_prefix(path, "/app/"@)
        || has_prefix(path, "/usr/"@) {
        assert(path[1] == path.subrange(0, 5)[1]);
        assert(!has_prefix(path, "/newroot"@)) by {
            if has_prefix(path, "/newroot"@) {
                assert(path[1] == path.subrange(0, 8)[1]);
            }
        }
        assert(p == path);
    }
    if has_prefix(path, "/run/host/usr/"@) {
        assert(path[1] == path.subrange(0, 14)[1]);
        assert(!has_prefix(p, "/app/"@)) by {
            if has_prefix(p, "/app/"@) {
                assert(p[1] == p.subrange(0, 5)[1]);
            }
        }
        assert(!has_prefix(p, "/usr/"@)) by {
            if has_prefix(p, "/usr/"@) {
                assert(p[1] == p.subrange(0, 5)[1]);
            }
        }
        assert(joined("/usr"@, drop_front(p, 14)) =~= "/usr/"@ + path.subrange(14, path.len() as int));
    }
    if has_prefix(path, "/run/host/etc/"@) {
        assert(path[1] == path.subrange(0, 14)[1]);
        assert(path[10] == path.subrange(0, 14)[10]);
        assert(!has_prefix(p, "/app/"@)) by {
            if has_prefix(p, "/app/"@) {
                assert(p[1] == p.subrange(0, 5)[1]);
            }
        }
        assert(!has_prefix(p, "/usr/"@)) by {
            if has_prefix(p, "/usr/"@) {
                assert(p[1] == p.subrange(0, 5)[1]);
            }
        }
        assert(!has_prefix(p, "/run/host/usr/"@)) by {
            if has_prefix(p, "/run/host/usr/"@) {
                assert(p[10] == p.subrange(0, 14)[10]);
            }
        }
        assert(joined("/etc"@, drop_front(p, 14)) =~= "/etc/"@ + path.subrange(14, path.len() as int));
    }
    if app_path is Some && app_path.unwrap().len() > 0 && app_path.unwrap()[app_path.unwrap().len() - 1] != '/'
        && has_prefix(path, "/app/"@) {
        let a = app_path.unwrap();
        assert(joined(a, drop_front(p, 5)) =~= a + "/"@ + path.subrange(5, path.len() as int));
    }
    if runtime_path is Some && runtime_path.unwrap().len() > 0
        && runtime_path.unwrap()[runtime_path.unwrap().len() - 1] != '/' && has_prefix(path, "/usr/"@) {
        let u = runtime_path.unwrap();
        assert(!has_prefix(p, "/app/"@)) by {
            if has_prefix(p, "/app/"@) {
                assert(p[1] == p.subrange(0, 5)[1]);
            }
        }
        assert(joined(u, drop_front(p, 5)) =~= u + "/"@ + path.subrange(5, path.len() as int));
    }
    if path.len() > 0 && path[0] != '/' {
        assert(!has_prefix(path, "/newroot"@)) by {
            if has_prefix(path, "/newroot"@) {
                assert(path[0] == path.subrange(0, 8)[0]);
            }
        }
        assert forall|lit: Seq<char>| lit.len() > 0 && lit[0] == '/' implies !has_prefix(path, lit) by {
            if has_prefix(path, lit) {
                assert(path[0] == path.subrange(0, lit.len() as int)[0]);
            }
        }
    }
}

/// Law: a snap application is named `snap.` and its `SNAP_NAME`, never
/// passes `O_PATH` descriptors nor requires a desktop entry, and has
/// network access exactly when `SNAP_HAS_NETWORK_STATUS` is `true`; without
/// a non-empty UTF-8 `SNAP_NAME` the caller is no snap.
pub proof fn lemma_snap_identity(sender: Seq<char>, env: Seq<u8>)
    ensures
        match snap_view(sender, env) {
            Some(v) => {
                &&& entry_value(env, encode_utf8("SNAP_NAME="@), 0) matches Some(name) && name.len() > 0
                    && valid_utf8(name) && v.id == "snap."@ + decode_utf8(name)
                &&& v.kind == AppInfoKind::Snap
                &&& v.sender == sender
                &&& v.flags & 2 == 0
                &&& v.flags & 4 == 0
                &&& (v.flags & 1 == 1) <==> (entry_value(env, encode_utf8("SNAP_HAS_NETWORK_STATUS="@), 0) matches Some(x)
                    && valid_utf8(x) && decode_utf8(x) == "true"@)
            },
            None => !(entry_value(env, encode_utf8("SNAP_NAME="@), 0) matches Some(name) && name.len() > 0
                && valid_utf8(name)),
        },
{
    assert((1u8 & 2u8 == 0u8) && (0u8 & 2u8 == 0u8) && (1u8 & 4u8 == 0u8) && (0u8 & 4u8 == 0u8) && (1u8 & 1u8 == 1u8)
        && (0u8 & 1u8 != 1u8)) by (bit_vector);
}

/// Whether `s` begins with `lit`.
fn starts_with_str(s: &str, lit: &str) -> (r: bool)
    ensures
        r == has_prefix(s@, lit@),
{
    let n = lit.unicode_len();
    if n > s.unicode_len() {
        return false;
    }
    let head = s.substring_char(0, n);
    str_eq(head, lit)
}

/// `base` and `rest` joined with a single `/`.
fn join_path(base: &str, rest: &str) -> (r: String)
    ensures
        r@ == joined(base@, rest@),
{
    let n = base.unicode_len();
    if n == 0 {
        return String::from_str(rest);
    }
    let mut out = String::from_str(base);
    if base.get_char(n - 1) != '/' {
        out.append("/");
    }
    out.append(rest);
    out
}

/// Maps a path as a flatpak sandbox sees it to where it lives on the host.
/// `info` holds the flatpak's `[Instance]` paths; `runtime_dir` and `home`
/// are `$XDG_RUNTIME_DIR` and `$HOME` (empty when unset).
pub fn flatpak_remap_path(
    info: Option<&FlatpakPaths>,
    app_id: &str,
    path: &str,
    runtime_dir: &str,
    home: &str,
) -> (r: String)
    ensures
        r@ == remapped(
            match info {
                Some(i) => opt_text(i.app_path),
                None => None,
            },
            match info {
                Some(i) => opt_text(i.runtime_path),
                None => None,
            },
            runtime_dir@,
            home@,
            app_id@,
            path@,
        ),
{
    proof {
        reveal_strlit("/newroot");
        reveal_strlit("/");
    }
    let mut p = path;
    let len = path.unicode_len();
    if starts_with_str(path, "/newroot") && len > 8 && path.get_char(8) == '/' {
        p = path.substring_char(8, len);
    }
    let n = p.unicode_len();
    let app_path: Option<&str> = match info {
        Some(i) => match &i.app_path {
            Some(a) => Some(a.as_str()),
            None => None,
        },
        None => None,
    };
    let runtime_path: Option<&str> = match info {
        Some(i) => match &i.runtime_path {
            Some(a) => Some(a.as_str()),
            None => None,
        },
        None => None,
    };
    proof {
        reveal_strlit("/app/");
        reveal_strlit("/usr/");
        reveal_strlit("/run/host/usr/");
        reveal_strlit("/run/host/etc/");
        reveal_strlit("/run/flatpak/app/");
        reveal_strlit("/run/flatpak/doc/");
        reveal_strlit("/var/config/");
        reveal_strlit("/var/data/");
    }
    if app_path.is_some() && starts_with_str(p, "/app/") {
        return join_path(app_path.unwrap(), p.substring_char(5, n));
    }
    if runtime_path.is_some() && starts_with_str(p, "/usr/") {
        return join_path(runtime_path.unwrap(), p.substring_char(5, n));
    }
    if starts_with_str(p, "/run/host/usr/") {
        return join_path("/usr", p.substring_char(14, n));
    }
    if starts_with_str(p, "/run/host/etc/") {
        return join_path("/etc", p.substring_char(14, n));
    }
    if starts_with_str(p, "/run/flatpak/app/") {
        let base = join_path(runtime_dir, "app");
        return join_path(base.as_str(), p.substring_char(17, n));
    }
    if starts_with_str(p, "/run/flatpak/doc/") {
        let base = join_path(runtime_dir, "doc");
        return join_path(base.as_str(), p.substring_char(17, n));
    }
    if starts_with_str(p, "/var/config/") {
        let base = per_app_path(home, app_id, "config");
        return join_path(base.as_str(), p.substring_char(12, n));
    }
    if starts_with_str(p, "/var/data/") {
        let base = per_app_path(home, app_id, "data");
        return join_path(base.as_str(), p.substring_char(10, n));
    }
    String::from_str(p)
}

/// `~/.var/app/<app_id>/<leaf>` under `home`.
fn per_app_path(home: &str, app_id: &str, leaf: &str) -> (r: String)
    ensures
        r@ == per_app_dir(home@, app_id@, leaf@),
{
    let a = join_path(home, ".var");
    let b = join_path(a.as_str(), "app");
    let c = join_path(b.as_str(), app_id);
    join_path(c.as_str(), leaf)
}

// ---------------------------------------------------------------------------
// Resolving a passed file descriptor
// ---------------------------------------------------------------------------

/// The file-type bits of `st_mode`.
pub const S_IFMT: u32 = 0o170000;
/// A directory.
pub const S_IFDIR: u32 = 0o040000;
/// A regular file.
pub const S_IFREG: u32 = 0o100000;
/// The access-mode bits of the open flags.
pub const O_ACCMODE: i32 = 3;
/// Opened read-only.
pub const O_RDONLY: i32 = 0;
/// Opened for reading and writing.
pub const O_RDWR: i32 = 2;
/// Opened with `O_PATH`, in the bit layout this library reads open flags
/// in (the caller converts the platform's `fcntl` bits to it).
pub const O_PATH: i32 = 0o10000000;
/// Opened with `O_NOFOLLOW`, in the same layout.
pub const O_NOFOLLOW: i32 = 0o400000;

/// The resolved path of a file descriptor passed to a portal.
#[derive(Debug, Clone, PartialEq, Eq)]
pub struct FdPath {
    /// Absolute path of the file, remapped from the sandbox view to the host
    /// where needed.
    pub path: String,
    /// Whether the application may write to the file.
    pub writable: bool,
}

/// The message for a file type that is not the one required.
pub open spec fn file_type_error(ft: u32, required: u32) -> Seq<char> {
    if required == S_IFDIR {
        "File type 0o"@ + octal_chars(ft as nat) + " is not a directory"@
    } else if required == S_IFREG {
        "File type 0o"@ + octal_chars(ft as nat) + " is not a regular file"@
    } else {
        "File type 0o"@ + octal_chars(ft as nat) + " does not match expected 0o"@ + octal_chars(required as nat)
    }
}

/// `r` is `Err` of the given kind with message `m`.
pub open spec fn invalid_arg(r: Result<FdPath, PortalError>, m: Seq<char>) -> bool {
    r matches Err(PortalError::InvalidArgument(x)) && x@ == m
}

/// `r` is a `Failed` error with message `m`.
pub open spec fn failed(r: Result<FdPath, PortalError>, m: Seq<char>) -> bool {
    r matches Err(PortalError::Failed(x)) && x@ == m
}

/// `r` is a `NotAllowed` error with message `m`.
pub open spec fn not_allowed(r: Result<FdPath, PortalError>, m: Seq<char>) -> bool {
    r matches Err(PortalError::NotAllowed(x)) && x@ == m
}

/// `r` is `Ok` with `path` and `writable`.
pub open spec fn resolved(r: Result<FdPath, PortalError>, path: Seq<char>, writable: bool) -> bool {
    r matches Ok(p) && p.path@ == path && p.writable == writable
}

/// What resolving descriptor `fd` of `app` gives, from what the system
/// reported: the open flags (or the `fcntl` errno), the `st_mode` (or the
/// `fstat` errno), the link target of `/proc/self/fd/<fd>` (or why it is
/// unusable), and, for an `O_PATH` descriptor, whether it may be read and
/// written through that link. The checks come in this order: the
/// descriptor, the flags, the file information, the required file type
/// (`0` accepts any), the link target, then the open mode.
pub open spec fn fd_resolution(
    app: AppInfoView,
    fd: i32,
    required: u32,
    fd_flags: Result<i32, i32>,
    st_mode: Result<u32, i32>,
    target: Result<String, PortalError>,
    read_ok: bool,
    write_ok: bool,
    r: Result<FdPath, PortalError>,
) -> bool {
    let host = app.engine is None;
    if fd == -1 {
        invalid_arg(r, "Invalid file descriptor"@)
    } else {
        match fd_flags {
            Err(errno) => failed(r, "Cannot get file descriptor flags (fcntl F_GETFL: errno "@ + signed_chars(errno as int)
                + ")"@),
            Ok(flags) => match st_mode {
                Err(errno) => failed(r, "Cannot get file information (fstat: errno "@ + signed_chars(errno as int)
                    + ")"@),
                Ok(mode) => {
                    let ft = mode & S_IFMT;
                    if required != 0 && ft != required {
                        failed(r, file_type_error(ft, required))
                    } else {
                        match target {
                            Err(e) => r == Err::<FdPath, PortalError>(e),
                            Ok(path) => if flags & O_PATH == O_PATH {
                                if flags & O_NOFOLLOW == O_NOFOLLOW {
                                    invalid_arg(r, "O_PATH fd was opened O_NOFOLLOW"@)
                                } else if app.flags & 2 != 2 {
                                    not_allowed(r, "App \""@ + app.id + "\" of type "@ + engine_display(app)
                                        + " does not support O_PATH fd passing"@)
                                } else if !read_ok {
                                    not_allowed(r, "\""@ + path@ + "\" not available for read access via \"/proc/self/fd/"@
                                        + signed_chars(fd as int) + "\""@)
                                } else {
                                    resolved(r, path@, host || write_ok)
                                }
                            } else {
                                let acc = flags & O_ACCMODE;
                                if acc != O_RDONLY && acc != O_RDWR {
                                    invalid_arg(r, "File descriptor is not open for reading"@)
                                } else {
                                    resolved(r, path@, host || acc == O_RDWR)
                                }
                            },
                        }
                    }
                },
            },
        }
    }
}

/// Law: a descriptor whose flags, file information and link target were
/// read, whose file type is acceptable, resolves to its link target, and
/// its write access follows its open mode. An `O_PATH` descriptor (not
/// opened `O_NOFOLLOW`, from an application that may pass them) is
/// refused with `NotAllowed` exactly when it cannot be read through
/// `/proc/self/fd`; otherwise it is writable for a host application or
/// when it can be written through that link, whatever else. Another
/// descriptor must be open for reading (`InvalidArgument` otherwise) and
/// is writable for a host application or when opened read-write.
pub proof fn lemma_fd_access(
    app: AppInfoView,
    fd: i32,
    required: u32,
    flags: i32,
    mode: u32,
    path: String,
    read_ok: bool,
    write_ok: bool,
    r: Result<FdPath, PortalError>,
)
    requires
        fd != -1,
        required == 0 || mode & S_IFMT == required,
        fd_resolution(app, fd, required, Ok(flags), Ok(mode), Ok(path), read_ok, write_ok, r),
    ensures
        r matches Ok(p) ==> p.path@ == path@,
        (flags & O_PATH == O_PATH && flags & O_NOFOLLOW != O_NOFOLLOW && app.flags & 2 == 2) ==> {
            &&& read_ok ==> (r matches Ok(p) && p.writable == (app.engine is None || write_ok))
            &&& !read_ok ==> r matches Err(PortalError::NotAllowed(_))
        },
        flags & O_PATH != O_PATH ==> {
            &&& (flags & O_ACCMODE == O_RDONLY || flags & O_ACCMODE == O_RDWR) ==> (r matches Ok(p) && p.writable
                == (app.engine is None || flags & O_ACCMODE == O_RDWR))
            &&& !(flags & O_ACCMODE == O_RDONLY || flags & O_ACCMODE == O_RDWR) ==> r matches Err(
                PortalError::InvalidArgument(_),
            )
        },
        r matches Ok(p) && p.writable ==> app.engine is None || write_ok || flags & O_ACCMODE == O_RDWR,
{
}

/// Law: the path a descriptor's link text names is the link text itself,
/// or, for a deleted file inside the document portal's mount point, the
/// link text without its ` (deleted)` mark; only absolute link texts are
/// accepted, and a deleted file outside the mount point is refused.
pub proof fn lemma_fd_target(link: Seq<char>, mountpoint: Option<&str>, r: Result<String, PortalError>)
    requires
        fd_target_result(link, mountpoint, r),
    ensures
        r matches Ok(t) ==> link.len() > 0 && link[0] == '/' && t@.len() > 0 && t@[0] == '/'
            && (t@ == link || (t@ + " (deleted)"@ == link && (mountpoint matches Some(m) && has_prefix(link, m@)))),
        (link.len() == 0 || link[0] != '/') ==> r matches Err(PortalError::Failed(_)),
        (link.len() > 0 && link[0] == '/' && !has_suffix(link, " (deleted)"@)) ==> (r matches Ok(t) && t@ == link),
        (link.len() > 0 && link[0] == '/' && has_suffix(link, " (deleted)"@) && mountpoint is None) ==> r matches Err(
            PortalError::Failed(_),
        ),
{
    reveal_strlit(" (deleted)");
    if let Ok(t) = r {
        if has_suffix(link, " (deleted)"@) && t@ != link {
            let n = link.len() as int;
            assert(t@ + " (deleted)"@ =~= link.subrange(0, n - 10) + link.subrange(n - 10, n));
            assert(link.subrange(0, n - 10) + link.subrange(n - 10, n) =~= link);
            assert(t@.len() > 0) by {
                assert(link[0] == '/');
                assert(" (deleted)"@[0] == ' ');
            }
            assert(t@[0] == link[0]);
        }
    }
}

/// Decides what a file descriptor passed to a portal resolves to, from
/// what the system reported about it (see [`fd_resolution`]); the caller
/// makes the system calls and checks afterwards that the path still names
/// the same file.
pub fn decide_path_for_fd(
    app: &AppInfo,
    fd: i32,
    require_st_mode: u32,
    fd_flags: Result<i32, i32>,
    st_mode: Result<u32, i32>,
    target: Result<String, PortalError>,
    read_ok: bool,
    write_ok: bool,
) -> (r: Result<FdPath, PortalError>)
    ensures
        fd_resolution(app@, fd, require_st_mode, fd_flags, st_mode, target, read_ok, write_ok, r),
{
    if fd == -1 {
        return Err(PortalError::InvalidArgument(String::from_str("Invalid file descriptor")));
    }
    let flags = match fd_flags {
        Ok(f) => f,
        Err(errno) => {
            let mut m = String::from_str("Cannot get file descriptor flags (fcntl F_GETFL: errno ");
            m.append(signed_string(errno).as_str());
            m.append(")");
            return Err(PortalError::Failed(m));
        },
    };
    let mode = match st_mode {
        Ok(m) => m,
        Err(errno) => {
            let mut m = String::from_str("Cannot get file information (fstat: errno ");
            m.append(signed_string(errno).as_str());
            m.append(")");
            return Err(PortalError::Failed(m));
        },
    };
    let ft = mode & S_IFMT;
    if require_st_mode != 0 && ft != require_st_mode {
        let mut m = String::from_str("File type 0o");
        m.append(octal_string(ft).as_str());
        if require_st_mode == S_IFDIR {
            m.append(" is not a directory");
        } else if require_st_mode == S_IFREG {
            m.append(" is not a regular file");
        } else {
            m.append(" does not match expected 0o");
            m.append(octal_string(require_st_mode).as_str());
        }
        return Err(PortalError::Failed(m));
    }
    let path = match target {
        Ok(p) => p,
        Err(e) => {
            return Err(e);
        },
    };
    let host = app.is_host();
    if flags & O_PATH == O_PATH {
        if flags & O_NOFOLLOW == O_NOFOLLOW {
            return Err(PortalError::InvalidArgument(String::from_str("O_PATH fd was opened O_NOFOLLOW")));
        }
        if !app.flags().contains(AppInfoFlags::supports_opath()) {
            let mut m = String::from_str("App \"");
            m.append(app.id());
            m.append("\" of type ");
            m.append(app.engine_display_name());
            m.append(" does not support O_PATH fd passing");
            return Err(PortalError::NotAllowed(m));
        }
        if !read_ok {
            let mut m = String::from_str("\"");
            m.append(path.as_str());
            m.append("\" not available for read access via \"/proc/self/fd/");
            m.append(signed_string(fd).as_str());
            m.append("\"");
            return Err(PortalError::NotAllowed(m));
        }
        Ok(FdPath { path, writable: host || write_ok })
    } else {
        let acc = flags & O_ACCMODE;
        if acc != O_RDONLY && acc != O_RDWR {
            return Err(PortalError::InvalidArgument(String::from_str("File descriptor is not open for reading")));
        }
        Ok(FdPath { path, writable: host || acc == O_RDWR })
    }
}

} // verus!
