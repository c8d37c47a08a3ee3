//! Portal backend configuration: registered `*.portal` implementations,
//! `portals.conf` preference lists, and the resolution of the backend
//! serving an interface, like `xdp_portal_config_find`.

use vstd::prelude::*;
use crate::header_map::str_eq;
use crate::http_text::{eq_ignore_case, str_chars};
use crate::ws_handshake::{eq_ignore_ascii_case, opt_text};
use crate::text::string_views;

verus! {

broadcast use vstd::seq::group_seq_axioms;

/// The bus name of the GTK backend, the last-resort fallback.
pub open spec fn gtk_fallback_name() -> Seq<char> {
    "org.freedesktop.impl.portal.desktop.gtk"@
}

/// One registered `*.portal` implementation file.
#[derive(Debug, Clone, PartialEq, Eq)]
pub struct PortalImpl {
    /// File name of the portal file without the `.portal` suffix.
    pub source: String,
    /// Well-known bus name the implementation owns.
    pub dbus_name: String,
    /// Backend interfaces the file registers.
    pub interfaces: Vec<String>,
    /// Desktop environments listed under the deprecated `UseIn` key;
    /// empty when the key is absent.
    pub use_in: Vec<String>,
}

/// `i` registers `iface`.
pub open spec fn supports_spec(i: PortalImpl, iface: Seq<char>) -> bool {
    string_views(i.interfaces@).contains(iface)
}

/// Some entry of `hay` equals `needle` ignoring ASCII case.
pub open spec fn contains_ci_spec(hay: Seq<String>, needle: Seq<char>) -> bool {
    exists|k: int| 0 <= k < hay.len() && eq_ignore_case(#[trigger] hay[k]@, needle)
}

/// Returns whether `needle` equals any entry of `haystack` ignoring ASCII
/// case, like `g_strv_case_contains`.
fn contains_ci(haystack: &Vec<String>, needle: &str) -> (r: bool)
    ensures
        r == contains_ci_spec(haystack@, needle@),
{
    let mut k: usize = 0;
    while k < haystack.len()
        invariant
            k <= haystack@.len(),
            forall|j: int| 0 <= j < k ==> !eq_ignore_case(#[trigger] haystack@[j]@, needle@),
        decreases haystack@.len() - k,
    {
        if eq_ignore_ascii_case(haystack[k].as_str(), needle) {
            return true;
        }
        k = k + 1;
    }
    false
}

/// Some string of `v` is `s`.
pub(crate) fn contains_str(v: &Vec<String>, s: &str) -> (r: bool)
    ensures
        r == string_views(v@).contains(s@),
{
    let mut k: usize = 0;
    while k < v.len()
        invariant
            k <= v@.len(),
            forall|j: int| 0 <= j < k ==> #[trigger] v@[j]@ != s@,
        decreases v@.len() - k,
    {
        if str_eq(v[k].as_str(), s) {
            proof {
                assert(string_views(v@)[k as int] == s@);
            }
            return true;
        }
        k = k + 1;
    }
    proof {
        if string_views(v@).contains(s@) {
            let j = choose|j: int| 0 <= j < string_views(v@).len() && string_views(v@)[j] == s@;
            assert(v@[j]@ == s@);
        }
    }
    false
}

impl PortalImpl {
    /// Returns whether the implementation registers `interface`.
    pub fn supports(&self, interface: &str) -> (r: bool)
        ensures
            r == supports_spec(*self, interface@),
    {
        contains_str(&self.interfaces, interface)
    }
}

/// One key of a `[preferred]` group: an interface name (or `default`)
/// mapped to an ordered backend list.
#[derive(Debug, Clone, PartialEq, Eq)]
pub struct PortalPreference {
    /// Interface name the entry applies to, or `default`.
    pub interface: String,
    /// Ordered backend sources; `none` disables the interface and `*`
    /// selects any implementation.
    pub portals: Vec<String>,
}

/// A loaded `portals.conf` or `{desktop}-portals.conf` file.
#[derive(Debug, Clone, PartialEq, Eq)]
pub struct PreferredConfig {
    /// Interface specific preferences in file order.
    pub interfaces: Vec<PortalPreference>,
    /// The `default` entry.
    pub default_portal: Option<PortalPreference>,
}

impl Default for PreferredConfig {
    fn default() -> (c: PreferredConfig)
        ensures
            c.interfaces@.len() == 0,
            c.default_portal is None,
    {
        PreferredConfig { interfaces: Vec::new(), default_portal: None }
    }
}

/// Index of the first entry of `prefs` for `iface`, from `k` on, or a
/// negative number.
pub open spec fn pref_index(prefs: Seq<PortalPreference>, iface: Seq<char>, k: int) -> int
    decreases prefs.len() - k,
{
    if k < 0 || k >= prefs.len() {
        -1
    } else if prefs[k].interface@ == iface {
        k
    } else {
        pref_index(prefs, iface, k + 1)
    }
}

/// The entry of `c` for `iface`, if any.
pub open spec fn preference_of(c: PreferredConfig, iface: Seq<char>) -> Option<PortalPreference> {
    let k = pref_index(c.interfaces@, iface, 0);
    if k >= 0 {
        Some(c.interfaces@[k])
    } else {
        None
    }
}

/// `p` lists `none`.
pub open spec fn lists_none(p: PortalPreference) -> bool {
    string_views(p.portals@).contains("none"@)
}

/// `c` disables `iface`: its entry for `iface` lists `none`, or, without
/// such an entry, its default entry does.
pub open spec fn prefers_none_spec(c: PreferredConfig, iface: Seq<char>) -> bool {
    match preference_of(c, iface) {
        Some(p) => lists_none(p),
        None => c.default_portal matches Some(d) && lists_none(d),
    }
}

impl PreferredConfig {
    /// Returns the preference list for `interface`.
    pub fn preference(&self, interface: &str) -> (r: Option<&PortalPreference>)
        ensures
            match preference_of(*self, interface@) {
                Some(p) => r matches Some(q) && *q == p,
                None => r is None,
            },
    {
        let mut k: usize = 0;
        while k < self.interfaces.len()
            invariant
                k <= self.interfaces@.len(),
                pref_index(self.interfaces@, interface@, 0) == pref_index(self.interfaces@, interface@, k as int),
            decreases self.interfaces@.len() - k,
        {
            if str_eq(self.interfaces[k].interface.as_str(), interface) {
                return Some(&self.interfaces[k]);
            }
            k = k + 1;
        }
        None
    }

    /// Returns whether the configuration asks for `interface` (or the
    /// default entry) to be disabled with `none`.
    pub fn prefers_none(&self, interface: &str) -> (r: bool)
        ensures
            r == prefers_none_spec(*self, interface@),
    {
        match self.preference(interface) {
            Some(preference) => contains_str(&preference.portals, "none"),
            None => match &self.default_portal {
                Some(default) => contains_str(&default.portals, "none"),
                None => false,
            },
        }
    }
}

/// `a` comes before `b` in code point order, shorter prefixes first (the
/// order of `String`'s `cmp`).
pub open spec fn seq_less(a: Seq<char>, b: Seq<char>) -> bool
    decreases a.len(),
{
    if a.len() == 0 {
        b.len() > 0
    } else if b.len() == 0 {
        false
    } else if a[0] < b[0] {
        true
    } else if a[0] == b[0] {
        seq_less(a.drop_first(), b.drop_first())
    } else {
        false
    }
}

proof fn lemma_seq_less_irreflexive(a: Seq<char>)
    ensures
        !seq_less(a, a),
    decreases a.len(),
{
    if a.len() > 0 {
        lemma_seq_less_irreflexive(a.drop_first());
    }
}

proof fn lemma_seq_less_transitive(a: Seq<char>, b: Seq<char>, c: Seq<char>)
    requires
        seq_less(a, b),
        seq_less(b, c),
    ensures
        seq_less(a, c),
    decreases a.len(),
{
    if a.len() > 0 && b.len() > 0 && c.len() > 0 && a[0] == b[0] && b[0] == c[0] {
        lemma_seq_less_transitive(a.drop_first(), b.drop_first(), c.drop_first());
    }
}

proof fn lemma_seq_less_total(a: Seq<char>, b: Seq<char>)
    ensures
        a == b || seq_less(a, b) || seq_less(b, a),
    decreases a.len(),
{
    if a.len() > 0 && b.len() > 0 {
        if a[0] == b[0] {
            lemma_seq_less_total(a.drop_first(), b.drop_first());
            if a.drop_first() == b.drop_first() {
                assert(a =~= seq![a[0]] + a.drop_first());
                assert(b =~= seq![b[0]] + b.drop_first());
            }
        }
    } else if a.len() == 0 && b.len() == 0 {
        assert(a =~= b);
    }
}

proof fn lemma_seq_less_asymmetric(a: Seq<char>, b: Seq<char>)
    requires
        seq_less(a, b),
    ensures
        !seq_less(b, a),
{
    if seq_less(b, a) {
        lemma_seq_less_transitive(a, b, a);
        lemma_seq_less_irreflexive(a);
    }
}

/// Index of the first desktop of `desktops`, from `d` on, that `i` lists
/// under `UseIn`, or the number of desktops.
pub open spec fn use_in_rank(i: PortalImpl, desktops: Seq<String>, d: int) -> int
    decreases desktops.len() - d,
{
    if d < 0 || d >= desktops.len() {
        desktops.len() as int
    } else if contains_ci_spec(i.use_in@, desktops[d]@) {
        d
    } else {
        use_in_rank(i, desktops, d + 1)
    }
}

/// `a` sorts before `b`: the first current desktop listed under `UseIn`
/// wins, ties fall back to the source name.
pub open spec fn impl_before(a: PortalImpl, b: PortalImpl, desktops: Seq<String>) -> bool {
    let ra = use_in_rank(a, desktops, 0);
    let rb = use_in_rank(b, desktops, 0);
    ra < rb || (ra == rb && seq_less(a.source@, b.source@))
}

/// Neither sorts before the other.
pub open spec fn same_rank(a: PortalImpl, b: PortalImpl, desktops: Seq<String>) -> bool {
    !impl_before(a, b, desktops) && !impl_before(b, a, desktops)
}

proof fn lemma_before_asymmetric(a: PortalImpl, b: PortalImpl, desktops: Seq<String>)
    requires
        impl_before(a, b, desktops),
    ensures
        !impl_before(b, a, desktops),
{
    if use_in_rank(a, desktops, 0) == use_in_rank(b, desktops, 0) {
        lemma_seq_less_asymmetric(a.source@, b.source@);
    }
}

proof fn lemma_not_before_transitive(a: PortalImpl, b: PortalImpl, c: PortalImpl, desktops: Seq<String>)
    requires
        !impl_before(b, a, desktops),
        !impl_before(c, b, desktops),
    ensures
        !impl_before(c, a, desktops),
{
    let (ra, rb, rc) = (use_in_rank(a, desktops, 0), use_in_rank(b, desktops, 0), use_in_rank(c, desktops, 0));
    if ra == rb && rb == rc {
        lemma_seq_less_total(a.source@, b.source@);
        lemma_seq_less_total(b.source@, c.source@);
        if seq_less(c.source@, a.source@) {
            if seq_less(a.source@, b.source@) {
                lemma_seq_less_transitive(c.source@, a.source@, b.source@);
            } else {
                assert(a.source@ == b.source@);
            }
        }
    }
}

/// `p` lists each index below `n` once.
pub open spec fn is_permutation(p: Seq<int>, n: int) -> bool {
    &&& p.len() == n
    &&& forall|i: int| 0 <= i < n ==> 0 <= #[trigger] p[i] < n
    &&& forall|i: int, j: int| 0 <= i < j < n ==> #[trigger] p[i] != #[trigger] p[j]
}

/// `r` is the stable sort of `s` by [`impl_before`]: the elements of `s`
/// in an order where none comes after one it sorts before, and elements
/// of the same rank keep their relative order.
pub open spec fn stable_sorted(s: Seq<PortalImpl>, r: Seq<PortalImpl>, desktops: Seq<String>) -> bool {
    exists|p: Seq<int>| {
        &&& is_permutation(p, s.len() as int)
        &&& r.len() == s.len()
        &&& forall|i: int| 0 <= i < r.len() ==> #[trigger] r[i] == s[p[i]]
        &&& forall|i: int, j: int| 0 <= i < j < r.len() ==> !impl_before(#[trigger] r[j], #[trigger] r[i], desktops)
        &&& forall|i: int, j: int| 0 <= i < j < r.len() && same_rank(#[trigger] r[i], #[trigger] r[j], desktops)
            ==> p[i] < p[j]
    }
}

/// Whether `a` comes before `b` in `String` order.
fn str_less(a: &str, b: &str) -> (r: bool)
    ensures
        r == seq_less(a@, b@),
{
    let ca = str_chars(a);
    let cb = str_chars(b);
    let mut i: usize = 0;
    proof {
        assert(a@.subrange(0, a@.len() as int) =~= a@);
        assert(b@.subrange(0, b@.len() as int) =~= b@);
    }
    while i < ca.len() && i < cb.len()
        invariant
            ca@ == a@,
            cb@ == b@,
            i <= ca@.len(),
            i <= cb@.len(),
            seq_less(a@, b@) == seq_less(a@.subrange(i as int, a@.len() as int), b@.subrange(i as int, b@.len() as int)),
        decreases ca@.len() - i,
    {
        let ghost sa = a@.subrange(i as int, a@.len() as int);
        let ghost sb = b@.subrange(i as int, b@.len() as int);
        if ca[i] != cb[i] {
            proof {
                assert(sa[0] == ca@[i as int] && sb[0] == cb@[i as int]);
            }
            return ca[i] < cb[i];
        }
        proof {
            assert(sa.drop_first() =~= a@.subrange(i + 1, a@.len() as int));
            assert(sb.drop_first() =~= b@.subrange(i + 1, b@.len() as int));
        }
        i = i + 1;
    }
    ca.len() == i && cb.len() > i
}

/// The `UseIn` rank of `i` among `desktops`.
fn rank_of(i: &PortalImpl, desktops: &[String]) -> (r: usize)
    ensures
        r == use_in_rank(*i, desktops@, 0),
{
    let mut d: usize = 0;
    while d < desktops.len()
        invariant
            d <= desktops@.len(),
            use_in_rank(*i, desktops@, 0) == use_in_rank(*i, desktops@, d as int),
        decreases desktops@.len() - d,
    {
        if contains_ci(&i.use_in, desktops[d].as_str()) {
            return d;
        }
        d = d + 1;
    }
    d
}

/// Whether `a` sorts before `b`.
fn sorts_before(a: &PortalImpl, b: &PortalImpl, desktops: &[String]) -> (r: bool)
    ensures
        r == impl_before(*a, *b, desktops@),
{
    let ra = rank_of(a, desktops);
    let rb = rank_of(b, desktops);
    ra < rb || (ra == rb && str_less(a.source.as_str(), b.source.as_str()))
}

/// Sorts implementations like `sort_impl_by_use_in_and_name`: the first
/// current desktop with a `UseIn` match wins, ties fall back to the
/// source name; the sort is stable.
pub fn sort_impls(impls: &mut Vec<PortalImpl>, desktops: &[String])
    ensures
        stable_sorted(old(impls)@, final(impls)@, desktops@),
{
    let ghost s = impls@;
    let ghost n = s.len() as int;
    let mut src: Vec<PortalImpl> = Vec::new();
    std::mem::swap(&mut src, impls);
    let mut out: Vec<PortalImpl> = Vec::new();
    let ghost mut p: Seq<int> = Seq::empty();
    while src.len() > 0
        invariant
            src@ == s.subrange(0, src@.len() as int),
            src@.len() <= n,
            n == s.len(),
            out@.len() == p.len(),
            out@.len() + src@.len() == n,
            forall|i: int| 0 <= i < p.len() ==> src@.len() <= #[trigger] p[i] < n,
            forall|i: int, j: int| 0 <= i < j < p.len() ==> #[trigger] p[i] != #[trigger] p[j],
            forall|i: int| 0 <= i < out@.len() ==> #[trigger] out@[i] == s[p[i]],
            forall|i: int, j: int| 0 <= i < j < out@.len() ==> !impl_before(#[trigger] out@[j], #[trigger] out@[i], desktops@),
            forall|i: int, j: int| 0 <= i < j < out@.len() && same_rank(#[trigger] out@[i], #[trigger] out@[j], desktops@)
                ==> p[i] < p[j],
        decreases src@.len(),
    {
        let m = src.len();
        let x = src.pop().unwrap();
        proof {
            assert(x == s[m - 1]);
            assert(src@ =~= s.subrange(0, src@.len() as int));
        }
        let mut q: usize = 0;
        while q < out.len() && sorts_before(&out[q], &x, desktops)
            invariant
                q <= out@.len(),
                forall|i: int| 0 <= i < q ==> impl_before(#[trigger] out@[i], x, desktops@),
            decreases out@.len() - q,
        {
            q = q + 1;
        }
        let ghost old_out = out@;
        let ghost old_p = p;
        out.insert(q, x);
        proof {
            p = p.insert(q as int, m - 1);
            assert forall|i: int| 0 <= i < out@.len() implies #[trigger] out@[i] == s[p[i]] by {
                if i < q {
                    assert(out@[i] == old_out[i] && p[i] == old_p[i]);
                } else if i > q {
                    assert(out@[i] == old_out[i - 1] && p[i] == old_p[i - 1]);
                }
            }
            assert forall|i: int| 0 <= i < p.len() implies src@.len() <= #[trigger] p[i] < n by {
                if i < q {
                    assert(p[i] == old_p[i]);
                } else if i > q {
                    assert(p[i] == old_p[i - 1]);
                }
            }
            assert forall|i: int, j: int| 0 <= i < j < p.len() implies #[trigger] p[i] != #[trigger] p[j] by {
                if i < q && j < q {
                    assert(p[i] == old_p[i] && p[j] == old_p[j]);
                } else if i < q && j == q {
                    assert(p[i] == old_p[i]);
                } else if i < q && j > q {
                    assert(p[i] == old_p[i] && p[j] == old_p[j - 1]);
                } else if i == q {
                    assert(p[j] == old_p[j - 1]);
                } else {
                    assert(p[i] == old_p[i - 1] && p[j] == old_p[j - 1]);
                }
            }
            assert forall|i: int, j: int| 0 <= i < j < out@.len() implies !impl_before(#[trigger] out@[j], #[trigger] out@[i], desktops@) by {
                if j < q {
                    assert(out@[i] == old_out[i] && out@[j] == old_out[j]);
                } else if j == q {
                    assert(out@[i] == old_out[i]);
                    assert(impl_before(old_out[i], x, desktops@));
                    lemma_before_asymmetric(old_out[i], x, desktops@);
                } else if i == q {
                    assert(out@[j] == old_out[j - 1]);
                    assert(!impl_before(old_out[q as int], x, desktops@));
                    if j - 1 > q {
                        assert(!impl_before(old_out[j - 1], old_out[q as int], desktops@));
                    } else {
                        lemma_seq_less_irreflexive(x.source@);
                        lemma_seq_less_irreflexive(old_out[q as int].source@);
                    }
                    lemma_not_before_transitive(x, old_out[q as int], old_out[j - 1], desktops@);
                } else if i < q {
                    assert(out@[i] == old_out[i] && out@[j] == old_out[j - 1]);
                } else {
                    assert(out@[i] == old_out[i - 1] && out@[j] == old_out[j - 1]);
                }
            }
            assert forall|i: int, j: int| 0 <= i < j < out@.len() && same_rank(#[trigger] out@[i], #[trigger] out@[j], desktops@)
                implies p[i] < p[j] by {
                if j < q {
                    assert(out@[i] == old_out[i] && out@[j] == old_out[j]);
                    assert(p[i] == old_p[i] && p[j] == old_p[j]);
                } else if j == q {
                    assert(out@[i] == old_out[i]);
                    assert(impl_before(old_out[i], x, desktops@));
                } else if i == q {
                    assert(p[j] == old_p[j - 1]);
                } else if i < q {
                    assert(out@[i] == old_out[i] && out@[j] == old_out[j - 1]);
                    assert(p[i] == old_p[i] && p[j] == old_p[j - 1]);
                } else {
                    assert(out@[i] == old_out[i - 1] && out@[j] == old_out[j - 1]);
                    assert(p[i] == old_p[i - 1] && p[j] == old_p[j - 1]);
                }
            }
        }
    }
    *impls = out;
    proof {
        assert(is_permutation(p, n));
    }
}

/// A `$XDG_CURRENT_DESKTOP` element: non-empty, ASCII letters, digits,
/// `-` and `_` only.
pub open spec fn valid_desktop(d: Seq<char>) -> bool {
    d.len() > 0 && forall|i: int| 0 <= i < d.len() ==> {
        let c = #[trigger] d[i];
        ('a' <= c && c <= 'z') || ('A' <= c && c <= 'Z') || ('0' <= c && c <= '9') || c == '-' || c == '_'
    }
}

/// Validates one `$XDG_CURRENT_DESKTOP` element, like
/// `validate_xdg_desktop`.
pub fn validate_xdg_desktop(desktop: &str) -> (r: bool)
    ensures
        r == valid_desktop(desktop@),
{
    let cs = str_chars(desktop);
    if cs.len() == 0 {
        return false;
    }
    let mut i: usize = 0;
    while i < cs.len()
        invariant
            cs@ == desktop@,
            i <= cs@.len(),
            forall|j: int| 0 <= j < i ==> {
                let c = #[trigger] cs@[j];
                ('a' <= c && c <= 'z') || ('A' <= c && c <= 'Z') || ('0' <= c && c <= '9') || c == '-' || c == '_'
            },
        decreases cs@.len() - i,
    {
        let c = cs[i];
        if !(('a' <= c && c <= 'z') || ('A' <= c && c <= 'Z') || ('0' <= c && c <= '9') || c == '-' || c == '_') {
            return false;
        }
        i = i + 1;
    }
    true
}

/// Index of the first implementation from `k` on whose source is `src`,
/// or a negative number.
pub open spec fn source_index(impls: Seq<PortalImpl>, src: Seq<char>, k: int) -> int
    decreases impls.len() - k,
{
    if k < 0 || k >= impls.len() {
        -1
    } else if impls[k].source@ == src {
        k
    } else {
        source_index(impls, src, k + 1)
    }
}

/// Index of the first implementation from `k` on registering `iface`, or
/// a negative number.
pub open spec fn supporting_index(impls: Seq<PortalImpl>, iface: Seq<char>, k: int) -> int
    decreases impls.len() - k,
{
    if k < 0 || k >= impls.len() {
        -1
    } else if supports_spec(impls[k], iface) {
        k
    } else {
        supporting_index(impls, iface, k + 1)
    }
}

/// The backend a preference list picks for `iface`, from its `j`-th entry
/// on: `*` takes the first implementation registering `iface`; a named
/// source is taken when it exists and registers `iface`, else skipped.
pub open spec fn pick_backend(impls: Seq<PortalImpl>, portals: Seq<Seq<char>>, iface: Seq<char>, j: int) -> int
    decreases portals.len() - j,
{
    if j < 0 || j >= portals.len() {
        -1
    } else if portals[j] == "*"@ {
        supporting_index(impls, iface, 0)
    } else {
        let k = source_index(impls, portals[j], 0);
        if k >= 0 && supports_spec(impls[k], iface) {
            k
        } else {
            pick_backend(impls, portals, iface, j + 1)
        }
    }
}

/// The backend an optional preference picks, or a negative number.
pub open spec fn backend_for(impls: Seq<PortalImpl>, pref: Option<PortalPreference>, iface: Seq<char>) -> int {
    match pref {
        Some(p) => pick_backend(impls, string_views(p.portals@), iface, 0),
        None => -1,
    }
}

/// What the preference files from the `i`-th on decide for `iface`: the
/// index of a backend, -1 when a file disables the interface, -2 when no
/// file decides.
pub open spec fn config_choice(cfgs: Seq<PreferredConfig>, impls: Seq<PortalImpl>, iface: Seq<char>, i: int) -> int
    decreases cfgs.len() - i,
{
    if i < 0 || i >= cfgs.len() {
        -2
    } else if prefers_none_spec(cfgs[i], iface) {
        -1
    } else {
        let a = backend_for(impls, preference_of(cfgs[i], iface), iface);
        let b = backend_for(impls, cfgs[i].default_portal, iface);
        if a >= 0 {
            a
        } else if b >= 0 {
            b
        } else {
            config_choice(cfgs, impls, iface, i + 1)
        }
    }
}

/// `i` registers `iface` and lists `desktop` under `UseIn`.
pub open spec fn used_in(i: PortalImpl, iface: Seq<char>, desktop: Seq<char>) -> bool {
    supports_spec(i, iface) && contains_ci_spec(i.use_in@, desktop)
}

/// Index of the first implementation from `k` on that [`used_in`] holds
/// of, or a negative number.
pub open spec fn use_in_index(impls: Seq<PortalImpl>, iface: Seq<char>, desktop: Seq<char>, k: int) -> int
    decreases impls.len() - k,
{
    if k < 0 || k >= impls.len() {
        -1
    } else if used_in(impls[k], iface, desktop) {
        k
    } else {
        use_in_index(impls, iface, desktop, k + 1)
    }
}

/// The `UseIn` fallback from the `d`-th current desktop on.
pub open spec fn use_in_choice(desktops: Seq<String>, impls: Seq<PortalImpl>, iface: Seq<char>, d: int) -> int
    decreases desktops.len() - d,
{
    if d < 0 || d >= desktops.len() {
        -1
    } else {
        let k = use_in_index(impls, iface, desktops[d]@, 0);
        if k >= 0 {
            k
        } else {
            use_in_choice(desktops, impls, iface, d + 1)
        }
    }
}

/// Index of the first GTK implementation from `k` on registering `iface`,
/// or a negative number.
pub open spec fn gtk_index(impls: Seq<PortalImpl>, iface: Seq<char>, k: int) -> int
    decreases impls.len() - k,
{
    if k < 0 || k >= impls.len() {
        -1
    } else if impls[k].dbus_name@ == gtk_fallback_name() && supports_spec(impls[k], iface) {
        k
    } else {
        gtk_index(impls, iface, k + 1)
    }
}

/// The backend resolved for `iface`: preference files first, then the
/// deprecated `UseIn` key, then the GTK fallback; negative for none.
pub open spec fn resolved_backend(desktops: Seq<String>, impls: Seq<PortalImpl>, cfgs: Seq<PreferredConfig>, iface: Seq<char>) -> int {
    let c = config_choice(cfgs, impls, iface, 0);
    let u = use_in_choice(desktops, impls, iface, 0);
    if c != -2 {
        c
    } else if u >= 0 {
        u
    } else {
        gtk_index(impls, iface, 0)
    }
}

/// Some index of `out` names an implementation with source `src`.
pub open spec fn source_taken(impls: Seq<PortalImpl>, out: Seq<int>, src: Seq<char>) -> bool {
    exists|m: int| 0 <= m < out.len() && (#[trigger] impls[out[m]]).source@ == src
}

/// `out` after scanning the implementations from `k` on for the
/// preference entry `portal`: a match (the source, or any for `*`) whose
/// source is not taken yet and that registers `iface` is appended.
pub open spec fn collect_for(impls: Seq<PortalImpl>, portal: Seq<char>, iface: Seq<char>, out: Seq<int>, k: int) -> Seq<int>
    decreases impls.len() - k,
{
    if k < 0 || k >= impls.len() {
        out
    } else {
        let c = impls[k];
        let take = (c.source@ == portal || portal == "*"@) && !source_taken(impls, out, c.source@)
            && supports_spec(c, iface);
        collect_for(impls, portal, iface, if take { out.push(k) } else { out }, k + 1)
    }
}

/// `out` after collecting for the entries of `portals` from the `j`-th on.
pub open spec fn collect_all(impls: Seq<PortalImpl>, portals: Seq<Seq<char>>, iface: Seq<char>, out: Seq<int>, j: int) -> Seq<int>
    decreases portals.len() - j,
{
    if j < 0 || j >= portals.len() {
        out
    } else {
        collect_all(impls, portals, iface, collect_for(impls, portals[j], iface, out, 0), j + 1)
    }
}

/// What an optional preference collects for `iface`.
pub open spec fn collect_pref(impls: Seq<PortalImpl>, pref: Option<PortalPreference>, iface: Seq<char>) -> Seq<int> {
    match pref {
        Some(p) => collect_all(impls, string_views(p.portals@), iface, seq![], 0),
        None => seq![],
    }
}

/// What the preference files from the `i`-th on collect for `iface`:
/// nothing when a file disables it, else the first non-empty collection;
/// `None` when no file decides.
pub open spec fn configs_all(cfgs: Seq<PreferredConfig>, impls: Seq<PortalImpl>, iface: Seq<char>, i: int) -> Option<Seq<int>>
    decreases cfgs.len() - i,
{
    if i < 0 || i >= cfgs.len() {
        None
    } else if prefers_none_spec(cfgs[i], iface) {
        Some(seq![])
    } else {
        let a = collect_pref(impls, preference_of(cfgs[i], iface), iface);
        let b = collect_pref(impls, cfgs[i].default_portal, iface);
        if a.len() > 0 {
            Some(a)
        } else if b.len() > 0 {
            Some(b)
        } else {
            configs_all(cfgs, impls, iface, i + 1)
        }
    }
}

/// Every implementation from `k` on that [`used_in`] holds of, in order.
pub open spec fn use_in_matches(impls: Seq<PortalImpl>, iface: Seq<char>, desktop: Seq<char>, k: int) -> Seq<int>
    decreases impls.len() - k,
{
    if k < 0 || k >= impls.len() {
        seq![]
    } else if used_in(impls[k], iface, desktop) {
        seq![k] + use_in_matches(impls, iface, desktop, k + 1)
    } else {
        use_in_matches(impls, iface, desktop, k + 1)
    }
}

/// The `UseIn` matches of the current desktops from the `d`-th on.
pub open spec fn use_in_all(desktops: Seq<String>, impls: Seq<PortalImpl>, iface: Seq<char>, d: int) -> Seq<int>
    decreases desktops.len() - d,
{
    if d < 0 || d >= desktops.len() {
        seq![]
    } else {
        use_in_matches(impls, iface, desktops[d]@, 0) + use_in_all(desktops, impls, iface, d + 1)
    }
}

/// Every backend that serves `iface`, as indices of `impls`.
pub open spec fn all_backends(desktops: Seq<String>, impls: Seq<PortalImpl>, cfgs: Seq<PreferredConfig>, iface: Seq<char>) -> Seq<int> {
    let u = use_in_all(desktops, impls, iface, 0);
    let g = gtk_index(impls, iface, 0);
    match configs_all(cfgs, impls, iface, 0) {
        Some(s) => s,
        None => if u.len() > 0 {
            u
        } else if g >= 0 {
            seq![g]
        } else {
            seq![]
        },
    }
}

/// The preference an optional reference points at.
pub open spec fn opt_pref(p: Option<&PortalPreference>) -> Option<PortalPreference> {
    match p {
        Some(q) => Some(*q),
        None => None,
    }
}

fn source_index_exec(impls: &Vec<PortalImpl>, src: &str) -> (r: Option<usize>)
    ensures
        match r {
            Some(k) => k == source_index(impls@, src@, 0) && k < impls@.len(),
            None => source_index(impls@, src@, 0) < 0,
        },
{
    let mut k: usize = 0;
    while k < impls.len()
        invariant
            k <= impls@.len(),
            source_index(impls@, src@, 0) == source_index(impls@, src@, k as int),
        decreases impls@.len() - k,
    {
        if str_eq(impls[k].source.as_str(), src) {
            return Some(k);
        }
        k = k + 1;
    }
    None
}

fn supporting_index_exec(impls: &Vec<PortalImpl>, iface: &str) -> (r: Option<usize>)
    ensures
        match r {
            Some(k) => k == supporting_index(impls@, iface@, 0) && k < impls@.len(),
            None => supporting_index(impls@, iface@, 0) < 0,
        },
{
    let mut k: usize = 0;
    while k < impls.len()
        invariant
            k <= impls@.len(),
            supporting_index(impls@, iface@, 0) == supporting_index(impls@, iface@, k as int),
        decreases impls@.len() - k,
    {
        if impls[k].supports(iface) {
            return Some(k);
        }
        k = k + 1;
    }
    None
}

/// The backend an optional preference picks for `iface`.
fn backend_index(impls: &Vec<PortalImpl>, preference: Option<&PortalPreference>, iface: &str) -> (r: Option<usize>)
    ensures
        match r {
            Some(k) => k == backend_for(impls@, opt_pref(preference), iface@) && k < impls@.len(),
            None => backend_for(impls@, opt_pref(preference), iface@) < 0,
        },
{
    let pref = match preference {
        Some(p) => p,
        None => {
            return None;
        },
    };
    let ghost portals = string_views(pref.portals@);
    let mut j: usize = 0;
    while j < pref.portals.len()
        invariant
            j <= pref.portals@.len(),
            opt_pref(preference) == Some(*pref),
            portals == string_views(pref.portals@),
            pick_backend(impls@, portals, iface@, 0) == pick_backend(impls@, portals, iface@, j as int),
        decreases pref.portals@.len() - j,
    {
        let portal = pref.portals[j].as_str();
        proof {
            assert(portals[j as int] == portal@);
        }
        if str_eq(portal, "*") {
            return supporting_index_exec(impls, iface);
        }
        match source_index_exec(impls, portal) {
            Some(k) => {
                if impls[k].supports(iface) {
                    return Some(k);
                }
            },
            None => {},
        }
        j = j + 1;
    }
    None
}

/// The indices of `v` as integers.
pub open spec fn int_seq(v: Seq<usize>) -> Seq<int> {
    v.map_values(|x: usize| x as int)
}

fn source_taken_exec(impls: &Vec<PortalImpl>, out: &Vec<usize>, src: &str) -> (r: bool)
    requires
        forall|m: int| 0 <= m < out@.len() ==> #[trigger] out@[m] < impls@.len(),
    ensures
        r == source_taken(impls@, int_seq(out@), src@),
{
    let mut m: usize = 0;
    while m < out.len()
        invariant
            m <= out@.len(),
            forall|i: int| 0 <= i < out@.len() ==> #[trigger] out@[i] < impls@.len(),
            forall|i: int| 0 <= i < m ==> impls@[#[trigger] int_seq(out@)[i]].source@ != src@,
        decreases out@.len() - m,
    {
        if str_eq(impls[out[m]].source.as_str(), src) {
            proof {
                assert(int_seq(out@)[m as int] == out@[m as int] as int);
            }
            return true;
        }
        proof {
            assert(int_seq(out@)[m as int] == out@[m as int] as int);
        }
        m = m + 1;
    }
    false
}

/// Appends to `out` what the preference entries of `preference` collect
/// for `iface` (see [`collect_all`]).
fn collect_impls(impls: &Vec<PortalImpl>, preference: Option<&PortalPreference>, iface: &str, out: &mut Vec<usize>)
    requires
        forall|m: int| 0 <= m < old(out)@.len() ==> #[trigger] old(out)@[m] < impls@.len(),
    ensures
        forall|m: int| 0 <= m < final(out)@.len() ==> #[trigger] final(out)@[m] < impls@.len(),
        int_seq(final(out)@) == match opt_pref(preference) {
            Some(p) => collect_all(impls@, string_views(p.portals@), iface@, int_seq(old(out)@), 0),
            None => int_seq(old(out)@),
        },
{
    let pref = match preference {
        Some(p) => p,
        None => {
            return;
        },
    };
    let ghost portals = string_views(pref.portals@);
    let ghost start = int_seq(out@);
    let mut j: usize = 0;
    while j < pref.portals.len()
        invariant
            j <= pref.portals@.len(),
            opt_pref(preference) == Some(*pref),
            portals == string_views(pref.portals@),
            forall|m: int| 0 <= m < out@.len() ==> #[trigger] out@[m] < impls@.len(),
            collect_all(impls@, portals, iface@, start, 0) == collect_all(impls@, portals, iface@, int_seq(out@), j as int),
        decreases pref.portals@.len() - j,
    {
        let portal = pref.portals[j].as_str();
        proof {
            assert(portals[j as int] == portal@);
        }
        let any = str_eq(portal, "*");
        let ghost before = int_seq(out@);
        let mut k: usize = 0;
        while k < impls.len()
            invariant
                k <= impls@.len(),
                any == (portal@ == "*"@),
                forall|m: int| 0 <= m < out@.len() ==> #[trigger] out@[m] < impls@.len(),
                collect_for(impls@, portal@, iface@, before, 0) == collect_for(impls@, portal@, iface@, int_seq(out@), k as int),
            decreases impls@.len() - k,
        {
            let candidate = &impls[k];
            if (any || str_eq(candidate.source.as_str(), portal)) && !source_taken_exec(impls, out, candidate.source.as_str())
                && candidate.supports(iface) {
                let ghost prev = int_seq(out@);
                out.push(k);
                proof {
                    assert(int_seq(out@) =~= prev.push(k as int));
                }
            }
            k = k + 1;
        }
        j = j + 1;
    }
}

/// Loaded portal configuration: registered implementations plus the
/// ordered list of preference files.
#[derive(Debug, Clone)]
pub struct PortalConfig {
    current_desktops: Vec<String>,
    impls: Vec<PortalImpl>,
    configs: Vec<PreferredConfig>,
}

impl Default for PortalConfig {
    fn default() -> (c: PortalConfig)
        ensures
            c.desktops_view().len() == 0,
            c.impls_view().len() == 0,
            c.configs_view().len() == 0,
    {
        PortalConfig { current_desktops: Vec::new(), impls: Vec::new(), configs: Vec::new() }
    }
}

impl PortalConfig {
    /// The current desktops, lowercased and validated, in order.
    pub closed spec fn desktops_view(&self) -> Seq<String> {
        self.current_desktops@
    }

    /// The registered implementations in resolution order.
    pub closed spec fn impls_view(&self) -> Seq<PortalImpl> {
        self.impls@
    }

    /// The preference files in search order.
    pub closed spec fn configs_view(&self) -> Seq<PreferredConfig> {
        self.configs@
    }

    /// Builds a configuration from explicit inputs, sorting the
    /// implementations like the loader does.
    pub fn from_parts(current_desktops: Vec<String>, impls: Vec<PortalImpl>, configs: Vec<PreferredConfig>) -> (c: PortalConfig)
        ensures
            c.desktops_view() == current_desktops@,
            c.configs_view() == configs@,
            stable_sorted(impls@, c.impls_view(), current_desktops@),
    {
        let mut impls = impls;
        sort_impls(&mut impls, current_desktops.as_slice());
        PortalConfig { current_desktops, impls, configs }
    }

    /// Returns the current desktop entries in order.
    pub fn current_desktops(&self) -> (r: &[String])
        ensures
            r@ == self.desktops_view(),
    {
        self.current_desktops.as_slice()
    }

    /// Returns all registered implementations in resolution order.
    pub fn impls(&self) -> (r: &[PortalImpl])
        ensures
            r@ == self.impls_view(),
    {
        self.impls.as_slice()
    }

    /// Returns every loaded preference file in search order.
    pub fn configs(&self) -> (r: &[PreferredConfig])
        ensures
            r@ == self.configs_view(),
    {
        self.configs.as_slice()
    }

    /// Index of the first implementation that lists `desktop` under
    /// `UseIn` and registers `interface`.
    fn use_in_index_exec(&self, interface: &str, desktop: &str) -> (r: Option<usize>)
        ensures
            match r {
                Some(k) => k == use_in_index(self.impls@, interface@, desktop@, 0) && k < self.impls@.len(),
                None => use_in_index(self.impls@, interface@, desktop@, 0) < 0,
            },
    {
        let mut k: usize = 0;
        while k < self.impls.len()
            invariant
                k <= self.impls@.len(),
                use_in_index(self.impls@, interface@, desktop@, 0) == use_in_index(self.impls@, interface@, desktop@, k as int),
            decreases self.impls@.len() - k,
        {
            if self.impls[k].supports(interface) && contains_ci(&self.impls[k].use_in, desktop) {
                return Some(k);
            }
            k = k + 1;
        }
        None
    }

    /// Index of the GTK fallback for `interface`.
    fn gtk_fallback_index(&self, interface: &str) -> (r: Option<usize>)
        ensures
            match r {
                Some(k) => k == gtk_index(self.impls@, interface@, 0) && k < self.impls@.len(),
                None => gtk_index(self.impls@, interface@, 0) < 0,
            },
    {
        let mut k: usize = 0;
        while k < self.impls.len()
            invariant
                k <= self.impls@.len(),
                gtk_index(self.impls@, interface@, 0) == gtk_index(self.impls@, interface@, k as int),
            decreases self.impls@.len() - k,
        {
            if str_eq(self.impls[k].dbus_name.as_str(), "org.freedesktop.impl.portal.desktop.gtk")
                && self.impls[k].supports(interface) {
                return Some(k);
            }
            k = k + 1;
        }
        None
    }

    /// Resolves the backend for `interface` like `xdp_portal_config_find`:
    /// preference files first, then the deprecated `UseIn` key, then the
    /// GTK fallback.
    pub fn find(&self, interface: &str) -> (r: Option<&PortalImpl>)
        ensures
            ({
                let k = resolved_backend(self.desktops_view(), self.impls_view(), self.configs_view(), interface@);
                if k >= 0 {
                    r matches Some(x) && k < self.impls_view().len() && *x == self.impls_view()[k]
                } else {
                    r is None
                }
            }),
    {
        let ghost cfgs = self.configs@;
        let ghost impls = self.impls@;
        let mut i: usize = 0;
        while i < self.configs.len()
            invariant
                i <= cfgs.len(),
                cfgs == self.configs@,
                impls == self.impls@,
                config_choice(cfgs, impls, interface@, 0) == config_choice(cfgs, impls, interface@, i as int),
            decreases cfgs.len() - i,
        {
            let config = &self.configs[i];
            if config.prefers_none(interface) {
                return None;
            }
            match backend_index(&self.impls, config.preference(interface), interface) {
                Some(k) => {
                    return Some(&self.impls[k]);
                },
                None => {},
            }
            let default = match &config.default_portal {
                Some(d) => Some(d),
                None => None,
            };
            match backend_index(&self.impls, default, interface) {
                Some(k) => {
                    return Some(&self.impls[k]);
                },
                None => {},
            }
            i = i + 1;
        }
        let ghost desktops = self.current_desktops@;
        let mut d: usize = 0;
        while d < self.current_desktops.len()
            invariant
                d <= desktops.len(),
                desktops == self.current_desktops@,
                impls == self.impls@,
                cfgs == self.configs@,
                config_choice(cfgs, impls, interface@, 0) == -2,
                use_in_choice(desktops, impls, interface@, 0) == use_in_choice(desktops, impls, interface@, d as int),
            decreases desktops.len() - d,
        {
            match self.use_in_index_exec(interface, self.current_desktops[d].as_str()) {
                Some(k) => {
                    return Some(&self.impls[k]);
                },
                None => {},
            }
            d = d + 1;
        }
        match self.gtk_fallback_index(interface) {
            Some(k) => Some(&self.impls[k]),
            None => None,
        }
    }
    /// The indices of every backend that serves `interface`.
    fn backend_indices(&self, interface: &str) -> (r: Vec<usize>)
        ensures
            int_seq(r@) == all_backends(self.current_desktops@, self.impls@, self.configs@, interface@),
            forall|m: int| 0 <= m < r@.len() ==> #[trigger] r@[m] < self.impls@.len(),
    {
        let ghost cfgs = self.configs@;
        let ghost impls = self.impls@;
        let mut out: Vec<usize> = Vec::new();
        let mut i: usize = 0;
        while i < self.configs.len()
            invariant
                i <= cfgs.len(),
                cfgs == self.configs@,
                impls == self.impls@,
                out@.len() == 0,
                configs_all(cfgs, impls, interface@, 0) == configs_all(cfgs, impls, interface@, i as int),
            decreases cfgs.len() - i,
        {
            let config = &self.configs[i];
            if config.prefers_none(interface) {
                proof {
                    assert(int_seq(out@) =~= Seq::<int>::empty());
                }
                return out;
            }
            proof {
                assert(int_seq(out@) =~= Seq::<int>::empty());
            }
            collect_impls(&self.impls, config.preference(interface), interface, &mut out);
            if out.len() > 0 {
                return out;
            }
            let default = match &config.default_portal {
                Some(d) => Some(d),
                None => None,
            };
            proof {
                assert(int_seq(out@) =~= Seq::<int>::empty());
            }
            collect_impls(&self.impls, default, interface, &mut out);
            if out.len() > 0 {
                return out;
            }
            i = i + 1;
        }
        let ghost desktops = self.current_desktops@;
        let mut d: usize = 0;
        proof {
            assert(int_seq(out@) =~= Seq::<int>::empty());
            assert(int_seq(out@) + use_in_all(desktops, impls, interface@, 0) =~= use_in_all(desktops, impls, interface@, 0));
        }
        while d < self.current_desktops.len()
            invariant
                d <= desktops.len(),
                desktops == self.current_desktops@,
                impls == self.impls@,
                cfgs == self.configs@,
                configs_all(cfgs, impls, interface@, 0) is None,
                forall|m: int| 0 <= m < out@.len() ==> #[trigger] out@[m] < impls.len(),
                int_seq(out@) + use_in_all(desktops, impls, interface@, d as int) == use_in_all(desktops, impls, interface@, 0),
            decreases desktops.len() - d,
        {
            let desktop = self.current_desktops[d].as_str();
            let ghost base = int_seq(out@);
            let mut k: usize = 0;
            proof {
                assert(base + use_in_matches(impls, interface@, desktop@, 0) =~= base + use_in_matches(impls, interface@, desktop@, 0));
            }
            while k < self.impls.len()
                invariant
                    k <= impls.len(),
                    impls == self.impls@,
                    forall|m: int| 0 <= m < out@.len() ==> #[trigger] out@[m] < impls.len(),
                    int_seq(out@) + use_in_matches(impls, interface@, desktop@, k as int) == base + use_in_matches(impls, interface@, desktop@, 0),
                decreases impls.len() - k,
            {
                if self.impls[k].supports(interface) && contains_ci(&self.impls[k].use_in, desktop) {
                    let ghost prev = int_seq(out@);
                    out.push(k);
                    proof {
                        assert(int_seq(out@) =~= prev.push(k as int));
                        assert(int_seq(out@) + use_in_matches(impls, interface@, desktop@, k + 1)
                            =~= prev + use_in_matches(impls, interface@, desktop@, k as int));
                    }
                }
                k = k + 1;
            }
            proof {
                assert(use_in_matches(impls, interface@, desktop@, impls.len() as int) =~= Seq::<int>::empty());
                assert(int_seq(out@) =~= base + use_in_matches(impls, interface@, desktop@, 0));
                assert(int_seq(out@) + use_in_all(desktops, impls, interface@, d + 1)
                    =~= base + use_in_all(desktops, impls, interface@, d as int));
            }
            d = d + 1;
        }
        proof {
            assert(int_seq(out@) + Seq::<int>::empty() =~= int_seq(out@));
        }
        if out.len() > 0 {
            return out;
        }
        match self.gtk_fallback_index(interface) {
            Some(g) => {
                out.push(g);
                proof {
                    assert(int_seq(out@) =~= seq![g as int]);
                }
            },
            None => {},
        }
        out
    }

    /// Returns every backend that should serve `interface`, like
    /// `xdp_portal_config_find_all`: the first preference file that lists
    /// backends for it (its entry for the interface, then its default
    /// entry; duplicates of a source dropped), else every `UseIn` match,
    /// else the GTK fallback; nothing when a file disables it.
    pub fn find_all(&self, interface: &str) -> (r: Vec<&PortalImpl>)
        ensures
            ({
                let idx = all_backends(self.desktops_view(), self.impls_view(), self.configs_view(), interface@);
                &&& r@.len() == idx.len()
                &&& forall|i: int| 0 <= i < idx.len() ==> 0 <= #[trigger] idx[i] < self.impls_view().len()
                    && *r@[i] == self.impls_view()[idx[i]]
            }),
    {
        let idx = self.backend_indices(interface);
        let mut out: Vec<&PortalImpl> = Vec::new();
        let mut i: usize = 0;
        while i < idx.len()
            invariant
                i <= idx@.len(),
                out@.len() == i,
                forall|m: int| 0 <= m < idx@.len() ==> #[trigger] idx@[m] < self.impls@.len(),
                forall|m: int| 0 <= m < i ==> *out@[m] == self.impls@[#[trigger] idx@[m] as int],
            decreases idx@.len() - i,
        {
            out.push(&self.impls[idx[i]]);
            i = i + 1;
        }
        proof {
            assert forall|m: int| 0 <= m < idx@.len() implies 0 <= #[trigger] int_seq(idx@)[m] < self.impls@.len()
                && *out@[m] == self.impls@[int_seq(idx@)[m]] by {
                assert(int_seq(idx@)[m] == idx@[m] as int);
            }
        }
        out
    }
}

/// `k` is an index of an implementation of `impls` registering `iface`.
pub open spec fn serves(impls: Seq<PortalImpl>, iface: Seq<char>, k: int) -> bool {
    0 <= k < impls.len() && supports_spec(impls[k], iface)
}

proof fn lemma_supporting_index(impls: Seq<PortalImpl>, iface: Seq<char>, k: int)
    ensures
        supporting_index(impls, iface, k) >= 0 ==> serves(impls, iface, supporting_index(impls, iface, k)),
    decreases impls.len() - k,
{
    if 0 <= k < impls.len() && !supports_spec(impls[k], iface) {
        lemma_supporting_index(impls, iface, k + 1);
    }
}

proof fn lemma_source_index(impls: Seq<PortalImpl>, src: Seq<char>, k: int)
    ensures
        source_index(impls, src, k) >= 0 ==> source_index(impls, src, k) < impls.len(),
    decreases impls.len() - k,
{
    if 0 <= k < impls.len() && impls[k].source@ != src {
        lemma_source_index(impls, src, k + 1);
    }
}

proof fn lemma_pick_backend(impls: Seq<PortalImpl>, portals: Seq<Seq<char>>, iface: Seq<char>, j: int)
    ensures
        pick_backend(impls, portals, iface, j) >= 0 ==> serves(impls, iface, pick_backend(impls, portals, iface, j)),
    decreases portals.len() - j,
{
    if 0 <= j < portals.len() {
        if portals[j] == "*"@ {
            lemma_supporting_index(impls, iface, 0);
        } else {
            lemma_source_index(impls, portals[j], 0);
            lemma_pick_backend(impls, portals, iface, j + 1);
        }
    }
}

proof fn lemma_config_choice(cfgs: Seq<PreferredConfig>, impls: Seq<PortalImpl>, iface: Seq<char>, i: int)
    ensures
        config_choice(cfgs, impls, iface, i) >= 0 ==> serves(impls, iface, config_choice(cfgs, impls, iface, i)),
    decreases cfgs.len() - i,
{
    if 0 <= i < cfgs.len() {
        match preference_of(cfgs[i], iface) {
            Some(p) => lemma_pick_backend(impls, string_views(p.portals@), iface, 0),
            None => {},
        }
        match cfgs[i].default_portal {
            Some(p) => lemma_pick_backend(impls, string_views(p.portals@), iface, 0),
            None => {},
        }
        lemma_config_choice(cfgs, impls, iface, i + 1);
    }
}

proof fn lemma_use_in_index(impls: Seq<PortalImpl>, iface: Seq<char>, desktop: Seq<char>, k: int)
    ensures
        use_in_index(impls, iface, desktop, k) >= 0 ==> serves(impls, iface, use_in_index(impls, iface, desktop, k)),
    decreases impls.len() - k,
{
    if 0 <= k < impls.len() && !used_in(impls[k], iface, desktop) {
        lemma_use_in_index(impls, iface, desktop, k + 1);
    }
}

proof fn lemma_use_in_choice(desktops: Seq<String>, impls: Seq<PortalImpl>, iface: Seq<char>, d: int)
    ensures
        use_in_choice(desktops, impls, iface, d) >= 0 ==> serves(impls, iface, use_in_choice(desktops, impls, iface, d)),
    decreases desktops.len() - d,
{
    if 0 <= d < desktops.len() {
        lemma_use_in_index(impls, iface, desktops[d]@, 0);
        lemma_use_in_choice(desktops, impls, iface, d + 1);
    }
}

proof fn lemma_gtk_index(impls: Seq<PortalImpl>, iface: Seq<char>, k: int)
    ensures
        gtk_index(impls, iface, k) >= 0 ==> serves(impls, iface, gtk_index(impls, iface, k)),
    decreases impls.len() - k,
{
    if 0 <= k < impls.len() && !(impls[k].dbus_name@ == gtk_fallback_name() && supports_spec(impls[k], iface)) {
        lemma_gtk_index(impls, iface, k + 1);
    }
}

/// The backend that `find` resolves for an interface registers that
/// interface.
pub proof fn lemma_found_backend_serves(
    desktops: Seq<String>,
    impls: Seq<PortalImpl>,
    cfgs: Seq<PreferredConfig>,
    iface: Seq<char>,
)
    ensures
        resolved_backend(desktops, impls, cfgs, iface) >= 0 ==> serves(impls, iface, resolved_backend(
            desktops,
            impls,
            cfgs,
            iface,
        )),
{
    lemma_config_choice(cfgs, impls, iface, 0);
    lemma_use_in_choice(desktops, impls, iface, 0);
    lemma_gtk_index(impls, iface, 0);
}

/// Every index of `out` serves `iface`.
pub open spec fn all_serve(impls: Seq<PortalImpl>, iface: Seq<char>, out: Seq<int>) -> bool {
    forall|m: int| 0 <= m < out.len() ==> serves(impls, iface, #[trigger] out[m])
}

/// No two indices of `out` name implementations with the same source.
pub open spec fn distinct_sources(impls: Seq<PortalImpl>, out: Seq<int>) -> bool {
    forall|a: int, b: int| 0 <= a < b < out.len() ==> (#[trigger] impls[out[a]]).source@ != (#[trigger] impls[out[b]]).source@
}

proof fn lemma_collect_for(impls: Seq<PortalImpl>, portal: Seq<char>, iface: Seq<char>, out: Seq<int>, k: int)
    requires
        all_serve(impls, iface, out),
        distinct_sources(impls, out),
    ensures
        all_serve(impls, iface, collect_for(impls, portal, iface, out, k)),
        distinct_sources(impls, collect_for(impls, portal, iface, out, k)),
    decreases impls.len() - k,
{
    if 0 <= k < impls.len() {
        let c = impls[k];
        let take = (c.source@ == portal || portal == "*"@) && !source_taken(impls, out, c.source@)
            && supports_spec(c, iface);
        if take {
            let out2 = out.push(k);
            assert forall|m: int| 0 <= m < out2.len() implies serves(impls, iface, #[trigger] out2[m]) by {
                if m < out.len() {
                    assert(out2[m] == out[m]);
                }
            }
            assert forall|a: int, b: int| 0 <= a < b < out2.len() implies (#[trigger] impls[out2[a]]).source@
                != (#[trigger] impls[out2[b]]).source@ by {
                assert(out2[a] == out[a]);
                if b < out.len() {
                    assert(out2[b] == out[b]);
                } else {
                    assert(out2[b] == k);
                    if impls[out[a]].source@ == c.source@ {
                        assert(source_taken(impls, out, c.source@));
                    }
                }
            }
            lemma_collect_for(impls, portal, iface, out2, k + 1);
        } else {
            lemma_collect_for(impls, portal, iface, out, k + 1);
        }
    }
}

proof fn lemma_collect_all(impls: Seq<PortalImpl>, portals: Seq<Seq<char>>, iface: Seq<char>, out: Seq<int>, j: int)
    requires
        all_serve(impls, iface, out),
        distinct_sources(impls, out),
    ensures
        all_serve(impls, iface, collect_all(impls, portals, iface, out, j)),
        distinct_sources(impls, collect_all(impls, portals, iface, out, j)),
    decreases portals.len() - j,
{
    if 0 <= j < portals.len() {
        lemma_collect_for(impls, portals[j], iface, out, 0);
        lemma_collect_all(impls, portals, iface, collect_for(impls, portals[j], iface, out, 0), j + 1);
    }
}

proof fn lemma_collect_pref(impls: Seq<PortalImpl>, pref: Option<PortalPreference>, iface: Seq<char>)
    ensures
        all_serve(impls, iface, collect_pref(impls, pref, iface)),
        distinct_sources(impls, collect_pref(impls, pref, iface)),
{
    match pref {
        Some(p) => lemma_collect_all(impls, string_views(p.portals@), iface, seq![], 0),
        None => {},
    }
}

proof fn lemma_configs_all(cfgs: Seq<PreferredConfig>, impls: Seq<PortalImpl>, iface: Seq<char>, i: int)
    ensures
        configs_all(cfgs, impls, iface, i) matches Some(s) ==> all_serve(impls, iface, s) && distinct_sources(impls, s),
    decreases cfgs.len() - i,
{
    if 0 <= i < cfgs.len() {
        lemma_collect_pref(impls, preference_of(cfgs[i], iface), iface);
        lemma_collect_pref(impls, cfgs[i].default_portal, iface);
        lemma_configs_all(cfgs, impls, iface, i + 1);
    }
}

proof fn lemma_use_in_matches(impls: Seq<PortalImpl>, iface: Seq<char>, desktop: Seq<char>, k: int)
    ensures
        all_serve(impls, iface, use_in_matches(impls, iface, desktop, k)),
    decreases impls.len() - k,
{
    if 0 <= k < impls.len() {
        lemma_use_in_matches(impls, iface, desktop, k + 1);
        let rest = use_in_matches(impls, iface, desktop, k + 1);
        if used_in(impls[k], iface, desktop) {
            let all = seq![k] + rest;
            assert forall|m: int| 0 <= m < all.len() implies serves(impls, iface, #[trigger] all[m]) by {
                if m > 0 {
                    assert(all[m] == rest[m - 1]);
                }
            }
        }
    }
}

proof fn lemma_use_in_all(desktops: Seq<String>, impls: Seq<PortalImpl>, iface: Seq<char>, d: int)
    ensures
        all_serve(impls, iface, use_in_all(desktops, impls, iface, d)),
    decreases desktops.len() - d,
{
    if 0 <= d < desktops.len() {
        lemma_use_in_matches(impls, iface, desktops[d]@, 0);
        lemma_use_in_all(desktops, impls, iface, d + 1);
        let a = use_in_matches(impls, iface, desktops[d]@, 0);
        let b = use_in_all(desktops, impls, iface, d + 1);
        assert forall|m: int| 0 <= m < (a + b).len() implies serves(impls, iface, #[trigger] (a + b)[m]) by {
            if m < a.len() {
                assert((a + b)[m] == a[m]);
            } else {
                assert((a + b)[m] == b[m - a.len()]);
            }
        }
    }
}

/// Every backend that `find_all` lists for an interface registers that
/// interface, and the backends a preference file lists carry distinct
/// sources.
pub proof fn lemma_all_backends_serve(
    desktops: Seq<String>,
    impls: Seq<PortalImpl>,
    cfgs: Seq<PreferredConfig>,
    iface: Seq<char>,
)
    ensures
        all_serve(impls, iface, all_backends(desktops, impls, cfgs, iface)),
        configs_all(cfgs, impls, iface, 0) is Some ==> distinct_sources(impls, all_backends(desktops, impls, cfgs, iface)),
{
    lemma_configs_all(cfgs, impls, iface, 0);
    lemma_use_in_all(desktops, impls, iface, 0);
    lemma_gtk_index(impls, iface, 0);
}

/// The first index of `s`, or -1 when it is empty.
pub open spec fn first_index(s: Seq<int>) -> int {
    if s.len() > 0 {
        s[0]
    } else {
        -1
    }
}

/// No two implementations carry the same source.
pub open spec fn unique_sources(impls: Seq<PortalImpl>) -> bool {
    forall|a: int, b: int| 0 <= a < b < impls.len() ==> (#[trigger] impls[a]).source@ != (#[trigger] impls[b]).source@
}

/// When no two implementations share a source, the first backend that
/// `find_all` lists for an interface is the one `find` resolves, and
/// `find_all` lists none exactly when `find` finds none.
pub proof fn lemma_find_all_starts_with_find(
    desktops: Seq<String>,
    impls: Seq<PortalImpl>,
    cfgs: Seq<PreferredConfig>,
    iface: Seq<char>,
)
    requires
        unique_sources(impls),
    ensures
        first_index(all_backends(desktops, impls, cfgs, iface)) == resolved_backend(desktops, impls, cfgs, iface),
{
    lemma_configs_first(cfgs, impls, iface, 0);
    lemma_configs_all(cfgs, impls, iface, 0);
    lemma_use_in_all_first(desktops, impls, iface, 0);
    lemma_use_in_all(desktops, impls, iface, 0);
    lemma_gtk_index_none(impls, iface, 0);
}

proof fn lemma_supporting_none(impls: Seq<PortalImpl>, iface: Seq<char>, k: int, m: int)
    requires
        0 <= k <= m < impls.len(),
        supporting_index(impls, iface, k) < 0,
    ensures
        !supports_spec(impls[m], iface),
    decreases m - k,
{
    if k < m {
        lemma_supporting_none(impls, iface, k + 1, m);
    }
}

proof fn lemma_collect_for_unchanged(impls: Seq<PortalImpl>, portal: Seq<char>, iface: Seq<char>, out: Seq<int>, k: int)
    requires
        forall|m: int| k <= m < impls.len() ==> !(((#[trigger] impls[m]).source@ == portal || portal == "*"@)
            && supports_spec(impls[m], iface)),
    ensures
        collect_for(impls, portal, iface, out, k) == out,
    decreases impls.len() - k,
{
    if 0 <= k < impls.len() {
        lemma_collect_for_unchanged(impls, portal, iface, out, k + 1);
    }
}

proof fn lemma_collect_all_unchanged(impls: Seq<PortalImpl>, portals: Seq<Seq<char>>, iface: Seq<char>, out: Seq<int>, j: int)
    requires
        forall|m: int| 0 <= m < impls.len() ==> !supports_spec(#[trigger] impls[m], iface),
    ensures
        collect_all(impls, portals, iface, out, j) == out,
    decreases portals.len() - j,
{
    if 0 <= j < portals.len() {
        lemma_collect_for_unchanged(impls, portals[j], iface, out, 0);
        lemma_collect_all_unchanged(impls, portals, iface, out, j + 1);
    }
}

proof fn lemma_collect_for_prefix(impls: Seq<PortalImpl>, portal: Seq<char>, iface: Seq<char>, out: Seq<int>, k: int)
    ensures
        collect_for(impls, portal, iface, out, k).len() >= out.len(),
        forall|i: int| 0 <= i < out.len() ==> #[trigger] collect_for(impls, portal, iface, out, k)[i] == out[i],
    decreases impls.len() - k,
{
    if 0 <= k < impls.len() {
        let c = impls[k];
        let take = (c.source@ == portal || portal == "*"@) && !source_taken(impls, out, c.source@)
            && supports_spec(c, iface);
        let next = if take { out.push(k) } else { out };
        lemma_collect_for_prefix(impls, portal, iface, next, k + 1);
        assert forall|i: int| 0 <= i < out.len() implies #[trigger] collect_for(impls, portal, iface, out, k)[i] == out[i] by {
            assert(next[i] == out[i]);
        }
    }
}

proof fn lemma_collect_all_prefix(impls: Seq<PortalImpl>, portals: Seq<Seq<char>>, iface: Seq<char>, out: Seq<int>, j: int)
    ensures
        collect_all(impls, portals, iface, out, j).len() >= out.len(),
        forall|i: int| 0 <= i < out.len() ==> #[trigger] collect_all(impls, portals, iface, out, j)[i] == out[i],
    decreases portals.len() - j,
{
    if 0 <= j < portals.len() {
        let next = collect_for(impls, portals[j], iface, out, 0);
        lemma_collect_for_prefix(impls, portals[j], iface, out, 0);
        lemma_collect_all_prefix(impls, portals, iface, next, j + 1);
        assert forall|i: int| 0 <= i < out.len() implies #[trigger] collect_all(impls, portals, iface, out, j)[i] == out[i] by {
            assert(next[i] == out[i]);
        }
    }
}

proof fn lemma_collect_star(impls: Seq<PortalImpl>, iface: Seq<char>, k: int)
    requires
        0 <= k,
    ensures
        ({
            let c = collect_for(impls, "*"@, iface, seq![], k);
            &&& c.len() > 0 <==> supporting_index(impls, iface, k) >= 0
            &&& c.len() > 0 ==> c[0] == supporting_index(impls, iface, k)
        }),
    decreases impls.len() - k,
{
    if k < impls.len() {
        let out: Seq<int> = seq![];
        assert(!source_taken(impls, out, impls[k].source@));
        if supports_spec(impls[k], iface) {
            lemma_collect_for_prefix(impls, "*"@, iface, out.push(k), k + 1);
            assert(out.push(k)[0] == k);
        } else {
            lemma_collect_star(impls, iface, k + 1);
        }
    }
}

proof fn lemma_collect_named(impls: Seq<PortalImpl>, portal: Seq<char>, iface: Seq<char>, k: int)
    requires
        0 <= k,
        portal != "*"@,
        unique_sources(impls),
    ensures
        ({
            let c = collect_for(impls, portal, iface, seq![], k);
            let s = source_index(impls, portal, k);
            &&& c.len() > 0 <==> (s >= 0 && supports_spec(impls[s], iface))
            &&& c.len() > 0 ==> c[0] == s
        }),
    decreases impls.len() - k,
{
    if k < impls.len() {
        let out: Seq<int> = seq![];
        assert(!source_taken(impls, out, impls[k].source@));
        if impls[k].source@ == portal {
            if supports_spec(impls[k], iface) {
                lemma_collect_for_prefix(impls, portal, iface, out.push(k), k + 1);
                assert(out.push(k)[0] == k);
            } else {
                assert forall|m: int| k + 1 <= m < impls.len() implies !(((#[trigger] impls[m]).source@ == portal
                    || portal == "*"@) && supports_spec(impls[m], iface)) by {
                    assert(impls[k].source@ != impls[m].source@);
                }
                lemma_collect_for_unchanged(impls, portal, iface, out, k + 1);
            }
        } else {
            lemma_collect_named(impls, portal, iface, k + 1);
        }
    }
}

proof fn lemma_collect_all_first(impls: Seq<PortalImpl>, portals: Seq<Seq<char>>, iface: Seq<char>, j: int)
    requires
        0 <= j,
        unique_sources(impls),
    ensures
        ({
            let c = collect_all(impls, portals, iface, seq![], j);
            let p = pick_backend(impls, portals, iface, j);
            &&& c.len() > 0 <==> p >= 0
            &&& c.len() > 0 ==> c[0] == p
        }),
    decreases portals.len() - j,
{
    if j < portals.len() {
        let c1 = collect_for(impls, portals[j], iface, seq![], 0);
        lemma_collect_all_prefix(impls, portals, iface, c1, j + 1);
        if portals[j] == "*"@ {
            lemma_collect_star(impls, iface, 0);
            if c1.len() == 0 {
                assert forall|m: int| 0 <= m < impls.len() implies !supports_spec(#[trigger] impls[m], iface) by {
                    lemma_supporting_none(impls, iface, 0, m);
                }
                lemma_collect_all_unchanged(impls, portals, iface, c1, j + 1);
            }
        } else {
            lemma_collect_named(impls, portals[j], iface, 0);
            if c1.len() == 0 {
                assert(c1 =~= Seq::<int>::empty());
                lemma_collect_all_first(impls, portals, iface, j + 1);
            }
        }
    }
}

proof fn lemma_collect_pref_first(impls: Seq<PortalImpl>, pref: Option<PortalPreference>, iface: Seq<char>)
    requires
        unique_sources(impls),
    ensures
        collect_pref(impls, pref, iface).len() > 0 <==> backend_for(impls, pref, iface) >= 0,
        collect_pref(impls, pref, iface).len() > 0 ==> collect_pref(impls, pref, iface)[0] == backend_for(impls, pref, iface),
{
    match pref {
        Some(p) => lemma_collect_all_first(impls, string_views(p.portals@), iface, 0),
        None => {},
    }
}

proof fn lemma_configs_first(cfgs: Seq<PreferredConfig>, impls: Seq<PortalImpl>, iface: Seq<char>, i: int)
    requires
        0 <= i,
        unique_sources(impls),
    ensures
        match configs_all(cfgs, impls, iface, i) {
            Some(s) => first_index(s) == config_choice(cfgs, impls, iface, i),
            None => config_choice(cfgs, impls, iface, i) == -2,
        },
    decreases cfgs.len() - i,
{
    if i < cfgs.len() {
        lemma_collect_pref_first(impls, preference_of(cfgs[i], iface), iface);
        lemma_collect_pref_first(impls, cfgs[i].default_portal, iface);
        lemma_configs_first(cfgs, impls, iface, i + 1);
    }
}

proof fn lemma_use_in_matches_first(impls: Seq<PortalImpl>, iface: Seq<char>, desktop: Seq<char>, k: int)
    requires
        0 <= k,
    ensures
        first_index(use_in_matches(impls, iface, desktop, k)) == use_in_index(impls, iface, desktop, k),
        use_in_matches(impls, iface, desktop, k).len() > 0 ==> use_in_matches(impls, iface, desktop, k)[0] >= k,
    decreases impls.len() - k,
{
    if k < impls.len() && !used_in(impls[k], iface, desktop) {
        lemma_use_in_matches_first(impls, iface, desktop, k + 1);
    }
}

proof fn lemma_use_in_all_first(desktops: Seq<String>, impls: Seq<PortalImpl>, iface: Seq<char>, d: int)
    requires
        0 <= d,
    ensures
        first_index(use_in_all(desktops, impls, iface, d)) == use_in_choice(desktops, impls, iface, d),
    decreases desktops.len() - d,
{
    if d < desktops.len() {
        lemma_use_in_matches_first(impls, iface, desktops[d]@, 0);
        lemma_use_in_all_first(desktops, impls, iface, d + 1);
        let a = use_in_matches(impls, iface, desktops[d]@, 0);
        let b = use_in_all(desktops, impls, iface, d + 1);
        if a.len() > 0 {
            assert((a + b)[0] == a[0]);
        } else {
            assert(a + b =~= b);
        }
    }
}

proof fn lemma_gtk_index_none(impls: Seq<PortalImpl>, iface: Seq<char>, k: int)
    ensures
        gtk_index(impls, iface, k) >= -1,
    decreases impls.len() - k,
{
    if 0 <= k < impls.len() {
        lemma_gtk_index_none(impls, iface, k + 1);
    }
}

/// The first implementation from `t` on with source `src` is the one
/// carrying it, where it exists.
proof fn lemma_source_index_at(impls: Seq<PortalImpl>, src: Seq<char>, t: int)
    requires
        0 <= t,
    ensures
        source_index(impls, src, t) >= 0 ==> t <= source_index(impls, src, t) < impls.len()
            && impls[source_index(impls, src, t)].source@ == src,
        source_index(impls, src, t) < 0 ==> forall|m: int| t <= m < impls.len() ==> (#[trigger] impls[m]).source@ != src,
    decreases impls.len() - t,
{
    if t < impls.len() && impls[t].source@ != src {
        lemma_source_index_at(impls, src, t + 1);
    }
}

/// Some implementation registers `iface` exactly when the first one found
/// does.
proof fn lemma_supporting_found(impls: Seq<PortalImpl>, iface: Seq<char>, t: int, k: int)
    requires
        0 <= t <= k < impls.len(),
        supports_spec(impls[k], iface),
    ensures
        supporting_index(impls, iface, t) >= 0,
    decreases k - t,
{
    if !supports_spec(impls[t], iface) {
        lemma_supporting_found(impls, iface, t + 1, k);
    }
}

/// Law: a preference list (from its `j`-th entry on) picks an
/// implementation whenever one of its entries is `*` or the source of an
/// installed implementation that registers the interface, no two
/// implementations sharing a source.
pub proof fn lemma_pick_backend_found(impls: Seq<PortalImpl>, portals: Seq<Seq<char>>, iface: Seq<char>, s: int, j: int, k: int)
    requires
        unique_sources(impls),
        0 <= s <= j < portals.len(),
        0 <= k < impls.len(),
        supports_spec(impls[k], iface),
        impls[k].source@ == portals[j] || portals[j] == "*"@,
    ensures
        pick_backend(impls, portals, iface, s) >= 0,
    decreases j - s,
{
    if portals[s] == "*"@ {
        lemma_supporting_found(impls, iface, 0, k);
    } else {
        lemma_source_index_at(impls, portals[s], 0);
        let m = source_index(impls, portals[s], 0);
        if !(m >= 0 && supports_spec(impls[m], iface)) {
            if s == j {
                assert(impls[k].source@ == portals[j]);
                if m >= 0 {
                    if m != k {
                        if m < k {
                            assert(impls[m].source@ != impls[k].source@);
                        } else {
                            assert(impls[k].source@ != impls[m].source@);
                        }
                    }
                }
                assert(false);
            } else {
                lemma_pick_backend_found(impls, portals, iface, s + 1, j, k);
            }
        }
    }
}

/// Law: a preference list (from its `s`-th entry on) picks nothing when
/// none of its entries is `*` or the source of an installed implementation
/// that registers the interface.
pub proof fn lemma_pick_backend_none(impls: Seq<PortalImpl>, portals: Seq<Seq<char>>, iface: Seq<char>, s: int)
    requires
        0 <= s,
        forall|m: int| s <= m < portals.len() ==> #[trigger] portals[m] != "*"@,
        forall|m: int, k: int| s <= m < portals.len() && 0 <= k < impls.len() && (#[trigger] impls[k]).source@
            == #[trigger] portals[m] ==> !supports_spec(impls[k], iface),
    ensures
        pick_backend(impls, portals, iface, s) < 0,
    decreases portals.len() - s,
{
    if s < portals.len() {
        lemma_source_index_at(impls, portals[s], 0);
        let m = source_index(impls, portals[s], 0);
        if m >= 0 {
            assert(impls[m].source@ == portals[s]);
        }
        lemma_pick_backend_none(impls, portals, iface, s + 1);
    }
}

/// Law: within one preference file (the `i`-th) that does not disable the
/// interface, the backend its entry for the interface picks is chosen; when
/// that entry picks none (or is absent), the backend its default entry
/// picks is chosen, before later files and before the `UseIn` and GTK
/// fallbacks; `find_all` then lists that same backend first (no two
/// implementations sharing a source).
pub proof fn lemma_default_entry_before_fallbacks(
    desktops: Seq<String>,
    impls: Seq<PortalImpl>,
    cfgs: Seq<PreferredConfig>,
    iface: Seq<char>,
    i: int,
)
    requires
        0 <= i < cfgs.len(),
        !prefers_none_spec(cfgs[i], iface),
    ensures
        ({
            let a = backend_for(impls, preference_of(cfgs[i], iface), iface);
            let b = backend_for(impls, cfgs[i].default_portal, iface);
            &&& a >= 0 ==> config_choice(cfgs, impls, iface, i) == a
            &&& a < 0 && b >= 0 ==> config_choice(cfgs, impls, iface, i) == b
            &&& (i == 0 && a >= 0) ==> resolved_backend(desktops, impls, cfgs, iface) == a
            &&& (i == 0 && a < 0 && b >= 0) ==> resolved_backend(desktops, impls, cfgs, iface) == b
            &&& (unique_sources(impls) && i == 0 && a < 0 && b >= 0) ==> first_index(
                all_backends(desktops, impls, cfgs, iface),
            ) == b
            &&& (unique_sources(impls) && i == 0 && a >= 0) ==> first_index(all_backends(desktops, impls, cfgs, iface))
                == a
        }),
{
    if unique_sources(impls) {
        lemma_configs_first(cfgs, impls, iface, 0);
        lemma_collect_pref_first(impls, preference_of(cfgs[i], iface), iface);
        lemma_collect_pref_first(impls, cfgs[i].default_portal, iface);
    }
}

} // verus!
