//! A small map from header names to header values.
//!
//! Entries are kept in insertion order; the map a [`HeaderMap`] stands for
//! is built by inserting its entries in order, so a later entry for a name
//! overrides an earlier one. The public operations never leave two entries
//! with one name.

use vstd::prelude::*;

verus! {

broadcast use vstd::seq::group_seq_axioms;

/// The map obtained by inserting the entries of `s` in order.
pub open spec fn entries_map(s: Seq<(String, String)>) -> Map<Seq<char>, Seq<char>>
    decreases s.len(),
{
    if s.len() == 0 {
        Map::empty()
    } else {
        entries_map(s.drop_last()).insert(s.last().0@, s.last().1@)
    }
}

/// `", "`, the separator that joins repeated header values.
pub open spec fn comma_space() -> Seq<char> {
    seq![',', ' ']
}

/// Adds `value` under `name`, joining it to an existing value with `", "`.
pub open spec fn merge_value(m: Map<Seq<char>, Seq<char>>, name: Seq<char>, value: Seq<char>) -> Map<
    Seq<char>,
    Seq<char>,
> {
    if m.contains_key(name) {
        m.insert(name, m[name] + comma_space() + value)
    } else {
        m.insert(name, value)
    }
}

/// The value of `k` comes from the last entry named `k`, and `k` is absent
/// when no entry has that name.
pub proof fn lemma_entries_map_lookup(s: Seq<(String, String)>, k: Seq<char>)
    ensures
        forall|j: int|
            0 <= j < s.len() && #[trigger] s[j].0@ == k && (forall|i: int| j < i < s.len() ==> s[i].0@ != k)
                ==> entries_map(s).contains_key(k) && entries_map(s)[k] == s[j].1@,
        (forall|j: int| 0 <= j < s.len() ==> #[trigger] s[j].0@ != k) ==> !entries_map(s).contains_key(k),
    decreases s.len(),
{
    if s.len() > 0 {
        let p = s.drop_last();
        lemma_entries_map_lookup(p, k);
        assert forall|j: int|
            0 <= j < s.len() && #[trigger] s[j].0@ == k && (forall|i: int| j < i < s.len() ==> s[i].0@ != k)
            implies entries_map(s).contains_key(k) && entries_map(s)[k] == s[j].1@ by {
            if j < s.len() - 1 {
                assert(p[j] == s[j]);
                assert forall|i: int| j < i < p.len() implies p[i].0@ != k by {
                    assert(p[i] == s[i]);
                }
                assert(s.last() == s[s.len() - 1]);
            }
        }
        if forall|j: int| 0 <= j < s.len() ==> #[trigger] s[j].0@ != k {
            assert forall|j: int| 0 <= j < p.len() implies #[trigger] p[j].0@ != k by {
                assert(p[j] == s[j]);
            }
            assert(s.last() == s[s.len() - 1]);
        }
    }
}

/// Replacing the last entry named `k` sets the value of `k`.
pub proof fn lemma_entries_map_update(s: Seq<(String, String)>, j: int, e: (String, String))
    requires
        0 <= j < s.len(),
        s[j].0@ == e.0@,
        forall|i: int| j < i < s.len() ==> s[i].0@ != e.0@,
    ensures
        entries_map(s.update(j, e)) == entries_map(s).insert(e.0@, e.1@),
    decreases s.len(),
{
    let t = s.update(j, e);
    if j == s.len() - 1 {
        assert(t.drop_last() =~= s.drop_last());
        assert(entries_map(t) =~= entries_map(s).insert(e.0@, e.1@));
    } else {
        let p = s.drop_last();
        assert forall|i: int| j < i < p.len() implies p[i].0@ != e.0@ by {
            assert(p[i] == s[i]);
        }
        lemma_entries_map_update(p, j, e);
        assert(t.drop_last() =~= p.update(j, e));
        assert(s.last() == s[s.len() - 1]);
        assert(t.last() == s.last());
        assert(entries_map(t) =~= entries_map(s).insert(e.0@, e.1@));
    }
}

/// Header names mapped to values.
#[derive(Debug, Clone)]
pub struct HeaderMap {
    entries: Vec<(String, String)>,
}

impl View for HeaderMap {
    type V = Map<Seq<char>, Seq<char>>;

    closed spec fn view(&self) -> Map<Seq<char>, Seq<char>> {
        entries_map(self.entries@)
    }
}

/// Byte-wise equality of two slices.
fn bytes_eq(a: &[u8], b: &[u8]) -> (r: bool)
    ensures
        r == (a@ == b@),
{
    if a.len() != b.len() {
        return false;
    }
    let mut i: usize = 0;
    while i < a.len()
        invariant
            a@.len() == b@.len(),
            i <= a@.len(),
            forall|k: int| 0 <= k < i ==> a@[k] == b@[k],
        decreases a@.len() - i,
    {
        if a[i] != b[i] {
            return false;
        }
        i = i + 1;
    }
    assert(a@ =~= b@);
    true
}

/// Character-wise equality of two string slices.
pub fn str_eq(a: &str, b: &str) -> (r: bool)
    ensures
        r == (a@ == b@),
{
    let r = bytes_eq(a.as_bytes(), b.as_bytes());
    proof {
        vstd::utf8::encode_utf8_decode_utf8(a@);
        vstd::utf8::encode_utf8_decode_utf8(b@);
    }
    r
}

impl HeaderMap {
    /// An empty map.
    pub fn new() -> (m: HeaderMap)
        ensures
            m@ == Map::<Seq<char>, Seq<char>>::empty(),
    {
        HeaderMap { entries: Vec::new() }
    }

    /// Index of the last entry named `name`, if any.
    fn position(&self, name: &str) -> (r: Option<usize>)
        ensures
            match r {
                Some(j) => j < self.entries@.len() && self.entries@[j as int].0@ == name@
                    && forall|i: int| j < i < self.entries@.len() ==> self.entries@[i].0@ != name@,
                None => forall|i: int| 0 <= i < self.entries@.len() ==> self.entries@[i].0@ != name@,
            },
    {
        let mut j: usize = self.entries.len();
        while j > 0
            invariant
                j <= self.entries@.len(),
                forall|i: int| j <= i < self.entries@.len() ==> self.entries@[i].0@ != name@,
            decreases j,
        {
            if str_eq(self.entries[j - 1].0.as_str(), name) {
                return Some(j - 1);
            }
            j = j - 1;
        }
        None
    }

    /// The value stored under `name`.
    pub fn get(&self, name: &str) -> (r: Option<&String>)
        ensures
            match r {
                Some(v) => self@.contains_key(name@) && self@[name@] == v@,
                None => !self@.contains_key(name@),
            },
    {
        proof {
            lemma_entries_map_lookup(self.entries@, name@);
        }
        match self.position(name) {
            Some(j) => Some(&self.entries[j].1),
            None => None,
        }
    }

    /// Whether a value is stored under `name`.
    pub fn contains_key(&self, name: &str) -> (r: bool)
        ensures
            r == self@.contains_key(name@),
    {
        self.get(name).is_some()
    }

    /// Stores `value` under `name`, returning the value it replaces.
    pub fn insert(&mut self, name: String, value: String) -> (r: Option<String>)
        ensures
            final(self)@ == old(self)@.insert(name@, value@),
            match r {
                Some(v) => old(self)@.contains_key(name@) && old(self)@[name@] == v@,
                None => !old(self)@.contains_key(name@),
            },
    {
        proof {
            lemma_entries_map_lookup(self.entries@, name@);
        }
        match self.position(name.as_str()) {
            Some(j) => {
                let ghost s = self.entries@;
                let (_, old_value) = self.entries.remove(j);
                let ghost e = (name, value);
                self.entries.insert(j, (name, value));
                proof {
                    assert(self.entries@ =~= s.update(j as int, e));
                    lemma_entries_map_update(s, j as int, e);
                }
                Some(old_value)
            },
            None => {
                let ghost s = self.entries@;
                self.entries.push((name, value));
                proof {
                    assert(self.entries@.drop_last() =~= s);
                }
                None
            },
        }
    }

    /// Removes the value stored under `name`, returning it.
    pub fn remove(&mut self, name: &str) -> (r: Option<String>)
        ensures
            final(self)@ == old(self)@.remove(name@),
            match r {
                Some(v) => old(self)@.contains_key(name@) && old(self)@[name@] == v@,
                None => !old(self)@.contains_key(name@),
            },
    {
        proof {
            lemma_entries_map_lookup(self.entries@, name@);
        }
        let found = self.position(name);
        let mut kept: Vec<(String, String)> = Vec::new();
        let mut taken: Option<String> = None;
        let n = self.entries.len();
        let ghost s = self.entries@;
        let mut rest: Vec<(String, String)> = Vec::new();
        std::mem::swap(&mut rest, &mut self.entries);
        let mut i: usize = 0;
        while rest.len() > 0
            invariant
                i + rest@.len() == n,
                n == s.len(),
                rest@ == s.subrange(i as int, n as int),
                entries_map(kept@) == entries_map(s.subrange(0, i as int)).remove(name@),
                match found {
                    Some(j) => j < n && s[j as int].0@ == name@
                        && (forall|t: int| j < t < n ==> s[t].0@ != name@)
                        && (i > j ==> (taken matches Some(v) && v@ == s[j as int].1@))
                        && (i <= j ==> taken is None),
                    None => taken is None && forall|t: int| 0 <= t < n ==> s[t].0@ != name@,
                },
            decreases rest@.len(),
        {
            let (k, v) = rest.remove(0);
            let ghost pre = s.subrange(0, i as int);
            proof {
                assert(s[i as int] == (k, v));
                assert(s.subrange(0, i + 1).drop_last() =~= pre);
            }
            if str_eq(k.as_str(), name) {
                proof {
                    assert(entries_map(s.subrange(0, i + 1)).remove(name@) =~= entries_map(pre).remove(name@));
                }
                match found {
                    Some(j) => {
                        if j == i {
                            taken = Some(v);
                        }
                    },
                    None => {},
                }
            } else {
                let ghost kb = kept@;
                kept.push((k, v));
                proof {
                    assert(kept@.drop_last() =~= kb);
                    assert(entries_map(kept@) =~= entries_map(s.subrange(0, i + 1)).remove(name@));
                }
            }
            i = i + 1;
            proof {
                assert(rest@ =~= s.subrange(i as int, n as int));
            }
        }
        proof {
            assert(s.subrange(0, n as int) =~= s);
        }
        self.entries = kept;
        taken
    }

    /// Adds `value` under `name`; an existing value becomes the old value,
    /// `", "` and `value` (the list form of a repeated header field).
    pub fn append_value(&mut self, name: String, value: String) -> (r: ())
        ensures
            final(self)@ == merge_value(old(self)@, name@, value@),
    {
        proof {
            lemma_entries_map_lookup(self.entries@, name@);
        }
        match self.position(name.as_str()) {
            Some(j) => {
                let ghost s = self.entries@;
                let (k, mut joined) = self.entries.remove(j);
                joined.append(", ");
                joined.append(value.as_str());
                let ghost e = (k, joined);
                proof {
                    reveal_strlit(", ");
                    assert(", "@ =~= comma_space());
                }
                self.entries.insert(j, (k, joined));
                proof {
                    assert(self.entries@ =~= s.update(j as int, e));
                    lemma_entries_map_update(s, j as int, e);
                }
            },
            None => {
                let ghost s = self.entries@;
                self.entries.push((name, value));
                proof {
                    assert(self.entries@.drop_last() =~= s);
                }
            },
        }
    }
}

} // verus!
