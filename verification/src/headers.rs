//! A case-insensitive header map with last-write-wins semantics. Names
//! are stored lowercased; inserting under a name that is already present
//! replaces its value. The mathematical model is a `Map` from lowercased
//! header names to values.
use crate::strutil::push_char;
use crate::strutil::str_eq;
use vstd::pervasive::VecAdditionalExecFns;
use vstd::prelude::*;

verus! {

/// ASCII lowercasing of one character; anything but `A`..`Z` is unchanged.
pub open spec fn lower_char(c: char) -> char {
    if 65 <= c as u32 <= 90 {
        (((c as u32) + 32) as u8) as char
    } else {
        c
    }
}

/// ASCII lowercasing of a whole name.
pub open spec fn lower_seq(s: Seq<char>) -> Seq<char> {
    s.map_values(|c: char| lower_char(c))
}

/// ASCII-lowercases a string, exactly as `lower_seq` describes.
pub fn to_ascii_lower(s: &str) -> (r: String)
    ensures
        r@ == lower_seq(s@),
{
    let len = s.unicode_len();
    let mut out = String::new();
    let mut i: usize = 0;
    while i < len
        invariant
            i <= len,
            len == s@.len(),
            out@ == lower_seq(s@.subrange(0, i as int)),
        decreases len - i,
    {
        let c = s.get_char(i);
        let u = c as u32;
        let lc = if 65 <= u && u <= 90 {
            ((u + 32) as u8) as char
        } else {
            c
        };
        push_char(&mut out, lc);
        proof {
            assert(out@ =~= lower_seq(s@.subrange(0, i as int + 1)));
        }
        i += 1;
    }
    proof {
        assert(s@.subrange(0, len as int) =~= s@);
    }
    out
}

/// The map a list of `(name, value)` entries denotes, later entries
/// winning over earlier ones.
pub open spec fn entries_map_of(s: Seq<(Seq<char>, Seq<char>)>) -> Map<Seq<char>, Seq<char>>
    decreases s.len(),
{
    if s.len() == 0 {
        Map::empty()
    } else {
        entries_map_of(s.drop_last()).insert(s.last().0, s.last().1)
    }
}

/// A header mapping with case-insensitive names, newest value winning.
#[derive(Debug, Clone)]
pub struct HeaderMap {
    entries: Vec<(String, String)>,
}

impl HeaderMap {
    /// The stored entries: names already lowercased, in insertion order.
    pub closed spec fn entries_view(self) -> Seq<(Seq<char>, Seq<char>)> {
        self.entries@.map_values(|p: (String, String)| (p.0@, p.1@))
    }

    /// The mapping from lowercased names to values.
    pub open spec fn as_map(self) -> Map<Seq<char>, Seq<char>> {
        entries_map_of(self.entries_view())
    }

    /// Stored names are lowercased and pairwise distinct.
    pub open spec fn wf(self) -> bool {
        &&& forall|i: int|
            0 <= i < self.entries_view().len() ==> lower_seq(#[trigger] self.entries_view()[i].0)
                == self.entries_view()[i].0
        &&& forall|i: int, j: int|
            0 <= i < j < self.entries_view().len() ==> (#[trigger] self.entries_view()[i]).0 != (
            #[trigger] self.entries_view()[j]).0
    }

    pub fn new() -> (r: HeaderMap)
        ensures
            r.wf(),
            r.as_map() == Map::<Seq<char>, Seq<char>>::empty(),
            r.entries_view() == Seq::<(Seq<char>, Seq<char>)>::empty(),
    {
        let r = HeaderMap { entries: Vec::new() };
        proof {
            assert(r.entries_view() =~= Seq::<(Seq<char>, Seq<char>)>::empty());
        }
        r
    }

    pub fn len(&self) -> (r: usize)
        ensures
            r == self.entries_view().len(),
    {
        self.entries.len()
    }

    /// The entry at position `i` in insertion order: `(name, value)`.
    pub fn entry(&self, i: usize) -> (r: (&String, &String))
        requires
            i < self.entries_view().len(),
        ensures
            r.0@ == self.entries_view()[i as int].0,
            r.1@ == self.entries_view()[i as int].1,
    {
        let p = &self.entries[i];
        (&p.0, &p.1)
    }

    /// Inserts a value under a name; the name is lowercased and the
    /// newest value wins.
    pub fn insert(&mut self, name: &str, value: &str)
        requires
            old(self).wf(),
        ensures
            final(self).wf(),
            final(self).as_map() == old(self).as_map().insert(lower_seq(name@), value@),
    {
        let key = to_ascii_lower(name);
        let val = value.to_owned();
        let n = self.entries.len();
        let ghost evs = self.entries_view();
        let mut i: usize = 0;
        while i < n
            invariant
                i <= n,
                n == evs.len(),
                old(self).wf(),
                evs == old(self).entries_view(),
                evs == self.entries_view(),
                key@ == lower_seq(name@),
                val@ == value@,
                forall|k: int| 0 <= k < i ==> (#[trigger] evs[k]).0 != key@,
            decreases n - i,
        {
            if str_eq(self.entries[i].0.as_str(), key.as_str()) {
                proof {
                    assert(evs[i as int].0 == key@);
                }
                self.entries.set(i, (key, val));
                proof {
                    assert(self.entries_view() =~= evs.update(
                        i as int,
                        (lower_seq(name@), value@),
                    ));
                    lemma_update_hit(evs, i as int, value@);
                    lemma_lower_idempotent(name@);
                    assert forall|k: int|
                        0 <= k < self.entries_view().len() implies lower_seq(
                        #[trigger] self.entries_view()[k].0,
                    ) == self.entries_view()[k].0 by {
                        assert(self.entries_view()[k].0 == evs[k].0);
                    }
                    assert forall|a: int, b: int|
                        0 <= a < b < self.entries_view().len() implies (
                    #[trigger] self.entries_view()[a]).0 != (#[trigger] self.entries_view()[b]).0 by {
                        assert(self.entries_view()[a].0 == evs[a].0);
                        assert(self.entries_view()[b].0 == evs[b].0);
                    }
                }
                return ;
            }
            i += 1;
        }
        self.entries.push((key, val));
        proof {
            assert(self.entries_view() =~= evs.push((lower_seq(name@), value@)));
            lemma_push_map(evs, lower_seq(name@), value@);
            lemma_lower_idempotent(name@);
            assert forall|a: int, b: int|
                0 <= a < b < self.entries_view().len() implies (
            #[trigger] self.entries_view()[a]).0 != (#[trigger] self.entries_view()[b]).0 by {
                if b < evs.len() {
                    assert(self.entries_view()[a] == evs[a]);
                    assert(self.entries_view()[b] == evs[b]);
                } else {
                    assert(self.entries_view()[a] == evs[a]);
                    assert(self.entries_view()[b].0 == lower_seq(name@));
                }
            }
        }
    }

    /// Folds every entry of `other` into this map, `other` winning on a
    /// shared name.
    pub fn extend(&mut self, other: &HeaderMap)
        requires
            old(self).wf(),
            other.wf(),
        ensures
            final(self).wf(),
            final(self).as_map() == old(self).as_map().union_prefer_right(other.as_map()),
    {
        let n = other.entries.len();
        let mut i: usize = 0;
        proof {
            assert(old(self).as_map().union_prefer_right(
                entries_map_of(other.entries_view().subrange(0, 0)),
            ) =~= old(self).as_map()) by {
                assert(other.entries_view().subrange(0, 0) =~= Seq::<
                    (Seq<char>, Seq<char>),
                >::empty());
            }
        }
        while i < n
            invariant
                i <= n,
                n == other.entries_view().len(),
                other.wf(),
                self.wf(),
                self.as_map() == old(self).as_map().union_prefer_right(
                    entries_map_of(other.entries_view().subrange(0, i as int)),
                ),
            decreases n - i,
        {
            let ghost pre = self.as_map();
            let ghost pfx = other.entries_view().subrange(0, i as int);
            let (name, value) = other.entry(i);
            self.insert(name.as_str(), value.as_str());
            proof {
                assert(lower_seq(name@) == other.entries_view()[i as int].0);
                assert(other.entries_view().subrange(0, i as int + 1) =~= pfx.push(
                    other.entries_view()[i as int],
                ));
                lemma_push_map(pfx, other.entries_view()[i as int].0, value@);
                assert(entries_map_of(other.entries_view().subrange(0, i as int + 1))
                    == entries_map_of(pfx).insert(other.entries_view()[i as int].0, value@));
                assert(self.as_map() =~= old(self).as_map().union_prefer_right(
                    entries_map_of(other.entries_view().subrange(0, i as int + 1)),
                ));
            }
            i += 1;
        }
        proof {
            assert(other.entries_view().subrange(0, n as int) =~= other.entries_view());
        }
    }

    /// Looks a name up, case-insensitively.
    pub fn get(&self, name: &str) -> (r: Option<&String>)
        requires
            self.wf(),
        ensures
            match r {
                Some(v) => self.as_map().contains_key(lower_seq(name@)) && self.as_map()[lower_seq(
                    name@,
                )] == v@,
                None => !self.as_map().contains_key(lower_seq(name@)),
            },
    {
        let key = to_ascii_lower(name);
        let n = self.entries.len();
        let ghost evs = self.entries_view();
        let mut i: usize = 0;
        while i < n
            invariant
                i <= n,
                n == evs.len(),
                evs == self.entries_view(),
                self.wf(),
                key@ == lower_seq(name@),
                forall|k: int| 0 <= k < i ==> (#[trigger] evs[k]).0 != key@,
            decreases n - i,
        {
            if str_eq(self.entries[i].0.as_str(), key.as_str()) {
                proof {
                    assert(evs[i as int].0 == key@);
                    lemma_lookup(evs, i as int);
                    assert(self.entries[i as int].1@ == evs[i as int].1);
                }
                return Some(&self.entries[i].1);
            }
            i += 1;
        }
        proof {
            lemma_absent(evs, key@);
        }
        None
    }
}

/// Lowercasing is idempotent.
pub proof fn lemma_lower_idempotent(s: Seq<char>)
    ensures
        lower_seq(lower_seq(s)) == lower_seq(s),
{
    assert(lower_seq(lower_seq(s)) =~= lower_seq(s)) by {
        assert forall|i: int| 0 <= i < s.len() implies lower_char(lower_char(s[i])) == lower_char(
            s[i],
        ) by {}
    }
}

/// Appending an entry inserts its pair into the denoted map.
proof fn lemma_push_map(s: Seq<(Seq<char>, Seq<char>)>, k: Seq<char>, v: Seq<char>)
    ensures
        entries_map_of(s.push((k, v))) == entries_map_of(s).insert(k, v),
{
    assert(s.push((k, v)).drop_last() =~= s);
    assert(s.push((k, v)).last() == (k, v));
}

/// Replacing the value at a position whose key occurs nowhere else
/// inserts the new pair into the denoted map.
proof fn lemma_update_hit(s: Seq<(Seq<char>, Seq<char>)>, i: int, v: Seq<char>)
    requires
        0 <= i < s.len(),
        forall|a: int, b: int| 0 <= a < b < s.len() ==> (#[trigger] s[a]).0 != (#[trigger] s[b]).0,
    ensures
        entries_map_of(s.update(i, (s[i].0, v))) == entries_map_of(s).insert(s[i].0, v),
    decreases s.len(),
{
    let t = s.update(i, (s[i].0, v));
    if i == s.len() - 1 {
        assert(t.drop_last() =~= s.drop_last());
        assert(entries_map_of(t) =~= entries_map_of(s).insert(s[i].0, v));
    } else {
        lemma_update_hit(s.drop_last(), i, v);
        assert(t.drop_last() =~= s.drop_last().update(i, (s[i].0, v)));
        assert(t.last() == s.last());
        assert(s.drop_last()[i] == s[i]);
        assert(entries_map_of(t) == entries_map_of(s.drop_last()).insert(s[i].0, v).insert(
            s.last().0,
            s.last().1,
        ));
        assert(s[i].0 != s.last().0);
        assert(entries_map_of(t) =~= entries_map_of(s).insert(s[i].0, v));
    }
}

/// A key that occurs at position `i` and nowhere later maps to that
/// entry's value.
proof fn lemma_lookup(s: Seq<(Seq<char>, Seq<char>)>, i: int)
    requires
        0 <= i < s.len(),
        forall|a: int, b: int| 0 <= a < b < s.len() ==> (#[trigger] s[a]).0 != (#[trigger] s[b]).0,
    ensures
        entries_map_of(s).contains_key(s[i].0),
        entries_map_of(s)[s[i].0] == s[i].1,
    decreases s.len(),
{
    if i == s.len() - 1 {
    } else {
        lemma_lookup(s.drop_last(), i);
        assert(s.drop_last()[i] == s[i]);
        assert(s[i].0 != s.last().0);
    }
}

/// A key that occurs in no entry is absent from the denoted map.
proof fn lemma_absent(s: Seq<(Seq<char>, Seq<char>)>, k: Seq<char>)
    requires
        forall|i: int| 0 <= i < s.len() ==> (#[trigger] s[i]).0 != k,
    ensures
        !entries_map_of(s).contains_key(k),
    decreases s.len(),
{
    if s.len() > 0 {
        lemma_absent(s.drop_last(), k);
    }
}

} // verus!
