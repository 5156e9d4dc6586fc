//! The single global key-value settings store (not tenant-scoped): string
//! keys upserted with string values, read back or reported `NotFound`.
use vstd::prelude::*;
use crate::StoreError;

verus! {

/// The map that a sequence of key-value entries represents; later entries
/// win (well-formedness keeps keys unique, so order never matters).
pub open spec fn entries_map(s: Seq<(String, String)>) -> Map<Seq<char>, Seq<char>>
    decreases s.len(),
{
    if s.len() == 0 {
        Map::<Seq<char>, Seq<char>>::empty()
    } else {
        entries_map(s.drop_last()).insert(s.last().0@, s.last().1@)
    }
}

/// In-memory model of the global settings store. The field is public so
/// that contracts can speak about it; methods require and preserve `wf`.
pub struct SettingsDb {
    pub entries: Vec<(String, String)>,
}

impl SettingsDb {
    /// The key-value map this store holds.
    pub open spec fn spec_map(self) -> Map<Seq<char>, Seq<char>> {
        entries_map(self.entries@)
    }

    /// Well-formedness: keys are unique, mirroring the primary key of the
    /// persisted settings table.
    pub open spec fn wf(self) -> bool {
        forall|i: int, j: int|
            0 <= i < j < self.entries@.len() ==> (#[trigger] self.entries@[i]).0@ != (
            #[trigger] self.entries@[j]).0@
    }

    /// A fresh, empty settings store: the state right after idempotent
    /// schema creation.
    pub fn new() -> (r: Self)
        ensures
            r.wf(),
            r.spec_map() == Map::<Seq<char>, Seq<char>>::empty(),
    {
        SettingsDb { entries: Vec::new() }
    }

    /// Read one setting. Fails with `NotFound` exactly when the key was
    /// never set; callers treat that as a legitimate unconfigured state.
    pub fn get_setting(&self, name: &str) -> (r: Result<String, StoreError>)
        requires
            self.wf(),
        ensures
            self.spec_map().contains_key(name@) ==> (r matches Ok(v) && v@ == self.spec_map()[name@]),
            !self.spec_map().contains_key(name@) ==> r == Err::<String, StoreError>(
                StoreError::NotFound,
            ),
    {
        let needle: String = name.to_owned();
        let mut i: usize = 0;
        while i < self.entries.len()
            invariant
                self.wf(),
                needle@ == name@,
                i <= self.entries@.len(),
                forall|k: int| 0 <= k < i ==> (#[trigger] self.entries@[k]).0@ != name@,
            decreases self.entries@.len() - i,
        {
            if self.entries[i].0 == needle {
                proof {
                    lemma_entries_map_lookup(self.entries@, i as int);
                }
                return Ok(self.entries[i].1.clone());
            }
            i += 1;
        }
        proof {
            lemma_entries_map_members(self.entries@);
        }
        Err(StoreError::NotFound)
    }

    /// Upsert one setting: a later value for the same key overwrites the
    /// earlier one.
    pub fn add_setting(&mut self, key: &str, value: &str)
        requires
            old(self).wf(),
        ensures
            final(self).wf(),
            final(self).spec_map() == old(self).spec_map().insert(key@, value@),
    {
        let needle: String = key.to_owned();
        let mut i: usize = 0;
        while i < self.entries.len()
            invariant
                old(self).wf(),
                needle@ == key@,
                *self == *old(self),
                i <= self.entries@.len(),
                forall|k: int| 0 <= k < i ==> (#[trigger] self.entries@[k]).0@ != key@,
            decreases self.entries@.len() - i,
        {
            if self.entries[i].0 == needle {
                let slot = &mut self.entries[i];
                *slot = (key.to_owned(), value.to_owned());
                proof {
                    lemma_entries_map_update(old(self).entries@, i as int, self.entries@[i as int]);
                    assert forall|a: int, b: int|
                        0 <= a < b < self.entries@.len() implies (#[trigger] self.entries@[a]).0@
                        != (#[trigger] self.entries@[b]).0@ by {
                        assert(old(self).entries@[a].0@ != old(self).entries@[b].0@);
                    }
                }
                return ;
            }
            i += 1;
        }
        self.entries.push((key.to_owned(), value.to_owned()));
        proof {
            assert(self.entries@.drop_last() =~= old(self).entries@);
        }
    }
}

/// A key is in the represented map exactly when some entry carries it.
proof fn lemma_entries_map_members(s: Seq<(String, String)>)
    ensures
        forall|k: Seq<char>|
            #[trigger] entries_map(s).contains_key(k) <==> exists|i: int|
                0 <= i < s.len() && (#[trigger] s[i]).0@ == k,
    decreases s.len(),
{
    if s.len() != 0 {
        let t = s.drop_last();
        lemma_entries_map_members(t);
        assert forall|k: Seq<char>|
            #[trigger] entries_map(s).contains_key(k) implies exists|i: int|
            0 <= i < s.len() && (#[trigger] s[i]).0@ == k by {
            if s.last().0@ == k {
                assert(s[s.len() - 1].0@ == k);
            } else {
                assert(entries_map(t).contains_key(k));
                let i = choose|i: int| 0 <= i < t.len() && (#[trigger] t[i]).0@ == k;
                assert(s[i].0@ == k);
            }
        }
        assert forall|k: Seq<char>|
            (exists|i: int|
                0 <= i < s.len() && (#[trigger] s[i]).0@ == k) implies #[trigger] entries_map(
            s,
        ).contains_key(k) by {
            let i = choose|i: int| 0 <= i < s.len() && (#[trigger] s[i]).0@ == k;
            if i < s.len() - 1 {
                assert(t[i].0@ == k);
                assert(entries_map(t).contains_key(k));
            } else {
                assert(s.last().0@ == k);
            }
        }
    }
}

/// With unique keys, the entry that carries a key gives its value in the
/// represented map.
proof fn lemma_entries_map_lookup(s: Seq<(String, String)>, i: int)
    requires
        forall|a: int, b: int| 0 <= a < b < s.len() ==> (#[trigger] s[a]).0@ != (#[trigger] s[b]).0@,
        0 <= i < s.len(),
    ensures
        entries_map(s).contains_key(s[i].0@),
        entries_map(s)[s[i].0@] == s[i].1@,
    decreases s.len(),
{
    let t = s.drop_last();
    if i == s.len() - 1 {
        assert(s[i] == s.last());
    } else {
        assert(forall|a: int, b: int|
            0 <= a < b < t.len() ==> (#[trigger] t[a]).0@ != (#[trigger] t[b]).0@);
        lemma_entries_map_lookup(t, i);
        assert(t[i] == s[i]);
        assert(s[i].0@ != s.last().0@);
    }
}

/// With unique keys, replacing the entry that carries a key upserts that
/// key in the represented map.
proof fn lemma_entries_map_update(s: Seq<(String, String)>, i: int, e: (String, String))
    requires
        forall|a: int, b: int| 0 <= a < b < s.len() ==> (#[trigger] s[a]).0@ != (#[trigger] s[b]).0@,
        0 <= i < s.len(),
        e.0@ == s[i].0@,
    ensures
        entries_map(s.update(i, e)) == entries_map(s).insert(e.0@, e.1@),
    decreases s.len(),
{
    let t = s.drop_last();
    let u = s.update(i, e);
    if i == s.len() - 1 {
        assert(u.drop_last() =~= t);
        assert(u.last() == e);
        assert(entries_map(s).insert(e.0@, e.1@) =~= entries_map(t).insert(s.last().0@, s.last().1@)
            .insert(e.0@, e.1@));
    } else {
        assert(forall|a: int, b: int|
            0 <= a < b < t.len() ==> (#[trigger] t[a]).0@ != (#[trigger] t[b]).0@);
        lemma_entries_map_update(t, i, e);
        assert(u.drop_last() =~= t.update(i, e));
        assert(u.last() == s.last());
        assert(s[i].0@ != s.last().0@);
        assert(entries_map(u) =~= entries_map(s).insert(e.0@, e.1@));
    }
}

/// After `set(key, v)`, `get(key)` sees `v`; a second `set(key, v2)`
/// overwrites the stored value to `v2`. Unset keys are absent.
pub proof fn lemma_set_then_get(
    m: Map<Seq<char>, Seq<char>>,
    key: Seq<char>,
    v1: Seq<char>,
    v2: Seq<char>,
)
    ensures
        m.insert(key, v1).contains_key(key),
        m.insert(key, v1)[key] == v1,
        m.insert(key, v1).insert(key, v2)[key] == v2,
        !Map::<Seq<char>, Seq<char>>::empty().contains_key(key),
{
}

} // verus!
