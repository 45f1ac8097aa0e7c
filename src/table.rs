//! A table from names to values, where a later entry for a name shadows the
//! earlier ones.
use vstd::prelude::*;
use crate::text::str_eq;

verus! {

/// The map described by a list of entries, later entries winning.
pub open spec fn map_of<V>(entries: Seq<(String, V)>) -> Map<Seq<char>, V>
    decreases entries.len(),
{
    if entries.len() == 0 {
        Map::empty()
    } else {
        map_of(entries.drop_last()).insert(entries.last().0@, entries.last().1)
    }
}

/// Names bound to values.
pub struct Table<V> {
    entries: Vec<(String, V)>,
}

impl<V> View for Table<V> {
    type V = Map<Seq<char>, V>;

    closed spec fn view(&self) -> Map<Seq<char>, V> {
        map_of(self.entries@)
    }
}

/// Entries from index `i` on do not mention `k`, so `k` is looked up in the
/// first `i` entries.
proof fn lemma_unshadowed<V>(s: Seq<(String, V)>, i: int, k: Seq<char>)
    requires
        0 <= i <= s.len(),
        forall|t: int| i <= t < s.len() ==> s[t].0@ != k,
    ensures
        map_of(s).contains_key(k) == map_of(s.take(i)).contains_key(k),
        map_of(s).contains_key(k) ==> map_of(s)[k] == map_of(s.take(i))[k],
    decreases s.len() - i,
{
    if i < s.len() {
        let p = s.drop_last();
        assert forall|t: int| i <= t < p.len() implies p[t].0@ != k by {
            assert(p[t] == s[t]);
        }
        lemma_unshadowed(p, i, k);
        assert(p.take(i) == s.take(i));
    } else {
        assert(s.take(i) == s);
    }
}

impl<V> Table<V> {
    /// An empty table.
    pub fn new() -> (r: Self)
        ensures
            r@ == Map::<Seq<char>, V>::empty(),
    {
        Table { entries: Vec::new() }
    }

    /// Binds `name` to `value`, replacing any earlier binding of `name`.
    pub fn insert(&mut self, name: String, value: V)
        ensures
            final(self)@ == old(self)@.insert(name@, value),
    {
        let ghost k = name@;
        self.entries.push((name, value));
        assert(self.entries@.drop_last() == old(self).entries@);
    }

    /// The value bound to `name`, if any.
    pub fn get(&self, name: &str) -> (r: Option<&V>)
        ensures
            r.is_some() == self@.contains_key(name@),
            r.is_some() ==> *r.unwrap() == self@[name@],
    {
        let mut i: usize = self.entries.len();
        while i > 0
            invariant
                i <= self.entries@.len(),
                forall|t: int| i <= t < self.entries@.len() ==> self.entries@[t].0@ != name@,
            decreases i,
        {
            let e = &self.entries[i - 1];
            if str_eq(e.0.as_str(), name) {
                proof {
                    let s = self.entries@;
                    lemma_unshadowed(s, i as int, name@);
                    assert(s.take(i as int).drop_last() == s.take(i - 1));
                }
                return Some(&e.1);
            }
            i = i - 1;
        }
        proof {
            lemma_unshadowed(self.entries@, 0, name@);
        }
        None
    }

    /// The entries, oldest first; a name may occur more than once.
    pub fn entries(&self) -> (r: &Vec<(String, V)>)
        ensures
            map_of(r@) == self@,
    {
        &self.entries
    }
}

} // verus!
