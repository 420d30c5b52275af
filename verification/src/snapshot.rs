//! The flat metric snapshot: a mapping from metric name to pre-formatted
//! value, abstracted as a `Map<Seq<char>, Seq<char>>`.

use vstd::prelude::*;
use crate::text::str_eq;

verus! {

/// The mapping described by a sequence of key/value pairs; a later pair
/// overrides an earlier one with the same key.
pub open spec fn map_of(s: Seq<(String, String)>) -> Map<Seq<char>, Seq<char>>
    decreases s.len(),
{
    if s.len() == 0 {
        Map::empty()
    } else {
        map_of(s.drop_last()).insert(s.last().0@, s.last().1@)
    }
}

proof fn lemma_map_of_dom(s: Seq<(String, String)>, k: Seq<char>)
    ensures
        map_of(s).dom().contains(k) <==> exists|i: int|
            0 <= i < s.len() && (#[trigger] s[i]).0@ == k,
    decreases s.len(),
{
    if s.len() > 0 {
        lemma_map_of_dom(s.drop_last(), k);
        if s.last().0@ == k {
            assert(s[s.len() - 1].0@ == k);
        } else if map_of(s).dom().contains(k) {
            let i = choose|i: int| 0 <= i < s.len() - 1 && (#[trigger] s.drop_last()[i]).0@ == k;
            assert(s[i].0@ == k);
        } else {
            assert(forall|i: int| 0 <= i < s.len() - 1 ==> (#[trigger] s[i]) == s.drop_last()[i]);
        }
    }
}

proof fn lemma_map_of_found(s: Seq<(String, String)>, k: Seq<char>, i: int)
    requires
        0 <= i < s.len(),
        s[i].0@ == k,
        forall|j: int| i < j < s.len() ==> (#[trigger] s[j]).0@ != k,
    ensures
        map_of(s).dom().contains(k),
        map_of(s)[k] == s[i].1@,
    decreases s.len(),
{
    if i == s.len() - 1 {
    } else {
        assert(forall|j: int| i < j < s.len() - 1 ==> (#[trigger] s.drop_last()[j]) == s[j]);
        lemma_map_of_found(s.drop_last(), k, i);
    }
}

proof fn lemma_map_of_concat(a: Seq<(String, String)>, b: Seq<(String, String)>)
    ensures
        map_of(a + b) == map_of(a).union_prefer_right(map_of(b)),
    decreases b.len(),
{
    if b.len() == 0 {
        assert(a + b =~= a);
        assert(map_of(a).union_prefer_right(map_of(b)) =~= map_of(a));
    } else {
        lemma_map_of_concat(a, b.drop_last());
        assert((a + b).drop_last() =~= a + b.drop_last());
        assert(map_of(a).union_prefer_right(map_of(b.drop_last())).insert(
            b.last().0@,
            b.last().1@,
        ) =~= map_of(a).union_prefer_right(map_of(b)));
    }
}

/// A flat metric snapshot produced for one sampling tick.
#[derive(Debug)]
pub struct Snapshot {
    entries: Vec<(String, String)>,
}

impl View for Snapshot {
    type V = Map<Seq<char>, Seq<char>>;

    closed spec fn view(&self) -> Map<Seq<char>, Seq<char>> {
        map_of(self.entries@)
    }
}

impl Snapshot {
    /// An empty snapshot.
    pub fn new() -> (r: Snapshot)
        ensures
            r@ == Map::<Seq<char>, Seq<char>>::empty(),
    {
        Snapshot { entries: Vec::new() }
    }

    /// Stores a value under a metric name, replacing any earlier value.
    pub fn insert(&mut self, key: &str, value: String)
        ensures
            final(self)@ == old(self)@.insert(key@, value@),
    {
        let pair = (key.to_owned(), value);
        proof {
            assert(self.entries@.push(pair).drop_last() =~= self.entries@);
        }
        self.entries.push(pair);
    }

    /// Whether a metric name has a value in the snapshot.
    pub fn contains_key(&self, key: &str) -> (r: bool)
        ensures
            r == self@.dom().contains(key@),
    {
        let n = self.entries.len();
        let mut i: usize = 0;
        while i < n
            invariant
                0 <= i <= n,
                n == self.entries@.len(),
                forall|j: int| 0 <= j < i ==> (#[trigger] self.entries@[j]).0@ != key@,
            decreases n - i,
        {
            if str_eq(self.entries[i].0.as_str(), key) {
                proof {
                    lemma_map_of_dom(self.entries@, key@);
                }
                return true;
            }
            i += 1;
        }
        proof {
            lemma_map_of_dom(self.entries@, key@);
        }
        false
    }

    /// Stores a value only if the metric name has none yet.
    pub fn insert_if_absent(&mut self, key: &str, value: String)
        ensures
            final(self)@ == if old(self)@.dom().contains(key@) {
                old(self)@
            } else {
                old(self)@.insert(key@, value@)
            },
    {
        if !self.contains_key(key) {
            self.insert(key, value);
        }
    }

    /// Looks a metric name up, returning the value stored last.
    pub fn get(&self, key: &str) -> (r: Option<&String>)
        ensures
            self@.dom().contains(key@) ==> (r matches Some(v) && v@ == self@[key@]),
            !self@.dom().contains(key@) ==> r is None,
    {
        let n = self.entries.len();
        let mut i: usize = n;
        while i > 0
            invariant
                0 <= i <= n,
                n == self.entries@.len(),
                forall|j: int| i <= j < n ==> (#[trigger] self.entries@[j]).0@ != key@,
            decreases i,
        {
            i -= 1;
            if str_eq(self.entries[i].0.as_str(), key) {
                proof {
                    lemma_map_of_found(self.entries@, key@, i as int);
                }
                return Some(&self.entries[i].1);
            }
        }
        proof {
            lemma_map_of_dom(self.entries@, key@);
        }
        None
    }

    /// Merges another snapshot in; on a shared name the other's value wins.
    pub fn merge(&mut self, other: &Snapshot)
        ensures
            final(self)@ == old(self)@.union_prefer_right(other@),
    {
        let n = other.entries.len();
        let mut i: usize = 0;
        while i < n
            invariant
                0 <= i <= n,
                n == other.entries@.len(),
                self.entries@ == old(self).entries@ + other.entries@.take(i as int),
            decreases n - i,
        {
            let pair = (other.entries[i].0.clone(), other.entries[i].1.clone());
            self.entries.push(pair);
            proof {
                assert(self.entries@ =~= old(self).entries@ + other.entries@.take(i + 1));
            }
            i += 1;
        }
        proof {
            assert(other.entries@.take(n as int) =~= other.entries@);
            lemma_map_of_concat(old(self).entries@, other.entries@);
        }
    }

    /// Whether the snapshot holds no metric at all.
    pub fn is_empty(&self) -> (r: bool)
        ensures
            r == (self@ =~= Map::<Seq<char>, Seq<char>>::empty()),
    {
        proof {
            if self.entries@.len() > 0 {
                lemma_map_of_dom(self.entries@, self.entries@[0].0@);
                assert(self@.dom().contains(self.entries@[0].0@));
            }
        }
        self.entries.is_empty()
    }

    /// The stored pairs, for iteration by unverified callers; their mapping,
    /// later pairs winning, is the snapshot's view.
    pub fn pairs(&self) -> (r: &Vec<(String, String)>)
        ensures
            map_of(r@) == self@,
    {
        &self.entries
    }
}

} // verus!
