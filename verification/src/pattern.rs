//! The table mapping raw byte sequences to events.
//!
//! Entries are kept as an association list; on lookup the latest entry
//! for a key wins, so merging sources is concatenation and a later source
//! overrides an earlier one.  The table also answers the decoder's
//! ambiguity question: does some strictly longer key extend this buffer?

use crate::events::Event;
use vstd::prelude::*;

verus! {

/// Key/event pairs as mathematical values.
pub open spec fn entry_views(s: Seq<(Vec<u8>, Event)>) -> Seq<(Seq<u8>, Event)> {
    s.map_values(|p: (Vec<u8>, Event)| (p.0@, p.1))
}

/// The map an association list denotes: a later entry for the same key
/// overrides an earlier one.
pub open spec fn assoc_map(s: Seq<(Seq<u8>, Event)>) -> Map<Seq<u8>, Event>
    decreases s.len(),
{
    if s.len() == 0 {
        Map::empty()
    } else {
        assoc_map(s.drop_last()).insert(s.last().0, s.last().1)
    }
}

/// Some strictly longer key of `m` has `k` as a prefix.
pub open spec fn prefix_ext(m: Map<Seq<u8>, Event>, k: Seq<u8>) -> bool {
    exists|e: Seq<u8>|
        #[trigger] m.contains_key(e) && e.len() > k.len() && e.subrange(0, k.len() as int) == k
}

/// The byte-sequence-to-event table.
pub struct PatternTable {
    pub entries: Vec<(Vec<u8>, Event)>,
}

impl View for PatternTable {
    type V = Map<Seq<u8>, Event>;

    open spec fn view(&self) -> Map<Seq<u8>, Event> {
        assoc_map(entry_views(self.entries@))
    }
}

/// A key is in the denoted map exactly if some entry holds it, and the
/// value comes from the last such entry.
proof fn lemma_assoc_contains(s: Seq<(Seq<u8>, Event)>, k: Seq<u8>)
    ensures
        assoc_map(s).contains_key(k) <==> exists|i: int| 0 <= i < s.len() && #[trigger] s[i].0 == k,
    decreases s.len(),
{
    if s.len() > 0 {
        lemma_assoc_contains(s.drop_last(), k);
        if s.last().0 == k {
            assert(s[s.len() - 1].0 == k);
        } else {
            if exists|i: int| 0 <= i < s.len() && #[trigger] s[i].0 == k {
                let i = choose|i: int| 0 <= i < s.len() && #[trigger] s[i].0 == k;
                if i < s.len() - 1 {
                    assert(s.drop_last()[i].0 == k);
                }
            }
            if exists|i: int| 0 <= i < s.drop_last().len() && #[trigger] s.drop_last()[i].0 == k {
                let i = choose|i: int|
                    0 <= i < s.drop_last().len() && #[trigger] s.drop_last()[i].0 == k;
                assert(s[i].0 == k);
            }
        }
    }
}

/// The value of a key is the value of its last entry.
proof fn lemma_assoc_value(s: Seq<(Seq<u8>, Event)>, k: Seq<u8>, i: int)
    requires
        0 <= i < s.len(),
        s[i].0 == k,
        forall|j: int| i < j < s.len() ==> #[trigger] s[j].0 != k,
    ensures
        assoc_map(s).contains_key(k),
        assoc_map(s)[k] == s[i].1,
    decreases s.len(),
{
    lemma_assoc_contains(s, k);
    if i == s.len() - 1 {
    } else {
        assert(s.last().0 != k);
        lemma_assoc_value(s.drop_last(), k, i);
    }
}

impl PatternTable {
    /// A table holding the given entries; on a repeated key the later
    /// entry wins.
    pub fn from_entries(entries: Vec<(Vec<u8>, Event)>) -> (r: PatternTable)
        ensures
            r.entries == entries,
            r@ == assoc_map(entry_views(entries@)),
    {
        PatternTable { entries }
    }

    /// The event registered for exactly this byte sequence, if any.
    pub fn lookup(&self, key: &Vec<u8>) -> (r: Option<Event>)
        ensures
            r is Some <==> self@.contains_key(key@),
            r is Some ==> r.unwrap() == self@[key@],
    {
        let ghost s = entry_views(self.entries@);
        let mut i: usize = self.entries.len();
        proof {
            lemma_assoc_contains(s, key@);
        }
        while i > 0
            invariant
                s == entry_views(self.entries@),
                i <= self.entries@.len(),
                forall|j: int| i <= j < s.len() ==> #[trigger] s[j].0 != key@,
            decreases i,
        {
            i = i - 1;
            let hit = bytes_eq(&self.entries[i].0, key);
            if hit {
                proof {
                    lemma_assoc_value(s, key@, i as int);
                }
                return Some(self.entries[i].1.clone());
            }
        }
        proof {
            assert(forall|j: int| 0 <= j < s.len() ==> #[trigger] s[j].0 != key@);
        }
        None
    }

    /// Whether some strictly longer registered sequence begins with
    /// `key`: the decoder's prefix-ambiguity test.
    pub fn has_longer_with_prefix(&self, key: &Vec<u8>) -> (r: bool)
        ensures
            r == prefix_ext(self@, key@),
    {
        let ghost s = entry_views(self.entries@);
        let n = self.entries.len();
        let mut i: usize = 0;
        while i < n
            invariant
                s == entry_views(self.entries@),
                n == self.entries@.len(),
                i <= n,
                forall|j: int|
                    0 <= j < i ==> !(#[trigger] s[j].0.len() > key@.len() && s[j].0.subrange(
                        0,
                        key@.len() as int,
                    ) == key@),
            decreases n - i,
        {
            let e = &self.entries[i].0;
            if e.len() > key.len() {
                let hit = bytes_prefix(key, e);
                if hit {
                    proof {
                        lemma_assoc_contains(s, s[i as int].0);
                        assert(assoc_map(s).contains_key(s[i as int].0));
                    }
                    return true;
                }
            }
            i = i + 1;
        }
        proof {
            if prefix_ext(self@, key@) {
                let e = choose|e: Seq<u8>|
                    #[trigger] self@.contains_key(e) && e.len() > key@.len() && e.subrange(
                        0,
                        key@.len() as int,
                    ) == key@;
                lemma_assoc_contains(s, e);
                let j = choose|j: int| 0 <= j < s.len() && #[trigger] s[j].0 == e;
                assert(!(s[j].0.len() > key@.len() && s[j].0.subrange(0, key@.len() as int)
                    == key@));
            }
        }
        false
    }
}

/// Byte-vector equality by contents.
pub fn bytes_eq(a: &Vec<u8>, b: &Vec<u8>) -> (r: bool)
    ensures
        r == (a@ == b@),
{
    if a.len() != b.len() {
        return false;
    }
    let n = a.len();
    let mut i: usize = 0;
    while i < n
        invariant
            n == a@.len() == b@.len(),
            i <= n,
            forall|j: int| 0 <= j < i ==> a@[j] == b@[j],
        decreases n - i,
    {
        if a[i] != b[i] {
            return false;
        }
        i = i + 1;
    }
    proof {
        assert(a@ =~= b@);
    }
    true
}

/// Whether `a` is a prefix of `b`.
pub fn bytes_prefix(a: &Vec<u8>, b: &Vec<u8>) -> (r: bool)
    ensures
        r == (a@.len() <= b@.len() && b@.subrange(0, a@.len() as int) == a@),
{
    if a.len() > b.len() {
        return false;
    }
    let n = a.len();
    let mut i: usize = 0;
    while i < n
        invariant
            n == a@.len(),
            n <= b@.len(),
            i <= n,
            forall|j: int| 0 <= j < i ==> a@[j] == b@[j],
        decreases n - i,
    {
        if a[i] != b[i] {
            proof {
                assert(b@.subrange(0, a@.len() as int)[i as int] == b@[i as int]);
            }
            return false;
        }
        i = i + 1;
    }
    proof {
        assert(b@.subrange(0, a@.len() as int) =~= a@);
    }
    true
}

} // verus!
