//! The canonical blob map of the stub: fingerprint to byte content.
//!
//! Within the store at most one byte sequence is associated with a given
//! fingerprint at a time; an insert under an existing fingerprint replaces
//! the previous content, and nothing is ever removed. The store does not
//! check that inserted bytes actually hash to their key: that is the
//! caller's responsibility.

use vstd::prelude::*;

use crate::fingerprint::Fingerprint;

verus! {

/// The blob map built by inserting the pairs of `s` in order, a later pair
/// replacing an earlier one under the same fingerprint.
pub open spec fn entries_map(s: Seq<(Fingerprint, Vec<u8>)>) -> Map<Fingerprint, Seq<u8>>
    decreases s.len(),
{
    if s.len() == 0 {
        Map::empty()
    } else {
        entries_map(s.drop_last()).insert(s.last().0, s.last().1@)
    }
}

/// The canonical blob map, owned exclusively by the responder.
pub struct BlobStore {
    entries: Vec<(Fingerprint, Vec<u8>)>,
}

impl View for BlobStore {
    type V = Map<Fingerprint, Seq<u8>>;

    closed spec fn view(&self) -> Map<Fingerprint, Seq<u8>> {
        entries_map(self.entries@)
    }
}

proof fn lemma_map_of_absent(s: Seq<(Fingerprint, Vec<u8>)>, fp: Fingerprint)
    requires
        forall|i: int| 0 <= i < s.len() ==> (#[trigger] s[i]).0 != fp,
    ensures
        !entries_map(s).contains_key(fp),
    decreases s.len(),
{
    if s.len() > 0 {
        assert(forall|i: int| 0 <= i < s.drop_last().len() ==> (#[trigger] s.drop_last()[i]).0
            != fp);
        lemma_map_of_absent(s.drop_last(), fp);
    }
}

proof fn lemma_map_of_found(s: Seq<(Fingerprint, Vec<u8>)>, i: int)
    requires
        0 <= i < s.len(),
        forall|j: int| i < j < s.len() ==> (#[trigger] s[j]).0 != s[i].0,
    ensures
        entries_map(s).contains_key(s[i].0),
        entries_map(s)[s[i].0] == s[i].1@,
    decreases s.len(),
{
    if i == s.len() - 1 {
    } else {
        assert(s.last().0 != s[i].0);
        assert(forall|j: int| i < j < s.drop_last().len() ==> (#[trigger] s.drop_last()[j]).0
            != s.drop_last()[i].0);
        lemma_map_of_found(s.drop_last(), i);
    }
}

impl BlobStore {
    /// Keys are pairwise distinct, so the entry list carries exactly the
    /// content of the map view.
    pub closed spec fn wf(&self) -> bool {
        forall|i: int, j: int|
            0 <= i < j < self.entries@.len() ==> (#[trigger] self.entries@[i]).0 != (
            #[trigger] self.entries@[j]).0
    }

    /// An empty store.
    pub fn new() -> (r: BlobStore)
        ensures
            r.wf(),
            r@ == Map::<Fingerprint, Seq<u8>>::empty(),
    {
        BlobStore { entries: Vec::new() }
    }

    /// A store seeded from `pairs`, inserted in order.
    pub fn from_pairs(pairs: &Vec<(Fingerprint, Vec<u8>)>) -> (r: BlobStore)
        ensures
            r.wf(),
            r@ == entries_map(pairs@),
    {
        let mut store = BlobStore { entries: Vec::new() };
        let n: usize = pairs.len();
        let mut i: usize = 0;
        while i < n
            invariant
                i <= n,
                n == pairs@.len(),
                store.wf(),
                store@ == entries_map(pairs@.take(i as int)),
            decreases n - i,
        {
            let fp: Fingerprint = pairs[i].0;
            let bytes: Vec<u8> = pairs[i].1.clone();
            proof {
                assert forall|m: int| 0 <= m < bytes@.len() implies bytes@[m] == pairs@[i as int].1@[m] by {
                    assert(cloned::<u8>(pairs@[i as int].1@[m], bytes@[m]));
                }
                assert(bytes@ =~= pairs@[i as int].1@);
            }
            store.insert(fp, bytes);
            proof {
                assert(pairs@.take(i + 1).drop_last() =~= pairs@.take(i as int));
                assert(pairs@.take(i + 1).last() == pairs@[i as int]);
            }
            i = i + 1;
        }
        proof {
            assert(pairs@.take(n as int) =~= pairs@);
        }
        store
    }

    /// Looks a fingerprint up; the store is only read.
    pub fn get(&self, fp: Fingerprint) -> (r: Option<&Vec<u8>>)
        requires
            self.wf(),
        ensures
            match r {
                Some(b) => self@.contains_key(fp) && b@ == self@[fp],
                None => !self@.contains_key(fp),
            },
    {
        let n: usize = self.entries.len();
        let mut i: usize = 0;
        while i < n
            invariant
                i <= n,
                n == self.entries@.len(),
                self.wf(),
                forall|m: int| 0 <= m < i ==> (#[trigger] self.entries@[m]).0 != fp,
            decreases n - i,
        {
            if self.entries[i].0 == fp {
                proof {
                    lemma_map_of_found(self.entries@, i as int);
                }
                return Some(&self.entries[i].1);
            }
            i = i + 1;
        }
        proof {
            lemma_map_of_absent(self.entries@, fp);
        }
        None
    }

    /// Whether a fingerprint is present.
    pub fn contains(&self, fp: Fingerprint) -> (r: bool)
        requires
            self.wf(),
        ensures
            r == self@.contains_key(fp),
    {
        match self.get(fp) {
            Some(_) => true,
            None => false,
        }
    }

    /// Inserts a blob, replacing any prior content under the same
    /// fingerprint.
    pub fn insert(&mut self, fp: Fingerprint, bytes: Vec<u8>)
        requires
            old(self).wf(),
        ensures
            final(self).wf(),
            final(self)@ == old(self)@.insert(fp, bytes@),
    {
        let ghost s0 = self.entries@;
        let n: usize = self.entries.len();
        let mut i: usize = 0;
        while i < n
            invariant
                i <= n,
                n == self.entries@.len(),
                self.entries@ == s0,
                s0 == old(self).entries@,
                self.wf(),
                forall|m: int| 0 <= m < i ==> (#[trigger] self.entries@[m]).0 != fp,
            decreases n - i,
        {
            if self.entries[i].0 == fp {
                let ghost p = (fp, bytes);
                self.entries.set(i, (fp, bytes));
                proof {
                    lemma_map_of_set(s0, i as int, p);
                    assert forall|a: int, b: int|
                        0 <= a < b < self.entries@.len() implies (#[trigger] self.entries@[a]).0
                        != (#[trigger] self.entries@[b]).0 by {
                        assert(s0[a].0 != s0[b].0);
                    }
                }
                return ;
            }
            i = i + 1;
        }
        self.entries.push((fp, bytes));
        proof {
            assert(self.entries@.drop_last() =~= s0);
            assert(self.entries@.last() == (fp, bytes));
            assert forall|a: int, b: int|
                0 <= a < b < self.entries@.len() implies (#[trigger] self.entries@[a]).0 != (
            #[trigger] self.entries@[b]).0 by {
                if b < s0.len() {
                    assert(s0[a].0 != s0[b].0);
                } else {
                    assert(self.entries@[b].0 == fp);
                    assert(s0[a].0 != fp);
                }
            }
        }
    }
}

/// Updating the entry of `s` at `i` in place, key unchanged, updates just
/// that key of the map.
proof fn lemma_map_of_set(s: Seq<(Fingerprint, Vec<u8>)>, i: int, p: (Fingerprint, Vec<u8>))
    requires
        0 <= i < s.len(),
        p.0 == s[i].0,
        forall|j: int| i < j < s.len() ==> (#[trigger] s[j]).0 != s[i].0,
    ensures
        entries_map(s.update(i, p)) == entries_map(s).insert(p.0, p.1@),
    decreases s.len(),
{
    let u = s.update(i, p);
    if i == s.len() - 1 {
        assert(u.drop_last() =~= s.drop_last());
        assert(u.last() == p);
        assert(entries_map(u) == entries_map(s.drop_last()).insert(p.0, p.1@));
        assert(entries_map(s) == entries_map(s.drop_last()).insert(s[i].0, s[i].1@));
        assert(entries_map(s).insert(p.0, p.1@) =~= entries_map(s.drop_last()).insert(p.0, p.1@));
    } else {
        assert(u.drop_last() =~= s.drop_last().update(i, p));
        assert(u.last() == s.last());
        assert(forall|j: int| i < j < s.drop_last().len() ==> (#[trigger] s.drop_last()[j]).0
            != s.drop_last()[i].0);
        lemma_map_of_set(s.drop_last(), i, p);
        assert(s.last().0 != s[i].0);
        assert(entries_map(u) == entries_map(s.drop_last()).insert(p.0, p.1@).insert(
            s.last().0,
            s.last().1@,
        ));
        assert(entries_map(s).insert(p.0, p.1@) =~= entries_map(s.drop_last()).insert(
            p.0,
            p.1@,
        ).insert(s.last().0, s.last().1@));
    }
}

} // verus!
