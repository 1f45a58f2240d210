//! The response cache: a map from the fingerprint of a query to the bytes
//! of the answer seen for it. Entries never expire and are never evicted;
//! a second answer for a fingerprint takes the place of the first.
use vstd::prelude::*;

verus! {

/// What a lookup finds in a map of answers.
pub open spec fn found(m: Map<Seq<u8>, Seq<u8>>, fingerprint: Seq<u8>) -> Option<Seq<u8>> {
    if m.contains_key(fingerprint) {
        Some(m[fingerprint])
    } else {
        None
    }
}

/// A map of answers after one is stored: the entry is added, or takes the
/// place of the one that was there.
pub open spec fn stored(m: Map<Seq<u8>, Seq<u8>>, fingerprint: Seq<u8>, answer: Seq<u8>) -> Map<
    Seq<u8>,
    Seq<u8>,
> {
    m.insert(fingerprint, answer)
}

/// A lookup finds what was stored last: the first answer after the first
/// `put`, the second after the second.
pub proof fn lemma_overwrite(
    m: Map<Seq<u8>, Seq<u8>>,
    fingerprint: Seq<u8>,
    first: Seq<u8>,
    second: Seq<u8>,
)
    ensures
        found(stored(m, fingerprint, first), fingerprint) == Some(first),
        found(stored(stored(m, fingerprint, first), fingerprint, second), fingerprint) == Some(
            second,
        ),
{
}

/// The map that a list of entries stands for. A later entry for a key
/// overrides an earlier one.
pub open spec fn map_of(entries: Seq<(Vec<u8>, Vec<u8>)>) -> Map<Seq<u8>, Seq<u8>>
    decreases entries.len(),
{
    if entries.len() == 0 {
        Map::empty()
    } else {
        map_of(entries.drop_last()).insert(entries.last().0@, entries.last().1@)
    }
}

/// No key stands twice in the list.
pub open spec fn distinct_keys(entries: Seq<(Vec<u8>, Vec<u8>)>) -> bool {
    forall|i: int, j: int|
        0 <= i < j < entries.len() ==> (#[trigger] entries[i]).0@ != (#[trigger] entries[j]).0@
}

/// A key that no entry has is not in the map.
pub proof fn lemma_absent(entries: Seq<(Vec<u8>, Vec<u8>)>, key: Seq<u8>)
    requires
        forall|i: int| 0 <= i < entries.len() ==> (#[trigger] entries[i]).0@ != key,
    ensures
        !map_of(entries).contains_key(key),
    decreases entries.len(),
{
    if entries.len() > 0 {
        lemma_absent(entries.drop_last(), key);
    }
}

/// Where no key stands twice, the map gives for the key of an entry the
/// value of that entry.
pub proof fn lemma_present(entries: Seq<(Vec<u8>, Vec<u8>)>, at: int)
    requires
        distinct_keys(entries),
        0 <= at < entries.len(),
    ensures
        map_of(entries).contains_key(entries[at].0@),
        map_of(entries)[entries[at].0@] == entries[at].1@,
    decreases entries.len(),
{
    let last = entries.len() - 1;
    if at < last {
        assert(entries[at].0@ != entries[last].0@);
        assert(distinct_keys(entries.drop_last())) by {
            assert forall|i: int, j: int| 0 <= i < j < entries.drop_last().len() implies (
            #[trigger] entries.drop_last()[i]).0@ != (#[trigger] entries.drop_last()[j]).0@ by {
                assert(entries[i].0@ != entries[j].0@);
            }
        }
        lemma_present(entries.drop_last(), at);
    }
}

/// Replacing the value of one entry stores that value under its key.
pub proof fn lemma_replaced(entries: Seq<(Vec<u8>, Vec<u8>)>, at: int, entry: (Vec<u8>, Vec<u8>))
    requires
        distinct_keys(entries),
        0 <= at < entries.len(),
        entry.0@ == entries[at].0@,
    ensures
        distinct_keys(entries.update(at, entry)),
        map_of(entries.update(at, entry)) == map_of(entries).insert(entry.0@, entry.1@),
    decreases entries.len(),
{
    let updated = entries.update(at, entry);
    let last = entries.len() - 1;
    assert(distinct_keys(updated)) by {
        assert forall|i: int, j: int| 0 <= i < j < updated.len() implies (#[trigger] updated[i]).0@
            != (#[trigger] updated[j]).0@ by {
            assert(entries[i].0@ != entries[j].0@);
        }
    }
    if at == last {
        assert(updated.drop_last() =~= entries.drop_last());
        assert(map_of(updated) =~= map_of(entries).insert(entry.0@, entry.1@));
    } else {
        assert(distinct_keys(entries.drop_last())) by {
            assert forall|i: int, j: int| 0 <= i < j < entries.drop_last().len() implies (
            #[trigger] entries.drop_last()[i]).0@ != (#[trigger] entries.drop_last()[j]).0@ by {
                assert(entries[i].0@ != entries[j].0@);
            }
        }
        lemma_replaced(entries.drop_last(), at, entry);
        assert(updated.drop_last() =~= entries.drop_last().update(at, entry));
        assert(entries[at].0@ != entries[last].0@);
        assert(map_of(updated) =~= map_of(entries).insert(entry.0@, entry.1@));
    }
}

/// Whether two byte strings are the same.
pub fn same_bytes(a: &[u8], b: &[u8]) -> (same: bool)
    ensures
        same == (a@ == b@),
{
    if a.len() != b.len() {
        return false;
    }
    let n: usize = a.len();
    let mut i: usize = 0;
    while i < n
        invariant
            i <= n,
            n == a@.len(),
            n == b@.len(),
            forall|k: int| 0 <= k < i ==> a@[k] == b@[k],
        decreases n - i,
    {
        if a[i] != b[i] {
            return false;
        }
        i += 1;
    }
    assert(a@ =~= b@);
    true
}

/// The answers seen so far, by the fingerprint of their query.
pub struct ResponseCache {
    entries: Vec<(Vec<u8>, Vec<u8>)>,
}

impl View for ResponseCache {
    type V = Map<Seq<u8>, Seq<u8>>;

    /// The answer stored for each fingerprint.
    closed spec fn view(&self) -> Map<Seq<u8>, Seq<u8>> {
        map_of(self.entries@)
    }
}

impl ResponseCache {
    /// The cache is well formed: no fingerprint has two entries.
    pub closed spec fn wf(&self) -> bool {
        distinct_keys(self.entries@)
    }

    /// A cache without entries.
    pub fn new() -> (cache: Self)
        ensures
            cache.wf(),
            cache@ == Map::<Seq<u8>, Seq<u8>>::empty(),
    {
        ResponseCache { entries: Vec::new() }
    }

    /// The index of the entry for the fingerprint, if there is one.
    fn position(&self, fingerprint: &[u8]) -> (at: Option<usize>)
        ensures
            match at {
                Some(i) => i < self.entries@.len() && self.entries@[i as int].0@ == fingerprint@,
                None => forall|i: int|
                    0 <= i < self.entries@.len() ==> (#[trigger] self.entries@[i]).0@
                        != fingerprint@,
            },
    {
        let mut i: usize = 0;
        while i < self.entries.len()
            invariant
                i <= self.entries@.len(),
                forall|k: int| 0 <= k < i ==> (#[trigger] self.entries@[k]).0@ != fingerprint@,
            decreases self.entries@.len() - i,
        {
            if same_bytes(self.entries[i].0.as_slice(), fingerprint) {
                return Some(i);
            }
            i += 1;
        }
        None
    }

    /// The answer stored for the fingerprint, if there is one.
    pub fn get(&self, fingerprint: &[u8]) -> (answer: Option<&Vec<u8>>)
        requires
            self.wf(),
        ensures
            match answer {
                Some(bytes) => found(self@, fingerprint@) == Some(bytes@),
                None => found(self@, fingerprint@) is None,
            },
    {
        match self.position(fingerprint) {
            Some(i) => {
                proof {
                    lemma_present(self.entries@, i as int);
                }
                Some(&self.entries[i].1)
            },
            None => {
                proof {
                    lemma_absent(self.entries@, fingerprint@);
                }
                None
            },
        }
    }

    /// Stores the answer for the fingerprint, in place of the one that was
    /// stored for it, if any. Every other entry stays.
    pub fn put(&mut self, fingerprint: Vec<u8>, answer: Vec<u8>)
        requires
            old(self).wf(),
        ensures
            final(self).wf(),
            final(self)@ == stored(old(self)@, fingerprint@, answer@),
    {
        match self.position(fingerprint.as_slice()) {
            Some(i) => {
                proof {
                    lemma_replaced(self.entries@, i as int, (fingerprint, answer));
                }
                self.entries[i] = (fingerprint, answer);
            },
            None => {
                let ghost before = self.entries@;
                self.entries.push((fingerprint, answer));
                proof {
                    assert(self.entries@.drop_last() =~= before);
                }
            },
        }
    }

    /// The number of fingerprints with an answer.
    pub fn len(&self) -> (n: usize)
        requires
            self.wf(),
        ensures
            self@.dom().finite(),
            n == self@.dom().len(),
    {
        proof {
            lemma_count(self.entries@);
        }
        self.entries.len()
    }
}

/// Where no key stands twice, the map has as many keys as the list has
/// entries.
pub proof fn lemma_count(entries: Seq<(Vec<u8>, Vec<u8>)>)
    requires
        distinct_keys(entries),
    ensures
        map_of(entries).dom().finite(),
        map_of(entries).dom().len() == entries.len(),
    decreases entries.len(),
{
    if entries.len() > 0 {
        let last = entries.len() - 1;
        assert(distinct_keys(entries.drop_last())) by {
            assert forall|i: int, j: int| 0 <= i < j < entries.drop_last().len() implies (
            #[trigger] entries.drop_last()[i]).0@ != (#[trigger] entries.drop_last()[j]).0@ by {
                assert(entries[i].0@ != entries[j].0@);
            }
        }
        lemma_count(entries.drop_last());
        assert forall|i: int| 0 <= i < entries.drop_last().len() implies (
        #[trigger] entries.drop_last()[i]).0@ != entries[last].0@ by {
            assert(entries[i].0@ != entries[last].0@);
        }
        lemma_absent(entries.drop_last(), entries[last].0@);
    }
}

} // verus!
