use crate::errors::UnstakeError;
use vstd::prelude::*;

verus! {

/// The record created exactly once per accepted position: the position's
/// measured value at the moment the pool took ownership, kept for later
/// reconciliation against the value recovered at maturity. The record
/// lives for as long as the pool owns the position and is destroyed on
/// reclamation.
#[derive(Clone, Copy, Debug, PartialEq, Eq, Structural)]
pub struct StakeAccountRecord {
    /// The position's value when the pool accepted it.
    pub lamports_at_creation: u64,
}

/// The association a sequence of entries describes, later entries winning;
/// with unique keys, simply the keyed lookup.
pub open spec fn entries_map(s: Seq<(u64, StakeAccountRecord)>) -> Map<u64, StakeAccountRecord>
    decreases s.len(),
{
    if s.len() == 0 {
        Map::empty()
    } else {
        entries_map(s.drop_last()).insert(s.last().0, s.last().1)
    }
}

/// No two entries carry the same position identity.
pub open spec fn keys_unique(s: Seq<(u64, StakeAccountRecord)>) -> bool {
    forall|i: int, j: int| 0 <= i < j < s.len() ==> s[i].0 != s[j].0
}

/// A key is in the association exactly when some entry carries it.
pub proof fn lemma_entries_map_domain(s: Seq<(u64, StakeAccountRecord)>, k: u64)
    ensures
        entries_map(s).contains_key(k) <==> exists|i: int| 0 <= i < s.len() && s[i].0 == k,
    decreases s.len(),
{
    if s.len() == 0 {
    } else {
        lemma_entries_map_domain(s.drop_last(), k);
        if s.last().0 == k {
            assert(s[s.len() - 1].0 == k);
        } else {
            if exists|i: int| 0 <= i < s.len() && s[i].0 == k {
                let i = choose|i: int| 0 <= i < s.len() && s[i].0 == k;
                assert(s.drop_last()[i] == s[i]);
            }
            if exists|i: int| 0 <= i < s.drop_last().len() && s.drop_last()[i].0 == k {
                let i = choose|i: int| 0 <= i < s.drop_last().len() && s.drop_last()[i].0 == k;
                assert(s[i].0 == k);
            }
        }
    }
}

/// With unique keys, the association maps each entry's key to that entry's
/// record.
pub proof fn lemma_entries_map_lookup(s: Seq<(u64, StakeAccountRecord)>, i: int)
    requires
        keys_unique(s),
        0 <= i < s.len(),
    ensures
        entries_map(s).contains_key(s[i].0),
        entries_map(s)[s[i].0] == s[i].1,
    decreases s.len(),
{
    if i == s.len() - 1 {
    } else {
        assert(s.drop_last()[i] == s[i]);
        lemma_entries_map_lookup(s.drop_last(), i);
        assert(s.last().0 != s[i].0);
    }
}

/// Removing one entry removes exactly its key from the association, and
/// keeps the remaining keys unique.
pub proof fn lemma_entries_map_remove(s: Seq<(u64, StakeAccountRecord)>, i: int)
    requires
        keys_unique(s),
        0 <= i < s.len(),
    ensures
        keys_unique(s.remove(i)),
        entries_map(s.remove(i)) =~= entries_map(s).remove(s[i].0),
    decreases s.len(),
{
    let k = s[i].0;
    assert(keys_unique(s.remove(i))) by {
        assert forall|p: int, q: int| 0 <= p < q < s.remove(i).len() implies s.remove(i)[p].0
            != s.remove(i)[q].0 by {
            let p0 = if p < i { p } else { p + 1 };
            let q0 = if q < i { q } else { q + 1 };
            assert(s.remove(i)[p] == s[p0]);
            assert(s.remove(i)[q] == s[q0]);
        }
    };
    if i == s.len() - 1 {
        assert(s.remove(i) =~= s.drop_last());
        lemma_entries_map_domain(s.drop_last(), k);
        assert(forall|j: int| 0 <= j < s.len() - 1 ==> s.drop_last()[j] == s[j]);
        assert(!entries_map(s.drop_last()).contains_key(k));
    } else {
        lemma_entries_map_remove(s.drop_last(), i);
        assert(s.drop_last()[i] == s[i]);
        assert(s.remove(i).drop_last() =~= s.drop_last().remove(i)) by {
            assert(forall|j: int| 0 <= j < s.remove(i).len() - 1 ==> s.remove(i)[j] == (
            if j < i {
                s[j]
            } else {
                s[j + 1]
            }));
        };
        assert(s.remove(i).last() == s.last());
        assert(s.last().0 != k);
    }
}

/// The pool's book of accepted positions, keyed by position identity.
/// Creation fails if a record already exists for the identity, which is
/// what guarantees at most one accepted record per external position even
/// under concurrent submission attempts.
#[derive(Debug)]
pub struct RecordStore {
    entries: Vec<(u64, StakeAccountRecord)>,
}

impl View for RecordStore {
    type V = Map<u64, StakeAccountRecord>;

    closed spec fn view(&self) -> Map<u64, StakeAccountRecord> {
        entries_map(self.entries@)
    }
}

impl RecordStore {
    /// The store keeps at most one entry per position identity.
    pub closed spec fn wf(self) -> bool {
        keys_unique(self.entries@)
    }

    /// An empty store.
    pub fn new() -> (r: RecordStore)
        ensures
            r.wf(),
            r@ == Map::<u64, StakeAccountRecord>::empty(),
    {
        RecordStore { entries: Vec::new() }
    }

    /// Whether a record exists for this position identity.
    pub fn contains(&self, position: u64) -> (r: bool)
        ensures
            r == self@.contains_key(position),
    {
        let ghost s = self.entries@;
        let n = self.entries.len();
        let mut i: usize = 0;
        while i < n
            invariant
                0 <= i <= n,
                n == s.len(),
                self.entries@ == s,
                forall|j: int| 0 <= j < i ==> s[j].0 != position,
            decreases n - i,
        {
            if self.entries[i].0 == position {
                proof {
                    lemma_entries_map_domain(s, position);
                    assert(s[i as int].0 == position);
                }
                return true;
            }
            i = i + 1;
        }
        proof {
            lemma_entries_map_domain(s, position);
        }
        false
    }

    /// Creates the record for a position, exactly once: a second creation
    /// for the same identity fails and changes nothing.
    pub fn create(&mut self, position: u64, record: StakeAccountRecord) -> (r: Result<
        (),
        UnstakeError,
    >)
        requires
            old(self).wf(),
        ensures
            final(self).wf(),
            old(self)@.contains_key(position) ==> r == Err::<(), UnstakeError>(
                UnstakeError::RecordExists,
            ) && final(self)@ == old(self)@,
            !old(self)@.contains_key(position) ==> r is Ok && final(self)@ == old(self)@.insert(
                position,
                record,
            ),
    {
        if self.contains(position) {
            return Err(UnstakeError::RecordExists);
        }
        let ghost s = self.entries@;
        proof {
            lemma_entries_map_domain(s, position);
        }
        self.entries.push((position, record));
        proof {
            assert(self.entries@.drop_last() =~= s);
            assert(keys_unique(self.entries@)) by {
                assert forall|p: int, q: int| 0 <= p < q < self.entries@.len() implies self
                    .entries@[p].0 != self.entries@[q].0 by {
                    if q == s.len() {
                        assert(self.entries@[p] == s[p]);
                    } else {
                        assert(self.entries@[p] == s[p]);
                        assert(self.entries@[q] == s[q]);
                    }
                }
            };
        }
        Ok(())
    }

    /// Destroys the record for a position and returns it; fails and
    /// changes nothing when no record exists.
    pub fn remove(&mut self, position: u64) -> (r: Result<StakeAccountRecord, UnstakeError>)
        requires
            old(self).wf(),
        ensures
            final(self).wf(),
            !old(self)@.contains_key(position) ==> r == Err::<StakeAccountRecord, UnstakeError>(
                UnstakeError::RecordMissing,
            ) && final(self)@ == old(self)@,
            old(self)@.contains_key(position) ==> r == Ok::<StakeAccountRecord, UnstakeError>(
                old(self)@[position],
            ) && final(self)@ == old(self)@.remove(position),
    {
        let ghost s = self.entries@;
        let n = self.entries.len();
        let mut i: usize = 0;
        while i < n
            invariant
                0 <= i <= n,
                n == s.len(),
                self.entries@ == s,
                old(self).entries@ == s,
                keys_unique(s),
                forall|j: int| 0 <= j < i ==> s[j].0 != position,
            decreases n - i,
        {
            if self.entries[i].0 == position {
                let rec = self.entries[i].1;
                proof {
                    lemma_entries_map_lookup(s, i as int);
                    lemma_entries_map_remove(s, i as int);
                }
                self.entries.remove(i);
                return Ok(rec);
            }
            i = i + 1;
        }
        proof {
            lemma_entries_map_domain(s, position);
        }
        Err(UnstakeError::RecordMissing)
    }

    /// How many positions the pool currently holds records for.
    pub fn len(&self) -> (r: usize)
        requires
            self.wf(),
        ensures
            r == self@.dom().len(),
    {
        proof {
            lemma_entries_map_len(self.entries@);
        }
        self.entries.len()
    }
}

/// With unique keys, the association holds exactly one pairing per entry.
pub proof fn lemma_entries_map_len(s: Seq<(u64, StakeAccountRecord)>)
    requires
        keys_unique(s),
    ensures
        entries_map(s).dom().finite(),
        entries_map(s).dom().len() == s.len(),
    decreases s.len(),
{
    if s.len() == 0 {
        assert(entries_map(s).dom() =~= Set::<u64>::empty());
    } else {
        lemma_entries_map_len(s.drop_last());
        lemma_entries_map_domain(s.drop_last(), s.last().0);
        assert(forall|j: int| 0 <= j < s.len() - 1 ==> s.drop_last()[j] == s[j]);
        assert(!entries_map(s.drop_last()).contains_key(s.last().0));
    }
}

} // verus!
