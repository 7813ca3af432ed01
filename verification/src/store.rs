//! The record set: an insertion-ordered collection of translations
//! with unique pair keys, offering insert, keyed upsert, point lookup,
//! full scan, a quiz draw, and the bulk-import step.

use vstd::prelude::*;

use crate::guess::Guess;
use crate::translation::Translation;
use crate::VocabStoreError;

verus! {

/// Each pair key occurs at most once.
pub open spec fn keys_unique(s: Seq<Translation>) -> bool {
    forall|i: int, j: int|
        0 <= i < j < s.len() ==> !(#[trigger] s[i].same_pair(#[trigger] s[j]))
}

/// Some record in `s` carries the same pair key as `t`.
pub open spec fn contains_pair(s: Seq<Translation>, t: Translation) -> bool {
    exists|i: int| 0 <= i < s.len() && (#[trigger] s[i]).same_pair(t)
}

/// Two records sharing a pair key with the same third record share it
/// with each other, so under `keys_unique` they are one record.
proof fn lemma_pair_index_unique(s: Seq<Translation>, t: Translation, k: int, i: int)
    requires
        keys_unique(s),
        0 <= k < s.len(),
        0 <= i < s.len(),
        s[k].same_pair(t),
        s[i].same_pair(t),
    ensures
        k == i,
{
    if k != i {
        let a = if k < i {
            k
        } else {
            i
        };
        let b = if k < i {
            i
        } else {
            k
        };
        assert(s[a].same_pair(s[b]));
        assert(!s[a].same_pair(s[b]));
    }
}

/// Replacing a record with one that carries the same pair key keeps
/// the keys unique.
proof fn lemma_update_same_pair_keeps_unique(s: Seq<Translation>, i: int, t: Translation)
    requires
        keys_unique(s),
        0 <= i < s.len(),
        s[i].same_pair(t),
    ensures
        keys_unique(s.update(i, t)),
{
    let u = s.update(i, t);
    assert forall|k: int, l: int|
        0 <= k < l < u.len() implies !(#[trigger] u[k].same_pair(#[trigger] u[l])) by {
        assert(!s[k].same_pair(s[l]));
    }
}

/// Appending a record whose pair key is fresh keeps the keys unique.
proof fn lemma_push_fresh_keeps_unique(s: Seq<Translation>, t: Translation)
    requires
        keys_unique(s),
        forall|j: int| 0 <= j < s.len() ==> !(#[trigger] s[j]).same_pair(t),
    ensures
        keys_unique(s.push(t)),
{
    let u = s.push(t);
    assert forall|k: int, l: int|
        0 <= k < l < u.len() implies !(#[trigger] u[k].same_pair(#[trigger] u[l])) by {
        if l < s.len() {
            assert(!s[k].same_pair(s[l]));
        } else {
            assert(!s[k].same_pair(t));
        }
    }
}

/// What one imported record did to the store.
#[derive(Debug, PartialEq, Eq, Structural, Clone, Copy)]
pub enum ImportStatus {
    /// The pair was new and was inserted verbatim.
    Added,
    /// The pair was present; the stored record was reconciled with the
    /// imported one.
    Updated,
}

/// The store's durable record set, in insertion order.
pub struct VocabStore {
    records: Vec<Translation>,
}

impl View for VocabStore {
    type V = Seq<Translation>;

    closed spec fn view(&self) -> Seq<Translation> {
        self.records@
    }
}

/// The bulk-import rule for one incoming record, given what the store
/// already holds under its local word: a missing pair is taken
/// verbatim, a present one is reconciled with the existing record.
pub open spec fn import_decision_spec(existing: Option<Translation>, incoming: Translation) -> Result<
    (Translation, ImportStatus),
    VocabStoreError,
> {
    match existing {
        Option::None => Ok((incoming, ImportStatus::Added)),
        Option::Some(e) => match e.reconcile_spec(incoming) {
            Ok(merged) => Ok((merged, ImportStatus::Updated)),
            Err(err) => Err(err),
        },
    }
}

/// Decide what a record arriving from a bulk import becomes: inserted
/// verbatim when nothing was looked up, otherwise the reconciliation
/// of the existing record with the incoming one.
pub fn import_decision(existing: Option<&Translation>, incoming: Translation) -> (r: Result<
    (Translation, ImportStatus),
    VocabStoreError,
>)
    ensures
        r == import_decision_spec(
            match existing {
                Option::None => Option::None,
                Option::Some(e) => Option::Some(*e),
            },
            incoming,
        ),
{
    match existing {
        Option::None => Ok((incoming, ImportStatus::Added)),
        Option::Some(e) => match e.clone().reconcile(incoming) {
            Ok(merged) => Ok((merged, ImportStatus::Updated)),
            Err(err) => Err(err),
        },
    }
}

impl VocabStore {
    /// Unique pair keys throughout.
    pub open spec fn wf(&self) -> bool {
        keys_unique(self@)
    }

    /// An empty store.
    pub fn new() -> (s: VocabStore)
        ensures
            s@ == Seq::<Translation>::empty(),
            s.wf(),
    {
        VocabStore { records: Vec::new() }
    }

    /// How many records the store holds.
    pub fn len(&self) -> (n: usize)
        ensures
            n == self@.len(),
    {
        self.records.len()
    }

    /// The index of the first record whose local word equals `local`.
    fn find_local_index(&self, local: &str) -> (r: Option<usize>)
        ensures
            match r {
                Option::Some(i) => {
                    &&& i < self@.len()
                    &&& self@[i as int].local@ == local@
                    &&& forall|j: int| 0 <= j < i ==> self@[j].local@ != local@
                },
                Option::None => forall|j: int|
                    0 <= j < self@.len() ==> self@[j].local@ != local@,
            },
    {
        let key: String = local.to_owned();
        let mut i: usize = 0;
        while i < self.records.len()
            invariant
                i <= self.records@.len(),
                key@ == local@,
                forall|j: int| 0 <= j < i ==> self.records@[j].local@ != local@,
            decreases self.records@.len() - i,
        {
            if self.records[i].local == key {
                return Some(i);
            }
            i = i + 1;
        }
        None
    }

    /// The index of the first record with the same pair key as `t`.
    fn find_pair_index(&self, t: &Translation) -> (r: Option<usize>)
        ensures
            match r {
                Option::Some(i) => {
                    &&& i < self@.len()
                    &&& self@[i as int].same_pair(*t)
                    &&& forall|j: int| 0 <= j < i ==> !self@[j].same_pair(*t)
                },
                Option::None => forall|j: int|
                    0 <= j < self@.len() ==> !(#[trigger] self@[j]).same_pair(*t),
            },
    {
        let mut i: usize = 0;
        while i < self.records.len()
            invariant
                i <= self.records@.len(),
                forall|j: int| 0 <= j < i ==> !(#[trigger] self.records@[j]).same_pair(*t),
            decreases self.records@.len() - i,
        {
            if self.records[i].local == t.local && self.records[i].foreign == t.foreign {
                return Some(i);
            }
            i = i + 1;
        }
        None
    }

    /// Insert a record under a fresh pair key; a pair already present
    /// is a duplicate and leaves the store unchanged.
    pub fn add(&mut self, t: &Translation) -> (r: Result<(), VocabStoreError>)
        requires
            old(self).wf(),
        ensures
            final(self).wf(),
            contains_pair(old(self)@, *t) ==> r == Err::<(), VocabStoreError>(
                VocabStoreError::DuplicateEntry,
            ) && final(self)@ == old(self)@,
            !contains_pair(old(self)@, *t) ==> r == Ok::<(), VocabStoreError>(())
                && final(self)@ == old(self)@.push(*t),
    {
        match self.find_pair_index(t) {
            Option::Some(_) => Err(VocabStoreError::DuplicateEntry),
            Option::None => {
                self.records.push(t.clone());
                Ok(())
            },
        }
    }

    /// Insert-or-replace keyed by the pair: a record with the same pair
    /// key is overwritten in place, otherwise the record is appended.
    pub fn save(&mut self, t: &Translation)
        requires
            old(self).wf(),
        ensures
            final(self).wf(),
            forall|i: int|
                (0 <= i < old(self)@.len() && (#[trigger] old(self)@[i]).same_pair(*t))
                    ==> final(self)@ == old(self)@.update(i, *t),
            !contains_pair(old(self)@, *t) ==> final(self)@ == old(self)@.push(*t),
    {
        match self.find_pair_index(t) {
            Option::Some(i) => {
                self.records.set(i, t.clone());
                proof {
                    lemma_update_same_pair_keeps_unique(old(self)@, i as int, *t);
                    assert forall|k: int|
                        0 <= k < old(self)@.len() && (#[trigger] old(self)@[k]).same_pair(*t)
                            implies self@ == old(self)@.update(k, *t) by {
                        lemma_pair_index_unique(old(self)@, *t, k, i as int);
                        assert(self@ =~= old(self)@.update(k, *t));
                    }
                }
            },
            Option::None => {
                self.records.push(t.clone());
                proof {
                    lemma_push_fresh_keeps_unique(old(self)@, *t);
                }
            },
        }
    }

    /// The first record stored under this local word, if any.
    pub fn find_local(&self, local: &str) -> (r: Option<&Translation>)
        ensures
            match r {
                Option::Some(t) => exists|i: int|
                    {
                        &&& 0 <= i < self@.len()
                        &&& #[trigger] self@[i] == *t
                        &&& self@[i].local@ == local@
                        &&& forall|j: int| 0 <= j < i ==> self@[j].local@ != local@
                    },
                Option::None => forall|j: int|
                    0 <= j < self@.len() ==> self@[j].local@ != local@,
            },
    {
        match self.find_local_index(local) {
            Option::Some(i) => Some(&self.records[i]),
            Option::None => None,
        }
    }

    /// A full scan: every record, in insertion order.
    pub fn entries(&self) -> (r: &Vec<Translation>)
        ensures
            r@ == self@,
    {
        &self.records
    }

    /// Draw the record at `index` — the caller picks it at random —
    /// wrapped in the quiz direction the selection rule gives it. An
    /// out-of-range index (in particular, any index against an empty
    /// store) yields nothing rather than an error.
    pub fn guess_at(&self, index: usize) -> (r: Option<Guess>)
        ensures
            index < self@.len() ==> r == Some(Guess::select_spec(self@[index as int])),
            index >= self@.len() ==> r is None,
    {
        if index < self.records.len() {
            Some(Guess::select(self.records[index].clone()))
        } else {
            None
        }
    }

    /// Apply one record of a bulk import: a pair not yet present under
    /// its local word is inserted verbatim; a present one is reconciled
    /// with the stored record, which the merge then replaces. A failed
    /// reconciliation leaves the store unchanged. No step duplicates a
    /// key.
    pub fn import_record(&mut self, incoming: Translation) -> (r: Result<
        ImportStatus,
        VocabStoreError,
    >)
        requires
            old(self).wf(),
        ensures
            final(self).wf(),
            (forall|j: int| 0 <= j < old(self)@.len() ==> old(self)@[j].local@ != incoming.local@)
                ==> r == Ok::<ImportStatus, VocabStoreError>(ImportStatus::Added)
                && final(self)@ == old(self)@.push(incoming),
            forall|i: int|
                (0 <= i < old(self)@.len() && (#[trigger] old(self)@[i]).local@ == incoming.local@
                    && (forall|j: int| 0 <= j < i ==> old(self)@[j].local@ != incoming.local@))
                    ==> match old(self)@[i].reconcile_spec(incoming) {
                    Ok(merged) => r == Ok::<ImportStatus, VocabStoreError>(ImportStatus::Updated)
                        && final(self)@ == old(self)@.update(i, merged),
                    Err(e) => r == Err::<ImportStatus, VocabStoreError>(e) && final(self)@ == old(
                        self,
                    )@,
                },
    {
        match self.find_local_index(incoming.local.as_str()) {
            Option::None => {
                proof {
                    assert forall|j: int| 0 <= j < self@.len() implies !(#[trigger] self@[j]).same_pair(
                        incoming,
                    ) by {
                        assert(self@[j].local@ != incoming.local@);
                    }
                    lemma_push_fresh_keeps_unique(self@, incoming);
                }
                self.records.push(incoming);
                Ok(ImportStatus::Added)
            },
            Option::Some(i) => {
                let existing = self.records[i].clone();
                match existing.reconcile(incoming) {
                    Ok(merged) => {
                        proof {
                            assert(old(self)@[i as int].same_pair(merged));
                            lemma_update_same_pair_keeps_unique(old(self)@, i as int, merged);
                        }
                        self.records.set(i, merged);
                        Ok(ImportStatus::Updated)
                    },
                    Err(e) => Err(e),
                }
            },
        }
    }
}

} // verus!
