use vstd::prelude::*;

use crate::key::{same_bytes32, DigestKey, TaggedKey};
use crate::record::{
    consistent, lemma_merge_commutative, lemma_merge_idempotent, lemma_merge_monotone, merged,
    reveals_at_least, MergeError, Record, RecordView,
};
use crate::table::{catalogue, lemma_catalogue_complete, Table};

verus! {

/// Where an object lives: its table and its 32-byte key.
pub type Slot = (Table, Seq<u8>);

/// Error of a merge-store.
#[derive(Clone, Copy, Debug, PartialEq, Eq, Structural)]
pub enum DbError {
    /// The new object and the stored one disagree on the committed value.
    ConsistencyViolation(MergeError),
}

/// What the stored object at `slot` becomes after merge-storing `o`, or
/// `None` where the merge is refused and nothing changes.
pub open spec fn merge_outcome(
    m: Map<Slot, RecordView>,
    slot: Slot,
    o: RecordView,
) -> Option<Map<Slot, RecordView>> {
    let base = if m.contains_key(slot) {
        m[slot]
    } else {
        o
    };
    if consistent(o, base) {
        Some(m.insert(slot, merged(o, base)))
    } else {
        None
    }
}

/// A store followed by a retrieve at the same slot gives back exactly the
/// object stored, and leaves every other slot as it was.
pub proof fn lemma_store_retrieve(m: Map<Slot, RecordView>, slot: Slot, o: RecordView)
    ensures
        m.insert(slot, o).contains_key(slot),
        m.insert(slot, o)[slot] == o,
        forall|s: Slot| s != slot ==> m.insert(slot, o).contains_key(s) == m.contains_key(s),
{
}

/// Merge-storing the same object twice in a row stores what merge-storing it
/// once does.
pub proof fn lemma_store_merge_idempotent(m: Map<Slot, RecordView>, slot: Slot, x: RecordView)
    requires
        merge_outcome(m, slot, x) is Some,
    ensures
        merge_outcome(merge_outcome(m, slot, x)->0, slot, x) == merge_outcome(m, slot, x),
{
    let base = if m.contains_key(slot) {
        m[slot]
    } else {
        x
    };
    let m1 = merge_outcome(m, slot, x)->0;
    let y = merged(x, base);
    lemma_merge_monotone(x, base);
    assert(consistent(x, y));
    assert(merged(x, y).fields =~= y.fields);
    assert(m1.insert(slot, merged(x, y)) =~= m1);
}

/// Two consistent partial reveals merge-stored at a fresh slot, in either
/// order, leave the same object, which reveals everything both reveal.
pub proof fn lemma_store_merge_either_order(
    m: Map<Slot, RecordView>,
    slot: Slot,
    a: RecordView,
    b: RecordView,
)
    requires
        !m.contains_key(slot),
        consistent(a, b),
    ensures
        merge_outcome(m, slot, a) is Some,
        merge_outcome(merge_outcome(m, slot, a)->0, slot, b) is Some,
        merge_outcome(m, slot, b) is Some,
        merge_outcome(merge_outcome(m, slot, b)->0, slot, a) is Some,
        merge_outcome(merge_outcome(m, slot, a)->0, slot, b) == merge_outcome(
            merge_outcome(m, slot, b)->0,
            slot,
            a,
        ),
        merge_outcome(merge_outcome(m, slot, a)->0, slot, b)->0[slot] == merged(a, b),
        reveals_at_least(merged(a, b), a),
        reveals_at_least(merged(a, b), b),
{
    lemma_merge_idempotent(a);
    lemma_merge_idempotent(b);
    lemma_merge_commutative(a, b);
    lemma_merge_monotone(a, b);
    let ma = m.insert(slot, a);
    let mb = m.insert(slot, b);
    assert(merge_outcome(m, slot, a) == Some(ma));
    assert(merge_outcome(m, slot, b) == Some(mb));
    assert(merged(b, a) == merged(a, b));
    assert(ma.insert(slot, merged(b, a)) =~= mb.insert(slot, merged(a, b)));
}

/// A merge-store whose object commits to another root than the stored one is
/// refused.
pub proof fn lemma_store_merge_conflict(m: Map<Slot, RecordView>, slot: Slot, b: RecordView)
    requires
        m.contains_key(slot),
        m[slot].root != b.root,
    ensures
        merge_outcome(m, slot, b) is None,
{
}

struct Entry {
    table: Table,
    key: [u8; 32],
    obj: Record,
}

/// Content-addressed store of records, one map per logical table.
pub struct Db {
    registered: Vec<Table>,
    entries: Vec<Entry>,
    contents: Ghost<Map<Slot, RecordView>>,
}

impl View for Db {
    type V = Map<Slot, RecordView>;

    closed spec fn view(&self) -> Map<Slot, RecordView> {
        self.contents@
    }
}

impl Db {
    /// The catalogue is registered and the entries hold exactly the contents,
    /// one entry per slot.
    pub closed spec fn wf(&self) -> bool {
        &&& self.registered@ == catalogue()
        &&& forall|i: int|
            0 <= i < self.entries@.len() ==> {
                &&& #[trigger] self.contents@.contains_key(
                    (self.entries@[i].table, self.entries@[i].key@),
                )
                &&& self.contents@[(self.entries@[i].table, self.entries@[i].key@)]
                    == self.entries@[i].obj@
            }
        &&& forall|s: Slot|
            #[trigger] self.contents@.contains_key(s) ==> exists|i: int|
                0 <= i < self.entries@.len() && s == (self.entries@[i].table, self.entries@[i].key@)
        &&& forall|i: int, j: int|
            0 <= i < self.entries@.len() && 0 <= j < self.entries@.len() && i != j ==> (
            #[trigger] self.entries@[i].table,
            self.entries@[i].key@,
            ) != (#[trigger] self.entries@[j].table, self.entries@[j].key@)
    }

    /// Tables that can be used without any further registration step.
    pub closed spec fn registered_spec(&self) -> Set<Table> {
        self.registered@.to_set()
    }

    /// An empty store with every table of the catalogue registered.
    pub fn with() -> (r: Db)
        ensures
            r.wf(),
            r@ == Map::<Slot, RecordView>::empty(),
            forall|t: Table| r.registered_spec().contains(t),
    {
        let r = Db { registered: Table::all(), entries: Vec::new(), contents: Ghost(Map::empty()) };
        assert forall|t: Table| r.registered_spec().contains(t) by {
            lemma_catalogue_complete(t);
        }
        r
    }

    /// Whether operations on `table` are accepted: true for every table.
    pub fn is_registered(&self, table: Table) -> (r: bool)
        requires
            self.wf(),
        ensures
            r == self.registered_spec().contains(table),
            r,
    {
        proof {
            lemma_catalogue_complete(table);
        }
        let mut i: usize = 0;
        while i < self.registered.len()
            invariant
                self.registered@ == catalogue(),
                i <= self.registered@.len(),
                forall|j: int| 0 <= j < i ==> self.registered@[j] != table,
            decreases self.registered@.len() - i,
        {
            if self.registered[i] == table {
                return true;
            }
            i = i + 1;
        }
        false
    }

    fn find(&self, table: Table, key: &[u8; 32]) -> (r: Option<usize>)
        requires
            self.wf(),
        ensures
            r is None <==> !self@.contains_key((table, key@)),
            r matches Some(i) ==> i < self.entries@.len() && self.entries@[i as int].table == table
                && self.entries@[i as int].key@ == key@,
    {
        let mut i: usize = 0;
        while i < self.entries.len()
            invariant
                self.wf(),
                i <= self.entries@.len(),
                forall|j: int|
                    0 <= j < i ==> (#[trigger] self.entries@[j].table, self.entries@[j].key@) != (
                    table,
                    key@,
                    ),
            decreases self.entries@.len() - i,
        {
            if self.entries[i].table == table && same_bytes32(&self.entries[i].key, key) {
                return Some(i);
            }
            i = i + 1;
        }
        None
    }

    fn get(&self, table: Table, key: &[u8; 32]) -> (r: Option<Record>)
        requires
            self.wf(),
        ensures
            r is None <==> !self@.contains_key((table, key@)),
            r matches Some(o) ==> o@ == self@[(table, key@)],
    {
        match self.find(table, key) {
            Some(i) => Some(self.entries[i].obj.duplicate()),
            None => None,
        }
    }

    fn put(&mut self, table: Table, key: &[u8; 32], obj: Record)
        requires
            old(self).wf(),
        ensures
            final(self).wf(),
            final(self)@ == old(self)@.insert((table, key@), obj@),
            final(self).registered_spec() == old(self).registered_spec(),
    {
        let ghost slot: Slot = (table, key@);
        let ghost v = obj@;
        let found = self.find(table, key);
        let ghost idx: int = match found {
            Some(i) => i as int,
            None => old(self).entries@.len() as int,
        };
        let e = Entry { table, key: *key, obj };
        match found {
            Some(i) => {
                self.entries.set(i, e);
            },
            None => {
                self.entries.push(e);
            },
        }
        self.contents = Ghost(self.contents@.insert(slot, v));
        assert(self.entries@.len() == if found is Some {
            old(self).entries@.len()
        } else {
            old(self).entries@.len() + 1
        });
        assert((self.entries@[idx].table, self.entries@[idx].key@) == slot);
        assert(self.entries@[idx].obj@ == v);
        assert(forall|j: int|
            0 <= j < self.entries@.len() && j != idx ==> self.entries@[j] == old(self).entries@[j]);
        assert(forall|j: int|
            0 <= j < old(self).entries@.len() && j != idx ==> (
            #[trigger] old(self).entries@[j].table,
            old(self).entries@[j].key@,
            ) != slot);
        assert forall|i: int| 0 <= i < self.entries@.len() implies {
            &&& #[trigger] self.contents@.contains_key((self.entries@[i].table, self.entries@[i].key@))
            &&& self.contents@[(self.entries@[i].table, self.entries@[i].key@)] == self.entries@[i].obj@
        } by {
            if i != idx {
                assert(old(self).entries@[i] == self.entries@[i]);
                let si = (old(self).entries@[i].table, old(self).entries@[i].key@);
                assert(si != slot);
                assert(old(self).contents@.contains_key(si));
                assert(self.contents@[si] == old(self).contents@[si]);
            } else {
                assert(self.contents@[slot] == v);
            }
        }
        assert forall|s: Slot| #[trigger] self.contents@.contains_key(s) implies exists|i: int|
            0 <= i < self.entries@.len() && s == (self.entries@[i].table, self.entries@[i].key@) by {
            if s != slot {
                let i = choose|i: int|
                    0 <= i < old(self).entries@.len() && s == (
                    old(self).entries@[i].table,
                    old(self).entries@[i].key@,
                    );
                assert(s == (self.entries@[i].table, self.entries@[i].key@));
            } else {
                assert(s == (self.entries@[idx].table, self.entries@[idx].key@));
            }
        }
    }

    /// The object stored under a tagged-commitment key, if any.
    pub fn retrieve(&self, table: Table, key: TaggedKey) -> (r: Option<Record>)
        requires
            self.wf(),
        ensures
            r is None <==> !self@.contains_key((table, key@)),
            r matches Some(o) ==> o@ == self@[(table, key@)],
    {
        self.get(table, &key.bytes)
    }

    /// The object stored under a plain digest key, if any.
    pub fn retrieve_h(&self, table: Table, key: DigestKey) -> (r: Option<Record>)
        requires
            self.wf(),
        ensures
            r is None <==> !self@.contains_key((table, key@)),
            r matches Some(o) ==> o@ == self@[(table, key@)],
    {
        self.get(table, &key.bytes)
    }

    /// Writes `data` under a tagged-commitment key, replacing what was there.
    pub fn store(&mut self, table: Table, key: TaggedKey, data: Record)
        requires
            old(self).wf(),
        ensures
            final(self).wf(),
            final(self)@ == old(self)@.insert((table, key@), data@),
            final(self).registered_spec() == old(self).registered_spec(),
    {
        self.put(table, &key.bytes, data)
    }

    /// Writes `data` under a plain digest key, replacing what was there.
    pub fn store_h(&mut self, table: Table, key: DigestKey, data: Record)
        requires
            old(self).wf(),
        ensures
            final(self).wf(),
            final(self)@ == old(self)@.insert((table, key@), data@),
            final(self).registered_spec() == old(self).registered_spec(),
    {
        self.put(table, &key.bytes, data)
    }

    fn merge_into(&mut self, table: Table, key: &[u8; 32], new_obj: Record) -> (r: Result<(), DbError>)
        requires
            old(self).wf(),
        ensures
            final(self).wf(),
            final(self).registered_spec() == old(self).registered_spec(),
            r is Ok <==> merge_outcome(old(self)@, (table, key@), new_obj@) is Some,
            r is Ok ==> final(self)@ == merge_outcome(old(self)@, (table, key@), new_obj@)->0,
            r is Err ==> final(self)@ == old(self)@,
    {
        let stored = match self.get(table, key) {
            Some(o) => o,
            None => new_obj.duplicate(),
        };
        match new_obj.merge_reveal(&stored) {
            Ok(obj) => {
                self.put(table, key, obj);
                Ok(())
            },
            Err(e) => Err(DbError::ConsistencyViolation(e)),
        }
    }

    /// Merge-stores `new_obj` under a tagged-commitment key: the stored object
    /// (or `new_obj` itself where none is stored) is merged with `new_obj` and
    /// the union is written to `table`. A disagreement on the committed value
    /// is reported and leaves the store unchanged.
    pub fn store_merge(&mut self, table: Table, key: TaggedKey, new_obj: Record) -> (r: Result<(), DbError>)
        requires
            old(self).wf(),
        ensures
            final(self).wf(),
            final(self).registered_spec() == old(self).registered_spec(),
            r is Ok <==> merge_outcome(old(self)@, (table, key@), new_obj@) is Some,
            r is Ok ==> final(self)@ == merge_outcome(old(self)@, (table, key@), new_obj@)->0,
            r is Err ==> final(self)@ == old(self)@,
    {
        self.merge_into(table, &key.bytes, new_obj)
    }

    /// Merge-stores `new_obj` under a plain digest key, as `store_merge` does.
    pub fn store_merge_h(&mut self, table: Table, key: DigestKey, new_obj: Record) -> (r: Result<(), DbError>)
        requires
            old(self).wf(),
        ensures
            final(self).wf(),
            final(self).registered_spec() == old(self).registered_spec(),
            r is Ok <==> merge_outcome(old(self)@, (table, key@), new_obj@) is Some,
            r is Ok ==> final(self)@ == merge_outcome(old(self)@, (table, key@), new_obj@)->0,
            r is Err ==> final(self)@ == old(self)@,
    {
        self.merge_into(table, &key.bytes, new_obj)
    }
}

} // verus!
