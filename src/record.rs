use vstd::prelude::*;

use crate::key::same_bytes32;

verus! {

/// An object that commits to a root value and discloses some of its fields.
/// A field is `None` while it is concealed and `Some(bytes)` once revealed.
#[derive(Debug, PartialEq, Eq)]
pub struct Record {
    pub root: [u8; 32],
    pub fields: Vec<Option<Vec<u8>>>,
}

/// Mathematical model of a `Record`.
pub struct RecordView {
    pub root: Seq<u8>,
    pub fields: Seq<Option<Seq<u8>>>,
}

pub open spec fn field_view(f: Option<Vec<u8>>) -> Option<Seq<u8>> {
    match f {
        Some(v) => Some(v@),
        None => None,
    }
}

impl View for Record {
    type V = RecordView;

    open spec fn view(&self) -> RecordView {
        RecordView { root: self.root@, fields: self.fields@.map_values(|f: Option<Vec<u8>>| field_view(f)) }
    }
}

/// Two records describe the same committed value: same root, same shape, and
/// no field revealed differently by the two.
pub open spec fn consistent(a: RecordView, b: RecordView) -> bool {
    &&& a.root == b.root
    &&& a.fields.len() == b.fields.len()
    &&& forall|i: int|
        0 <= i < a.fields.len() && a.fields[i] is Some && b.fields[i] is Some ==> a.fields[i] == b.fields[i]
}

/// The union of what two consistent records disclose.
pub open spec fn merged(a: RecordView, b: RecordView) -> RecordView {
    RecordView {
        root: a.root,
        fields: Seq::new(
            a.fields.len(),
            |i: int|
                if a.fields[i] is Some {
                    a.fields[i]
                } else {
                    b.fields[i]
                },
        ),
    }
}

/// Every field revealed in `a` is revealed with the same value in `b`.
pub open spec fn reveals_at_least(b: RecordView, a: RecordView) -> bool {
    &&& a.root == b.root
    &&& a.fields.len() == b.fields.len()
    &&& forall|i: int| 0 <= i < a.fields.len() && a.fields[i] is Some ==> b.fields[i] == a.fields[i]
}

/// Reason a merge of two records is refused.
#[derive(Clone, Copy, Debug, PartialEq, Eq, Structural)]
pub enum MergeError {
    /// The records commit to different roots.
    RootMismatch,
    /// The records have different numbers of fields.
    ShapeMismatch,
    /// Some field is revealed with different values.
    FieldMismatch,
}

pub fn copy_bytes(v: &Vec<u8>) -> (r: Vec<u8>)
    ensures
        r@ == v@,
{
    let mut r: Vec<u8> = Vec::new();
    let mut i: usize = 0;
    while i < v.len()
        invariant
            i <= v@.len(),
            r@ == v@.subrange(0, i as int),
        decreases v@.len() - i,
    {
        r.push(v[i]);
        i = i + 1;
        assert(r@ =~= v@.subrange(0, i as int));
    }
    assert(r@ =~= v@);
    r
}

pub fn same_bytes(a: &Vec<u8>, b: &Vec<u8>) -> (r: bool)
    ensures
        r == (a@ == b@),
{
    if a.len() != b.len() {
        return false;
    }
    let mut i: usize = 0;
    while i < a.len()
        invariant
            a@.len() == b@.len(),
            i <= a@.len(),
            forall|j: int| 0 <= j < i ==> a@[j] == b@[j],
        decreases a@.len() - i,
    {
        if a[i] != b[i] {
            return false;
        }
        i = i + 1;
    }
    assert(a@ =~= b@);
    true
}

fn copy_field(f: &Option<Vec<u8>>) -> (r: Option<Vec<u8>>)
    ensures
        field_view(r) == field_view(*f),
{
    match f {
        Some(v) => Some(copy_bytes(v)),
        None => None,
    }
}

impl Record {
    /// A deep copy with the same model.
    pub fn duplicate(&self) -> (r: Record)
        ensures
            r@ == self@,
    {
        let mut fields: Vec<Option<Vec<u8>>> = Vec::new();
        let mut i: usize = 0;
        while i < self.fields.len()
            invariant
                i <= self.fields@.len(),
                fields@.len() == i,
                forall|j: int| 0 <= j < i ==> field_view(#[trigger] fields@[j]) == field_view(self.fields@[j]),
            decreases self.fields@.len() - i,
        {
            fields.push(copy_field(&self.fields[i]));
            i = i + 1;
        }
        let r = Record { root: self.root, fields };
        assert(r@.fields =~= self@.fields);
        r
    }

    /// Combines two disclosures of one committed value into the union of
    /// their revealed fields, preferring this record's revealed values.
    pub fn merge_reveal(&self, other: &Record) -> (r: Result<Record, MergeError>)
        ensures
            r is Ok <==> consistent(self@, other@),
            r matches Ok(m) ==> m@ == merged(self@, other@),
            r matches Err(e) ==> (e == MergeError::RootMismatch <==> self@.root != other@.root),
            r matches Err(e) ==> (e == MergeError::ShapeMismatch <==> (self@.root == other@.root
                && self@.fields.len() != other@.fields.len())),
    {
        if !same_bytes32(&self.root, &other.root) {
            return Err(MergeError::RootMismatch);
        }
        if self.fields.len() != other.fields.len() {
            return Err(MergeError::ShapeMismatch);
        }
        let n = self.fields.len();
        let mut fields: Vec<Option<Vec<u8>>> = Vec::new();
        let mut i: usize = 0;
        while i < n
            invariant
                n == self.fields@.len(),
                n == other.fields@.len(),
                self@.root == other@.root,
                i <= n,
                fields@.len() == i,
                forall|j: int|
                    0 <= j < i ==> field_view(#[trigger] fields@[j]) == merged(self@, other@).fields[j],
                forall|j: int|
                    0 <= j < i && self@.fields[j] is Some && other@.fields[j] is Some
                        ==> self@.fields[j] == other@.fields[j],
            decreases n - i,
        {
            let f = match &self.fields[i] {
                Some(a) => {
                    match &other.fields[i] {
                        Some(b) => {
                            if !same_bytes(a, b) {
                                assert(self@.fields[i as int] != other@.fields[i as int]);
                                return Err(MergeError::FieldMismatch);
                            }
                        },
                        None => {},
                    }
                    Some(copy_bytes(a))
                },
                None => copy_field(&other.fields[i]),
            };
            fields.push(f);
            i = i + 1;
        }
        let m = Record { root: self.root, fields };
        assert(m@.fields =~= merged(self@, other@).fields);
        Ok(m)
    }
}

/// Merging a record with itself succeeds and gives it back unchanged.
pub proof fn lemma_merge_idempotent(a: RecordView)
    ensures
        consistent(a, a),
        merged(a, a) == a,
{
    assert(merged(a, a).fields =~= a.fields);
}

/// Consistency is symmetric, and merging consistent records does not depend
/// on their order.
pub proof fn lemma_merge_commutative(a: RecordView, b: RecordView)
    requires
        consistent(a, b),
    ensures
        consistent(b, a),
        merged(a, b) == merged(b, a),
{
    assert(merged(a, b).fields =~= merged(b, a).fields);
}

/// The merge of consistent records reveals everything that either one reveals.
pub proof fn lemma_merge_monotone(a: RecordView, b: RecordView)
    requires
        consistent(a, b),
    ensures
        reveals_at_least(merged(a, b), a),
        reveals_at_least(merged(a, b), b),
{
}

/// Merging three mutually consistent records gives one result however the
/// merges are grouped.
pub proof fn lemma_merge_associative(a: RecordView, b: RecordView, c: RecordView)
    requires
        consistent(a, b),
        consistent(b, c),
        consistent(a, c),
    ensures
        consistent(merged(a, b), c),
        consistent(a, merged(b, c)),
        merged(merged(a, b), c) == merged(a, merged(b, c)),
{
    assert(merged(merged(a, b), c).fields =~= merged(a, merged(b, c)).fields);
}

} // verus!
