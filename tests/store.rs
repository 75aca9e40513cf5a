use rgb_db::db::{Db, DbError};
use rgb_db::key::{DigestKey, TaggedKey};
use rgb_db::record::{MergeError, Record};
use rgb_db::table::{Table, TABLE_COUNT};

fn rec(root: u8, fields: Vec<Option<&[u8]>>) -> Record {
    Record { root: [root; 32], fields: fields.into_iter().map(|f| f.map(|b| b.to_vec())).collect() }
}

fn tkey(b: u8) -> TaggedKey {
    TaggedKey::from_bytes([b; 32])
}

fn dkey(b: u8) -> DigestKey {
    DigestKey::from_bytes([b; 32])
}

#[test]
fn catalogue_has_nine_distinct_names() {
    let all = Table::all();
    assert_eq!(all.len(), TABLE_COUNT);
    assert_eq!(all.len(), 9);
    for (i, a) in all.iter().enumerate() {
        for (j, b) in all.iter().enumerate() {
            if i != j {
                assert_ne!(a, b);
                assert_ne!(a.name(), b.name());
            }
        }
    }
    assert_eq!(Table::Anchors.name(), "anchors");
    assert_eq!(Table::Transitions.name(), "transitions");
    assert_eq!(Table::AttachmentChunks.name(), "chunks");
}

#[test]
fn every_table_registered_after_init() {
    let mut db = Db::with();
    for t in Table::all() {
        assert!(db.is_registered(t));
        let o = rec(3, vec![Some(b"x")]);
        db.store(t, tkey(1), o);
        assert_eq!(db.retrieve(t, tkey(1)), Some(rec(3, vec![Some(b"x")])));
    }
}

#[test]
fn store_then_retrieve_round_trip() {
    let mut db = Db::with();
    db.store(Table::AluLibraries, tkey(7), rec(1, vec![Some(b"lib"), None]));
    assert_eq!(db.retrieve(Table::AluLibraries, tkey(7)), Some(rec(1, vec![Some(b"lib"), None])));
    db.store_h(Table::AttachmentChunks, dkey(9), rec(2, vec![Some(b"chunk")]));
    assert_eq!(db.retrieve_h(Table::AttachmentChunks, dkey(9)), Some(rec(2, vec![Some(b"chunk")])));
}

#[test]
fn retrieve_absent_is_none() {
    let mut db = Db::with();
    assert_eq!(db.retrieve(Table::Schemata, tkey(1)), None);
    assert_eq!(db.retrieve_h(Table::Schemata, dkey(1)), None);
    db.store(Table::Schemata, tkey(1), rec(1, vec![]));
    assert_eq!(db.retrieve(Table::Schemata, tkey(2)), None);
    assert_eq!(db.retrieve(Table::Bundles, tkey(1)), None);
}

#[test]
fn plain_store_overwrites() {
    let mut db = Db::with();
    db.store(Table::AttachmentIndex, tkey(4), rec(1, vec![Some(b"a")]));
    db.store(Table::AttachmentIndex, tkey(4), rec(2, vec![None, None]));
    assert_eq!(db.retrieve(Table::AttachmentIndex, tkey(4)), Some(rec(2, vec![None, None])));
}

#[test]
fn key_kinds_address_the_same_bytes() {
    let mut db = Db::with();
    db.store(Table::Genesis, tkey(5), rec(1, vec![Some(b"g")]));
    assert_eq!(db.retrieve_h(Table::Genesis, dkey(5)), Some(rec(1, vec![Some(b"g")])));
}

#[test]
fn merge_into_empty_slot_stores_object() {
    let mut db = Db::with();
    assert_eq!(db.store_merge(Table::Bundles, tkey(1), rec(1, vec![Some(b"10"), None])), Ok(()));
    assert_eq!(db.retrieve(Table::Bundles, tkey(1)), Some(rec(1, vec![Some(b"10"), None])));
}

#[test]
fn merge_writes_to_requested_table() {
    let mut db = Db::with();
    assert_eq!(db.store_merge(Table::Bundles, tkey(1), rec(1, vec![Some(b"10")])), Ok(()));
    assert_eq!(db.retrieve(Table::Genesis, tkey(1)), None);
    assert_eq!(db.store_merge_h(Table::Transitions, dkey(2), rec(1, vec![Some(b"10")])), Ok(()));
    assert_eq!(db.retrieve_h(Table::Genesis, dkey(2)), None);
    assert_eq!(db.retrieve_h(Table::Transitions, dkey(2)), Some(rec(1, vec![Some(b"10")])));
}

#[test]
fn merge_twice_is_merge_once() {
    let mut a = Db::with();
    let mut b = Db::with();
    a.store(Table::Genesis, tkey(1), rec(1, vec![None, Some(b"alice")]));
    b.store(Table::Genesis, tkey(1), rec(1, vec![None, Some(b"alice")]));
    assert_eq!(a.store_merge(Table::Genesis, tkey(1), rec(1, vec![Some(b"10"), None])), Ok(()));
    assert_eq!(b.store_merge(Table::Genesis, tkey(1), rec(1, vec![Some(b"10"), None])), Ok(()));
    assert_eq!(b.store_merge(Table::Genesis, tkey(1), rec(1, vec![Some(b"10"), None])), Ok(()));
    assert_eq!(a.retrieve(Table::Genesis, tkey(1)), b.retrieve(Table::Genesis, tkey(1)));
    assert_eq!(a.retrieve(Table::Genesis, tkey(1)), Some(rec(1, vec![Some(b"10"), Some(b"alice")])));
}

#[test]
fn merge_reveals_owner_in_either_order() {
    let partial = || rec(8, vec![Some(&[10u8][..]), None]);
    let full = || rec(8, vec![Some(&[10u8][..]), Some(b"alice")]);
    let mut db = Db::with();
    assert_eq!(db.store_merge(Table::Bundles, tkey(3), partial()), Ok(()));
    assert_eq!(db.store_merge(Table::Bundles, tkey(3), full()), Ok(()));
    assert_eq!(db.retrieve(Table::Bundles, tkey(3)), Some(full()));
    let mut db = Db::with();
    assert_eq!(db.store_merge(Table::Bundles, tkey(3), full()), Ok(()));
    assert_eq!(db.store_merge(Table::Bundles, tkey(3), partial()), Ok(()));
    assert_eq!(db.retrieve(Table::Bundles, tkey(3)), Some(full()));
}

#[test]
fn merge_with_other_root_is_violation() {
    let mut db = Db::with();
    db.store(Table::Genesis, tkey(1), rec(1, vec![Some(b"10"), None]));
    assert_eq!(
        db.store_merge(Table::Genesis, tkey(1), rec(2, vec![Some(b"10"), Some(b"bob")])),
        Err(DbError::ConsistencyViolation(MergeError::RootMismatch))
    );
    assert_eq!(db.retrieve(Table::Genesis, tkey(1)), Some(rec(1, vec![Some(b"10"), None])));
}

#[test]
fn merge_with_other_shape_or_value_is_violation() {
    let mut db = Db::with();
    db.store_h(Table::Extensions, dkey(1), rec(1, vec![Some(b"10"), None]));
    assert_eq!(
        db.store_merge_h(Table::Extensions, dkey(1), rec(1, vec![Some(b"10")])),
        Err(DbError::ConsistencyViolation(MergeError::ShapeMismatch))
    );
    assert_eq!(
        db.store_merge_h(Table::Extensions, dkey(1), rec(1, vec![Some(b"11"), None])),
        Err(DbError::ConsistencyViolation(MergeError::FieldMismatch))
    );
    assert_eq!(db.retrieve_h(Table::Extensions, dkey(1)), Some(rec(1, vec![Some(b"10"), None])));
}

#[test]
fn merge_reveal_unions_fields() {
    let a = rec(4, vec![Some(b"x"), None, None]);
    let b = rec(4, vec![None, Some(b"y"), None]);
    assert_eq!(a.merge_reveal(&b), Ok(rec(4, vec![Some(b"x"), Some(b"y"), None])));
    assert_eq!(b.merge_reveal(&a), Ok(rec(4, vec![Some(b"x"), Some(b"y"), None])));
    assert_eq!(a.merge_reveal(&a), Ok(rec(4, vec![Some(b"x"), None, None])));
    assert_eq!(a.duplicate(), a);
}

#[test]
fn every_order_converges() {
    let versions = [
        rec(6, vec![Some(b"a"), None, None]),
        rec(6, vec![None, Some(b"b"), None]),
        rec(6, vec![Some(b"a"), None, Some(b"c")]),
    ];
    let orders = [[0, 1, 2], [0, 2, 1], [1, 0, 2], [1, 2, 0], [2, 0, 1], [2, 1, 0]];
    for order in orders {
        let mut db = Db::with();
        for i in order {
            assert_eq!(db.store_merge(Table::Bundles, tkey(2), versions[i].duplicate()), Ok(()));
        }
        assert_eq!(
            db.retrieve(Table::Bundles, tkey(2)),
            Some(rec(6, vec![Some(b"a"), Some(b"b"), Some(b"c")]))
        );
    }
}
