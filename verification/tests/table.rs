use state_store::bytes::{join, rank_bytes};
use state_store::table::{Key, Table};
use state_store::Rank;

#[test]
fn keys_rank_by_their_parts_in_turn() {
    let a = Key::of_two(b"!r:h", b"m.room.name");
    let b = Key::of_two(b"!r:h", b"m.room.topic");
    assert_eq!(a.rank(&b), Rank::Below);
    assert_eq!(b.rank(&a), Rank::Above);
    assert_eq!(a.rank(&a), Rank::Same);
    assert_eq!(a.joined(), b"!r:hm.room.name".to_vec());
}

#[test]
fn a_later_insertion_replaces_the_earlier_one() {
    let mut table: Table<u8> = Table::new();
    table.insert(Key::of_one(b"b"), 1);
    table.insert(Key::of_one(b"a"), 2);
    table.insert(Key::of_one(b"b"), 3);
    assert_eq!(table.len(), 2);
    assert_eq!(table.key_at(0).outer, b"a".to_vec());
    assert_eq!(*table.value_at(0), 2);
    assert_eq!(table.key_at(1).outer, b"b".to_vec());
    assert_eq!(*table.value_at(1), 3);
}

#[test]
fn byte_strings_rank_lexicographically() {
    assert_eq!(rank_bytes(b"", b""), Rank::Same);
    assert_eq!(rank_bytes(b"", b"a"), Rank::Below);
    assert_eq!(rank_bytes(b"a", b""), Rank::Above);
    assert_eq!(rank_bytes(b"ab", b"b"), Rank::Below);
    assert_eq!(rank_bytes(b"ab", b"abc"), Rank::Below);
    assert_eq!(rank_bytes(&[0xff], &[0x7f, 0xff]), Rank::Above);
    assert_eq!(rank_bytes(b"same", b"same"), Rank::Same);
    assert_eq!(join(b"!a:b", b"@u:h"), b"!a:b@u:h".to_vec());
    assert_eq!(join(b"", b""), Vec::<u8>::new());
}

#[test]
fn a_key_of_fewer_parts_leaves_the_rest_empty() {
    let one = Key::of_one(b"a");
    let two = Key::of_two(b"a", b"b");
    let three = Key::of_three(b"a", b"b", b"c");
    assert_eq!((one.middle.len(), one.inner.len()), (0, 0));
    assert_eq!(two.inner.len(), 0);
    assert_eq!(one.rank(&two), Rank::Below);
    assert_eq!(two.rank(&three), Rank::Below);
    assert_eq!(three.joined(), b"abc".to_vec());
    assert_eq!(Key::of_two(b"ab", b"").rank(&Key::of_two(b"a", b"b")), Rank::Above);
}

#[test]
fn entries_stand_in_the_order_of_their_keys() {
    let mut table: Table<&str> = Table::new();
    assert_eq!(table.len(), 0);
    for (outer, middle, value) in
        [("b", "x", "bx"), ("a", "z", "az"), ("c", "", "c"), ("a", "y", "ay"), ("b", "", "b")]
    {
        table.insert(Key::of_two(outer.as_bytes(), middle.as_bytes()), value);
    }
    let values: Vec<&str> = (0..table.len()).map(|at| *table.value_at(at)).collect();
    assert_eq!(values, vec!["ay", "az", "b", "bx", "c"]);
}
