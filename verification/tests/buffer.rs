use bevy_fighting_lib::util::pickle_asset_loader::PickleAssetPlugin;
use bevy_fighting_lib::util::{Buffer, BufferIter};

fn collect(b: &Buffer) -> Vec<u32> {
    let mut it = b.iter();
    let mut out = Vec::new();
    while let Some(v) = it.next() {
        out.push(*v);
    }
    out
}

#[test]
fn with_capacity_is_zeroed() {
    let b = Buffer::with_capacity(4);
    assert_eq!(b.vec, vec![0, 0, 0, 0]);
    assert_eq!(b.get(0), Some(&0));
}

#[test]
fn insert_then_get_gives_newest_first() {
    let mut b = Buffer::with_capacity(3);
    b.insert(1);
    b.insert(2);
    b.insert(3);
    assert_eq!(b.get(0), Some(&3));
    assert_eq!(b.get(1), Some(&2));
    assert_eq!(b.get(2), Some(&1));
}

#[test]
fn insert_overwrites_oldest() {
    let mut b = Buffer::with_capacity(3);
    for v in 1..=5 {
        b.insert(v);
    }
    assert_eq!(collect(&b), vec![5, 4, 3]);
}

#[test]
fn get_past_ring_end_reads_slot_zero() {
    let mut b = Buffer::with_capacity(3);
    b.insert(7); // head moves to slot 2
    b.vec[0] = 42;
    assert_eq!(b.get(0), Some(&7));
    // head + 1 is past the end: slot 0 is read, not the wrapped entry
    assert_eq!(b.get(1), Some(&42));
}

#[test]
fn get_mut_changes_the_slot() {
    let mut b = Buffer::with_capacity(2);
    b.insert(5);
    if let Some(x) = b.get_mut(0) {
        *x = 9;
    }
    assert_eq!(b.get(0), Some(&9));
}

#[test]
fn iter_yields_each_entry_once_then_stops() {
    let mut b = Buffer::with_capacity(4);
    for v in [10, 20, 30] {
        b.insert(v);
    }
    assert_eq!(collect(&b), vec![30, 20, 10, 0]);
    let mut it = b.iter();
    for _ in 0..4 {
        assert!(it.next().is_some());
    }
    assert_eq!(it.next(), None);
    assert_eq!(it.next(), None);
}

#[test]
fn iter_of_fresh_buffer_starts_at_slot_zero() {
    let b = Buffer::with_capacity(3);
    assert_eq!(collect(&b), vec![0, 0, 0]);
}

#[test]
fn buffer_iter_new_walks_from_head_to_tail() {
    let ring = [1u32, 2, 3, 4];
    let mut it = BufferIter::new(&ring, 0, 2);
    assert_eq!(it.next(), Some(&3));
    assert_eq!(it.next(), Some(&4));
    assert_eq!(it.next(), Some(&1));
    assert_eq!(it.next(), None);
}

#[test]
fn buffer_iter_head_outside_ring_gives_nothing_first() {
    let ring = [1u32, 2];
    let mut it = BufferIter::new(&ring, 0, 5);
    assert_eq!(it.next(), None);
}

#[test]
fn default_buffer_is_empty() {
    let b = Buffer::default();
    assert!(b.vec.is_empty());
}

#[test]
fn pickle_plugin_keeps_extensions() {
    let p: PickleAssetPlugin<u8> = PickleAssetPlugin::new(&["hurt", "bones"]);
    assert_eq!(p.extensions(), &["hurt", "bones"]);
}
