use disc_span::bin::Bin;
use disc_span::item::FileItem;
use disc_span::Sizeable;

#[test]
fn new_rejects_zero_capacity() {
    assert!(Bin::<usize>::new(0).is_none());
}

#[test]
fn new_bin_is_empty_with_full_room() {
    let bin = Bin::<usize>::new(20).unwrap();
    assert_eq!(bin.capacity(), 20);
    assert_eq!(bin.remaining_capacity(), 20);
    assert_eq!(bin.contents().len(), 0);
}

#[test]
fn try_place_accepts_until_full_then_rejects() {
    let mut bin = Bin::new(10).unwrap();
    assert!(bin.try_place(6usize).is_none());
    assert_eq!(bin.remaining_capacity(), 4);
    // 5 does not fit in the remaining 4: the bin is unchanged and the item
    // comes back
    assert_eq!(bin.try_place(5usize), Some(5));
    assert_eq!(bin.remaining_capacity(), 4);
    assert_eq!(bin.contents(), &vec![6]);
    // 4 fits exactly
    assert!(bin.try_place(4usize).is_none());
    assert_eq!(bin.remaining_capacity(), 0);
    assert_eq!(bin.contents(), &vec![6, 4]);
}

#[test]
fn contents_keep_placement_order() {
    let mut bin = Bin::new(100).unwrap();
    assert!(bin.try_place(3usize).is_none());
    assert!(bin.try_place(1usize).is_none());
    assert!(bin.try_place(2usize).is_none());
    assert_eq!(bin.into_contents(), vec![3, 1, 2]);
}

#[test]
fn file_item_size_is_its_byte_count() {
    let item = FileItem { path: String::from("movies/one.mkv"), size: 734 };
    assert_eq!(item.size(), 734);
    let plain: usize = 9;
    assert_eq!(plain.size(), 9);
}
