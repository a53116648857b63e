use disc_span::engine::{pack, PackError};
use disc_span::item::FileItem;
use disc_span::sort::sort_by_size_desc;

#[test]
fn empty_input_gives_empty_bin_sequence() {
    let bins = pack(10, Vec::<usize>::new()).unwrap();
    assert_eq!(bins.len(), 0);
}

#[test]
fn worked_example_capacity_ten() {
    // sizes [7, 5, 3, 3, 2] at capacity 10: two bins, zero unused space
    let bins = pack(10, vec![7usize, 5, 3, 3, 2]).unwrap();
    assert_eq!(bins.len(), 2);
    assert_eq!(bins[0].contents(), &vec![7, 3]);
    assert_eq!(bins[1].contents(), &vec![5, 3, 2]);
    assert_eq!(bins[0].remaining_capacity(), 0);
    assert_eq!(bins[1].remaining_capacity(), 0);
}

#[test]
fn first_fit_prefers_earliest_bin_with_room() {
    // sorted [7, 5, 3]: 7 opens bin 0, 5 opens bin 1, and 3 must go back
    // into bin 0 (room 3), not into the more recent bin 1
    let bins = pack(10, vec![7usize, 5, 3]).unwrap();
    assert_eq!(bins.len(), 2);
    assert_eq!(bins[0].contents(), &vec![7, 3]);
    assert_eq!(bins[1].contents(), &vec![5]);
}

#[test]
fn capacity_invariant_holds_on_every_bin() {
    let bins = pack(10, vec![6usize, 5, 4, 3, 2, 1, 1, 1]).unwrap();
    for bin in &bins {
        let mut total: usize = 0;
        for x in bin.contents() {
            total += *x;
        }
        assert!(total <= 10);
        assert_eq!(bin.capacity(), 10);
        assert_eq!(bin.remaining_capacity(), 10 - total);
    }
}

#[test]
fn conservation_no_item_lost_or_invented() {
    let items: Vec<usize> = vec![9, 2, 7, 2, 5, 5, 1, 8, 4];
    let mut expected = items.clone();
    let bins = pack(12, items).unwrap();
    let mut collected: Vec<usize> = Vec::new();
    for bin in &bins {
        for x in bin.contents() {
            collected.push(*x);
        }
    }
    expected.sort();
    collected.sort();
    assert_eq!(collected, expected);
}

#[test]
fn determinism_identical_runs_identical_bins() {
    let make = || {
        vec![
            FileItem { path: String::from("a"), size: 4 },
            FileItem { path: String::from("b"), size: 4 },
            FileItem { path: String::from("c"), size: 6 },
            FileItem { path: String::from("d"), size: 2 },
        ]
    };
    let r1 = pack(8, make()).unwrap();
    let r2 = pack(8, make()).unwrap();
    assert_eq!(r1.len(), r2.len());
    for (b1, b2) in r1.iter().zip(r2.iter()) {
        assert_eq!(b1.contents(), b2.contents());
    }
}

#[test]
fn equal_sizes_keep_input_order() {
    // three equal-sized files: the sort is stable, so "a" and "b" share the
    // first bin in input order and "c" opens the second
    let items = vec![
        FileItem { path: String::from("a"), size: 5 },
        FileItem { path: String::from("b"), size: 5 },
        FileItem { path: String::from("c"), size: 5 },
    ];
    let bins = pack(10, items).unwrap();
    assert_eq!(bins.len(), 2);
    assert_eq!(bins[0].contents().len(), 2);
    assert_eq!(bins[0].contents()[0].path, "a");
    assert_eq!(bins[0].contents()[1].path, "b");
    assert_eq!(bins[1].contents().len(), 1);
    assert_eq!(bins[1].contents()[0].path, "c");
}

#[test]
fn oversized_item_fails_the_run_and_names_it() {
    // capacity 10, item of size 15: no bins, the offending index reported
    match pack(10, vec![15usize]) {
        Err(PackError::Oversized { items, indices }) => {
            assert_eq!(items, vec![15]);
            assert_eq!(indices, vec![0]);
        },
        _ => panic!("expected an oversized failure"),
    }
}

#[test]
fn oversized_reports_every_offender_in_order() {
    match pack(10, vec![5usize, 15, 3, 12]) {
        Err(PackError::Oversized { items, indices }) => {
            assert_eq!(items, vec![5, 15, 3, 12]);
            assert_eq!(indices, vec![1, 3]);
        },
        _ => panic!("expected an oversized failure"),
    }
}

#[test]
fn exactly_full_item_is_not_oversized() {
    let bins = pack(10, vec![10usize, 10]).unwrap();
    assert_eq!(bins.len(), 2);
    assert_eq!(bins[0].contents(), &vec![10]);
    assert_eq!(bins[1].contents(), &vec![10]);
}

#[test]
fn zero_capacity_is_rejected_before_packing() {
    match pack(0, vec![1usize]) {
        Err(PackError::InvalidCapacity { items }) => {
            assert_eq!(items, vec![1]);
        },
        _ => panic!("expected an invalid-capacity failure"),
    }
}

#[test]
fn sort_is_descending_and_stable() {
    let items = vec![
        FileItem { path: String::from("a"), size: 3 },
        FileItem { path: String::from("b"), size: 5 },
        FileItem { path: String::from("c"), size: 3 },
        FileItem { path: String::from("d"), size: 9 },
    ];
    let sorted = sort_by_size_desc(items);
    assert_eq!(sorted.len(), 4);
    assert_eq!(sorted[0].path, "d");
    assert_eq!(sorted[1].path, "b");
    assert_eq!(sorted[2].path, "a");
    assert_eq!(sorted[3].path, "c");
}

#[test]
fn byte_scale_capacities_work() {
    // the default disc size in bytes
    let cap: usize = 100_000_000_000;
    let bins = pack(
        cap,
        vec![60_000_000_000usize, 50_000_000_000, 40_000_000_000],
    )
    .unwrap();
    assert_eq!(bins.len(), 2);
    assert_eq!(bins[0].contents(), &vec![60_000_000_000, 40_000_000_000]);
    assert_eq!(bins[1].contents(), &vec![50_000_000_000]);
    assert_eq!(bins[0].remaining_capacity(), 0);
    assert_eq!(bins[1].remaining_capacity(), 50_000_000_000);
}

#[test]
fn single_item_run() {
    let bins = pack(100, vec![37usize]).unwrap();
    assert_eq!(bins.len(), 1);
    assert_eq!(bins[0].contents(), &vec![37]);
    assert_eq!(bins[0].remaining_capacity(), 63);
}
