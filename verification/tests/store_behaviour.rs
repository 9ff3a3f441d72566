use hash_storage::HashStorage;
use hash_storage::StorageItem;

fn pairs(items: &Vec<StorageItem>) -> Vec<(u16, Vec<u8>)> {
    let mut out = Vec::new();
    for item in items.iter() {
        out.push((item.priority, (*item.data).clone()));
    }
    out
}

fn drain(store: &mut HashStorage, count: usize) -> Vec<(u16, Vec<u8>)> {
    let mut out = Vec::new();
    loop {
        match store.pop(count) {
            Some(items) => out.extend(pairs(&items)),
            None => return out,
        }
    }
}

#[test]
fn pop_on_an_empty_store_gives_none_for_every_count() {
    let mut store = HashStorage::new();
    for count in [0usize, 1, 2, 7, 100, 65536, usize::MAX] {
        assert!(store.pop(count).is_none());
    }
    assert_eq!(store.max_priority(), None);
}

#[test]
fn pop_of_zero_gives_none_and_takes_nothing() {
    let mut store = HashStorage::new();
    store.push(5, Box::new(vec![9, 8]));
    assert!(store.pop(0).is_none());
    assert_eq!(store.max_priority(), Some(5));
    let items = store.pop(1).unwrap();
    assert_eq!(pairs(&items), vec![(5, vec![9, 8])]);
}

#[test]
fn one_item_comes_back_byte_for_byte() {
    let payload: Vec<u8> = vec![0, 255, 1, 254, 0, 0, 127, 128];
    let mut store = HashStorage::new();
    store.push(40000, Box::new(payload.clone()));
    let items = store.pop(1).unwrap();
    assert_eq!(items.len(), 1);
    assert_eq!(items[0].priority, 40000);
    assert_eq!(*items[0].data, payload);
    assert!(store.pop(1).is_none());
}

#[test]
fn an_empty_payload_and_priority_zero_are_accepted() {
    let mut store = HashStorage::new();
    store.push(0, Box::new(Vec::new()));
    assert_eq!(store.max_priority(), Some(0));
    let items = store.pop(1).unwrap();
    assert_eq!(pairs(&items), vec![(0, Vec::new())]);
    assert_eq!(store.max_priority(), None);
}

#[test]
fn the_highest_and_the_lowest_priority_are_ordered() {
    let mut store = HashStorage::new();
    store.push(0, Box::new(vec![1]));
    store.push(u16::MAX, Box::new(vec![2]));
    store.push(1, Box::new(vec![3]));
    assert_eq!(store.max_priority(), Some(65535));
    let items = store.pop(3).unwrap();
    assert_eq!(pairs(&items), vec![(65535, vec![2]), (1, vec![3]), (0, vec![1])]);
}

#[test]
fn a_request_for_more_than_there_is_gives_what_there_is() {
    let mut store = HashStorage::new();
    store.push(3, Box::new(vec![1]));
    store.push(7, Box::new(vec![2]));
    store.push(3, Box::new(vec![3]));
    let items = store.pop(usize::MAX).unwrap();
    assert_eq!(pairs(&items), vec![(7, vec![2]), (3, vec![1]), (3, vec![3])]);
    assert!(store.pop(usize::MAX).is_none());
}

#[test]
fn a_request_may_stop_inside_a_bucket() {
    let mut store = HashStorage::new();
    store.push(2, Box::new(vec![1]));
    store.push(2, Box::new(vec![2]));
    store.push(2, Box::new(vec![3]));
    store.push(4, Box::new(vec![4]));
    store.push(4, Box::new(vec![5]));

    let first = store.pop(3).unwrap();
    assert_eq!(pairs(&first), vec![(4, vec![4]), (4, vec![5]), (2, vec![1])]);
    assert_eq!(store.max_priority(), Some(2));

    let second = store.pop(1).unwrap();
    assert_eq!(pairs(&second), vec![(2, vec![2])]);

    let third = store.pop(5).unwrap();
    assert_eq!(pairs(&third), vec![(2, vec![3])]);
    assert!(store.pop(1).is_none());
}

#[test]
fn a_batch_never_mixes_priorities() {
    let mut store = HashStorage::new();
    for round in 0u8..3 {
        store.push(1, Box::new(vec![10 + round]));
        store.push(9, Box::new(vec![90 + round]));
        store.push(5, Box::new(vec![50 + round]));
    }
    let items = store.pop(9).unwrap();
    assert_eq!(
        pairs(&items),
        vec![
            (9, vec![90]),
            (9, vec![91]),
            (9, vec![92]),
            (5, vec![50]),
            (5, vec![51]),
            (5, vec![52]),
            (1, vec![10]),
            (1, vec![11]),
            (1, vec![12]),
        ]
    );
}

#[test]
fn an_emptied_bucket_no_longer_counts() {
    let mut store = HashStorage::new();
    store.push(8, Box::new(vec![1]));
    store.push(3, Box::new(vec![2]));
    assert_eq!(store.max_priority(), Some(8));
    let items = store.pop(1).unwrap();
    assert_eq!(pairs(&items), vec![(8, vec![1])]);
    assert_eq!(store.max_priority(), Some(3));
    let items = store.pop(1).unwrap();
    assert_eq!(pairs(&items), vec![(3, vec![2])]);
    assert_eq!(store.max_priority(), None);
    assert!(store.pop(1).is_none());
}

#[test]
fn an_emptied_bucket_can_be_filled_again() {
    let mut store = HashStorage::new();
    store.push(6, Box::new(vec![1]));
    assert_eq!(pairs(&store.pop(1).unwrap()), vec![(6, vec![1])]);
    store.push(6, Box::new(vec![2]));
    store.push(6, Box::new(vec![3]));
    assert_eq!(store.max_priority(), Some(6));
    assert_eq!(pairs(&store.pop(2).unwrap()), vec![(6, vec![2]), (6, vec![3])]);
}

#[test]
fn a_push_between_pops_finds_its_place() {
    let mut store = HashStorage::new();
    store.push(5, Box::new(vec![1]));
    store.push(5, Box::new(vec![2]));
    assert_eq!(pairs(&store.pop(1).unwrap()), vec![(5, vec![1])]);
    store.push(7, Box::new(vec![3]));
    store.push(5, Box::new(vec![4]));
    store.push(2, Box::new(vec![5]));
    assert_eq!(
        pairs(&store.pop(10).unwrap()),
        vec![(7, vec![3]), (5, vec![2]), (5, vec![4]), (2, vec![5])]
    );
}

#[test]
fn equal_items_are_kept_apart() {
    let mut store = HashStorage::new();
    store.push(1, Box::new(vec![7]));
    store.push(1, Box::new(vec![7]));
    store.push(1, Box::new(vec![7]));
    assert_eq!(pairs(&store.pop(2).unwrap()), vec![(1, vec![7]), (1, vec![7])]);
    assert_eq!(pairs(&store.pop(2).unwrap()), vec![(1, vec![7])]);
    assert!(store.pop(2).is_none());
}

#[test]
fn max_priority_is_the_same_when_asked_again() {
    let mut store = HashStorage::new();
    assert_eq!(store.max_priority(), None);
    assert_eq!(store.max_priority(), None);
    store.push(10, Box::new(vec![1]));
    store.push(300, Box::new(vec![2]));
    store.push(2, Box::new(vec![3]));
    let first = store.max_priority();
    let second = store.max_priority();
    let third = store.max_priority();
    assert_eq!(first, Some(300));
    assert_eq!(second, first);
    assert_eq!(third, first);
    assert_eq!(pairs(&store.pop(1).unwrap()), vec![(300, vec![2])]);
}

#[test]
fn max_priority_takes_nothing() {
    let mut store = HashStorage::new();
    store.push(4, Box::new(vec![1]));
    assert_eq!(store.max_priority(), Some(4));
    assert_eq!(pairs(&store.pop(5).unwrap()), vec![(4, vec![1])]);
}

#[test]
fn clear_leaves_a_store_like_new() {
    let mut store = HashStorage::new();
    store.push(10, Box::new(vec![1]));
    store.push(20, Box::new(vec![2]));
    store.clear();
    assert_eq!(store.max_priority(), None);
    assert!(store.pop(1).is_none());
    assert!(store.pop(0).is_none());
    store.clear();
    assert!(store.pop(100).is_none());
    store.push(3, Box::new(vec![4]));
    assert_eq!(pairs(&store.pop(2).unwrap()), vec![(3, vec![4])]);
}

#[test]
fn dump_and_load_leave_the_items_where_they_are() {
    let mut store = HashStorage::new();
    store.push(1, Box::new(vec![1]));
    store.push(2, Box::new(vec![2]));
    store.dump();
    assert_eq!(store.max_priority(), Some(2));
    store.load();
    assert_eq!(store.max_priority(), Some(2));
    store.dump();
    store.load();
    assert_eq!(pairs(&store.pop(5).unwrap()), vec![(2, vec![2]), (1, vec![1])]);
    store.load();
    assert!(store.pop(1).is_none());
}

#[test]
fn two_stores_share_nothing() {
    let mut left = HashStorage::new();
    let mut right = HashStorage::new();
    left.push(1, Box::new(vec![1]));
    assert_eq!(right.max_priority(), None);
    assert!(right.pop(1).is_none());
    right.push(2, Box::new(vec![2]));
    left.clear();
    assert_eq!(pairs(&right.pop(1).unwrap()), vec![(2, vec![2])]);
}

#[test]
fn what_goes_in_comes_out_once() {
    let mut store = HashStorage::new();
    let mut pushed: Vec<(u16, Vec<u8>)> = Vec::new();
    let mut seed: u32 = 12345;
    for n in 0u32..200 {
        seed = seed.wrapping_mul(1103515245).wrapping_add(12345);
        let priority = ((seed >> 16) % 7) as u16;
        let payload = vec![(n % 256) as u8, (seed >> 8) as u8];
        store.push(priority, Box::new(payload.clone()));
        pushed.push((priority, payload));
    }
    let mut popped = drain(&mut store, 7);
    assert_eq!(popped.len(), 200);
    assert_eq!(store.max_priority(), None);

    for window in popped.windows(2) {
        assert!(window[0].0 >= window[1].0);
        if window[0].0 == window[1].0 {
            assert!(window[0].1[0] < window[1].1[0]);
        }
    }

    pushed.sort();
    popped.sort();
    assert_eq!(pushed, popped);
}

#[test]
fn pops_of_any_size_hand_out_the_same_order() {
    let build = || {
        let mut store = HashStorage::new();
        for n in 0u8..30 {
            store.push((n % 4) as u16, Box::new(vec![n]));
        }
        store
    };
    let mut whole = build();
    let mut expected: Vec<(u16, Vec<u8>)> = Vec::new();
    for priority in [3u8, 2, 1, 0] {
        let mut n = priority;
        while n < 30 {
            expected.push((priority as u16, vec![n]));
            n += 4;
        }
    }
    assert_eq!(expected.len(), 30);
    assert_eq!(pairs(&whole.pop(30).unwrap()), expected);
    for count in [1usize, 2, 3, 4, 5, 7, 8, 29, 30, 31] {
        let mut store = build();
        assert_eq!(drain(&mut store, count), expected);
    }
}

#[test]
fn interleaved_pushes_and_pops_lose_nothing() {
    let mut store = HashStorage::new();
    let mut pushed: Vec<(u16, Vec<u8>)> = Vec::new();
    let mut popped: Vec<(u16, Vec<u8>)> = Vec::new();
    for round in 0u8..20 {
        for n in 0u8..3 {
            let item = (((round + n) % 5) as u16, vec![round, n]);
            store.push(item.0, Box::new(item.1.clone()));
            pushed.push(item);
        }
        if let Some(items) = store.pop(2) {
            assert_eq!(items.len(), 2);
            popped.extend(pairs(&items));
        }
    }
    popped.extend(drain(&mut store, 4));
    assert!(store.pop(1).is_none());
    pushed.sort();
    popped.sort();
    assert_eq!(pushed, popped);
}
