use canary::adapters::{Batcher, DEFAULT_BATCH_SIZE};

#[test]
fn default_batch_size_is_512() {
    assert_eq!(DEFAULT_BATCH_SIZE, 512);
}

#[test]
fn batch_is_released_when_it_is_full() {
    let mut batcher = Batcher::new(3);
    assert_eq!(batcher.push('a'), None);
    assert_eq!(batcher.push('b'), None);
    assert_eq!(batcher.len(), 2);
    assert_eq!(batcher.push('c'), Some(vec!['a', 'b', 'c']));
    assert_eq!(batcher.len(), 0);
    assert_eq!(batcher.push('d'), None);
    assert_eq!(batcher.len(), 1);
}

#[test]
fn flush_releases_what_is_held_and_nothing_twice() {
    let mut batcher = Batcher::new(DEFAULT_BATCH_SIZE);
    assert_eq!(batcher.flush(), None::<Vec<u32>>);
    assert_eq!(batcher.push(1), None);
    assert_eq!(batcher.push(2), None);
    assert_eq!(batcher.flush(), Some(vec![1, 2]));
    assert_eq!(batcher.flush(), None);
    assert_eq!(batcher.len(), 0);
}

#[test]
fn batches_hold_every_item_once_and_in_order() {
    let mut batcher = Batcher::new(4);
    let mut released: Vec<u32> = Vec::new();
    let mut sizes = Vec::new();
    for item in 0..10 {
        if let Some(batch) = batcher.push(item) {
            sizes.push(batch.len());
            released.extend(batch);
        }
    }
    if let Some(batch) = batcher.flush() {
        sizes.push(batch.len());
        released.extend(batch);
    }
    assert_eq!(released, (0..10).collect::<Vec<u32>>());
    assert_eq!(sizes, vec![4, 4, 2]);
}

#[test]
fn batches_of_one_and_of_none_release_every_item_alone() {
    for size in [0, 1] {
        let mut batcher = Batcher::new(size);
        assert_eq!(batcher.push("x"), Some(vec!["x"]));
        assert_eq!(batcher.push("y"), Some(vec!["y"]));
        assert_eq!(batcher.flush(), None);
    }
}
