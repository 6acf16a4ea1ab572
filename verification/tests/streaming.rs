//! Behaviour of the ancestor-range traversal: exhaustive coverage of
//! the requested range in ascending depth order, absent streams for
//! unrelated endpoints, empty streams for equal endpoints, and laziness
//! across interleaved writes.

use block_storage::block::Block;
use block_storage::block::BlockInfo;
use block_storage::block::HeaderHash;
use block_storage::storage::Storage;
use block_storage::storage::StorageError;
use block_storage::store::NodeStorage;
use block_storage::store::StoreError;

fn block(id: u64, parent: u64, contents: u64) -> Block {
    Block {
        id: HeaderHash::new(id),
        parent_id: HeaderHash::new(parent),
        contents,
    }
}

/// G(depth 0) -> A(1) -> B(2) -> C(3), with ids 10, 20, 30, 40.
fn chain_g_a_b_c() -> Storage {
    let mut storage = Storage::new(NodeStorage::new());
    storage.put_block(&block(10, 0, 0)).unwrap();
    storage.put_block(&block(20, 10, 1)).unwrap();
    storage.put_block(&block(30, 20, 2)).unwrap();
    storage.put_block(&block(40, 30, 3)).unwrap();
    storage
}

fn info(id: u64, parent: u64, depth: u64) -> BlockInfo {
    BlockInfo {
        id: HeaderHash::new(id),
        parent_id: HeaderHash::new(parent),
        depth,
    }
}

#[test]
fn scenario_full_range_in_ascending_depth_order() {
    let storage = chain_g_a_b_c();
    let mut stream = storage
        .stream_from_to(HeaderHash::new(10), HeaderHash::new(40))
        .expect("no fault")
        .expect("related blocks give a stream");
    assert!(!stream.exhausted());
    let items = stream.collect_remaining(&storage.store).expect("no fault");
    assert_eq!(items, vec![info(20, 10, 1), info(30, 20, 2), info(40, 30, 3)]);
    assert!(stream.exhausted());
}

#[test]
fn scenario_reversed_endpoints_give_no_stream() {
    let storage = chain_g_a_b_c();
    let stream = storage
        .stream_from_to(HeaderHash::new(30), HeaderHash::new(20))
        .expect("no fault");
    assert!(stream.is_none());
}

#[test]
fn scenario_equal_endpoints_give_an_empty_stream() {
    let storage = chain_g_a_b_c();
    let mut stream = storage
        .stream_from_to(HeaderHash::new(20), HeaderHash::new(20))
        .expect("no fault")
        .expect("a block is its own ancestor");
    assert!(stream.exhausted());
    let items = stream.collect_remaining(&storage.store).expect("no fault");
    assert_eq!(items, Vec::<BlockInfo>::new());
}

#[test]
fn middle_range_only() {
    let mut storage = Storage::new(NodeStorage::new());
    let ids = [3, 5, 7, 9, 11, 13, 15];
    let mut parent = 0;
    for (d, id) in ids.iter().enumerate() {
        storage.put_block(&block(*id, parent, d as u64)).unwrap();
        parent = *id;
    }
    let mut stream = storage
        .stream_from_to(HeaderHash::new(7), HeaderHash::new(13))
        .expect("no fault")
        .expect("related blocks give a stream");
    let items = stream.collect_remaining(&storage.store).expect("no fault");
    assert_eq!(items, vec![info(9, 7, 3), info(11, 9, 4), info(13, 11, 5)]);
}

#[test]
fn unrelated_roots_give_no_stream() {
    let mut storage = Storage::new(NodeStorage::new());
    storage.put_block(&block(10, 0, 0)).unwrap();
    storage.put_block(&block(20, 0, 0)).unwrap();
    assert!(matches!(
        storage.stream_from_to(HeaderHash::new(10), HeaderHash::new(20)),
        Ok(None)
    ));
}

#[test]
fn sibling_branches_give_no_stream() {
    let mut storage = Storage::new(NodeStorage::new());
    storage.put_block(&block(10, 0, 0)).unwrap();
    storage.put_block(&block(20, 10, 1)).unwrap();
    storage.put_block(&block(30, 10, 1)).unwrap();
    assert!(matches!(
        storage.stream_from_to(HeaderHash::new(20), HeaderHash::new(30)),
        Ok(None)
    ));
    // The shared parent still reaches both children.
    assert!(storage
        .stream_from_to(HeaderHash::new(10), HeaderHash::new(30))
        .unwrap()
        .is_some());
}

#[test]
fn unstored_endpoint_propagates_the_store_fault() {
    let storage = chain_g_a_b_c();
    assert!(matches!(
        storage.stream_from_to(HeaderHash::new(99), HeaderHash::new(40)),
        Err(StorageError::StoreFault(StoreError::BlockNotFound))
    ));
    assert!(matches!(
        storage.stream_from_to(HeaderHash::new(10), HeaderHash::new(99)),
        Err(StorageError::StoreFault(StoreError::BlockNotFound))
    ));
}

#[test]
fn poll_yields_one_item_per_step_then_stays_exhausted() {
    let storage = chain_g_a_b_c();
    let mut stream = storage
        .stream_from_to(HeaderHash::new(20), HeaderHash::new(40))
        .expect("no fault")
        .expect("related blocks give a stream");
    assert_eq!(stream.poll(&storage.store), Ok(Some(info(30, 20, 2))));
    assert_eq!(stream.poll(&storage.store), Ok(Some(info(40, 30, 3))));
    assert_eq!(stream.poll(&storage.store), Ok(None));
    assert_eq!(stream.poll(&storage.store), Ok(None));
}

#[test]
fn stream_survives_interleaved_writes() {
    let mut storage = chain_g_a_b_c();
    let mut stream = storage
        .stream_from_to(HeaderHash::new(10), HeaderHash::new(40))
        .expect("no fault")
        .expect("related blocks give a stream");
    assert_eq!(stream.poll(&storage.store), Ok(Some(info(20, 10, 1))));
    // The store is only borrowed per step; other operations interleave.
    storage.put_block(&block(50, 20, 9)).unwrap();
    storage.put_tag(&String::from("tip"), HeaderHash::new(50)).unwrap();
    assert_eq!(stream.poll(&storage.store), Ok(Some(info(30, 20, 2))));
    assert_eq!(stream.poll(&storage.store), Ok(Some(info(40, 30, 3))));
    assert_eq!(stream.poll(&storage.store), Ok(None));
}

#[test]
fn long_chain_full_sweep_has_no_gaps_and_no_duplicates() {
    let mut storage = Storage::new(NodeStorage::new());
    let n: u64 = 100;
    for i in 1..=n {
        storage.put_block(&block(i, i - 1, i)).unwrap();
    }
    let mut stream = storage
        .stream_from_to(HeaderHash::new(1), HeaderHash::new(n))
        .expect("no fault")
        .expect("related blocks give a stream");
    let items = stream.collect_remaining(&storage.store).expect("no fault");
    assert_eq!(items.len(), (n - 1) as usize);
    for (k, item) in items.iter().enumerate() {
        let depth = k as u64 + 1;
        assert_eq!(*item, info(depth + 1, depth, depth));
    }
}
