//! Behaviour of the storage facade: tag management, block round trips,
//! not-found recovery, and the error policy of the write path.

use block_storage::block::Block;
use block_storage::block::HeaderHash;
use block_storage::storage::Storage;
use block_storage::storage::StorageError;
use block_storage::store::NodeStorage;
use block_storage::store::StoreError;

fn block(id: u64, parent: u64, contents: u64) -> Block {
    Block {
        id: HeaderHash::new(id),
        parent_id: HeaderHash::new(parent),
        contents,
    }
}

fn fresh() -> Storage {
    Storage::new(NodeStorage::new())
}

#[test]
fn unset_tag_reads_as_absent() {
    let storage = fresh();
    assert_eq!(storage.get_tag(&String::from("tip")), Ok(None));
}

#[test]
fn tag_round_trip_and_overwrite() {
    let mut storage = fresh();
    let tip = String::from("tip");
    let h1 = HeaderHash::new(11);
    let h2 = HeaderHash::new(22);
    assert_eq!(storage.put_tag(&tip, h1), Ok(()));
    assert_eq!(storage.get_tag(&tip), Ok(Some(h1)));
    assert_eq!(storage.put_tag(&tip, h2), Ok(()));
    assert_eq!(storage.get_tag(&tip), Ok(Some(h2)));
}

#[test]
fn tags_do_not_shadow_each_other() {
    let mut storage = fresh();
    let tip = String::from("tip");
    let root = String::from("root");
    assert_eq!(storage.put_tag(&tip, HeaderHash::new(11)), Ok(()));
    assert_eq!(storage.put_tag(&root, HeaderHash::new(5)), Ok(()));
    assert_eq!(storage.put_tag(&tip, HeaderHash::new(33)), Ok(()));
    assert_eq!(storage.get_tag(&root), Ok(Some(HeaderHash::new(5))));
    assert_eq!(storage.get_tag(&tip), Ok(Some(HeaderHash::new(33))));
}

#[test]
fn block_round_trip() {
    let mut storage = fresh();
    let g = block(5, 0, 100);
    assert_eq!(storage.put_block(&g), Ok(()));
    assert_eq!(storage.get(g.id), Ok(Some(g)));
    assert_eq!(storage.block_exists(g.id), Ok(true));
}

#[test]
fn absent_block_is_recovered_not_an_error() {
    let storage = fresh();
    let unknown = HeaderHash::new(999);
    assert_eq!(storage.get(unknown), Ok(None));
    assert_eq!(storage.block_exists(unknown), Ok(false));
}

#[test]
fn child_depths_follow_their_parents() {
    let mut storage = fresh();
    assert_eq!(storage.put_block(&block(5, 0, 1)), Ok(()));
    assert_eq!(storage.put_block(&block(7, 5, 2)), Ok(()));
    assert_eq!(storage.put_block(&block(9, 7, 3)), Ok(()));
    let info = storage
        .store
        .get_block_info(HeaderHash::new(9))
        .expect("stored block has a record");
    assert_eq!(info.id, HeaderHash::new(9));
    assert_eq!(info.parent_id, HeaderHash::new(7));
    assert_eq!(info.depth, 2);
    let root_info = storage
        .store
        .get_block_info(HeaderHash::new(5))
        .expect("stored block has a record");
    assert_eq!(root_info.depth, 0);
}

#[test]
fn roots_carry_the_reserved_parent_marker() {
    let mut storage = fresh();
    let g = Block {
        id: HeaderHash::new(5),
        parent_id: HeaderHash::zero(),
        contents: 1,
    };
    assert_eq!(storage.put_block(&g), Ok(()));
    let info = storage
        .store
        .get_block_info(g.id)
        .expect("stored block has a record");
    assert!(info.parent_id().is_zero());
    assert!(!info.id.is_zero());
    assert_eq!(info.depth, 0);
}

#[test]
fn duplicate_insert_is_a_store_fault() {
    let mut storage = fresh();
    let g = block(5, 0, 1);
    assert_eq!(storage.put_block(&g), Ok(()));
    assert_eq!(
        storage.put_block(&block(5, 0, 77)),
        Err(StorageError::StoreFault(StoreError::BlockAlreadyPresent))
    );
    // The first payload survives the refused overwrite.
    assert_eq!(storage.get(g.id), Ok(Some(g)));
}

#[test]
fn missing_parent_escalates_as_invariant_violation() {
    let mut storage = fresh();
    assert_eq!(
        storage.put_block(&block(7, 5, 2)),
        Err(StorageError::InvariantViolation)
    );
    assert_eq!(storage.block_exists(HeaderHash::new(7)), Ok(false));
}

#[test]
fn zero_identifier_escalates_as_invariant_violation() {
    let mut storage = fresh();
    assert_eq!(
        storage.put_block(&block(0, 0, 2)),
        Err(StorageError::InvariantViolation)
    );
}

#[test]
fn store_reports_not_found_for_unstored_lookups() {
    let storage = fresh();
    assert_eq!(
        storage.store.get_block(HeaderHash::new(4)),
        Err(StoreError::BlockNotFound)
    );
    assert_eq!(
        storage.store.get_block_info(HeaderHash::new(4)),
        Err(StoreError::BlockNotFound)
    );
    assert_eq!(
        storage
            .store
            .is_ancestor(HeaderHash::new(4), HeaderHash::new(4)),
        Err(StoreError::BlockNotFound)
    );
}
