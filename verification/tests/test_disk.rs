use jin::common::BLOCK_SIZE;
use jin::disk::manager::DiskManager;
use jin::relation::record::Record;

#[test]
fn test_allocate_block_is_strictly_monotonic() {
    let mut disk = DiskManager::new();
    let mut previous: Option<u32> = None;
    for expected in 0..64u32 {
        let id = disk.allocate_block();
        assert_eq!(id, expected);
        if let Some(p) = previous {
            assert!(id > p);
        }
        previous = Some(id);
    }
    assert_eq!(disk.block_count(), 64);
}

#[test]
fn test_deallocation_never_reuses_identifiers() {
    let mut disk = DiskManager::new();
    let a = disk.allocate_block();
    let b = disk.allocate_block();
    disk.deallocate_block(a).unwrap();
    let c = disk.allocate_block();
    assert!(c > b);
    assert_ne!(c, a);
}

#[test]
fn test_write_then_read_round_trip() {
    let mut disk = DiskManager::new();
    let id = disk.allocate_block();
    let data = vec![0xC3u8; BLOCK_SIZE as usize];
    disk.write_block(id, &data).unwrap();
    assert_eq!(disk.read_block(id).unwrap(), data);
}

#[test]
fn test_read_of_unwritten_or_deallocated_block_fails() {
    let mut disk = DiskManager::new();
    assert!(disk.read_block(0).is_err());
    let id = disk.allocate_block();
    assert!(disk.read_block(id).is_err());
    disk.write_block(id, &vec![1u8; BLOCK_SIZE as usize]).unwrap();
    assert!(disk.read_block(id).is_ok());
    disk.deallocate_block(id).unwrap();
    assert!(disk.read_block(id).is_err());
}

#[test]
fn test_write_to_unallocated_block_fails() {
    let mut disk = DiskManager::new();
    let data = vec![0u8; BLOCK_SIZE as usize];
    assert!(disk.write_block(5, &data).is_err());
}

#[test]
fn test_record_keeps_address_and_length() {
    let record = Record::new(7, 3, vec![1, 2, 3, 4, 5]);
    assert_eq!(record.id.block_id, 7);
    assert_eq!(record.id.slot_index, 3);
    assert_eq!(record.len(), 5);
    assert_eq!(record.data, vec![1, 2, 3, 4, 5]);
}
