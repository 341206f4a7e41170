use jin::buffer::eviction::PolicyVariant;
use jin::buffer::manager::BufFrameErr;
use jin::buffer::manager::BufferError;
use jin::buffer::manager::BufferManager;
use jin::common::BLOCK_SIZE;
use jin::disk::manager::DiskManager;

fn setup() -> BufferManager {
    BufferManager::new(8, DiskManager::new(), PolicyVariant::Slow)
}

fn block_of(byte: u8) -> Vec<u8> {
    vec![byte; BLOCK_SIZE as usize]
}

#[test]
fn test_create_buffer_page() {
    let mut manager = setup();

    // Create a page in the buffer manager.
    let handle = manager.create_relation_page().unwrap();

    // Assert that the created page is initialized as expected.
    assert!(manager.read_page(handle.page_id).is_ok());
    assert_eq!(handle.page_id, 0);

    // Assert that new pages can't be created when there are no open buffer
    // frames and all existing pages are pinned.
    let mut handles = Vec::new();
    for _ in 1..8 {
        handles.push(manager.create_relation_page().unwrap());
    }
    assert!(manager.create_relation_page().is_err());
}

#[test]
fn test_fetch_buffer_page() {
    let mut manager = setup();

    // Fetching a page that was never created fails.
    let result = manager.fetch_page(0);
    assert!(result.is_err());

    // After creation, a fetch of the new identifier succeeds.
    let handle = manager.create_relation_page().unwrap();
    let result = manager.fetch_page(handle.page_id);
    assert!(result.is_ok());
}

#[test]
fn test_delete_buffer_page() {
    let mut manager = setup();
    let handle = manager.create_relation_page().unwrap();

    // Deleting the newly created page fails: it is still pinned.
    let first_attempt = manager.delete_page(handle.page_id);
    assert!(first_attempt.is_err());

    // After unpinning, the same delete succeeds.
    manager.unpin_page(handle.page_id).unwrap();
    let second_attempt = manager.delete_page(handle.page_id);
    assert!(second_attempt.is_ok());
}

#[test]
fn test_create_fills_every_frame_once() {
    let mut manager = setup();
    let mut frames = Vec::new();
    for _ in 0..8 {
        let handle = manager.create_relation_page().unwrap();
        assert!(handle.frame_id < 8);
        assert!(!frames.contains(&handle.frame_id));
        frames.push(handle.frame_id);
    }
    assert_eq!(frames.len(), 8);
}

#[test]
fn test_pool_exhaustion_error_for_each_policy() {
    let policies = vec![PolicyVariant::Clock, PolicyVariant::LRU, PolicyVariant::Slow];
    for policy in policies {
        let mut manager = BufferManager::new(3, DiskManager::new(), policy);
        for _ in 0..3 {
            assert!(manager.create_relation_page().is_ok());
        }
        assert!(manager.create_relation_page().is_err());
    }
}

#[test]
fn test_pinned_page_never_evicted_for_each_policy() {
    let policies = vec![PolicyVariant::Clock, PolicyVariant::LRU, PolicyVariant::Slow];
    for policy in policies {
        let mut manager = BufferManager::new(2, DiskManager::new(), policy);
        let kept = manager.create_relation_page().unwrap();
        let victim = manager.create_relation_page().unwrap();

        // Only the second page is unpinned, so only its frame may be reused.
        manager.unpin_page(victim.page_id).unwrap();
        let replacement = manager.create_relation_page().unwrap();
        assert_eq!(replacement.frame_id, victim.frame_id);

        // The pinned page is still resident with its frame untouched.
        assert!(manager.read_page(kept.page_id).is_ok());
        assert!(manager.read_page(victim.page_id).is_err());
    }
}

#[test]
fn test_dirty_page_round_trip_through_eviction() {
    let mut manager = BufferManager::new(1, DiskManager::new(), PolicyVariant::Slow);
    let first = manager.create_relation_page().unwrap();
    let pattern = block_of(0xAB);
    manager.write_page(first.page_id, &pattern).unwrap();
    manager.unpin_page(first.page_id).unwrap();

    // Reuse the only frame: the dirty page is flushed out on eviction.
    let second = manager.create_relation_page().unwrap();
    assert!(manager.read_page(first.page_id).is_err());
    manager.unpin_page(second.page_id).unwrap();

    // Fetching the evicted page reads the flushed bytes back, unchanged.
    let fetched = manager.fetch_page(first.page_id).unwrap();
    assert_eq!(fetched.page_id, first.page_id);
    let data = manager.read_page(first.page_id).unwrap();
    assert_eq!(data, pattern);
}

#[test]
fn test_clean_page_is_lost_on_eviction() {
    let mut manager = BufferManager::new(1, DiskManager::new(), PolicyVariant::Slow);
    let first = manager.create_relation_page().unwrap();
    manager.unpin_page(first.page_id).unwrap();

    // The page was never written, so eviction discards it and a fetch of its
    // identifier finds nothing on disk.
    let _second = manager.create_relation_page().unwrap();
    let result = manager.fetch_page(first.page_id);
    assert_eq!(result.unwrap_err(), BufferError::PageNotFound);
}

#[test]
fn test_flush_page_writes_block() {
    let mut manager = BufferManager::new(1, DiskManager::new(), PolicyVariant::Slow);
    let first = manager.create_relation_page().unwrap();
    let pattern = block_of(0x5C);
    manager.write_page(first.page_id, &pattern).unwrap();
    manager.flush_page(first.page_id).unwrap();
    manager.unpin_page(first.page_id).unwrap();

    // The frame is reused; the flushed block alone preserves the bytes.
    let second = manager.create_relation_page().unwrap();
    manager.unpin_page(second.page_id).unwrap();
    manager.fetch_page(first.page_id).unwrap();
    assert_eq!(manager.read_page(first.page_id).unwrap(), pattern);
}

#[test]
fn test_flush_all_pages_writes_every_dirty_block() {
    let mut manager = BufferManager::new(2, DiskManager::new(), PolicyVariant::Slow);
    let a = manager.create_relation_page().unwrap();
    let b = manager.create_relation_page().unwrap();
    let pattern_a = block_of(0x11);
    let pattern_b = block_of(0x22);
    manager.write_page(a.page_id, &pattern_a).unwrap();
    manager.write_page(b.page_id, &pattern_b).unwrap();
    assert!(manager.flush_all_pages().is_ok());
    manager.unpin_page(a.page_id).unwrap();
    manager.unpin_page(b.page_id).unwrap();

    // Evict both pages, then fetch them back from their blocks.
    let c = manager.create_relation_page().unwrap();
    let d = manager.create_relation_page().unwrap();
    manager.unpin_page(c.page_id).unwrap();
    manager.unpin_page(d.page_id).unwrap();
    manager.fetch_page(a.page_id).unwrap();
    assert_eq!(manager.read_page(a.page_id).unwrap(), pattern_a);
    manager.unpin_page(a.page_id).unwrap();
    manager.fetch_page(b.page_id).unwrap();
    assert_eq!(manager.read_page(b.page_id).unwrap(), pattern_b);
}

#[test]
fn test_fetch_after_create_returns_same_content() {
    let mut manager = setup();
    let handle = manager.create_relation_page().unwrap();
    let pattern = block_of(0x7E);
    manager.write_page(handle.page_id, &pattern).unwrap();

    // A fetch of the just-created identifier — as a second caller sequenced
    // strictly after creation — is a hit on the same content.
    let fetched = manager.fetch_page(handle.page_id).unwrap();
    assert_eq!(fetched.frame_id, handle.frame_id);
    assert_eq!(manager.read_page(handle.page_id).unwrap(), pattern);
}

#[test]
fn test_pin_page_blocks_delete_until_fully_unpinned() {
    let mut manager = setup();
    let handle = manager.create_relation_page().unwrap();
    manager.pin_page(handle.page_id).unwrap();

    manager.unpin_page(handle.page_id).unwrap();
    assert_eq!(manager.delete_page(handle.page_id).unwrap_err(), BufferError::PagePinned);

    manager.unpin_page(handle.page_id).unwrap();
    assert!(manager.delete_page(handle.page_id).is_ok());
    assert_eq!(manager.fetch_page(handle.page_id).unwrap_err(), BufferError::PageNotFound);
}

#[test]
fn test_unpin_without_pins_is_an_error() {
    let mut manager = setup();
    let handle = manager.create_relation_page().unwrap();
    manager.unpin_page(handle.page_id).unwrap();
    assert_eq!(manager.unpin_page(handle.page_id).unwrap_err(), BufferError::PageNotPinned);
}

#[test]
fn test_operations_on_missing_page_fail() {
    let mut manager = setup();
    assert_eq!(manager.delete_page(42).unwrap_err(), BufferError::PageNotFound);
    assert_eq!(manager.flush_page(42).unwrap_err(), BufferError::PageNotFound);
    assert_eq!(manager.pin_page(42).unwrap_err(), BufferError::PageNotFound);
    assert_eq!(manager.unpin_page(42).unwrap_err(), BufferError::PageNotFound);
    assert_eq!(manager.read_page(42).unwrap_err(), BufferError::PageNotFound);
    assert_eq!(manager.write_page(42, &block_of(0)).unwrap_err(), BufferError::PageNotFound);
}

#[test]
fn test_fetch_pool_exhausted() {
    let mut manager = BufferManager::new(1, DiskManager::new(), PolicyVariant::Slow);
    let first = manager.create_relation_page().unwrap();
    manager.write_page(first.page_id, &block_of(9)).unwrap();
    manager.unpin_page(first.page_id).unwrap();

    // The only frame is now held by a pinned page; the evicted page is on
    // disk but cannot be brought back in.
    let _second = manager.create_relation_page().unwrap();
    assert_eq!(manager.fetch_page(first.page_id).unwrap_err(), BufferError::PoolExhausted);
}

#[test]
fn test_lru_evicts_least_recently_unpinned() {
    let mut manager = BufferManager::new(3, DiskManager::new(), PolicyVariant::LRU);
    let a = manager.create_relation_page().unwrap();
    let b = manager.create_relation_page().unwrap();
    let c = manager.create_relation_page().unwrap();

    // Unpin in the order b, a, c: b is the least recently unpinned.
    manager.unpin_page(b.page_id).unwrap();
    manager.unpin_page(a.page_id).unwrap();
    manager.unpin_page(c.page_id).unwrap();

    let d = manager.create_relation_page().unwrap();
    assert_eq!(d.frame_id, b.frame_id);
}

#[test]
fn test_clock_sweep_clears_reference_bits_then_selects() {
    let mut manager = BufferManager::new(3, DiskManager::new(), PolicyVariant::Clock);
    let a = manager.create_relation_page().unwrap();
    let b = manager.create_relation_page().unwrap();
    let c = manager.create_relation_page().unwrap();
    assert_eq!((a.frame_id, b.frame_id, c.frame_id), (0, 1, 2));

    // All three frames are unpinned with their reference bits set; the hand
    // sweeps once clearing bits, then selects the frame it started from.
    manager.unpin_page(a.page_id).unwrap();
    manager.unpin_page(b.page_id).unwrap();
    manager.unpin_page(c.page_id).unwrap();
    let d = manager.create_relation_page().unwrap();
    assert_eq!(d.frame_id, 0);
}

#[test]
fn test_create_dictionary_page_gets_fresh_id() {
    let mut manager = setup();
    let a = manager.create_dictionary_page().unwrap();
    let b = manager.create_relation_page().unwrap();
    assert_eq!(a.page_id, 0);
    assert_eq!(b.page_id, 1);
}

#[test]
fn test_pin_count_tracks_pins_and_unpins() {
    let mut manager = setup();
    let handle = manager.create_relation_page().unwrap();
    assert_eq!(manager.page_pin_count(handle.page_id).unwrap(), 1);
    manager.pin_page(handle.page_id).unwrap();
    assert_eq!(manager.page_pin_count(handle.page_id).unwrap(), 2);
    manager.unpin_page(handle.page_id).unwrap();
    assert_eq!(manager.page_pin_count(handle.page_id).unwrap(), 1);
    assert_eq!(manager.page_pin_count(99).unwrap_err(), BufferError::PageNotFound);
}

#[test]
fn test_block_count_rises_with_each_creation() {
    let mut manager = setup();
    assert_eq!(manager.block_count(), 0);
    let a = manager.create_relation_page().unwrap();
    assert_eq!(manager.block_count(), 1);
    let _b = manager.create_relation_page().unwrap();
    assert_eq!(manager.block_count(), 2);

    // Deletion does not lower the counter: identifiers are never reused.
    manager.unpin_page(a.page_id).unwrap();
    manager.delete_page(a.page_id).unwrap();
    assert_eq!(manager.block_count(), 2);
}

#[test]
fn test_buf_frame_err_message() {
    let err = BufFrameErr::new();
    assert_eq!(err.message().as_str(), "No available buffer frames, and all pages are pinned");
}
