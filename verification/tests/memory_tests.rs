use haforu::{BatchProcessor, MemoryGuard, MemoryPool, MemoryTracker};

#[test]
fn test_memory_tracker_basic() {
    let mut tracker = MemoryTracker::new(100); // 100 MB limit

    assert!(tracker.allocate(10 * 1024 * 1024).is_ok());
    assert_eq!(tracker.current_usage(), 10 * 1024 * 1024);

    tracker.deallocate(5 * 1024 * 1024);
    assert_eq!(tracker.current_usage(), 5 * 1024 * 1024);
}

#[test]
fn test_memory_tracker_limit() {
    let mut tracker = MemoryTracker::new(10); // 10 MB limit

    assert!(tracker.allocate(11 * 1024 * 1024).is_err());
    assert_eq!(tracker.current_usage(), 0);
}

#[test]
fn test_memory_tracker_peak() {
    let mut tracker = MemoryTracker::new(100);

    tracker.allocate(50 * 1024 * 1024).unwrap();
    assert_eq!(tracker.peak_usage(), 50 * 1024 * 1024);

    tracker.deallocate(30 * 1024 * 1024);
    assert_eq!(tracker.peak_usage(), 50 * 1024 * 1024);

    tracker.allocate(10 * 1024 * 1024).unwrap();
    assert_eq!(tracker.peak_usage(), 50 * 1024 * 1024);
}

#[test]
fn test_memory_guard() {
    let mut tracker = MemoryTracker::new(100);

    let guard = MemoryGuard::new(&mut tracker, 10 * 1024 * 1024).unwrap();
    assert_eq!(tracker.current_usage(), 10 * 1024 * 1024);
    guard.release(&mut tracker);

    assert_eq!(tracker.current_usage(), 0);
}

#[test]
fn test_memory_pool() {
    let mut tracker = MemoryTracker::new(100);
    let mut pool = MemoryPool::new(1024);

    let chunk1 = pool.allocate(&mut tracker).unwrap();
    assert_eq!(chunk1.len(), 1024);
    assert_eq!(tracker.current_usage(), 1024);

    pool.deallocate(chunk1);

    let chunk2 = pool.allocate(&mut tracker).unwrap();
    assert_eq!(chunk2.len(), 1024);
    assert_eq!(tracker.current_usage(), 1024);
}

#[test]
fn test_batch_processor() {
    let mut tracker = MemoryTracker::new(100);
    let processor = BatchProcessor::new(1000);

    let batch_size = processor.optimal_batch_size(&tracker, 1024);
    assert!(batch_size > 0);
    assert!(batch_size <= 1000);

    assert!(processor.can_process_batch(&tracker, 10 * 1024 * 1024));

    tracker.allocate(75 * 1024 * 1024).unwrap();
    assert!(!processor.can_process_batch(&tracker, 20 * 1024 * 1024));
}

#[test]
fn test_concurrent_workers_scaling() {
    let mut tracker = MemoryTracker::new(100);
    let processor = BatchProcessor::new(1000);
    let max_workers = processor.concurrent_workers(&tracker);

    assert_eq!(processor.concurrent_workers(&tracker), max_workers);

    tracker.allocate(60 * 1024 * 1024).unwrap();
    assert_eq!(processor.concurrent_workers(&tracker), max_workers / 2);

    tracker.allocate(20 * 1024 * 1024).unwrap();
    assert_eq!(processor.concurrent_workers(&tracker), 1);
}

#[test]
fn memory_stats_reports_mebibytes() {
    let mut tracker = MemoryTracker::new(100);
    tracker.allocate(50 * 1024 * 1024).unwrap();
    assert_eq!(tracker.stats(), "Memory: 50 MB / 100 MB (peak: 50 MB)");
    tracker.reset_peak();
    tracker.deallocate(25 * 1024 * 1024);
    assert_eq!(tracker.stats(), "Memory: 25 MB / 100 MB (peak: 50 MB)");
}
