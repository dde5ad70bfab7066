use cache_streamer::buffer::ByteBuffer;
use cache_streamer::hole_tracker::HoleTracker;
use cache_streamer::ranges::{gte_intersecting, lt_intersecting};
use cache_streamer::sparse_map::SparseMap;

#[test]
fn test_default() {
    let tracker = HoleTracker::default();
    let result: Option<core::ops::Range<usize>> = tracker.into();

    assert_eq!(result, None);
}

#[test]
fn test_single_range() {
    let mut tracker = HoleTracker::default();
    tracker.update(0, 1);

    let result: Option<core::ops::Range<usize>> = tracker.into();

    assert_eq!(result, Some(0..1));
}

#[test]
fn test_multiple_ranges() {
    let mut tracker = HoleTracker::default();
    tracker.update(0, 1);
    tracker.update(2, 3);

    let result: Option<core::ops::Range<usize>> = tracker.into();

    assert_eq!(result, Some(0..3));
}

#[test]
fn test_lt_intersecting() {
    // ab less than cd and not intersecting
    assert_eq!(lt_intersecting(&(0..1), &(1..2)), false);
    assert_eq!(lt_intersecting(&(0..1), &(2..3)), false);

    // ab less than cd and intersecting
    assert_eq!(lt_intersecting(&(0..2), &(1..3)), true);

    // ab less than but completely contains cd
    assert_eq!(lt_intersecting(&(0..4), &(1..3)), true);

    // ab not less than cd
    assert_eq!(lt_intersecting(&(0..1), &(0..2)), false);

    // ab greater than cd
    assert_eq!(lt_intersecting(&(1..2), &(0..1)), false);
}

#[test]
fn test_gte_intersection() {
    // ab less than cd and not intersecting
    assert_eq!(gte_intersecting(&(0..1), &(1..2)), false);
    assert_eq!(gte_intersecting(&(0..1), &(2..3)), false);

    // ab less than cd and intersecting
    assert_eq!(gte_intersecting(&(0..2), &(1..3)), false);

    // ab equal to cd
    assert_eq!(gte_intersecting(&(0..1), &(0..1)), true);

    // ab less than but completely contains cd
    assert_eq!(gte_intersecting(&(0..4), &(1..3)), false);

    // ab equal to and completely contains cd
    assert_eq!(gte_intersecting(&(0..4), &(0..3)), true);

    // ab greater than cd and intersecting
    assert_eq!(gte_intersecting(&(2..3), &(1..3)), true);

    // ab greater than cd
    assert_eq!(gte_intersecting(&(2..3), &(1..2)), false);
}

#[test]
fn test_put_get_boundary_conditions() {
    let mut map = SparseMap::<usize>::default();
    map.put_new(0, 1024);
    map.put_new(1024, 1024);

    assert_eq!(map.get(0, 1024), Some(1024));
    assert_eq!(map.get(64, 1024), Some(1024 - 64));
    assert_eq!(map.get(1024, 1024), Some(1024));
    assert_eq!(map.get(1024 + 64, 1024), Some(1024 - 64));
    assert_eq!(map.get(2048, 1024), None);
    assert_eq!(map.get(2048 + 64, 1024), None);
}

#[test]
fn test_repeatable_ranges() {
    let mut map = SparseMap::<usize>::default();

    map.put_new(0, 1024);
    assert_eq!(map.get(0, 1024), Some(1024));

    map.put_new(0, 1024);
    assert_eq!(map.get(0, 1024), Some(1024));

    map.put_new(1024, 1024);
    assert_eq!(map.get(0, 1024), Some(1024));
    assert_eq!(map.get(1024, 1024), Some(1024));
}

#[test]
fn test_overlapping_ranges() {
    let mut map = SparseMap::<usize>::default();

    map.put_new(0, 1024);
    assert_eq!(map.get(0, 1024), Some(1024));

    map.put_new(1024 - 64, 1024);
    assert_eq!(map.get(0, 1024), Some(1024));
    assert_eq!(map.get(1024 - 64, 64), Some(64));
    assert_eq!(map.get(1024, 1024), Some(1024 - 64));
    assert_eq!(map.get(1024, 960), Some(960));
}

#[test]
fn test_discontinuous() {
    let mut map = SparseMap::<usize>::default();
    assert_eq!(map.union_discontinuous_range(0..1024), Some(0..1024));

    map.put_new(0, 1024);
    assert_eq!(map.union_discontinuous_range(0..1024), None);
    assert_eq!(
        map.union_discontinuous_range(0..(1024 + 64)),
        Some(1024..(1024 + 64))
    );

    map.put_new(2048, 1024);
    map.put_new(4096, 1024);
    assert_eq!(map.union_discontinuous_range(0..8192), Some(1024..8192));
}

#[test]
fn test_lengths() {
    let mut map = SparseMap::<usize>::default();
    map.put_new(0, 1024);

    assert_eq!(map.len(), 1024);
    assert_eq!(map.mapped_len(), 1024);

    map.put_new(1024, 1024);
    assert_eq!(map.len(), 2048);
    assert_eq!(map.mapped_len(), 2048);

    map.put_new(4096, 1024);
    assert_eq!(map.len(), 5120);
    assert_eq!(map.mapped_len(), 1024 + 1024 + 1024);
}

#[test]
fn test_put_new_spanning_multiple_holes_and_blocks() {
    let mut map = SparseMap::<usize>::default();
    map.put_new(100, 100);
    map.put_new(300, 100);
    map.put_new(0, 500);

    assert_eq!(map.get(0, 100), Some(100));
    assert_eq!(map.get(50, 50), Some(50));
    assert_eq!(map.get(100, 100), Some(100));
    assert_eq!(map.get(150, 50), Some(50));
    assert_eq!(map.get(200, 100), Some(100));
    assert_eq!(map.get(250, 50), Some(50));
    assert_eq!(map.get(300, 100), Some(100));
    assert_eq!(map.get(350, 50), Some(50));
    assert_eq!(map.get(400, 100), Some(100));
    assert_eq!(map.get(450, 50), Some(50));
    assert_eq!(map.get(500, 100), None);
    assert_eq!(map.mapped_len(), 500);
    assert_eq!(map.len(), 500);
}

#[test]
fn test_put_new_partially_overlapping_existing_data() {
    let mut map = SparseMap::<usize>::default();
    map.put_new(100, 100);
    map.put_new(300, 100);
    map.put_new(50, 300);

    assert_eq!(map.get(50, 50), Some(50));
    assert_eq!(map.get(100, 100), Some(100));
    assert_eq!(map.get(200, 100), Some(100));
    assert_eq!(map.get(300, 100), Some(100));
    assert_eq!(map.get(300, 50), Some(50));
    assert_eq!(map.get(350, 50), Some(50));
    assert_eq!(map.mapped_len(), 350);

    let blocks_found = map.block_ranges();
    assert_eq!(blocks_found, vec![50..100, 100..200, 200..300, 300..400,]);
}

#[test]
fn test_put_new_bytes_spanning_multiple_holes() {
    let mut map = SparseMap::<ByteBuffer>::default();
    map.put_new(100, ByteBuffer::from_vec(vec![1; 50]));
    map.put_new(200, ByteBuffer::from_vec(vec![2; 50]));

    let input_data = ByteBuffer::from_vec(vec![3u8; 175]);
    map.put_new(50, input_data);

    assert_eq!(map.get(50, 50).unwrap().to_vec(), vec![3; 50]);
    assert_eq!(map.get(100, 50).unwrap().to_vec(), vec![1; 50]);
    assert_eq!(map.get(150, 50).unwrap().to_vec(), vec![3; 50]);
    assert_eq!(map.get(200, 50).unwrap().to_vec(), vec![2; 50]);
    assert_eq!(map.get(200, 25).unwrap().to_vec(), vec![2; 25]);
    assert!(map.get(250, 50).is_none());
    assert_eq!(map.mapped_len(), 50 + 50 + 50 + 50);

    let blocks_found = map.block_ranges();
    assert_eq!(blocks_found, vec![50..100, 100..150, 150..200, 200..250,]);
}

#[test]
fn test_put_new_into_empty_map() {
    let mut map = SparseMap::<usize>::default();
    map.put_new(100, 200);
    assert_eq!(map.get(100, 200), Some(200));
    assert_eq!(map.get(0, 100), None);
    assert_eq!(map.get(300, 100), None);
    assert_eq!(map.mapped_len(), 200);
}

#[test]
fn test_put_new_at_end_of_map_creating_trailing_hole() {
    let mut map = SparseMap::<usize>::default();
    map.put_new(0, 100);
    map.put_new(200, 100);

    assert_eq!(map.get(0, 100), Some(100));
    assert_eq!(map.get(100, 100), None);
    assert_eq!(map.get(200, 100), Some(100));
    assert_eq!(map.mapped_len(), 200);
}

#[test]
fn test_put_new_lower_bound_condition() {
    let mut map = SparseMap::<ByteBuffer>::default();
    map.put_new(200, ByteBuffer::from_vec(vec![2; 100]));
    map.put_new(100, ByteBuffer::from_vec(vec![1; 100]));
    map.put_new(150, ByteBuffer::from_vec(vec![3; 50]));

    let blocks_found = map.block_ranges();
    assert_eq!(blocks_found, vec![100..200, 200..300,]);
}

#[test]
fn test_first_writer_wins_bytes() {
    let mut map = SparseMap::<ByteBuffer>::default();
    map.put_new(0, ByteBuffer::from_vec(vec![b'a'; 4]));
    map.put_new(2, ByteBuffer::from_vec(vec![b'b'; 4]));

    // The overlap keeps the first writer's bytes; only the fresh region
    // carries the second writer's.
    assert_eq!(map.get(2, 2).unwrap().to_vec(), vec![b'a'; 2]);
    assert_eq!(map.get(4, 2).unwrap().to_vec(), vec![b'b'; 2]);
}

#[test]
fn test_put_fully_covered_is_no_op() {
    let mut map = SparseMap::<ByteBuffer>::default();
    map.put_new(0, ByteBuffer::from_vec(b"hello world".to_vec()));
    map.put_new(3, ByteBuffer::from_vec(vec![b'x'; 5]));

    assert_eq!(map.get(0, 11).unwrap().to_vec(), b"hello world".to_vec());
    assert_eq!(map.block_ranges(), vec![0..11]);
    assert_eq!(map.mapped_len(), 11);
}

#[test]
fn test_get_zero_size_and_empty_put() {
    let mut map = SparseMap::<usize>::default();
    map.put_new(0, 100);

    // A zero-size lookup yields nothing; an empty put changes nothing.
    assert_eq!(map.get(0, 0), None);
    map.put_new(500, 0);
    assert_eq!(map.mapped_len(), 100);
    assert_eq!(map.get(500, 10), None);
    assert!(!map.is_empty());
    assert!(SparseMap::<usize>::default().is_empty());
}

#[test]
fn test_union_discontinuous_empty_range() {
    let map = SparseMap::<usize>::default();
    assert_eq!(map.union_discontinuous_range(5..5), None);
}
