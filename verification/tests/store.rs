//! Tests of the point store and of the selection step of a radius query.
//!
//! The library carries coordinates as the bit patterns of single-precision
//! values, and takes the arithmetic collaborator's per-point verdicts as an
//! argument to the scan; these tests play that collaborator with plain
//! floating-point arithmetic, as a caller of the library would.

use constellation::builder::ConstellationBuilder;
use constellation::store::VecConstellation;
use constellation::SupportedSize;

fn to_bits(values: &[f32]) -> Vec<u32> {
    values.iter().map(|v| v.to_bits()).collect()
}

fn from_bits(words: &[u32]) -> Vec<f32> {
    words.iter().map(|w| f32::from_bits(*w)).collect()
}

/// Squared Euclidean distance, the arithmetic the store itself never does.
fn distance_squared(a: &[f32], b: &[f32]) -> f32 {
    a.iter().zip(b.iter()).map(|(x, y)| (x - y) * (x - y)).sum()
}

/// For each stored point: its squared distance to `query` when that lies
/// within `radius_squared`, and `None` otherwise.
fn verdicts(store: &VecConstellation, query: &[f32], radius_squared: f32) -> Vec<Option<u32>> {
    store
        .points()
        .iter()
        .map(|p| {
            let d = distance_squared(&from_bits(p), query);
            if d <= radius_squared {
                Some(d.to_bits())
            } else {
                None
            }
        })
        .collect()
}

fn find(store: &VecConstellation, query: &[f32], radius_squared: f32) -> Vec<(f32, Vec<f32>)> {
    store
        .find_matches(&verdicts(store, query, radius_squared))
        .iter()
        .map(|(d, p)| (f32::from_bits(*d), from_bits(p)))
        .collect()
}

#[test]
fn test_len() {
    let constellation = VecConstellation::new(1);
    assert_eq!(constellation.count(), 0);
}

#[test]
fn test_size() {
    let mut constellation1 = VecConstellation::new(8);
    constellation1.add_points(vec![to_bits(&[1.0, 1.0, 1.0, 1.0, 1.0, 1.0, 1.0, 1.0])]);
    // Should be exactly 32 bytes
    assert_eq!(constellation1.memory_size(), 32);
}

#[test]
fn test_add_multiple() {
    let mut constellation = VecConstellation::new(1);
    let points: Vec<_> = vec![to_bits(&[1.0]), to_bits(&[2.0])];
    constellation.add_points(points);
    assert_eq!(constellation.count(), 2);
}

#[test]
fn vec_test_query() {
    let mut constellation = VecConstellation::new(1);
    constellation.add_points(vec![to_bits(&[2.0])]);
    let items = find(&constellation, &[1.0], 1.0);
    assert_eq!(items, vec![(1.0, vec![2.0])]);
}

#[test]
fn test_query_missing() {
    let mut constellation = VecConstellation::new(1);
    constellation.add_points(vec![to_bits(&[2.0])]);
    let items = find(&constellation, &[1.0], 0.99);
    assert_eq!(items, vec![]);
}

#[test]
fn fresh_store_is_empty_for_every_catalog_entry() {
    let sizes = vec![
        SupportedSize::D2,
        SupportedSize::D6,
        SupportedSize::D16,
        SupportedSize::D32,
        SupportedSize::D64,
        SupportedSize::D128,
    ];
    let dims = vec![2usize, 6, 16, 32, 64, 128];
    for (size, dim) in sizes.into_iter().zip(dims.into_iter()) {
        let store = ConstellationBuilder::new(size).build();
        assert_eq!(store.count(), 0);
        assert_eq!(store.dimensions(), dim);
        assert_eq!(store.memory_size(), 0);
    }
}

#[test]
fn builder_from_size() {
    let builder = ConstellationBuilder::from(SupportedSize::D6);
    assert_eq!(builder.build().dimensions(), 6);
}

#[test]
fn count_grows_by_batch_len() {
    let mut store = VecConstellation::new(2);
    assert_eq!(store.count(), 0);
    store.add_points(vec![to_bits(&[0.0, 0.0]), to_bits(&[1.0, 1.0])]);
    assert_eq!(store.count(), 2);
    store.add_points(vec![to_bits(&[2.0, 2.0])]);
    assert_eq!(store.count(), 3);
    store.add_points(vec![]);
    assert_eq!(store.count(), 3);
}

#[test]
fn memory_size_counts_every_coordinate() {
    let mut store = VecConstellation::new(2);
    assert_eq!(store.memory_size(), 0);
    store.add_points(vec![to_bits(&[1.5, -2.5]), to_bits(&[0.0, 4.0])]);
    // two points of two 4-byte coordinates each
    assert_eq!(store.memory_size(), 16);
}

/// Batches landing one after the other, as the store's writer lock would
/// serialize concurrent callers, leave a count equal to the sum of the batch
/// sizes, and a scan that matches everything reports each point exactly once.
#[test]
fn serialized_batches_and_full_scan() {
    let mut store = VecConstellation::new(1);
    let batches: Vec<Vec<Vec<u32>>> = vec![
        vec![to_bits(&[0.0]), to_bits(&[1.0])],
        vec![to_bits(&[10.0])],
        vec![to_bits(&[20.0]), to_bits(&[21.0]), to_bits(&[22.0])],
    ];
    let total: usize = batches.iter().map(|b| b.len()).sum();
    for batch in batches {
        store.add_points(batch);
    }
    assert_eq!(store.count(), total);
    let items = find(&store, &[0.0], f32::MAX);
    assert_eq!(items.len(), total);
    let mut seen: Vec<f32> = items.iter().map(|(_, p)| p[0]).collect();
    seen.sort_by(|a, b| a.partial_cmp(b).unwrap());
    assert_eq!(seen, vec![0.0, 1.0, 10.0, 20.0, 21.0, 22.0]);
}

#[test]
fn reported_distance_is_the_computed_one() {
    let mut store = VecConstellation::new(2);
    store.add_points(vec![to_bits(&[3.0, 4.0])]);
    // squared distance from the origin is 25, within a threshold of 25
    let items = find(&store, &[0.0, 0.0], 25.0);
    assert_eq!(items, vec![(25.0, vec![3.0, 4.0])]);
}
