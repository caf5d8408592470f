//! Tests of the collection registry and of the catalog it dispatches on.

use constellation::sky::{Sky, SkyError};
use constellation::SupportedSize;

fn to_bits(values: &[f32]) -> Vec<u32> {
    values.iter().map(|v| v.to_bits()).collect()
}

fn from_bits(words: &[u32]) -> Vec<f32> {
    words.iter().map(|w| f32::from_bits(*w)).collect()
}

fn distance_squared(a: &[f32], b: &[f32]) -> f32 {
    a.iter().zip(b.iter()).map(|(x, y)| (x - y) * (x - y)).sum()
}

/// Resolves the query against the registry and scans the resolved store,
/// playing the arithmetic collaborator with plain floating-point math.
fn query(
    sky: &Sky,
    name: &str,
    radius_squared: f32,
    values: Vec<f32>,
) -> Result<Vec<(f32, Vec<f32>)>, SkyError> {
    let store = sky.query(name.to_string(), &to_bits(&values))?;
    let verdicts: Vec<Option<u32>> = store
        .points()
        .iter()
        .map(|p| {
            let d = distance_squared(&from_bits(p), &values);
            if d <= radius_squared {
                Some(d.to_bits())
            } else {
                None
            }
        })
        .collect();
    Ok(store
        .find_matches(&verdicts)
        .iter()
        .map(|(d, p)| (f32::from_bits(*d), from_bits(p)))
        .collect())
}

#[test]
fn test_add() {
    let mut sky = Sky::default();
    sky.add("hello".into(), to_bits(&[1.0, 2.0, 3.0, 4.0, 5.0, 6.0]))
        .unwrap();
}

#[test]
fn sky_test_query() {
    let values = vec![1.0, 2.0, 3.0, 4.0, 5.0, 6.0];
    let mut sky = Sky::default();
    sky.add("hello".into(), to_bits(&values)).unwrap();
    let items = query(&sky, "hello", 0.0, values.clone()).unwrap();
    assert_eq!(items, vec![(0.0, values)]);
}

/// Round trip at every supported dimensionality: one add, then a query for
/// the very same vector, yields exactly that vector at distance zero.
#[test]
fn round_trip_every_supported_length() {
    for dim in [2usize, 6, 16, 32, 64, 128] {
        let values: Vec<f32> = (0..dim).map(|i| i as f32 * 0.5).collect();
        let mut sky = Sky::default();
        sky.add("stars".into(), to_bits(&values)).unwrap();
        let items = query(&sky, "stars", 0.0, values.clone()).unwrap();
        assert_eq!(items, vec![(0.0, values)]);
    }
}

#[test]
fn unsupported_length_is_rejected() {
    let mut sky = Sky::default();
    let r = sky.add("x".into(), to_bits(&[1.0, 2.0, 3.0]));
    assert!(matches!(r, Err(SkyError::InvalidSize(3))));
    let r = query(&sky, "x", 1.0, vec![1.0, 2.0, 3.0]);
    assert!(matches!(r, Err(SkyError::InvalidSize(3))));
    // the failed query must not have created a store under that name
    let r = query(&sky, "x", 1.0, vec![0.0, 0.0]);
    assert!(matches!(r, Err(SkyError::NotFound(_, 2))));
}

#[test]
fn missing_collection_is_not_found() {
    let sky = Sky::default();
    let r = query(&sky, "nonexistent", 1.0, vec![0.0, 0.0]);
    match r {
        Err(SkyError::NotFound(name, len)) => {
            assert_eq!(name, "nonexistent");
            assert_eq!(len, 2);
        },
        _ => panic!("expected NotFound"),
    }
}

#[test]
fn collections_are_partitioned_by_name_and_length() {
    let mut sky = Sky::default();
    sky.add("a".into(), to_bits(&[1.0, 1.0])).unwrap();
    sky.add("a".into(), to_bits(&[2.0, 2.0])).unwrap();
    // same name, different dimensionality: a separate collection
    sky.add("a".into(), to_bits(&[9.0, 9.0, 9.0, 9.0, 9.0, 9.0]))
        .unwrap();
    sky.add("b".into(), to_bits(&[3.0, 3.0])).unwrap();
    let items = query(&sky, "a", f32::MAX, vec![0.0, 0.0]).unwrap();
    assert_eq!(items.len(), 2);
    let items = query(&sky, "b", f32::MAX, vec![0.0, 0.0]).unwrap();
    assert_eq!(items, vec![(18.0, vec![3.0, 3.0])]);
    let items = query(&sky, "a", f32::MAX, vec![0.0; 6]).unwrap();
    assert_eq!(items, vec![(486.0, vec![9.0; 6])]);
}

#[test]
fn catalog_lists_its_choices() {
    assert_eq!(
        SupportedSize::possible_choices(),
        vec![2usize, 6, 16, 32, 64, 128]
    );
}

#[test]
fn catalog_accepts_exactly_the_supported_lengths() {
    let supported = [2usize, 6, 16, 32, 64, 128];
    for len in 0usize..200 {
        let entry = SupportedSize::try_from_len(len);
        if supported.contains(&len) {
            let size = entry.expect("supported length refused");
            assert_eq!(size.dimensions(), len);
        } else {
            assert!(entry.is_none());
        }
    }
}
