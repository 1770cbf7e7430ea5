use milling_simulator::height_map::{HeightMap, Region};

#[test]
fn new_map_is_flat_with_no_changes() {
    let mut map = HeightMap::new((3, 9, 5), 42);
    assert_eq!(map.rows(), 3);
    assert_eq!(map.cols(), 5);
    for r in 0..3 {
        for c in 0..5 {
            assert_eq!(map.get_height((r, c)), 42);
        }
    }
    assert_eq!(map.drain_changes(), None);
}

#[test]
fn writes_are_bounded_by_the_drained_region() {
    let mut map = HeightMap::new((8, 1, 8), 100);
    map.write((2, 3), 50);
    map.write((5, 1), 60);
    map.write((4, 2), 70);
    assert_eq!(map.get_height((2, 3)), 50);
    assert_eq!(map.get_height((5, 1)), 60);
    let region = map.drain_changes();
    assert_eq!(region, Some(Region { left: 1, bottom: 2, width: 3, height: 4 }));
    assert_eq!(map.get_height((2, 3)), 50);
}

#[test]
fn second_drain_is_empty() {
    let mut map = HeightMap::new((4, 1, 4), 7);
    map.write((1, 1), 3);
    assert_eq!(map.drain_changes(), Some(Region { left: 1, bottom: 1, width: 1, height: 1 }));
    assert_eq!(map.drain_changes(), None);
    map.write((3, 0), 2);
    assert_eq!(map.drain_changes(), Some(Region { left: 0, bottom: 3, width: 1, height: 1 }));
}

#[test]
fn write_records_even_an_unchanged_value() {
    let mut map = HeightMap::new((2, 1, 2), 7);
    map.write((0, 1), 7);
    assert_eq!(map.drain_changes(), Some(Region { left: 1, bottom: 0, width: 1, height: 1 }));
}

#[test]
fn region_values_copy_the_rectangle() {
    let mut map = HeightMap::new((4, 1, 4), 9);
    map.write((1, 2), 1);
    map.write((2, 1), 2);
    let region = map.drain_changes().unwrap();
    let values = map.region_values(region);
    assert_eq!(values, vec![vec![9, 1], vec![2, 9]]);
}
