use shooting_range::markers::MarkerTable;

#[test]
fn upsert_new_marker_creates_one_row() {
    let mut table = MarkerTable::new();
    let row = table.upsert_distance_marker(5, 2500);
    assert_eq!(table.len(), 1);
    assert_eq!(row.marker_number, 5);
    assert_eq!(row.distance, 2500);
    assert!(row.id.is_some());
}

#[test]
fn upsert_existing_marker_updates_in_place() {
    let mut table = MarkerTable::new();
    let first = table.upsert_distance_marker(5, 2500);
    let second = table.upsert_distance_marker(5, 7500);
    // Updated in place: same row (same id), new distance, no duplicate.
    assert_eq!(table.len(), 1);
    assert_eq!(second.id, first.id);
    assert_eq!(second.marker_number, 5);
    assert_eq!(second.distance, 7500);
    let rows = table.get_distance_markers();
    assert_eq!(rows.len(), 1);
    assert_eq!(rows[0].distance, 7500);
}

#[test]
fn upsert_distinct_markers_each_create_a_row() {
    let mut table = MarkerTable::new();
    table.upsert_distance_marker(5, 2500);
    table.upsert_distance_marker(10, 5000);
    assert_eq!(table.len(), 2);
}

#[test]
fn markers_listed_in_marker_number_order() {
    let mut table = MarkerTable::new();
    table.upsert_distance_marker(30, 300);
    table.upsert_distance_marker(10, 100);
    table.upsert_distance_marker(20, 200);
    let rows = table.get_distance_markers();
    let numbers: Vec<i32> = rows.iter().map(|r| r.marker_number).collect();
    assert_eq!(numbers, vec![10, 20, 30]);
    let distances: Vec<u64> = rows.iter().map(|r| r.distance).collect();
    assert_eq!(distances, vec![100, 200, 300]);
}
