use collider::id::EntityId;
use collider::spatial::{neighboring_xy, SpatialIndexEntry, SpatialIndexGridVector2D};

#[test]
fn neighbourhood_of_a_cell() {
    let cells = neighboring_xy(SpatialIndexGridVector2D(3, -2));
    assert_eq!(cells[0], SpatialIndexGridVector2D(3, -2));
    let expected = [
        SpatialIndexGridVector2D(3, -2),
        SpatialIndexGridVector2D(2, -2),
        SpatialIndexGridVector2D(4, -2),
        SpatialIndexGridVector2D(3, -3),
        SpatialIndexGridVector2D(3, -1),
        SpatialIndexGridVector2D(2, -1),
        SpatialIndexGridVector2D(4, -1),
        SpatialIndexGridVector2D(2, -3),
        SpatialIndexGridVector2D(4, -3),
    ];
    assert_eq!(cells, expected);
    for (i, a) in cells.iter().enumerate() {
        for b in cells.iter().skip(i + 1) {
            assert_ne!(a, b);
        }
    }
}

#[test]
fn entry_gives_its_entity() {
    let e = EntityId::from_index(4);
    assert_eq!(SpatialIndexEntry::InGrid(e).into_inner_entity(), e);
    assert_eq!(SpatialIndexEntry::Nearby(e, SpatialIndexGridVector2D(0, 1)).into_inner_entity(), e);
}
