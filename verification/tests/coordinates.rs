use geosia::coordinates::{AbsBlockPos, AbsChunkPos, Direction, InChunkPos, CHUNK_DIM, CHUNK_VOLUME};

#[test]
fn chunk_constants() {
    assert_eq!(CHUNK_DIM, 32);
    assert_eq!(CHUNK_VOLUME, 32 * 32 * 32);
}

#[test]
fn split_positive_and_negative_coordinates() {
    let p = AbsBlockPos::new(-1, 33, 0);
    let (c, i) = p.split_chunk_component();
    assert_eq!(c, AbsChunkPos::new(-1, 1, 0));
    assert_eq!(i, InChunkPos::try_new(31, 1, 0).unwrap());
    assert_eq!(p.chunk_pos(), c);
    assert_eq!(c.block_pos(i), p);
}

#[test]
fn split_at_chunk_boundaries() {
    let (c, i) = AbsBlockPos::new(-32, 31, 32).split_chunk_component();
    assert_eq!(c, AbsChunkPos::new(-1, 0, 1));
    assert_eq!(i, InChunkPos::try_new(0, 31, 0).unwrap());
}

#[test]
fn split_extreme_coordinates() {
    let p = AbsBlockPos::new(i32::MIN, i32::MAX, 0);
    let (c, i) = p.split_chunk_component();
    assert_eq!(c, AbsChunkPos::new(i32::MIN / 32, i32::MAX / 32, 0));
    assert_eq!(i, InChunkPos::try_new(0, 31, 0).unwrap());
}

#[test]
fn in_chunk_positions_outside_the_chunk_are_refused() {
    assert!(InChunkPos::try_new(0, 0, 0).is_some());
    assert!(InChunkPos::try_new(31, 31, 31).is_some());
    assert!(InChunkPos::try_new(32, 0, 0).is_none());
    assert!(InChunkPos::try_new(0, -1, 0).is_none());
}

#[test]
fn direction_offsets() {
    let p = AbsBlockPos::new(1, 2, 3);
    assert_eq!(p.direction_offset(Direction::XMinus, 1), AbsBlockPos::new(0, 2, 3));
    assert_eq!(p.direction_offset(Direction::XPlus, 1), AbsBlockPos::new(2, 2, 3));
    assert_eq!(p.direction_offset(Direction::YMinus, 2), AbsBlockPos::new(1, 0, 3));
    assert_eq!(p.direction_offset(Direction::YPlus, 1), AbsBlockPos::new(1, 3, 3));
    assert_eq!(p.direction_offset(Direction::ZMinus, 1), AbsBlockPos::new(1, 2, 2));
    assert_eq!(p.direction_offset(Direction::ZPlus, 5), AbsBlockPos::new(1, 2, 8));
}

#[test]
fn offsets_past_the_representable_range_are_detected() {
    let p = AbsBlockPos::new(i32::MAX, 0, i32::MIN);
    assert!(!p.can_offset(Direction::XPlus, 1));
    assert!(p.can_offset(Direction::XMinus, 1));
    assert!(!p.can_offset(Direction::ZMinus, 1));
    assert!(p.can_offset(Direction::YPlus, 1));
}
