use chunk_world::coords::{floor_div_exec, floor_mod_exec, local_from_tile, ChunkCoords, Point};
use chunk_world::grid::FlatGrid;
use chunk_world::table::CoordMap;

#[test]
fn negative_tiles_floor_into_their_chunk() {
    assert_eq!(ChunkCoords::from_point(Point::new(-1, -1), 16), ChunkCoords { x: -1, y: -1 });
    assert_eq!(local_from_tile(Point::new(-1, -1), 16), (15, 15));
    assert_eq!(ChunkCoords::from_point(Point::new(-16, -17), 16), ChunkCoords { x: -1, y: -2 });
    assert_eq!(local_from_tile(Point::new(-16, -17), 16), (0, 15));
    assert_eq!(ChunkCoords::from_point(Point::new(17, 3), 16), ChunkCoords { x: 1, y: 0 });
    assert_eq!(local_from_tile(Point::new(17, 3), 16), (1, 3));
}

#[test]
fn tiles_lie_inside_their_chunk_box() {
    for d in [1usize, 3, 16] {
        for v in -40isize..40 {
            let p = Point::new(v, -v);
            let c = ChunkCoords::from_point(p, d);
            let corner = c.to_bottom_left_tile_point(d);
            let (lx, ly) = local_from_tile(p, d);
            assert!(corner.x <= p.x && p.x < corner.x + d as isize);
            assert!(corner.y <= p.y && p.y < corner.y + d as isize);
            assert_eq!(corner.x + lx as isize, p.x);
            assert_eq!(corner.y + ly as isize, p.y);
        }
    }
}

#[test]
fn floor_division_and_remainder() {
    assert_eq!(floor_div_exec(-7, 2), -4);
    assert_eq!(floor_mod_exec(-7, 2), 1);
    assert_eq!(floor_div_exec(7, 2), 3);
    assert_eq!(floor_mod_exec(isize::MIN, 3), 1);
    assert_eq!(floor_div_exec(isize::MIN, 1), isize::MIN);
}

#[test]
fn bottom_left_corner_of_chunk() {
    assert_eq!(ChunkCoords { x: -2, y: 3 }.to_bottom_left_tile_point(16), Point::new(-32, 48));
}

#[test]
fn point_arithmetic() {
    assert_eq!(Point::new(1, 2).add(Point::new(3, -5)), Point::new(4, -3));
    assert_eq!(Point::new(1, 2).sub(Point::new(3, -5)), Point::new(-2, 7));
}

#[test]
fn grid_bounds_and_corners() {
    let mut g = FlatGrid::new(4, 0u8);
    assert_eq!(g.dimension(), 4);
    assert_eq!(g.cell_count(), 16);
    for (x, y) in [(0, 0), (3, 0), (0, 3), (3, 3), (1, 2)] {
        assert!(g.set_item(x, y, (10 * y + x) as u8));
    }
    assert!(!g.set_item(4, 0, 9));
    assert!(!g.set_item(0, 4, 9));
    assert_eq!(g.get_item(3, 3), Some(&33));
    assert_eq!(g.get_item(1, 2), Some(&21));
    assert_eq!(g.get_item(2, 1), Some(&0));
    assert_eq!(g.get_item(4, 4), None);
    assert_eq!(g.as_slice()[3 * 4 + 3], 33);
    if let Some(v) = g.get_item_mut(2, 2) {
        *v = 5;
    }
    assert_eq!(g.get_item(2, 2), Some(&5));
    assert!(g.get_item_mut(0, 9).is_none());
    g.as_mut_slice()[0] = 1;
    assert_eq!(g.get_item(0, 0), Some(&1));
    let h = FlatGrid::from_cells(2, vec![1u8, 2, 3, 4]);
    assert_eq!(h.get_item(1, 1), Some(&4));
}

#[test]
fn coord_map_insert_replace_remove() {
    use_coord_map();
}

fn use_coord_map() {
    let mut m: CoordMap<u32> = CoordMap::new();
    assert_eq!(m.len(), 0);
    m.insert((1, -1), 10);
    m.insert((2, 5), 20);
    m.insert((-7, 0), 30);
    m.insert((1, -1), 11);
    assert_eq!(m.len(), 3);
    assert_eq!(m.get((1, -1)), Some(&11));
    assert!(m.contains_key((2, 5)));
    assert_eq!(m.remove((1, -1)), Some(11));
    assert_eq!(m.remove((1, -1)), None);
    assert_eq!(m.get((1, -1)), None);
    assert_eq!(m.get((-7, 0)), Some(&30));
    assert_eq!(m.get((2, 5)), Some(&20));
    let mut keys = m.keys();
    keys.sort();
    assert_eq!(keys, vec![(-7, 0), (2, 5)]);
    assert_eq!(m.remove((-7, 0)), Some(30));
    assert_eq!(m.get((2, 5)), Some(&20));
    assert_eq!(m.len(), 1);
}
