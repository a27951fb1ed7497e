use chunk_world::coords::{ChunkCoords, Point};
use chunk_world::data_map::DataMap;
use chunk_world::double_buffered::DataMapDoubleBuffered;
use chunk_world::grid::{DataChunk, FlatGrid};
use chunk_world::passability::{Passability, PassabilityProducer};
use chunk_world::producer::MapDataProducer;
use chunk_world::tracker::BackgroundHypertileTracker;

fn generate_all<P: MapDataProducer>(map: &mut DataMap<P>) -> Vec<ChunkCoords> {
    let started = map.spawn_requested();
    let d = map.chunk_dimension_tiles();
    for c in &started {
        let chunk = map.producer().generate_chunk(*c, d);
        assert!(map.complete_chunk(*c, chunk));
    }
    started
}

fn sorted(mut v: Vec<ChunkCoords>) -> Vec<(isize, isize)> {
    let mut r: Vec<(isize, isize)> = v.drain(..).map(|c| (c.x, c.y)).collect();
    r.sort();
    r
}

#[test]
fn get_miss_returns_default_and_requests_chunk() {
    let mut map = DataMap::new(PassabilityProducer, 16, 3);
    assert_eq!(map.get(Point::new(-1, -1)), Passability(0));
    assert_eq!(sorted(map.requested_chunk_coords()), vec![(-1, -1)]);
    assert_eq!(map.read(Point::new(-1, -1)), None);
}

#[test]
fn repeated_get_miss_starts_one_job() {
    let mut map = DataMap::new(PassabilityProducer, 16, 3);
    for _ in 0..5 {
        assert_eq!(map.get(Point::new(3, 4)), Passability(0));
    }
    assert_eq!(map.get_option(Point::new(3, 4)), None);
    let started = map.spawn_requested();
    assert_eq!(sorted(started), vec![(0, 0)]);
    // Still generating: further misses request nothing new.
    assert_eq!(map.get(Point::new(3, 4)), Passability(0));
    assert!(map.requested_chunk_coords().is_empty());
    assert_eq!(sorted(map.pending_chunk_coords()), vec![(0, 0)]);
    assert!(map.spawn_requested().is_empty());
}

#[test]
fn generated_chunk_is_read_back() {
    let mut map = DataMap::new(PassabilityProducer, 16, 3);
    map.get(Point::new(0, 0));
    generate_all(&mut map);
    assert_eq!(map.read(Point::new(0, 0)), Some(Passability(255)));
    assert_eq!(map.get(Point::new(15, 0)), Passability(252));
    assert!(map.pending_chunk_coords().is_empty());
    assert_eq!(sorted(map.loaded_chunk_coords()), vec![(0, 0)]);
}

#[test]
fn write_before_generation_survives_merge() {
    let mut map = DataMap::new(PassabilityProducer, 16, 3);
    map.write(Point::new(5, 5), Passability(0));
    map.write(Point::new(7, 2), Passability(9));
    map.write(Point::new(7, 2), Passability(11));
    map.write(Point::new(20, 5), Passability(42));
    assert_eq!(map.read(Point::new(5, 5)), Some(Passability(0)));
    let generated = map.producer().generate_chunk(ChunkCoords { x: 0, y: 0 }, 16);
    assert_eq!(generated.grid.get_item(5, 5), Some(&Passability(255)));
    let started = map.spawn_requested();
    assert_eq!(sorted(started), vec![(0, 0), (1, 0)]);
    assert!(map.complete_chunk(ChunkCoords { x: 0, y: 0 }, generated));
    assert_eq!(map.read(Point::new(5, 5)), Some(Passability(0)));
    assert_eq!(map.read(Point::new(7, 2)), Some(Passability(11)));
    assert_eq!(map.read(Point::new(6, 5)), Some(Passability(255)));
    // The write in the other chunk stays queued until that chunk arrives.
    assert_eq!(map.read(Point::new(20, 5)), Some(Passability(42)));
    assert_eq!(map.queued_points(), vec![Point::new(20, 5)]);
}

#[test]
fn completion_leaves_no_queued_write_inside_the_chunk() {
    let mut map = DataMap::new(PassabilityProducer, 16, 3);
    for (x, y) in [(0, 0), (15, 15), (-1, 0), (16, 3), (8, -8)] {
        map.write(Point::new(x, y), Passability(1));
    }
    assert_eq!(map.queued_points().len(), 5);
    map.spawn_requested();
    let chunk = map.producer().generate_chunk(ChunkCoords { x: 0, y: 0 }, 16);
    assert!(map.complete_chunk(ChunkCoords { x: 0, y: 0 }, chunk));
    let mut left: Vec<(isize, isize)> = map.queued_points().iter().map(|p| (p.x, p.y)).collect();
    left.sort();
    assert_eq!(left, vec![(-1, 0), (8, -8), (16, 3)]);
    assert_eq!(map.read(Point::new(15, 15)), Some(Passability(1)));
}

#[test]
fn write_to_loaded_chunk_is_direct() {
    let mut map = DataMap::new(PassabilityProducer, 16, 3);
    map.get(Point::new(-3, -3));
    generate_all(&mut map);
    map.write(Point::new(-3, -3), Passability(7));
    assert_eq!(map.read(Point::new(-3, -3)), Some(Passability(7)));
    assert!(map.requested_chunk_coords().is_empty());
}

#[test]
fn init_requests_square_around_origin() {
    let mut map = DataMap::new(PassabilityProducer, 16, 3);
    map.init(20);
    // ceil(20 / 16) = 2 chunks each way.
    assert_eq!(map.requested_chunk_coords().len(), 25);
    map.init(32);
    assert_eq!(map.requested_chunk_coords().len(), 25);
    let mut small = DataMap::new(PassabilityProducer, 16, 3);
    small.init(0);
    assert_eq!(sorted(small.requested_chunk_coords()), vec![(0, 0)]);
}

#[test]
fn lifecycle_stages_stay_exclusive() {
    let mut map = DataMap::new(PassabilityProducer, 16, 1);
    map.request_around(ChunkCoords { x: 0, y: 0 });
    assert_eq!(map.requested_chunk_coords().len(), 9);
    let started = map.spawn_requested();
    assert_eq!(started.len(), 9);
    let first = started[0];
    let chunk = map.producer().generate_chunk(first, 16);
    assert!(map.complete_chunk(first, chunk));
    map.request_around(ChunkCoords { x: 1, y: 0 });
    let requested = sorted(map.requested_chunk_coords());
    let pending = sorted(map.pending_chunk_coords());
    let loaded = sorted(map.loaded_chunk_coords());
    assert_eq!(requested.len(), 3);
    assert_eq!(pending.len(), 8);
    assert_eq!(loaded.len(), 1);
    for c in &requested {
        assert!(!pending.contains(c) && !loaded.contains(c));
    }
    for c in &pending {
        assert!(!loaded.contains(c));
    }
}

#[test]
fn evicted_chunk_regenerates_same_content() {
    let mut map = DataMap::new(PassabilityProducer, 16, 1);
    map.load_unload_around(ChunkCoords { x: 0, y: 0 });
    generate_all(&mut map);
    assert_eq!(map.loaded_chunk_coords().len(), 9);
    let before: Vec<Option<Passability>> = (0..16).map(|i| map.read(Point::new(i, i))).collect();
    map.load_unload_around(ChunkCoords { x: 10, y: 10 });
    assert_eq!(map.read(Point::new(0, 0)), None);
    assert_eq!(sorted(map.loaded_chunk_coords()), Vec::<(isize, isize)>::new());
    generate_all(&mut map);
    map.load_unload_around(ChunkCoords { x: 0, y: 0 });
    assert!(map.requested_chunk_coords().iter().any(|c| c.x == 0 && c.y == 0));
    generate_all(&mut map);
    let after: Vec<Option<Passability>> = (0..16).map(|i| map.read(Point::new(i, i))).collect();
    assert_eq!(before, after);
}

#[test]
fn reveal_loader_never_evicts() {
    let mut map = DataMap::new(PassabilityProducer, 16, 0);
    map.request_around(ChunkCoords { x: 0, y: 0 });
    generate_all(&mut map);
    map.request_around(ChunkCoords { x: 5, y: 5 });
    generate_all(&mut map);
    assert_eq!(sorted(map.loaded_chunk_coords()), vec![(0, 0), (5, 5)]);
}

#[test]
fn wrong_size_chunk_is_refused() {
    let mut map = DataMap::new(PassabilityProducer, 16, 3);
    map.get(Point::new(0, 0));
    map.spawn_requested();
    let small = DataChunk { grid: FlatGrid::new(8, Passability(1)) };
    assert!(!map.complete_chunk(ChunkCoords { x: 0, y: 0 }, small));
    assert_eq!(map.read(Point::new(0, 0)), None);
    assert_eq!(sorted(map.pending_chunk_coords()), vec![(0, 0)]);
}

#[test]
fn double_buffer_hides_writes_until_swap() {
    let mut map = DataMapDoubleBuffered::new(PassabilityProducer, 16, 1);
    let origin = ChunkCoords { x: 0, y: 0 };
    map.get(Point::new(0, 0));
    for c in map.spawn_requested() {
        let chunk = map.producer().generate_chunk(c, 16);
        assert!(map.complete_chunk(c, chunk));
    }
    // Merged into the back buffer only.
    assert_eq!(map.read(Point::new(0, 0)), None);
    map.swap_buffers();
    assert_eq!(map.read(Point::new(0, 0)), Some(Passability(255)));
    // The back buffer is now the old, empty snapshot: the loader asks again.
    map.load_unload_around(origin);
    for c in map.spawn_requested() {
        let chunk = map.producer().generate_chunk(c, 16);
        assert!(map.complete_chunk(c, chunk));
    }
    map.write(Point::new(0, 0), Passability(3));
    assert_eq!(map.read(Point::new(0, 0)), Some(Passability(255)));
    assert_eq!(map.get(Point::new(0, 0)), Passability(255));
    map.swap_buffers();
    assert_eq!(map.read(Point::new(0, 0)), Some(Passability(3)));
}

#[test]
fn double_buffer_queues_writes_to_missing_chunks() {
    let mut map = DataMapDoubleBuffered::new(PassabilityProducer, 16, 1);
    map.write(Point::new(-5, 2), Passability(77));
    // Queued, not yet in the snapshot.
    assert_eq!(map.read(Point::new(-5, 2)), None);
    let started = map.spawn_requested();
    assert_eq!(sorted(started), vec![(-1, 0)]);
    let chunk = map.producer().generate_chunk(ChunkCoords { x: -1, y: 0 }, 16);
    assert!(map.complete_chunk(ChunkCoords { x: -1, y: 0 }, chunk));
    assert_eq!(map.read(Point::new(-5, 2)), None);
    assert_eq!(map.write_chunks().len(), 1);
    map.swap_buffers();
    assert_eq!(map.read(Point::new(-5, 2)), Some(Passability(77)));
    assert_eq!(map.read(Point::new(-6, 2)), Some(Passability(255)));
    assert_eq!(map.read_chunks().len(), 1);
}

#[test]
fn double_buffer_hides_queued_writes_until_swap() {
    let mut map = DataMapDoubleBuffered::new(PassabilityProducer, 16, 1);
    map.get(Point::new(0, 0));
    for c in map.spawn_requested() {
        let chunk = map.producer().generate_chunk(c, 16);
        assert!(map.complete_chunk(c, chunk));
    }
    map.swap_buffers();
    // The chunk is in the snapshot only; the back buffer is empty, so the write is queued.
    assert_eq!(map.write_chunks().len(), 0);
    map.write(Point::new(0, 0), Passability(4));
    assert_eq!(map.read(Point::new(0, 0)), Some(Passability(255)));
    assert_eq!(map.get_option(Point::new(0, 0)), Some(Passability(255)));
    map.swap_buffers();
    assert_eq!(map.read(Point::new(0, 0)), Some(Passability(4)));
}

#[test]
fn double_buffer_shows_queued_write_after_swap_before_generation() {
    let mut map = DataMapDoubleBuffered::new(PassabilityProducer, 16, 1);
    map.write(Point::new(3, 3), Passability(9));
    assert_eq!(map.read(Point::new(3, 3)), None);
    map.swap_buffers();
    assert_eq!(map.read(Point::new(3, 3)), Some(Passability(9)));
}

#[test]
fn background_tracker_requests_each_tile_once() {
    let mut t = BackgroundHypertileTracker::new();
    t.require(ChunkCoords { x: 1, y: 2 });
    t.require(ChunkCoords { x: 1, y: 2 });
    t.require(ChunkCoords { x: -3, y: 0 });
    assert_eq!(sorted(t.requested_coords()), vec![(-3, 0), (1, 2)]);
    t.mark_all_requests_as_completed();
    assert!(t.requested_coords().is_empty());
    assert!(t.is_spawned(ChunkCoords { x: 1, y: 2 }));
    t.require(ChunkCoords { x: 1, y: 2 });
    assert!(t.requested_coords().is_empty());
    t.request_again(ChunkCoords { x: 1, y: 2 });
    assert_eq!(sorted(t.requested_coords()), vec![(1, 2)]);
}
