use chunk_world::coords::{ChunkCoords, Point};
use chunk_world::data_map::DataMap;
use chunk_world::directions::Direction;
use chunk_world::light::{convert_color, LightDefinition, LightsMapProducer};
use chunk_world::light_sim::{run_lights_simulation, simulate_directions_step, Energy, LightingBuffers};
use chunk_world::passability::{Passability, PassabilityProducer};
use chunk_world::pbr_cell::{PbrCell, PbrCellProducer};
use chunk_world::producer::MapDataProducer;

const MAX: i32 = i32::MAX;

#[test]
fn convert_color_examples() {
    assert_eq!(convert_color([0, 0, 0]), [0, 0, 0, 255]);
    assert_eq!(convert_color([MAX, MAX, MAX]), [255, 255, 255, 255]);
    let mid = convert_color([MAX / 2, MAX / 4, -100]);
    assert_eq!(mid, [189, 131, 0, 255]);
}

#[test]
fn light_from_rgb_uses_log_scale() {
    let l = LightDefinition::from([0u8, 255, 1]);
    assert_eq!(l.color, [0, MAX, 268435456]);
    let opaque = LightDefinition::from([10u8, 20, 30, 255]);
    assert_eq!(opaque, LightDefinition::from([10u8, 20, 30]));
    let clear = LightDefinition::from([10u8, 20, 30, 0]);
    assert_eq!(clear.color, [0, 0, 0]);
}

#[test]
fn set_color_rgba_scales_by_alpha() {
    let mut l = LightDefinition { color: [1, 2, 3] };
    l.set_color_rgba([255, 0, 3, 51]);
    // 51 / 255 of each channel's scale value, rounded.
    assert_eq!(l.color, [429496729, 0, 107374182]);
}

#[test]
fn direction_neighbours() {
    assert_eq!(Direction::N.get_next_from(10, 10), [(10, 9), (10, 9)]);
    assert_eq!(Direction::E.get_next_from(10, 10), [(11, 10), (11, 10)]);
    assert_eq!(Direction::NE.get_next_from(10, 10), [(10, 9), (11, 10)]);
    assert_eq!(Direction::SW.get_next_from(10, 10), [(10, 11), (9, 10)]);
    assert_eq!(Direction::N.get_next_from(0, 0), [(0, 0), (0, 0)]);
    assert_eq!(Direction::N.get_direct_next_point(10, 10), (10, 9));
    assert_eq!(Direction::NE.get_direct_next_point(10, 10), (11, 9));
    assert_eq!(Direction::NW.get_direct_next_point(0, 0), (0, 0));
}

#[test]
fn direction_kinds_and_indices() {
    assert!(Direction::N.is_orthogonal());
    assert!(!Direction::NE.is_orthogonal());
    assert!(Direction::NE.is_diagonal());
    assert!(!Direction::E.is_diagonal());
    assert_eq!(Direction::N.orthogonal_components(), (Some(Direction::N), None));
    assert_eq!(Direction::NE.orthogonal_components(), (Some(Direction::N), Some(Direction::E)));
    for (i, d) in Direction::ALL.iter().enumerate() {
        assert_eq!(d.index(), i);
        assert_eq!(Direction::try_from_index(i), Some(*d));
    }
    assert_eq!(Direction::try_from_index(8), None);
}

fn lit(size: usize, at: usize, e: Energy) -> Vec<Vec<Energy>> {
    let dark = Energy { r: 0, g: 0, b: 0 };
    let mut b = vec![vec![dark; size * size]; 8];
    for d in 0..8 {
        b[d][at] = e;
    }
    b
}

#[test]
fn sub_cutoff_energy_does_not_spread() {
    let size = 4;
    let read = lit(size, 1 * size + 1, Energy { r: 3, g: 3, b: 3 });
    let mut write = lit(size, 0, Energy { r: 0, g: 0, b: 0 });
    let absorption = vec![0u16; size * size];
    simulate_directions_step(&read, &mut write, &absorption, size, 10);
    assert!(write.iter().all(|buf| buf.iter().all(|e| *e == Energy { r: 0, g: 0, b: 0 })));
}

#[test]
fn energy_moves_one_tile_per_step() {
    let size = 4;
    let e = Energy { r: 1000, g: 0, b: 10 };
    let read = lit(size, 2 * size + 1, e);
    let mut write = lit(size, 0, Energy { r: 0, g: 0, b: 0 });
    let absorption = vec![100u16; size * size];
    simulate_directions_step(&read, &mut write, &absorption, size, 1);
    let n = Direction::N.index();
    assert_eq!(write[n][2 * size + 1], Energy { r: 900, g: 0, b: 9 });
    assert_eq!(write[n][1 * size + 1], Energy { r: 900, g: 0, b: 9 });
    assert_eq!(write[n][3 * size + 1], Energy { r: 0, g: 0, b: 0 });
    let ne = Direction::NE.index();
    assert_eq!(write[ne][1 * size + 1], Energy { r: 450, g: 0, b: 4 });
    assert_eq!(write[ne][2 * size + 2], Energy { r: 450, g: 0, b: 4 });
    assert_eq!(write[ne][1 * size + 2], Energy { r: 0, g: 0, b: 0 });
    // A full absorber passes nothing on.
    let wall = vec![1000u16; size * size];
    let mut write = lit(size, 0, Energy { r: 0, g: 0, b: 0 });
    simulate_directions_step(&read, &mut write, &wall, size, 1);
    assert!(write.iter().all(|buf| buf.iter().all(|e| *e == Energy { r: 0, g: 0, b: 0 })));
}

#[test]
fn energy_leaving_the_window_is_dropped() {
    let size = 2;
    let e = Energy { r: 100, g: 100, b: 100 };
    let read = lit(size, 0, e);
    let mut write = lit(size, 0, Energy { r: 0, g: 0, b: 0 });
    let absorption = vec![0u16; size * size];
    simulate_directions_step(&read, &mut write, &absorption, size, 1);
    let n = Direction::N.index();
    assert_eq!(write[n][0], e);
    assert_eq!(write[n][1], Energy { r: 0, g: 0, b: 0 });
    assert_eq!(write[n][2], Energy { r: 0, g: 0, b: 0 });
    let s = Direction::S.index();
    assert_eq!(write[s][2], e);
}

#[test]
fn buffers_swap_and_darken() {
    let mut b = LightingBuffers::new();
    assert!(!b.initialized);
    b.init(3);
    assert!(b.initialized);
    assert_eq!(b.read.len(), 8);
    b.write[0][4] = Energy { r: 1, g: 2, b: 3 };
    b.swap_buffers_clear_write();
    assert_eq!(b.read[0][4], Energy { r: 1, g: 2, b: 3 });
    assert_eq!(b.write[0][4], Energy { r: 0, g: 0, b: 0 });
}

#[test]
fn lights_simulation_reads_maps_without_requests() {
    let mut lights = DataMap::new(LightsMapProducer, 16, 1);
    let mut pbr = DataMap::new(PbrCellProducer, 16, 1);
    lights.get(Point::new(0, 0));
    pbr.get(Point::new(0, 0));
    for c in lights.spawn_requested() {
        let chunk = lights.producer().generate_chunk(c, 16);
        assert!(lights.complete_chunk(c, chunk));
    }
    for c in pbr.spawn_requested() {
        let chunk = pbr.producer().generate_chunk(c, 16);
        assert!(pbr.complete_chunk(c, chunk));
    }
    let mut buffers = LightingBuffers::new();
    run_lights_simulation(&mut buffers, &lights, &pbr, Point::new(-2, -2), 4, 0, 1);
    let e = Direction::E.index();
    // Window tile (2, 2) is world tile (0, 0), an emitter.
    let lime = LightDefinition::from([50u8, 205, 50]).color;
    assert_eq!(buffers.read[e][2 * 4 + 2], Energy { r: lime[0] as u64, g: lime[1] as u64, b: lime[2] as u64 });
    assert_eq!(buffers.read[e][0], Energy { r: 0, g: 0, b: 0 });
    run_lights_simulation(&mut buffers, &lights, &pbr, Point::new(-2, -2), 4, 1, 1);
    assert!(buffers.read[e][3 * 4 + 3].r > 0);
    assert!(lights.requested_chunk_coords().is_empty());
    assert!(pbr.requested_chunk_coords().is_empty());
}

#[test]
fn lights_producer_places_emitters_near_origin() {
    let chunk = LightsMapProducer.generate_chunk(ChunkCoords { x: 0, y: 0 }, 16);
    assert!(chunk.grid.get_item(2, 2).unwrap().undirected_lights.is_some());
    assert!(chunk.grid.get_item(3, 0).unwrap().undirected_lights.is_none());
    let west = LightsMapProducer.generate_chunk(ChunkCoords { x: -1, y: -1 }, 16);
    assert!(west.grid.get_item(15, 15).unwrap().undirected_lights.is_some());
    assert!(west.grid.get_item(0, 0).unwrap().undirected_lights.is_none());
    assert!(LightsMapProducer.default_value().undirected_lights.is_none());
}

#[test]
fn passability_falls_off_with_distance() {
    let chunk = PassabilityProducer.generate_chunk(ChunkCoords { x: 0, y: 0 }, 32);
    assert_eq!(chunk.grid.get_item(0, 0), Some(&Passability(255)));
    assert_eq!(chunk.grid.get_item(10, 0), Some(&Passability(255)));
    assert_eq!(chunk.grid.get_item(11, 0), Some(&Passability(254)));
    assert_eq!(chunk.grid.get_item(15, 0), Some(&Passability(252)));
    assert_eq!(chunk.grid.get_item(19, 0), Some(&Passability(250)));
    assert_eq!(chunk.grid.get_item(20, 0), Some(&Passability(0)));
    assert_eq!(PassabilityProducer.default_value(), Passability::impassable());
    assert_eq!(Passability::free(), Passability(255));
    let far = PassabilityProducer.generate_chunk(ChunkCoords { x: isize::MIN / 16, y: 3 }, 16);
    assert_eq!(far.grid.get_item(0, 0), Some(&Passability(0)));
}

#[test]
fn material_presets() {
    assert_eq!(PbrCell::default().absorption, 100);
    assert_eq!(PbrCell::solid_wall().absorption, 1000);
    assert_eq!(PbrCell::reflective_wall().absorption, 0);
    assert!(PbrCell::semi_transparent_glass().transparent);
    assert_eq!(PbrCell::medium_fog().scattering, 700);
    assert_eq!(PbrCell::heavy_fog().absorption, 400);
    assert_eq!(PbrCellProducer.default_value(), PbrCell::default());
}

#[test]
fn rgba_of_light_inverts_the_scale() {
    assert_eq!(LightDefinition::from([10u8, 200, 255]).get_color_rgba(), [10, 200, 255, 255]);
    assert_eq!(LightDefinition::from([0u8, 0, 0]).get_color_rgba(), [0, 0, 0, 0]);
    assert_eq!(LightDefinition { color: [-5, MAX / 2, 0] }.get_color_rgba(), [0, 255, 0, 127]);
    let dim = LightDefinition::from([40u8, 80, 160, 128]);
    assert_eq!(dim.get_color_rgba()[3], 117);
}

#[test]
fn light_definition_defaults_to_dark() {
    assert_eq!(LightDefinition::default().color, [0, 0, 0]);
}
