use voxel_dig::coords::Pos3;
use voxel_dig::dirty::DirtyBuffer;
use voxel_dig::grid::VoxelSim;
use voxel_dig::voxel::Voxel;

fn pos(x: i32, y: i32, z: i32) -> Pos3 {
    Pos3 { x, y, z }
}

/// Runs relaxation passes until a pass makes no move, with a safety bound.
fn settle(sim: &mut VoxelSim, dirty: &mut DirtyBuffer) -> usize {
    let mut ticks = 0;
    while sim.any_modified() {
        sim.simulate(dirty);
        ticks += 1;
        assert!(ticks < 10_000, "automaton failed to quiesce");
    }
    ticks
}

#[test]
fn suspended_column_falls_one_cell_per_tick() {
    // A 1x8x1 shaft: a column of three dirt cells suspended above the floor.
    let mut sim = VoxelSim::new(pos(1, 8, 1));
    let mut dirty = DirtyBuffer::new(pos(1, 8, 1));
    for y in 3..6 {
        sim.set(pos(0, y, 0), Voxel::Dirt);
    }
    // Each tick moves the whole column down one cell.
    for step in 1..=3 {
        sim.simulate(&mut dirty);
        for y in 0..8 {
            let expected = if (3 - step..6 - step).contains(&y) {
                Voxel::Dirt
            } else {
                Voxel::Air
            };
            assert_eq!(sim.get(pos(0, y, 0)), Some(expected), "tick {step}, y {y}");
        }
    }
    // Resting on the floor: further ticks produce no modified cells.
    assert!(sim.any_modified());
    sim.simulate(&mut dirty);
    assert!(!sim.any_modified());
    let before = sim.take_needs_remesh();
    assert!(before);
    sim.simulate(&mut dirty);
    assert!(!sim.any_modified());
    assert!(!sim.take_needs_remesh());
}

#[test]
fn barrier_and_air_never_move() {
    let mut sim = VoxelSim::new(pos(1, 4, 1));
    let mut dirty = DirtyBuffer::new(pos(1, 4, 1));
    sim.set(pos(0, 2, 0), Voxel::Barrier);
    settle(&mut sim, &mut dirty);
    assert_eq!(sim.get(pos(0, 2, 0)), Some(Voxel::Barrier));
    assert_eq!(sim.get(pos(0, 0, 0)), Some(Voxel::Air));
}

#[test]
fn diagonal_spread_takes_first_open_slot() {
    // A 3x3x1 slab with a tower of three dirt cells at x == 1. The top cell
    // cannot fall straight down; its first diagonal slot in scan order,
    // (-1, -2, 0), is open.
    let mut sim = VoxelSim::new(pos(3, 3, 1));
    let mut dirty = DirtyBuffer::new(pos(3, 3, 1));
    sim.set(pos(1, 0, 0), Voxel::Dirt);
    sim.set(pos(1, 1, 0), Voxel::Dirt);
    sim.set(pos(1, 2, 0), Voxel::Dirt);
    sim.simulate(&mut dirty);
    assert_eq!(sim.get(pos(1, 2, 0)), Some(Voxel::Air), "top cell moved");
    assert_eq!(sim.get(pos(0, 0, 0)), Some(Voxel::Dirt), "into the -x slot");
    assert_eq!(sim.get(pos(1, 0, 0)), Some(Voxel::Dirt));
    assert_eq!(sim.get(pos(1, 1, 0)), Some(Voxel::Dirt));
}

#[test]
fn diagonal_spread_scans_minus_x_plus_x_minus_z_plus_z() {
    // Same tower, but the -x slot is blocked: the +x slot is taken instead.
    let mut sim = VoxelSim::new(pos(3, 3, 3));
    let mut dirty = DirtyBuffer::new(pos(3, 3, 3));
    sim.set(pos(1, 0, 1), Voxel::Dirt);
    sim.set(pos(1, 1, 1), Voxel::Dirt);
    sim.set(pos(1, 2, 1), Voxel::Dirt);
    sim.set(pos(0, 0, 1), Voxel::Barrier);
    sim.simulate(&mut dirty);
    assert_eq!(sim.get(pos(1, 2, 1)), Some(Voxel::Air));
    assert_eq!(sim.get(pos(2, 0, 1)), Some(Voxel::Dirt), "into the +x slot");
}

#[test]
fn material_is_conserved_while_settling() {
    let mut sim = VoxelSim::new(pos(4, 6, 4));
    let mut dirty = DirtyBuffer::new(pos(4, 6, 4));
    // A loose clump in the air.
    sim.set(pos(1, 4, 1), Voxel::Dirt);
    sim.set(pos(2, 4, 1), Voxel::Sand);
    sim.set(pos(1, 5, 2), Voxel::Dirt);
    settle(&mut sim, &mut dirty);
    let mut dirt = 0;
    let mut sand = 0;
    for x in 0..4 {
        for y in 0..6 {
            for z in 0..4 {
                match sim.get(pos(x, y, z)).unwrap() {
                    Voxel::Dirt => dirt += 1,
                    Voxel::Sand => sand += 1,
                    _ => {}
                }
            }
        }
    }
    assert_eq!((dirt, sand), (2, 1));
}

#[test]
fn dig_then_settle_leaves_no_unsupported_dirt() {
    // A 4x4x4 grid fully filled with dirt; dig radius 1 at the horizontal
    // center of the top layer, then run the automaton until quiescent.
    let mut sim = VoxelSim::new_filled(pos(4, 4, 4), Voxel::Dirt);
    let mut dirty = DirtyBuffer::new(pos(4, 4, 4));
    sim.set_region(pos(2, 3, 2), 1, Voxel::Air);
    settle(&mut sim, &mut dirty);
    for x in 0..4 {
        for y in 1..4 {
            for z in 0..4 {
                if sim.get(pos(x, y, z)) == Some(Voxel::Dirt) {
                    assert_ne!(
                        sim.get(pos(x, y - 1, z)),
                        Some(Voxel::Air),
                        "dirt at ({x},{y},{z}) rests on air"
                    );
                }
            }
        }
    }
}
