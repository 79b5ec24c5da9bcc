use voxel_dig::coords::{delinearize, in_bounds, linearize, Pos3};
use voxel_dig::grid::VoxelSim;
use voxel_dig::voxel::{Voxel, VoxelFill};

fn pos(x: i32, y: i32, z: i32) -> Pos3 {
    Pos3 { x, y, z }
}

#[test]
fn linearize_matches_formula() {
    let b = pos(4, 5, 6);
    // index = z + x * bounds.z + y * bounds.x * bounds.z
    assert_eq!(linearize(b, pos(0, 0, 0)), 0);
    assert_eq!(linearize(b, pos(1, 0, 0)), 6);
    assert_eq!(linearize(b, pos(0, 1, 0)), 24);
    assert_eq!(linearize(b, pos(0, 0, 1)), 1);
    assert_eq!(linearize(b, pos(3, 4, 5)), 5 + 3 * 6 + 4 * 4 * 6);
}

#[test]
fn delinearize_round_trips_all_cells() {
    let b = pos(3, 4, 5);
    for x in 0..3 {
        for y in 0..4 {
            for z in 0..5 {
                let p = pos(x, y, z);
                let index = linearize(b, p);
                assert_eq!(delinearize(b, index), p);
            }
        }
    }
}

#[test]
fn in_bounds_guards_every_face() {
    let b = pos(2, 3, 4);
    assert!(in_bounds(b, pos(0, 0, 0)));
    assert!(in_bounds(b, pos(1, 2, 3)));
    assert!(!in_bounds(b, pos(-1, 0, 0)));
    assert!(!in_bounds(b, pos(2, 0, 0)));
    assert!(!in_bounds(b, pos(0, -1, 0)));
    assert!(!in_bounds(b, pos(0, 3, 0)));
    assert!(!in_bounds(b, pos(0, 0, -1)));
    assert!(!in_bounds(b, pos(0, 0, 4)));
}

#[test]
fn get_out_of_bounds_is_none() {
    let sim = VoxelSim::new_filled(pos(2, 2, 2), Voxel::Dirt);
    assert_eq!(sim.get(pos(-1, 0, 0)), None);
    assert_eq!(sim.get(pos(0, 2, 0)), None);
    assert_eq!(sim.get(pos(5, 5, 5)), None);
    assert_eq!(sim.get(pos(0, 0, 0)), Some(Voxel::Dirt));
}

#[test]
fn creation_flags_first_remesh_only_when_filled() {
    // A filled volume awaits its first remesh so the initial mesh and
    // collider get built; an empty volume has nothing to mesh.
    let filled = VoxelSim::new_filled(pos(2, 2, 2), Voxel::Dirt);
    assert!(filled.needs_remesh);
    assert!(!filled.any_modified());
    let empty = VoxelSim::new(pos(2, 2, 2));
    assert!(!empty.needs_remesh);
    assert!(!empty.any_modified());
}

#[test]
fn set_out_of_bounds_leaves_grid_unchanged() {
    let mut sim = VoxelSim::new_filled(pos(2, 2, 2), Voxel::Dirt);
    sim.clear_modified();
    assert!(sim.take_needs_remesh());
    sim.set(pos(-1, 0, 0), Voxel::Air);
    sim.set(pos(0, 0, 9), Voxel::Air);
    assert!(!sim.any_modified());
    assert!(!sim.needs_remesh);
    for x in 0..2 {
        for y in 0..2 {
            for z in 0..2 {
                assert_eq!(sim.get(pos(x, y, z)), Some(Voxel::Dirt));
            }
        }
    }
}

#[test]
fn set_writes_and_flags() {
    let mut sim = VoxelSim::new(pos(3, 3, 3));
    assert!(!sim.needs_remesh);
    assert!(!sim.any_modified());
    sim.set(pos(1, 2, 0), Voxel::Sand);
    assert_eq!(sim.get(pos(1, 2, 0)), Some(Voxel::Sand));
    assert!(sim.needs_remesh);
    assert!(sim.any_modified());
    sim.clear_modified();
    assert!(!sim.any_modified());
}

#[test]
fn take_needs_remesh_reads_then_clears() {
    let mut sim = VoxelSim::new(pos(2, 2, 2));
    assert!(!sim.take_needs_remesh());
    sim.set(pos(0, 0, 0), Voxel::Dirt);
    assert!(sim.take_needs_remesh());
    assert!(!sim.take_needs_remesh());
}

#[test]
fn air_ratio_is_an_exact_fraction() {
    let mut sim = VoxelSim::new_filled(pos(2, 2, 2), Voxel::Dirt);
    assert_eq!(sim.air_ratio(), (0, 8));
    sim.set(pos(0, 0, 0), Voxel::Air);
    sim.set(pos(1, 1, 1), Voxel::Air);
    assert_eq!(sim.air_ratio(), (2, 8));
    let empty = VoxelSim::new(pos(3, 1, 1));
    assert_eq!(empty.air_ratio(), (3, 3));
}

#[test]
fn set_region_digs_a_sphere() {
    let mut sim = VoxelSim::new_filled(pos(3, 3, 3), Voxel::Dirt);
    sim.set_region(pos(1, 1, 1), 1, Voxel::Air);
    // radius 1 keeps only the center and its six face neighbors.
    let mut air = 0;
    for x in 0..3 {
        for y in 0..3 {
            for z in 0..3 {
                let d2 = (x - 1) * (x - 1) + (y - 1) * (y - 1) + (z - 1) * (z - 1);
                let expected = if d2 <= 1 { Voxel::Air } else { Voxel::Dirt };
                assert_eq!(sim.get(pos(x, y, z)), Some(expected));
                if expected == Voxel::Air {
                    air += 1;
                }
            }
        }
    }
    assert_eq!(air, 7);
    assert_eq!(sim.air_ratio(), (7, 27));
}

#[test]
fn set_region_with_negative_radius_is_a_no_op() {
    let mut sim = VoxelSim::new_filled(pos(3, 3, 3), Voxel::Dirt);
    sim.clear_modified();
    sim.take_needs_remesh();
    sim.set_region(pos(1, 1, 1), -2, Voxel::Air);
    assert_eq!(sim.air_ratio(), (0, 27));
    assert!(!sim.any_modified());
    assert!(!sim.needs_remesh);
}

#[test]
fn set_region_sq_expresses_fractional_radii() {
    // A world-space radius of 1.5 floors to radius 1 with squared
    // threshold 2: the center, its six face neighbors and its twelve edge
    // neighbors are written.
    let mut sim = VoxelSim::new_filled(pos(5, 5, 5), Voxel::Dirt);
    sim.set_region_sq(pos(2, 2, 2), 1, 2, Voxel::Air);
    let mut air = 0;
    for x in 0..5 {
        for y in 0..5 {
            for z in 0..5 {
                let d2 = (x - 2) * (x - 2) + (y - 2) * (y - 2) + (z - 2) * (z - 2);
                let expected = if d2 <= 2 { Voxel::Air } else { Voxel::Dirt };
                assert_eq!(sim.get(pos(x, y, z)), Some(expected));
                if expected == Voxel::Air {
                    air += 1;
                }
            }
        }
    }
    assert_eq!(air, 19);
}

#[test]
fn set_region_clips_to_the_volume() {
    let mut sim = VoxelSim::new_filled(pos(2, 2, 2), Voxel::Sand);
    sim.set_region(pos(0, 0, 0), 5, Voxel::Air);
    assert_eq!(sim.air_ratio(), (8, 8));
}

#[test]
fn set_region_is_idempotent() {
    let mut once = VoxelSim::new_filled(pos(4, 4, 4), Voxel::Dirt);
    once.set_region(pos(2, 2, 2), 2, Voxel::Air);
    let mut twice = VoxelSim::new_filled(pos(4, 4, 4), Voxel::Dirt);
    twice.set_region(pos(2, 2, 2), 2, Voxel::Air);
    twice.set_region(pos(2, 2, 2), 2, Voxel::Air);
    for x in 0..4 {
        for y in 0..4 {
            for z in 0..4 {
                assert_eq!(once.get(pos(x, y, z)), twice.get(pos(x, y, z)));
            }
        }
    }
}

#[test]
fn collider_positions_lists_solid_cells() {
    let mut sim = VoxelSim::new(pos(2, 2, 2));
    sim.set(pos(1, 0, 1), Voxel::Dirt);
    sim.set(pos(0, 1, 0), Voxel::Sand);
    let positions = sim.collider_positions().expect("two solid cells");
    assert_eq!(positions.len(), 2);
    assert!(positions.contains(&pos(1, 0, 1)));
    assert!(positions.contains(&pos(0, 1, 0)));
}

#[test]
fn collider_removed_when_volume_empties() {
    let mut sim = VoxelSim::new_filled(pos(2, 2, 2), Voxel::Dirt);
    assert!(sim.collider_positions().is_some());
    for x in 0..2 {
        for y in 0..2 {
            for z in 0..2 {
                sim.set(pos(x, y, z), Voxel::Air);
            }
        }
    }
    // The collision-shape interface reports "no shape", not an empty list.
    assert!(sim.collider_positions().is_none());
}

#[test]
fn voxel_fill_maps_to_materials() {
    assert_eq!(VoxelFill::Dirt.voxel(), Voxel::Dirt);
    assert_eq!(VoxelFill::Sand.voxel(), Voxel::Sand);
}
