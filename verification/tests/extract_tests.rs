use fast_surface_nets::ndshape::{RuntimeShape, Shape};
use fast_surface_nets::{surface_nets, SurfaceNetsBuffer};
use voxel_dig::coords::Pos3;
use voxel_dig::extract::SampleField;
use voxel_dig::grid::VoxelSim;
use voxel_dig::voxel::Voxel;

fn pos(x: i32, y: i32, z: i32) -> Pos3 {
    Pos3 { x, y, z }
}

/// Maps an occupancy field to signed distances and contours it, as the
/// render pass does.
fn contour(field: &SampleField) -> SurfaceNetsBuffer {
    let dims = [field.dims.x as u32, field.dims.y as u32, field.dims.z as u32];
    let shape = RuntimeShape::<u32, 3>::new(dims);
    let sdf: Vec<f32> = field
        .inside
        .iter()
        .map(|&inside| if inside { -0.5f32 } else { 0.5f32 })
        .collect();
    let max = [dims[0] - 1, dims[1] - 1, dims[2] - 1];
    let mut buffer = SurfaceNetsBuffer::default();
    surface_nets(&sdf, &shape, [0; 3], max, &mut buffer);
    buffer
}

#[test]
fn sample_covers_sand_then_dirt() {
    let sim = VoxelSim::new(pos(2, 2, 2));
    let fields = sim.sample();
    assert_eq!(fields.len(), 2);
    assert_eq!(fields[0].0, Voxel::Sand);
    assert_eq!(fields[1].0, Voxel::Dirt);
    for (_, field) in &fields {
        assert_eq!(field.dims, pos(5, 5, 5));
        assert_eq!(field.inside.len(), 125);
    }
}

#[test]
fn field_is_padded_and_x_fastest() {
    // One dirt cell at the origin of a 1x1x1 grid: the 4x4x4 padded field
    // holds exactly one inside entry, at position (1,1,1), linearized
    // x-fastest: 1 + 1*4 + 1*16.
    let mut sim = VoxelSim::new(pos(1, 1, 1));
    sim.set(pos(0, 0, 0), Voxel::Dirt);
    let fields = sim.sample();
    let dirt = &fields[1].1;
    assert_eq!(dirt.dims, pos(4, 4, 4));
    for (i, &inside) in dirt.inside.iter().enumerate() {
        assert_eq!(inside, i == 21, "field index {i}");
    }
}

#[test]
fn extraction_of_an_all_air_grid_is_empty() {
    let sim = VoxelSim::new(pos(3, 3, 3));
    let (air, total) = sim.air_ratio();
    assert_eq!(air, total);
    for (_, field) in &sim.sample() {
        assert!(field.inside.iter().all(|&inside| !inside));
        let buffer = contour(field);
        assert!(buffer.positions.is_empty());
        assert!(buffer.indices.is_empty());
    }
}

#[test]
fn extraction_of_a_solid_block_is_not_empty() {
    let sim = VoxelSim::new_filled(pos(2, 2, 2), Voxel::Dirt);
    let fields = sim.sample();
    let sand = contour(&fields[0].1);
    assert!(sand.positions.is_empty(), "no sand in the volume");
    let dirt = contour(&fields[1].1);
    assert!(!dirt.positions.is_empty());
    assert!(!dirt.indices.is_empty());
    assert_eq!(dirt.indices.len() % 3, 0, "triangle list");
}
