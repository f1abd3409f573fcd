//! Meshes: surfaces from fields, trees of faces, OBJ files and simplification.
use rand::rngs::StdRng;
use rand::{Rng, SeedableRng};
use rusting_brain::bvh::{face_at, Bvh, LEAF_SIZE};
use rusting_brain::edges::ordered;
use rusting_brain::error::NetworkError;
use rusting_brain::fields::{parse_corner, parse_integer, split_rows};
use rusting_brain::glb::{Glb, BINARY_CHUNK, JSON_CHUNK, MAGIC};
use rusting_brain::gltf::Component;
use rusting_brain::json::Json;
use rusting_brain::march::{march_surface, marching_tetrahedra, GridPoint, Sample};
use rusting_brain::mesh::Mesh;
use rusting_brain::obj::pick;
use rusting_brain::queue::{Collapse, Queue};
use std::collections::HashMap;

// -- Vectors -----------------------------------------------------------------

fn minus(a: [f32; 3], b: [f32; 3]) -> [f32; 3] {
    std::array::from_fn(|axis| a[axis] - b[axis])
}

fn plus(a: [f32; 3], b: [f32; 3]) -> [f32; 3] {
    std::array::from_fn(|axis| a[axis] + b[axis])
}

fn scale(a: [f32; 3], factor: f32) -> [f32; 3] {
    std::array::from_fn(|axis| a[axis] * factor)
}

fn dot(a: [f32; 3], b: [f32; 3]) -> f32 {
    a[0] * b[0] + a[1] * b[1] + a[2] * b[2]
}

fn cross(a: [f32; 3], b: [f32; 3]) -> [f32; 3] {
    [
        a[1] * b[2] - a[2] * b[1],
        a[2] * b[0] - a[0] * b[2],
        a[0] * b[1] - a[1] * b[0],
    ]
}

fn length(a: [f32; 3]) -> f32 {
    dot(a, a).sqrt()
}

fn unit(a: [f32; 3]) -> [f32; 3] {
    let size = length(a);
    if size == 0.0 {
        [0.0; 3]
    } else {
        scale(a, 1.0 / size)
    }
}

/// A number that sorts as a coordinate does.
fn sorted_key(value: f32) -> u32 {
    let bits = value.to_bits();
    if bits >> 31 == 0 {
        bits | 0x8000_0000
    } else {
        !bits
    }
}

// -- Meshes ------------------------------------------------------------------

fn triangle(mesh: &Mesh<f32>, face: usize) -> [[f32; 3]; 3] {
    mesh.triangle(face)
}

fn bounds(mesh: &Mesh<f32>) -> ([f32; 3], [f32; 3]) {
    let mut low = [f32::INFINITY; 3];
    let mut high = [f32::NEG_INFINITY; 3];
    for position in &mesh.positions {
        for axis in 0..3 {
            low[axis] = low[axis].min(position[axis]);
            high[axis] = high[axis].max(position[axis]);
        }
    }
    (low, high)
}

fn normalize(mesh: &mut Mesh<f32>) -> ([f32; 3], f32) {
    let (low, high) = bounds(mesh);
    let center: [f32; 3] = std::array::from_fn(|axis| (low[axis] + high[axis]) / 2.0);
    let extent = (0..3).map(|axis| high[axis] - low[axis]).fold(0.0f32, f32::max);
    let factor = if extent > 0.0 { 2.0 / extent } else { 1.0 };
    for position in &mut mesh.positions {
        *position = scale(minus(*position, center), factor);
    }
    (center, factor)
}

fn face_normal([a, b, c]: [[f32; 3]; 3]) -> [f32; 3] {
    cross(minus(b, a), minus(c, a))
}

fn recompute_normals(mesh: &mut Mesh<f32>) {
    mesh.recompute_normals([0.0; 3], &face_normal, &plus, &unit);
}

fn area(mesh: &Mesh<f32>) -> f32 {
    (0..mesh.indices.len())
        .map(|face| {
            let [a, b, c] = triangle(mesh, face);
            length(cross(minus(b, a), minus(c, a))) / 2.0
        })
        .sum()
}

/// A sphere as a grid of latitudes and longitudes, wound outwards.
fn globe(radius: f32, rings: usize, segments: usize) -> Mesh<f32> {
    let mut mesh = Mesh::empty();
    for ring in 0..=rings {
        let phi = std::f32::consts::PI * ring as f32 / rings as f32;
        for segment in 0..=segments {
            let theta = std::f32::consts::TAU * segment as f32 / segments as f32;
            mesh.positions.push([
                radius * phi.sin() * theta.cos(),
                radius * phi.cos(),
                radius * phi.sin() * theta.sin(),
            ]);
        }
    }
    let stride = segments + 1;
    for ring in 0..rings {
        for segment in 0..segments {
            let a = (ring * stride + segment) as u32;
            let (b, c, d) = (a + 1, a + stride as u32, a + stride as u32 + 1);
            mesh.indices.push([a, b, c]);
            mesh.indices.push([b, d, c]);
        }
    }
    mesh
}

/// An axis-aligned box, wound outwards.
fn cube(half: f32) -> Mesh<f32> {
    let mut mesh = Mesh::empty();
    for corner in 0..8 {
        mesh.positions.push([
            if corner & 1 == 0 { -half } else { half },
            if corner & 2 == 0 { -half } else { half },
            if corner & 4 == 0 { -half } else { half },
        ]);
    }
    for face in [
        [0, 2, 1, 3],
        [4, 5, 6, 7],
        [0, 1, 4, 5],
        [2, 6, 3, 7],
        [0, 4, 2, 6],
        [1, 3, 5, 7],
    ] {
        mesh.indices.push([face[0], face[1], face[2]]);
        mesh.indices.push([face[1], face[3], face[2]]);
    }
    mesh
}

// -- Surfaces from fields ----------------------------------------------------

/// Marches a field that is asked for a plane of points at a time.
fn march(
    field: impl Fn(&[[f32; 3]]) -> Vec<f32>,
    resolution: usize,
    low: [f32; 3],
    high: [f32; 3],
    iso: f32,
) -> Result<Mesh<f32>, NetworkError> {
    let step: [f32; 3] =
        std::array::from_fn(|axis| (high[axis] - low[axis]) / (resolution - 1) as f32);
    let at = |point: GridPoint| -> [f32; 3] {
        [
            low[0] + point.x as f32 * step[0],
            low[1] + point.y as f32 * step[1],
            low[2] + point.z as f32 * step[2],
        ]
    };
    marching_tetrahedra(
        |z: usize| {
            let mut points = Vec::new();
            for y in 0..resolution {
                for x in 0..resolution {
                    points.push(at(GridPoint { x, y, z }));
                }
            }
            let values = field(&points);
            Ok(values.into_iter().map(|value| Sample { value, inside: value < iso }).collect())
        },
        |a: GridPoint, b: GridPoint, first: f32, second: f32| {
            let span = second - first;
            let t = if span == 0.0 { 0.5 } else { ((iso - first) / span).clamp(0.0, 1.0) };
            plus(at(a), scale(minus(at(b), at(a)), t))
        },
        resolution,
        [0.0; 3],
        &face_normal,
        &plus,
        &unit,
    )
}

fn sphere(resolution: usize) -> Mesh<f32> {
    march(
        |points| points.iter().map(|point| length(*point) - 0.8).collect(),
        resolution,
        [-1.0; 3],
        [1.0; 3],
        0.0,
    )
    .unwrap()
}

#[test]
fn marching_tetrahedra_puts_vertices_on_the_isosurface() {
    let mesh = march(
        |points| points.iter().map(|point| length(*point) - 0.6).collect(),
        24,
        [-1.0; 3],
        [1.0; 3],
        0.0,
    )
    .unwrap();

    assert!(!mesh.indices.is_empty());
    for position in &mesh.positions {
        assert!((length(*position) - 0.6).abs() < 0.02, "{position:?}");
    }
    assert_eq!(mesh.normals.len(), mesh.positions.len());
}

#[test]
fn the_reconstructed_surface_is_watertight() {
    let mesh = march(
        |points| {
            points
                .iter()
                .map(|point| point[0].abs().max(point[1].abs()).max(point[2].abs()) - 0.5)
                .collect()
        },
        16,
        [-1.0; 3],
        [1.0; 3],
        0.0,
    )
    .unwrap();

    let mut edges: HashMap<(u32, u32), usize> = HashMap::new();
    for face in &mesh.indices {
        for corner in 0..3 {
            let (a, b) = (face[corner], face[(corner + 1) % 3]);
            *edges.entry((a.min(b), a.max(b))).or_default() += 1;
        }
    }
    let open = edges.values().filter(|count| **count != 2).count();
    assert_eq!(open, 0, "{open} edges are not shared by two faces");
    assert!(mesh.boundary_sides().is_empty());
}

#[test]
fn a_cavity_is_as_closed_as_a_solid() {
    // The outer planes are all inside; only the ball in the middle is not.
    let mesh = march(
        |points| points.iter().map(|point| 0.5 - length(*point)).collect(),
        10,
        [-1.0; 3],
        [1.0; 3],
        0.0,
    )
    .unwrap();
    assert!(!mesh.indices.is_empty());
    assert!(mesh.boundary_sides().is_empty());
    assert_eq!(mesh.normals.len(), mesh.positions.len());
}

#[test]
fn the_normals_of_a_marched_mesh_are_those_of_its_faces() {
    let mesh = sphere(8);
    let mut renewed = sphere(8);
    renewed.normals.clear();
    recompute_normals(&mut renewed);
    assert_eq!(mesh.normals, renewed.normals);
    assert!(mesh.uvs.is_empty() && mesh.colors.is_empty());
}

#[test]
fn a_grid_of_one_sample_is_refused() {
    let outcome = marching_tetrahedra(
        |_: usize| Ok(vec![Sample { value: 0u8, inside: true }]),
        |_: GridPoint, _: GridPoint, _: u8, _: u8| [0.0; 3],
        1,
        [0.0; 3],
        &face_normal,
        &plus,
        &unit,
    );
    match outcome {
        Err(NetworkError::InvalidConfig(message)) => {
            assert_eq!(message, "a grid needs at least two samples along each axis")
        }
        _ => panic!("a grid of one sample was marched"),
    }
}

#[test]
fn a_plane_of_the_wrong_size_is_refused() {
    let outcome = march(|_| vec![1.0; 3], 2, [-1.0; 3], [1.0; 3], 0.0);
    assert!(matches!(outcome, Err(NetworkError::InvalidTarget { expected: 4, actual: 3 })));
}

#[test]
fn a_field_that_fails_fails_the_march() {
    let outcome = marching_tetrahedra(
        |_: usize| -> Result<Vec<Sample<u8>>, NetworkError> { Err(NetworkError::EmptyDataset) },
        |_: GridPoint, _: GridPoint, _: u8, _: u8| [0.0; 3],
        2,
        [0.0; 3],
        &face_normal,
        &plus,
        &unit,
    );
    assert!(matches!(outcome, Err(NetworkError::EmptyDataset)));
}

#[test]
fn one_corner_inside_is_cut_off_along_its_edges() {
    // Only the lowest corner of the one cell is inside. It has seven edges in
    // the six tetrahedra, and each of the six cuts off one triangle.
    let surface = march_surface(
        |z: usize| {
            Ok((0..4).map(|i| Sample { value: 0u8, inside: z == 0 && i == 0 }).collect())
        },
        |a: GridPoint, b: GridPoint, _: u8, _: u8| (a, b),
        2,
    )
    .unwrap();
    assert_eq!(surface.positions.len(), 7);
    assert_eq!(surface.faces.len(), 6);
    for (a, b) in &surface.positions {
        let origin = GridPoint { x: 0, y: 0, z: 0 };
        assert!((*a == origin) != (*b == origin), "{a:?} {b:?}");
    }
}

// -- The tree ----------------------------------------------------------------

/// A tree, and what each of its nodes is to the geometry.
struct Tree<'a> {
    mesh: &'a Mesh<f32>,
    bvh: Bvh,
    nodes: Vec<Summary>,
}

struct Summary {
    low: [f32; 3],
    high: [f32; 3],
    moment: [f32; 3],
    centroid: [f32; 3],
    radius: f32,
}

fn summary(mesh: &Mesh<f32>, faces: &[u32]) -> Summary {
    let mut low = [f32::INFINITY; 3];
    let mut high = [f32::NEG_INFINITY; 3];
    let (mut moment, mut centroid, mut total) = ([0.0f32; 3], [0.0f32; 3], 0.0f32);
    for face in faces {
        let [a, b, c] = triangle(mesh, *face as usize);
        for corner in [a, b, c] {
            for axis in 0..3 {
                low[axis] = low[axis].min(corner[axis]);
                high[axis] = high[axis].max(corner[axis]);
            }
        }
        let doubled = cross(minus(b, a), minus(c, a));
        let face_area = length(doubled) / 2.0;
        moment = plus(moment, scale(doubled, 0.5));
        centroid = plus(centroid, scale(plus(plus(a, b), c), face_area / 3.0));
        total += face_area;
    }
    if total > 0.0 {
        centroid = scale(centroid, 1.0 / total);
    }
    let mut radius = 0.0f32;
    for face in faces {
        for corner in triangle(mesh, *face as usize) {
            radius = radius.max(length(minus(corner, centroid)));
        }
    }
    Summary { low, high, moment, centroid, radius }
}

fn tree(mesh: &Mesh<f32>) -> Tree<'_> {
    let keys: Vec<[u32; 3]> = (0..mesh.indices.len())
        .map(|face| {
            let [a, b, c] = triangle(mesh, face);
            scale(plus(plus(a, b), c), 1.0 / 3.0).map(sorted_key)
        })
        .collect();
    let bvh = Bvh::build(&keys, |order: &Vec<u32>, start: usize, end: usize| {
        let found = summary(mesh, &order[start..end]);
        let widths: [f32; 3] = std::array::from_fn(|axis| found.high[axis] - found.low[axis]);
        (0..3).max_by(|a, b| widths[*a].total_cmp(&widths[*b])).unwrap()
    });
    let nodes = bvh
        .nodes
        .iter()
        .map(|node| {
            let start = node.start as usize;
            summary(mesh, &bvh.order[start..start + node.faces as usize])
        })
        .collect();
    Tree { mesh, bvh, nodes }
}

fn box_distance(low: [f32; 3], high: [f32; 3], query: [f32; 3]) -> f32 {
    length(std::array::from_fn(|axis| {
        (low[axis] - query[axis]).max(query[axis] - high[axis]).max(0.0)
    }))
}

fn closest_on_triangle(query: [f32; 3], [a, b, c]: [[f32; 3]; 3]) -> [f32; 3] {
    let (ab, ac, aq) = (minus(b, a), minus(c, a), minus(query, a));
    let (d1, d2) = (dot(ab, aq), dot(ac, aq));
    if d1 <= 0.0 && d2 <= 0.0 {
        return a;
    }
    let bq = minus(query, b);
    let (d3, d4) = (dot(ab, bq), dot(ac, bq));
    if d3 >= 0.0 && d4 <= d3 {
        return b;
    }
    let vc = d1 * d4 - d3 * d2;
    if vc <= 0.0 && d1 >= 0.0 && d3 <= 0.0 {
        return plus(a, scale(ab, d1 / (d1 - d3)));
    }
    let cq = minus(query, c);
    let (d5, d6) = (dot(ab, cq), dot(ac, cq));
    if d6 >= 0.0 && d5 <= d6 {
        return c;
    }
    let vb = d5 * d2 - d1 * d6;
    if vb <= 0.0 && d2 >= 0.0 && d6 <= 0.0 {
        return plus(a, scale(ac, d2 / (d2 - d6)));
    }
    let va = d3 * d6 - d5 * d4;
    if va <= 0.0 && (d4 - d3) >= 0.0 && (d5 - d6) >= 0.0 {
        return plus(b, scale(minus(c, b), (d4 - d3) / ((d4 - d3) + (d5 - d6))));
    }
    let denominator = va + vb + vc;
    if denominator == 0.0 {
        return a;
    }
    plus(plus(a, scale(ab, vb / denominator)), scale(ac, vc / denominator))
}

fn solid_angle(query: [f32; 3], [a, b, c]: [[f32; 3]; 3]) -> f32 {
    let (a, b, c) = (minus(a, query), minus(b, query), minus(c, query));
    let (la, lb, lc) = (length(a), length(b), length(c));
    let denominator = la * lb * lc + dot(a, b) * lc + dot(a, c) * lb + dot(b, c) * la;
    if denominator == 0.0 && dot(a, cross(b, c)) == 0.0 {
        0.0
    } else {
        2.0 * dot(a, cross(b, c)).atan2(denominator)
    }
}

impl Tree<'_> {
    fn closest_point(&self, query: [f32; 3]) -> Option<([f32; 3], f32)> {
        let on = |face: u32| closest_on_triangle(query, triangle(self.mesh, face as usize));
        self.bvh
            .closest(
                f32::INFINITY.to_bits(),
                |node: usize| {
                    box_distance(self.nodes[node].low, self.nodes[node].high, query).to_bits()
                },
                |face: u32| length(minus(on(face), query)).to_bits(),
            )
            .map(|(face, key)| (on(face), f32::from_bits(key)))
    }

    fn winding_number(&self, query: [f32; 3]) -> f32 {
        let total = self.bvh.winding_number(
            |node: usize| {
                let node = &self.nodes[node];
                let offset = minus(node.centroid, query);
                let distance = length(offset);
                if distance > 2.0 * node.radius && distance > 0.0 {
                    Some(dot(node.moment, offset) / (distance * distance * distance))
                } else {
                    None
                }
            },
            |face: u32| solid_angle(query, triangle(self.mesh, face as usize)),
            |a: f32, b: f32| a + b,
            0.0,
        );
        total / (4.0 * std::f32::consts::PI)
    }

    fn signed_distance(&self, queries: &[[f32; 3]]) -> Vec<f32> {
        queries
            .iter()
            .map(|query| {
                let distance = self.closest_point(*query).map_or(0.0, |(_, d)| d);
                if self.winding_number(*query) > 0.5 {
                    -distance
                } else {
                    distance
                }
            })
            .collect()
    }

    fn sample_surface(&self, count: usize, rng: &mut StdRng) -> [Vec<[f32; 3]>; 3] {
        let mut totals = Vec::new();
        let mut total = 0.0f32;
        for face in 0..self.mesh.indices.len() {
            let [a, b, c] = triangle(self.mesh, face);
            total += length(cross(minus(b, a), minus(c, a))) / 2.0;
            totals.push(total.to_bits());
        }
        let (mut points, mut normals, mut colors) = (Vec::new(), Vec::new(), Vec::new());
        for _ in 0..count {
            let target = rng.gen_range(0.0..total.max(f32::MIN_POSITIVE));
            let face = face_at(&totals, target.to_bits());
            let [a, b, c] = triangle(self.mesh, face);
            let (u, v) = (rng.gen::<f32>().sqrt(), rng.gen::<f32>());
            points.push(plus(
                plus(a, scale(minus(b, a), u * (1.0 - v))),
                scale(minus(c, a), u * v),
            ));
            normals.push(unit(cross(minus(b, a), minus(c, a))));
            if self.mesh.colors.len() == self.mesh.positions.len() {
                let [p, q, r] = self.mesh.indices[face].map(|i| self.mesh.colors[i as usize]);
                colors.push(plus(
                    plus(scale(p, 1.0 - u), scale(q, u * (1.0 - v))),
                    scale(r, u * v),
                ));
            }
        }
        [points, normals, colors]
    }
}

#[test]
fn normalizing_fills_the_cube_without_changing_the_shape() {
    let mut mesh = globe(3.0, 8, 12);
    for position in &mut mesh.positions {
        position[0] += 10.0;
    }
    let (center, factor) = normalize(&mut mesh);
    let (low, high) = bounds(&mesh);
    for axis in 0..3 {
        assert!((low[axis] + 1.0).abs() < 1e-5, "{low:?}");
        assert!((high[axis] - 1.0).abs() < 1e-5, "{high:?}");
    }
    let restored = plus(scale(mesh.positions[0], 1.0 / factor), center);
    assert!((restored[0] - 10.0).abs() < 1e-3, "{restored:?}");
}

#[test]
fn the_winding_number_separates_inside_from_outside() {
    let mesh = cube(1.0);
    let bvh = tree(&mesh);
    for point in [[0.0, 0.0, 0.0], [0.5, -0.5, 0.25], [0.9, 0.9, 0.9]] {
        let winding = bvh.winding_number(point);
        assert!((winding - 1.0).abs() < 0.05, "{point:?} read {winding}");
    }
    for point in [[2.0, 0.0, 0.0], [0.0, -3.0, 0.0], [1.5, 1.5, 1.5]] {
        let winding = bvh.winding_number(point);
        assert!(winding.abs() < 0.05, "{point:?} read {winding}");
    }
}

#[test]
fn a_holed_mesh_still_classifies_its_interior() {
    let mut mesh = cube(1.0);
    mesh.indices.truncate(mesh.indices.len() - 2);
    let bvh = tree(&mesh);
    assert!(bvh.winding_number([0.0, 0.0, 0.0]) > 0.7);
    assert!(bvh.winding_number([4.0, 0.0, 0.0]).abs() < 0.05);
}

#[test]
fn the_signed_distance_to_a_sphere_is_the_radius_minus_the_offset() {
    let mesh = globe(1.0, 64, 128);
    let bvh = tree(&mesh);
    let queries = [[0.0, 0.0, 0.0], [0.5, 0.0, 0.0], [1.5, 0.0, 0.0], [0.0, 2.0, 0.0]];
    let distances = bvh.signed_distance(&queries);
    for (query, distance) in queries.iter().zip(&distances) {
        let expected = length(*query) - 1.0;
        assert!(
            (distance - expected).abs() < 0.01,
            "{query:?}: {distance} against {expected}"
        );
    }
}

#[test]
fn a_sampled_colour_is_the_colour_at_the_sampled_point() {
    let mut mesh = Mesh::empty();
    mesh.positions = vec![[0.0, 0.0, 0.0], [1.0, 0.0, 0.0], [0.0, 1.0, 0.0]];
    mesh.indices = vec![[0, 1, 2]];
    mesh.colors = vec![[0.0, 0.0, 0.5], [1.0, 0.0, 0.5], [0.0, 1.0, 0.5]];
    let bvh = tree(&mesh);
    let mut rng = StdRng::seed_from_u64(7);

    let [points, _, colors] = bvh.sample_surface(128, &mut rng);
    assert_eq!(colors.len(), points.len());
    for (point, color) in points.iter().zip(&colors) {
        assert!((color[0] - point[0]).abs() < 1e-5);
        assert!((color[1] - point[1]).abs() < 1e-5);
        assert!((color[2] - 0.5).abs() < 1e-5);
    }
}

#[test]
fn surface_samples_land_on_the_surface_and_spread_over_it() {
    let mesh = globe(1.0, 32, 64);
    let bvh = tree(&mesh);
    let mut rng = StdRng::seed_from_u64(7);
    let [points, normals, _] = bvh.sample_surface(2_000, &mut rng);
    assert_eq!(points.len(), 2_000);
    for (point, normal) in points.iter().zip(&normals) {
        assert!((length(*point) - 1.0).abs() < 0.01, "{point:?}");
        assert!(dot(*normal, *point) > 0.0, "{normal:?} at {point:?}");
    }
    let mut octants = [0usize; 8];
    for point in &points {
        let index = (point[0] > 0.0) as usize
            | ((point[1] > 0.0) as usize) << 1
            | ((point[2] > 0.0) as usize) << 2;
        octants[index] += 1;
    }
    assert!(octants.iter().all(|count| *count > 150), "{octants:?}");
}

#[test]
fn a_mesh_survives_a_trip_through_its_own_distance_field() {
    let mut original = globe(0.8, 24, 48);
    normalize(&mut original);
    let bvh = tree(&original);

    let rebuilt =
        march(|points| bvh.signed_distance(points), 48, [-1.2; 3], [1.2; 3], 0.0).unwrap();

    let mut rng = StdRng::seed_from_u64(3);
    let rebuilt_bvh = tree(&rebuilt);
    let [samples, _, _] = bvh.sample_surface(3_000, &mut rng);
    let onto_rebuilt = samples
        .iter()
        .map(|point| rebuilt_bvh.closest_point(*point).unwrap().1)
        .fold(0.0f32, f32::max);
    let onto_original = rebuilt
        .positions
        .iter()
        .map(|point| bvh.closest_point(*point).unwrap().1)
        .fold(0.0f32, f32::max);

    assert!(onto_rebuilt < 0.02, "original to rebuilt {onto_rebuilt}");
    assert!(onto_original < 0.02, "rebuilt to original {onto_original}");
}

#[test]
fn a_tree_of_nothing_is_near_nothing() {
    let bvh = Bvh::build(&Vec::new(), |_: &Vec<u32>, _: usize, _: usize| 0);
    assert!(bvh.nodes.is_empty());
    assert_eq!(bvh.closest(u32::MAX, |_: usize| 0, |_: u32| 0), None);
    assert_eq!(
        bvh.winding_number(|_: usize| None, |_: u32| 1u64, |a: u64, b: u64| a + b, 7),
        7
    );
}

#[test]
fn the_halves_of_a_node_lie_apart_along_its_axis() {
    let keys: Vec<[u32; 3]> = (0..23u32).map(|i| [i * 7 % 23, i * 5 % 23, i]).collect();
    let bvh = Bvh::build(&keys, |_: &Vec<u32>, start: usize, _: usize| start % 3);
    let mut faces = bvh.order.clone();
    faces.sort();
    assert_eq!(faces, (0..23).collect::<Vec<u32>>());
    assert_ne!(bvh.order, faces, "the faces were moved");
    for node in &bvh.nodes {
        let (start, faces) = (node.start as usize, node.faces as usize);
        if node.count > 0 {
            assert!(node.count as usize <= LEAF_SIZE);
            continue;
        }
        let (axis, middle) = (start % 3, start + faces / 2);
        let key = |face: &u32| keys[*face as usize][axis];
        let largest = bvh.order[start..middle].iter().map(key).max().unwrap();
        let smallest = bvh.order[middle..start + faces].iter().map(key).min().unwrap();
        assert!(largest <= smallest);
    }
}

#[test]
fn a_node_that_claims_to_be_far_is_passed_over() {
    let keys: Vec<[u32; 3]> = (0..8u32).map(|i| [i, 0, 0]).collect();
    let bvh = Bvh::build(&keys, |_: &Vec<u32>, _: usize, _: usize| 0);
    assert_eq!(bvh.nodes.len(), 3);
    // The faces of the left leaf are ten and more away, those of the right
    // leaf one; the bounds are what they are said to be.
    let closest = |limit: u32, left: u32, right: u32| {
        bvh.closest(
            limit,
            |node: usize| [0, left, right][node],
            |face: u32| if face < 4 { 10 + face } else { 1 },
        )
    };
    assert_eq!(closest(100, 0, 10), Some((0, 10)));
    assert_eq!(closest(100, 0, 9), Some((bvh.order[4], 1)));
    assert_eq!(closest(100, 10, 9), Some((bvh.order[4], 1)));
    assert_eq!(closest(100, 10, 10), Some((0, 10)));
    assert_eq!(closest(1, 0, 0), None);
    assert_eq!(closest(0, 0, 0), None);
}

#[test]
fn the_nearest_face_is_found_among_many() {
    let keys: Vec<[u32; 3]> = (0..40u32).map(|i| [i * 17 % 41, 0, 0]).collect();
    let bvh = Bvh::build(&keys, |_: &Vec<u32>, _: usize, _: usize| 0);
    let nearest = |query: u32| {
        bvh.closest(
            u32::MAX,
            |node: usize| {
                let (start, count) = (bvh.nodes[node].start, bvh.nodes[node].faces);
                let faces = &bvh.order[start as usize..(start + count) as usize];
                let low = faces.iter().map(|f| keys[*f as usize][0]).min().unwrap();
                let high = faces.iter().map(|f| keys[*f as usize][0]).max().unwrap();
                low.saturating_sub(query).max(query.saturating_sub(high))
            },
            |face: u32| keys[face as usize][0].abs_diff(query),
        )
    };
    for query in 0..45 {
        let (face, key) = nearest(query).unwrap();
        let least = keys.iter().map(|k| k[0].abs_diff(query)).min().unwrap();
        assert_eq!(key, least);
        assert_eq!(keys[face as usize][0].abs_diff(query), least);
    }
}

#[test]
fn every_face_counts_once_in_a_winding_number() {
    let keys: Vec<[u32; 3]> = (0..40u32).map(|i| [i * 17 % 41, i, 40 - i]).collect();
    let bvh = Bvh::build(&keys, |_: &Vec<u32>, start: usize, _: usize| start % 3);
    let weight = |face: u32| (face as u64 + 1) * (face as u64 + 1);
    let all: u64 = (0..40).map(weight).sum();
    let exact = bvh.winding_number(|_: usize| None, weight, |a: u64, b: u64| a + b, 0);
    assert_eq!(exact, all);
    // Nodes that stand for their faces change nothing.
    let partly = bvh.winding_number(
        |node: usize| {
            let (start, faces) = (bvh.nodes[node].start as usize, bvh.nodes[node].faces as usize);
            if node % 3 == 2 {
                Some(bvh.order[start..start + faces].iter().map(|f| weight(*f)).sum())
            } else {
                None
            }
        },
        weight,
        |a: u64, b: u64| a + b,
        0,
    );
    assert_eq!(partly, all);
}

#[test]
fn a_target_falls_into_the_first_total_that_reaches_it() {
    let totals = vec![2, 2, 5, 9];
    let found: Vec<usize> = (0..12).map(|target| face_at(&totals, target)).collect();
    assert_eq!(found, vec![0, 0, 0, 2, 2, 2, 3, 3, 3, 3, 3, 3]);
}

// -- OBJ files ---------------------------------------------------------------

fn read(text: &str) -> Result<Mesh<f32>, NetworkError> {
    Mesh::read_obj(
        &text.chars().collect(),
        |field: &Vec<char>| field.iter().collect::<String>().parse().ok(),
        |v: Option<f32>| 1.0 - v.unwrap_or(0.0),
    )
}

fn complaint(text: &str) -> String {
    match read(text) {
        Err(NetworkError::InvalidDataset(message)) => message,
        other => panic!("{other:?}"),
    }
}

#[test]
fn an_obj_file_round_trips() {
    let mut original = cube(1.0);
    recompute_normals(&mut original);
    let text = original.write_obj(&|value: f32| format!("{value}"));

    let read = read(&text).unwrap();
    assert_eq!(read.indices.len(), original.indices.len());
    assert_eq!(read.positions.len(), original.positions.len());
    for face in 0..read.indices.len() {
        for (a, b) in triangle(&read, face).iter().zip(&triangle(&original, face)) {
            assert!(length(minus(*a, *b)) < 1e-6, "{a:?} against {b:?}");
        }
    }
    assert_eq!(read.normals.len(), read.positions.len());
}

#[test]
fn corners_share_a_vertex_after_a_round_trip_just_where_they_did() {
    let mut original = cube(1.0);
    original.positions.push([9.0, 9.0, 9.0]);
    let read = read(&original.write_obj(&|value: f32| format!("{value}"))).unwrap();
    // The vertex no face names is gone; the others keep their company.
    assert_eq!(read.positions.len(), 8);
    assert!(read.normals.is_empty());
    for (f, face) in original.indices.iter().enumerate() {
        for (g, other) in original.indices.iter().enumerate() {
            for c in 0..3 {
                for d in 0..3 {
                    let together = read.indices[f][c] == read.indices[g][d];
                    assert_eq!(together, face[c] == other[d]);
                }
            }
        }
    }
}

#[test]
fn a_colour_belongs_to_the_vertex_on_its_line() {
    let all = "v 0 0 0 0 0 1\nv 1 0 0 1 0 0\nv 0 1 0 0 1 0\nf 3 2 1\n";
    let mesh = read(all).unwrap();
    assert_eq!(mesh.positions, vec![[0.0, 1.0, 0.0], [1.0, 0.0, 0.0], [0.0, 0.0, 0.0]]);
    assert_eq!(mesh.colors, vec![[0.0, 1.0, 0.0], [1.0, 0.0, 0.0], [0.0, 0.0, 1.0]]);
    // A vertex without a colour leaves the mesh without colours.
    let some = "v 0 0 0\nv 1 0 0 1 0 0\nv 0 1 0 0 1 0\nv 0 0 1 0 0 1\nf 1 2 3\n";
    let mesh = read(some).unwrap();
    assert_eq!(mesh.positions.len(), 3);
    assert!(mesh.colors.is_empty());
    // One that no face names does not count, wherever it stands.
    let unused = "v 9 9 9\nv 1 0 0 1 0 0\nv 0 1 0 0 1 0\nv 0 0 1 0 0 1\nf 2 3 4\n";
    let mesh = read(unused).unwrap();
    assert_eq!(mesh.colors, vec![[1.0, 0.0, 0.0], [0.0, 1.0, 0.0], [0.0, 0.0, 1.0]]);
}

#[test]
fn a_written_file_lists_positions_normals_and_faces() {
    let mut mesh = Mesh::empty();
    mesh.positions = vec![[0.0, 0.0, 0.0], [1.0, 0.0, 0.0], [0.0, 1.5, 0.0]];
    mesh.indices = vec![[0, 1, 2]];
    let show = |value: f32| format!("{value}");
    assert_eq!(mesh.write_obj(&show), "v 0 0 0\nv 1 0 0\nv 0 1.5 0\nf 1 2 3\n");
    mesh.normals = vec![[0.0, 0.0, 1.0]; 3];
    assert_eq!(
        mesh.write_obj(&show),
        "v 0 0 0\nv 1 0 0\nv 0 1.5 0\nvn 0 0 1\nvn 0 0 1\nvn 0 0 1\nf 1//1 2//2 3//3\n"
    );
}

#[test]
fn a_quad_face_is_triangulated_and_a_negative_index_counts_back() {
    let mesh = read("v 0 0 0\nv 1 0 0\nv 1 1 0\nv 0 1 0\nf -4 -3 -2 -1\n").unwrap();
    assert_eq!(mesh.indices.len(), 2, "a quad is two triangles");
    assert_eq!(mesh.positions.len(), 4);
}

#[test]
fn an_index_that_names_nothing_is_itself() {
    // Two texture indices before the start are two vertices; the same one
    // twice is one.
    let file = "v 0 0 0\nv 1 0 0\nv 0 1 0\nvt 0 0\n";
    let mesh = read(&format!("{file}f 1/-5 2 3\nf 1/-6 2 3\nf 1/-5 3 2\n")).unwrap();
    assert_eq!(mesh.indices, vec![[0, 1, 2], [3, 1, 2], [0, 2, 1]]);
    // The same holds past the end, and for normals.
    let mesh = read(&format!("{file}f 1/5 2 3\nf 1/6 2 3\nf 1//-1 2 3\nf 1//-2 2 3\n")).unwrap();
    assert_eq!(mesh.indices, vec![[0, 1, 2], [3, 1, 2], [4, 1, 2], [5, 1, 2]]);
    // One that named nothing is not the place a later one counts back to.
    let late = "vt 0.25 0\nvt 0.5 0\nvt 0.75 0\n";
    let mesh = read(&format!("{file}f 1/-4 2/1 3/1\n{late}f 1/-1 2/1 3/1\n")).unwrap();
    assert_eq!(mesh.indices, vec![[0, 1, 2], [3, 1, 2]]);
}

#[test]
fn a_negative_index_counts_back_from_where_it_stands() {
    let text = "v 0 0 0\nv 1 0 0\nv 1 1 0\nf -3 -2 -1\nv 5 0 0\nv 6 0 0\nv 6 1 0\nf -3 -2 -1\n";
    let mesh = read(text).unwrap();
    assert_eq!(mesh.indices, vec![[0, 1, 2], [3, 4, 5]]);
    assert_eq!(mesh.positions[3], [5.0, 0.0, 0.0]);
}

#[test]
fn an_obj_texture_coordinate_is_flipped_into_the_gltf_convention() {
    let mesh =
        read("v 0 0 0\nv 1 0 0\nv 1 1 0\nvt 0 0\nvt 1 0.25\nvt 1 1\nf 1/1 2/2 3/3\n").unwrap();
    assert_eq!(mesh.uvs, vec![[0.0, 1.0], [1.0, 0.75], [1.0, 0.0]]);
}

#[test]
fn a_file_with_no_faces_is_refused() {
    assert!(read("v 0 0 0\nv 1 0 0\n").is_err());
    assert_eq!(complaint("v 0 0 0\nv 1 0 0\n"), "the file has no faces");
}

#[test]
fn each_malformed_line_is_named() {
    assert_eq!(complaint("v 0 0\n"), "line 1: a vertex needs three coordinates");
    assert_eq!(complaint("# x\nvn 0 zero 1\n"), "line 2: a normal needs three components");
    assert_eq!(complaint("vt\n"), "line 1: a texture coordinate needs a u");
    assert_eq!(complaint("\n\nf 1 x 2\n"), "line 3: a face corner needs a vertex index");
    assert_eq!(complaint("f 1 2\n"), "line 1: a face needs three corners");
    assert_eq!(
        complaint("v 0 0 0\nf 1 1 2\n"),
        "line 2: a face names a vertex that is not there"
    );
}

#[test]
fn a_vertex_keeps_its_colour_and_half_a_colouring_is_dropped() {
    let whole = read("v 0 0 0 1 0 0\nv 1 0 0 0 1 0\nv 1 1 0 0 0 1\nf 1 2 3\n").unwrap();
    assert_eq!(whole.colors, vec![[1.0, 0.0, 0.0], [0.0, 1.0, 0.0], [0.0, 0.0, 1.0]]);
    let half = read("v 0 0 0 1 0 0\nv 1 0 0\nv 1 1 0\nf 1 2 3\n").unwrap();
    assert!(half.colors.is_empty());
}

#[test]
fn an_index_is_picked_from_either_end() {
    let values = vec![10u8, 20, 30];
    assert_eq!(pick(&values, 1), Some(10));
    assert_eq!(pick(&values, -1), Some(30));
    assert_eq!(pick(&values, 0), None);
    assert_eq!(pick(&values, 4), None);
    assert_eq!(pick(&values, -4), None);
    assert_eq!(pick(&values, i64::MIN), None);
}

#[test]
fn fields_are_split_and_corners_read() {
    let chars = |text: &str| -> Vec<char> { text.chars().collect() };
    let lines = split_rows(&chars(" a  b\n\nc\r\n"));
    assert_eq!(lines, vec![vec![chars("a"), chars("b")], vec![], vec![chars("c")], vec![]]);
    assert_eq!(parse_corner(&chars("3/4/5")), Some((3, 4, 5)));
    assert_eq!(parse_corner(&chars("3//-5")), Some((3, 0, -5)));
    assert_eq!(parse_corner(&chars("7")), Some((7, 0, 0)));
    assert_eq!(parse_corner(&chars("/4")), None);
    assert_eq!(parse_integer(&chars("+12"), 0, 3), Some(12));
    assert_eq!(parse_integer(&chars("-9223372036854775808"), 0, 20), Some(i64::MIN));
    assert_eq!(parse_integer(&chars("9223372036854775808"), 0, 19), None);
    assert_eq!(parse_integer(&chars("1x"), 0, 2), None);
}

// -- Simplification ----------------------------------------------------------

type Quadric = [f32; 10];

fn plane_quadric(normal: [f32; 3], point: [f32; 3], weight: f32) -> Quadric {
    let [a, b, c] = normal;
    let d = -dot(normal, point);
    [a * a, a * b, a * c, a * d, b * b, b * c, b * d, c * c, c * d, d * d]
        .map(|value| value * weight)
}

fn add_quadric(left: Quadric, right: Quadric) -> Quadric {
    std::array::from_fn(|index| left[index] + right[index])
}

fn quadric_error(quadric: Quadric, [x, y, z]: [f32; 3]) -> f32 {
    let [a2, ab, ac, ad, b2, bc, bd, c2, cd, d2] = quadric;
    a2 * x * x
        + 2.0 * ab * x * y
        + 2.0 * ac * x * z
        + 2.0 * ad * x
        + b2 * y * y
        + 2.0 * bc * y * z
        + 2.0 * bd * y
        + c2 * z * z
        + 2.0 * cd * z
        + d2
}

fn determinant(m: [[f32; 3]; 3]) -> f32 {
    m[0][0] * (m[1][1] * m[2][2] - m[1][2] * m[2][1])
        - m[0][1] * (m[1][0] * m[2][2] - m[1][2] * m[2][0])
        + m[0][2] * (m[1][0] * m[2][1] - m[1][1] * m[2][0])
}

fn quadric_minimum(quadric: Quadric) -> Option<[f32; 3]> {
    let [a2, ab, ac, ad, b2, bc, bd, c2, cd, _] = quadric;
    let matrix = [[a2, ab, ac], [ab, b2, bc], [ac, bc, c2]];
    let rhs = [-ad, -bd, -cd];
    let whole = determinant(matrix);
    let size = (a2 + b2 + c2).abs().max(1e-12);
    if whole.abs() < 1e-9 * size * size * size {
        return None;
    }
    Some(std::array::from_fn(|column| {
        let mut replaced = matrix;
        for row in 0..3 {
            replaced[row][column] = rhs[row];
        }
        determinant(replaced) / whole
    }))
}

fn weigh(from: [f32; 3], into: [f32; 3], q: Quadric, r: Quadric) -> Option<(u32, [f32; 3])> {
    let quadric = add_quadric(q, r);
    let middle = scale(plus(from, into), 0.5);
    [quadric_minimum(quadric), Some(from), Some(into), Some(middle)]
        .into_iter()
        .flatten()
        .map(|point| (quadric_error(quadric, point), point))
        .min_by(|left, right| left.0.total_cmp(&right.0))
        .map(|(error, point)| (error.max(0.0).to_bits(), point))
}

fn flips(before: [[f32; 3]; 3], after: [[f32; 3]; 3]) -> bool {
    let old = cross(minus(before[1], before[0]), minus(before[2], before[0]));
    let new = cross(minus(after[1], after[0]), minus(after[2], after[0]));
    dot(old, new) <= 0.0
}

fn simplify(mesh: &mut Mesh<f32>, target: usize) -> usize {
    let quadrics = mesh.quadrics(
        [0.0f32; 10],
        &|[a, b, c]: [[f32; 3]; 3]| {
            let normal = cross(minus(b, a), minus(c, a));
            plane_quadric(unit(normal), a, length(normal) / 2.0)
        },
        &|[a, b, c]: [[f32; 3]; 3], first: [f32; 3], second: [f32; 3]| {
            let normal = cross(minus(b, a), minus(c, a));
            let wall = unit(cross(minus(second, first), unit(normal)));
            plane_quadric(wall, first, length(normal) / 2.0 * 1000.0)
        },
        &add_quadric,
    );
    mesh.simplify(
        target,
        quadrics,
        weigh,
        flips,
        add_quadric,
        [0.0; 3],
        &face_normal,
        &plus,
        &unit,
    )
}

/// A flat grid of `n` by `n` squares, each cut in two.
fn grid(n: usize) -> Mesh<f32> {
    let mut mesh = Mesh::empty();
    for row in 0..=n {
        for column in 0..=n {
            mesh.positions.push([column as f32 / n as f32, row as f32 / n as f32, 0.0]);
        }
    }
    let index = |row: usize, column: usize| (row * (n + 1) + column) as u32;
    for row in 0..n {
        for column in 0..n {
            mesh.indices.push([
                index(row, column),
                index(row, column + 1),
                index(row + 1, column),
            ]);
            mesh.indices.push([
                index(row, column + 1),
                index(row + 1, column + 1),
                index(row + 1, column),
            ]);
        }
    }
    mesh
}

#[test]
fn a_target_above_the_face_count_changes_nothing() {
    let mut mesh = grid(4);
    let before = mesh.indices.clone();
    assert_eq!(simplify(&mut mesh, 10_000), before.len());
    assert_eq!(mesh.indices, before);
}

#[test]
fn a_flat_sheet_collapses_to_its_corners_for_nothing() {
    let mut mesh = grid(6);
    assert_eq!(mesh.indices.len(), 72);
    simplify(&mut mesh, 2);

    assert_eq!(mesh.indices.len(), 2);
    assert_eq!(mesh.positions.len(), 4);
    let (low, high) = bounds(&mesh);
    assert_eq!(low, [0.0, 0.0, 0.0]);
    assert_eq!(high, [1.0, 1.0, 0.0]);
}

#[test]
fn a_sphere_keeps_its_shape_at_a_fifth_of_its_faces() {
    let mut mesh = sphere(24);
    let before = mesh.indices.len();
    let radius = |mesh: &Mesh<f32>| {
        mesh.positions.iter().map(|point| length(*point)).fold(0.0f32, f32::max)
    };
    let before_radius = radius(&mesh);

    let after = simplify(&mut mesh, before / 5);
    assert!(after <= before / 5 + 8, "{before} to {after}");
    assert!(after > 0);

    for point in &mesh.positions {
        let distance = (length(*point) - 0.8).abs();
        assert!(distance < 0.08, "{point:?} sits {distance} off the surface");
    }
    assert!((radius(&mesh) - before_radius).abs() < 0.08);
}

#[test]
fn simplification_leaves_no_degenerate_or_dangling_geometry() {
    let mut mesh = sphere(20);
    recompute_normals(&mut mesh);
    mesh.uvs = vec![[0.0, 0.0]; mesh.positions.len()];
    let target = mesh.indices.len() / 4;
    simplify(&mut mesh, target);

    let mut used = vec![false; mesh.positions.len()];
    for face in &mesh.indices {
        assert!(face[0] != face[1] && face[1] != face[2] && face[0] != face[2]);
        for corner in face {
            assert!((*corner as usize) < mesh.positions.len());
            used[*corner as usize] = true;
        }
    }
    assert!(used.iter().all(|used| *used), "an orphaned vertex survived");
    assert!(area(&mesh) > 0.0);

    assert_eq!(mesh.normals.len(), mesh.positions.len());
    assert!(mesh.uvs.is_empty());
    for normal in &mesh.normals {
        assert!((length(*normal) - 1.0).abs() < 1e-4);
    }
}

#[test]
fn a_collapse_that_would_fold_a_face_is_refused() {
    // Two faces of a square. The only edge on offer is the one from 0 to 3.
    let square = || {
        let mut mesh = Mesh::empty();
        mesh.positions = vec![[0.0, 0.0, 0.0], [1.0, 0.0, 0.0], [1.0, 1.0, 0.0], [0.0, 1.0, 0.0]];
        mesh.indices = vec![[0, 1, 2], [0, 2, 3]];
        mesh
    };
    // Pulling vertex 1 onto vertex 0 keeps the other face the right way round.
    let onto = |a: [f32; 3], b: [f32; 3]| {
        if a == [0.0, 0.0, 0.0] && b == [1.0, 0.0, 0.0] {
            Some((0, [0.0, 0.0, 0.0]))
        } else {
            None
        }
    };
    let mut mesh = square();
    let cut = |mesh: &mut Mesh<f32>, weigh: &dyn Fn([f32; 3], [f32; 3]) -> Option<(u32, [f32; 3])>| {
        mesh.simplify(
            1,
            vec![0u8; 4],
            |a: [f32; 3], b: [f32; 3], _: u8, _: u8| weigh(a, b),
            flips,
            |q: u8, _: u8| q,
            [0.0; 3],
            &face_normal,
            &plus,
            &unit,
        )
    };
    assert_eq!(cut(&mut mesh, &onto), 1);
    // Dragging vertex 3 far past the diagonal flips the face it is on.
    let past = |a: [f32; 3], b: [f32; 3]| {
        if a == [0.0, 0.0, 0.0] && b == [0.0, 1.0, 0.0] {
            Some((0, [5.0, -5.0, 0.0]))
        } else {
            None
        }
    };
    let mut mesh = square();
    assert_eq!(cut(&mut mesh, &past), 2);
}

#[test]
fn the_cheapest_collapse_comes_first() {
    let mut queue: Queue<()> = Queue::new();
    for key in [5u32, 1, 9, 3, 1, 7] {
        queue.push(Collapse { key, from: 0, into: 1, from_stamp: 0, into_stamp: 0, position: () });
    }
    let mut keys = Vec::new();
    while let Some(entry) = queue.pop() {
        keys.push(entry.key);
    }
    assert_eq!(keys, vec![1, 1, 3, 5, 7, 9]);
    assert!(queue.pop().is_none());
}

#[test]
fn a_compacted_mesh_keeps_the_colours_of_what_is_left() {
    let mut mesh = Mesh::empty();
    mesh.positions = vec![[0u8; 3]; 5];
    mesh.uvs = vec![[0u8; 2]; 5];
    mesh.colors = (0..5u8).map(|i| [i, i, i]).collect();
    let positions: Vec<[u8; 3]> = (0..5u8).map(|i| [i, 0, 0]).collect();
    let faces = vec![[4, 2, 3], [0, 1, 1], [0, 1, 2]];
    mesh.compact(
        &positions,
        &faces,
        &vec![true, true, false],
        [0; 3],
        &|_: [[u8; 3]; 3]| [1; 3],
        &|a: [u8; 3], b: [u8; 3]| [a[0] + b[0], a[1] + b[1], a[2] + b[2]],
        &|a: [u8; 3]| a,
    );
    assert_eq!(mesh.indices, vec![[0, 1, 2]]);
    assert_eq!(mesh.positions, vec![[4, 0, 0], [2, 0, 0], [3, 0, 0]]);
    assert_eq!(mesh.colors, vec![[4, 4, 4], [2, 2, 2], [3, 3, 3]]);
    assert!(mesh.uvs.is_empty());
}

#[test]
fn a_compacted_mesh_has_new_normals_just_where_it_had_some() {
    let compacted = |normals: usize| {
        let mut mesh = Mesh::empty();
        mesh.positions = vec![[0u32; 3]; 5];
        mesh.normals = vec![[9u32; 3]; normals];
        let positions: Vec<[u32; 3]> = (0..5u32).map(|i| [i, 0, 0]).collect();
        let faces = vec![[4, 2, 3], [0, 1, 2], [3, 2, 1]];
        mesh.compact(
            &positions,
            &faces,
            &vec![true, false, true],
            [0; 3],
            &|c: [[u32; 3]; 3]| [100 * c[0][0] + 10 * c[1][0] + c[2][0], 1, 0],
            &|a: [u32; 3], b: [u32; 3]| [a[0] + b[0], a[1] + b[1], a[2] + b[2]],
            &|a: [u32; 3]| [a[0], a[1], 7],
        );
        assert_eq!(mesh.indices, vec![[0, 1, 2], [2, 1, 3]]);
        mesh.normals
    };
    // The vertices left are 4, 2, 3 and 1; the two in the middle have two faces.
    let sums = vec![[423, 1, 7], [423 + 321, 2, 7], [423 + 321, 2, 7], [321, 1, 7]];
    assert_eq!(compacted(5), sums);
    assert_eq!(compacted(0), Vec::<[u32; 3]>::new());
}

#[test]
fn every_corner_gets_what_its_faces_are_worth() {
    let mut mesh = Mesh::empty();
    mesh.positions = vec![[0u32; 3], [1; 3], [2; 3], [3; 3]];
    mesh.indices = vec![[0, 1, 2], [2, 1, 3]];
    let worth = |corners: [[u32; 3]; 3]| vec_of(corners);
    let sums = mesh.face_sums(0, &worth, &|a: u32, b: u32| a + b);
    assert_eq!(sums, vec![12, 12 + 213, 12 + 213, 213]);
    // Four sides are open; each gives a hundred to both of its ends.
    let mut sums = vec![0; 4];
    let wall = |_: [[u32; 3]; 3], _: [u32; 3], _: [u32; 3]| 100;
    mesh.side_sums(&mut sums, &wall, &|a: u32, b: u32| a + b);
    assert_eq!(sums, vec![200, 200, 200, 200]);
    let both = mesh.quadrics(0, &worth, &wall, &|a: u32, b: u32| a + b);
    assert_eq!(both, vec![212, 425, 425, 413]);
}

/// The first coordinates of three corners, read as one number.
fn vec_of(corners: [[u32; 3]; 3]) -> u32 {
    corners[0][0] * 100 + corners[1][0] * 10 + corners[2][0]
}

#[test]
fn an_open_edge_is_a_boundary() {
    let mesh = grid(1);
    assert_eq!(mesh.boundary_sides(), vec![(0, 0), (0, 2), (1, 0), (1, 1)]);
    assert_eq!(ordered(4, 2), (2, 4));
    assert_eq!(ordered(2, 4), (2, 4));
}

// -- GLB containers ----------------------------------------------------------

/// The surface in a container whose nodes move nothing.
fn unpack(bytes: Vec<u8>) -> Mesh<f32> {
    let scene = match Glb::parse(bytes).unwrap().gather() {
        Ok(scene) => scene,
        Err(_) => panic!("the container holds no surface"),
    };
    let mut mesh = Mesh::empty();
    mesh.positions = scene
        .mesh
        .positions
        .iter()
        .map(|v| {
            v.map(|c| match c {
                Component::Float(bits) => f32::from_bits(bits),
                _ => panic!("a position is no float"),
            })
        })
        .collect();
    mesh.indices = scene.mesh.indices;
    mesh
}

#[test]
fn a_simplified_sphere_writes_and_reads_back_as_the_same_surface() {
    let mut mesh = march(
        |points| points.iter().map(|point| length(*point) - 0.7).collect(),
        20,
        [-1.0; 3],
        [1.0; 3],
        0.0,
    )
    .unwrap();
    let target = mesh.indices.len() / 3;
    simplify(&mut mesh, target);
    recompute_normals(&mut mesh);

    let bits = |values: &[[f32; 3]]| values.iter().map(|v| v.map(f32::to_bits)).collect();
    let stored = Mesh {
        positions: bits(&mesh.positions),
        normals: bits(&mesh.normals),
        uvs: Vec::new(),
        colors: Vec::new(),
        indices: mesh.indices.clone(),
    };
    let (low, high) = bounds(&mesh);
    let triple = |values: [f32; 3]| {
        Json::Array(values.iter().map(|v| Json::Float(format!("{v:.9}"))).collect())
    };
    let written = stored.to_glb(triple(low), triple(high)).unwrap();

    let read = unpack(written.to_bytes());
    assert_eq!(read.indices.len(), mesh.indices.len());
    for point in &read.positions {
        let radius = (point[0] * point[0] + point[1] * point[1] + point[2] * point[2]).sqrt();
        assert!((radius - 0.7).abs() < 0.1, "{point:?}");
    }
}

#[test]
fn a_glb_survives_a_trip_through_the_distance_field() {
    let mut binary: Vec<u8> = Vec::new();
    let corners: [[f32; 3]; 8] = [
        [-1.0, -1.0, -1.0],
        [1.0, -1.0, -1.0],
        [1.0, 1.0, -1.0],
        [-1.0, 1.0, -1.0],
        [-1.0, -1.0, 1.0],
        [1.0, -1.0, 1.0],
        [1.0, 1.0, 1.0],
        [-1.0, 1.0, 1.0],
    ];
    for corner in corners {
        binary.extend(corner.iter().flat_map(|v| v.to_le_bytes()));
    }
    let faces: [[u16; 3]; 12] = [
        [0, 2, 1],
        [0, 3, 2],
        [4, 5, 6],
        [4, 6, 7],
        [0, 1, 5],
        [0, 5, 4],
        [2, 3, 7],
        [2, 7, 6],
        [1, 2, 6],
        [1, 6, 5],
        [0, 4, 7],
        [0, 7, 3],
    ];
    for face in faces {
        binary.extend(face.iter().flat_map(|v| v.to_le_bytes()));
    }
    let text = r#"{
      "scene": 0,
      "scenes": [{"nodes": [0]}],
      "nodes": [{"mesh": 0}],
      "meshes": [{"primitives": [{"attributes": {"POSITION": 0}, "indices": 1}]}],
      "accessors": [
        {"bufferView": 0, "componentType": 5126, "count": 8, "type": "VEC3"},
        {"bufferView": 1, "componentType": 5123, "count": 36, "type": "SCALAR"}
      ],
      "bufferViews": [
        {"buffer": 0, "byteOffset": 0, "byteLength": 96},
        {"buffer": 0, "byteOffset": 96, "byteLength": 72}
      ],
      "buffers": [{"byteLength": 168}]
    }"#;
    let mut json = text.as_bytes().to_vec();
    json.resize(json.len().next_multiple_of(4), b' ');
    let mut bytes = Vec::new();
    bytes.extend(MAGIC.to_le_bytes());
    bytes.extend(2u32.to_le_bytes());
    bytes.extend(((12 + 8 + json.len() + 8 + binary.len()) as u32).to_le_bytes());
    bytes.extend((json.len() as u32).to_le_bytes());
    bytes.extend(JSON_CHUNK.to_le_bytes());
    bytes.extend(&json);
    bytes.extend((binary.len() as u32).to_le_bytes());
    bytes.extend(BINARY_CHUNK.to_le_bytes());
    bytes.extend(&binary);
    let mut mesh = unpack(bytes);
    assert_eq!(mesh.indices.len(), 12);

    normalize(&mut mesh);
    let bvh = tree(&mesh);
    let marched =
        march(|points| bvh.signed_distance(points), 48, [-1.2; 3], [1.2; 3], 0.0).unwrap();

    // Every marched vertex should sit on the original cube's surface.
    let worst = marched
        .positions
        .iter()
        .map(|point| bvh.closest_point(*point).unwrap().1)
        .fold(0.0f32, f32::max);
    assert!(worst < 0.05, "worst vertex sits {worst} from the surface");
}
