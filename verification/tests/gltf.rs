//! Meshes in GLB containers: written, read back, refused.
use rusting_brain::error::NetworkError;
use rusting_brain::glb::{Glb, BINARY_CHUNK, JSON_CHUNK, MAGIC};
use rusting_brain::gltf::{Component, Scene, Stop};
use rusting_brain::gltf_node::{node_transform, Entry, Transform};
use rusting_brain::json::{item, member, number, Json, Member};
use rusting_brain::mesh::Mesh;

/// A mesh in numbers.
#[derive(Clone, Debug, Default, PartialEq)]
struct Shape {
    positions: Vec<[f32; 3]>,
    normals: Vec<[f32; 3]>,
    uvs: Vec<[f32; 2]>,
    colors: Vec<[f32; 3]>,
    indices: Vec<[u32; 3]>,
}

fn bits3(values: &[[f32; 3]]) -> Vec<[u32; 3]> {
    values.iter().map(|v| v.map(f32::to_bits)).collect()
}

impl Shape {
    fn bits(&self) -> Mesh<u32> {
        Mesh {
            positions: bits3(&self.positions),
            normals: bits3(&self.normals),
            uvs: self.uvs.iter().map(|v| v.map(f32::to_bits)).collect(),
            colors: bits3(&self.colors),
            indices: self.indices.clone(),
        }
    }

    fn to_glb(&self) -> Result<Glb, NetworkError> {
        let mut low = [f32::INFINITY; 3];
        let mut high = [f32::NEG_INFINITY; 3];
        for position in &self.positions {
            for axis in 0..3 {
                low[axis] = low[axis].min(position[axis]);
                high[axis] = high[axis].max(position[axis]);
            }
        }
        self.bits().to_glb(triple(low), triple(high))
    }

    /// Area-weighted vertex normals.
    fn recompute_normals(&mut self) {
        let mut sums = vec![[0.0f32; 3]; self.positions.len()];
        for face in &self.indices {
            let [a, b, c] = face.map(|i| self.positions[i as usize]);
            let u: [f32; 3] = std::array::from_fn(|k| b[k] - a[k]);
            let v: [f32; 3] = std::array::from_fn(|k| c[k] - a[k]);
            let n = [
                u[1] * v[2] - u[2] * v[1],
                u[2] * v[0] - u[0] * v[2],
                u[0] * v[1] - u[1] * v[0],
            ];
            for &i in face {
                for k in 0..3 {
                    sums[i as usize][k] += n[k];
                }
            }
        }
        self.normals = sums
            .into_iter()
            .map(|n| {
                let length = n.iter().map(|v| v * v).sum::<f32>().sqrt();
                if length == 0.0 { [0.0; 3] } else { n.map(|v| v / length) }
            })
            .collect();
    }
}

/// A number in plain decimals.
fn fraction(value: f32) -> Json {
    let text = format!("{}", value as f64);
    Json::Float(if text.contains('.') { text } else { text + ".0" })
}

fn triple(values: [f32; 3]) -> Json {
    Json::Array(values.iter().map(|&v| fraction(v)).collect())
}

fn number_of(json: &Json) -> f32 {
    json.as_number().and_then(|text| text.parse::<f32>().ok()).unwrap_or(0.0)
}

/// The number a stored coordinate stands for.
fn value(component: Component, glb: &Glb) -> f32 {
    match component {
        Component::Float(bits) => f32::from_bits(bits),
        Component::Byte(v) => v as f32 / 255.0,
        Component::Short(v) => v as f32 / 65535.0,
        Component::SignedByte(v) => (v as f32 / 127.0).max(-1.0),
        Component::SignedShort(v) => (v as f32 / 32767.0).max(-1.0),
        Component::Zero => 0.0,
        Component::One => 1.0,
        Component::Factor { material, channel } => {
            let material = item(member(Some(&glb.json), "materials"), material);
            let factor = member(member(material, "pbrMetallicRoughness"), "baseColorFactor");
            item(factor, channel as u64).map_or(1.0, number_of)
        }
    }
}

fn vector(json: Option<&Json>, key: &str, fallback: &[f32]) -> Vec<f32> {
    let list = member(json, key);
    (0..fallback.len())
        .map(|i| item(list, i as u64).map_or(fallback[i], number_of))
        .collect()
}

fn numbers(entries: &[Entry]) -> Vec<f32> {
    entries
        .iter()
        .map(|entry| match entry {
            Entry::Zero => 0.0,
            Entry::One => 1.0,
            Entry::Number(text) => text.parse().unwrap(),
        })
        .collect()
}

/// A node's own transform, column by column.
fn local(node: Option<&Json>) -> [f32; 16] {
    let (t, q, s) = match node_transform(node) {
        Transform::Matrix(matrix) => {
            let values = numbers(&matrix);
            return std::array::from_fn(|i| values[i]);
        }
        Transform::Parts { translation, rotation, scale } => {
            (numbers(&translation), numbers(&rotation), numbers(&scale))
        }
    };
    let (x, y, z, w) = (q[0], q[1], q[2], q[3]);
    let turn = [
        [1.0 - 2.0 * (y * y + z * z), 2.0 * (x * y + z * w), 2.0 * (x * z - y * w)],
        [2.0 * (x * y - z * w), 1.0 - 2.0 * (x * x + z * z), 2.0 * (y * z + x * w)],
        [2.0 * (x * z + y * w), 2.0 * (y * z - x * w), 1.0 - 2.0 * (x * x + y * y)],
    ];
    let mut matrix = [0.0; 16];
    for column in 0..3 {
        for row in 0..3 {
            matrix[column * 4 + row] = turn[column][row] * s[column];
        }
    }
    matrix[12..15].copy_from_slice(&t[..3]);
    matrix[15] = 1.0;
    matrix
}

fn product(a: [f32; 16], b: [f32; 16]) -> [f32; 16] {
    std::array::from_fn(|i| (0..4).map(|k| a[k * 4 + i % 4] * b[i / 4 * 4 + k]).sum())
}

fn finished(glb: &Glb, scene: &Scene) -> Shape {
    let number3 = |v: &[Component; 3]| v.map(|c| value(c, glb));
    let mut shape = Shape {
        positions: scene.mesh.positions.iter().map(number3).collect(),
        normals: scene.mesh.normals.iter().map(number3).collect(),
        uvs: scene.mesh.uvs.iter().map(|v| v.map(|c| value(c, glb))).collect(),
        colors: scene.mesh.colors.iter().map(number3).collect(),
        indices: scene.mesh.indices.clone(),
    };
    for part in &scene.parts {
        let mut matrix: [f32; 16] = std::array::from_fn(|i| if i % 5 == 0 { 1.0 } else { 0.0 });
        for &node in &part.path {
            matrix = product(matrix, local(item(member(Some(&glb.json), "nodes"), node)));
        }
        for i in part.first_position..part.first_position + part.positions {
            let p = shape.positions[i];
            shape.positions[i] = std::array::from_fn(|row| {
                (0..3).map(|k| matrix[k * 4 + row] * p[k]).sum::<f32>() + matrix[12 + row]
            });
        }
    }
    shape
}

fn mesh(glb: &Glb) -> Result<Shape, NetworkError> {
    match glb.gather() {
        Ok(scene) => Ok(finished(glb, &scene)),
        Err(Stop::Failed(error)) => Err(error),
        Err(Stop::Stuck) => panic!("there is no scene to speak of"),
    }
}

fn read(bytes: Vec<u8>) -> Shape {
    mesh(&Glb::parse(bytes).unwrap()).unwrap()
}

/// Builds a GLB out of a JSON description and a binary chunk.
fn glb(json: &str, binary: &[u8]) -> Vec<u8> {
    let mut json = json.as_bytes().to_vec();
    json.resize(json.len().next_multiple_of(4), b' ');
    let mut binary = binary.to_vec();
    binary.resize(binary.len().next_multiple_of(4), 0);

    let mut bytes = Vec::new();
    bytes.extend(MAGIC.to_le_bytes());
    bytes.extend(2u32.to_le_bytes());
    bytes.extend(((12 + 8 + json.len() + 8 + binary.len()) as u32).to_le_bytes());
    bytes.extend((json.len() as u32).to_le_bytes());
    bytes.extend(JSON_CHUNK.to_le_bytes());
    bytes.extend(&json);
    bytes.extend((binary.len() as u32).to_le_bytes());
    bytes.extend(BINARY_CHUNK.to_le_bytes());
    bytes.extend(&binary);
    bytes
}

fn message(error: NetworkError) -> String {
    match error {
        NetworkError::InvalidDataset(message) | NetworkError::InvalidConfig(message) => message,
        other => format!("{other:?}"),
    }
}

#[test]
fn a_mesh_survives_a_round_trip_through_a_written_glb() {
    let mut original = Shape {
        positions: vec![
            [0.0, 0.0, 0.0],
            [1.0, 0.0, 0.0],
            [0.0, 1.0, 0.0],
            [0.0, 0.0, 1.0],
        ],
        indices: vec![[0, 1, 2], [0, 2, 3], [0, 3, 1], [1, 3, 2]],
        uvs: vec![[0.0, 0.0], [1.0, 0.0], [0.0, 1.0], [1.0, 1.0]],
        ..Shape::default()
    };
    original.recompute_normals();

    let bytes = original.to_glb().unwrap().to_bytes();
    let read = read(bytes);

    assert_eq!(read.positions, original.positions);
    assert_eq!(read.indices, original.indices);
    assert_eq!(read.uvs, original.uvs);
    assert_eq!(read.normals.len(), original.normals.len());
    for (read, original) in read.normals.iter().zip(&original.normals) {
        for axis in 0..3 {
            assert!((read[axis] - original[axis]).abs() < 1e-6);
        }
    }
}

#[test]
fn a_bare_mesh_writes_only_the_attributes_it_has() {
    let bare = Shape {
        positions: vec![[0.0, 0.0, 0.0], [2.0, 0.0, 0.0], [0.0, 3.0, 0.0]],
        indices: vec![[0, 1, 2]],
        ..Shape::default()
    };

    let glb = bare.to_glb().unwrap();
    let primitives = member(item(member(Some(&glb.json), "meshes"), 0), "primitives");
    let attributes = member(item(primitives, 0), "attributes").unwrap();
    assert!(attributes.get("POSITION").is_some());
    assert!(attributes.get("NORMAL").is_none());
    assert!(attributes.get("TEXCOORD_0").is_none());
    assert!(attributes.get("COLOR_0").is_none());

    // The bounding box on the position accessor.
    let accessor = item(member(Some(&glb.json), "accessors"), 1);
    assert_eq!(vector(accessor, "min", &[9.0; 3]), vec![0.0, 0.0, 0.0]);
    assert_eq!(vector(accessor, "max", &[9.0; 3]), vec![2.0, 3.0, 0.0]);

    let read = read(glb.to_bytes());
    assert_eq!(read.positions, bare.positions);
    assert_eq!(read.indices, bare.indices);
    assert!(read.normals.is_empty());
}

#[test]
fn vertex_colours_survive_a_round_trip_through_a_written_glb() {
    let coloured = Shape {
        positions: vec![[0.0, 0.0, 0.0], [1.0, 0.0, 0.0], [0.0, 1.0, 0.0]],
        indices: vec![[0, 1, 2]],
        colors: vec![[1.0, 0.0, 0.0], [0.0, 1.0, 0.0], [0.25, 0.5, 0.75]],
        ..Shape::default()
    };

    let glb = coloured.to_glb().unwrap();
    let primitives = member(item(member(Some(&glb.json), "meshes"), 0), "primitives");
    let attributes = member(item(primitives, 0), "attributes");
    assert!(number(member(attributes, "COLOR_0")).is_some());

    assert_eq!(read(glb.to_bytes()).colors, coloured.colors);
}

#[test]
fn a_colour_outside_the_unit_range_is_clamped_on_the_way_out() {
    let bright = Shape {
        positions: vec![[0.0, 0.0, 0.0], [1.0, 0.0, 0.0], [0.0, 1.0, 0.0]],
        indices: vec![[0, 1, 2]],
        colors: vec![[-0.2, 1.4, 0.5]; 3],
        ..Shape::default()
    };

    let read = read(bright.to_glb().unwrap().to_bytes());
    assert_eq!(read.colors, vec![[0.0, 1.0, 0.5]; 3]);
}

/// The value under a key of an object, to be written to.
fn at<'a>(json: &'a mut Json, key: &str) -> &'a mut Json {
    match json {
        Json::Object(members) => {
            let found: &'a mut Member = members.iter_mut().find(|m| m.key == key).unwrap();
            &mut found.value
        }
        _ => panic!("not an object"),
    }
}

fn first(json: &mut Json) -> &mut Json {
    match json {
        Json::Array(items) => &mut items[0],
        _ => panic!("not an array"),
    }
}

#[test]
fn a_material_base_colour_stands_in_for_missing_vertex_colours() {
    let plain = Shape {
        positions: vec![[0.0, 0.0, 0.0], [1.0, 0.0, 0.0], [0.0, 1.0, 0.0]],
        indices: vec![[0, 1, 2]],
        ..Shape::default()
    };
    let mut glb = plain.to_glb().unwrap();
    *at(
        at(first(at(&mut glb.json, "materials")), "pbrMetallicRoughness"),
        "baseColorFactor",
    ) = Json::Array([0.2, 0.4, 0.6, 1.0].iter().map(|&v| fraction(v)).collect());

    assert_eq!(read(glb.to_bytes()).colors, vec![[0.2, 0.4, 0.6]; 3]);
}

#[test]
fn a_written_base_colour_is_white() {
    let plain = Shape {
        positions: vec![[0.0, 0.0, 0.0], [1.0, 0.0, 0.0], [0.0, 1.0, 0.0]],
        indices: vec![[0, 1, 2]],
        ..Shape::default()
    };
    assert_eq!(read(plain.to_glb().unwrap().to_bytes()).colors, vec![[1.0; 3]; 3]);
}

#[test]
fn a_written_glb_has_the_header_and_padding_the_spec_asks_for() {
    let plain = Shape {
        positions: vec![[0.0, 0.0, 0.0], [1.0, 0.0, 0.0], [0.0, 1.0, 0.0]],
        indices: vec![[0, 1, 2]],
        ..Shape::default()
    };
    let bytes = plain.to_glb().unwrap().to_bytes();

    let word = |at: usize| u32::from_le_bytes(bytes[at..at + 4].try_into().unwrap());
    assert_eq!(word(0), MAGIC);
    assert_eq!(word(4), 2);
    assert_eq!(word(8) as usize, bytes.len());
    assert_eq!(bytes.len() % 4, 0);

    let json_length = word(12) as usize;
    assert_eq!(word(16), JSON_CHUNK);
    assert_eq!(json_length % 4, 0);
    // The JSON is padded with spaces, so it still parses as it stands.
    serde_json::from_slice::<serde_json::Value>(&bytes[20..20 + json_length]).unwrap();

    let binary_at = 20 + json_length;
    assert_eq!(word(binary_at + 4), BINARY_CHUNK);
    assert_eq!(word(binary_at) as usize % 4, 0);
    assert_eq!(binary_at + 8 + word(binary_at) as usize, bytes.len());
}

#[test]
fn a_mesh_that_is_not_a_mesh_is_refused() {
    assert!(Shape::default().to_glb().is_err());

    let broken = Shape {
        positions: vec![[0.0, 0.0, 0.0]],
        indices: vec![[0, 1, 2]],
        ..Shape::default()
    };
    let error = match broken.to_glb() {
        Ok(_) => panic!("a face naming a vertex that is not there was written"),
        Err(error) => message(error),
    };
    assert!(error.contains("vertex 1 of 1"), "{error}");

    let mismatched = Shape {
        positions: vec![[0.0; 3], [1.0; 3], [2.0; 3]],
        indices: vec![[0, 1, 2]],
        normals: vec![[0.0, 0.0, 1.0]],
        ..Shape::default()
    };
    assert!(mismatched.to_glb().is_err());
}

/// One triangle: three positions then three 16-bit indices.
fn triangle_binary() -> Vec<u8> {
    let positions: [f32; 9] = [0.0, 0.0, 0.0, 1.0, 0.0, 0.0, 0.0, 1.0, 0.0];
    let mut bytes: Vec<u8> = positions.iter().flat_map(|v| v.to_le_bytes()).collect();
    bytes.extend([0u16, 1, 2].iter().flat_map(|v| v.to_le_bytes()));
    bytes
}

fn triangle_json(node: &str) -> String {
    format!(
        r#"{{
          "scene": 0,
          "scenes": [{{"nodes": [0]}}],
          "nodes": [{{"mesh": 0 {node}}}],
          "meshes": [{{"primitives": [{{"attributes": {{"POSITION": 0}}, "indices": 1}}]}}],
          "accessors": [
            {{"bufferView": 0, "componentType": 5126, "count": 3, "type": "VEC3"}},
            {{"bufferView": 1, "componentType": 5123, "count": 3, "type": "SCALAR"}}
          ],
          "bufferViews": [
            {{"buffer": 0, "byteOffset": 0, "byteLength": 36}},
            {{"buffer": 0, "byteOffset": 36, "byteLength": 6}}
          ],
          "buffers": [{{"byteLength": 42}}]
        }}"#
    )
}

#[test]
fn a_triangle_comes_back_with_its_indices() {
    let found = read(glb(&triangle_json(""), &triangle_binary()));

    assert_eq!(found.positions.len(), 3);
    assert_eq!(found.indices, vec![[0, 1, 2]]);
    assert_eq!(found.positions[found.indices[0][1] as usize], [1.0, 0.0, 0.0]);
    assert!(found.normals.is_empty());
}

#[test]
fn a_nodes_translation_and_scale_move_its_vertices() {
    let node = r#", "translation": [5.0, 0.0, 0.0], "scale": [2.0, 3.0, 1.0]"#;
    let found = read(glb(&triangle_json(node), &triangle_binary()));

    // Scale first, then translate: (1, 0, 0) scales to (2, 0, 0).
    assert_eq!(found.positions[0], [5.0, 0.0, 0.0]);
    assert_eq!(found.positions[1], [7.0, 0.0, 0.0]);
    assert_eq!(found.positions[2], [5.0, 3.0, 0.0]);
}

#[test]
fn a_quarter_turn_about_z_sends_x_to_y() {
    // The quaternion for ninety degrees about z.
    let half = std::f32::consts::FRAC_1_SQRT_2;
    let node = format!(r#", "rotation": [0.0, 0.0, {half}, {half}]"#);
    let found = read(glb(&triangle_json(&node), &triangle_binary()));

    let moved = found.positions[1];
    assert!((moved[0] - 0.0).abs() < 1e-6, "{moved:?}");
    assert!((moved[1] - 1.0).abs() < 1e-6, "{moved:?}");
}

#[test]
fn a_child_node_inherits_its_parents_transform() {
    let json = r#"{
      "scene": 0,
      "scenes": [{"nodes": [0]}],
      "nodes": [
        {"translation": [0.0, 10.0, 0.0], "children": [1]},
        {"mesh": 0, "translation": [0.0, 1.0, 0.0]}
      ],
      "meshes": [{"primitives": [{"attributes": {"POSITION": 0}, "indices": 1}]}],
      "accessors": [
        {"bufferView": 0, "componentType": 5126, "count": 3, "type": "VEC3"},
        {"bufferView": 1, "componentType": 5123, "count": 3, "type": "SCALAR"}
      ],
      "bufferViews": [
        {"buffer": 0, "byteOffset": 0, "byteLength": 36},
        {"buffer": 0, "byteOffset": 36, "byteLength": 6}
      ],
      "buffers": [{"byteLength": 42}]
    }"#;
    let found = read(glb(json, &triangle_binary()));

    assert_eq!(found.positions[0], [0.0, 11.0, 0.0]);
}

#[test]
fn an_interleaved_buffer_is_read_through_its_stride() {
    // Position and normal packed together, twenty-four bytes per vertex.
    let vertices: [[f32; 6]; 3] = [
        [0.0, 0.0, 0.0, 0.0, 0.0, 1.0],
        [1.0, 0.0, 0.0, 0.0, 0.0, 1.0],
        [0.0, 1.0, 0.0, 0.0, 0.0, 1.0],
    ];
    let mut binary: Vec<u8> = vertices
        .iter()
        .flat_map(|vertex| vertex.iter().flat_map(|v| v.to_le_bytes()))
        .collect();
    binary.extend([0u16, 1, 2].iter().flat_map(|v| v.to_le_bytes()));

    let json = r#"{
      "scene": 0,
      "scenes": [{"nodes": [0]}],
      "nodes": [{"mesh": 0}],
      "meshes": [{"primitives": [
        {"attributes": {"POSITION": 0, "NORMAL": 1}, "indices": 2}
      ]}],
      "accessors": [
        {"bufferView": 0, "byteOffset": 0, "componentType": 5126, "count": 3, "type": "VEC3"},
        {"bufferView": 0, "byteOffset": 12, "componentType": 5126, "count": 3, "type": "VEC3"},
        {"bufferView": 1, "componentType": 5123, "count": 3, "type": "SCALAR"}
      ],
      "bufferViews": [
        {"buffer": 0, "byteOffset": 0, "byteLength": 72, "byteStride": 24},
        {"buffer": 0, "byteOffset": 72, "byteLength": 6}
      ],
      "buffers": [{"byteLength": 78}]
    }"#;
    let found = read(glb(json, &binary));

    assert_eq!(found.positions[2], [0.0, 1.0, 0.0]);
    assert_eq!(found.normals[2], [0.0, 0.0, 1.0]);
}

#[test]
fn a_file_that_is_not_a_glb_is_refused() {
    let error = match Glb::parse(b"not a gltf file at all".to_vec()) {
        Ok(_) => panic!("a file with no magic word was read as a GLB"),
        Err(error) => message(error),
    };
    assert!(error.contains("magic"), "{error}");
}

#[test]
fn a_draco_compressed_primitive_is_refused_by_name() {
    let json = r#"{
      "scene": 0,
      "scenes": [{"nodes": [0]}],
      "nodes": [{"mesh": 0}],
      "meshes": [{"primitives": [{
        "attributes": {"POSITION": 0},
        "extensions": {"KHR_draco_mesh_compression": {"bufferView": 0}}
      }]}],
      "accessors": [{"bufferView": 0, "componentType": 5126, "count": 3, "type": "VEC3"}],
      "bufferViews": [{"buffer": 0, "byteOffset": 0, "byteLength": 36}],
      "buffers": [{"byteLength": 36}]
    }"#;
    let error = message(mesh(&Glb::parse(glb(json, &triangle_binary())).unwrap()).unwrap_err());
    assert!(error.contains("Draco"), "{error}");
}

#[test]
fn an_accessor_that_reads_past_the_buffer_is_refused() {
    let json = r#"{
      "scene": 0,
      "scenes": [{"nodes": [0]}],
      "nodes": [{"mesh": 0}],
      "meshes": [{"primitives": [{"attributes": {"POSITION": 0}}]}],
      "accessors": [{"bufferView": 0, "componentType": 5126, "count": 300, "type": "VEC3"}],
      "bufferViews": [{"buffer": 0, "byteOffset": 0, "byteLength": 36}],
      "buffers": [{"byteLength": 36}]
    }"#;
    let error = message(mesh(&Glb::parse(glb(json, &triangle_binary())).unwrap()).unwrap_err());
    assert!(error.contains("past the end"), "{error}");
}

#[test]
fn nodes_that_loop_back_are_no_scene() {
    let json = r#"{"scenes": [{"nodes": [0]}], "nodes": [{"children": [0]}]}"#;
    let found = Glb::parse(glb(json, &[])).unwrap().gather();
    assert!(matches!(found, Err(Stop::Stuck)));
}

#[test]
fn a_file_without_a_scene_is_refused() {
    let glb = Glb::new(Json::parse(b"{}").unwrap(), Vec::new());
    assert_eq!(message(mesh(&glb).unwrap_err()), "the file has no scene");
}

#[test]
fn a_document_is_read_back_as_it_was_written() {
    let text = br#"{"a": [1, -2, true, null, "x"], "b": {"c": 0.5}}"#;
    let json = Json::parse(text).unwrap();
    assert_eq!(number(item(json.get("a"), 0)), Some(1));
    assert!(matches!(item(json.get("a"), 1), Some(Json::Negative(-2))));
    assert_eq!(item(json.get("a"), 2).unwrap().as_bool(), Some(true));
    assert_eq!(item(json.get("a"), 4).unwrap().as_str().unwrap(), "x");
    assert_eq!(json.get("b").unwrap().get("c").unwrap().as_number().unwrap(), "0.5");
    let bytes = json.to_bytes();
    assert_eq!(bytes, br#"{"a":[1,-2,true,null,"x"],"b":{"c":0.5}}"#.to_vec());
    assert!(matches!(Json::parse(b"{"), Err(NetworkError::Json(words)) if words.starts_with("EOF")));
}

#[test]
fn a_node_states_a_matrix_or_the_parts_of_one() {
    let of = |text: &str| node_transform(Some(&Json::parse(text.as_bytes()).unwrap()));
    let number = |text: &str| Entry::Number(text.to_string());
    // A short matrix falls back on the identity; what is no number counts as
    // zero.
    match of(r#"{"matrix": [2, "x", -0.5], "translation": [1, 2, 3]}"#) {
        Transform::Matrix(matrix) => {
            assert_eq!(matrix.len(), 16);
            assert_eq!(matrix[..3], [number("2"), Entry::Zero, number("-0.5")]);
            for (i, entry) in matrix.iter().enumerate().skip(3) {
                assert_eq!(*entry, if i % 5 == 0 { Entry::One } else { Entry::Zero });
            }
        }
        other => panic!("{other:?}"),
    }
    let (zero, one) = (|| Entry::Zero, || Entry::One);
    // What is no list is as good as absent, and extra items are left alone.
    assert_eq!(
        of(r#"{"matrix": 3, "translation": [1, 2.5, -3, 4, 5], "rotation": {"0": 1}, "scale": [null]}"#),
        Transform::Parts {
            translation: vec![number("1"), number("2.5"), number("-3"), number("4")],
            rotation: vec![zero(), zero(), zero(), one()],
            scale: vec![zero(), one(), one(), one()],
        }
    );
    let plain = Transform::Parts {
        translation: vec![zero(), zero(), zero(), zero()],
        rotation: vec![zero(), zero(), zero(), one()],
        scale: vec![one(), one(), one(), one()],
    };
    assert_eq!(of("{}"), plain);
    assert_eq!(node_transform(None), plain);
}

#[test]
fn a_fraction_is_written_as_the_shortest_text_that_reads_back() {
    // Digits past what the number holds are gone, and so is an exponent that
    // is not needed.
    let json = Json::Array(vec![
        Json::Float("0.10000000000000000555".to_string()),
        Json::Float("2.50e-1".to_string()),
        Json::Unsigned(7),
    ]);
    assert_eq!(json.to_bytes(), b"[0.1,0.25,7]".to_vec());
    let glb = Glb::new(json, vec![1, 2, 3, 4]);
    let bytes = glb.to_bytes();
    assert_eq!(&bytes[20..32], b"[0.1,0.25,7]");
    let back = Glb::parse(bytes).unwrap();
    assert_eq!(item(Some(&back.json), 1).unwrap().as_number().unwrap(), "0.25");
}

#[test]
fn bounds_of_any_size_survive_a_round_trip() {
    let shape = Shape {
        positions: vec![[1e-20, 0.0, 3e30], [-2.5, 1e-44, 0.0], [0.0, 7.0, -1e-7]],
        indices: vec![[0, 1, 2]],
        ..Shape::default()
    };
    let back = Glb::parse(shape.to_glb().unwrap().to_bytes()).unwrap();
    let found = mesh(&back).unwrap();
    assert_eq!(found.positions, shape.positions);
    assert_eq!(found.indices, shape.indices);
    let accessors = member(Some(&back.json), "accessors");
    let bounds: Vec<Vec<f32>> = (0..2)
        .map(|i| item(accessors, i))
        .filter(|accessor| member(*accessor, "min").is_some())
        .flat_map(|accessor| {
            [vector(accessor, "min", &[9.0; 3]), vector(accessor, "max", &[9.0; 3])]
        })
        .collect();
    assert_eq!(bounds, vec![vec![-2.5, 0.0, -1e-7], vec![1e-20, 7.0, 3e30]]);
}
