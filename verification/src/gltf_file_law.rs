//! A written mesh survives the file, too: the JSON text of its description is
//! read back up to the digits of its fractions, and those do not decide which
//! scene is read.
use crate::glb::{contents, padded};
use crate::gltf::{
    accessor, appended, attribute, base_colour, colours, corners, depth_limit, gathered, nothing,
    scalars, vectors, walked, with_children, with_mesh, with_primitives, Halt, SceneView,
};
use crate::gltf_law::{binary_of, law_round_trip, scene_back, writable};
use crate::gltf_write::{
    accessor_tree, attributes, document, flat2, flat3, material_tree, primitive_tree,
    section_bytes, sections, single, view_tree, words, Section,
};
use crate::json::{agrees, find, is_digit, is_fraction, is_plain, precedes, Tree};
use crate::mesh::Mesh;
use vstd::prelude::*;

verus! {

// -- Fractions do not matter -------------------------------------------------

proof fn lemma_find_agrees(x: Seq<(Seq<char>, Tree)>, y: Seq<(Seq<char>, Tree)>, key: Seq<char>)
    requires
        x.len() == y.len(),
        forall|i: int|
            0 <= i < x.len() ==> (#[trigger] x[i]).0 == y[i].0 && agrees(x[i].1, y[i].1),
    ensures
        find(x, key) is Some <==> find(y, key) is Some,
        find(x, key) is Some ==> agrees(find(x, key)->Some_0, find(y, key)->Some_0),
    decreases x.len(),
{
    if x.len() > 0 {
        assert(x[0].0 == y[0].0 && agrees(x[0].1, y[0].1));
        let (p, q) = (x.drop_first(), y.drop_first());
        assert forall|i: int| 0 <= i < p.len() implies (#[trigger] p[i]).0 == q[i].0 && agrees(
            p[i].1,
            q[i].1,
        ) by {
            assert(p[i] == x[i + 1] && q[i] == y[i + 1]);
        }
        lemma_find_agrees(p, q, key);
    }
}

/// The members of values that agree do.
proof fn lemma_get(a: Tree, b: Tree, key: Seq<char>)
    requires
        agrees(a, b),
    ensures
        a.has(key) == b.has(key),
        agrees(a.get(key), b.get(key)),
{
    match (a, b) {
        (Tree::Object(x), Tree::Object(y)) => {
            lemma_find_agrees(x, y, key);
        },
        _ => {},
    }
}

/// The items of values that agree do.
proof fn lemma_at(a: Tree, b: Tree, index: int)
    requires
        agrees(a, b),
    ensures
        agrees(a.at(index), b.at(index)),
        a is Array == b is Array,
        a is Array ==> a->Array_0.len() == b->Array_0.len(),
{
}

proof fn lemma_accessor(a: Tree, b: Tree, index: u64)
    requires
        agrees(a, b),
    ensures
        accessor(a, index) == accessor(b, index),
{
    lemma_get(a, b, "accessors"@);
    lemma_at(a.get("accessors"@), b.get("accessors"@), index as int);
    let x = a.get("accessors"@).at(index as int);
    let y = b.get("accessors"@).at(index as int);
    lemma_get(x, y, "componentType"@);
    lemma_get(x, y, "type"@);
    lemma_get(x, y, "bufferView"@);
    lemma_get(x, y, "sparse"@);
    lemma_get(x, y, "count"@);
    lemma_get(x, y, "byteOffset"@);
    lemma_get(a, b, "bufferViews"@);
    let which = x.get("bufferView"@).number_or(0) as int;
    lemma_at(a.get("bufferViews"@), b.get("bufferViews"@), which);
    let v = a.get("bufferViews"@).at(which);
    let w = b.get("bufferViews"@).at(which);
    lemma_get(v, w, "byteStride"@);
    lemma_get(v, w, "byteOffset"@);
}

proof fn lemma_vectors(a: Tree, b: Tree, binary: Seq<u8>, index: u64, components: u64)
    requires
        agrees(a, b),
    ensures
        vectors(a, binary, index, components) == vectors(b, binary, index, components),
        scalars(a, binary, index) == scalars(b, binary, index),
{
    lemma_accessor(a, b, index);
}

proof fn lemma_attribute(
    a: Tree,
    b: Tree,
    binary: Seq<u8>,
    x: Tree,
    y: Tree,
    components: u64,
)
    requires
        agrees(a, b),
        agrees(x, y),
    ensures
        attribute(a, binary, x, components) == attribute(b, binary, y, components),
{
    match x {
        Tree::Unsigned(index) => {
            lemma_vectors(a, b, binary, index, components);
        },
        _ => {},
    }
}

proof fn lemma_base_colour(a: Tree, b: Tree, material: u64)
    requires
        agrees(a, b),
    ensures
        base_colour(a, material) == base_colour(b, material),
{
    lemma_get(a, b, "materials"@);
    lemma_at(a.get("materials"@), b.get("materials"@), material as int);
    let x = a.get("materials"@).at(material as int);
    let y = b.get("materials"@).at(material as int);
    lemma_get(x, y, "pbrMetallicRoughness"@);
    let (p, q) = (x.get("pbrMetallicRoughness"@), y.get("pbrMetallicRoughness"@));
    lemma_get(p, q, "baseColorFactor"@);
    let (f, g) = (p.get("baseColorFactor"@), q.get("baseColorFactor"@));
    lemma_at(f, g, 0);
    lemma_at(f, g, 1);
    lemma_at(f, g, 2);
}

proof fn lemma_colours(a: Tree, b: Tree, binary: Seq<u8>, x: Tree, y: Tree, vertices: nat)
    requires
        agrees(a, b),
        agrees(x, y),
    ensures
        colours(a, binary, x, vertices) == colours(b, binary, y, vertices),
{
    lemma_get(x, y, "attributes"@);
    lemma_get(x.get("attributes"@), y.get("attributes"@), "COLOR_0"@);
    lemma_get(x, y, "material"@);
    match x.get("attributes"@).get("COLOR_0"@) {
        Tree::Unsigned(index) => {
            lemma_accessor(a, b, index);
        },
        _ => match x.get("material"@) {
            Tree::Unsigned(material) => {
                lemma_base_colour(a, b, material);
                assert(colours(a, binary, x, vertices)->Ok_0 =~= colours(
                    b,
                    binary,
                    y,
                    vertices,
                )->Ok_0);
            },
            _ => {},
        },
    }
}

proof fn lemma_corners(
    a: Tree,
    b: Tree,
    binary: Seq<u8>,
    x: Tree,
    y: Tree,
    base: nat,
    vertices: nat,
)
    requires
        agrees(a, b),
        agrees(x, y),
    ensures
        corners(a, binary, x, base, vertices) == corners(b, binary, y, base, vertices),
{
    lemma_get(x, y, "indices"@);
    match x.get("indices"@) {
        Tree::Unsigned(index) => {
            lemma_vectors(a, b, binary, index, 1);
        },
        _ => {},
    }
}

proof fn lemma_appended(
    a: Tree,
    b: Tree,
    binary: Seq<u8>,
    x: Tree,
    y: Tree,
    path: Seq<u64>,
    scene: SceneView,
)
    requires
        agrees(a, b),
        agrees(x, y),
    ensures
        appended(a, binary, x, path, scene) == appended(b, binary, y, path, scene),
{
    lemma_get(x, y, "extensions"@);
    lemma_get(x.get("extensions"@), y.get("extensions"@), "KHR_draco_mesh_compression"@);
    lemma_get(x, y, "mode"@);
    lemma_get(x, y, "attributes"@);
    let (p, q) = (x.get("attributes"@), y.get("attributes"@));
    lemma_get(p, q, "POSITION"@);
    lemma_get(p, q, "NORMAL"@);
    lemma_get(p, q, "TEXCOORD_0"@);
    match p.get("POSITION"@) {
        Tree::Unsigned(index) => {
            lemma_vectors(a, b, binary, index, 3);
            if let Ok(positions) = vectors(a, binary, index, 3) {
                let vertices = positions.count as nat;
                lemma_attribute(a, b, binary, p.get("NORMAL"@), q.get("NORMAL"@), 3);
                lemma_attribute(a, b, binary, p.get("TEXCOORD_0"@), q.get("TEXCOORD_0"@), 2);
                lemma_colours(a, b, binary, x, y, vertices);
                lemma_corners(a, b, binary, x, y, scene.positions.len(), vertices);
            }
        },
        _ => {},
    }
}

proof fn lemma_primitives(
    a: Tree,
    b: Tree,
    binary: Seq<u8>,
    x: Seq<Tree>,
    y: Seq<Tree>,
    k: int,
    path: Seq<u64>,
    scene: SceneView,
)
    requires
        agrees(a, b),
        x.len() == y.len(),
        k <= x.len(),
        forall|i: int| 0 <= i < x.len() ==> agrees(#[trigger] x[i], y[i]),
    ensures
        with_primitives(a, binary, x, k, path, scene) == with_primitives(
            b,
            binary,
            y,
            k,
            path,
            scene,
        ),
    decreases k,
{
    if k > 0 {
        lemma_primitives(a, b, binary, x, y, k - 1, path, scene);
        if let Ok(scene) = with_primitives(a, binary, x, k - 1, path, scene) {
            assert(agrees(x[k - 1], y[k - 1]));
            lemma_appended(a, b, binary, x[k - 1], y[k - 1], path, scene);
        }
    }
}

proof fn lemma_mesh(
    a: Tree,
    b: Tree,
    binary: Seq<u8>,
    x: Tree,
    y: Tree,
    path: Seq<u64>,
    scene: SceneView,
)
    requires
        agrees(a, b),
        agrees(x, y),
    ensures
        with_mesh(a, binary, x, path, scene) == with_mesh(b, binary, y, path, scene),
{
    lemma_get(x, y, "mesh"@);
    lemma_get(a, b, "meshes"@);
    match x.get("mesh"@) {
        Tree::Unsigned(which) => {
            let (p, q) = (a.get("meshes"@), b.get("meshes"@));
            lemma_at(p, q, which as int);
            lemma_get(p.at(which as int), q.at(which as int), "primitives"@);
            let (v, w) = (
                p.at(which as int).get("primitives"@),
                q.at(which as int).get("primitives"@),
            );
            if let Tree::Array(list) = v {
                lemma_primitives(
                    a,
                    b,
                    binary,
                    list,
                    w->Array_0,
                    list.len() as int,
                    path,
                    scene,
                );
            }
        },
        _ => {},
    }
}

proof fn lemma_walked(
    a: Tree,
    b: Tree,
    binary: Seq<u8>,
    index: u64,
    path: Seq<u64>,
    scene: SceneView,
    fuel: nat,
)
    requires
        agrees(a, b),
    ensures
        walked(a, binary, index, path, scene, fuel) == walked(b, binary, index, path, scene, fuel),
    decreases fuel, 0int, 1int,
{
    if fuel > 0 {
        lemma_get(a, b, "nodes"@);
        lemma_at(a.get("nodes"@), b.get("nodes"@), index as int);
        let (x, y) = (a.get("nodes"@).at(index as int), b.get("nodes"@).at(index as int));
        let deeper = path.push(index);
        lemma_mesh(a, b, binary, x, y, deeper, scene);
        lemma_get(x, y, "children"@);
        if let Ok(scene) = with_mesh(a, binary, x, deeper, scene) {
            if let Tree::Array(list) = x.get("children"@) {
                lemma_children(
                    a,
                    b,
                    binary,
                    list,
                    y.get("children"@)->Array_0,
                    list.len() as int,
                    "a child index is not a number"@,
                    deeper,
                    scene,
                    (fuel - 1) as nat,
                );
            }
        }
    }
}

proof fn lemma_children(
    a: Tree,
    b: Tree,
    binary: Seq<u8>,
    x: Seq<Tree>,
    y: Seq<Tree>,
    k: int,
    complaint: Seq<char>,
    path: Seq<u64>,
    scene: SceneView,
    fuel: nat,
)
    requires
        agrees(a, b),
        x.len() == y.len(),
        k <= x.len(),
        forall|i: int| 0 <= i < x.len() ==> agrees(#[trigger] x[i], y[i]),
    ensures
        with_children(a, binary, x, k, complaint, path, scene, fuel) == with_children(
            b,
            binary,
            y,
            k,
            complaint,
            path,
            scene,
            fuel,
        ),
    decreases fuel, k, 2int,
{
    if k > 0 {
        lemma_children(a, b, binary, x, y, k - 1, complaint, path, scene, fuel);
        if let Ok(scene) = with_children(a, binary, x, k - 1, complaint, path, scene, fuel) {
            assert(agrees(x[k - 1], y[k - 1]));
            if let Tree::Unsigned(index) = x[k - 1] {
                lemma_walked(a, b, binary, index, path, scene, fuel);
            }
        }
    }
}

/// The digits of fractions do not decide which scene a description has.
pub proof fn law_fractions_do_not_matter(a: Tree, b: Tree, binary: Seq<u8>)
    requires
        agrees(a, b),
    ensures
        gathered(a, binary) == gathered(b, binary),
{
    lemma_get(a, b, "scene"@);
    lemma_get(a, b, "scenes"@);
    lemma_get(a, b, "nodes"@);
    let which = a.get("scene"@).number_or(0) as int;
    lemma_at(a.get("scenes"@), b.get("scenes"@), which);
    lemma_get(a.get("scenes"@).at(which), b.get("scenes"@).at(which), "nodes"@);
    assert(depth_limit(a) == depth_limit(b));
    if let Tree::Array(roots) = a.get("scenes"@).at(which).get("nodes"@) {
        lemma_children(
            a,
            b,
            binary,
            roots,
            b.get("scenes"@).at(which).get("nodes"@)->Array_0,
            roots.len() as int,
            "a scene names a node that is not a number"@,
            Seq::empty(),
            nothing(),
            depth_limit(a),
        );
    }
}

// -- A written description is plain ------------------------------------------

proof fn lemma_precedes(a: Seq<char>, b: Seq<char>, k: int)
    requires
        0 <= k <= a.len(),
        k < b.len(),
        forall|j: int| 0 <= j < k ==> #[trigger] a[j] == b[j],
        k == a.len() || (a[k] as u32) < (b[k] as u32),
    ensures
        precedes(a, b),
    decreases k,
{
    if k > 0 {
        assert(a[0] == b[0]);
        let (p, q) = (a.drop_first(), b.drop_first());
        assert forall|j: int| 0 <= j < k - 1 implies #[trigger] p[j] == q[j] by {
            assert(p[j] == a[j + 1] && q[j] == b[j + 1]);
            assert(a[j + 1] == b[j + 1]);
        }
        if k < a.len() {
            assert(p[k - 1] == a[k] && q[k - 1] == b[k]);
        }
        lemma_precedes(p, q, k - 1);
    }
}

proof fn lemma_precedes_transitive(a: Seq<char>, b: Seq<char>, c: Seq<char>)
    requires
        precedes(a, b),
        precedes(b, c),
    ensures
        precedes(a, c),
    decreases a.len(),
{
    if a.len() > 0 && a[0] == b[0] && b[0] == c[0] {
        lemma_precedes_transitive(a.drop_first(), b.drop_first(), c.drop_first());
    }
}

/// Keys that stand in order one by one stand in order.
proof fn lemma_ordered(members: Seq<(Seq<char>, Tree)>, i: int, j: int)
    requires
        0 <= i < j < members.len(),
        forall|k: int|
            0 <= k && k + 1 < members.len() ==> precedes(
                (#[trigger] members[k]).0,
                members[k + 1].0,
            ),
    ensures
        precedes(members[i].0, members[j].0),
    decreases j - i,
{
    assert(precedes(members[i].0, members[i + 1].0));
    if i + 1 < j {
        lemma_ordered(members, i + 1, j);
        lemma_precedes_transitive(members[i].0, members[i + 1].0, members[j].0);
    }
}

/// An object whose members are plain and in order one by one is plain.
proof fn lemma_plain_object(members: Seq<(Seq<char>, Tree)>, depth: nat)
    requires
        depth > 0,
        forall|k: int|
            0 <= k && k + 1 < members.len() ==> precedes(
                (#[trigger] members[k]).0,
                members[k + 1].0,
            ),
        forall|i: int|
            0 <= i < members.len() ==> is_plain((#[trigger] members[i]).1, (depth - 1) as nat),
    ensures
        is_plain(Tree::Object(members), depth),
{
    assert forall|i: int, j: int| 0 <= i < j < members.len() implies precedes(
        (#[trigger] members[i]).0,
        (#[trigger] members[j]).0,
    ) by {
        lemma_ordered(members, i, j);
    }
}

/// What is plain at some depth is plain deeper.
proof fn lemma_plain_deeper(tree: Tree, depth: nat, more: nat)
    requires
        is_plain(tree, depth),
        depth <= more,
    ensures
        is_plain(tree, more),
    decreases depth,
{
    match tree {
        Tree::Array(items) => {
            assert forall|i: int| 0 <= i < items.len() implies is_plain(
                #[trigger] items[i],
                (more - 1) as nat,
            ) by {
                lemma_plain_deeper(items[i], (depth - 1) as nat, (more - 1) as nat);
            }
        },
        Tree::Object(members) => {
            assert forall|i: int| 0 <= i < members.len() implies is_plain(
                (#[trigger] members[i]).1,
                (more - 1) as nat,
            ) by {
                lemma_plain_deeper(members[i].1, (depth - 1) as nat, (more - 1) as nat);
            }
        },
        _ => {},
    }
}

proof fn lemma_plain_single(key: Seq<char>, value: Tree, depth: nat)
    requires
        depth > 0,
        is_plain(value, (depth - 1) as nat),
    ensures
        is_plain(single(key, value), depth),
{
    lemma_plain_object(single(key, value)->Object_0, depth);
}

proof fn lemma_view_plain(list: Seq<Section>, i: int)
    ensures
        is_plain(view_tree(list, i), 2),
{
    let members = view_tree(list, i)->Object_0;
    reveal_strlit("buffer");
    reveal_strlit("byteLength");
    reveal_strlit("byteOffset");
    reveal_strlit("target");
    lemma_precedes("buffer"@, "byteLength"@, 1);
    lemma_precedes("byteLength"@, "byteOffset"@, 4);
    lemma_precedes("byteOffset"@, "target"@, 0);
    assert(members.len() == 4);
    lemma_plain_object(members, 2);
}

proof fn lemma_entry_plain(list: Seq<Section>, low: Tree, high: Tree, i: int)
    requires
        is_plain(low, 1),
        is_plain(high, 1),
    ensures
        is_plain(accessor_tree(list, low, high, i), 2),
{
    let members = accessor_tree(list, low, high, i)->Object_0;
    reveal_strlit("bufferView");
    reveal_strlit("componentType");
    reveal_strlit("count");
    reveal_strlit("max");
    reveal_strlit("min");
    reveal_strlit("type");
    lemma_precedes("bufferView"@, "componentType"@, 0);
    lemma_precedes("componentType"@, "count"@, 2);
    lemma_precedes("count"@, "max"@, 0);
    lemma_precedes("max"@, "min"@, 1);
    lemma_precedes("min"@, "type"@, 0);
    lemma_precedes("count"@, "type"@, 0);
    lemma_plain_object(members, 2);
}

proof fn lemma_attributes_plain(mesh: Mesh<u32>)
    ensures
        is_plain(Tree::Object(attributes(mesh)), 1),
{
    let members = attributes(mesh);
    reveal_strlit("COLOR_0");
    reveal_strlit("NORMAL");
    reveal_strlit("POSITION");
    reveal_strlit("TEXCOORD_0");
    lemma_precedes("COLOR_0"@, "NORMAL"@, 0);
    lemma_precedes("COLOR_0"@, "POSITION"@, 0);
    lemma_precedes("NORMAL"@, "POSITION"@, 0);
    lemma_precedes("POSITION"@, "TEXCOORD_0"@, 0);
    lemma_plain_object(members, 1);
}

proof fn lemma_primitive_plain(mesh: Mesh<u32>)
    ensures
        is_plain(primitive_tree(mesh), 2),
{
    let members = primitive_tree(mesh)->Object_0;
    lemma_attributes_plain(mesh);
    reveal_strlit("attributes");
    reveal_strlit("indices");
    reveal_strlit("material");
    reveal_strlit("mode");
    lemma_precedes("attributes"@, "indices"@, 0);
    lemma_precedes("indices"@, "material"@, 0);
    lemma_precedes("material"@, "mode"@, 1);
    assert(members.len() == 4);
    lemma_plain_object(members, 2);
}

proof fn lemma_fraction(text: Seq<char>)
    requires
        text.len() == 3,
        is_digit(text[0]),
        text[1] == '.',
        is_digit(text[2]),
    ensures
        is_fraction(text),
{
    assert(text[0] != '-');
    assert(text[1] == '.');
}

proof fn lemma_material_plain()
    ensures
        is_plain(material_tree(), 3),
{
    let inner = material_tree()->Object_0[0].1;
    let members = inner->Object_0;
    reveal_strlit("1.0");
    reveal_strlit("0.0");
    reveal_strlit("0.8");
    lemma_fraction("1.0"@);
    lemma_fraction("0.0"@);
    lemma_fraction("0.8"@);
    reveal_strlit("baseColorFactor");
    reveal_strlit("metallicFactor");
    reveal_strlit("roughnessFactor");
    lemma_precedes("baseColorFactor"@, "metallicFactor"@, 0);
    lemma_precedes("metallicFactor"@, "roughnessFactor"@, 0);
    assert(members.len() == 3);
    let items = members[0].1->Array_0;
    assert forall|i: int| 0 <= i < items.len() implies is_plain(#[trigger] items[i], 0) by {
        assert(items[i] == Tree::Float("1.0"@));
    }
    assert(is_plain(members[0].1, 1));
    lemma_plain_object(members, 2);
    lemma_plain_single("pbrMetallicRoughness"@, inner, 3);
}

proof fn lemma_keys_ordered()
    ensures
        precedes("accessors"@, "asset"@),
        precedes("asset"@, "bufferViews"@),
        precedes("bufferViews"@, "buffers"@),
        precedes("buffers"@, "materials"@),
        precedes("materials"@, "meshes"@),
        precedes("meshes"@, "nodes"@),
        precedes("nodes"@, "scene"@),
        precedes("scene"@, "scenes"@),
        precedes("generator"@, "version"@),
{
    reveal_strlit("accessors");
    reveal_strlit("asset");
    reveal_strlit("bufferViews");
    reveal_strlit("buffers");
    reveal_strlit("materials");
    reveal_strlit("meshes");
    reveal_strlit("nodes");
    reveal_strlit("scene");
    reveal_strlit("scenes");
    reveal_strlit("generator");
    reveal_strlit("version");
    lemma_precedes("accessors"@, "asset"@, 1);
    lemma_precedes("asset"@, "bufferViews"@, 0);
    lemma_precedes("bufferViews"@, "buffers"@, 6);
    lemma_precedes("buffers"@, "materials"@, 0);
    lemma_precedes("materials"@, "meshes"@, 1);
    lemma_precedes("meshes"@, "nodes"@, 0);
    lemma_precedes("nodes"@, "scene"@, 0);
    lemma_precedes("scene"@, "scenes"@, 5);
    lemma_precedes("generator"@, "version"@, 0);
}

/// The description of a written mesh is one that JSON text can hold.
pub proof fn law_document_is_plain(mesh: Mesh<u32>, low: Tree, high: Tree)
    requires
        is_plain(low, 1),
        is_plain(high, 1),
    ensures
        is_plain(document(mesh, low, high), 127),
{
    let list = sections(mesh);
    let members = document(mesh, low, high)->Object_0;
    lemma_keys_ordered();
    let entries = members[0].1;
    assert forall|i: int| 0 <= i < list.len() implies is_plain(
        #[trigger] entries->Array_0[i],
        2,
    ) by {
        lemma_entry_plain(list, low, high, i);
    }
    assert(is_plain(entries, 3));
    lemma_plain_object(members[1].1->Object_0, 1);
    let views = members[2].1;
    assert forall|i: int| 0 <= i < list.len() implies is_plain(#[trigger] views->Array_0[i], 2) by {
        lemma_view_plain(list, i);
    }
    assert(is_plain(views, 3));
    let buffers = members[3].1;
    lemma_plain_single("byteLength"@, buffers->Array_0[0]->Object_0[0].1, 1);
    assert(is_plain(buffers, 2));
    let materials = members[4].1;
    lemma_material_plain();
    assert(is_plain(materials, 4));
    let meshes = members[5].1;
    lemma_primitive_plain(mesh);
    let primitives = meshes->Array_0[0]->Object_0[0].1;
    assert(is_plain(primitives, 3));
    lemma_plain_single("primitives"@, primitives, 4);
    assert(is_plain(meshes, 5));
    let nodes = members[6].1;
    lemma_plain_single("mesh"@, Tree::Unsigned(0), 1);
    assert(is_plain(nodes, 2));
    let scenes = members[8].1;
    let roots = scenes->Array_0[0]->Object_0[0].1;
    assert forall|i: int| 0 <= i < roots->Array_0.len() implies is_plain(
        #[trigger] roots->Array_0[i],
        0,
    ) by {
        assert(roots->Array_0[i] == Tree::Unsigned(0));
    }
    assert(is_plain(roots, 1));
    lemma_plain_single("nodes"@, roots, 2);
    assert(is_plain(scenes, 3));
    lemma_plain_deeper(members[0].1, 3, 126);
    lemma_plain_deeper(members[1].1, 1, 126);
    lemma_plain_deeper(members[2].1, 3, 126);
    lemma_plain_deeper(members[3].1, 2, 126);
    lemma_plain_deeper(members[4].1, 4, 126);
    lemma_plain_deeper(members[5].1, 5, 126);
    lemma_plain_deeper(members[6].1, 2, 126);
    lemma_plain_deeper(members[8].1, 3, 126);
    assert(members.len() == 9);
    lemma_plain_object(members, 127);
}

proof fn lemma_words_whole(list: Seq<u32>)
    ensures
        words(list).len() % 4 == 0,
    decreases list.len(),
{
    if list.len() > 0 {
        lemma_words_whole(list.drop_last());
        reveal(crate::glb::le);
    }
}

proof fn lemma_sections_whole(list: Seq<Section>, n: int)
    requires
        n <= list.len(),
        forall|i: int| 0 <= i < list.len() ==> (#[trigger] list[i]).bytes.len() % 4 == 0,
    ensures
        section_bytes(list, n).len() % 4 == 0,
    decreases n,
{
    if n > 0 {
        lemma_sections_whole(list, n - 1);
    }
}

/// A written mesh survives its file: what is read from the bytes of the file
/// is the mesh that was written. `bytes` stand for what the container makes of
/// the description and the binary chunk, as its own contract states it.
pub proof fn law_file_round_trip(mesh: Mesh<u32>, low: Tree, high: Tree, bytes: Seq<u8>)
    requires
        writable(mesh),
        contents(bytes) is Ok,
        agrees(contents(bytes)->Ok_0.0, document(mesh, low, high)),
        contents(bytes)->Ok_0.1 == padded(binary_of(mesh), 0),
    ensures
        gathered(contents(bytes)->Ok_0.0, contents(bytes)->Ok_0.1) == Ok::<_, Halt>(
            scene_back(mesh),
        ),
{
    let list = sections(mesh);
    lemma_words_whole(flat3(mesh.indices@));
    lemma_words_whole(flat3(mesh.positions@));
    lemma_words_whole(flat3(mesh.normals@));
    lemma_words_whole(flat2(mesh.uvs@));
    lemma_words_whole(
        flat3(mesh.colors@.map_values(|c: [u32; 3]| crate::gltf_write::clamped3(c))),
    );
    lemma_sections_whole(list, list.len() as int);
    reveal(padded);
    assert(padded(binary_of(mesh), 0) =~= binary_of(mesh));
    law_fractions_do_not_matter(
        contents(bytes)->Ok_0.0,
        document(mesh, low, high),
        binary_of(mesh),
    );
    law_round_trip(mesh, low, high);
}

} // verus!
