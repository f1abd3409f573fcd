//! What a scene is gathered from: the primitives of its nodes, one after
//! another, each with vertices and faces of its own.
use crate::gltf::{
    accessor, appended, attribute, base_colour, colours, corners, couples_of, gathered, in_step,
    nothing, scalars, triples_of, vectors, walked, with_children, with_mesh, with_primitives,
    Accessor, Component, Halt, SceneView,
};
use crate::json::Tree;
use vstd::prelude::*;

verus! {

// -- Stored numbers ------------------------------------------------------------

/// A stored coordinate is the bytes that stand `component` widths into the
/// element, `element` strides after the first: four, two or one of them, lowest
/// first, with a sign or without as their type says.
pub proof fn law_component_is_stored(
    found: Accessor,
    binary: Seq<u8>,
    element: int,
    component: int,
)
    requires
        found.sound(),
        found.fits(binary.len() as int),
        0 <= element < found.count,
        0 <= component < found.components,
    ensures
        ({
            let at = found.offset + element * found.stride + component * found.width;
            match found.component(binary, element, component) {
                Component::Float(bits) => found.kind == 5126 && bits == binary[at] + 256 * binary[at
                    + 1] + 65536 * binary[at + 2] + 16777216 * binary[at + 3],
                Component::Byte(value) => found.kind == 5121 && value == binary[at],
                Component::Short(value) => found.kind == 5123 && value == binary[at] + 256
                    * binary[at + 1],
                Component::SignedByte(value) => found.kind == 5120 && (value == binary[at] || value
                    == binary[at] - 256),
                Component::SignedShort(value) => found.kind == 5122 && (value == binary[at] + 256
                    * binary[at + 1] || value == binary[at] + 256 * binary[at + 1] - 65536),
                Component::Zero => found.kind == 5125,
                _ => false,
            }
        }),
{
    let at = found.place(element, component);
    assert(at == found.offset + element * found.stride + component * found.width);
}

/// A stored index is one, two or four bytes, lowest first.
pub proof fn law_index_is_stored(found: Accessor, binary: Seq<u8>, element: int)
    requires
        found.sound(),
        found.fits(binary.len() as int),
        0 <= element < found.count,
    ensures
        ({
            let at = found.offset + element * found.stride;
            &&& found.kind == 5121 ==> found.index(binary, element) == binary[at]
            &&& found.kind == 5123 ==> found.index(binary, element) == binary[at] + 256 * binary[at
                + 1]
            &&& found.kind == 5125 ==> found.index(binary, element) == binary[at] + 256 * binary[at
                + 1] + 65536 * binary[at + 2] + 16777216 * binary[at + 3]
        }),
{
    assert(found.place(element, 0) == found.offset + element * found.stride);
}

// -- One primitive -------------------------------------------------------------

/// Whether a list is another with some more at its end.
pub open spec fn extends<A>(before: Seq<A>, after: Seq<A>, more: int) -> bool {
    &&& after.len() == before.len() + more
    &&& forall|i: int| 0 <= i < before.len() ==> #[trigger] after[i] == before[i]
}

/// Whether the last entries of a list are the first three coordinates of the
/// elements of an accessor.
pub open spec fn ends_in(found: Accessor, binary: Seq<u8>, list: Seq<[Component; 3]>) -> bool {
    let first = list.len() - found.count;
    &&& first >= 0
    &&& forall|e: int, c: int|
        0 <= e < found.count && 0 <= c < 3 ==> #[trigger] list[first + e][c] == found.component(
            binary,
            e,
            c,
        )
}

/// Whether a corner of a face is vertex `i` of the vertices from `first` on.
pub open spec fn is_vertex(
    corner: u32,
    first: int,
    i: int,
    found: Accessor,
    binary: Seq<u8>,
    scene: SceneView,
) -> bool {
    &&& corner == first + i
    &&& i < found.count ==> scene.positions[corner as int] == [
        found.component(binary, i, 0),
        found.component(binary, i, 1),
        found.component(binary, i, 2),
    ]
}

/// Whether a primitive has positions and is read into a scene.
pub open spec fn is_read(
    doc: Tree,
    binary: Seq<u8>,
    primitive: Tree,
    path: Seq<u64>,
    scene: SceneView,
) -> bool {
    &&& appended(doc, binary, primitive, path, scene) is Ok
    &&& primitive.get("attributes"@).get("POSITION"@) is Unsigned
}

/// The positions of a primitive.
pub open spec fn positions_of(doc: Tree, binary: Seq<u8>, primitive: Tree) -> Accessor {
    vectors(
        doc,
        binary,
        primitive.get("attributes"@).get("POSITION"@)->Unsigned_0,
        3,
    )->Ok_0
}

/// A primitive that is read adds its vertices after those a scene holds, and a
/// part that covers just them, with its path.
pub proof fn law_primitive_adds_vertices(
    doc: Tree,
    binary: Seq<u8>,
    primitive: Tree,
    path: Seq<u64>,
    scene: SceneView,
)
    requires
        is_read(doc, binary, primitive, path, scene),
    ensures
        ({
            let after = appended(doc, binary, primitive, path, scene)->Ok_0;
            let found = positions_of(doc, binary, primitive);
            let part = after.parts.last();
            &&& found.components == 3
            &&& found.fits(binary.len() as int)
            &&& extends(scene.positions, after.positions, found.count as int)
            &&& ends_in(found, binary, after.positions)
            &&& extends(scene.parts, after.parts, 1)
            &&& part.path == path
            &&& part.first_position == scene.positions.len()
            &&& part.positions == found.count
            &&& part.first_normal == scene.normals.len()
            &&& part.normals == after.normals.len() - scene.normals.len()
        }),
{
    let after = appended(doc, binary, primitive, path, scene)->Ok_0;
    let found = positions_of(doc, binary, primitive);
    let first = scene.positions.len() as int;
    assert(after.positions == scene.positions + found.triples(binary));
    assert forall|e: int, c: int| 0 <= e < found.count && 0 <= c < 3 implies
        #[trigger] after.positions[after.positions.len() - found.count + e][c]
        == found.component(binary, e, c) by {
        assert(after.positions[first + e] == found.triples(binary)[e]);
        assert(c == 0 || c == 1 || c == 2);
    }
}

/// A primitive that is read adds the normals and texture coordinates that its
/// attributes name, and none where it names none.
pub proof fn law_primitive_adds_attributes(
    doc: Tree,
    binary: Seq<u8>,
    primitive: Tree,
    path: Seq<u64>,
    scene: SceneView,
)
    requires
        is_read(doc, binary, primitive, path, scene),
    ensures
        ({
            let after = appended(doc, binary, primitive, path, scene)->Ok_0;
            &&& match primitive.get("attributes"@).get("NORMAL"@) {
                Tree::Unsigned(i) => {
                    let normals = vectors(doc, binary, i, 3)->Ok_0;
                    &&& vectors(doc, binary, i, 3) is Ok
                    &&& extends(scene.normals, after.normals, normals.count as int)
                    &&& ends_in(normals, binary, after.normals)
                },
                _ => after.normals == scene.normals,
            }
            &&& match primitive.get("attributes"@).get("TEXCOORD_0"@) {
                Tree::Unsigned(i) => {
                    let uvs = vectors(doc, binary, i, 2)->Ok_0;
                    &&& vectors(doc, binary, i, 2) is Ok
                    &&& extends(scene.uvs, after.uvs, uvs.count as int)
                    &&& forall|e: int, c: int|
                        0 <= e < uvs.count && 0 <= c < 2 ==> #[trigger] after.uvs[scene.uvs.len()
                            + e][c] == uvs.component(binary, e, c)
                },
                _ => after.uvs == scene.uvs,
            }
        }),
{
    let after = appended(doc, binary, primitive, path, scene)->Ok_0;
    let attributes = primitive.get("attributes"@);
    let normals = attribute(doc, binary, attributes.get("NORMAL"@), 3)->Ok_0;
    let uvs = attribute(doc, binary, attributes.get("TEXCOORD_0"@), 2)->Ok_0;
    assert(after.normals == scene.normals + triples_of(normals, binary));
    assert(after.uvs == scene.uvs + couples_of(uvs, binary));
    if let Some(normals) = normals {
        assert forall|e: int, c: int| 0 <= e < normals.count && 0 <= c < 3 implies
            #[trigger] after.normals[after.normals.len() - normals.count + e][c]
            == normals.component(binary, e, c) by {
            assert(after.normals[scene.normals.len() + e] == normals.triples(binary)[e]);
            assert(c == 0 || c == 1 || c == 2);
        }
    } else {
        assert(after.normals =~= scene.normals);
    }
    if let Some(uvs) = uvs {
        assert forall|e: int, c: int| 0 <= e < uvs.count && 0 <= c < 2 implies
            #[trigger] after.uvs[scene.uvs.len() + e][c] == uvs.component(binary, e, c) by {
            assert(after.uvs[scene.uvs.len() + e] == uvs.couples(binary)[e]);
            assert(c == 0 || c == 1);
        }
    } else {
        assert(after.uvs =~= scene.uvs);
    }
}

/// A primitive that is read adds the colours it stores, or its material's base
/// colour once for each of its vertices, or none.
pub proof fn law_primitive_adds_colours(
    doc: Tree,
    binary: Seq<u8>,
    primitive: Tree,
    path: Seq<u64>,
    scene: SceneView,
)
    requires
        is_read(doc, binary, primitive, path, scene),
    ensures
        ({
            let after = appended(doc, binary, primitive, path, scene)->Ok_0;
            let found = positions_of(doc, binary, primitive);
            match primitive.get("attributes"@).get("COLOR_0"@) {
                Tree::Unsigned(i) => {
                    let stored = accessor(doc, i)->Ok_0;
                    &&& accessor(doc, i) is Ok
                    &&& stored.components >= 3 || stored.count == 0
                    &&& extends(scene.colors, after.colors, stored.count as int)
                    &&& ends_in(stored, binary, after.colors)
                },
                _ => match primitive.get("material"@) {
                    Tree::Unsigned(material) => {
                        &&& extends(scene.colors, after.colors, found.count as int)
                        &&& forall|i: int|
                            scene.colors.len() <= i < after.colors.len() ==> #[trigger]
                                after.colors[i] == base_colour(doc, material)
                    },
                    _ => after.colors == scene.colors,
                },
            }
        }),
{
    let after = appended(doc, binary, primitive, path, scene)->Ok_0;
    let found = positions_of(doc, binary, primitive);
    let added = colours(doc, binary, primitive, found.count as nat)->Ok_0;
    assert(after.colors == scene.colors + added);
    match primitive.get("attributes"@).get("COLOR_0"@) {
        Tree::Unsigned(i) => {
            let stored = accessor(doc, i)->Ok_0;
            assert(added == stored.triples(binary));
            assert forall|e: int, c: int| 0 <= e < stored.count && 0 <= c < 3 implies
                #[trigger] after.colors[after.colors.len() - stored.count + e][c]
                == stored.component(binary, e, c) by {
                assert(after.colors[scene.colors.len() + e] == stored.triples(binary)[e]);
                assert(c == 0 || c == 1 || c == 2);
            }
        },
        _ => {
            assert(!(primitive.get("material"@) is Unsigned) ==> after.colors =~= scene.colors);
        },
    }
}

/// The faces a primitive adds name only vertices that it adds: each corner has
/// the position that its index names among the primitive's own, however many
/// vertices the scene held before. Without indices the vertices stand in the
/// order of the triangles.
pub proof fn law_primitive_adds_faces(
    doc: Tree,
    binary: Seq<u8>,
    primitive: Tree,
    path: Seq<u64>,
    scene: SceneView,
)
    requires
        is_read(doc, binary, primitive, path, scene),
    ensures
        ({
            let after = appended(doc, binary, primitive, path, scene)->Ok_0;
            let found = positions_of(doc, binary, primitive);
            let first = scene.positions.len() as int;
            match primitive.get("indices"@) {
                Tree::Unsigned(i) => {
                    let indices = scalars(doc, binary, i)->Ok_0;
                    &&& scalars(doc, binary, i) is Ok
                    &&& extends(scene.indices, after.indices, indices.count as int / 3)
                    &&& forall|f: int, c: int|
                        0 <= f < indices.count as int / 3 && 0 <= c < 3 && first + indices.index(
                            binary,
                            3 * f + c,
                        ) <= u32::MAX ==> is_vertex(
                            #[trigger] after.indices[scene.indices.len() + f][c],
                            first,
                            indices.index(binary, 3 * f + c) as int,
                            found,
                            binary,
                            after,
                        )
                },
                _ => {
                    &&& extends(scene.indices, after.indices, found.count as int / 3)
                    &&& forall|f: int, c: int|
                        0 <= f < found.count as int / 3 && 0 <= c < 3 && first + found.count
                            <= u32::MAX ==> is_vertex(
                            #[trigger] after.indices[scene.indices.len() + f][c],
                            first,
                            3 * f + c,
                            found,
                            binary,
                            after,
                        )
                },
            }
        }),
{
    law_primitive_adds_vertices(doc, binary, primitive, path, scene);
    let after = appended(doc, binary, primitive, path, scene)->Ok_0;
    let found = positions_of(doc, binary, primitive);
    let first = scene.positions.len() as int;
    let faces = corners(doc, binary, primitive, scene.positions.len(), found.count as nat)->Ok_0;
    assert(after.indices == scene.indices + faces);
    assert forall|i: int| 0 <= i < found.count implies #[trigger] after.positions[first + i] == [
        found.component(binary, i, 0),
        found.component(binary, i, 1),
        found.component(binary, i, 2),
    ] by {
        let last = after.positions.len() - found.count;
        assert(after.positions[last + i][0] == found.component(binary, i, 0));
        assert(after.positions[last + i][1] == found.component(binary, i, 1));
        assert(after.positions[last + i][2] == found.component(binary, i, 2));
        assert(after.positions[first + i] =~= [
            found.component(binary, i, 0),
            found.component(binary, i, 1),
            found.component(binary, i, 2),
        ]);
    }
    match primitive.get("indices"@) {
        Tree::Unsigned(i) => {
            let indices = scalars(doc, binary, i)->Ok_0;
            assert forall|f: int, c: int|
                0 <= f < indices.count as int / 3 && 0 <= c < 3 && first + indices.index(
                    binary,
                    3 * f + c,
                ) <= u32::MAX implies is_vertex(
                #[trigger] after.indices[scene.indices.len() + f][c],
                first,
                indices.index(binary, 3 * f + c) as int,
                found,
                binary,
                after,
            ) by {
                assert(after.indices[scene.indices.len() + f] == faces[f]);
                assert(c == 0 || c == 1 || c == 2);
                assert(3 * f + 0 == 3 * f);
                let at = indices.index(binary, 3 * f + c) as int;
                assert(faces[f][c] == first + at);
                if at < found.count {
                    assert(after.positions[first + at][0] == found.component(binary, at, 0));
                }
            }
        },
        _ => {
            assert forall|f: int, c: int|
                0 <= f < found.count as int / 3 && 0 <= c < 3 && first + found.count
                    <= u32::MAX implies is_vertex(
                #[trigger] after.indices[scene.indices.len() + f][c],
                first,
                3 * f + c,
                found,
                binary,
                after,
            ) by {
                assert(after.indices[scene.indices.len() + f] == faces[f]);
                assert(c == 0 || c == 1 || c == 2);
                let at = 3 * f + c;
                assert(faces[f][c] == first + at);
                assert(after.positions[first + at][0] == found.component(binary, at, 0));
            }
        },
    }
}

// -- The whole scene -----------------------------------------------------------

/// A primitive where it stands in a scene: the nodes above it, outermost
/// first.
pub ghost struct Instance {
    pub path: Seq<u64>,
    pub primitive: Tree,
}

/// The primitives of a node itself.
pub open spec fn own_instances(doc: Tree, index: u64, path: Seq<u64>) -> Seq<Instance> {
    let node = doc.get("nodes"@).at(index as int);
    match node.get("mesh"@) {
        Tree::Unsigned(which) => match doc.get("meshes"@).at(which as int).get("primitives"@) {
            Tree::Array(primitives) => primitives.map_values(
                |primitive: Tree| Instance { path, primitive },
            ),
            _ => Seq::empty(),
        },
        _ => Seq::empty(),
    }
}

/// The primitives of a node and of everything under it, to a depth: its own
/// first, then those of its children in turn.
pub open spec fn instances(doc: Tree, index: u64, above: Seq<u64>, depth: nat) -> Seq<Instance>
    decreases depth, 0nat,
{
    if depth == 0 {
        Seq::empty()
    } else {
        let path = above.push(index);
        let own = own_instances(doc, index, path);
        match doc.get("nodes"@).at(index as int).get("children"@) {
            Tree::Array(children) => own + instances_of(
                doc,
                children,
                children.len(),
                path,
                (depth - 1) as nat,
            ),
            _ => own,
        }
    }
}

/// The primitives of the first `k` of some nodes and of everything under them.
pub open spec fn instances_of(
    doc: Tree,
    nodes: Seq<Tree>,
    k: nat,
    above: Seq<u64>,
    depth: nat,
) -> Seq<Instance>
    decreases depth, k + 1,
{
    if k == 0 {
        Seq::empty()
    } else {
        let before = instances_of(doc, nodes, (k - 1) as nat, above, depth);
        match nodes[k - 1] {
            Tree::Unsigned(index) => before + instances(doc, index, above, depth),
            _ => before,
        }
    }
}

/// A scene with instances added, one after another.
pub open spec fn poured(
    doc: Tree,
    binary: Seq<u8>,
    scene: SceneView,
    list: Seq<Instance>,
) -> Result<SceneView, Halt>
    decreases list.len(),
{
    if list.len() == 0 {
        Ok(scene)
    } else {
        match poured(doc, binary, scene, list.drop_last()) {
            Ok(scene) => appended(
                doc,
                binary,
                list.last().primitive,
                list.last().path,
                scene,
            ),
            Err(halt) => Err(halt),
        }
    }
}

proof fn lemma_poured(
    doc: Tree,
    binary: Seq<u8>,
    scene: SceneView,
    first: Seq<Instance>,
    second: Seq<Instance>,
)
    requires
        poured(doc, binary, scene, first) is Ok,
    ensures
        poured(doc, binary, scene, first + second) == poured(
            doc,
            binary,
            poured(doc, binary, scene, first)->Ok_0,
            second,
        ),
    decreases second.len(),
{
    if second.len() == 0 {
        assert(first + second =~= first);
    } else {
        lemma_poured(doc, binary, scene, first, second.drop_last());
        assert((first + second).drop_last() =~= first + second.drop_last());
        assert((first + second).last() == second.last());
    }
}

proof fn lemma_primitives(
    doc: Tree,
    binary: Seq<u8>,
    primitives: Seq<Tree>,
    k: int,
    path: Seq<u64>,
    scene: SceneView,
)
    requires
        0 <= k <= primitives.len(),
    ensures
        with_primitives(doc, binary, primitives, k, path, scene) == poured(
            doc,
            binary,
            scene,
            primitives.take(k).map_values(|primitive: Tree| Instance { path, primitive }),
        ),
    decreases k,
{
    let list = primitives.take(k).map_values(|primitive: Tree| Instance { path, primitive });
    if k > 0 {
        lemma_primitives(doc, binary, primitives, k - 1, path, scene);
        assert(list.drop_last() =~= primitives.take(k - 1).map_values(
            |primitive: Tree| Instance { path, primitive },
        ));
        assert(list.last() == Instance { path, primitive: primitives[k - 1] });
    }
}

proof fn lemma_mesh(doc: Tree, binary: Seq<u8>, index: u64, path: Seq<u64>, scene: SceneView)
    requires
        with_mesh(doc, binary, doc.get("nodes"@).at(index as int), path, scene) is Ok,
    ensures
        with_mesh(doc, binary, doc.get("nodes"@).at(index as int), path, scene) == poured(
            doc,
            binary,
            scene,
            own_instances(doc, index, path),
        ),
{
    let node = doc.get("nodes"@).at(index as int);
    match node.get("mesh"@) {
        Tree::Unsigned(which) => match doc.get("meshes"@).at(which as int).get("primitives"@) {
            Tree::Array(primitives) => {
                lemma_primitives(doc, binary, primitives, primitives.len() as int, path, scene);
                assert(primitives.take(primitives.len() as int) =~= primitives);
            },
            _ => {},
        },
        _ => {},
    }
}

proof fn lemma_walked(
    doc: Tree,
    binary: Seq<u8>,
    index: u64,
    above: Seq<u64>,
    scene: SceneView,
    fuel: nat,
)
    requires
        walked(doc, binary, index, above, scene, fuel) is Ok,
    ensures
        walked(doc, binary, index, above, scene, fuel) == poured(
            doc,
            binary,
            scene,
            instances(doc, index, above, fuel),
        ),
    decreases fuel, 0nat,
{
    let node = doc.get("nodes"@).at(index as int);
    let path = above.push(index);
    lemma_mesh(doc, binary, index, path, scene);
    let own = own_instances(doc, index, path);
    let middle = with_mesh(doc, binary, node, path, scene)->Ok_0;
    match node.get("children"@) {
        Tree::Array(children) => {
            lemma_children(
                doc,
                binary,
                children,
                children.len(),
                "a child index is not a number"@,
                path,
                middle,
                (fuel - 1) as nat,
            );
            lemma_poured(
                doc,
                binary,
                scene,
                own,
                instances_of(doc, children, children.len(), path, (fuel - 1) as nat),
            );
        },
        _ => {},
    }
}

proof fn lemma_children(
    doc: Tree,
    binary: Seq<u8>,
    children: Seq<Tree>,
    k: nat,
    complaint: Seq<char>,
    path: Seq<u64>,
    scene: SceneView,
    fuel: nat,
)
    requires
        k <= children.len(),
        with_children(doc, binary, children, k as int, complaint, path, scene, fuel) is Ok,
    ensures
        with_children(doc, binary, children, k as int, complaint, path, scene, fuel) == poured(
            doc,
            binary,
            scene,
            instances_of(doc, children, k, path, fuel),
        ),
    decreases fuel, k + 1,
{
    if k > 0 {
        let less = (k - 1) as nat;
        lemma_children(doc, binary, children, less, complaint, path, scene, fuel);
        let middle = with_children(
            doc,
            binary,
            children,
            k - 1,
            complaint,
            path,
            scene,
            fuel,
        )->Ok_0;
        match children[k - 1] {
            Tree::Unsigned(index) => {
                lemma_walked(doc, binary, index, path, middle, fuel);
                lemma_poured(
                    doc,
                    binary,
                    scene,
                    instances_of(doc, children, less, path, fuel),
                    instances(doc, index, path, fuel),
                );
            },
            _ => {},
        }
    }
}

/// How deep a file's nodes can be nested where none is under itself, and one
/// more.
pub open spec fn deepest(doc: Tree) -> nat {
    match doc.get("nodes"@) {
        Tree::Array(nodes) => nodes.len() + 1,
        _ => 1,
    }
}

/// Whether a list is kept where every vertex has an entry in it, and else
/// dropped.
pub open spec fn is_all_or_none<A>(list: Seq<A>, kept: Seq<A>, vertices: nat) -> bool {
    if list.len() == vertices {
        kept == list
    } else {
        kept.len() == 0
    }
}

/// The nodes a scene starts from.
pub open spec fn roots(doc: Tree) -> Tree {
    doc.get("scenes"@).at(doc.get("scene"@).number_or(0) as int).get("nodes"@)
}

/// A scene is the primitives of its nodes: those of each root and of
/// everything under it, a node's own before its children's, added one after
/// another to nothing. Of what not every vertex has, nothing is kept; nothing
/// else is left out.
pub proof fn law_scene_is_its_primitives(doc: Tree, binary: Seq<u8>)
    requires
        gathered(doc, binary) is Ok,
    ensures
        roots(doc) is Array,
        ({
            let list = instances_of(
                doc,
                roots(doc)->Array_0,
                roots(doc)->Array_0.len(),
                Seq::empty(),
                deepest(doc),
            );
            let all = poured(doc, binary, nothing(), list);
            let scene = gathered(doc, binary)->Ok_0;
            &&& all is Ok
            &&& scene.positions == all->Ok_0.positions
            &&& scene.indices == all->Ok_0.indices
            &&& scene.parts == all->Ok_0.parts
            &&& scene.indices.len() > 0
            &&& is_all_or_none(all->Ok_0.normals, scene.normals, scene.positions.len())
            &&& is_all_or_none(all->Ok_0.uvs, scene.uvs, scene.positions.len())
            &&& is_all_or_none(all->Ok_0.colors, scene.colors, scene.positions.len())
        }),
{
    let nodes = roots(doc)->Array_0;
    let depth = deepest(doc);
    lemma_children(
        doc,
        binary,
        nodes,
        nodes.len(),
        "a scene names a node that is not a number"@,
        Seq::empty(),
        nothing(),
        depth,
    );
    let list = instances_of(doc, nodes, nodes.len(), Seq::empty(), depth);
    let all = poured(doc, binary, nothing(), list);
    assert(all is Ok && gathered(doc, binary)->Ok_0 == in_step(all->Ok_0));
}

} // verus!
