//! A mesh survives being written and read: what [`Glb::gather`] reads of the
//! file that [`Mesh::to_glb`] writes is the mesh that was written.
use crate::glb::{le, lemma_word, word};
use crate::gltf::{
    accessor, appended, attribute, base_colour, channel, colours, corners, couples_of, gathered,
    in_step, low, nothing, scalars, triples_of, type_components, vectors, walked, with_children,
    with_mesh, with_primitives, with_vertices, Accessor, Component, Halt, PartView, SceneView,
};
use crate::gltf_write::{
    accessor_tree, attributes, clamped3, complaint, document, flat2, flat3, lemma_section_length,
    material_tree, primitive_tree, section_bytes, section_start, sections, single, view_tree, words,
    Section,
};
use crate::json::{find, Tree};
use crate::mesh::Mesh;
use vstd::prelude::*;

verus! {

// -- Words in the binary chunk -----------------------------------------------

proof fn lemma_le_length(value: u32)
    ensures
        le(value).len() == 4,
{
    reveal(le);
}

/// The words of a list stand one after another.
proof fn lemma_words(list: Seq<u32>, k: int)
    requires
        0 <= k < list.len(),
    ensures
        words(list).len() == 4 * list.len(),
        word(words(list), 4 * k) == list[k],
    decreases list.len(),
{
    let before = list.drop_last();
    lemma_words_length(before);
    lemma_le_length(list.last());
    let all = words(list);
    if k == list.len() - 1 {
        assert(all.subrange(4 * k, 4 * k + 4) =~= le(list[k]));
        lemma_word(all, 4 * k, list[k]);
    } else {
        lemma_words(before, k);
        assert(all[4 * k] == words(before)[4 * k]);
        assert(all[4 * k + 1] == words(before)[4 * k + 1]);
        assert(all[4 * k + 2] == words(before)[4 * k + 2]);
        assert(all[4 * k + 3] == words(before)[4 * k + 3]);
    }
}

proof fn lemma_words_length(list: Seq<u32>)
    ensures
        words(list).len() == 4 * list.len(),
    decreases list.len(),
{
    if list.len() > 0 {
        lemma_words_length(list.drop_last());
        lemma_le_length(list.last());
    }
}

proof fn lemma_flat3(list: Seq<[u32; 3]>)
    ensures
        flat3(list).len() == 3 * list.len(),
        forall|e: int|
            0 <= e < list.len() ==> flat3(list)[3 * e] == (#[trigger] list[e])[0] && flat3(list)[3
                * e + 1] == list[e][1] && flat3(list)[3 * e + 2] == list[e][2],
    decreases list.len(),
{
    if list.len() > 0 {
        lemma_flat3(list.drop_last());
        assert forall|e: int| 0 <= e < list.len() implies flat3(list)[3 * e] == (
        #[trigger] list[e])[0] && flat3(list)[3 * e + 1] == list[e][1] && flat3(list)[3 * e + 2]
            == list[e][2] by {
            if e < list.len() - 1 {
                assert(list.drop_last()[e] == list[e]);
            }
        }
    }
}

proof fn lemma_flat2(list: Seq<[u32; 2]>)
    ensures
        flat2(list).len() == 2 * list.len(),
        forall|e: int|
            0 <= e < list.len() ==> flat2(list)[2 * e] == (#[trigger] list[e])[0] && flat2(list)[2
                * e + 1] == list[e][1],
    decreases list.len(),
{
    if list.len() > 0 {
        lemma_flat2(list.drop_last());
        assert forall|e: int| 0 <= e < list.len() implies flat2(list)[2 * e] == (
        #[trigger] list[e])[0] && flat2(list)[2 * e + 1] == list[e][1] by {
            if e < list.len() - 1 {
                assert(list.drop_last()[e] == list[e]);
            }
        }
    }
}

/// A section stands in the binary chunk from its start on.
proof fn lemma_section(list: Seq<Section>, i: int, n: int)
    requires
        0 <= i < n <= list.len(),
    ensures
        section_start(list, i) + list[i].bytes.len() <= section_bytes(list, n).len(),
        section_bytes(list, n).subrange(
            section_start(list, i) as int,
            (section_start(list, i) + list[i].bytes.len()) as int,
        ) == list[i].bytes,
    decreases n,
{
    let (start, length) = (section_start(list, i) as int, list[i].bytes.len() as int);
    lemma_section_length(list, i);
    let all = section_bytes(list, n);
    if i == n - 1 {
        assert(all.subrange(start, start + length) =~= list[i].bytes);
    } else {
        lemma_section(list, i, n - 1);
        let before = section_bytes(list, n - 1);
        assert(all.subrange(start, start + length) =~= before.subrange(start, start + length));
    }
}

/// A word of a section, read from the binary chunk.
proof fn lemma_section_word(list: Seq<Section>, i: int, values: Seq<u32>, k: int)
    requires
        0 <= i < list.len(),
        list[i].bytes == words(values),
        0 <= k < values.len(),
    ensures
        word(section_bytes(list, list.len() as int), section_start(list, i) + 4 * k) == values[k],
        section_start(list, i) + 4 * k + 4 <= section_bytes(list, list.len() as int).len(),
{
    lemma_words(values, k);
    lemma_section(list, i, list.len() as int);
    let all = section_bytes(list, list.len() as int);
    let start = section_start(list, i) as int;
    let part = all.subrange(start, start + words(values).len() as int);
    assert(all[start + 4 * k] == part[4 * k]);
    assert(all[start + 4 * k + 1] == part[4 * k + 1]);
    assert(all[start + 4 * k + 2] == part[4 * k + 2]);
    assert(all[start + 4 * k + 3] == part[4 * k + 3]);
}

// -- Members by name ---------------------------------------------------------

proof fn lemma_find(members: Seq<(Seq<char>, Tree)>, key: Seq<char>, i: int)
    requires
        0 <= i < members.len(),
        members[i].0 == key,
        forall|j: int| 0 <= j < i ==> (#[trigger] members[j]).0 != key,
    ensures
        find(members, key) == Some(members[i].1),
    decreases i,
{
    if i > 0 {
        assert(members[0].0 != key);
        let rest = members.drop_first();
        assert forall|j: int| 0 <= j < i - 1 implies (#[trigger] rest[j]).0 != key by {
            assert(rest[j] == members[j + 1]);
        }
        lemma_find(rest, key, i - 1);
    }
}

proof fn lemma_absent(members: Seq<(Seq<char>, Tree)>, key: Seq<char>)
    requires
        forall|j: int| 0 <= j < members.len() ==> (#[trigger] members[j]).0 != key,
    ensures
        find(members, key) is None,
    decreases members.len(),
{
    if members.len() > 0 {
        assert(members[0].0 != key);
        let rest = members.drop_first();
        assert forall|j: int| 0 <= j < rest.len() implies (#[trigger] rest[j]).0 != key by {
            assert(rest[j] == members[j + 1]);
        }
        lemma_absent(rest, key);
    }
}

/// The parts of a written document, by name.
proof fn lemma_document(mesh: Mesh<u32>, low: Tree, high: Tree)
    ensures
        ({
            let doc = document(mesh, low, high);
            let list = sections(mesh);
            &&& doc.get("scene"@) == Tree::Unsigned(0)
            &&& doc.get("scenes"@) == Tree::Array(
                seq![single("nodes"@, Tree::Array(seq![Tree::Unsigned(0)]))],
            )
            &&& doc.get("nodes"@) == Tree::Array(seq![single("mesh"@, Tree::Unsigned(0))])
            &&& doc.get("meshes"@) == Tree::Array(
                seq![single("primitives"@, Tree::Array(seq![primitive_tree(mesh)]))],
            )
            &&& doc.get("materials"@) == Tree::Array(seq![material_tree()])
            &&& doc.get("bufferViews"@) == Tree::Array(
                Seq::new(list.len(), |i: int| view_tree(list, i)),
            )
            &&& doc.get("accessors"@) == Tree::Array(
                Seq::new(list.len(), |i: int| accessor_tree(list, low, high, i)),
            )
        }),
{
    let members = document(mesh, low, high)->Object_0;
    reveal_strlit("accessors");
    reveal_strlit("asset");
    reveal_strlit("bufferViews");
    reveal_strlit("buffers");
    reveal_strlit("materials");
    reveal_strlit("meshes");
    reveal_strlit("nodes");
    reveal_strlit("scene");
    reveal_strlit("scenes");
    assert("accessors"@[0] == 'a' && "materials"@[0] == 'm' && "asset"@[0] == 'a' && "nodes"@[0]
        == 'n' && "scene"@[0] == 's' && "scenes"@[0] == 's' && "meshes"@[0] == 'm');
    assert(members.len() == 9);
    assert(members[0].0 == "accessors"@ && members[1].0 == "asset"@ && members[2].0
        == "bufferViews"@ && members[3].0 == "buffers"@ && members[4].0 == "materials"@
        && members[5].0 == "meshes"@ && members[6].0 == "nodes"@ && members[7].0 == "scene"@
        && members[8].0 == "scenes"@);
    lemma_find(members, "accessors"@, 0);
    lemma_find(members, "bufferViews"@, 2);
    lemma_find(members, "materials"@, 4);
    lemma_find(members, "meshes"@, 5);
    lemma_find(members, "nodes"@, 6);
    lemma_find(members, "scene"@, 7);
    lemma_find(members, "scenes"@, 8);
}

/// A written primitive, by name.
proof fn lemma_primitive(mesh: Mesh<u32>)
    ensures
        ({
            let primitive = primitive_tree(mesh);
            &&& primitive.get("attributes"@) == Tree::Object(attributes(mesh))
            &&& primitive.get("indices"@) == Tree::Unsigned(0)
            &&& primitive.get("material"@) == Tree::Unsigned(0)
            &&& primitive.get("mode"@) == Tree::Unsigned(4)
            &&& primitive.get("extensions"@) == Tree::Null
        }),
{
    let members = primitive_tree(mesh)->Object_0;
    reveal_strlit("attributes");
    reveal_strlit("indices");
    reveal_strlit("material");
    reveal_strlit("mode");
    reveal_strlit("extensions");
    assert("attributes"@[0] == 'a' && "extensions"@[0] == 'e');
    assert(members[0].0 == "attributes"@ && members[1].0 == "indices"@ && members[2].0
        == "material"@ && members[3].0 == "mode"@);
    lemma_find(members, "attributes"@, 0);
    lemma_find(members, "indices"@, 1);
    lemma_find(members, "material"@, 2);
    lemma_find(members, "mode"@, 3);
    lemma_absent(members, "extensions"@);
}

/// The attributes of a written primitive, by name.
proof fn lemma_attributes(mesh: Mesh<u32>)
    ensures
        ({
            let found = Tree::Object(attributes(mesh));
            let normals: int = if mesh.normals@.len() == 0 { 0 } else { 1 };
            let uvs: int = if mesh.uvs@.len() == 0 { 0 } else { 1 };
            &&& found.get("POSITION"@) == Tree::Unsigned(1)
            &&& found.get("NORMAL"@) == if mesh.normals@.len() == 0 {
                Tree::Null
            } else {
                Tree::Unsigned(2)
            }
            &&& found.get("TEXCOORD_0"@) == if mesh.uvs@.len() == 0 {
                Tree::Null
            } else {
                Tree::Unsigned((2 + normals) as u64)
            }
            &&& found.get("COLOR_0"@) == if mesh.colors@.len() == 0 {
                Tree::Null
            } else {
                Tree::Unsigned((2 + normals + uvs) as u64)
            }
        }),
{
    let members = attributes(mesh);
    reveal_strlit("COLOR_0");
    reveal_strlit("NORMAL");
    reveal_strlit("POSITION");
    reveal_strlit("TEXCOORD_0");
    let colour: int = if mesh.colors@.len() == 0 { 0 } else { 1 };
    let normal: int = if mesh.normals@.len() == 0 { 0 } else { 1 };
    let uv: int = if mesh.uvs@.len() == 0 { 0 } else { 1 };
    assert(members.len() == colour + normal + 1 + uv);
    assert("COLOR_0"@.len() == 7 && "NORMAL"@.len() == 6 && "POSITION"@.len() == 8
        && "TEXCOORD_0"@.len() == 10);
    assert forall|j: int| 0 <= j < members.len() implies (#[trigger] members[j]).0.len() == if j
        < colour {
        7int
    } else if j < colour + normal {
        6
    } else if j == colour + normal {
        8
    } else {
        10
    } by {}
    assert(members[colour + normal] == ("POSITION"@, Tree::Unsigned(1)));
    if colour == 1 {
        assert(members[0] == ("COLOR_0"@, Tree::Unsigned((2 + normal + uv) as u64)));
        lemma_find(members, "COLOR_0"@, 0);
    }
    if normal == 1 {
        assert(members[colour] == ("NORMAL"@, Tree::Unsigned(2)));
        lemma_find(members, "NORMAL"@, colour);
    }
    lemma_find(members, "POSITION"@, colour + normal);
    if uv == 1 {
        assert(members[colour + normal + 1] == (
            "TEXCOORD_0"@,
            Tree::Unsigned((2 + normal) as u64),
        ));
        lemma_find(members, "TEXCOORD_0"@, colour + normal + 1);
    }
    if colour == 0 {
        lemma_absent(members, "COLOR_0"@);
    }
    if normal == 0 {
        lemma_absent(members, "NORMAL"@);
    }
    if uv == 0 {
        lemma_absent(members, "TEXCOORD_0"@);
    }
}

proof fn lemma_single(key: Seq<char>, value: Tree, other: Seq<char>)
    ensures
        single(key, value).get(key) == value,
        key != other ==> single(key, value).get(other) == Tree::Null,
{
    let members = single(key, value)->Object_0;
    lemma_find(members, key, 0);
    if key != other {
        lemma_absent(members, other);
    }
}

// -- Accessors of a written file ---------------------------------------------

proof fn lemma_entry(list: Seq<Section>, low: Tree, high: Tree, i: int)
    ensures
        ({
            let entry = accessor_tree(list, low, high, i);
            &&& entry is Object
            &&& !entry.has("sparse"@)
            &&& entry.get("componentType"@) == Tree::Unsigned(list[i].kind)
            &&& entry.get("type"@) == Tree::Text(list[i].label)
            &&& entry.get("count"@) == Tree::Unsigned(list[i].count)
            &&& entry.get("bufferView"@) == Tree::Unsigned(i as u64)
            &&& entry.get("byteOffset"@) == Tree::Null
        }),
{
    let members = accessor_tree(list, low, high, i)->Object_0;
    reveal_strlit("bufferView");
    reveal_strlit("componentType");
    reveal_strlit("count");
    reveal_strlit("max");
    reveal_strlit("min");
    reveal_strlit("type");
    reveal_strlit("sparse");
    reveal_strlit("byteOffset");
    assert("bufferView"@[1] == 'u' && "byteOffset"@[1] == 'y');
    let last: int = if i == 1 { 5 } else { 3 };
    assert(members[0].0 == "bufferView"@ && members[1].0 == "componentType"@ && members[2].0
        == "count"@ && members[last].0 == "type"@);
    if i == 1 {
        assert(members[3].0 == "max"@ && members[4].0 == "min"@);
    }
    assert("sparse"@.len() == 6 && "max"@.len() == 3 && "min"@.len() == 3 && "type"@.len() == 4
        && "count"@.len() == 5 && "bufferView"@.len() == 10 && "componentType"@.len() == 13);
    assert(members.len() == last + 1);
    assert forall|j: int| 0 <= j < members.len() implies (#[trigger] members[j]).0 != "sparse"@
        && members[j].0 != "byteOffset"@ by {
        assert(j == 0 || j == 1 || j == 2 || j == last || (i == 1 && (j == 3 || j == 4)));
    }
    lemma_find(members, "bufferView"@, 0);
    lemma_find(members, "componentType"@, 1);
    lemma_find(members, "count"@, 2);
    lemma_find(members, "type"@, last);
    lemma_absent(members, "sparse"@);
    lemma_absent(members, "byteOffset"@);
}

proof fn lemma_view(list: Seq<Section>, i: int)
    ensures
        view_tree(list, i).get("byteOffset"@) == Tree::Unsigned(section_start(list, i) as u64),
        view_tree(list, i).get("byteStride"@) == Tree::Null,
{
    let members = view_tree(list, i)->Object_0;
    reveal_strlit("buffer");
    reveal_strlit("byteLength");
    reveal_strlit("byteOffset");
    reveal_strlit("target");
    reveal_strlit("byteStride");
    assert("byteLength"@[4] == 'L' && "byteOffset"@[4] == 'O' && "byteStride"@[4] == 'S');
    assert(members[0].0 == "buffer"@ && members[1].0 == "byteLength"@ && members[2].0
        == "byteOffset"@ && members[3].0 == "target"@);
    lemma_find(members, "byteOffset"@, 2);
    lemma_absent(members, "byteStride"@);
}

/// Whether a section is one that a mesh writes: words of so many components.
spec fn is_written(section: Section, components: u64) -> bool {
    &&& section.kind == 5125 || section.kind == 5126
    &&& type_components(section.label) == Some(components)
    &&& 1 <= components <= 3
    &&& section.bytes.len() == 4 * components * section.count
}

/// The accessor a written section is read through.
spec fn reader(list: Seq<Section>, i: int, components: u64) -> Accessor {
    Accessor {
        kind: list[i].kind as u32,
        components,
        count: list[i].count,
        offset: section_start(list, i) as u128,
        stride: (4 * components) as u64,
        width: 4,
    }
}

proof fn lemma_reader(mesh: Mesh<u32>, low: Tree, high: Tree, i: int, components: u64)
    requires
        0 <= i < sections(mesh).len() <= 5,
        is_written(sections(mesh)[i], components),
        section_bytes(sections(mesh), sections(mesh).len() as int).len() <= u64::MAX,
    ensures
        ({
            let doc = document(mesh, low, high);
            let list = sections(mesh);
            let found = reader(list, i, components);
            &&& accessor(doc, i as u64) == Ok::<_, crate::error::Fault>(found)
            &&& found.fits(section_bytes(list, list.len() as int).len() as int)
        }),
{
    let list = sections(mesh);
    lemma_document(mesh, low, high);
    lemma_entry(list, low, high, i);
    lemma_view(list, i);
    lemma_section(list, i, list.len() as int);
    let found = reader(list, i, components);
    if found.count > 0 {
        let (count, c) = (found.count as int, components as int);
        assert((count - 1) * (4 * c) + c * 4 == 4 * c * count) by (nonlinear_arith);
    }
}

/// What a written section of triples is read as.
proof fn lemma_triples(list: Seq<Section>, i: int, values: Seq<[u32; 3]>)
    requires
        0 <= i < list.len(),
        list[i].kind == 5126,
        list[i].count == values.len(),
        list[i].bytes == words(flat3(values)),
        section_bytes(list, list.len() as int).len() <= u64::MAX,
    ensures
        reader(list, i, 3).triples(section_bytes(list, list.len() as int)) == floats3(values),
{
    let binary = section_bytes(list, list.len() as int);
    let found = reader(list, i, 3);
    lemma_flat3(values);
    lemma_section(list, i, list.len() as int);
    assert forall|e: int| 0 <= e < values.len() implies #[trigger] found.triples(binary)[e]
        == floats3(values)[e] by {
        lemma_section_word(list, i, flat3(values), 3 * e);
        lemma_section_word(list, i, flat3(values), 3 * e + 1);
        lemma_section_word(list, i, flat3(values), 3 * e + 2);
        assert(flat3(values)[3 * e] == values[e][0]);
        assert(flat3(values)[3 * e + 1] == values[e][1]);
        assert(flat3(values)[3 * e + 2] == values[e][2]);
        assert(found.triples(binary)[e] =~= floats3(values)[e]);
    }
    assert(found.triples(binary) =~= floats3(values));
}

/// What a written section of pairs is read as.
proof fn lemma_couples(list: Seq<Section>, i: int, values: Seq<[u32; 2]>)
    requires
        0 <= i < list.len(),
        list[i].kind == 5126,
        list[i].count == values.len(),
        list[i].bytes == words(flat2(values)),
        section_bytes(list, list.len() as int).len() <= u64::MAX,
    ensures
        reader(list, i, 2).couples(section_bytes(list, list.len() as int)) == floats2(values),
{
    let binary = section_bytes(list, list.len() as int);
    let found = reader(list, i, 2);
    lemma_flat2(values);
    lemma_section(list, i, list.len() as int);
    assert forall|e: int| 0 <= e < values.len() implies #[trigger] found.couples(binary)[e]
        == floats2(values)[e] by {
        lemma_section_word(list, i, flat2(values), 2 * e);
        lemma_section_word(list, i, flat2(values), 2 * e + 1);
        assert(flat2(values)[2 * e] == values[e][0]);
        assert(flat2(values)[2 * e + 1] == values[e][1]);
        assert(found.couples(binary)[e] =~= floats2(values)[e]);
    }
    assert(found.couples(binary) =~= floats2(values));
}

/// What the written indices are read as.
proof fn lemma_indices(list: Seq<Section>, values: Seq<[u32; 3]>, f: int)
    requires
        0 < list.len(),
        list[0].kind == 5125,
        list[0].count == 3 * values.len(),
        list[0].bytes == words(flat3(values)),
        section_bytes(list, list.len() as int).len() <= u64::MAX,
        0 <= f < values.len(),
    ensures
        ({
            let binary = section_bytes(list, list.len() as int);
            let found = reader(list, 0, 1);
            [
                low(0 + found.index(binary, 3 * f)),
                low(0 + found.index(binary, 3 * f + 1)),
                low(0 + found.index(binary, 3 * f + 2)),
            ] == values[f]
        }),
{
    lemma_flat3(values);
    lemma_section_word(list, 0, flat3(values), 3 * f);
    lemma_section_word(list, 0, flat3(values), 3 * f + 1);
    lemma_section_word(list, 0, flat3(values), 3 * f + 2);
    let binary = section_bytes(list, list.len() as int);
    let found = reader(list, 0, 1);
    lemma_section(list, 0, list.len() as int);
    assert(flat3(values)[3 * f] == values[f][0]);
    assert forall|e: int| #[trigger] found.place(e, 0) == section_start(list, 0) + 4 * e by {
        let stride = found.stride as int;
        assert(e * stride == 4 * e) by (nonlinear_arith)
            requires
                stride == 4,
        ;
    }
    assert(found.place(3 * f, 0) == section_start(list, 0) + 4 * (3 * f));
    assert(found.place(3 * f + 1, 0) == section_start(list, 0) + 4 * (3 * f + 1));
    assert(found.place(3 * f + 2, 0) == section_start(list, 0) + 4 * (3 * f + 2));
    assert(found.index(binary, 3 * f) == values[f][0]);
    assert(found.index(binary, 3 * f + 1) == values[f][1]);
    assert(found.index(binary, 3 * f + 2) == values[f][2]);
    let read = [
        low(0 + found.index(binary, 3 * f)),
        low(0 + found.index(binary, 3 * f + 1)),
        low(0 + found.index(binary, 3 * f + 2)),
    ];
    assert(read[0] == values[f][0] && read[1] == values[f][1] && read[2] == values[f][2]);
    assert(read@ =~= values[f]@);
    assert(read =~= values[f]);
}

/// Triples of bits, as stored coordinates.
pub open spec fn floats3(list: Seq<[u32; 3]>) -> Seq<[Component; 3]> {
    Seq::new(
        list.len(),
        |e: int|
            [
                Component::Float(list[e][0]),
                Component::Float(list[e][1]),
                Component::Float(list[e][2]),
            ],
    )
}

/// Pairs of bits, as stored coordinates.
pub open spec fn floats2(list: Seq<[u32; 2]>) -> Seq<[Component; 2]> {
    Seq::new(
        list.len(),
        |e: int| [Component::Float(list[e][0]), Component::Float(list[e][1])],
    )
}

// -- The law -----------------------------------------------------------------

/// How many of a mesh's optional attributes there are: one or none.
spec fn present(count: nat) -> int {
    if count == 0 { 0 } else { 1 }
}

proof fn lemma_labels()
    ensures
        type_components("SCALAR"@) == Some(1u64),
        type_components("VEC2"@) == Some(2u64),
        type_components("VEC3"@) == Some(3u64),
{
    reveal_strlit("SCALAR");
    reveal_strlit("VEC2");
    reveal_strlit("VEC3");
    assert("VEC2"@[3] == '2' && "VEC3"@[3] == '3');
}

/// The sections of a mesh that can be written.
proof fn lemma_sections(mesh: Mesh<u32>)
    requires
        complaint(mesh) is None,
        3 * mesh.indices@.len() <= u64::MAX,
        mesh.positions@.len() <= u64::MAX,
    ensures
        ({
            let list = sections(mesh);
            let normals = present(mesh.normals@.len());
            let uvs = present(mesh.uvs@.len());
            &&& list.len() == 2 + normals + uvs + present(mesh.colors@.len())
            &&& list[0].kind == 5125 && list[0].count == 3 * mesh.indices@.len() && list[0].bytes
                == words(flat3(mesh.indices@)) && is_written(list[0], 1)
            &&& list[1].kind == 5126 && list[1].count == mesh.positions@.len() && list[1].bytes
                == words(flat3(mesh.positions@)) && is_written(list[1], 3)
            &&& normals == 1 ==> list[2].kind == 5126 && list[2].count == mesh.normals@.len()
                && list[2].bytes == words(flat3(mesh.normals@)) && is_written(list[2], 3)
            &&& uvs == 1 ==> list[2 + normals].kind == 5126 && list[2 + normals].count
                == mesh.uvs@.len() && list[2 + normals].bytes == words(flat2(mesh.uvs@))
                && is_written(list[2 + normals], 2)
            &&& mesh.colors@.len() > 0 ==> list[2 + normals + uvs].kind == 5126 && list[2 + normals
                + uvs].count == mesh.colors@.len() && list[2 + normals + uvs].bytes == words(
                flat3(mesh.colors@.map_values(|c: [u32; 3]| clamped3(c))),
            ) && is_written(list[2 + normals + uvs], 3)
        }),
{
    lemma_labels();
    let colors = mesh.colors@.map_values(|c: [u32; 3]| clamped3(c));
    lemma_flat3(mesh.indices@);
    lemma_words_length(flat3(mesh.indices@));
    lemma_flat3(mesh.positions@);
    lemma_words_length(flat3(mesh.positions@));
    lemma_flat3(mesh.normals@);
    lemma_words_length(flat3(mesh.normals@));
    lemma_flat2(mesh.uvs@);
    lemma_words_length(flat2(mesh.uvs@));
    lemma_flat3(colors);
    lemma_words_length(flat3(colors));
    let list = sections(mesh);
    let normals = present(mesh.normals@.len());
    let uvs = present(mesh.uvs@.len());
    assert(list.len() == 2 + normals + uvs + present(mesh.colors@.len()));
    assert(list[0].label == "SCALAR"@ && list[0].bytes == words(flat3(mesh.indices@)));
    assert(is_written(list[0], 1));
    assert(list[1].label == "VEC3"@ && list[1].bytes == words(flat3(mesh.positions@)));
    assert(list[1].count == mesh.positions@.len() && list[1].kind == 5126);
    assert(list[1].bytes.len() == 12 * mesh.positions@.len());
    assert(type_components(list[1].label) == Some(3u64));
    assert(is_written(list[1], 3));
    if normals == 1 {
        assert(list[2].label == "VEC3"@ && list[2].bytes == words(flat3(mesh.normals@)));
        assert(is_written(list[2], 3));
    }
    if uvs == 1 {
        let at = 2 + normals;
        assert(list[at].label == "VEC2"@ && list[at].bytes == words(flat2(mesh.uvs@)));
        assert(is_written(list[at], 2));
    }
    if mesh.colors@.len() > 0 {
        let at = 2 + normals + uvs;
        assert(list[at].label == "VEC3"@ && list[at].bytes == words(flat3(colors)));
        assert(is_written(list[at], 3));
    }
}

/// The colours a written mesh comes back with: its own, clamped, or the base
/// colour of its material.
pub open spec fn colours_back(mesh: Mesh<u32>) -> Seq<[Component; 3]> {
    if mesh.colors@.len() == 0 {
        Seq::new(
            mesh.positions@.len(),
            |i: int|
                [
                    Component::Factor { material: 0, channel: 0 },
                    Component::Factor { material: 0, channel: 1 },
                    Component::Factor { material: 0, channel: 2 },
                ],
        )
    } else {
        floats3(mesh.colors@.map_values(|c: [u32; 3]| clamped3(c)))
    }
}

/// A written mesh, as it is read back.
pub open spec fn scene_back(mesh: Mesh<u32>) -> SceneView {
    SceneView {
        positions: floats3(mesh.positions@),
        normals: floats3(mesh.normals@),
        uvs: floats2(mesh.uvs@),
        colors: colours_back(mesh),
        indices: mesh.indices@,
        parts: seq![
            PartView {
                path: seq![0u64],
                first_position: 0,
                positions: mesh.positions@.len(),
                first_normal: 0,
                normals: mesh.normals@.len(),
            },
        ],
    }
}

proof fn lemma_base_colour(mesh: Mesh<u32>, low: Tree, high: Tree)
    ensures
        base_colour(document(mesh, low, high), 0) == [
            Component::Factor { material: 0, channel: 0 },
            Component::Factor { material: 0, channel: 1 },
            Component::Factor { material: 0, channel: 2 },
        ],
{
    lemma_document(mesh, low, high);
    let inner = material_tree()->Object_0[0].1;
    lemma_single("pbrMetallicRoughness"@, inner, ""@);
    lemma_find(inner->Object_0, "baseColorFactor"@, 0);
}

/// What a written attribute is read through.
proof fn lemma_attribute(mesh: Mesh<u32>, low: Tree, high: Tree, i: int, components: u64)
    requires
        0 <= i < sections(mesh).len() <= 5,
        is_written(sections(mesh)[i], components),
        section_bytes(sections(mesh), sections(mesh).len() as int).len() <= u64::MAX,
    ensures
        ({
            let list = sections(mesh);
            let binary = section_bytes(list, list.len() as int);
            vectors(document(mesh, low, high), binary, i as u64, components) == Ok::<
                _,
                crate::error::Fault,
            >(reader(list, i, components))
        }),
{
    lemma_reader(mesh, low, high, i, components);
}

/// Whether a mesh can be written at all.
pub open spec fn writable(mesh: Mesh<u32>) -> bool {
    &&& complaint(mesh) is None
    &&& 3 * mesh.indices@.len() <= u64::MAX
    &&& mesh.positions@.len() <= u64::MAX
    &&& section_bytes(sections(mesh), sections(mesh).len() as int).len() <= u64::MAX
}

/// The binary chunk of a written mesh.
pub open spec fn binary_of(mesh: Mesh<u32>) -> Seq<u8> {
    section_bytes(sections(mesh), sections(mesh).len() as int)
}

proof fn lemma_positions_back(mesh: Mesh<u32>, low: Tree, high: Tree)
    requires
        writable(mesh),
    ensures
        ({
            let found = reader(sections(mesh), 1, 3);
            &&& vectors(document(mesh, low, high), binary_of(mesh), 1, 3) == Ok::<
                _,
                crate::error::Fault,
            >(found)
            &&& found.triples(binary_of(mesh)) == floats3(mesh.positions@)
            &&& found.count == mesh.positions@.len()
        }),
{
    lemma_sections(mesh);
    lemma_attribute(mesh, low, high, 1, 3);
    lemma_triples(sections(mesh), 1, mesh.positions@);
}

proof fn lemma_normals_back(mesh: Mesh<u32>, low: Tree, high: Tree)
    requires
        writable(mesh),
    ensures
        ({
            let value = Tree::Object(attributes(mesh)).get("NORMAL"@);
            let found = attribute(document(mesh, low, high), binary_of(mesh), value, 3);
            found is Ok && triples_of(found->Ok_0, binary_of(mesh)) == floats3(mesh.normals@)
        }),
{
    lemma_attributes(mesh);
    if mesh.normals@.len() > 0 {
        lemma_sections(mesh);
        lemma_attribute(mesh, low, high, 2, 3);
        lemma_triples(sections(mesh), 2, mesh.normals@);
    } else {
        assert(Seq::<[Component; 3]>::empty() =~= floats3(mesh.normals@));
    }
}

proof fn lemma_uvs_back(mesh: Mesh<u32>, low: Tree, high: Tree)
    requires
        writable(mesh),
    ensures
        ({
            let value = Tree::Object(attributes(mesh)).get("TEXCOORD_0"@);
            let found = attribute(document(mesh, low, high), binary_of(mesh), value, 2);
            found is Ok && couples_of(found->Ok_0, binary_of(mesh)) == floats2(mesh.uvs@)
        }),
{
    lemma_attributes(mesh);
    if mesh.uvs@.len() > 0 {
        let at = 2 + present(mesh.normals@.len());
        lemma_sections(mesh);
        lemma_attribute(mesh, low, high, at, 2);
        lemma_couples(sections(mesh), at, mesh.uvs@);
    } else {
        assert(Seq::<[Component; 2]>::empty() =~= floats2(mesh.uvs@));
    }
}

proof fn lemma_colours_back(mesh: Mesh<u32>, low: Tree, high: Tree)
    requires
        writable(mesh),
    ensures
        colours(
            document(mesh, low, high),
            binary_of(mesh),
            primitive_tree(mesh),
            mesh.positions@.len(),
        ) == Ok::<_, Halt>(colours_back(mesh)),
{
    lemma_primitive(mesh);
    lemma_attributes(mesh);
    if mesh.colors@.len() > 0 {
        let at = 2 + present(mesh.normals@.len()) + present(mesh.uvs@.len());
        lemma_sections(mesh);
        lemma_attribute(mesh, low, high, at, 3);
        lemma_reader(mesh, low, high, at, 3);
        lemma_triples(
            sections(mesh),
            at,
            mesh.colors@.map_values(|c: [u32; 3]| clamped3(c)),
        );
    } else {
        lemma_base_colour(mesh, low, high);
        let found = colours(
            document(mesh, low, high),
            binary_of(mesh),
            primitive_tree(mesh),
            mesh.positions@.len(),
        );
        assert(found->Ok_0 =~= colours_back(mesh));
    }
}

proof fn lemma_faces_back(mesh: Mesh<u32>, low: Tree, high: Tree)
    requires
        writable(mesh),
    ensures
        corners(
            document(mesh, low, high),
            binary_of(mesh),
            primitive_tree(mesh),
            0,
            mesh.positions@.len(),
        ) == Ok::<_, Halt>(mesh.indices@),
{
    let list = sections(mesh);
    let (doc, binary) = (document(mesh, low, high), binary_of(mesh));
    lemma_sections(mesh);
    lemma_primitive(mesh);
    lemma_reader(mesh, low, high, 0, 1);
    assert(scalars(doc, binary, 0) == Ok::<_, crate::error::Fault>(reader(list, 0, 1)));
    let found = corners(doc, binary, primitive_tree(mesh), 0, mesh.positions@.len());
    assert(found->Ok_0.len() == mesh.indices@.len());
    assert forall|f: int| 0 <= f < mesh.indices@.len() implies #[trigger] found->Ok_0[f]
        == mesh.indices@[f] by {
        lemma_indices(list, mesh.indices@, f);
    }
    assert(found->Ok_0 =~= mesh.indices@);
}

/// A primitive whose parts are read is read.
proof fn lemma_combine(doc: Tree, binary: Seq<u8>, primitive: Tree, mesh: Mesh<u32>, at: Accessor)
    requires
        primitive.get("extensions"@) == Tree::Null,
        primitive.get("mode"@) == Tree::Unsigned(4),
        primitive.get("attributes"@).get("POSITION"@) == Tree::Unsigned(1),
        vectors(doc, binary, 1, 3) == Ok::<_, crate::error::Fault>(at),
        at.triples(binary) == floats3(mesh.positions@),
        at.count == mesh.positions@.len(),
        ({
            let found = attribute(
                doc,
                binary,
                primitive.get("attributes"@).get("NORMAL"@),
                3,
            );
            found is Ok && triples_of(found->Ok_0, binary) == floats3(mesh.normals@)
        }),
        ({
            let found = attribute(
                doc,
                binary,
                primitive.get("attributes"@).get("TEXCOORD_0"@),
                2,
            );
            found is Ok && couples_of(found->Ok_0, binary) == floats2(mesh.uvs@)
        }),
        colours(doc, binary, primitive, mesh.positions@.len()) == Ok::<_, Halt>(
            colours_back(mesh),
        ),
        corners(doc, binary, primitive, 0, mesh.positions@.len()) == Ok::<_, Halt>(mesh.indices@),
    ensures
        appended(doc, binary, primitive, seq![0u64], nothing()) == Ok::<_, Halt>(scene_back(mesh)),
{
    let made = with_vertices(doc, binary, primitive, seq![0u64], nothing(), at);
    assert(made is Ok);
    let scene = made->Ok_0;
    assert(scene.positions =~= floats3(mesh.positions@));
    assert(scene.normals =~= floats3(mesh.normals@));
    assert(scene.uvs =~= floats2(mesh.uvs@));
    assert(scene.colors =~= colours_back(mesh));
    assert(scene.indices =~= mesh.indices@);
    assert(scene.parts =~= scene_back(mesh).parts);
    assert(scene =~= scene_back(mesh));
}

/// The one primitive of a written mesh is read back whole.
proof fn lemma_primitive_back(mesh: Mesh<u32>, low: Tree, high: Tree)
    requires
        writable(mesh),
    ensures
        appended(
            document(mesh, low, high),
            binary_of(mesh),
            primitive_tree(mesh),
            seq![0u64],
            nothing(),
        ) == Ok::<_, Halt>(scene_back(mesh)),
{
    lemma_primitive(mesh);
    lemma_attributes(mesh);
    lemma_positions_back(mesh, low, high);
    lemma_normals_back(mesh, low, high);
    lemma_uvs_back(mesh, low, high);
    lemma_colours_back(mesh, low, high);
    lemma_faces_back(mesh, low, high);
    lemma_combine(
        document(mesh, low, high),
        binary_of(mesh),
        primitive_tree(mesh),
        mesh,
        reader(sections(mesh), 1, 3),
    );
}

/// A scene of one node with one mesh of one primitive.
proof fn lemma_one_primitive(doc: Tree, binary: Seq<u8>, primitive: Tree, back: SceneView)
    requires
        doc.get("scene"@) == Tree::Unsigned(0),
        doc.get("scenes"@) == Tree::Array(
            seq![single("nodes"@, Tree::Array(seq![Tree::Unsigned(0)]))],
        ),
        doc.get("nodes"@) == Tree::Array(seq![single("mesh"@, Tree::Unsigned(0))]),
        doc.get("meshes"@) == Tree::Array(
            seq![single("primitives"@, Tree::Array(seq![primitive]))],
        ),
        appended(doc, binary, primitive, seq![0u64], nothing()) == Ok::<_, Halt>(back),
        back.indices.len() > 0,
    ensures
        gathered(doc, binary) == Ok::<_, Halt>(in_step(back)),
{
    let roots = seq![Tree::Unsigned(0)];
    let primitives = seq![primitive];
    let node = single("mesh"@, Tree::Unsigned(0));
    lemma_single("nodes"@, Tree::Array(roots), ""@);
    lemma_single("primitives"@, Tree::Array(primitives), ""@);
    reveal_strlit("mesh");
    reveal_strlit("children");
    lemma_single("mesh"@, Tree::Unsigned(0), "children"@);
    let path = seq![0u64];
    let none = nothing();
    assert(Seq::<u64>::empty().push(0u64) =~= path);
    assert(with_primitives(doc, binary, primitives, 0, path, none) == Ok::<_, Halt>(none));
    assert(with_primitives(doc, binary, primitives, 1, path, none) == Ok::<_, Halt>(back));
    assert(with_mesh(doc, binary, node, path, none) == Ok::<_, Halt>(back));
    assert(walked(doc, binary, 0, Seq::empty(), none, 2) == Ok::<_, Halt>(back));
    let complaint = "a scene names a node that is not a number"@;
    assert(with_children(doc, binary, roots, 0, complaint, Seq::empty(), none, 2) == Ok::<_, Halt>(
        none,
    ));
    assert(with_children(doc, binary, roots, 1, complaint, Seq::empty(), none, 2) == Ok::<_, Halt>(
        back,
    ));
}

/// A mesh that can be written is read back as it was: every position, normal,
/// texture coordinate and face, and its colours clamped to the range from zero
/// to one, or the material's base colour where it has none.
pub proof fn law_round_trip(mesh: Mesh<u32>, low: Tree, high: Tree)
    requires
        writable(mesh),
    ensures
        gathered(document(mesh, low, high), binary_of(mesh)) == Ok::<_, Halt>(scene_back(mesh)),
{
    lemma_document(mesh, low, high);
    lemma_primitive_back(mesh, low, high);
    lemma_one_primitive(
        document(mesh, low, high),
        binary_of(mesh),
        primitive_tree(mesh),
        scene_back(mesh),
    );
    assert(in_step(scene_back(mesh)) =~= scene_back(mesh));
}

} // verus!
