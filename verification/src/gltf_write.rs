//! Writing a mesh as the scene of a GLB file.
use crate::error::{invalid_dataset, Fault, NetworkError};
use crate::glb::{extend, le, push_word, Glb};
use crate::json::{tree, Json, Member, Tree};
use crate::mesh::Mesh;
use crate::text::{decimal, with_two_numbers};
use vstd::prelude::*;

verus! {

// -- What is written ---------------------------------------------------------

/// One attribute on its way into the file: its bytes and what they are.
pub ghost struct Section {
    pub kind: u64,
    pub label: Seq<char>,
    pub count: u64,
    pub target: u64,
    pub bytes: Seq<u8>,
}

/// Where section `i` starts in the binary chunk.
pub open spec fn section_start(sections: Seq<Section>, i: int) -> nat
    decreases i,
{
    if i <= 0 {
        0
    } else {
        section_start(sections, i - 1) + sections[i - 1].bytes.len()
    }
}

/// The binary chunk of the first `i` sections.
pub open spec fn section_bytes(sections: Seq<Section>, i: int) -> Seq<u8>
    decreases i,
{
    if i <= 0 {
        Seq::empty()
    } else {
        section_bytes(sections, i - 1) + sections[i - 1].bytes
    }
}

/// The buffer view of section `i`.
pub open spec fn view_tree(sections: Seq<Section>, i: int) -> Tree {
    Tree::Object(
        seq![
            ("buffer"@, Tree::Unsigned(0)),
            ("byteLength"@, Tree::Unsigned(sections[i].bytes.len() as u64)),
            ("byteOffset"@, Tree::Unsigned(section_start(sections, i) as u64)),
            ("target"@, Tree::Unsigned(sections[i].target)),
        ],
    )
}

/// The accessor of section `i`. The second section, which holds the positions,
/// carries their bounding box.
pub open spec fn accessor_tree(sections: Seq<Section>, low: Tree, high: Tree, i: int) -> Tree {
    if i == 1 {
        Tree::Object(
            seq![
                ("bufferView"@, Tree::Unsigned(i as u64)),
                ("componentType"@, Tree::Unsigned(sections[i].kind)),
                ("count"@, Tree::Unsigned(sections[i].count)),
                ("max"@, high),
                ("min"@, low),
                ("type"@, Tree::Text(sections[i].label)),
            ],
        )
    } else {
        Tree::Object(
            seq![
                ("bufferView"@, Tree::Unsigned(i as u64)),
                ("componentType"@, Tree::Unsigned(sections[i].kind)),
                ("count"@, Tree::Unsigned(sections[i].count)),
                ("type"@, Tree::Text(sections[i].label)),
            ],
        )
    }
}

/// The bytes of a list of words.
pub open spec fn words(list: Seq<u32>) -> Seq<u8>
    decreases list.len(),
{
    if list.len() == 0 {
        Seq::empty()
    } else {
        words(list.drop_last()) + le(list.last())
    }
}

/// The words of a list of triples.
pub open spec fn flat3(list: Seq<[u32; 3]>) -> Seq<u32>
    decreases list.len(),
{
    if list.len() == 0 {
        Seq::empty()
    } else {
        flat3(list.drop_last()) + seq![list.last()[0], list.last()[1], list.last()[2]]
    }
}

/// The words of a list of pairs.
pub open spec fn flat2(list: Seq<[u32; 2]>) -> Seq<u32>
    decreases list.len(),
{
    if list.len() == 0 {
        Seq::empty()
    } else {
        flat2(list.drop_last()) + seq![list.last()[0], list.last()[1]]
    }
}

/// The bits of a 32-bit float, clamped to the range from zero to one: negative
/// numbers are those above the sign bit, and infinity is the largest number.
pub open spec fn clamped(bits: u32) -> u32 {
    if 0x8000_0000 < bits <= 0xFF80_0000 {
        0
    } else if 0x3F80_0000 < bits <= 0x7F80_0000 {
        0x3F80_0000
    } else {
        bits
    }
}

/// A colour clamped to the range from zero to one.
pub open spec fn clamped3(colour: [u32; 3]) -> [u32; 3] {
    [clamped(colour[0]), clamped(colour[1]), clamped(colour[2])]
}

/// The sections of a mesh: its indices, its positions, and whichever of
/// normals, texture coordinates and colours it has.
pub open spec fn sections(mesh: Mesh<u32>) -> Seq<Section> {
    let vertices = mesh.positions@.len() as u64;
    let base = seq![
        Section {
            kind: 5125,
            label: "SCALAR"@,
            count: (3 * mesh.indices@.len()) as u64,
            target: 34963,
            bytes: words(flat3(mesh.indices@)),
        },
        Section {
            kind: 5126,
            label: "VEC3"@,
            count: vertices,
            target: 34962,
            bytes: words(flat3(mesh.positions@)),
        },
    ];
    let with_normals = if mesh.normals@.len() == 0 {
        base
    } else {
        base.push(
            Section {
                kind: 5126,
                label: "VEC3"@,
                count: vertices,
                target: 34962,
                bytes: words(flat3(mesh.normals@)),
            },
        )
    };
    let with_uvs = if mesh.uvs@.len() == 0 {
        with_normals
    } else {
        with_normals.push(
            Section {
                kind: 5126,
                label: "VEC2"@,
                count: vertices,
                target: 34962,
                bytes: words(flat2(mesh.uvs@)),
            },
        )
    };
    if mesh.colors@.len() == 0 {
        with_uvs
    } else {
        with_uvs.push(
            Section {
                kind: 5126,
                label: "VEC3"@,
                count: vertices,
                target: 34962,
                bytes: words(flat3(mesh.colors@.map_values(|c: [u32; 3]| clamped3(c)))),
            },
        )
    }
}

/// The accessors of a mesh's attributes, by name.
pub open spec fn attributes(mesh: Mesh<u32>) -> Seq<(Seq<char>, Tree)> {
    let normals: int = if mesh.normals@.len() == 0 { 0 } else { 1 };
    let uvs: int = if mesh.uvs@.len() == 0 { 0 } else { 1 };
    let colour = if mesh.colors@.len() == 0 {
        Seq::empty()
    } else {
        seq![("COLOR_0"@, Tree::Unsigned((2 + normals + uvs) as u64))]
    };
    let with_normal = if mesh.normals@.len() == 0 {
        colour
    } else {
        colour.push(("NORMAL"@, Tree::Unsigned(2)))
    };
    let with_position = with_normal.push(("POSITION"@, Tree::Unsigned(1)));
    if mesh.uvs@.len() == 0 {
        with_position
    } else {
        with_position.push(("TEXCOORD_0"@, Tree::Unsigned((2 + normals) as u64)))
    }
}

/// An object of one member.
pub open spec fn single(key: Seq<char>, value: Tree) -> Tree {
    Tree::Object(seq![(key, value)])
}

/// The one primitive of a written mesh.
pub open spec fn primitive_tree(mesh: Mesh<u32>) -> Tree {
    Tree::Object(
        seq![
            ("attributes"@, Tree::Object(attributes(mesh))),
            ("indices"@, Tree::Unsigned(0)),
            ("material"@, Tree::Unsigned(0)),
            ("mode"@, Tree::Unsigned(4)),
        ],
    )
}

/// The one material of a written mesh: an untextured white, because a viewer
/// multiplies vertex colours by it.
pub open spec fn material_tree() -> Tree {
    single(
        "pbrMetallicRoughness"@,
        Tree::Object(
            seq![
                (
                    "baseColorFactor"@,
                    Tree::Array(
                        seq![
                            Tree::Float("1.0"@),
                            Tree::Float("1.0"@),
                            Tree::Float("1.0"@),
                            Tree::Float("1.0"@),
                        ],
                    ),
                ),
                ("metallicFactor"@, Tree::Float("0.0"@)),
                ("roughnessFactor"@, Tree::Float("0.8"@)),
            ],
        ),
    )
}

/// The description of a written mesh.
pub open spec fn document(mesh: Mesh<u32>, low: Tree, high: Tree) -> Tree {
    let list = sections(mesh);
    Tree::Object(
        seq![
            (
                "accessors"@,
                Tree::Array(Seq::new(list.len(), |i: int| accessor_tree(list, low, high, i))),
            ),
            (
                "asset"@,
                Tree::Object(
                    seq![
                        ("generator"@, Tree::Text("rusting_brain"@)),
                        ("version"@, Tree::Text("2.0"@)),
                    ],
                ),
            ),
            ("bufferViews"@, Tree::Array(Seq::new(list.len(), |i: int| view_tree(list, i)))),
            (
                "buffers"@,
                Tree::Array(
                    seq![
                        single(
                            "byteLength"@,
                            Tree::Unsigned(section_bytes(list, list.len() as int).len() as u64),
                        ),
                    ],
                ),
            ),
            ("materials"@, Tree::Array(seq![material_tree()])),
            (
                "meshes"@,
                Tree::Array(
                    seq![single("primitives"@, Tree::Array(seq![primitive_tree(mesh)]))],
                ),
            ),
            ("nodes"@, Tree::Array(seq![single("mesh"@, Tree::Unsigned(0))])),
            ("scene"@, Tree::Unsigned(0)),
            (
                "scenes"@,
                Tree::Array(seq![single("nodes"@, Tree::Array(seq![Tree::Unsigned(0)]))]),
            ),
        ],
    )
}

/// The first corner of the first `k` faces that names no vertex.
pub open spec fn stray_corner(indices: Seq<[u32; 3]>, vertices: nat, k: int) -> Option<u32>
    decreases k,
{
    if k <= 0 {
        None
    } else {
        match stray_corner(indices, vertices, k - 1) {
            Some(corner) => Some(corner),
            None => if indices[k - 1][0] >= vertices {
                Some(indices[k - 1][0])
            } else if indices[k - 1][1] >= vertices {
                Some(indices[k - 1][1])
            } else if indices[k - 1][2] >= vertices {
                Some(indices[k - 1][2])
            } else {
                None
            },
        }
    }
}

/// Why a mesh cannot be written, when it cannot.
pub open spec fn complaint(mesh: Mesh<u32>) -> Option<Fault> {
    let vertices = mesh.positions@.len();
    let stray = stray_corner(mesh.indices@, vertices, mesh.indices@.len() as int);
    if mesh.indices@.len() == 0 || vertices == 0 {
        Some(Fault::InvalidDataset("a glTF primitive needs at least one triangle"@))
    } else if stray is Some {
        Some(
            Fault::InvalidDataset(
                "a face names vertex "@ + decimal(stray->Some_0 as nat) + " of "@ + decimal(
                    vertices,
                ) + ""@,
            ),
        )
    } else if mesh.normals@.len() != 0 && mesh.normals@.len() != vertices {
        Some(miscounted(mesh.normals@.len(), " normals for "@, vertices))
    } else if mesh.uvs@.len() != 0 && mesh.uvs@.len() != vertices {
        Some(miscounted(mesh.uvs@.len(), " texture coordinates for "@, vertices))
    } else if mesh.colors@.len() != 0 && mesh.colors@.len() != vertices {
        Some(miscounted(mesh.colors@.len(), " vertex colours for "@, vertices))
    } else {
        None
    }
}

/// An attribute list that is not as long as the positions.
pub open spec fn miscounted(count: nat, what: Seq<char>, vertices: nat) -> Fault {
    Fault::InvalidDataset(""@ + decimal(count) + what + decimal(vertices) + " vertices"@)
}

// -- Writing -----------------------------------------------------------------

/// The members of an object, as they are held.
spec fn members_of(list: Seq<Member>) -> Seq<(Seq<char>, Tree)> {
    list.map_values(|m: Member| (m.key@, tree(m.value)))
}

/// The items of an array, as they are held.
spec fn items_of(list: Seq<Json>) -> Seq<Tree> {
    list.map_values(|j: Json| tree(j))
}

fn object(members: Vec<Member>) -> (json: Json)
    ensures
        tree(json) == Tree::Object(members_of(members@)),
{
    let json = Json::Object(members);
    assert(tree(json)->Object_0 =~= members_of(members@));
    json
}

fn array(items: Vec<Json>) -> (json: Json)
    ensures
        tree(json) == Tree::Array(items_of(items@)),
{
    let json = Json::Array(items);
    assert(tree(json)->Array_0 =~= items_of(items@));
    json
}

fn named(key: &str, value: Json) -> (member: Member)
    ensures
        member.key@ == key@,
        tree(member.value) == tree(value),
{
    Member { key: key.to_string(), value }
}

fn only(key: &str, value: Json) -> (json: Json)
    ensures
        tree(json) == single(key@, tree(value)),
{
    let json = object(vec![named(key, value)]);
    assert(tree(json)->Object_0 =~= seq![(key@, tree(value))]);
    json
}

fn list_of_one(value: Json) -> (json: Json)
    ensures
        tree(json) == Tree::Array(seq![tree(value)]),
{
    let json = array(vec![value]);
    assert(tree(json)->Array_0 =~= seq![tree(value)]);
    json
}

fn fraction(text: &str) -> (json: Json)
    ensures
        tree(json) == Tree::Float(text@),
{
    Json::Float(text.to_string())
}

proof fn lemma_words_push(list: Seq<u32>, word: u32)
    ensures
        words(list.push(word)) == words(list) + le(word),
{
    assert(list.push(word).drop_last() =~= list);
}

proof fn lemma_words_push3(list: Seq<u32>, a: u32, b: u32, c: u32)
    ensures
        words(list + seq![a, b, c]) == words(list) + le(a) + le(b) + le(c),
{
    lemma_words_push(list, a);
    lemma_words_push(list.push(a), b);
    lemma_words_push(list.push(a).push(b), c);
    assert(list + seq![a, b, c] =~= list.push(a).push(b).push(c));
}

proof fn lemma_words_push2(list: Seq<u32>, a: u32, b: u32)
    ensures
        words(list + seq![a, b]) == words(list) + le(a) + le(b),
{
    lemma_words_push(list, a);
    lemma_words_push(list.push(a), b);
    assert(list + seq![a, b] =~= list.push(a).push(b));
}

/// The bytes of a list of triples.
fn bytes_of_triples(list: &Vec<[u32; 3]>) -> (bytes: Vec<u8>)
    ensures
        bytes@ == words(flat3(list@)),
{
    let mut bytes: Vec<u8> = Vec::new();
    let mut i: usize = 0;
    while i < list.len()
        invariant
            i <= list@.len(),
            bytes@ == words(flat3(list@.take(i as int))),
        decreases list.len() - i,
    {
        push_word(&mut bytes, list[i][0]);
        push_word(&mut bytes, list[i][1]);
        push_word(&mut bytes, list[i][2]);
        proof {
            let t = list@[i as int];
            assert(list@.take(i + 1).drop_last() =~= list@.take(i as int));
            lemma_words_push3(flat3(list@.take(i as int)), t[0], t[1], t[2]);
        }
        i = i + 1;
    }
    assert(list@.take(i as int) =~= list@);
    bytes
}

/// The bytes of a list of pairs.
fn bytes_of_pairs(list: &Vec<[u32; 2]>) -> (bytes: Vec<u8>)
    ensures
        bytes@ == words(flat2(list@)),
{
    let mut bytes: Vec<u8> = Vec::new();
    let mut i: usize = 0;
    while i < list.len()
        invariant
            i <= list@.len(),
            bytes@ == words(flat2(list@.take(i as int))),
        decreases list.len() - i,
    {
        push_word(&mut bytes, list[i][0]);
        push_word(&mut bytes, list[i][1]);
        proof {
            let t = list@[i as int];
            assert(list@.take(i + 1).drop_last() =~= list@.take(i as int));
            lemma_words_push2(flat2(list@.take(i as int)), t[0], t[1]);
        }
        i = i + 1;
    }
    assert(list@.take(i as int) =~= list@);
    bytes
}

fn clamp(bits: u32) -> (value: u32)
    ensures
        value == clamped(bits),
{
    if 0x8000_0000 < bits && bits <= 0xFF80_0000 {
        0
    } else if 0x3F80_0000 < bits && bits <= 0x7F80_0000 {
        0x3F80_0000
    } else {
        bits
    }
}

/// A list of colours, clamped to the range from zero to one.
fn clamp_all(list: &Vec<[u32; 3]>) -> (clamped_list: Vec<[u32; 3]>)
    ensures
        clamped_list@ == list@.map_values(|c: [u32; 3]| clamped3(c)),
{
    let mut out: Vec<[u32; 3]> = Vec::new();
    let ghost wanted = list@.map_values(|c: [u32; 3]| clamped3(c));
    let mut i: usize = 0;
    while i < list.len()
        invariant
            i <= list@.len(),
            wanted == list@.map_values(|c: [u32; 3]| clamped3(c)),
            out@ == wanted.take(i as int),
        decreases list.len() - i,
    {
        out.push([clamp(list[i][0]), clamp(list[i][1]), clamp(list[i][2])]);
        i = i + 1;
        assert(out@ =~= wanted.take(i as int));
    }
    assert(wanted.take(i as int) =~= wanted);
    out
}

/// The file so far: its bytes, its buffer views and its accessors.
struct Writer {
    binary: Vec<u8>,
    views: Vec<Json>,
    accessors: Vec<Json>,
    sections: Ghost<Seq<Section>>,
}

proof fn lemma_section_start_push(list: Seq<Section>, more: Section, i: int)
    requires
        i <= list.len(),
    ensures
        section_start(list.push(more), i) == section_start(list, i),
        section_bytes(list.push(more), i) == section_bytes(list, i),
    decreases i,
{
    if i > 0 {
        lemma_section_start_push(list, more, i - 1);
    }
}

pub proof fn lemma_section_length(list: Seq<Section>, i: int)
    ensures
        section_start(list, i) == section_bytes(list, i).len(),
    decreases i,
{
    if i > 0 {
        lemma_section_length(list, i - 1);
    }
}

impl Writer {
    spec fn inv(&self, low: Tree, high: Tree) -> bool {
        let list = self.sections@;
        &&& items_of(self.views@) == Seq::new(list.len(), |i: int| view_tree(list, i))
        &&& items_of(self.accessors@) == Seq::new(
            list.len(),
            |i: int| accessor_tree(list, low, high, i),
        )
        &&& self.binary@ == section_bytes(list, list.len() as int)
    }

    /// Adds one section. The second one carries the bounding box.
    fn section(
        &mut self,
        bytes: Vec<u8>,
        kind: u64,
        label: &str,
        count: u64,
        target: u64,
        bounds: Option<(Json, Json)>,
        Ghost(low): Ghost<Tree>,
        Ghost(high): Ghost<Tree>,
    )
        requires
            old(self).inv(low, high),
            old(self).sections@.len() < 8,
            old(self).sections@.len() == 1 <==> bounds is Some,
            bounds matches Some((a, b)) ==> tree(a) == low && tree(b) == high,
        ensures
            final(self).inv(low, high),
            final(self).sections@ == old(self).sections@.push(
                (Section { kind, label: label@, count, target, bytes: bytes@ }),
            ),
    {
        let ghost before = self.sections@;
        let ghost more = Section { kind, label: label@, count, target, bytes: bytes@ };
        let ghost after = before.push(more);
        let ghost n = before.len() as int;
        let which: u64 = self.views.len() as u64;
        proof {
            assert(items_of(self.views@).len() == n);
            lemma_section_length(before, n);
            lemma_section_start_push(before, more, n);
        }
        let view = object(
            vec![
                named("buffer", Json::Unsigned(0)),
                named("byteLength", Json::Unsigned(bytes.len() as u64)),
                named("byteOffset", Json::Unsigned(self.binary.len() as u64)),
                named("target", Json::Unsigned(target)),
            ],
        );
        assert(tree(view)->Object_0 =~= view_tree(after, n)->Object_0);
        let accessor = match bounds {
            Some((smallest, largest)) => object(
                vec![
                    named("bufferView", Json::Unsigned(which)),
                    named("componentType", Json::Unsigned(kind)),
                    named("count", Json::Unsigned(count)),
                    named("max", largest),
                    named("min", smallest),
                    named("type", Json::Text(label.to_string())),
                ],
            ),
            None => object(
                vec![
                    named("bufferView", Json::Unsigned(which)),
                    named("componentType", Json::Unsigned(kind)),
                    named("count", Json::Unsigned(count)),
                    named("type", Json::Text(label.to_string())),
                ],
            ),
        };
        assert(tree(accessor)->Object_0 =~= accessor_tree(after, low, high, n)->Object_0);
        let ghost (old_views, old_accessors) = (self.views@, self.accessors@);
        self.views.push(view);
        self.accessors.push(accessor);
        extend(&mut self.binary, &bytes);
        self.sections = Ghost(after);
        proof {
            assert forall|i: int| 0 <= i < n implies view_tree(after, i) == #[trigger] view_tree(
                before,
                i,
            ) by {
                lemma_section_start_push(before, more, i);
            }
            assert(items_of(self.views@) =~= items_of(old_views).push(view_tree(after, n)));
            assert(items_of(self.accessors@) =~= items_of(old_accessors).push(
                accessor_tree(after, low, high, n),
            ));
            assert(items_of(self.views@) =~= Seq::new(after.len(), |i: int| view_tree(after, i)));
            assert(items_of(self.accessors@) =~= Seq::new(
                after.len(),
                |i: int| accessor_tree(after, low, high, i),
            ));
        }
    }
}

/// An attribute list that is not as long as the positions.
fn miscount(count: usize, what: &str, vertices: usize) -> (error: NetworkError)
    ensures
        error@ == miscounted(count as nat, what@, vertices as nat),
{
    NetworkError::InvalidDataset(
        with_two_numbers("", count as u64, what, vertices as u64, " vertices"),
    )
}

impl Mesh<u32> {
    /// The first corner of a face that names no vertex.
    fn stray(&self) -> (corner: Option<u32>)
        ensures
            corner == stray_corner(
                self.indices@,
                self.positions@.len(),
                self.indices@.len() as int,
            ),
    {
        let vertices: usize = self.positions.len();
        let mut k: usize = 0;
        while k < self.indices.len()
            invariant
                k <= self.indices@.len(),
                vertices == self.positions@.len(),
                stray_corner(self.indices@, vertices as nat, k as int) is None,
            decreases self.indices.len() - k,
        {
            let face = self.indices[k];
            let mut c: usize = 0;
            while c < 3
                invariant
                    c <= 3,
                    k < self.indices@.len(),
                    vertices == self.positions@.len(),
                    face == self.indices@[k as int],
                    stray_corner(self.indices@, vertices as nat, k as int) is None,
                    forall|j: int| 0 <= j < c ==> #[trigger] face[j] < vertices,
                decreases 3 - c,
            {
                if face[c] as usize >= vertices {
                    proof {
                        let stray = stray_corner(self.indices@, vertices as nat, k + 1);
                        assert(c >= 1 ==> face[0] < vertices);
                        assert(c >= 2 ==> face[1] < vertices);
                        assert(stray == Some(face[c as int]));
                        lemma_stray_stays(
                            self.indices@,
                            vertices as nat,
                            k + 1,
                            self.indices@.len() as int,
                        );
                    }
                    return Some(face[c]);
                }
                c = c + 1;
            }
            proof {
                assert(face[0] < vertices && face[1] < vertices && face[2] < vertices);
            }
            k = k + 1;
        }
        None
    }

    /// Why a mesh cannot be written, when it cannot.
    fn refusal(&self) -> (error: Option<NetworkError>)
        ensures
            match error {
                Some(error) => complaint(*self) == Some(error@),
                None => complaint(*self) is None,
            },
    {
        let vertices: usize = self.positions.len();
        if self.indices.len() == 0 || vertices == 0 {
            return Some(invalid_dataset("a glTF primitive needs at least one triangle"));
        }
        if let Some(corner) = self.stray() {
            return Some(
                NetworkError::InvalidDataset(
                    with_two_numbers(
                        "a face names vertex ",
                        corner as u64,
                        " of ",
                        vertices as u64,
                        "",
                    ),
                ),
            );
        }
        if self.normals.len() != 0 && self.normals.len() != vertices {
            return Some(miscount(self.normals.len(), " normals for ", vertices));
        }
        if self.uvs.len() != 0 && self.uvs.len() != vertices {
            return Some(miscount(self.uvs.len(), " texture coordinates for ", vertices));
        }
        if self.colors.len() != 0 && self.colors.len() != vertices {
            return Some(miscount(self.colors.len(), " vertex colours for ", vertices));
        }
        None
    }

    /// The sections of a mesh.
    fn write_sections(&self, low: Json, high: Json) -> (writer: Writer)
        requires
            3 * self.indices@.len() <= u64::MAX,
        ensures
            writer.inv(tree(low), tree(high)),
            writer.sections@ == sections(*self),
    {
        let ghost (smallest, largest) = (tree(low), tree(high));
        let vertices: u64 = self.positions.len() as u64;
        let mut writer = Writer {
            binary: Vec::new(),
            views: Vec::new(),
            accessors: Vec::new(),
            sections: Ghost(Seq::empty()),
        };
        proof {
            let none: Seq<Section> = Seq::empty();
            assert(items_of(writer.views@) =~= Seq::new(0, |i: int| view_tree(none, i)));
            assert(items_of(writer.accessors@) =~= Seq::new(
                0,
                |i: int| accessor_tree(none, smallest, largest, i),
            ));
            assert(writer.binary@ =~= section_bytes(none, 0));
        }
        writer.section(
            bytes_of_triples(&self.indices),
            5125,
            "SCALAR",
            3 * self.indices.len() as u64,
            34963,
            None,
            Ghost(smallest),
            Ghost(largest),
        );
        writer.section(
            bytes_of_triples(&self.positions),
            5126,
            "VEC3",
            vertices,
            34962,
            Some((low, high)),
            Ghost(smallest),
            Ghost(largest),
        );
        assert(writer.sections@.len() == 2);
        if self.normals.len() != 0 {
            writer.section(
                bytes_of_triples(&self.normals),
                5126,
                "VEC3",
                vertices,
                34962,
                None,
                Ghost(smallest),
                Ghost(largest),
            );
        }
        if self.uvs.len() != 0 {
            writer.section(
                bytes_of_pairs(&self.uvs),
                5126,
                "VEC2",
                vertices,
                34962,
                None,
                Ghost(smallest),
                Ghost(largest),
            );
        }
        if self.colors.len() != 0 {
            let colors = clamp_all(&self.colors);
            writer.section(
                bytes_of_triples(&colors),
                5126,
                "VEC3",
                vertices,
                34962,
                None,
                Ghost(smallest),
                Ghost(largest),
            );
        }
        assert(writer.sections@ =~= sections(*self));
        writer
    }

    /// The accessors of a mesh's attributes, by name.
    fn attribute_object(&self) -> (json: Json)
        ensures
            tree(json) == Tree::Object(attributes(*self)),
    {
        let normals: u64 = if self.normals.len() == 0 { 0 } else { 1 };
        let uvs: u64 = if self.uvs.len() == 0 { 0 } else { 1 };
        let mut members: Vec<Member> = Vec::new();
        if self.colors.len() != 0 {
            members.push(named("COLOR_0", Json::Unsigned(2 + normals + uvs)));
        }
        if self.normals.len() != 0 {
            members.push(named("NORMAL", Json::Unsigned(2)));
        }
        members.push(named("POSITION", Json::Unsigned(1)));
        if self.uvs.len() != 0 {
            members.push(named("TEXCOORD_0", Json::Unsigned(2 + normals)));
        }
        assert(members_of(members@) =~= attributes(*self));
        object(members)
    }

    /// The mesh as a GLB: one node, one mesh, one triangle primitive, one
    /// buffer view per attribute, and one white material. Normals, texture
    /// coordinates and colours are written when the mesh has them. The
    /// coordinates are the bits of 32-bit floats; `low` and `high` are the
    /// corners of the bounding box.
    pub fn to_glb(&self, low: Json, high: Json) -> (glb: Result<Glb, NetworkError>)
        requires
            3 * self.indices@.len() <= u64::MAX,
        ensures
            match glb {
                Ok(glb) => complaint(*self) is None && tree(glb.json) == document(
                    *self,
                    tree(low),
                    tree(high),
                ) && glb.binary@ == section_bytes(sections(*self), sections(*self).len() as int),
                Err(error) => complaint(*self) == Some(error@),
            },
    {
        if let Some(error) = self.refusal() {
            return Err(error);
        }
        let ghost (smallest, largest) = (tree(low), tree(high));
        let writer = self.write_sections(low, high);
        let ghost list = sections(*self);
        let length: u64 = writer.binary.len() as u64;
        let primitive = object(
            vec![
                named("attributes", self.attribute_object()),
                named("indices", Json::Unsigned(0)),
                named("material", Json::Unsigned(0)),
                named("mode", Json::Unsigned(4)),
            ],
        );
        assert(tree(primitive)->Object_0 =~= primitive_tree(*self)->Object_0);
        let material = white_material();
        let asset = object(
            vec![
                named("generator", Json::Text("rusting_brain".to_string())),
                named("version", Json::Text("2.0".to_string())),
            ],
        );
        let json = object(
            vec![
                named("accessors", array(writer.accessors)),
                named("asset", asset),
                named("bufferViews", array(writer.views)),
                named("buffers", list_of_one(only("byteLength", Json::Unsigned(length)))),
                named("materials", list_of_one(material)),
                named("meshes", list_of_one(only("primitives", list_of_one(primitive)))),
                named("nodes", list_of_one(only("mesh", Json::Unsigned(0)))),
                named("scene", Json::Unsigned(0)),
                named("scenes", list_of_one(only("nodes", list_of_one(Json::Unsigned(0))))),
            ],
        );
        proof {
            let wanted = document(*self, smallest, largest);
            let got = tree(json)->Object_0;
            assert(tree(asset)->Object_0 =~= wanted->Object_0[1].1->Object_0);
            assert(got.len() == 9);
            assert(got[0] == wanted->Object_0[0]);
            assert(got[2] == wanted->Object_0[2]);
            assert(got[3] == wanted->Object_0[3]);
            assert(got[5] == wanted->Object_0[5]);
            assert(got =~= wanted->Object_0);
        }
        Ok(Glb::new(json, writer.binary))
    }
}

/// An untextured white.
fn white_material() -> (json: Json)
    ensures
        tree(json) == material_tree(),
{
    let factor = array(vec![fraction("1.0"), fraction("1.0"), fraction("1.0"), fraction("1.0")]);
    let white = object(
        vec![
            named("baseColorFactor", factor),
            named("metallicFactor", fraction("0.0")),
            named("roughnessFactor", fraction("0.8")),
        ],
    );
    proof {
        let wanted = material_tree()->Object_0[0].1;
        assert(tree(factor)->Array_0 =~= wanted->Object_0[0].1->Array_0);
        assert(tree(white)->Object_0 =~= wanted->Object_0);
    }
    only("pbrMetallicRoughness", white)
}

proof fn lemma_stray_stays(indices: Seq<[u32; 3]>, vertices: nat, k: int, m: int)
    requires
        k <= m,
        stray_corner(indices, vertices, k) is Some,
    ensures
        stray_corner(indices, vertices, m) == stray_corner(indices, vertices, k),
    decreases m - k,
{
    if k < m {
        lemma_stray_stays(indices, vertices, k, m - 1);
    }
}

} // verus!
