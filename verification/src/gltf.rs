//! Reading the scene of a GLB file as one mesh.
//!
//! The JSON names *accessors*, each of which is a typed view onto a slice of
//! the binary chunk. Reading a mesh is walking the scene graph for primitives,
//! resolving their accessors, and keeping track of which nodes' transforms
//! apply to which vertices.
use crate::error::{invalid_dataset, Fault, NetworkError};
use crate::glb::{read_word, word, Glb};
use crate::json::{item, items, member, number, number_or, tree, tree_of, Json, Tree};
use crate::mesh::Mesh;
use crate::text::{decimal, with_number, with_text, with_two_numbers};
use vstd::prelude::*;

verus! {

/// One stored coordinate.
#[derive(Clone, Copy, Debug, PartialEq, Eq, Structural)]
pub enum Component {
    /// The bits of a 32-bit float.
    Float(u32),
    /// A normalized integer.
    Byte(u8),
    Short(u16),
    SignedByte(i8),
    SignedShort(i16),
    /// A stored type that holds no coordinate, read as zero.
    Zero,
    /// The base colour of a material that states none: one.
    One,
    /// A channel of the base colour of a material.
    Factor { material: u64, channel: usize },
}

/// A run of vertices that came from one primitive, and the nodes whose
/// transforms apply to it, outermost first.
#[derive(Debug)]
pub struct Part {
    pub path: Vec<u64>,
    pub first_position: usize,
    pub positions: usize,
    pub first_normal: usize,
    pub normals: usize,
}

/// What a [`Part`] says.
pub ghost struct PartView {
    pub path: Seq<u64>,
    pub first_position: nat,
    pub positions: nat,
    pub first_normal: nat,
    pub normals: nat,
}

impl View for Part {
    type V = PartView;

    open spec fn view(&self) -> PartView {
        PartView {
            path: self.path@,
            first_position: self.first_position as nat,
            positions: self.positions as nat,
            first_normal: self.first_normal as nat,
            normals: self.normals as nat,
        }
    }
}

/// A scene as one mesh, before any transform is applied.
#[derive(Debug)]
pub struct Scene {
    pub mesh: Mesh<Component>,
    pub parts: Vec<Part>,
}

/// What a [`Scene`] says.
#[verifier::ext_equal]
pub ghost struct SceneView {
    pub positions: Seq<[Component; 3]>,
    pub normals: Seq<[Component; 3]>,
    pub uvs: Seq<[Component; 2]>,
    pub colors: Seq<[Component; 3]>,
    pub indices: Seq<[u32; 3]>,
    pub parts: Seq<PartView>,
}

impl View for Scene {
    type V = SceneView;

    open spec fn view(&self) -> SceneView {
        SceneView {
            positions: self.mesh.positions@,
            normals: self.mesh.normals@,
            uvs: self.mesh.uvs@,
            colors: self.mesh.colors@,
            indices: self.mesh.indices@,
            parts: self.parts@.map_values(|part: Part| part@),
        }
    }
}

/// A scene of nothing.
pub open spec fn nothing() -> SceneView {
    SceneView {
        positions: Seq::empty(),
        normals: Seq::empty(),
        uvs: Seq::empty(),
        colors: Seq::empty(),
        indices: Seq::empty(),
        parts: Seq::empty(),
    }
}

/// Why a scene is not read.
#[derive(Debug)]
pub enum Stop {
    /// The file does not hold what it promises.
    Failed(NetworkError),
    /// The nodes loop back on themselves, or a colour has fewer than three
    /// channels, so that there is no scene to speak of.
    Stuck,
}

/// What a [`Stop`] says.
pub ghost enum Halt {
    Failed(Fault),
    Stuck,
}

impl View for Stop {
    type V = Halt;

    open spec fn view(&self) -> Halt {
        match *self {
            Stop::Failed(error) => Halt::Failed(error@),
            Stop::Stuck => Halt::Stuck,
        }
    }
}

// -- Accessors ---------------------------------------------------------------

/// One typed view onto the binary chunk.
#[derive(Clone, Copy, Debug, PartialEq, Eq, Structural)]
pub struct Accessor {
    pub kind: u32,
    pub components: u64,
    pub count: u64,
    pub offset: u128,
    pub stride: u64,
    pub width: u64,
}

/// The bytes a component type takes, when glTF defines it.
pub open spec fn component_width(kind: u32) -> Option<u64> {
    if kind == 5120 || kind == 5121 {
        Some(1)
    } else if kind == 5122 || kind == 5123 {
        Some(2)
    } else if kind == 5125 || kind == 5126 {
        Some(4)
    } else {
        None
    }
}

/// The components of an accessor type, when it is one that is read.
pub open spec fn type_components(name: Seq<char>) -> Option<u64> {
    if name == "SCALAR"@ {
        Some(1)
    } else if name == "VEC2"@ {
        Some(2)
    } else if name == "VEC3"@ {
        Some(3)
    } else if name == "VEC4"@ {
        Some(4)
    } else if name == "MAT4"@ {
        Some(16)
    } else {
        None
    }
}

/// The name of an accessor's type.
pub open spec fn type_label(accessor: Tree) -> Seq<char> {
    match accessor.get("type"@) {
        Tree::Text(name) => name,
        _ => ""@,
    }
}

/// The low 32 bits of a number.
pub open spec fn low(n: int) -> u32 {
    (n % 0x1_0000_0000) as u32
}

/// The accessor with the given number.
pub open spec fn accessor(doc: Tree, index: u64) -> Result<Accessor, Fault> {
    let entry = doc.get("accessors"@).at(index as int);
    let kind = low(entry.get("componentType"@).number_or(0) as int);
    let name = type_label(entry);
    let view = doc.get("bufferViews"@).at(entry.get("bufferView"@).number_or(0) as int);
    let stride = view.get("byteStride"@).number_or(0);
    if entry is Null {
        Err(
            Fault::InvalidDataset(
                "accessor "@ + decimal(index as nat) + " is not in the file"@,
            ),
        )
    } else if entry.has("sparse"@) {
        Err(Fault::InvalidDataset("sparse accessors are not read here"@))
    } else if component_width(kind) is None {
        Err(
            Fault::InvalidDataset(
                "component type "@ + decimal(kind as nat) + " is not one glTF defines"@,
            ),
        )
    } else if type_components(name) is None {
        Err(Fault::InvalidDataset("accessor type "@ + name + " is not read here"@))
    } else {
        let width = component_width(kind)->Some_0;
        let components = type_components(name)->Some_0;
        Ok(
            Accessor {
                kind,
                components,
                count: entry.get("count"@).number_or(0),
                offset: (view.get("byteOffset"@).number_or(0) + entry.get("byteOffset"@).number_or(
                    0,
                )) as u128,
                // A stride of zero means tightly packed.
                stride: if stride == 0 { (width * components) as u64 } else { stride },
                width,
            },
        )
    }
}

impl Accessor {
    /// Whether the kind, the width and the limits of an accessor go together.
    pub open spec fn sound(self) -> bool {
        &&& component_width(self.kind) == Some(self.width)
        &&& 1 <= self.components <= 16
        &&& self.stride > 0
        &&& self.offset <= 2 * u64::MAX
    }

    /// Where a component of an element stands.
    pub open spec fn place(self, element: int, component: int) -> int {
        self.offset + element * self.stride + component * self.width
    }

    /// Whether every component of every element lies in a buffer of the given
    /// length: the last one does.
    pub open spec fn fits(self, length: int) -> bool {
        self.count == 0 || self.place(self.count - 1, self.components as int) <= length
    }

    /// A stored coordinate.
    pub open spec fn component(self, binary: Seq<u8>, element: int, component: int) -> Component {
        let at = self.place(element, component);
        if self.kind == 5126 {
            Component::Float(word(binary, at))
        } else if self.kind == 5121 {
            Component::Byte(binary[at])
        } else if self.kind == 5123 {
            Component::Short(half_word(binary, at))
        } else if self.kind == 5120 {
            Component::SignedByte(signed_byte(binary[at]))
        } else if self.kind == 5122 {
            Component::SignedShort(signed_short(half_word(binary, at)))
        } else {
            Component::Zero
        }
    }

    /// A stored index, widened to 32 bits; zero for a type that holds none.
    pub open spec fn index(self, binary: Seq<u8>, element: int) -> u32 {
        let at = self.place(element, 0);
        if self.kind == 5121 {
            binary[at] as u32
        } else if self.kind == 5123 {
            half_word(binary, at) as u32
        } else if self.kind == 5125 {
            word(binary, at)
        } else {
            0
        }
    }

    /// The first three components of every element.
    pub open spec fn triples(self, binary: Seq<u8>) -> Seq<[Component; 3]> {
        Seq::new(
            self.count as nat,
            |e: int|
                [
                    self.component(binary, e, 0),
                    self.component(binary, e, 1),
                    self.component(binary, e, 2),
                ],
        )
    }

    /// The first two components of every element.
    pub open spec fn couples(self, binary: Seq<u8>) -> Seq<[Component; 2]> {
        Seq::new(
            self.count as nat,
            |e: int| [self.component(binary, e, 0), self.component(binary, e, 1)],
        )
    }
}

/// The two bytes from `at`, lowest first.
pub open spec fn half_word(binary: Seq<u8>, at: int) -> u16 {
    (binary[at] + binary[at + 1] * 256) as u16
}

/// A byte as two's complement.
pub open spec fn signed_byte(byte: u8) -> i8 {
    (if byte < 128 { byte as int } else { byte - 256 }) as i8
}

/// Two bytes as two's complement.
pub open spec fn signed_short(short: u16) -> i16 {
    (if short < 32768 { short as int } else { short - 65536 }) as i16
}

/// The accessor of vectors of `components` coordinates with the given number,
/// when it is one and lies in the buffer.
pub open spec fn vectors(doc: Tree, binary: Seq<u8>, index: u64, components: u64) -> Result<
    Accessor,
    Fault,
> {
    match accessor(doc, index) {
        Err(fault) => Err(fault),
        Ok(found) => if found.components != components {
            Err(
                Fault::InvalidDataset(
                    "accessor "@ + decimal(index as nat) + " holds "@ + decimal(
                        found.components as nat,
                    ) + "-vectors and a "@ + decimal(components as nat) + "-vector was wanted"@,
                ),
            )
        } else if !found.fits(binary.len() as int) {
            Err(Fault::InvalidDataset("an accessor reads past the end of the buffer"@))
        } else {
            Ok(found)
        },
    }
}

/// The accessor of indices with the given number, when it is one and lies in
/// the buffer.
pub open spec fn scalars(doc: Tree, binary: Seq<u8>, index: u64) -> Result<Accessor, Fault> {
    match accessor(doc, index) {
        Err(fault) => Err(fault),
        Ok(found) => if found.components != 1 {
            Err(
                Fault::InvalidDataset(
                    "accessor "@ + decimal(index as nat)
                        + " is not scalar, so it is not an index buffer"@,
                ),
            )
        } else if !found.fits(binary.len() as int) {
            Err(Fault::InvalidDataset("an accessor reads past the end of the buffer"@))
        } else {
            Ok(found)
        },
    }
}

impl Glb {
    /// The accessor with the given number.
    fn accessor(&self, index: u64) -> (found: Result<Accessor, NetworkError>)
        ensures
            match found {
                Ok(found) => accessor(tree(self.json), index) == Ok::<_, Fault>(found)
                    && found.sound(),
                Err(error) => accessor(tree(self.json), index) == Err::<Accessor, _>(error@),
            },
    {
        let doc = Some(&self.json);
        let entry = item(member(doc, "accessors"), index);
        let null = match entry {
            None => true,
            Some(Json::Null) => true,
            _ => false,
        };
        if null {
            return Err(
                NetworkError::InvalidDataset(
                    with_number("accessor ", index, " is not in the file"),
                ),
            );
        }
        if member(entry, "sparse").is_some() {
            return Err(invalid_dataset("sparse accessors are not read here"));
        }
        let kind: u32 = (number_or(member(entry, "componentType"), 0) % 0x1_0000_0000) as u32;
        let width: u64 = match kind {
            5120 | 5121 => 1,
            5122 | 5123 => 2,
            5125 | 5126 => 4,
            _ => {
                return Err(
                    NetworkError::InvalidDataset(
                        with_number(
                            "component type ",
                            kind as u64,
                            " is not one glTF defines",
                        ),
                    ),
                );
            },
        };
        let name = match member(entry, "type") {
            Some(value) => match value.as_str() {
                Some(name) => name.clone(),
                None => "".to_string(),
            },
            None => "".to_string(),
        };
        let components: u64 = if name == "SCALAR".to_string() {
            1
        } else if name == "VEC2".to_string() {
            2
        } else if name == "VEC3".to_string() {
            3
        } else if name == "VEC4".to_string() {
            4
        } else if name == "MAT4".to_string() {
            16
        } else {
            return Err(
                NetworkError::InvalidDataset(
                    with_text("accessor type ", name.as_str(), " is not read here"),
                ),
            );
        };
        let which: u64 = number_or(member(entry, "bufferView"), 0);
        let view = item(member(doc, "bufferViews"), which);
        let stride: u64 = number_or(member(view, "byteStride"), 0);
        let first: u64 = number_or(member(view, "byteOffset"), 0);
        let second: u64 = number_or(member(entry, "byteOffset"), 0);
        let offset: u128 = first as u128 + second as u128;
        Ok(
            Accessor {
                kind,
                components,
                count: number_or(member(entry, "count"), 0),
                offset,
                stride: if stride == 0 {
                    width * components
                } else {
                    stride
                },
                width,
            },
        )
    }
}

proof fn lemma_place(found: Accessor, length: int, element: int, component: int)
    requires
        found.sound(),
        found.fits(length),
        0 <= element < found.count,
        0 <= component < found.components,
    ensures
        0 <= found.place(element, component),
        found.place(element, component) + found.width <= length,
{
    let (s, w, n) = (found.stride as int, found.width as int, found.components as int);
    let last = found.count - 1;
    assert(0 <= element * s <= last * s) by (nonlinear_arith)
        requires
            0 <= element <= last,
            s > 0,
    ;
    assert(0 <= component * w && component * w + w <= n * w) by (nonlinear_arith)
        requires
            0 <= component,
            component + 1 <= n,
            w >= 0,
    ;
}

impl Accessor {
    /// Whether every element lies in a buffer of the given length.
    fn within(&self, length: usize) -> (within: bool)
        requires
            self.sound(),
        ensures
            within == self.fits(length as int),
    {
        if self.count == 0 {
            return true;
        }
        proof {
            let (last, s) = (self.count - 1, self.stride as int);
            assert(0 <= last * s <= 0xFFFF_FFFF_FFFF_FFFE * 0xFFFF_FFFF_FFFF_FFFF)
                by (nonlinear_arith)
                requires
                    0 <= last <= 0xFFFF_FFFF_FFFF_FFFE,
                    0 <= s <= 0xFFFF_FFFF_FFFF_FFFF,
            ;
            assert(0 <= self.components * self.width <= 64) by (nonlinear_arith)
                requires
                    0 <= self.components <= 16,
                    0 <= self.width <= 4,
            ;
        }
        let end: u128 = self.offset + (self.count - 1) as u128 * self.stride as u128
            + self.components as u128 * self.width as u128;
        end <= length as u128
    }

    /// Where a component of an element stands.
    fn locate(&self, length: usize, element: u64, component: u64) -> (at: usize)
        requires
            self.sound(),
            self.fits(length as int),
            element < self.count,
            component < self.components,
        ensures
            at == self.place(element as int, component as int),
            at + self.width <= length,
    {
        proof {
            lemma_place(*self, length as int, element as int, component as int);
            assert(0 <= element * self.stride) by (nonlinear_arith)
                requires
                    0 <= element,
                    0 <= self.stride,
            ;
            assert(0 <= component * self.width) by (nonlinear_arith)
                requires
                    0 <= component,
                    0 <= self.width,
            ;
        }
        let at: u128 = self.offset + element as u128 * self.stride as u128 + component as u128
            * self.width as u128;
        at as usize
    }

    /// A stored coordinate.
    fn read(&self, binary: &Vec<u8>, element: u64, component: u64) -> (value: Component)
        requires
            self.sound(),
            self.fits(binary@.len() as int),
            element < self.count,
            component < self.components,
        ensures
            value == self.component(binary@, element as int, component as int),
    {
        let at: usize = self.locate(binary.len(), element, component);
        match self.kind {
            5126 => Component::Float(read_word(binary.as_slice(), at)),
            5121 => Component::Byte(binary[at]),
            5123 => Component::Short(read_half(binary.as_slice(), at)),
            5120 => {
                let byte: u8 = binary[at];
                Component::SignedByte(
                    if byte < 128 {
                        byte as i8
                    } else {
                        (byte as i16 - 256) as i8
                    },
                )
            },
            5122 => {
                let short: u16 = read_half(binary.as_slice(), at);
                Component::SignedShort(
                    if short < 32768 {
                        short as i16
                    } else {
                        (short as i32 - 65536) as i16
                    },
                )
            },
            _ => Component::Zero,
        }
    }

    /// A stored index.
    fn read_index(&self, binary: &Vec<u8>, element: u64) -> (value: u32)
        requires
            self.sound(),
            self.fits(binary@.len() as int),
            element < self.count,
        ensures
            value == self.index(binary@, element as int),
    {
        let at: usize = self.locate(binary.len(), element, 0);
        match self.kind {
            5121 => binary[at] as u32,
            5123 => read_half(binary.as_slice(), at) as u32,
            5125 => read_word(binary.as_slice(), at),
            _ => 0,
        }
    }

    /// Adds the first three components of every element to a list.
    fn push_triples(&self, binary: &Vec<u8>, list: &mut Vec<[Component; 3]>)
        requires
            self.sound(),
            self.fits(binary@.len() as int),
            self.components >= 3,
        ensures
            final(list)@ == old(list)@ + self.triples(binary@),
    {
        let ghost start = list@;
        let mut e: u64 = 0;
        while e < self.count
            invariant
                e <= self.count,
                self.sound(),
                self.fits(binary@.len() as int),
                self.components >= 3,
                list@ == start + self.triples(binary@).take(e as int),
            decreases self.count - e,
        {
            list.push(
                [self.read(binary, e, 0), self.read(binary, e, 1), self.read(binary, e, 2)],
            );
            e = e + 1;
            assert(list@ =~= start + self.triples(binary@).take(e as int));
        }
        assert(self.triples(binary@).take(e as int) =~= self.triples(binary@));
    }

    /// Adds the first two components of every element to a list.
    fn push_couples(&self, binary: &Vec<u8>, list: &mut Vec<[Component; 2]>)
        requires
            self.sound(),
            self.fits(binary@.len() as int),
            self.components >= 2,
        ensures
            final(list)@ == old(list)@ + self.couples(binary@),
    {
        let ghost start = list@;
        let mut e: u64 = 0;
        while e < self.count
            invariant
                e <= self.count,
                self.sound(),
                self.fits(binary@.len() as int),
                self.components >= 2,
                list@ == start + self.couples(binary@).take(e as int),
            decreases self.count - e,
        {
            list.push([self.read(binary, e, 0), self.read(binary, e, 1)]);
            e = e + 1;
            assert(list@ =~= start + self.couples(binary@).take(e as int));
        }
        assert(self.couples(binary@).take(e as int) =~= self.couples(binary@));
    }
}

fn read_half(binary: &[u8], at: usize) -> (value: u16)
    requires
        at + 2 <= binary@.len(),
    ensures
        value == half_word(binary@, at as int),
{
    binary[at] as u16 + binary[at + 1] as u16 * 256
}

impl Glb {
    /// The accessor of vectors with the given number.
    fn vectors(&self, index: u64, components: u64) -> (found: Result<Accessor, NetworkError>)
        ensures
            match found {
                Ok(found) => vectors(tree(self.json), self.binary@, index, components) == Ok::<
                    _,
                    Fault,
                >(found) && found.sound() && found.fits(self.binary@.len() as int)
                    && found.components == components,
                Err(error) => vectors(tree(self.json), self.binary@, index, components) == Err::<
                    Accessor,
                    _,
                >(error@),
            },
    {
        let found = match self.accessor(index) {
            Ok(found) => found,
            Err(error) => return Err(error),
        };
        if found.components != components {
            let message = with_two_numbers(
                "accessor ",
                index,
                " holds ",
                found.components,
                "-vectors and a ",
            );
            let rest = with_number("", components, "-vector was wanted");
            proof {
                reveal_strlit("");
                assert(rest@ =~= decimal(components as nat) + "-vector was wanted"@);
            }
            let message = with_text(message.as_str(), rest.as_str(), "");
            proof {
                assert(message@ =~= "accessor "@ + decimal(index as nat) + " holds "@ + decimal(
                    found.components as nat,
                ) + "-vectors and a "@ + decimal(components as nat) + "-vector was wanted"@);
            }
            return Err(NetworkError::InvalidDataset(message));
        }
        if !found.within(self.binary.len()) {
            return Err(invalid_dataset("an accessor reads past the end of the buffer"));
        }
        Ok(found)
    }

    /// The accessor of indices with the given number.
    fn scalars(&self, index: u64) -> (found: Result<Accessor, NetworkError>)
        ensures
            match found {
                Ok(found) => scalars(tree(self.json), self.binary@, index) == Ok::<_, Fault>(found)
                    && found.sound() && found.fits(self.binary@.len() as int),
                Err(error) => scalars(tree(self.json), self.binary@, index) == Err::<Accessor, _>(
                    error@,
                ),
            },
    {
        let found = match self.accessor(index) {
            Ok(found) => found,
            Err(error) => return Err(error),
        };
        if found.components != 1 {
            return Err(
                NetworkError::InvalidDataset(
                    with_number(
                        "accessor ",
                        index,
                        " is not scalar, so it is not an index buffer",
                    ),
                ),
            );
        }
        if !found.within(self.binary.len()) {
            return Err(invalid_dataset("an accessor reads past the end of the buffer"));
        }
        Ok(found)
    }
}

// -- Primitives --------------------------------------------------------------

/// The accessor an attribute names, when it names one.
pub open spec fn attribute(doc: Tree, binary: Seq<u8>, value: Tree, components: u64) -> Result<
    Option<Accessor>,
    Halt,
> {
    match value {
        Tree::Unsigned(index) => match vectors(doc, binary, index, components) {
            Ok(found) => Ok(Some(found)),
            Err(fault) => Err(Halt::Failed(fault)),
        },
        _ => Ok(None),
    }
}

/// A channel of a base colour: what the material states, or one.
pub open spec fn channel(factor: Tree, material: u64, channel: int) -> Component {
    if factor.at(channel) is Unsigned || factor.at(channel) is Negative || factor.at(
        channel,
    ) is Float {
        Component::Factor { material, channel: channel as usize }
    } else {
        Component::One
    }
}

/// The base colour of a material; white when it states none.
pub open spec fn base_colour(doc: Tree, material: u64) -> [Component; 3] {
    let factor = doc.get("materials"@).at(material as int).get("pbrMetallicRoughness"@).get(
        "baseColorFactor"@,
    );
    if factor is Array && factor->Array_0.len() >= 3 {
        [channel(factor, material, 0), channel(factor, material, 1), channel(factor, material, 2)]
    } else {
        [Component::One, Component::One, Component::One]
    }
}

/// One colour per vertex of a primitive: the colours it stores, or the base
/// colour of its material, or none.
pub open spec fn colours(doc: Tree, binary: Seq<u8>, primitive: Tree, vertices: nat) -> Result<
    Seq<[Component; 3]>,
    Halt,
> {
    match primitive.get("attributes"@).get("COLOR_0"@) {
        Tree::Unsigned(index) => match accessor(doc, index) {
            Err(fault) => Err(Halt::Failed(fault)),
            Ok(found) => match vectors(doc, binary, index, found.components) {
                Err(fault) => Err(Halt::Failed(fault)),
                Ok(found) => if found.components < 3 && found.count > 0 {
                    Err(Halt::Stuck)
                } else {
                    Ok(found.triples(binary))
                },
            },
        },
        _ => match primitive.get("material"@) {
            Tree::Unsigned(material) => Ok(
                Seq::new(vertices, |i: int| base_colour(doc, material)),
            ),
            _ => Ok(Seq::empty()),
        },
    }
}

/// The faces of a primitive whose first vertex is number `base`: what its
/// index buffer says, or its vertices three by three.
pub open spec fn corners(
    doc: Tree,
    binary: Seq<u8>,
    primitive: Tree,
    base: nat,
    vertices: nat,
) -> Result<Seq<[u32; 3]>, Halt> {
    match primitive.get("indices"@) {
        Tree::Unsigned(index) => match scalars(doc, binary, index) {
            Err(fault) => Err(Halt::Failed(fault)),
            Ok(found) => Ok(
                Seq::new(
                    (found.count / 3) as nat,
                    |f: int|
                        [
                            low(base + found.index(binary, 3 * f)),
                            low(base + found.index(binary, 3 * f + 1)),
                            low(base + found.index(binary, 3 * f + 2)),
                        ],
                ),
            ),
        },
        _ => Ok(
            Seq::new(
                vertices / 3,
                |f: int|
                    [low(base + 3 * f), low(base + 3 * f + 1), low(base + 3 * f + 2)],
            ),
        ),
    }
}

/// The elements of an accessor, or nothing.
pub open spec fn triples_of(found: Option<Accessor>, binary: Seq<u8>) -> Seq<[Component; 3]> {
    match found {
        Some(found) => found.triples(binary),
        None => Seq::empty(),
    }
}

/// The elements of an accessor, or nothing.
pub open spec fn couples_of(found: Option<Accessor>, binary: Seq<u8>) -> Seq<[Component; 2]> {
    match found {
        Some(found) => found.couples(binary),
        None => Seq::empty(),
    }
}

/// A scene with one more primitive whose positions are known.
pub open spec fn with_vertices(
    doc: Tree,
    binary: Seq<u8>,
    primitive: Tree,
    path: Seq<u64>,
    scene: SceneView,
    positions: Accessor,
) -> Result<SceneView, Halt> {
    let attributes = primitive.get("attributes"@);
    let vertices = positions.count as nat;
    match attribute(doc, binary, attributes.get("NORMAL"@), 3) {
        Err(halt) => Err(halt),
        Ok(normals) => match attribute(doc, binary, attributes.get("TEXCOORD_0"@), 2) {
            Err(halt) => Err(halt),
            Ok(uvs) => match colours(doc, binary, primitive, vertices) {
                Err(halt) => Err(halt),
                Ok(colors) => match corners(
                    doc,
                    binary,
                    primitive,
                    scene.positions.len(),
                    vertices,
                ) {
                    Err(halt) => Err(halt),
                    Ok(faces) => Ok(
                        SceneView {
                            positions: scene.positions + positions.triples(binary),
                            normals: scene.normals + triples_of(normals, binary),
                            uvs: scene.uvs + couples_of(uvs, binary),
                            colors: scene.colors + colors,
                            indices: scene.indices + faces,
                            parts: scene.parts.push(
                                PartView {
                                    path,
                                    first_position: scene.positions.len(),
                                    positions: vertices,
                                    first_normal: scene.normals.len(),
                                    normals: triples_of(normals, binary).len(),
                                },
                            ),
                        },
                    ),
                },
            },
        },
    }
}

/// A scene with one more primitive.
pub open spec fn appended(
    doc: Tree,
    binary: Seq<u8>,
    primitive: Tree,
    path: Seq<u64>,
    scene: SceneView,
) -> Result<SceneView, Halt> {
    // 4 is triangles, and is the default when the mode is left out.
    let mode = primitive.get("mode"@).number_or(4);
    if primitive.get("extensions"@).has("KHR_draco_mesh_compression"@) {
        Err(
            Halt::Failed(
                Fault::InvalidDataset("this file is Draco compressed, which is not read here"@),
            ),
        )
    } else if mode != 4 {
        Err(
            Halt::Failed(
                Fault::InvalidDataset(
                    "primitive mode "@ + decimal(mode as nat) + " is not triangles"@,
                ),
            ),
        )
    } else {
        match primitive.get("attributes"@).get("POSITION"@) {
            Tree::Unsigned(index) => match vectors(doc, binary, index, 3) {
                Err(fault) => Err(Halt::Failed(fault)),
                Ok(positions) => with_vertices(doc, binary, primitive, path, scene, positions),
            },
            _ => Ok(scene),
        }
    }
}

/// The low 32 bits of a vertex number.
fn low_sum(base: usize, offset: u64) -> (value: u32)
    ensures
        value == low(base + offset),
{
    ((base as u128 + offset as u128) % 0x1_0000_0000) as u32
}

/// Whether a value is a number.
fn is_number(json: Option<&Json>) -> (yes: bool)
    ensures
        yes == (tree_of(json) is Unsigned || tree_of(json) is Negative || tree_of(json) is Float),
{
    match json {
        Some(Json::Unsigned(_)) => true,
        Some(Json::Negative(_)) => true,
        Some(Json::Float(_)) => true,
        _ => false,
    }
}

impl Glb {
    fn attribute(&self, value: Option<&Json>, components: u64) -> (found: Result<
        Option<Accessor>,
        Stop,
    >)
        ensures
            match found {
                Ok(found) => attribute(tree(self.json), self.binary@, tree_of(value), components)
                    == Ok::<_, Halt>(found) && (found matches Some(found) ==> found.sound()
                    && found.fits(self.binary@.len() as int) && found.components == components),
                Err(stop) => attribute(tree(self.json), self.binary@, tree_of(value), components)
                    == Err::<Option<Accessor>, _>(stop@),
            },
    {
        match number(value) {
            Some(index) => match self.vectors(index, components) {
                Ok(found) => Ok(Some(found)),
                Err(error) => Err(Stop::Failed(error)),
            },
            None => Ok(None),
        }
    }

    fn channel(&self, factor: Option<&Json>, material: u64, which: u64) -> (value: Component)
        requires
            which < 3,
        ensures
            value == channel(tree_of(factor), material, which as int),
    {
        if is_number(item(factor, which)) {
            Component::Factor { material, channel: which as usize }
        } else {
            Component::One
        }
    }

    /// The base colour of a material.
    fn base_colour(&self, material: u64) -> (colour: [Component; 3])
        ensures
            colour == base_colour(tree(self.json), material),
    {
        let entry = item(member(Some(&self.json), "materials"), material);
        let factor = member(member(entry, "pbrMetallicRoughness"), "baseColorFactor");
        let stated = match items(factor) {
            Some(list) => list.len() >= 3,
            None => false,
        };
        if stated {
            [
                self.channel(factor, material, 0),
                self.channel(factor, material, 1),
                self.channel(factor, material, 2),
            ]
        } else {
            [Component::One, Component::One, Component::One]
        }
    }

    /// Adds one colour per vertex of a primitive.
    fn push_colours(
        &self,
        primitive: &Json,
        vertices: u64,
        list: &mut Vec<[Component; 3]>,
    ) -> (done: Result<(), Stop>)
        ensures
            match done {
                Ok(()) => colours(tree(self.json), self.binary@, tree(*primitive), vertices as nat)
                    matches Ok(added) && final(list)@ == old(list)@ + added,
                Err(stop) => colours(
                    tree(self.json),
                    self.binary@,
                    tree(*primitive),
                    vertices as nat,
                ) == Err::<Seq<[Component; 3]>, _>(stop@),
            },
    {
        let stored = number(member(member(Some(primitive), "attributes"), "COLOR_0"));
        if let Some(index) = stored {
            let components: u64 = match self.accessor(index) {
                Ok(found) => found.components,
                Err(error) => return Err(Stop::Failed(error)),
            };
            let found = match self.vectors(index, components) {
                Ok(found) => found,
                Err(error) => return Err(Stop::Failed(error)),
            };
            if found.components < 3 {
                if found.count > 0 {
                    return Err(Stop::Stuck);
                }
                assert(old(list)@ + found.triples(self.binary@) =~= old(list)@);
                return Ok(());
            }
            found.push_triples(&self.binary, list);
            return Ok(());
        }
        let ghost start = list@;
        match number(member(Some(primitive), "material")) {
            Some(material) => {
                let ghost colour = base_colour(tree(self.json), material);
                let mut i: u64 = 0;
                assert(list@ =~= start + Seq::new(0, |i: int| colour));
                while i < vertices
                    invariant
                        i <= vertices,
                        colour == base_colour(tree(self.json), material),
                        list@ == start + Seq::new(i as nat, |i: int| colour),
                    decreases vertices - i,
                {
                    list.push(self.base_colour(material));
                    i = i + 1;
                    assert(list@ =~= start + Seq::new(i as nat, |i: int| colour));
                }
            },
            None => {
                assert(start + Seq::empty() =~= start);
            },
        }
        Ok(())
    }

    /// Adds the faces of a primitive.
    fn push_corners(
        &self,
        primitive: &Json,
        base: usize,
        vertices: u64,
        list: &mut Vec<[u32; 3]>,
    ) -> (done: Result<(), Stop>)
        ensures
            match done {
                Ok(()) => corners(
                    tree(self.json),
                    self.binary@,
                    tree(*primitive),
                    base as nat,
                    vertices as nat,
                ) matches Ok(added) && final(list)@ == old(list)@ + added,
                Err(stop) => corners(
                    tree(self.json),
                    self.binary@,
                    tree(*primitive),
                    base as nat,
                    vertices as nat,
                ) == Err::<Seq<[u32; 3]>, _>(stop@),
            },
    {
        let ghost start = list@;
        let ghost added = corners(
            tree(self.json),
            self.binary@,
            tree(*primitive),
            base as nat,
            vertices as nat,
        );
        if let Some(index) = number(member(Some(primitive), "indices")) {
            let found = match self.scalars(index) {
                Ok(found) => found,
                Err(error) => return Err(Stop::Failed(error)),
            };
            let mut f: u64 = 0;
            assert(list@ =~= start + added->Ok_0.take(0));
            while f < found.count / 3
                invariant
                    f <= found.count / 3,
                    found.sound(),
                    found.fits(self.binary@.len() as int),
                    scalars(tree(self.json), self.binary@, index) == Ok::<_, Fault>(found),
                    tree(*primitive).get("indices"@) == Tree::Unsigned(index),
                    added == corners(
                        tree(self.json),
                        self.binary@,
                        tree(*primitive),
                        base as nat,
                        vertices as nat,
                    ),
                    list@ == start + added->Ok_0.take(f as int),
                decreases found.count / 3 - f,
            {
                let first: u32 = found.read_index(&self.binary, 3 * f);
                let second: u32 = found.read_index(&self.binary, 3 * f + 1);
                let third: u32 = found.read_index(&self.binary, 3 * f + 2);
                list.push(
                    [
                        low_sum(base, first as u64),
                        low_sum(base, second as u64),
                        low_sum(base, third as u64),
                    ],
                );
                f = f + 1;
                assert(list@ =~= start + added->Ok_0.take(f as int));
            }
            assert(added->Ok_0.take(f as int) =~= added->Ok_0);
            return Ok(());
        }
        let mut f: u64 = 0;
        assert(list@ =~= start + added->Ok_0.take(0));
        while f < vertices / 3
            invariant
                f <= vertices / 3,
                !(tree(*primitive).get("indices"@) is Unsigned),
                added == corners(
                    tree(self.json),
                    self.binary@,
                    tree(*primitive),
                    base as nat,
                    vertices as nat,
                ),
                list@ == start + added->Ok_0.take(f as int),
            decreases vertices / 3 - f,
        {
            list.push([low_sum(base, 3 * f), low_sum(base, 3 * f + 1), low_sum(base, 3 * f + 2)]);
            f = f + 1;
            assert(list@ =~= start + added->Ok_0.take(f as int));
        }
        assert(added->Ok_0.take(f as int) =~= added->Ok_0);
        Ok(())
    }

    /// Adds one primitive to a scene.
    fn append(&self, primitive: &Json, path: &Vec<u64>, scene: &mut Scene) -> (done: Result<
        (),
        Stop,
    >)
        ensures
            match done {
                Ok(()) => appended(
                    tree(self.json),
                    self.binary@,
                    tree(*primitive),
                    path@,
                    old(scene)@,
                ) == Ok::<_, Halt>(final(scene)@),
                Err(stop) => appended(
                    tree(self.json),
                    self.binary@,
                    tree(*primitive),
                    path@,
                    old(scene)@,
                ) == Err::<SceneView, _>(stop@),
            },
    {
        let ghost before = scene@;
        let whole = Some(primitive);
        if member(member(whole, "extensions"), "KHR_draco_mesh_compression").is_some() {
            return Err(
                Stop::Failed(
                    invalid_dataset("this file is Draco compressed, which is not read here"),
                ),
            );
        }
        let mode: u64 = number_or(member(whole, "mode"), 4);
        if mode != 4 {
            return Err(
                Stop::Failed(
                    NetworkError::InvalidDataset(
                        with_number("primitive mode ", mode, " is not triangles"),
                    ),
                ),
            );
        }
        let attributes = member(whole, "attributes");
        let index: u64 = match number(member(attributes, "POSITION")) {
            Some(index) => index,
            None => return Ok(()),
        };
        let positions = match self.vectors(index, 3) {
            Ok(found) => found,
            Err(error) => return Err(Stop::Failed(error)),
        };
        let base: usize = scene.mesh.positions.len();
        let first_normal: usize = scene.mesh.normals.len();
        positions.push_triples(&self.binary, &mut scene.mesh.positions);
        let normals = match self.attribute(member(attributes, "NORMAL"), 3) {
            Ok(found) => found,
            Err(stop) => return Err(stop),
        };
        match normals {
            Some(found) => found.push_triples(&self.binary, &mut scene.mesh.normals),
            None => {},
        }
        let uvs = match self.attribute(member(attributes, "TEXCOORD_0"), 2) {
            Ok(found) => found,
            Err(stop) => return Err(stop),
        };
        match uvs {
            Some(found) => found.push_couples(&self.binary, &mut scene.mesh.uvs),
            None => {},
        }
        match self.push_colours(primitive, positions.count, &mut scene.mesh.colors) {
            Ok(()) => {},
            Err(stop) => return Err(stop),
        }
        match self.push_corners(primitive, base, positions.count, &mut scene.mesh.indices) {
            Ok(()) => {},
            Err(stop) => return Err(stop),
        }
        let part = Part {
            path: copy_path(path),
            first_position: base,
            positions: scene.mesh.positions.len() - base,
            first_normal,
            normals: scene.mesh.normals.len() - first_normal,
        };
        scene.parts.push(part);
        proof {
            let after = with_vertices(
                tree(self.json),
                self.binary@,
                tree(*primitive),
                path@,
                before,
                positions,
            );
            let normal_list = triples_of(normals, self.binary@);
            assert(scene@.positions =~= before.positions + positions.triples(self.binary@));
            assert(scene@.normals =~= before.normals + normal_list);
            assert(scene@.uvs =~= before.uvs + couples_of(uvs, self.binary@));
            assert(scene@.parts =~= after->Ok_0.parts);
            assert(scene@ =~= after->Ok_0);
        }
        Ok(())
    }
}

fn copy_path(path: &Vec<u64>) -> (copy: Vec<u64>)
    ensures
        copy@ == path@,
{
    let mut copy: Vec<u64> = Vec::new();
    let mut i: usize = 0;
    while i < path.len()
        invariant
            i <= path@.len(),
            copy@ == path@.take(i as int),
        decreases path.len() - i,
    {
        copy.push(path[i]);
        i = i + 1;
        assert(copy@ =~= path@.take(i as int));
    }
    assert(copy@ =~= path@);
    copy
}

// -- The scene graph ---------------------------------------------------------

/// A scene with the first `k` of a list of primitives.
pub open spec fn with_primitives(
    doc: Tree,
    binary: Seq<u8>,
    primitives: Seq<Tree>,
    k: int,
    path: Seq<u64>,
    scene: SceneView,
) -> Result<SceneView, Halt>
    decreases k,
{
    if k <= 0 {
        Ok(scene)
    } else {
        match with_primitives(doc, binary, primitives, k - 1, path, scene) {
            Ok(scene) => appended(doc, binary, primitives[k - 1], path, scene),
            Err(halt) => Err(halt),
        }
    }
}

/// A scene with the mesh of a node, when the node names one.
pub open spec fn with_mesh(
    doc: Tree,
    binary: Seq<u8>,
    node: Tree,
    path: Seq<u64>,
    scene: SceneView,
) -> Result<SceneView, Halt> {
    match node.get("mesh"@) {
        Tree::Unsigned(which) => match doc.get("meshes"@).at(which as int).get("primitives"@) {
            Tree::Array(primitives) => with_primitives(
                doc,
                binary,
                primitives,
                primitives.len() as int,
                path,
                scene,
            ),
            _ => Err(
                Halt::Failed(
                    Fault::InvalidDataset(
                        "mesh "@ + decimal(which as nat) + " has no primitives"@,
                    ),
                ),
            ),
        },
        _ => Ok(scene),
    }
}

/// A scene with a node and everything under it. A file of `m` nodes whose
/// nodes do not loop is never deeper than `m + 1`, so that `fuel` of that much
/// only runs out on one whose nodes do.
pub open spec fn walked(
    doc: Tree,
    binary: Seq<u8>,
    index: u64,
    path: Seq<u64>,
    scene: SceneView,
    fuel: nat,
) -> Result<SceneView, Halt>
    decreases fuel, 0int, 1int,
{
    if fuel == 0 {
        Err(Halt::Stuck)
    } else {
        let node = doc.get("nodes"@).at(index as int);
        let deeper = path.push(index);
        match with_mesh(doc, binary, node, deeper, scene) {
            Err(halt) => Err(halt),
            Ok(scene) => match node.get("children"@) {
                Tree::Array(children) => with_children(
                    doc,
                    binary,
                    children,
                    children.len() as int,
                    "a child index is not a number"@,
                    deeper,
                    scene,
                    (fuel - 1) as nat,
                ),
                _ => Ok(scene),
            },
        }
    }
}

/// A scene with the first `k` of a list of nodes and everything under them.
pub open spec fn with_children(
    doc: Tree,
    binary: Seq<u8>,
    children: Seq<Tree>,
    k: int,
    complaint: Seq<char>,
    path: Seq<u64>,
    scene: SceneView,
    fuel: nat,
) -> Result<SceneView, Halt>
    decreases fuel, k, 2int,
{
    if k <= 0 {
        Ok(scene)
    } else {
        match with_children(doc, binary, children, k - 1, complaint, path, scene, fuel) {
            Err(halt) => Err(halt),
            Ok(scene) => match children[k - 1] {
                Tree::Unsigned(index) => walked(doc, binary, index, path, scene, fuel),
                _ => Err(Halt::Failed(Fault::InvalidDataset(complaint))),
            },
        }
    }
}

/// How deep a scene can be whose nodes do not loop.
pub open spec fn depth_limit(doc: Tree) -> nat {
    match doc.get("nodes"@) {
        Tree::Array(nodes) => nodes.len() + 1,
        _ => 1,
    }
}

/// Half a vertex's attributes is worse than none: a list that is not as long
/// as the positions is dropped.
pub open spec fn in_step(scene: SceneView) -> SceneView {
    let count = scene.positions.len();
    SceneView {
        normals: if scene.normals.len() == count { scene.normals } else { Seq::empty() },
        uvs: if scene.uvs.len() == count { scene.uvs } else { Seq::empty() },
        colors: if scene.colors.len() == count { scene.colors } else { Seq::empty() },
        ..scene
    }
}

/// The whole scene of a file as one mesh.
pub open spec fn gathered(doc: Tree, binary: Seq<u8>) -> Result<SceneView, Halt> {
    let which = doc.get("scene"@).number_or(0);
    match doc.get("scenes"@).at(which as int).get("nodes"@) {
        Tree::Array(roots) => match with_children(
            doc,
            binary,
            roots,
            roots.len() as int,
            "a scene names a node that is not a number"@,
            Seq::empty(),
            nothing(),
            depth_limit(doc),
        ) {
            Err(halt) => Err(halt),
            Ok(scene) => if scene.indices.len() == 0 {
                Err(Halt::Failed(Fault::InvalidDataset("the scene holds no triangles"@)))
            } else {
                Ok(in_step(scene))
            },
        },
        _ => Err(Halt::Failed(Fault::InvalidDataset("the file has no scene"@))),
    }
}

impl Glb {
    fn append_mesh(&self, node: Option<&Json>, path: &Vec<u64>, scene: &mut Scene) -> (done: Result<
        (),
        Stop,
    >)
        ensures
            match done {
                Ok(()) => with_mesh(
                    tree(self.json),
                    self.binary@,
                    tree_of(node),
                    path@,
                    old(scene)@,
                ) == Ok::<_, Halt>(final(scene)@),
                Err(stop) => with_mesh(
                    tree(self.json),
                    self.binary@,
                    tree_of(node),
                    path@,
                    old(scene)@,
                ) == Err::<SceneView, _>(stop@),
            },
    {
        let which: u64 = match number(member(node, "mesh")) {
            Some(which) => which,
            None => return Ok(()),
        };
        let entry = item(member(Some(&self.json), "meshes"), which);
        let list = match items(member(entry, "primitives")) {
            Some(list) => list,
            None => {
                return Err(
                    Stop::Failed(
                        NetworkError::InvalidDataset(
                            with_number("mesh ", which, " has no primitives"),
                        ),
                    ),
                );
            },
        };
        let ghost doc = tree(self.json);
        let ghost primitives = doc.get("meshes"@).at(which as int).get("primitives"@)->Array_0;
        let ghost start = scene@;
        let ghost whole = with_primitives(
            doc,
            self.binary@,
            primitives,
            primitives.len() as int,
            path@,
            start,
        );
        let mut k: usize = 0;
        while k < list.len()
            invariant
                k <= list@.len(),
                doc == tree(self.json),
                primitives.len() == list@.len(),
                forall|i: int| 0 <= i < list@.len() ==> primitives[i] == tree(#[trigger] list@[i]),
                with_primitives(doc, self.binary@, primitives, k as int, path@, start) == Ok::<
                    _,
                    Halt,
                >(scene@),
                whole == with_primitives(
                    doc,
                    self.binary@,
                    primitives,
                    primitives.len() as int,
                    path@,
                    start,
                ),
                with_mesh(doc, self.binary@, tree_of(node), path@, start) == whole,
                start == old(scene)@,
            decreases list.len() - k,
        {
            let ghost before = scene@;
            match self.append(&list[k], path, scene) {
                Ok(()) => {},
                Err(stop) => {
                    proof {
                        lemma_primitives_stop(
                            doc,
                            self.binary@,
                            primitives,
                            k + 1,
                            primitives.len() as int,
                            path@,
                            start,
                        );
                    }
                    return Err(stop);
                },
            }
            k = k + 1;
        }
        Ok(())
    }

    /// Adds a node and everything under it.
    fn walk(&self, index: u64, path: &mut Vec<u64>, scene: &mut Scene, fuel: u128) -> (done: Result<
        (),
        Stop,
    >)
        ensures
            done is Ok ==> final(path)@ == old(path)@,
            match done {
                Ok(()) => walked(
                    tree(self.json),
                    self.binary@,
                    index,
                    old(path)@,
                    old(scene)@,
                    fuel as nat,
                ) == Ok::<_, Halt>(final(scene)@),
                Err(stop) => walked(
                    tree(self.json),
                    self.binary@,
                    index,
                    old(path)@,
                    old(scene)@,
                    fuel as nat,
                ) == Err::<SceneView, _>(stop@),
            },
        decreases fuel, 0int,
    {
        if fuel == 0 {
            return Err(Stop::Stuck);
        }
        let ghost outer = path@;
        let node = item(member(Some(&self.json), "nodes"), index);
        path.push(index);
        match self.append_mesh(node, path, scene) {
            Ok(()) => {},
            Err(stop) => return Err(stop),
        }
        match items(member(node, "children")) {
            Some(children) => {
                match self.walk_all(
                    children,
                    "a child index is not a number",
                    path,
                    scene,
                    fuel - 1,
                    Ghost(tree_of(node).get("children"@)->Array_0),
                ) {
                    Ok(()) => {},
                    Err(stop) => return Err(stop),
                }
            },
            None => {},
        }
        path.pop();
        assert(path@ =~= outer);
        Ok(())
    }

    /// Adds a list of nodes and everything under them.
    fn walk_all(
        &self,
        list: &Vec<Json>,
        complaint: &str,
        path: &mut Vec<u64>,
        scene: &mut Scene,
        fuel: u128,
        Ghost(children): Ghost<Seq<Tree>>,
    ) -> (done: Result<(), Stop>)
        requires
            children.len() == list@.len(),
            forall|i: int| 0 <= i < list@.len() ==> children[i] == tree(#[trigger] list@[i]),
        ensures
            done is Ok ==> final(path)@ == old(path)@,
            match done {
                Ok(()) => with_children(
                    tree(self.json),
                    self.binary@,
                    children,
                    children.len() as int,
                    complaint@,
                    old(path)@,
                    old(scene)@,
                    fuel as nat,
                ) == Ok::<_, Halt>(final(scene)@),
                Err(stop) => with_children(
                    tree(self.json),
                    self.binary@,
                    children,
                    children.len() as int,
                    complaint@,
                    old(path)@,
                    old(scene)@,
                    fuel as nat,
                ) == Err::<SceneView, _>(stop@),
            },
        decreases fuel, 1int,
    {
        let ghost doc = tree(self.json);
        let ghost start = scene@;
        let ghost outer = path@;
        let mut k: usize = 0;
        while k < list.len()
            invariant
                k <= list@.len(),
                doc == tree(self.json),
                children.len() == list@.len(),
                forall|i: int| 0 <= i < list@.len() ==> children[i] == tree(#[trigger] list@[i]),
                path@ == outer,
                with_children(
                    doc,
                    self.binary@,
                    children,
                    k as int,
                    complaint@,
                    outer,
                    start,
                    fuel as nat,
                ) == Ok::<_, Halt>(scene@),
                start == old(scene)@,
                outer == old(path)@,
            decreases list.len() - k,
        {
            let child = number(Some(&list[k]));
            proof {
                lemma_children_stop(
                    doc,
                    self.binary@,
                    children,
                    k + 1,
                    children.len() as int,
                    complaint@,
                    outer,
                    start,
                    fuel as nat,
                );
            }
            match child {
                Some(index) => match self.walk(index, path, scene, fuel) {
                    Ok(()) => {},
                    Err(stop) => return Err(stop),
                },
                None => {
                    return Err(Stop::Failed(invalid_dataset(complaint)));
                },
            }
            k = k + 1;
        }
        Ok(())
    }

    /// The whole scene as one mesh, or why there is none.
    pub fn gather(&self) -> (scene: Result<Scene, Stop>)
        ensures
            match scene {
                Ok(scene) => gathered(tree(self.json), self.binary@) == Ok::<_, Halt>(scene@),
                Err(stop) => gathered(tree(self.json), self.binary@) == Err::<SceneView, _>(stop@),
            },
    {
        let doc = Some(&self.json);
        let which: u64 = number_or(member(doc, "scene"), 0);
        let roots = match items(member(item(member(doc, "scenes"), which), "nodes")) {
            Some(roots) => roots,
            None => return Err(Stop::Failed(invalid_dataset("the file has no scene"))),
        };
        let limit: u128 = match items(member(doc, "nodes")) {
            Some(nodes) => nodes.len() as u128 + 1,
            None => 1,
        };
        let mut scene = Scene { mesh: Mesh::empty(), parts: Vec::new() };
        let mut path: Vec<u64> = Vec::new();
        proof {
            assert(scene@ =~= nothing());
            assert(path@ =~= Seq::<u64>::empty());
        }
        match self.walk_all(
            roots,
            "a scene names a node that is not a number",
            &mut path,
            &mut scene,
            limit,
            Ghost(
                tree(self.json).get("scenes"@).at(which as int).get("nodes"@)->Array_0,
            ),
        ) {
            Ok(()) => {},
            Err(stop) => return Err(stop),
        }
        if scene.mesh.indices.len() == 0 {
            return Err(Stop::Failed(invalid_dataset("the scene holds no triangles")));
        }
        let ghost before = scene@;
        let count: usize = scene.mesh.positions.len();
        if scene.mesh.normals.len() != count {
            scene.mesh.normals = Vec::new();
        }
        if scene.mesh.uvs.len() != count {
            scene.mesh.uvs = Vec::new();
        }
        if scene.mesh.colors.len() != count {
            scene.mesh.colors = Vec::new();
        }
        assert(scene@ =~= in_step(before));
        Ok(scene)
    }

    /// The whole scene as one mesh: primitives are concatenated and their
    /// indices renumbered, so that what comes back is a single surface
    /// whatever the file's node structure was.
    pub fn mesh(&self) -> (scene: Result<Scene, NetworkError>)
        requires
            gathered(tree(self.json), self.binary@) != Err::<SceneView, _>(Halt::Stuck),
        ensures
            match scene {
                Ok(scene) => gathered(tree(self.json), self.binary@) == Ok::<_, Halt>(scene@),
                Err(error) => gathered(tree(self.json), self.binary@) == Err::<SceneView, _>(
                    Halt::Failed(error@),
                ),
            },
    {
        match self.gather() {
            Ok(scene) => Ok(scene),
            Err(Stop::Failed(error)) => Err(error),
            Err(Stop::Stuck) => {
                assert(false);
                Err(invalid_dataset("the scene holds no triangles"))
            },
        }
    }
}

/// A primitive that is not read ends the list.
proof fn lemma_primitives_stop(
    doc: Tree,
    binary: Seq<u8>,
    primitives: Seq<Tree>,
    k: int,
    m: int,
    path: Seq<u64>,
    scene: SceneView,
)
    requires
        k <= m,
    ensures
        with_primitives(doc, binary, primitives, k, path, scene) is Err ==> with_primitives(
            doc,
            binary,
            primitives,
            m,
            path,
            scene,
        ) == with_primitives(doc, binary, primitives, k, path, scene),
    decreases m - k,
{
    if k < m {
        lemma_primitives_stop(doc, binary, primitives, k, m - 1, path, scene);
    }
}

/// A node that is not read ends the list.
proof fn lemma_children_stop(
    doc: Tree,
    binary: Seq<u8>,
    children: Seq<Tree>,
    k: int,
    m: int,
    complaint: Seq<char>,
    path: Seq<u64>,
    scene: SceneView,
    fuel: nat,
)
    requires
        k <= m,
    ensures
        with_children(doc, binary, children, k, complaint, path, scene, fuel) is Err
            ==> with_children(doc, binary, children, m, complaint, path, scene, fuel)
            == with_children(doc, binary, children, k, complaint, path, scene, fuel),
    decreases m - k,
{
    if k < m {
        lemma_children_stop(doc, binary, children, k, m - 1, complaint, path, scene, fuel);
    }
}

} // verus!
