//! Wavefront OBJ files: positions, normals, texture coordinates and faces.
//!
//! A line of the file is a keyword and its fields. Materials, groups and
//! smoothing are skipped. How a field becomes a coordinate is up to the caller.
use crate::error::{invalid_dataset, Fault, NetworkError};
use crate::fields::{corner, fields_of, parse_corner, rows, rows_of, split_rows};
use crate::gltf::low;
use crate::mesh::Mesh;
use crate::text::{decimal, with_number, with_text};
use std::collections::HashMap;
use vstd::prelude::*;
use vstd::std_specs::hash::*;

verus! {

// -- Numbering ---------------------------------------------------------------

/// The place an OBJ index names in a list: indices count from one, and a
/// negative index counts back from the end.
pub open spec fn place(length: nat, index: i64) -> Option<int> {
    if 0 < index <= length {
        Some(index - 1)
    } else if index < 0 && -index <= length {
        Some(length + index)
    } else {
        None
    }
}

/// The value an OBJ index names.
pub open spec fn picked<A>(values: Seq<A>, index: i64) -> Option<A> {
    match place(values.len(), index) {
        Some(at) => Some(values[at]),
        None => None,
    }
}

/// The value an OBJ index names.
pub fn pick<A: Copy>(values: &Vec<A>, index: i64) -> (value: Option<A>)
    ensures
        value == picked(values@, index),
{
    let length: usize = values.len();
    if index > 0 {
        if index as u64 <= length as u64 {
            Some(values[(index - 1) as usize])
        } else {
            None
        }
    } else if index < 0 {
        let back: i128 = 0 - index as i128;
        if back <= length as i128 {
            Some(values[length - back as usize])
        } else {
            None
        }
    } else {
        None
    }
}

/// What an index means from now on.
#[derive(Clone, Copy, Debug, PartialEq, Eq, Structural)]
pub enum Meaning {
    /// What it says: an index from the start, or one that names nothing.
    Stated(i64),
    /// A place, counted from zero: where an index that counts back came to.
    Placed(usize),
}

/// What the three indices of a corner mean.
pub type Key = (Meaning, Meaning, Meaning);

/// What an index means from now on: an index from the start stays what it is,
/// as does one that reaches before the start, and one that counts back is
/// pinned to the place it names now.
pub open spec fn pinned(length: nat, index: i64) -> Meaning {
    if index < 0 && -index <= length {
        Meaning::Placed((length + index) as usize)
    } else {
        Meaning::Stated(index)
    }
}

fn pin(length: usize, index: i64) -> (meaning: Meaning)
    ensures
        meaning == pinned(length as nat, index),
{
    if index >= 0 {
        return Meaning::Stated(index);
    }
    let back: i128 = 0 - index as i128;
    if back <= length as i128 {
        Meaning::Placed(length - back as usize)
    } else {
        Meaning::Stated(index)
    }
}

// -- What a file says --------------------------------------------------------

/// A file in the middle of being read.
#[verifier::ext_equal]
pub ghost struct Reading<T> {
    /// The lists the file has stated so far.
    pub positions: Seq<[T; 3]>,
    /// The colour of each position, where its line has one.
    pub colours: Seq<Option<[T; 3]>>,
    pub uvs: Seq<[T; 2]>,
    pub normals: Seq<[T; 3]>,
    /// The corners that have become vertices, in order.
    pub vertices: Seq<Key>,
    /// What those vertices carry.
    pub vertex_positions: Seq<[T; 3]>,
    pub vertex_colors: Seq<[T; 3]>,
    pub vertex_uvs: Seq<[T; 2]>,
    pub vertex_normals: Seq<[T; 3]>,
    pub faces: Seq<[u32; 3]>,
}

/// What the caller made of a line: its fields as numbers, and the second
/// texture coordinate turned into the convention of the mesh.
pub ghost struct Answers<T> {
    pub numbers: Seq<Option<T>>,
    pub flipped: T,
}

/// Three numbers from `start` on, when they are all there.
pub open spec fn triple<T>(numbers: Seq<Option<T>>, start: int) -> Option<[T; 3]> {
    if start + 3 <= numbers.len() && numbers[start] is Some && numbers[start + 1] is Some
        && numbers[start + 2] is Some {
        Some(
            [
                numbers[start]->Some_0,
                numbers[start + 1]->Some_0,
                numbers[start + 2]->Some_0,
            ],
        )
    } else {
        None
    }
}

/// The value an index names in a list of values that may be missing.
pub open spec fn picked_some<A>(values: Seq<Option<A>>, index: i64) -> Option<A> {
    match picked(values, index) {
        Some(value) => value,
        None => None,
    }
}

/// A list with one more value, when there is one.
pub open spec fn with_some<A>(list: Seq<A>, value: Option<A>) -> Seq<A> {
    match value {
        Some(value) => list.push(value),
        None => list,
    }
}

/// The corners of the first `k` fields of a face, when all of them are.
pub open spec fn face_corners(fields: Seq<Seq<char>>, k: int) -> Option<Seq<(i64, i64, i64)>>
    decreases k,
{
    if k <= 0 {
        Some(Seq::empty())
    } else {
        match (face_corners(fields, k - 1), corner(fields[k - 1])) {
            (Some(corners), Some(corner)) => Some(corners.push(corner)),
            _ => None,
        }
    }
}

/// The key a corner is known by: what its three indices mean.
pub open spec fn corner_key<T>(reading: Reading<T>, corner: (i64, i64, i64)) -> Key {
    (
        pinned(reading.positions.len(), corner.0),
        pinned(reading.uvs.len(), corner.1),
        pinned(reading.normals.len(), corner.2),
    )
}

/// A reading in which a corner has become a vertex: a corner met before is the
/// vertex it became then.
pub open spec fn with_corner<T>(reading: Reading<T>, corner: (i64, i64, i64)) -> Option<Reading<T>> {
    let key = corner_key(reading, corner);
    if reading.vertices.contains(key) {
        Some(reading)
    } else {
        match picked(reading.positions, corner.0) {
            Some(position) => Some(
                Reading {
                    vertices: reading.vertices.push(key),
                    vertex_positions: reading.vertex_positions.push(position),
                    vertex_colors: with_some(
                        reading.vertex_colors,
                        picked_some(reading.colours, corner.0),
                    ),
                    vertex_uvs: with_some(reading.vertex_uvs, picked(reading.uvs, corner.1)),
                    vertex_normals: with_some(
                        reading.vertex_normals,
                        picked(reading.normals, corner.2),
                    ),
                    ..reading
                },
            ),
            None => None,
        }
    }
}

/// A reading in which the first `k` of a list of corners have become vertices.
pub open spec fn with_corners<T>(
    reading: Reading<T>,
    corners: Seq<(i64, i64, i64)>,
    k: int,
) -> Option<Reading<T>>
    decreases k,
{
    if k <= 0 {
        Some(reading)
    } else {
        match with_corners(reading, corners, k - 1) {
            Some(reading) => with_corner(reading, corners[k - 1]),
            None => None,
        }
    }
}

/// The vertex a corner has become.
pub open spec fn vertex_of<T>(reading: Reading<T>, corner: (i64, i64, i64)) -> u32 {
    low(reading.vertices.index_of(corner_key(reading, corner)))
}

/// A polygon as a fan of triangles around its first corner.
pub open spec fn fan(polygon: Seq<u32>) -> Seq<[u32; 3]> {
    Seq::new(
        (polygon.len() - 2) as nat,
        |i: int| [polygon[0], polygon[i + 1], polygon[i + 2]],
    )
}

/// A reading after one more face.
pub open spec fn with_face<T>(reading: Reading<T>, fields: Seq<Seq<char>>) -> Result<
    Reading<T>,
    Seq<char>,
> {
    match face_corners(fields, fields.len() as int) {
        None => Err("a face corner needs a vertex index"@),
        Some(corners) => if corners.len() < 3 {
            Err("a face needs three corners"@)
        } else {
            match with_corners(reading, corners, corners.len() as int) {
                None => Err("a face names a vertex that is not there"@),
                Some(after) => Ok(
                    Reading {
                        faces: after.faces + fan(
                            corners.map_values(|c: (i64, i64, i64)| vertex_of(after, c)),
                        ),
                        ..after
                    },
                ),
            }
        },
    }
}

/// A reading after one more line.
pub open spec fn with_line<T>(
    reading: Reading<T>,
    line: Seq<Seq<char>>,
    answers: Answers<T>,
) -> Result<Reading<T>, Seq<char>> {
    let numbers = answers.numbers;
    if line.len() == 0 {
        Ok(reading)
    } else if line[0] == "v"@ {
        match triple(numbers, 0) {
            Some(position) => Ok(
                Reading {
                    positions: reading.positions.push(position),
                    // The extended form writes a colour after the position.
                    colours: reading.colours.push(triple(numbers, 3)),
                    ..reading
                },
            ),
            None => Err("a vertex needs three coordinates"@),
        }
    } else if line[0] == "vn"@ {
        match triple(numbers, 0) {
            Some(normal) => Ok(Reading { normals: reading.normals.push(normal), ..reading }),
            None => Err("a normal needs three components"@),
        }
    } else if line[0] == "vt"@ {
        if numbers.len() > 0 && numbers[0] is Some {
            Ok(
                Reading {
                    uvs: reading.uvs.push([numbers[0]->Some_0, answers.flipped]),
                    ..reading
                },
            )
        } else {
            Err("a texture coordinate needs a u"@)
        }
    } else if line[0] == "f"@ {
        with_face(reading, line.skip(1))
    } else {
        Ok(reading)
    }
}

/// A file of nothing.
pub open spec fn blank<T>() -> Reading<T> {
    Reading {
        positions: Seq::empty(),
        colours: Seq::empty(),
        uvs: Seq::empty(),
        normals: Seq::empty(),
        vertices: Seq::empty(),
        vertex_positions: Seq::empty(),
        vertex_colors: Seq::empty(),
        vertex_uvs: Seq::empty(),
        vertex_normals: Seq::empty(),
        faces: Seq::empty(),
    }
}

/// What the first `k` lines of a file say; the first line that is wrong ends
/// it, with a complaint that names the line.
pub open spec fn after_lines<T>(
    lines: Seq<Seq<Seq<char>>>,
    answers: Seq<Answers<T>>,
    k: int,
) -> Result<Reading<T>, Fault>
    decreases k,
{
    if k <= 0 {
        Ok(blank())
    } else {
        match after_lines(lines, answers, k - 1) {
            Ok(reading) => match with_line(reading, lines[k - 1], answers[k - 1]) {
                Ok(reading) => Ok(reading),
                Err(what) => Err(
                    Fault::InvalidDataset("line "@ + decimal(k as nat) + ": "@ + what + ""@),
                ),
            },
            Err(fault) => Err(fault),
        }
    }
}

/// Whether a list is as long as the positions, or else empty.
pub open spec fn in_step<A>(list: Seq<A>, kept: Seq<A>, count: nat) -> bool {
    kept == if list.len() == count { list } else { Seq::empty() }
}

/// Whether reading a file ends in `outcome`: the mesh its faces describe, or
/// the first complaint. Attributes that only some vertices have are dropped.
pub open spec fn is_outcome<T>(
    lines: Seq<Seq<Seq<char>>>,
    answers: Seq<Answers<T>>,
    outcome: Result<Mesh<T>, NetworkError>,
) -> bool {
    match after_lines(lines, answers, lines.len() as int) {
        Err(fault) => outcome is Err && outcome->Err_0@ == fault,
        Ok(reading) => if reading.faces.len() == 0 {
            outcome is Err && outcome->Err_0@ == Fault::InvalidDataset("the file has no faces"@)
        } else {
            let count = reading.vertex_positions.len();
            &&& outcome is Ok
            &&& outcome->Ok_0.positions@ == reading.vertex_positions
            &&& outcome->Ok_0.indices@ == reading.faces
            &&& in_step(reading.vertex_uvs, outcome->Ok_0.uvs@, count)
            &&& in_step(reading.vertex_normals, outcome->Ok_0.normals@, count)
            &&& in_step(reading.vertex_colors, outcome->Ok_0.colors@, count)
        },
    }
}

/// Whether a field was read as the given number.
pub open spec fn reads_as<T, N: Fn(&Vec<char>) -> Option<T>>(
    number: N,
    field: Seq<char>,
    answer: Option<T>,
) -> bool {
    exists|held: &Vec<char>| held@ == field && #[trigger] call_ensures(number, (held,), answer)
}

/// Whether these are the caller's answers for one line.
pub open spec fn is_answered<T, N: Fn(&Vec<char>) -> Option<T>, L: Fn(Option<T>) -> T>(
    number: N,
    flip: L,
    line: Seq<Seq<char>>,
    answers: Answers<T>,
) -> bool {
    let numbers = answers.numbers;
    &&& is_numeric(line) ==> numbers.len() == line.len() - 1 && forall|i: int|
        0 <= i < numbers.len() ==> reads_as(number, line[i + 1], #[trigger] numbers[i])
    &&& line.len() > 0 && line[0] == "vt"@ ==> call_ensures(
        flip,
        (if numbers.len() > 1 { numbers[1] } else { None },),
        answers.flipped,
    )
}

/// Whether the fields of a line are numbers.
pub open spec fn is_numeric(line: Seq<Seq<char>>) -> bool {
    line.len() > 0 && (line[0] == "v"@ || line[0] == "vn"@ || line[0] == "vt"@)
}

// -- Reading -----------------------------------------------------------------

/// A file in the middle of being read. The vertices are found again by the
/// position they have.
struct Reader<T> {
    positions: Vec<[T; 3]>,
    colours: Vec<Option<[T; 3]>>,
    uvs: Vec<[T; 2]>,
    normals: Vec<[T; 3]>,
    vertices: Vec<Key>,
    buckets: HashMap<i128, Vec<usize>>,
    mesh: Mesh<T>,
}

/// The bucket of a position: a place is told apart from an index by its sign.
spec fn bucket_of(meaning: Meaning) -> i128 {
    match meaning {
        Meaning::Stated(index) => index as i128,
        Meaning::Placed(at) => (-1 - at) as i128,
    }
}

fn find_bucket(meaning: Meaning) -> (bucket: i128)
    ensures
        bucket == bucket_of(meaning),
{
    match meaning {
        Meaning::Stated(index) => index as i128,
        Meaning::Placed(at) => 0 - 1 - at as i128,
    }
}

/// Whether every vertex stands in the bucket of its position.
spec fn is_filed(vertices: Seq<Key>, buckets: Map<i128, Vec<usize>>) -> bool {
    &&& vertices.no_duplicates()
    &&& forall|j: int|
        0 <= j < vertices.len() ==> buckets.contains_key(bucket_of((#[trigger] vertices[j]).0))
            && buckets[bucket_of(vertices[j].0)]@.contains(j as usize)
    &&& forall|k: i128, i: int|
        buckets.contains_key(k) && 0 <= i < buckets[k]@.len() ==> (#[trigger] buckets[k]@[i])
            < vertices.len() && bucket_of(vertices[buckets[k]@[i] as int].0) == k
}

impl<T: Copy> Reader<T> {
    spec fn reading(&self) -> Reading<T> {
        Reading {
            positions: self.positions@,
            colours: self.colours@,
            uvs: self.uvs@,
            normals: self.normals@,
            vertices: self.vertices@,
            vertex_positions: self.mesh.positions@,
            vertex_colors: self.mesh.colors@,
            vertex_uvs: self.mesh.uvs@,
            vertex_normals: self.mesh.normals@,
            faces: self.mesh.indices@,
        }
    }

    spec fn wf(&self) -> bool {
        is_filed(self.vertices@, self.buckets@)
    }

    fn new() -> (reader: Reader<T>)
        ensures
            reader.wf(),
            reader.reading() == blank::<T>(),
    {
        let reader = Reader {
            positions: Vec::new(),
            colours: Vec::new(),
            uvs: Vec::new(),
            normals: Vec::new(),
            vertices: Vec::new(),
            buckets: HashMap::new(),
            mesh: Mesh::empty(),
        };
        assert(reader.reading() =~= blank::<T>());
        reader
    }

    /// The vertex with the given key, when there is one.
    fn find(&self, key: Key) -> (found: Option<usize>)
        requires
            self.wf(),
        ensures
            match found {
                Some(j) => j < self.vertices@.len() && self.vertices@[j as int] == key,
                None => !self.vertices@.contains(key),
            },
    {
        let count: usize = self.vertices.len();
        let place: i128 = find_bucket(key.0);
        match self.buckets.get(&place) {
            Some(bucket) => {
                let mut i: usize = 0;
                while i < bucket.len()
                    invariant
                        i <= bucket@.len(),
                        count == self.vertices@.len(),
                        self.wf(),
                        place == bucket_of(key.0),
                        self.buckets@.contains_key(place),
                        *bucket == self.buckets@[place],
                        forall|k: int|
                            0 <= k < i ==> self.vertices@[(#[trigger] bucket@[k]) as int] != key,
                    decreases bucket.len() - i,
                {
                    let j: usize = bucket[i];
                    assert(self.buckets@[place]@[i as int] < self.vertices@.len());
                    let (a, b, c) = self.vertices[j];
                    if a == key.0 && b == key.1 && c == key.2 {
                        return Some(j);
                    }
                    i = i + 1;
                }
                proof {
                    if self.vertices@.contains(key) {
                        let j = choose|j: int|
                            0 <= j < self.vertices@.len() && self.vertices@[j] == key;
                        assert(bucket@.contains(j as usize));
                        let p = choose|p: int| 0 <= p < bucket@.len() && bucket@[p] == j as usize;
                        assert(self.vertices@[bucket@[p] as int] != key);
                    }
                }
                None
            },
            None => {
                proof {
                    if self.vertices@.contains(key) {
                        let j = choose|j: int|
                            0 <= j < self.vertices@.len() && self.vertices@[j] == key;
                        assert(self.buckets@.contains_key(bucket_of(self.vertices@[j].0)));
                    }
                }
                None
            },
        }
    }

    fn file(&mut self, key: Key)
        requires
            old(self).wf(),
            !old(self).vertices@.contains(key),
        ensures
            final(self).wf(),
            final(self).vertices@ == old(self).vertices@.push(key),
            final(self).positions == old(self).positions,
            final(self).colours == old(self).colours,
            final(self).uvs == old(self).uvs,
            final(self).normals == old(self).normals,
            final(self).mesh == old(self).mesh,
    {
        let ghost (before, filed) = (self.vertices@, self.buckets@);
        let j: usize = self.vertices.len();
        let place: i128 = find_bucket(key.0);
        let mut bucket: Vec<usize> = match self.buckets.remove(&place) {
            Some(bucket) => bucket,
            None => Vec::new(),
        };
        let ghost old_bucket = bucket@;
        bucket.push(j);
        self.buckets.insert(place, bucket);
        self.vertices.push(key);
        proof {
            let (now, after) = (self.vertices@, self.buckets@);
            assert(after[place]@ == old_bucket.push(j));
            assert forall|i: int| 0 <= i < now.len() implies after.contains_key(
                bucket_of((#[trigger] now[i]).0),
            ) && after[bucket_of(now[i].0)]@.contains(i as usize) by {
                if i < before.len() {
                    assert(now[i] == before[i]);
                    assert(filed[bucket_of(before[i].0)]@.contains(i as usize));
                    if bucket_of(now[i].0) == place {
                        let p = choose|p: int|
                            0 <= p < old_bucket.len() && old_bucket[p] == i as usize;
                        assert(after[place]@[p] == i as usize);
                    }
                } else {
                    assert(after[place]@[old_bucket.len() as int] == j);
                }
            }
            assert forall|k: i128, i: int|
                after.contains_key(k) && 0 <= i < after[k]@.len() implies (
            #[trigger] after[k]@[i]) < now.len() && bucket_of(now[after[k]@[i] as int].0) == k by {
                if k == place {
                    if i < old_bucket.len() {
                        assert(filed[k]@[i] < before.len());
                    }
                } else {
                    assert(filed[k]@[i] < before.len());
                }
            }
        }
    }

    /// The vertex a corner is, made the first time the corner is met.
    fn vertex(&mut self, corner: (i64, i64, i64)) -> (found: Option<u32>)
        requires
            old(self).wf(),
        ensures
            final(self).wf(),
            match found {
                Some(vertex) => with_corner(old(self).reading(), corner) == Some(
                    final(self).reading(),
                ) && vertex == vertex_of(final(self).reading(), corner) && final(
                    self).reading().vertices.contains(corner_key(final(self).reading(), corner)),
                None => with_corner(old(self).reading(), corner) is None,
            },
    {
        let key = (
            pin(self.positions.len(), corner.0),
            pin(self.uvs.len(), corner.1),
            pin(self.normals.len(), corner.2),
        );
        let ghost before = self.reading();
        assert(key == corner_key(before, corner));
        if let Some(j) = self.find(key) {
            proof {
                lemma_index_of(self.vertices@, j as int);
            }
            return Some(low_index(j));
        }
        let position = match pick(&self.positions, corner.0) {
            Some(position) => position,
            None => return None,
        };
        let j: usize = self.vertices.len();
        self.mesh.positions.push(position);
        if let Some(Some(colour)) = pick(&self.colours, corner.0) {
            self.mesh.colors.push(colour);
        }
        if let Some(uv) = pick(&self.uvs, corner.1) {
            self.mesh.uvs.push(uv);
        }
        if let Some(normal) = pick(&self.normals, corner.2) {
            self.mesh.normals.push(normal);
        }
        self.file(key);
        proof {
            let after = self.reading();
            assert(after =~= with_corner(before, corner)->Some_0);
            assert(self.vertices@[j as int] == key);
            lemma_index_of(self.vertices@, j as int);
        }
        Some(low_index(j))
    }
}

proof fn lemma_index_of(list: Seq<Key>, j: int)
    requires
        list.no_duplicates(),
        0 <= j < list.len(),
    ensures
        list.index_of(list[j]) == j,
{
    let i = list.index_of(list[j]);
    assert(list.contains(list[j]));
    assert(0 <= i < list.len() && list[i] == list[j]);
}

fn low_index(j: usize) -> (index: u32)
    ensures
        index == low(j as int),
{
    (j as u128 % 0x1_0000_0000) as u32
}

/// A corner keeps its vertex while more corners become vertices.
proof fn lemma_corner_stays<T>(
    reading: Reading<T>,
    corner: (i64, i64, i64),
    other: (i64, i64, i64),
)
    requires
        reading.vertices.no_duplicates(),
        reading.vertices.contains(corner_key(reading, corner)),
        with_corner(reading, other) is Some,
    ensures
        ({
            let after = with_corner(reading, other)->Some_0;
            &&& corner_key(after, corner) == corner_key(reading, corner)
            &&& after.vertices.contains(corner_key(after, corner))
            &&& vertex_of(after, corner) == vertex_of(reading, corner)
            &&& after.vertices.no_duplicates()
        }),
{
    let after = with_corner(reading, other)->Some_0;
    let key = corner_key(reading, corner);
    let i = choose|i: int| 0 <= i < reading.vertices.len() && reading.vertices[i] == key;
    assert(after.vertices[i] == key);
    lemma_index_of(reading.vertices, i);
    lemma_index_of(after.vertices, i);
}

/// Whether a field is a keyword of one or two characters.
fn is_keyword(field: &Vec<char>, word: &str, first: char, second: Option<char>) -> (yes: bool)
    requires
        word@ == match second {
            Some(second) => seq![first, second],
            None => seq![first],
        },
    ensures
        yes == (field@ == word@),
{
    match second {
        Some(second) => {
            let yes = field.len() == 2 && field[0] == first && field[1] == second;
            proof {
                if yes {
                    assert(field@ =~= word@);
                }
            }
            yes
        },
        None => {
            let yes = field.len() == 1 && field[0] == first;
            proof {
                if yes {
                    assert(field@ =~= word@);
                }
            }
            yes
        },
    }
}

/// What a line states.
#[derive(Clone, Copy, PartialEq, Eq, Structural)]
enum Statement {
    Position,
    Normal,
    Uv,
    Face,
    Other,
}

fn statement(line: &Vec<Vec<char>>) -> (kind: Statement)
    ensures
        ({
            let fields = fields_of(line@);
            &&& kind == Statement::Position <==> fields.len() > 0 && fields[0] == "v"@
            &&& kind == Statement::Normal <==> fields.len() > 0 && fields[0] == "vn"@
            &&& kind == Statement::Uv <==> fields.len() > 0 && fields[0] == "vt"@
            &&& kind == Statement::Face <==> fields.len() > 0 && fields[0] == "f"@
        }),
{
    if line.len() == 0 {
        return Statement::Other;
    }
    proof {
        reveal_strlit("v");
        reveal_strlit("vn");
        reveal_strlit("vt");
        reveal_strlit("f");
        assert("v"@ =~= seq!['v']);
        assert("vn"@ =~= seq!['v', 'n']);
        assert("vt"@ =~= seq!['v', 't']);
        assert("f"@ =~= seq!['f']);
        assert("vn"@[1] != "vt"@[1]);
        assert("v"@[0] != "f"@[0]);
    }
    let word = &line[0];
    assert(fields_of(line@)[0] == word@);
    if is_keyword(word, "v", 'v', None) {
        Statement::Position
    } else if is_keyword(word, "vn", 'v', Some('n')) {
        Statement::Normal
    } else if is_keyword(word, "vt", 'v', Some('t')) {
        Statement::Uv
    } else if is_keyword(word, "f", 'f', None) {
        Statement::Face
    } else {
        Statement::Other
    }
}

/// Reads the fields of a line after its keyword as numbers.
fn read_numbers<T: Copy, N: Fn(&Vec<char>) -> Option<T>>(
    line: &Vec<Vec<char>>,
    number: &N,
) -> (numbers: Vec<Option<T>>)
    requires
        line@.len() > 0,
        forall|field: &Vec<char>| #[trigger] call_requires(number, (field,)),
    ensures
        numbers@.len() == line@.len() - 1,
        forall|i: int|
            0 <= i < numbers@.len() ==> reads_as(
                *number,
                fields_of(line@)[i + 1],
                #[trigger] numbers@[i],
            ),
{
    let mut numbers: Vec<Option<T>> = Vec::new();
    let mut i: usize = 1;
    while i < line.len()
        invariant
            1 <= i <= line@.len(),
            numbers@.len() == i - 1,
            forall|field: &Vec<char>| #[trigger] call_requires(number, (field,)),
            forall|k: int|
                0 <= k < numbers@.len() ==> reads_as(
                    *number,
                    fields_of(line@)[k + 1],
                    #[trigger] numbers@[k],
                ),
        decreases line.len() - i,
    {
        let field = &line[i];
        let answer = number(field);
        proof {
            assert(field@ == fields_of(line@)[i as int]);
            assert(call_ensures(number, (field,), answer));
            assert(reads_as(*number, fields_of(line@)[i as int], answer));
        }
        numbers.push(answer);
        i = i + 1;
    }
    numbers
}

fn read_triple<T: Copy>(numbers: &Vec<Option<T>>, start: usize) -> (values: Option<[T; 3]>)
    requires
        start <= 3,
    ensures
        values == triple(numbers@, start as int),
{
    if start + 3 <= numbers.len() {
        match (numbers[start], numbers[start + 1], numbers[start + 2]) {
            (Some(x), Some(y), Some(z)) => Some([x, y, z]),
            _ => None,
        }
    } else {
        None
    }
}

/// Reads the corners of a face.
fn read_corners(line: &Vec<Vec<char>>) -> (corners: Option<Vec<(i64, i64, i64)>>)
    requires
        line@.len() > 0,
    ensures
        ({
            let fields = fields_of(line@).skip(1);
            match corners {
                Some(corners) => face_corners(fields, fields.len() as int) == Some(corners@),
                None => face_corners(fields, fields.len() as int) is None,
            }
        }),
{
    let ghost fields = fields_of(line@).skip(1);
    let mut corners: Vec<(i64, i64, i64)> = Vec::new();
    let mut k: usize = 0;
    assert(corners@ =~= Seq::empty());
    while k < line.len() - 1
        invariant
            k <= line@.len() - 1,
            line@.len() > 0,
            fields == fields_of(line@).skip(1),
            face_corners(fields, k as int) == Some(corners@),
        decreases line.len() - k,
    {
        assert(fields[k as int] == line@[k + 1]@);
        match parse_corner(&line[k + 1]) {
            Some(corner) => {
                corners.push(corner);
            },
            None => {
                proof {
                    lemma_face_corners_stop(fields, k + 1, fields.len() as int);
                }
                return None;
            },
        }
        k = k + 1;
    }
    Some(corners)
}

proof fn lemma_face_corners_stop(fields: Seq<Seq<char>>, k: int, m: int)
    requires
        k <= m,
        face_corners(fields, k) is None,
    ensures
        face_corners(fields, m) is None,
    decreases m - k,
{
    if k < m {
        lemma_face_corners_stop(fields, k, m - 1);
    }
}

proof fn lemma_with_corners_stop<T>(
    reading: Reading<T>,
    corners: Seq<(i64, i64, i64)>,
    k: int,
    m: int,
)
    requires
        k <= m,
        with_corners(reading, corners, k) is None,
    ensures
        with_corners(reading, corners, m) is None,
    decreases m - k,
{
    if k < m {
        lemma_with_corners_stop(reading, corners, k, m - 1);
    }
}

pub proof fn lemma_face_corners_length(fields: Seq<Seq<char>>, k: int)
    requires
        0 <= k,
        face_corners(fields, k) is Some,
    ensures
        face_corners(fields, k)->Some_0.len() == k,
    decreases k,
{
    if k > 0 {
        lemma_face_corners_length(fields, k - 1);
    }
}

impl<T: Copy> Reader<T> {
    /// Reads a face.
    fn face(&mut self, line: &Vec<Vec<char>>) -> (done: Result<(), &'static str>)
        requires
            old(self).wf(),
            line@.len() > 0,
        ensures
            match done {
                Ok(()) => final(self).wf() && with_face(
                    old(self).reading(),
                    fields_of(line@).skip(1),
                ) == Ok::<_, Seq<char>>(final(self).reading()),
                Err(what) => with_face(old(self).reading(), fields_of(line@).skip(1)) == Err::<
                    Reading<T>,
                    _,
                >(what@),
            },
    {
        let ghost fields = fields_of(line@).skip(1);
        let ghost start = self.reading();
        let corners = match read_corners(line) {
            Some(corners) => corners,
            None => return Err("a face corner needs a vertex index"),
        };
        if corners.len() < 3 {
            return Err("a face needs three corners");
        }
        let mut resolved: Vec<u32> = Vec::new();
        let mut k: usize = 0;
        while k < corners.len()
            invariant
                k <= corners@.len(),
                self.wf(),
                with_corners(start, corners@, k as int) == Some(self.reading()),
                resolved@.len() == k,
                forall|i: int|
                    0 <= i < k ==> #[trigger] resolved@[i] == vertex_of(
                        self.reading(),
                        corners@[i],
                    ) && self.reading().vertices.contains(
                        corner_key(self.reading(), corners@[i]),
                    ),
                face_corners(fields, fields.len() as int) == Some(corners@),
                corners@.len() >= 3,
                start == old(self).reading(),
                fields == fields_of(line@).skip(1),
            decreases corners.len() - k,
        {
            let ghost before = self.reading();
            assert forall|i: int| 0 <= i < k implies #[trigger] resolved@[i] == vertex_of(
                before,
                corners@[i],
            ) by {}
            assert forall|i: int| 0 <= i < k implies before.vertices.contains(
                corner_key(before, #[trigger] corners@[i]),
            ) by {
                assert(resolved@[i] == vertex_of(before, corners@[i]));
            }
            match self.vertex(corners[k]) {
                Some(vertex) => {
                    proof {
                        assert(before.vertices.no_duplicates());
                        assert forall|i: int| 0 <= i < k implies #[trigger] resolved@[i]
                            == vertex_of(self.reading(), corners@[i])
                            && self.reading().vertices.contains(
                            corner_key(self.reading(), corners@[i]),
                        ) by {
                            assert(resolved@[i] == vertex_of(before, corners@[i]));
                            lemma_corner_stays(before, corners@[i], corners@[k as int]);
                        }
                    }
                    resolved.push(vertex);
                },
                None => {
                    proof {
                        lemma_with_corners_stop(
                            start,
                            corners@,
                            k + 1,
                            corners@.len() as int,
                        );
                    }
                    return Err("a face names a vertex that is not there");
                },
            }
            k = k + 1;
        }
        let ghost after = self.reading();
        let ghost polygon = corners@.map_values(|c: (i64, i64, i64)| vertex_of(after, c));
        assert(resolved@ =~= polygon);
        let ghost old_faces = self.mesh.indices@;
        let mut corner: usize = 1;
        assert(fan(polygon).take(0) =~= Seq::empty());
        while corner < resolved.len() - 1
            invariant
                1 <= corner <= resolved@.len() - 1,
                resolved@ == polygon,
                resolved@.len() >= 3,
                self.wf(),
                self.mesh.indices@ == old_faces + fan(polygon).take(corner - 1),
                self.reading() == (Reading {
                    faces: old_faces + fan(polygon).take(corner - 1),
                    ..after
                }),
            decreases resolved.len() - corner,
        {
            self.mesh.indices.push([resolved[0], resolved[corner], resolved[corner + 1]]);
            corner = corner + 1;
            assert(self.mesh.indices@ =~= old_faces + fan(polygon).take(corner - 1));
        }
        assert(fan(polygon).take(corner - 1) =~= fan(polygon));
        Ok(())
    }

    /// Reads a line.
    fn line<N: Fn(&Vec<char>) -> Option<T>, L: Fn(Option<T>) -> T>(
        &mut self,
        line: &Vec<Vec<char>>,
        number: &N,
        flip: &L,
    ) -> (done: (Result<(), &'static str>, Ghost<Answers<T>>))
        requires
            old(self).wf(),
            forall|field: &Vec<char>| #[trigger] call_requires(number, (field,)),
            forall|value: Option<T>| #[trigger] call_requires(flip, (value,)),
        ensures
            is_answered(*number, *flip, fields_of(line@), done.1@),
            match done.0 {
                Ok(()) => final(self).wf() && with_line(
                    old(self).reading(),
                    fields_of(line@),
                    done.1@,
                ) == Ok::<_, Seq<char>>(final(self).reading()),
                Err(what) => with_line(old(self).reading(), fields_of(line@), done.1@) == Err::<
                    Reading<T>,
                    _,
                >(what@),
            },
    {
        let ghost fields = fields_of(line@);
        let kind = statement(line);
        match kind {
            Statement::Face => {
                let done = self.face(line);
                return (
                    done,
                    Ghost(Answers { numbers: Seq::empty(), flipped: arbitrary() }),
                );
            },
            Statement::Other => {
                return (
                    Ok(()),
                    Ghost(Answers { numbers: Seq::empty(), flipped: arbitrary() }),
                );
            },
            _ => {},
        }
        let numbers = read_numbers(line, number);
        let ghost plain = Answers { numbers: numbers@, flipped: arbitrary::<T>() };
        match kind {
            Statement::Position => {
                match read_triple(&numbers, 0) {
                    Some(position) => {
                        self.positions.push(position);
                        self.colours.push(read_triple(&numbers, 3));
                        (Ok(()), Ghost(plain))
                    },
                    None => (Err("a vertex needs three coordinates"), Ghost(plain)),
                }
            },
            Statement::Normal => {
                match read_triple(&numbers, 0) {
                    Some(normal) => {
                        self.normals.push(normal);
                        (Ok(()), Ghost(plain))
                    },
                    None => (Err("a normal needs three components"), Ghost(plain)),
                }
            },
            _ => {
                let v: Option<T> = if numbers.len() > 1 { numbers[1] } else { None };
                let flipped = flip(v);
                let ghost answers = Answers { numbers: numbers@, flipped };
                let u: Option<T> = if numbers.len() > 0 { numbers[0] } else { None };
                match u {
                    Some(u) => {
                        self.uvs.push([u, flipped]);
                        (Ok(()), Ghost(answers))
                    },
                    None => (Err("a texture coordinate needs a u"), Ghost(answers)),
                }
            },
        }
    }
}

proof fn lemma_lines_stop<T>(
    lines: Seq<Seq<Seq<char>>>,
    answers: Seq<Answers<T>>,
    k: int,
    m: int,
)
    requires
        k <= m,
        after_lines(lines, answers, k) is Err,
    ensures
        after_lines(lines, answers, m) == after_lines(lines, answers, k),
    decreases m - k,
{
    if k < m {
        lemma_lines_stop(lines, answers, k, m - 1);
    }
}

/// What the first lines say depends on the answers for those lines only.
proof fn lemma_lines_agree<T>(
    lines: Seq<Seq<Seq<char>>>,
    a: Seq<Answers<T>>,
    b: Seq<Answers<T>>,
    k: int,
)
    requires
        k <= a.len(),
        k <= b.len(),
        forall|i: int| 0 <= i < k ==> #[trigger] a[i] == b[i],
    ensures
        after_lines(lines, a, k) == after_lines(lines, b, k),
    decreases k,
{
    if k > 0 {
        lemma_lines_agree(lines, a, b, k - 1);
    }
}

/// Whether the answers for a file's lines are the caller's, as far as the file
/// was read.
pub open spec fn are_answered<T, N: Fn(&Vec<char>) -> Option<T>, L: Fn(Option<T>) -> T>(
    number: N,
    flip: L,
    lines: Seq<Seq<Seq<char>>>,
    answers: Seq<Answers<T>>,
) -> bool {
    &&& answers.len() == lines.len()
    &&& forall|i: int|
        0 <= i < lines.len() && (i == 0 || after_lines(lines, answers, i) is Ok) ==> is_answered(
            number,
            flip,
            lines[i],
            #[trigger] answers[i],
        )
}

impl<T: Copy> Mesh<T> {
    /// Reads the text of a Wavefront OBJ file. Faces with more than three
    /// corners are fanned into triangles.
    ///
    /// `number` reads a field as a coordinate, and `flip` turns the second
    /// texture coordinate, which an OBJ file counts up from the bottom of the
    /// image and may leave out, into the convention of the mesh.
    pub fn read_obj<N: Fn(&Vec<char>) -> Option<T>, L: Fn(Option<T>) -> T>(
        text: &Vec<char>,
        number: N,
        flip: L,
    ) -> (outcome: Result<Mesh<T>, NetworkError>)
        requires
            forall|field: &Vec<char>| #[trigger] call_requires(number, (field,)),
            forall|value: Option<T>| #[trigger] call_requires(flip, (value,)),
        ensures
            exists|answers: Seq<Answers<T>>| #[trigger]
                are_answered(number, flip, rows(text@), answers) && is_outcome(
                    rows(text@),
                    answers,
                    outcome,
                ),
    {
        let lines = split_rows(text);
        let ghost all = rows(text@);
        let mut reader: Reader<T> = Reader::new();
        let ghost mut answers: Seq<Answers<T>> = Seq::empty();
        let mut k: usize = 0;
        while k < lines.len()
            invariant
                k <= lines@.len(),
                all == rows_of(lines@),
                all == rows(text@),
                reader.wf(),
                answers.len() == k,
                after_lines(all, answers, k as int) == Ok::<_, Fault>(reader.reading()),
                forall|i: int|
                    0 <= i < k ==> is_answered(number, flip, all[i], #[trigger] answers[i]),
                forall|field: &Vec<char>| #[trigger] call_requires(number, (field,)),
                forall|value: Option<T>| #[trigger] call_requires(flip, (value,)),
            decreases lines.len() - k,
        {
            assert(all[k as int] == fields_of(lines@[k as int]@));
            let ghost before = answers;
            let (done, made) = reader.line(&lines[k], &number, &flip);
            proof {
                answers = answers.push(made@);
                lemma_lines_agree(all, before, answers, k as int);
            }
            match done {
                Ok(()) => {},
                Err(what) => {
                    let line_number: u64 = k as u64 + 1;
                    let message = with_number("line ", line_number, ": ");
                    let message = with_text(message.as_str(), what, "");
                    let error = NetworkError::InvalidDataset(message);
                    proof {
                        let padding = Seq::new(
                            (all.len() - k - 1) as nat,
                            |i: int| Answers { numbers: Seq::empty(), flipped: arbitrary::<T>() },
                        );
                        let full = answers + padding;
                        lemma_lines_agree(all, answers, full, k + 1);
                        assert(after_lines(all, full, k + 1) == Err::<Reading<T>, _>(error@));
                        lemma_lines_stop(all, full, k + 1, all.len() as int);
                        assert forall|i: int|
                            0 <= i < all.len() && (i == 0 || after_lines(
                                all,
                                full,
                                i,
                            ) is Ok) implies is_answered(
                            number,
                            flip,
                            all[i],
                            #[trigger] full[i],
                        ) by {
                            if i > k {
                                lemma_lines_stop(all, full, k + 1, i);
                            } else {
                                assert(full[i] == answers[i]);
                            }
                        }
                        assert(are_answered(number, flip, all, full));
                        assert(is_outcome(all, full, Err::<Mesh<T>, _>(error)));
                    }
                    return Err(error);
                },
            }
            k = k + 1;
        }
        assert(are_answered(number, flip, all, answers));
        let mut mesh = reader.mesh;
        if mesh.indices.len() == 0 {
            let error = invalid_dataset("the file has no faces");
            assert(is_outcome(all, answers, Err::<Mesh<T>, _>(error)));
            return Err(error);
        }
        let count: usize = mesh.positions.len();
        if mesh.uvs.len() != count {
            mesh.uvs = Vec::new();
        }
        if mesh.normals.len() != count {
            mesh.normals = Vec::new();
        }
        if mesh.colors.len() != count {
            mesh.colors = Vec::new();
        }
        proof {
            let ghost read = reader.reading();
            assert(in_step(read.vertex_uvs, mesh.uvs@, count as nat));
            assert(in_step(read.vertex_normals, mesh.normals@, count as nat));
            assert(in_step(read.vertex_colors, mesh.colors@, count as nat));
            assert(is_outcome(all, answers, Ok::<_, NetworkError>(mesh)));
        }
        Ok(mesh)
    }
}

} // verus!
