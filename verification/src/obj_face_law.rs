//! What the faces of an OBJ file come to: a polygon is a fan of triangles
//! around its first corner, and every corner is a vertex with just the
//! position, texture coordinate, normal and colour that its line names.
use crate::obj::{
    after_lines, corner_key, face_corners, fan, vertex_of, with_corner, with_corners, with_face,
    with_line, Answers, Key, Meaning, Reading,
};
use vstd::prelude::*;
use vstd::string::*;

verus! {

/// The value an index names: they count from one, and back from the end where
/// they are negative.
pub open spec fn named<A>(list: Seq<A>, index: int) -> Option<A> {
    if 1 <= index <= list.len() {
        Some(list[index - 1])
    } else if -list.len() <= index <= -1 {
        Some(list[list.len() + index])
    } else {
        None
    }
}

/// Whether a vertex is the one that a corner of a face describes. Texture
/// coordinates, normals and colours count where every vertex has one.
pub open spec fn is_corner<T>(
    reading: Reading<T>,
    vertex: u32,
    corner: (i64, i64, i64),
) -> bool {
    let (count, v) = (reading.vertex_positions.len(), vertex as int);
    &&& v < count
    &&& named(reading.positions, corner.0 as int) == Some(reading.vertex_positions[v])
    &&& reading.vertex_uvs.len() == count ==> named(reading.uvs, corner.1 as int) == Some(
        reading.vertex_uvs[v],
    )
    &&& reading.vertex_normals.len() == count ==> named(reading.normals, corner.2 as int) == Some(
        reading.vertex_normals[v],
    )
    &&& reading.vertex_colors.len() == count ==> named(reading.colours, corner.0 as int) == Some(
        Some(reading.vertex_colors[v]),
    )
}

// -- Vertices keep what they were given --------------------------------------

/// The value that a meaning stands for.
spec fn meant<A>(list: Seq<A>, meaning: Meaning) -> Option<A> {
    match meaning {
        Meaning::Stated(index) => if 1 <= index <= list.len() {
            Some(list[index - 1])
        } else {
            None
        },
        Meaning::Placed(at) => if at < list.len() {
            Some(list[at as int])
        } else {
            None
        },
    }
}

/// Whether a list holds what each vertex means, where it holds something for
/// every vertex.
spec fn is_told<A>(list: Seq<A>, held: Seq<A>, meanings: Seq<Meaning>) -> bool {
    &&& held.len() <= meanings.len()
    &&& held.len() == meanings.len() ==> forall|v: int|
        0 <= v < meanings.len() ==> #[trigger] meant(list, meanings[v]) == Some(held[v])
}

spec fn is_told_some<A>(list: Seq<Option<A>>, held: Seq<A>, meanings: Seq<Meaning>) -> bool {
    &&& held.len() <= meanings.len()
    &&& held.len() == meanings.len() ==> forall|v: int|
        0 <= v < meanings.len() ==> #[trigger] meant(list, meanings[v]) == Some(Some(held[v]))
}

spec fn firsts(keys: Seq<Key>) -> Seq<Meaning> {
    keys.map_values(|k: Key| k.0)
}

spec fn seconds(keys: Seq<Key>) -> Seq<Meaning> {
    keys.map_values(|k: Key| k.1)
}

spec fn thirds(keys: Seq<Key>) -> Seq<Meaning> {
    keys.map_values(|k: Key| k.2)
}

/// Whether every vertex has what its key means.
spec fn is_kept<T>(reading: Reading<T>) -> bool {
    &&& reading.positions.len() <= usize::MAX
    &&& reading.uvs.len() <= usize::MAX
    &&& reading.normals.len() <= usize::MAX
    &&& reading.colours.len() == reading.positions.len()
    &&& reading.vertices.no_duplicates()
    &&& reading.vertex_positions.len() == reading.vertices.len()
    &&& is_told(reading.positions, reading.vertex_positions, firsts(reading.vertices))
    &&& is_told(reading.uvs, reading.vertex_uvs, seconds(reading.vertices))
    &&& is_told(reading.normals, reading.vertex_normals, thirds(reading.vertices))
    &&& is_told_some(reading.colours, reading.vertex_colors, firsts(reading.vertices))
}

proof fn lemma_longer<A>(list: Seq<A>, more: A, held: Seq<A>, meanings: Seq<Meaning>)
    requires
        is_told(list, held, meanings),
    ensures
        is_told(list.push(more), held, meanings),
{
    if held.len() == meanings.len() {
        assert forall|v: int| 0 <= v < meanings.len() implies #[trigger] meant(
            list.push(more),
            meanings[v],
        ) == Some(held[v]) by {
            assert(meant(list, meanings[v]) == Some(held[v]));
        }
    }
}

proof fn lemma_longer_some<A>(
    list: Seq<Option<A>>,
    more: Option<A>,
    held: Seq<A>,
    meanings: Seq<Meaning>,
)
    requires
        is_told_some(list, held, meanings),
    ensures
        is_told_some(list.push(more), held, meanings),
{
    if held.len() == meanings.len() {
        assert forall|v: int| 0 <= v < meanings.len() implies #[trigger] meant(
            list.push(more),
            meanings[v],
        ) == Some(Some(held[v])) by {
            assert(meant(list, meanings[v]) == Some(Some(held[v])));
        }
    }
}

proof fn lemma_one_more<A>(list: Seq<A>, held: Seq<A>, meanings: Seq<Meaning>, meaning: Meaning)
    requires
        is_told(list, held, meanings),
    ensures
        is_told(
            list,
            match meant(list, meaning) {
                Some(value) => held.push(value),
                None => held,
            },
            meanings.push(meaning),
        ),
{
    if held.len() == meanings.len() && meant(list, meaning) is Some {
        let after = held.push(meant(list, meaning)->Some_0);
        let all = meanings.push(meaning);
        assert forall|v: int| 0 <= v < all.len() implies #[trigger] meant(list, all[v]) == Some(
            after[v],
        ) by {
            if v < meanings.len() {
                assert(meant(list, meanings[v]) == Some(held[v]));
            }
        }
    }
}

proof fn lemma_one_more_some<A>(
    list: Seq<Option<A>>,
    held: Seq<A>,
    meanings: Seq<Meaning>,
    meaning: Meaning,
)
    requires
        is_told_some(list, held, meanings),
    ensures
        is_told_some(
            list,
            match meant(list, meaning) {
                Some(Some(value)) => held.push(value),
                _ => held,
            },
            meanings.push(meaning),
        ),
{
    if held.len() == meanings.len() && meant(list, meaning) is Some && meant(
        list,
        meaning,
    )->Some_0 is Some {
        let after = held.push(meant(list, meaning)->Some_0->Some_0);
        let all = meanings.push(meaning);
        assert forall|v: int| 0 <= v < all.len() implies #[trigger] meant(list, all[v]) == Some(
            Some(after[v]),
        ) by {
            if v < meanings.len() {
                assert(meant(list, meanings[v]) == Some(Some(held[v])));
            }
        }
    }
}

proof fn lemma_corner_kept<T>(reading: Reading<T>, c: (i64, i64, i64))
    requires
        is_kept(reading),
        with_corner(reading, c) is Some,
    ensures
        ({
            let after = with_corner(reading, c)->Some_0;
            &&& is_kept(after)
            &&& after.positions == reading.positions
            &&& after.uvs == reading.uvs
            &&& after.normals == reading.normals
            &&& after.colours == reading.colours
            &&& after.faces == reading.faces
            &&& after.vertices.contains(corner_key(reading, c))
            &&& reading.vertices.len() <= after.vertices.len()
            &&& forall|i: int|
                0 <= i < reading.vertices.len() ==> #[trigger] after.vertices[i]
                    == reading.vertices[i]
        }),
{
    let after = with_corner(reading, c)->Some_0;
    let key = corner_key(reading, c);
    if !reading.vertices.contains(key) {
        assert(after.vertices == reading.vertices.push(key));
        assert(after.vertices[reading.vertices.len() as int] == key);
        assert(firsts(after.vertices) =~= firsts(reading.vertices).push(key.0));
        assert(seconds(after.vertices) =~= seconds(reading.vertices).push(key.1));
        assert(thirds(after.vertices) =~= thirds(reading.vertices).push(key.2));
        lemma_one_more(
            reading.positions,
            reading.vertex_positions,
            firsts(reading.vertices),
            key.0,
        );
        lemma_one_more(reading.uvs, reading.vertex_uvs, seconds(reading.vertices), key.1);
        lemma_one_more(reading.normals, reading.vertex_normals, thirds(reading.vertices), key.2);
        lemma_one_more_some(
            reading.colours,
            reading.vertex_colors,
            firsts(reading.vertices),
            key.0,
        );
        assert(after.vertices.no_duplicates()) by {
            assert forall|i: int, j: int|
                0 <= i < after.vertices.len() && 0 <= j < after.vertices.len() && i
                    != j implies after.vertices[i] != after.vertices[j] by {
                if i < reading.vertices.len() {
                    assert(reading.vertices.contains(reading.vertices[i]));
                }
                if j < reading.vertices.len() {
                    assert(reading.vertices.contains(reading.vertices[j]));
                }
            }
        }
    }
}

proof fn lemma_corners_kept<T>(reading: Reading<T>, corners: Seq<(i64, i64, i64)>, k: int)
    requires
        is_kept(reading),
        0 <= k <= corners.len(),
        with_corners(reading, corners, k) is Some,
    ensures
        ({
            let after = with_corners(reading, corners, k)->Some_0;
            &&& is_kept(after)
            &&& after.positions == reading.positions
            &&& after.uvs == reading.uvs
            &&& after.normals == reading.normals
            &&& after.colours == reading.colours
            &&& after.faces == reading.faces
            &&& forall|i: int|
                0 <= i < k ==> after.vertices.contains(corner_key(reading, #[trigger] corners[i]))
        }),
    decreases k,
{
    if k > 0 {
        lemma_corners_kept(reading, corners, k - 1);
        let before = with_corners(reading, corners, k - 1)->Some_0;
        let after = with_corners(reading, corners, k)->Some_0;
        lemma_corner_kept(before, corners[k - 1]);
        assert forall|i: int| 0 <= i < k implies after.vertices.contains(
            corner_key(reading, #[trigger] corners[i]),
        ) by {
            let key = corner_key(reading, corners[i]);
            if i < k - 1 {
                assert(before.vertices.contains(key));
                let j = choose|j: int| 0 <= j < before.vertices.len() && before.vertices[j] == key;
                assert(after.vertices[j] == key);
            } else {
                assert(corner_key(before, corners[i]) == key);
            }
        }
    }
}

/// A vertex that a corner has become is the corner's, and tells it apart from
/// the other corners of its face.
proof fn lemma_is_corner<T>(reading: Reading<T>, c: (i64, i64, i64))
    requires
        is_kept(reading),
        reading.vertices.contains(corner_key(reading, c)),
        reading.vertices.len() <= 0x1_0000_0000,
    ensures
        is_corner(reading, vertex_of(reading, c), c),
        reading.vertices[vertex_of(reading, c) as int] == corner_key(reading, c),
{
    let key = corner_key(reading, c);
    let v = reading.vertices.index_of(key);
    assert(0 <= v < reading.vertices.len() && reading.vertices[v] == key);
    assert(vertex_of(reading, c) as int == v);
    assert(firsts(reading.vertices)[v] == key.0);
    assert(seconds(reading.vertices)[v] == key.1);
    assert(thirds(reading.vertices)[v] == key.2);
    assert(meant(reading.positions, firsts(reading.vertices)[v]) == Some(
        reading.vertex_positions[v],
    ));
    if reading.vertex_uvs.len() == reading.vertices.len() {
        assert(meant(reading.uvs, seconds(reading.vertices)[v]) == Some(reading.vertex_uvs[v]));
    }
    if reading.vertex_normals.len() == reading.vertices.len() {
        assert(meant(reading.normals, thirds(reading.vertices)[v]) == Some(
            reading.vertex_normals[v],
        ));
    }
    if reading.vertex_colors.len() == reading.vertices.len() {
        assert(meant(reading.colours, firsts(reading.vertices)[v]) == Some(
            Some(reading.vertex_colors[v]),
        ));
    }
}

/// Whether a line states a face.
pub open spec fn is_face_line(line: Seq<Seq<char>>) -> bool {
    line.len() > 0 && line[0] == "f"@
}

proof fn lemma_face_line<T>(reading: Reading<T>, line: Seq<Seq<char>>, answers: Answers<T>)
    requires
        is_face_line(line),
    ensures
        with_line(reading, line, answers) == with_face(reading, line.skip(1)),
{
    reveal_strlit("f");
    reveal_strlit("v");
    reveal_strlit("vn");
    reveal_strlit("vt");
    assert("v"@[0] != "f"@[0]);
}

proof fn lemma_kept<T>(lines: Seq<Seq<Seq<char>>>, answers: Seq<Answers<T>>, k: int)
    requires
        k <= usize::MAX,
        after_lines(lines, answers, k) is Ok,
    ensures
        is_kept(after_lines(lines, answers, k)->Ok_0),
        k >= 0 ==> after_lines(lines, answers, k)->Ok_0.positions.len() <= k,
        k >= 0 ==> after_lines(lines, answers, k)->Ok_0.uvs.len() <= k,
        k >= 0 ==> after_lines(lines, answers, k)->Ok_0.normals.len() <= k,
    decreases k,
{
    if k > 0 {
        lemma_kept(lines, answers, k - 1);
        let before = after_lines(lines, answers, k - 1)->Ok_0;
        let after = after_lines(lines, answers, k)->Ok_0;
        let line = lines[k - 1];
        if is_face_line(line) {
            lemma_face_line(before, line, answers[k - 1]);
            let corners = face_corners(line.skip(1), line.len() - 1)->Some_0;
            lemma_corners_kept(before, corners, corners.len() as int);
        } else if after.positions.len() > before.positions.len() {
            lemma_longer(
                before.positions,
                after.positions.last(),
                before.vertex_positions,
                firsts(before.vertices),
            );
            lemma_longer_some(
                before.colours,
                after.colours.last(),
                before.vertex_colors,
                firsts(before.vertices),
            );
        } else if after.uvs.len() > before.uvs.len() {
            lemma_longer(
                before.uvs,
                after.uvs.last(),
                before.vertex_uvs,
                seconds(before.vertices),
            );
        } else if after.normals.len() > before.normals.len() {
            lemma_longer(
                before.normals,
                after.normals.last(),
                before.vertex_normals,
                thirds(before.vertices),
            );
        }
    }
}

/// What a face line adds to a file: a fan. Of a polygon's corners the first is
/// the first of every triangle, and each triangle goes on with the next two, so
/// that neighbours share the side between them and the polygon is covered once.
/// Every corner of a triangle is a vertex with the position, texture
/// coordinate, normal and colour that the polygon's corner names; two corners
/// are one vertex just where they name the same three indices. The faces
/// before stay what they were.
pub proof fn law_polygon_is_a_fan<T>(lines: Seq<Seq<Seq<char>>>, answers: Seq<Answers<T>>, k: int)
    requires
        0 < k <= usize::MAX,
        is_face_line(lines[k - 1]),
        after_lines(lines, answers, k) is Ok,
        after_lines(lines, answers, k)->Ok_0.vertex_positions.len() <= 0x1_0000_0000,
    ensures
        ({
            let before = after_lines(lines, answers, k - 1)->Ok_0;
            let after = after_lines(lines, answers, k)->Ok_0;
            let fields = lines[k - 1].skip(1);
            let corners = face_corners(fields, fields.len() as int)->Some_0;
            let n = before.faces.len() as int;
            &&& face_corners(fields, fields.len() as int) is Some
            &&& corners.len() == fields.len()
            &&& after.faces.len() == n + corners.len() - 2
            &&& forall|f: int| 0 <= f < n ==> #[trigger] after.faces[f] == before.faces[f]
            &&& forall|f: int|
                n <= f < after.faces.len() ==> {
                    let face = #[trigger] after.faces[f];
                    &&& is_corner(after, face[0], corners[0])
                    &&& is_corner(after, face[1], corners[f - n + 1])
                    &&& is_corner(after, face[2], corners[f - n + 2])
                    &&& face[0] == after.faces[n][0]
                    &&& f > n ==> face[1] == after.faces[f - 1][2]
                    &&& face[0] == face[1] <==> corners[0] == corners[f - n + 1]
                    &&& face[1] == face[2] <==> corners[f - n + 1] == corners[f - n + 2]
                    &&& face[0] == face[2] <==> corners[0] == corners[f - n + 2]
                }
        }),
{
    lemma_kept(lines, answers, k - 1);
    lemma_kept(lines, answers, k);
    let before = after_lines(lines, answers, k - 1)->Ok_0;
    let after = after_lines(lines, answers, k)->Ok_0;
    let fields = lines[k - 1].skip(1);
    lemma_face_line(before, lines[k - 1], answers[k - 1]);
    let corners = face_corners(fields, fields.len() as int)->Some_0;
    lemma_corner_count(fields, fields.len() as int);
    lemma_corners_kept(before, corners, corners.len() as int);
    let met = with_corners(before, corners, corners.len() as int)->Some_0;
    let polygon = corners.map_values(|c: (i64, i64, i64)| vertex_of(met, c));
    let n = before.faces.len() as int;
    assert(after.faces =~= before.faces + fan(polygon));
    assert forall|i: int| 0 <= i < corners.len() implies is_corner(
        after,
        polygon[i],
        #[trigger] corners[i],
    ) && after.vertices[polygon[i] as int] == corner_key(before, corners[i]) by {
        assert(corner_key(met, corners[i]) == corner_key(before, corners[i]));
        assert(met.vertices.contains(corner_key(before, corners[i])));
        lemma_is_corner(met, corners[i]);
        assert(polygon[i] == vertex_of(met, corners[i]));
        assert(is_corner(met, polygon[i], corners[i]));
    }
    assert forall|i: int, j: int|
        0 <= i < corners.len() && 0 <= j < corners.len() implies (#[trigger] polygon[i]
        == #[trigger] polygon[j]) == (corners[i] == corners[j]) by {
        if polygon[i] == polygon[j] {
            assert(corner_key(before, corners[i]) == corner_key(before, corners[j]));
            lemma_key_tells(before, corners[i], corners[j]);
        }
    }
    assert forall|f: int| n <= f < after.faces.len() implies {
        let face = #[trigger] after.faces[f];
        &&& is_corner(after, face[0], corners[0])
        &&& is_corner(after, face[1], corners[f - n + 1])
        &&& is_corner(after, face[2], corners[f - n + 2])
        &&& face[0] == after.faces[n][0]
        &&& f > n ==> face[1] == after.faces[f - 1][2]
        &&& face[0] == face[1] <==> corners[0] == corners[f - n + 1]
        &&& face[1] == face[2] <==> corners[f - n + 1] == corners[f - n + 2]
        &&& face[0] == face[2] <==> corners[0] == corners[f - n + 2]
    } by {
        let i = f - n;
        assert(after.faces[f] == fan(polygon)[i]);
        assert(after.faces[n] == fan(polygon)[0]);
        if f > n {
            assert(after.faces[f - 1] == fan(polygon)[i - 1]);
        }
        assert(fan(polygon)[i] == [polygon[0], polygon[i + 1], polygon[i + 2]]);
        assert(is_corner(after, polygon[0], corners[0]));
        assert(is_corner(after, polygon[i + 1], corners[i + 1]));
        assert(is_corner(after, polygon[i + 2], corners[i + 2]));
    }
}

proof fn lemma_corner_count(fields: Seq<Seq<char>>, k: int)
    requires
        0 <= k <= fields.len(),
        face_corners(fields, k) is Some,
    ensures
        face_corners(fields, k)->Some_0.len() == k,
    decreases k,
{
    if k > 0 {
        lemma_corner_count(fields, k - 1);
    }
}

/// Two corners of one face with one key name the same indices.
proof fn lemma_key_tells<T>(reading: Reading<T>, c: (i64, i64, i64), d: (i64, i64, i64))
    requires
        reading.positions.len() <= usize::MAX,
        reading.uvs.len() <= usize::MAX,
        reading.normals.len() <= usize::MAX,
        corner_key(reading, c) == corner_key(reading, d),
    ensures
        c == d,
{
}

} // verus!
