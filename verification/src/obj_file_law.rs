//! An OBJ file that was written is read back as the same surface.
use crate::error::NetworkError;
use crate::fields::{is_white, rows, split, Split};
use crate::mesh::Mesh;
use crate::obj::{
    after_lines, are_answered, blank, corner_key, face_corners, fan, is_answered, is_numeric,
    is_outcome, picked, picked_some, reads_as, triple, vertex_of, with_corner, with_corners,
    with_face, with_line, Answers, Key, Meaning, Reading,
};
use crate::obj_law::{law_corner_round_trip, written_corner, written_face};
use crate::obj_write::{are_lines, is_vector_line, joined};
use crate::text::decimal;
use vstd::prelude::*;

verus! {

// -- Lines and their words -----------------------------------------------------

/// Whether a text is one field: there is something in it, and no white space.
pub open spec fn is_word(text: Seq<char>) -> bool {
    text.len() > 0 && forall|i: int| 0 <= i < text.len() ==> !is_white(#[trigger] text[i])
}

/// Four words in one line.
pub open spec fn worded(words: Seq<Seq<char>>) -> Seq<char> {
    words[0] + " "@ + words[1] + " "@ + words[2] + " "@ + words[3]
}

/// Whether a line is four words.
pub open spec fn is_worded(line: Seq<char>, words: Seq<Seq<char>>) -> bool {
    &&& words.len() == 4
    &&& forall|i: int| 0 <= i < 4 ==> is_word(#[trigger] words[i])
    &&& line == worded(words)
}

proof fn lemma_split_word(text: Seq<char>, k: int, word: Seq<char>, m: int)
    requires
        0 <= k,
        0 <= m <= word.len(),
        k + word.len() <= text.len(),
        is_word(word),
        text.subrange(k, k + word.len()) == word,
    ensures
        split(text, k + m) == (Split {
            field: split(text, k).field + word.take(m),
            ..split(text, k)
        }),
    decreases m,
{
    if m > 0 {
        lemma_split_word(text, k, word, m - 1);
        assert(text[k + m - 1] == text.subrange(k, k + word.len())[m - 1]);
        assert(!is_white(word[m - 1]));
        assert(is_white('\n'));
        assert(word.take(m) =~= word.take(m - 1).push(word[m - 1]));
        assert(split(text, k).field + word.take(m) =~= (split(text, k).field + word.take(
            m - 1,
        )).push(word[m - 1]));
    } else {
        assert(split(text, k).field + word.take(0) =~= split(text, k).field);
    }
}

/// One word, and the white space behind it.
proof fn lemma_split_field(text: Seq<char>, k: int, word: Seq<char>)
    requires
        0 <= k,
        k + word.len() < text.len(),
        is_word(word),
        text.subrange(k, k + word.len()) == word,
        split(text, k).field.len() == 0,
    ensures
        text[k + word.len()] == ' ' ==> split(text, k + word.len() + 1) == (Split {
            fields: split(text, k).fields.push(word),
            field: Seq::empty(),
            rows: split(text, k).rows,
        }),
        text[k + word.len()] == '\n' ==> split(text, k + word.len() + 1) == (Split {
            rows: split(text, k).rows.push(split(text, k).fields.push(word)),
            fields: Seq::empty(),
            field: Seq::empty(),
        }),
{
    lemma_split_word(text, k, word, word.len() as int);
    assert(split(text, k).field + word.take(word.len() as int) =~= word);
    assert(is_white(' '));
}

/// A whole line of four words, from its first character to its end.
proof fn lemma_split_line(text: Seq<char>, k: int, line: Seq<char>, words: Seq<Seq<char>>)
    requires
        0 <= k,
        k + line.len() < text.len(),
        is_worded(line, words),
        text.subrange(k, k + line.len()) == line,
        text[k + line.len()] == '\n',
        split(text, k).fields.len() == 0,
        split(text, k).field.len() == 0,
    ensures
        split(text, k + line.len() + 1) == (Split {
            rows: split(text, k).rows.push(words),
            fields: Seq::empty(),
            field: Seq::empty(),
        }),
{
    reveal_strlit(" ");
    let (a, b, c, d) = (words[0], words[1], words[2], words[3]);
    assert(is_word(a) && is_word(b) && is_word(c) && is_word(d));
    let (i, j, l) = (
        k + a.len() + 1,
        k + a.len() + 1 + b.len() + 1,
        k + a.len() + 1 + b.len() + 1 + c.len() + 1,
    );
    assert(line.len() == a.len() + b.len() + c.len() + d.len() + 3);
    assert forall|n: int| 0 <= n < line.len() implies #[trigger] text[k + n] == line[n] by {
        assert(text.subrange(k, k + line.len())[n] == text[k + n]);
    }
    assert(text.subrange(k, k + a.len()) =~= a) by {
        assert forall|n: int| 0 <= n < a.len() implies text[k + n] == a[n] by {
            assert(line[n] == a[n]);
        }
    }
    assert(text[k + a.len()] == ' ') by {
        assert(text[k + a.len()] == line[a.len() as int]);
    }
    assert(text.subrange(i, i + b.len()) =~= b) by {
        assert forall|n: int| 0 <= n < b.len() implies text[i + n] == b[n] by {
            assert(text[k + (a.len() + 1 + n)] == line[a.len() + 1 + n]);
            assert(line[a.len() + 1 + n] == b[n]);
        }
    }
    assert(text[i + b.len()] == ' ') by {
        let at = a.len() + 1 + b.len();
        assert(text[k + at] == line[at as int]);
    }
    assert(text.subrange(j, j + c.len()) =~= c) by {
        assert forall|n: int| 0 <= n < c.len() implies text[j + n] == c[n] by {
            let at = a.len() + 1 + b.len() + 1 + n;
            assert(text[k + at] == line[at]);
            assert(line[at] == c[n]);
        }
    }
    assert(text[j + c.len()] == ' ') by {
        let at = a.len() + 1 + b.len() + 1 + c.len();
        assert(text[k + at] == line[at as int]);
    }
    assert(text.subrange(l, l + d.len()) =~= d) by {
        assert forall|n: int| 0 <= n < d.len() implies text[l + n] == d[n] by {
            let at = a.len() + 1 + b.len() + 1 + c.len() + 1 + n;
            assert(text[k + at] == line[at]);
            assert(line[at] == d[n]);
        }
    }
    lemma_split_field(text, k, a);
    lemma_split_field(text, i, b);
    lemma_split_field(text, j, c);
    lemma_split_field(text, l, d);
    assert(split(text, l).fields.push(d) =~= words);
}

/// Whether every line is four words.
pub open spec fn are_worded(lines: Seq<Seq<char>>, words: Seq<Seq<Seq<char>>>) -> bool {
    &&& words.len() == lines.len()
    &&& forall|i: int| 0 <= i < lines.len() ==> is_worded(lines[i], #[trigger] words[i])
}

proof fn lemma_joined_prefix(lines: Seq<Seq<char>>, k: int, m: int)
    requires
        0 <= k <= m,
    ensures
        joined(lines, k).len() <= joined(lines, m).len(),
        joined(lines, m).take(joined(lines, k).len() as int) == joined(lines, k),
    decreases m - k,
{
    if k < m {
        lemma_joined_prefix(lines, k, m - 1);
        let (short, long) = (joined(lines, k), joined(lines, m));
        let middle = joined(lines, m - 1);
        assert(long.take(short.len() as int) =~= middle.take(short.len() as int));
    } else {
        assert(joined(lines, m).take(joined(lines, k).len() as int) =~= joined(lines, k));
    }
}

proof fn lemma_split_joined(lines: Seq<Seq<char>>, words: Seq<Seq<Seq<char>>>, n: int, k: int)
    requires
        are_worded(lines, words),
        0 <= k <= n <= lines.len(),
    ensures
        split(joined(lines, n), joined(lines, k).len() as int) == (Split {
            rows: words.take(k),
            fields: Seq::empty(),
            field: Seq::empty(),
        }),
    decreases k,
{
    let text = joined(lines, n);
    if k > 0 {
        lemma_split_joined(lines, words, n, k - 1);
        lemma_joined_prefix(lines, k, n);
        reveal_strlit("\n");
        let (line, at) = (lines[k - 1], joined(lines, k - 1).len() as int);
        let part = joined(lines, k);
        assert(part == text.take(part.len() as int));
        assert(part.len() == at + line.len() + 1);
        assert(text.subrange(at, at + line.len()) =~= line) by {
            assert forall|i: int| 0 <= i < line.len() implies text[at + i] == line[i] by {
                assert(text[at + i] == part[at + i]);
            }
        }
        assert(text[at + line.len()] == part[at + line.len()]);
        assert(is_worded(lines[k - 1], words[k - 1]));
        lemma_split_line(text, at, line, words[k - 1]);
        assert(words.take(k) =~= words.take(k - 1).push(words[k - 1]));
    } else {
        assert(words.take(0) =~= Seq::empty());
    }
}

proof fn lemma_rows_joined(lines: Seq<Seq<char>>, words: Seq<Seq<Seq<char>>>)
    requires
        are_worded(lines, words),
    ensures
        rows(joined(lines, lines.len() as int)) == words.push(Seq::empty()),
{
    let n = lines.len() as int;
    lemma_split_joined(lines, words, n, n);
    assert(words.take(n) =~= words);
}

// -- What is written -----------------------------------------------------------

/// Whether a number survives being shown: what shows it is one field, and that
/// field is read as the number.
pub open spec fn survives<T, F: Fn(T) -> String, N: Fn(&Vec<char>) -> Option<T>>(
    show: F,
    number: N,
) -> bool {
    &&& forall|value: T, text: String| #[trigger]
        call_ensures(show, (value,), text) ==> is_word(text@)
    &&& forall|value: T, text: String, field: &Vec<char>, answer: Option<T>|
        #[trigger] call_ensures(show, (value,), text) && #[trigger] call_ensures(
            number,
            (field,),
            answer,
        ) && field@ == text@ ==> answer == Some(value)
}

/// Whether three words behind a name are read as a vector.
pub open spec fn says_vector<T, N: Fn(&Vec<char>) -> Option<T>>(
    number: N,
    words: Seq<Seq<char>>,
    name: Seq<char>,
    vector: [T; 3],
) -> bool {
    &&& words.len() == 4
    &&& words[0] == name
    &&& forall|answer: Option<T>| #[trigger]
        reads_as(number, words[1], answer) ==> answer == Some(vector[0])
    &&& forall|answer: Option<T>| #[trigger]
        reads_as(number, words[2], answer) ==> answer == Some(vector[1])
    &&& forall|answer: Option<T>| #[trigger]
        reads_as(number, words[3], answer) ==> answer == Some(vector[2])
}

proof fn lemma_shown<T, F: Fn(T) -> String, N: Fn(&Vec<char>) -> Option<T>>(
    show: F,
    number: N,
    value: T,
    text: String,
    answer: Option<T>,
)
    requires
        survives(show, number),
        call_ensures(show, (value,), text),
        reads_as(number, text@, answer),
    ensures
        answer == Some(value),
{
    let field = choose|field: &Vec<char>|
        field@ == text@ && #[trigger] call_ensures(number, (field,), answer);
    assert(call_ensures(show, (value,), text) && call_ensures(number, (field,), answer));
}

proof fn lemma_vector_line<T, F: Fn(T) -> String, N: Fn(&Vec<char>) -> Option<T>>(
    show: F,
    number: N,
    name: Seq<char>,
    vector: [T; 3],
    line: Seq<char>,
) -> (words: Seq<Seq<char>>)
    requires
        survives(show, number),
        is_word(name),
        is_vector_line(show, name, vector, line),
    ensures
        is_worded(line, words),
        says_vector(number, words, name, vector),
{
    let (x, y, z) = choose|x: String, y: String, z: String|
        {
            &&& #[trigger] call_ensures(show, (vector[0],), x)
            &&& #[trigger] call_ensures(show, (vector[1],), y)
            &&& #[trigger] call_ensures(show, (vector[2],), z)
            &&& line == name + " "@ + x@ + " "@ + y@ + " "@ + z@
        };
    let words = seq![name, x@, y@, z@];
    assert forall|answer: Option<T>| #[trigger] reads_as(number, words[1], answer) implies answer
        == Some(vector[0]) by {
        lemma_shown(show, number, vector[0], x, answer);
    }
    assert forall|answer: Option<T>| #[trigger] reads_as(number, words[2], answer) implies answer
        == Some(vector[1]) by {
        lemma_shown(show, number, vector[1], y, answer);
    }
    assert forall|answer: Option<T>| #[trigger] reads_as(number, words[3], answer) implies answer
        == Some(vector[2]) by {
        lemma_shown(show, number, vector[2], z, answer);
    }
    words
}

/// The words of a written face.
pub open spec fn face_words(face: [u32; 3], normals: bool) -> Seq<Seq<char>> {
    seq![
        "f"@,
        written_corner(face[0], normals),
        written_corner(face[1], normals),
        written_corner(face[2], normals),
    ]
}

proof fn lemma_corner_word(vertex: u32, normals: bool)
    ensures
        is_word(written_corner(vertex, normals)),
{
    let number = decimal((vertex + 1) as nat);
    let text = written_corner(vertex, normals);
    lemma_decimal_word((vertex + 1) as nat);
    reveal_strlit("//");
    assert forall|i: int| 0 <= i < text.len() implies !is_white(#[trigger] text[i]) by {
        if i < number.len() {
            assert(text[i] == number[i]);
        } else if i >= number.len() + 2 {
            assert(text[i] == number[i - number.len() - 2]);
        } else {
            assert(text[i] == '/');
        }
    }
}

proof fn lemma_decimal_word(n: nat)
    ensures
        is_word(decimal(n)),
    decreases n,
{
    if n >= 10 {
        lemma_decimal_word(n / 10);
        let (before, now) = (decimal(n / 10), decimal(n));
        assert forall|i: int| 0 <= i < now.len() implies !is_white(#[trigger] now[i]) by {
            if i < before.len() {
                assert(now[i] == before[i]);
            }
        }
    }
}

proof fn lemma_face_line(face: [u32; 3], normals: bool)
    ensures
        is_worded(written_face(face, normals), face_words(face, normals)),
{
    reveal_strlit("f ");
    reveal_strlit("f");
    reveal_strlit(" ");
    lemma_corner_word(face[0], normals);
    lemma_corner_word(face[1], normals);
    lemma_corner_word(face[2], normals);
    let words = face_words(face, normals);
    assert forall|i: int| 0 <= i < 4 implies is_word(#[trigger] words[i]) by {}
    assert(written_face(face, normals) =~= worded(words));
}

/// Whether the words of a file's lines are those of a mesh.
pub open spec fn says_mesh<T, N: Fn(&Vec<char>) -> Option<T>>(
    number: N,
    mesh: Mesh<T>,
    words: Seq<Seq<Seq<char>>>,
) -> bool {
    let (p, n, f) = (mesh.positions@.len(), mesh.normals@.len(), mesh.indices@.len());
    &&& words.len() == p + n + f
    &&& forall|i: int|
        0 <= i < p ==> says_vector(number, #[trigger] words[i], "v"@, mesh.positions@[i])
    &&& forall|i: int|
        p <= i < p + n ==> says_vector(
            number,
            #[trigger] words[i],
            "vn"@,
            mesh.normals@[i - p],
        )
    &&& forall|i: int|
        p + n <= i < p + n + f ==> #[trigger] words[i] == face_words(
            mesh.indices@[i - p - n],
            n > 0,
        )
}

/// The words of the first `k` lines of a file.
proof fn lemma_words<T, F: Fn(T) -> String, N: Fn(&Vec<char>) -> Option<T>>(
    show: F,
    number: N,
    mesh: Mesh<T>,
    lines: Seq<Seq<char>>,
    k: int,
) -> (words: Seq<Seq<Seq<char>>>)
    requires
        survives(show, number),
        are_lines(mesh, show, lines),
        0 <= k <= lines.len(),
    ensures
        are_worded(lines.take(k), words),
        ({
            let (p, n, f) = (mesh.positions@.len(), mesh.normals@.len(), mesh.indices@.len());
            &&& forall|i: int|
                0 <= i < p && i < k ==> says_vector(
                    number,
                    #[trigger] words[i],
                    "v"@,
                    mesh.positions@[i],
                )
            &&& forall|i: int|
                p <= i < p + n && i < k ==> says_vector(
                    number,
                    #[trigger] words[i],
                    "vn"@,
                    mesh.normals@[i - p],
                )
            &&& forall|i: int|
                p + n <= i < k ==> #[trigger] words[i] == face_words(
                    mesh.indices@[i - p - n],
                    n > 0,
                )
        }),
    decreases k,
{
    if k == 0 {
        return Seq::empty();
    }
    let before = lemma_words(show, number, mesh, lines, k - 1);
    let (p, n) = (mesh.positions@.len() as int, mesh.normals@.len() as int);
    let line = lines[k - 1];
    reveal_strlit("v");
    reveal_strlit("vn");
    let next = if k - 1 < p {
        assert(is_vector_line(show, "v"@, mesh.positions@[k - 1], lines[k - 1]));
        lemma_vector_line(show, number, "v"@, mesh.positions@[k - 1], line)
    } else if k - 1 < p + n {
        assert(is_vector_line(show, "vn"@, mesh.normals@[k - 1 - p], lines[k - 1]));
        lemma_vector_line(show, number, "vn"@, mesh.normals@[k - 1 - p], line)
    } else {
        assert(lines[k - 1] == written_face(mesh.indices@[k - 1 - p - n], n > 0));
        lemma_face_line(mesh.indices@[k - 1 - p - n], n > 0);
        face_words(mesh.indices@[k - 1 - p - n], n > 0)
    };
    let words = before.push(next);
    assert forall|i: int| 0 <= i < k implies is_worded(lines.take(k)[i], #[trigger] words[i]) by {
        if i < k - 1 {
            assert(is_worded(lines.take(k - 1)[i], before[i]));
        }
    }
    words
}

// -- What is read ----------------------------------------------------------------

/// The key of a corner whose indices mean what they say.
pub open spec fn stated(corner: (i64, i64, i64)) -> Key {
    (Meaning::Stated(corner.0), Meaning::Stated(corner.1), Meaning::Stated(corner.2))
}

/// What a written corner of a vertex is read as.
pub open spec fn key_of(vertex: int, normals: bool) -> (i64, i64, i64) {
    ((vertex + 1) as i64, 0i64, if normals { (vertex + 1) as i64 } else { 0i64 })
}

/// So many positions without a colour.
pub open spec fn colourless<T>(count: int) -> Seq<Option<[T; 3]>> {
    Seq::new(count as nat, |i: int| None)
}

/// Whether vertex `i` of a reading is a vertex of a mesh.
pub open spec fn is_vertex<T>(mesh: Mesh<T>, reading: Reading<T>, i: int) -> bool {
    let v = reading.vertices[i].0->Stated_0 - 1;
    let normals = mesh.normals@.len() > 0;
    &&& 0 <= v < mesh.positions@.len()
    &&& v < u32::MAX
    &&& reading.vertices[i] == stated(key_of(v, normals))
    &&& reading.vertex_positions[i] == mesh.positions@[v]
    &&& normals ==> reading.vertex_normals[i] == mesh.normals@[v]
}

/// Whether a reading has the lists of a mesh, and its vertices are vertices of
/// the mesh, none of them twice.
pub open spec fn holds<T>(mesh: Mesh<T>, reading: Reading<T>) -> bool {
    &&& reading.positions == mesh.positions@
    &&& reading.normals == mesh.normals@
    &&& reading.colours == colourless::<T>(mesh.positions@.len() as int)
    &&& reading.uvs.len() == 0
    &&& reading.vertices.no_duplicates()
    &&& reading.vertex_positions.len() == reading.vertices.len()
    &&& reading.vertex_colors.len() == 0
    &&& reading.vertex_uvs.len() == 0
    &&& reading.vertex_normals.len() == if mesh.normals@.len() > 0 {
        reading.vertices.len()
    } else {
        0
    }
    &&& forall|i: int| 0 <= i < reading.vertices.len() ==> #[trigger] is_vertex(mesh, reading, i)
}

/// Whether a mesh is one that files hold: normals for all vertices or none,
/// and faces that name vertices it has.
pub open spec fn is_mesh<T>(mesh: Mesh<T>) -> bool {
    &&& mesh.normals@.len() == 0 || mesh.normals@.len() == mesh.positions@.len()
    &&& forall|f: int|
        0 <= f < mesh.indices@.len() ==> is_named(mesh, (#[trigger] mesh.indices@[f])[0])
            && is_named(mesh, mesh.indices@[f][1]) && is_named(mesh, mesh.indices@[f][2])
}

/// Whether a mesh has a vertex, and a file can number it.
pub open spec fn is_named<T>(mesh: Mesh<T>, vertex: u32) -> bool {
    vertex < mesh.positions@.len() && vertex < u32::MAX
}

/// Whether a reading knows vertex `v` of a mesh as its vertex `g`.
pub open spec fn knows<T>(mesh: Mesh<T>, reading: Reading<T>, g: u32, v: u32) -> bool {
    g < reading.vertices.len() && reading.vertices[g as int] == stated(
        key_of(v as int, mesh.normals@.len() > 0),
    )
}

/// Whether face `f` of a reading is that face of a mesh.
pub open spec fn is_face<T>(mesh: Mesh<T>, reading: Reading<T>, f: int) -> bool {
    let (face, read) = (mesh.indices@[f], reading.faces[f]);
    knows(mesh, reading, read[0], face[0]) && knows(mesh, reading, read[1], face[1]) && knows(
        mesh,
        reading,
        read[2],
        face[2],
    )
}

/// Whether the first `k` faces of a mesh have been read.
pub open spec fn has_read<T>(mesh: Mesh<T>, reading: Reading<T>, k: int) -> bool {
    &&& holds(mesh, reading)
    &&& reading.faces.len() == k
    &&& forall|f: int| 0 <= f < k ==> #[trigger] is_face(mesh, reading, f)
}

/// Whether one reading comes after another, as far as their vertices go.
pub open spec fn follows<T>(before: Reading<T>, after: Reading<T>) -> bool {
    &&& before.vertices.len() <= after.vertices.len()
    &&& forall|i: int|
        0 <= i < before.vertices.len() ==> #[trigger] after.vertices[i] == before.vertices[i]
}

proof fn lemma_corner<T>(mesh: Mesh<T>, reading: Reading<T>, v: u32) -> (after: Reading<T>)
    requires
        is_mesh(mesh),
        holds(mesh, reading),
        is_named(mesh, v),
    ensures
        with_corner(reading, key_of(v as int, mesh.normals@.len() > 0)) == Some(after),
        holds(mesh, after),
        follows(reading, after),
        after.faces == reading.faces,
        after.vertices.contains(stated(key_of(v as int, mesh.normals@.len() > 0))),
{
    let normals = mesh.normals@.len() > 0;
    let c = key_of(v as int, normals);
    let key = stated(c);
    assert(corner_key(reading, c) == key);
    if reading.vertices.contains(key) {
        return reading;
    }
    let n = reading.vertices.len() as int;
    let after = Reading {
        vertices: reading.vertices.push(key),
        vertex_positions: reading.vertex_positions.push(mesh.positions@[v as int]),
        vertex_normals: if normals {
            reading.vertex_normals.push(mesh.normals@[v as int])
        } else {
            reading.vertex_normals
        },
        ..reading
    };
    assert(picked(reading.positions, c.0) == Some(mesh.positions@[v as int]));
    assert(picked_some(reading.colours, c.0) is None);
    assert(picked(reading.uvs, c.1) is None);
    assert(normals ==> picked(reading.normals, c.2) == Some(mesh.normals@[v as int]));
    assert(!normals ==> picked(reading.normals, c.2) is None);
    assert(with_corner(reading, c)->Some_0 =~= after);
    assert(after.vertices.no_duplicates()) by {
        assert forall|i: int, j: int|
            0 <= i < n + 1 && 0 <= j < n + 1 && i != j implies after.vertices[i]
            != after.vertices[j] by {
            if i < n {
                assert(reading.vertices.contains(reading.vertices[i]));
            }
            if j < n {
                assert(reading.vertices.contains(reading.vertices[j]));
            }
        }
    }
    assert forall|i: int| 0 <= i < after.vertices.len() implies #[trigger] is_vertex(
        mesh,
        after,
        i,
    ) by {
        if i < n {
            assert(is_vertex(mesh, reading, i));
        }
    }
    assert(after.vertices[n] == key);
    after
}

/// A file numbers no more vertices than 32 bits can.
proof fn lemma_few<T>(mesh: Mesh<T>, reading: Reading<T>)
    requires
        holds(mesh, reading),
    ensures
        reading.vertices.len() <= u32::MAX,
{
    let numbers = Seq::new(reading.vertices.len(), |i: int| reading.vertices[i].0->Stated_0 as int);
    assert(numbers.no_duplicates()) by {
        assert forall|i: int, j: int|
            0 <= i < numbers.len() && 0 <= j < numbers.len() && i != j implies numbers[i]
            != numbers[j] by {
            assert(is_vertex(mesh, reading, i) && is_vertex(mesh, reading, j));
            assert(reading.vertices[i] != reading.vertices[j]);
        }
    }
    let range = vstd::set_lib::set_int_range(1, u32::MAX + 1);
    vstd::set_lib::lemma_int_range(1, u32::MAX + 1);
    numbers.unique_seq_to_set();
    assert forall|x: int| #[trigger] numbers.to_set().contains(x) implies range.contains(x) by {
        let i = choose|i: int| 0 <= i < numbers.len() && numbers[i] == x;
        assert(is_vertex(mesh, reading, i));
    }
    vstd::set_lib::lemma_len_subset(numbers.to_set(), range);
}

/// The three corners of a face have become vertices.
proof fn lemma_corners<T>(mesh: Mesh<T>, reading: Reading<T>, face: [u32; 3]) -> (after: Reading<T>)
    requires
        is_mesh(mesh),
        holds(mesh, reading),
        is_named(mesh, face[0]),
        is_named(mesh, face[1]),
        is_named(mesh, face[2]),
    ensures
        ({
            let normals = mesh.normals@.len() > 0;
            let (a, b, c) = (
                key_of(face[0] as int, normals),
                key_of(face[1] as int, normals),
                key_of(face[2] as int, normals),
            );
            &&& with_corners(reading, seq![a, b, c], 3) == Some(after)
            &&& after.vertices.contains(stated(a))
            &&& after.vertices.contains(stated(b))
            &&& after.vertices.contains(stated(c))
        }),
        holds(mesh, after),
        follows(reading, after),
        after.faces == reading.faces,
{
    let normals = mesh.normals@.len() > 0;
    let (a, b, c) = (
        key_of(face[0] as int, normals),
        key_of(face[1] as int, normals),
        key_of(face[2] as int, normals),
    );
    let corners = seq![a, b, c];
    let first = lemma_corner(mesh, reading, face[0]);
    let second = lemma_corner(mesh, first, face[1]);
    let third = lemma_corner(mesh, second, face[2]);
    assert(with_corners(reading, corners, 0) == Some(reading));
    assert(with_corners(reading, corners, 1) == Some(first));
    assert(with_corners(reading, corners, 2) == Some(second));
    assert(with_corners(reading, corners, 3) == Some(third));
    assert(third.vertices.contains(stated(a))) by {
        let i = choose|i: int| 0 <= i < first.vertices.len() && first.vertices[i] == stated(a);
        assert(second.vertices[i] == stated(a));
        assert(third.vertices[i] == stated(a));
    }
    assert(third.vertices.contains(stated(b))) by {
        let i = choose|i: int| 0 <= i < second.vertices.len() && second.vertices[i] == stated(b);
        assert(third.vertices[i] == stated(b));
    }
    assert forall|i: int| 0 <= i < reading.vertices.len() implies #[trigger] third.vertices[i]
        == reading.vertices[i] by {
        assert(first.vertices[i] == reading.vertices[i]);
        assert(second.vertices[i] == first.vertices[i]);
    }
    third
}

/// The corners of a written face.
proof fn lemma_face_corners(face: [u32; 3], normals: bool)
    requires
        face[0] < u32::MAX,
        face[1] < u32::MAX,
        face[2] < u32::MAX,
    ensures
        face_corners(face_words(face, normals).skip(1), 3) == Some(
            seq![
                key_of(face[0] as int, normals),
                key_of(face[1] as int, normals),
                key_of(face[2] as int, normals),
            ],
        ),
{
    let fields = face_words(face, normals).skip(1);
    law_corner_round_trip(face[0], normals);
    law_corner_round_trip(face[1], normals);
    law_corner_round_trip(face[2], normals);
    let (a, b, c) = (
        key_of(face[0] as int, normals),
        key_of(face[1] as int, normals),
        key_of(face[2] as int, normals),
    );
    assert(fields[0] == written_corner(face[0], normals));
    assert(fields[1] == written_corner(face[1], normals));
    assert(fields[2] == written_corner(face[2], normals));
    let none: Seq<(i64, i64, i64)> = Seq::empty();
    assert(face_corners(fields, 0) == Some(none));
    assert(face_corners(fields, 1) == Some(none.push(a)));
    assert(face_corners(fields, 2) == Some(none.push(a).push(b)));
    assert(face_corners(fields, 3) == Some(none.push(a).push(b).push(c)));
    assert(none.push(a).push(b).push(c) =~= seq![a, b, c]);
}

/// A vertex that is there is found.
proof fn lemma_found<T>(mesh: Mesh<T>, reading: Reading<T>, v: u32)
    requires
        holds(mesh, reading),
        is_named(mesh, v),
        reading.vertices.contains(stated(key_of(v as int, mesh.normals@.len() > 0))),
    ensures
        knows(mesh, reading, vertex_of(reading, key_of(v as int, mesh.normals@.len() > 0)), v),
{
    let key = key_of(v as int, mesh.normals@.len() > 0);
    lemma_few(mesh, reading);
    assert(corner_key(reading, key) == stated(key));
    assert(reading.vertices[reading.vertices.index_of(stated(key))] == stated(key));
}

proof fn lemma_face<T>(mesh: Mesh<T>, reading: Reading<T>, face: [u32; 3]) -> (after: Reading<T>)
    requires
        is_mesh(mesh),
        holds(mesh, reading),
        is_named(mesh, face[0]),
        is_named(mesh, face[1]),
        is_named(mesh, face[2]),
    ensures
        with_face(reading, face_words(face, mesh.normals@.len() > 0).skip(1))
            == Ok::<Reading<T>, Seq<char>>(after),
        holds(mesh, after),
        follows(reading, after),
        after.faces.len() == reading.faces.len() + 1,
        forall|f: int|
            0 <= f < reading.faces.len() ==> #[trigger] after.faces[f] == reading.faces[f],
        knows(mesh, after, after.faces.last()[0], face[0]),
        knows(mesh, after, after.faces.last()[1], face[1]),
        knows(mesh, after, after.faces.last()[2], face[2]),
{
    let normals = mesh.normals@.len() > 0;
    lemma_face_corners(face, normals);
    let third = lemma_corners(mesh, reading, face);
    lemma_found(mesh, third, face[0]);
    lemma_found(mesh, third, face[1]);
    lemma_found(mesh, third, face[2]);
    let corners = seq![
        key_of(face[0] as int, normals),
        key_of(face[1] as int, normals),
        key_of(face[2] as int, normals),
    ];
    let polygon = corners.map_values(|c: (i64, i64, i64)| vertex_of(third, c));
    let after = Reading { faces: third.faces + fan(polygon), ..third };
    assert(fan(polygon).len() == 1);
    let made = after.faces.last();
    assert(made == fan(polygon)[0]);
    assert(made[0] == polygon[0] && made[1] == polygon[1] && made[2] == polygon[2]);
    assert forall|i: int| 0 <= i < after.vertices.len() implies #[trigger] is_vertex(
        mesh,
        after,
        i,
    ) by {
        assert(is_vertex(mesh, third, i));
    }
    after
}

proof fn lemma_vector<T, N: Fn(&Vec<char>) -> Option<T>, L: Fn(Option<T>) -> T>(
    number: N,
    flip: L,
    words: Seq<Seq<char>>,
    name: Seq<char>,
    vector: [T; 3],
    answers: Answers<T>,
)
    requires
        says_vector(number, words, name, vector),
        name == "v"@ || name == "vn"@,
        is_answered(number, flip, words, answers),
    ensures
        triple(answers.numbers, 0) == Some(vector),
        triple(answers.numbers, 3) is None,
{
    assert(is_numeric(words));
    let numbers = answers.numbers;
    assert(reads_as(number, words[1], numbers[0]));
    assert(reads_as(number, words[2], numbers[1]));
    assert(reads_as(number, words[3], numbers[2]));
    let made = triple(numbers, 0)->Some_0;
    assert(made =~= vector);
}

/// What the first `k` lines of a written file are read as.
pub open spec fn is_state<T>(mesh: Mesh<T>, reading: Reading<T>, k: int) -> bool {
    let (p, n) = (mesh.positions@.len() as int, mesh.normals@.len() as int);
    if k < p {
        reading == (Reading {
            positions: mesh.positions@.take(k),
            colours: colourless(k),
            ..blank()
        })
    } else if k < p + n {
        reading == (Reading {
            positions: mesh.positions@,
            colours: colourless(mesh.positions@.len() as int),
            normals: mesh.normals@.take(k - p),
            ..blank()
        })
    } else {
        has_read(mesh, reading, k - p - n)
    }
}

proof fn lemma_lists_read<T>(mesh: Mesh<T>, reading: Reading<T>)
    requires
        reading == (Reading {
            positions: mesh.positions@,
            colours: colourless(mesh.positions@.len() as int),
            normals: mesh.normals@,
            ..blank()
        }),
    ensures
        has_read(mesh, reading, 0),
{
}

/// The words that lines start with are told apart.
proof fn lemma_names()
    ensures
        "v"@ != "vn"@,
        "vt"@ != "v"@,
        "vt"@ != "vn"@,
        "f"@ != "v"@,
        "f"@ != "vn"@,
        "f"@ != "vt"@,
{
    reveal_strlit("v");
    reveal_strlit("vn");
    reveal_strlit("vt");
    reveal_strlit("f");
    assert("v"@.len() != "vn"@.len());
    assert("v"@.len() != "vt"@.len());
    assert("vt"@[1] != "vn"@[1]);
    assert("f"@[0] != "v"@[0]);
    assert("f"@.len() != "vn"@.len());
    assert("f"@.len() != "vt"@.len());
}

proof fn lemma_position_line<T, N: Fn(&Vec<char>) -> Option<T>, L: Fn(Option<T>) -> T>(
    number: N,
    flip: L,
    mesh: Mesh<T>,
    line: Seq<Seq<char>>,
    answers: Answers<T>,
    before: Reading<T>,
    k: int,
)
    requires
        0 < k <= mesh.positions@.len(),
        says_vector(number, line, "v"@, mesh.positions@[k - 1]),
        is_answered(number, flip, line, answers),
        is_state(mesh, before, k - 1),
    ensures
        with_line(before, line, answers) is Ok,
        is_state(mesh, with_line(before, line, answers)->Ok_0, k),
{
    lemma_vector(number, flip, line, "v"@, mesh.positions@[k - 1], answers);
    let after = with_line(before, line, answers)->Ok_0;
    let (p, n) = (mesh.positions@.len() as int, mesh.normals@.len() as int);
    assert(mesh.positions@.take(k) =~= mesh.positions@.take(k - 1).push(mesh.positions@[k - 1]));
    assert(after =~= (Reading {
            positions: mesh.positions@.take(k),
            colours: colourless(k),
            ..blank()
        }));
    if k == p {
        assert(mesh.positions@.take(k) =~= mesh.positions@);
        assert(mesh.normals@.take(0) =~= Seq::empty());
        if n == 0 {
            assert(mesh.normals@ =~= Seq::empty());
            lemma_lists_read(mesh, after);
        }
    }
}

proof fn lemma_normal_line<T, N: Fn(&Vec<char>) -> Option<T>, L: Fn(Option<T>) -> T>(
    number: N,
    flip: L,
    mesh: Mesh<T>,
    line: Seq<Seq<char>>,
    answers: Answers<T>,
    before: Reading<T>,
    k: int,
)
    requires
        0 < k <= mesh.normals@.len(),
        says_vector(number, line, "vn"@, mesh.normals@[k - 1]),
        is_answered(number, flip, line, answers),
        is_state(mesh, before, mesh.positions@.len() + k - 1),
    ensures
        with_line(before, line, answers) is Ok,
        is_state(mesh, with_line(before, line, answers)->Ok_0, mesh.positions@.len() + k),
{
    lemma_names();
    lemma_vector(number, flip, line, "vn"@, mesh.normals@[k - 1], answers);
    let after = with_line(before, line, answers)->Ok_0;
    assert(mesh.normals@.take(k) =~= mesh.normals@.take(k - 1).push(mesh.normals@[k - 1]));
    assert(after =~= (Reading {
        positions: mesh.positions@,
        colours: colourless(mesh.positions@.len() as int),
        normals: mesh.normals@.take(k),
        ..blank()
    }));
    if k == mesh.normals@.len() {
        assert(mesh.normals@.take(k) =~= mesh.normals@);
        lemma_lists_read(mesh, after);
    }
}

proof fn lemma_face_line_read<T>(
    mesh: Mesh<T>,
    line: Seq<Seq<char>>,
    answers: Answers<T>,
    before: Reading<T>,
    j: int,
)
    requires
        is_mesh(mesh),
        0 <= j < mesh.indices@.len(),
        line == face_words(mesh.indices@[j], mesh.normals@.len() > 0),
        has_read(mesh, before, j),
    ensures
        with_line(before, line, answers) is Ok,
        has_read(mesh, with_line(before, line, answers)->Ok_0, j + 1),
{
    lemma_names();
    assert(is_named(mesh, mesh.indices@[j][0]));
    let after = lemma_face(mesh, before, mesh.indices@[j]);
    assert(with_line(before, line, answers) == Ok::<Reading<T>, Seq<char>>(after));
    assert forall|f: int| 0 <= f < j + 1 implies #[trigger] is_face(mesh, after, f) by {
        if f < j {
            assert(is_face(mesh, before, f));
            assert(after.faces[f] == before.faces[f]);
            let read = before.faces[f];
            assert(after.vertices[read[0] as int] == before.vertices[read[0] as int]);
            assert(after.vertices[read[1] as int] == before.vertices[read[1] as int]);
            assert(after.vertices[read[2] as int] == before.vertices[read[2] as int]);
        }
    }
}

proof fn lemma_blank_state<T>(mesh: Mesh<T>)
    requires
        is_mesh(mesh),
    ensures
        is_state(mesh, blank(), 0),
{
    let reading = blank::<T>();
    assert(mesh.positions@.take(0) =~= reading.positions);
    assert(colourless::<T>(0) =~= reading.colours);
    if mesh.positions@.len() == 0 {
        assert(mesh.positions@ =~= reading.positions);
        assert(mesh.normals@ =~= reading.normals);
        lemma_lists_read(mesh, reading);
    } else {
        assert(reading =~= (Reading {
            positions: mesh.positions@.take(0),
            colours: colourless(0),
            ..blank()
        }));
    }
}

proof fn lemma_state<T, N: Fn(&Vec<char>) -> Option<T>, L: Fn(Option<T>) -> T>(
    number: N,
    flip: L,
    mesh: Mesh<T>,
    words: Seq<Seq<Seq<char>>>,
    answers: Seq<Answers<T>>,
    k: int,
)
    requires
        is_mesh(mesh),
        says_mesh(number, mesh, words),
        are_answered(number, flip, words.push(Seq::empty()), answers),
        0 <= k <= words.len(),
    ensures
        after_lines(words.push(Seq::empty()), answers, k) is Ok,
        is_state(mesh, after_lines(words.push(Seq::empty()), answers, k)->Ok_0, k),
    decreases k,
{
    let lines = words.push(Seq::empty());
    let (p, n) = (mesh.positions@.len() as int, mesh.normals@.len() as int);
    if k == 0 {
        lemma_blank_state(mesh);
        return;
    }
    lemma_state(number, flip, mesh, words, answers, k - 1);
    let before = after_lines(lines, answers, k - 1)->Ok_0;
    assert(lines[k - 1] == words[k - 1]);
    assert(is_answered(number, flip, lines[k - 1], answers[k - 1]));
    if k - 1 < p {
        assert(says_vector(number, words[k - 1], "v"@, mesh.positions@[k - 1]));
        lemma_position_line(number, flip, mesh, words[k - 1], answers[k - 1], before, k);
    } else if k - 1 < p + n {
        assert(says_vector(number, words[k - 1], "vn"@, mesh.normals@[k - 1 - p]));
        lemma_normal_line(number, flip, mesh, words[k - 1], answers[k - 1], before, k - p);
    } else {
        assert(words[k - 1] == face_words(mesh.indices@[k - 1 - p - n], n > 0));
        lemma_face_line_read(mesh, words[k - 1], answers[k - 1], before, k - 1 - p - n);
    }
}

/// Whether one corner of a mesh that was read is a corner of the mesh that was
/// written: it has the same position, and the same normal where there are any.
pub open spec fn is_same_corner<T>(mesh: Mesh<T>, read: Mesh<T>, v: u32, g: u32) -> bool {
    &&& g < read.positions@.len()
    &&& read.positions@[g as int] == mesh.positions@[v as int]
    &&& mesh.normals@.len() > 0 ==> read.normals@[g as int] == mesh.normals@[v as int]
}

proof fn lemma_same_corner<T>(mesh: Mesh<T>, read: Mesh<T>, reading: Reading<T>, v: u32, g: u32)
    requires
        holds(mesh, reading),
        is_named(mesh, v),
        knows(mesh, reading, g, v),
        read.positions@ == reading.vertex_positions,
        mesh.normals@.len() > 0 ==> read.normals@ == reading.vertex_normals,
    ensures
        is_same_corner(mesh, read, v, g),
{
    assert(is_vertex(mesh, reading, g as int));
}

/// A file that was written is read back: where the numbers survive being
/// shown, reading what a mesh was written as gives a mesh with the same faces
/// in the same order, each corner with its position and, where the mesh has
/// normals, its normal; and corners share a vertex just where they did.
pub proof fn law_file_round_trip<
    T,
    F: Fn(T) -> String,
    N: Fn(&Vec<char>) -> Option<T>,
    L: Fn(Option<T>) -> T,
>(
    mesh: Mesh<T>,
    show: F,
    number: N,
    flip: L,
    lines: Seq<Seq<char>>,
    answers: Seq<Answers<T>>,
    outcome: Result<Mesh<T>, NetworkError>,
)
    requires
        is_mesh(mesh),
        mesh.indices@.len() > 0,
        survives(show, number),
        are_lines(mesh, show, lines),
        are_answered(number, flip, rows(joined(lines, lines.len() as int)), answers),
        is_outcome(rows(joined(lines, lines.len() as int)), answers, outcome),
    ensures
        outcome is Ok,
        outcome->Ok_0.indices@.len() == mesh.indices@.len(),
        mesh.normals@.len() > 0 ==> outcome->Ok_0.normals@.len() == outcome->Ok_0.positions@.len(),
        mesh.normals@.len() == 0 ==> outcome->Ok_0.normals@.len() == 0,
        outcome->Ok_0.uvs@.len() == 0,
        outcome->Ok_0.colors@.len() == 0,
        forall|f: int, c: int|
            #![trigger outcome->Ok_0.indices@[f][c]]
            0 <= f < mesh.indices@.len() && 0 <= c < 3 ==> is_same_corner(
                mesh,
                outcome->Ok_0,
                mesh.indices@[f][c],
                outcome->Ok_0.indices@[f][c],
            ),
        forall|f: int, c: int, g: int, d: int|
            #![trigger outcome->Ok_0.indices@[f][c], outcome->Ok_0.indices@[g][d]]
            0 <= f < mesh.indices@.len() && 0 <= c < 3 && 0 <= g < mesh.indices@.len() && 0 <= d < 3
                ==> (outcome->Ok_0.indices@[f][c] == outcome->Ok_0.indices@[g][d] <==> mesh.indices@[f][c]
                == mesh.indices@[g][d]),
{
    let count = lines.len() as int;
    let words = lemma_words(show, number, mesh, lines, count);
    assert(lines.take(count) =~= lines);
    lemma_rows_joined(lines, words);
    let all = words.push(Seq::empty());
    assert(says_mesh(number, mesh, words));
    lemma_state(number, flip, mesh, words, answers, count);
    let reading = after_lines(all, answers, count)->Ok_0;
    assert(all[count].len() == 0);
    assert(after_lines(all, answers, count + 1) == after_lines(all, answers, count));
    let read = outcome->Ok_0;
    assert(has_read(mesh, reading, mesh.indices@.len() as int));
    let normals = mesh.normals@.len() > 0;
    assert forall|f: int, c: int|
        #![trigger read.indices@[f][c]]
        0 <= f < mesh.indices@.len() && 0 <= c < 3 implies is_same_corner(
        mesh,
        read,
        mesh.indices@[f][c],
        read.indices@[f][c],
    ) && knows(mesh, reading, read.indices@[f][c], mesh.indices@[f][c]) by {
        assert(is_face(mesh, reading, f));
        assert(is_named(mesh, mesh.indices@[f][0]) && is_named(mesh, mesh.indices@[f][1])
            && is_named(mesh, mesh.indices@[f][2]));
        assert(c == 0 || c == 1 || c == 2);
        lemma_same_corner(mesh, read, reading, mesh.indices@[f][c], read.indices@[f][c]);
    }
    assert forall|f: int, c: int, g: int, d: int|
        #![trigger read.indices@[f][c], read.indices@[g][d]]
        0 <= f < mesh.indices@.len() && 0 <= c < 3 && 0 <= g < mesh.indices@.len() && 0 <= d
            < 3 implies (read.indices@[f][c] == read.indices@[g][d] <==> mesh.indices@[f][c]
        == mesh.indices@[g][d]) by {
        let (a, b) = (read.indices@[f][c], read.indices@[g][d]);
        assert(knows(mesh, reading, a, mesh.indices@[f][c]));
        assert(knows(mesh, reading, b, mesh.indices@[g][d]));
        assert(reading.vertices[a as int].0->Stated_0 == mesh.indices@[f][c] + 1);
        assert(reading.vertices[b as int].0->Stated_0 == mesh.indices@[g][d] + 1);
    }
}

} // verus!
