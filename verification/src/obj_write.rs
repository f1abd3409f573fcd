//! Writing a mesh as the lines of an OBJ file.
use crate::mesh::Mesh;
use crate::obj_law::{write_face, written_face};
use vstd::prelude::*;

verus! {

/// The first `k` lines of a file, each with its end.
pub open spec fn joined(lines: Seq<Seq<char>>, k: int) -> Seq<char>
    decreases k,
{
    if k <= 0 {
        Seq::empty()
    } else {
        joined(lines, k - 1) + lines[k - 1] + "\n"@
    }
}

/// Whether a line is a name and three numbers, as they are shown.
pub open spec fn is_vector_line<T, F: Fn(T) -> String>(
    show: F,
    name: Seq<char>,
    vector: [T; 3],
    line: Seq<char>,
) -> bool {
    exists|x: String, y: String, z: String|
        {
            &&& #[trigger] call_ensures(show, (vector[0],), x)
            &&& #[trigger] call_ensures(show, (vector[1],), y)
            &&& #[trigger] call_ensures(show, (vector[2],), z)
            &&& line == name + " "@ + x@ + " "@ + y@ + " "@ + z@
        }
}

/// Whether lines are those of a mesh: its positions, its normals if there are
/// any, and its faces.
pub open spec fn are_lines<T, F: Fn(T) -> String>(
    mesh: Mesh<T>,
    show: F,
    lines: Seq<Seq<char>>,
) -> bool {
    let (p, n, f) = (mesh.positions@.len(), mesh.normals@.len(), mesh.indices@.len());
    &&& lines.len() == p + n + f
    &&& forall|i: int|
        0 <= i < p ==> is_vector_line(show, "v"@, mesh.positions@[i], #[trigger] lines[i])
    &&& forall|i: int|
        p <= i < p + n ==> is_vector_line(
            show,
            "vn"@,
            mesh.normals@[i - p],
            #[trigger] lines[i],
        )
    &&& forall|i: int|
        p + n <= i < p + n + f ==> #[trigger] lines[i] == written_face(
            mesh.indices@[i - p - n],
            n > 0,
        )
}

fn vector_line<T: Copy, F: Fn(T) -> String>(show: &F, name: &str, vector: [T; 3]) -> (line: String)
    requires
        forall|value: T| #[trigger] call_requires(*show, (value,)),
    ensures
        is_vector_line(*show, name@, vector, line@),
{
    let x = show(vector[0]);
    let y = show(vector[1]);
    let z = show(vector[2]);
    let mut line = name.to_string();
    line.append(" ");
    line.append(x.as_str());
    line.append(" ");
    line.append(y.as_str());
    line.append(" ");
    line.append(z.as_str());
    assert(call_ensures(*show, (vector[0],), x));
    line
}

proof fn lemma_joined(lines: Seq<Seq<char>>, line: Seq<char>, k: int)
    requires
        0 <= k <= lines.len(),
    ensures
        joined(lines.push(line), k) == joined(lines, k),
    decreases k,
{
    if k > 0 {
        lemma_joined(lines, line, k - 1);
    }
}

impl<T: Copy> Mesh<T> {
    /// The text of an OBJ file: positions, normals if there are any, and
    /// faces. `show` writes a number.
    pub fn write_obj<F: Fn(T) -> String>(&self, show: &F) -> (text: String)
        requires
            forall|value: T| #[trigger] call_requires(*show, (value,)),
            forall|i: int|
                0 <= i < self.indices@.len() ==> (#[trigger] self.indices@[i])[0] < u32::MAX
                    && self.indices@[i][1] < u32::MAX && self.indices@[i][2] < u32::MAX,
        ensures
            exists|lines: Seq<Seq<char>>| #[trigger]
                are_lines(*self, *show, lines) && text@ == joined(lines, lines.len() as int),
    {
        let mut text = "".to_string();
        let ghost mut lines: Seq<Seq<char>> = Seq::empty();
        proof {
            reveal_strlit("");
            assert(text@ =~= joined(lines, 0));
        }
        let ghost (p, n) = (self.positions@.len() as int, self.normals@.len() as int);
        let mut i: usize = 0;
        while i < self.positions.len()
            invariant
                i <= self.positions@.len() == p,
                forall|value: T| #[trigger] call_requires(*show, (value,)),
                lines.len() == i,
                text@ == joined(lines, lines.len() as int),
                forall|k: int|
                    0 <= k < i ==> is_vector_line(
                        *show,
                        "v"@,
                        self.positions@[k],
                        #[trigger] lines[k],
                    ),
            decreases self.positions.len() - i,
        {
            let line = vector_line(show, "v", self.positions[i]);
            text.append(line.as_str());
            text.append("\n");
            proof {
                lemma_joined(lines, line@, lines.len() as int);
                lines = lines.push(line@);
            }
            i = i + 1;
        }
        let mut i: usize = 0;
        while i < self.normals.len()
            invariant
                i <= self.normals@.len() == n,
                p == self.positions@.len(),
                forall|value: T| #[trigger] call_requires(*show, (value,)),
                lines.len() == p + i,
                text@ == joined(lines, lines.len() as int),
                forall|k: int|
                    0 <= k < p ==> is_vector_line(
                        *show,
                        "v"@,
                        self.positions@[k],
                        #[trigger] lines[k],
                    ),
                forall|k: int|
                    p <= k < p + i ==> is_vector_line(
                        *show,
                        "vn"@,
                        self.normals@[k - p],
                        #[trigger] lines[k],
                    ),
            decreases self.normals.len() - i,
        {
            let line = vector_line(show, "vn", self.normals[i]);
            text.append(line.as_str());
            text.append("\n");
            proof {
                lemma_joined(lines, line@, lines.len() as int);
                lines = lines.push(line@);
            }
            i = i + 1;
        }
        let normals: bool = self.normals.len() > 0;
        let mut i: usize = 0;
        while i < self.indices.len()
            invariant
                i <= self.indices@.len(),
                p == self.positions@.len(),
                n == self.normals@.len(),
                normals == (n > 0),
                lines.len() == p + n + i,
                text@ == joined(lines, lines.len() as int),
                forall|i: int|
                    0 <= i < self.indices@.len() ==> (#[trigger] self.indices@[i])[0] < u32::MAX
                        && self.indices@[i][1] < u32::MAX && self.indices@[i][2] < u32::MAX,
                forall|k: int|
                    0 <= k < p ==> is_vector_line(
                        *show,
                        "v"@,
                        self.positions@[k],
                        #[trigger] lines[k],
                    ),
                forall|k: int|
                    p <= k < p + n ==> is_vector_line(
                        *show,
                        "vn"@,
                        self.normals@[k - p],
                        #[trigger] lines[k],
                    ),
                forall|k: int|
                    p + n <= k < p + n + i ==> #[trigger] lines[k] == written_face(
                        self.indices@[k - p - n],
                        n > 0,
                    ),
            decreases self.indices.len() - i,
        {
            let line = write_face(self.indices[i], normals);
            text.append(line.as_str());
            text.append("\n");
            proof {
                lemma_joined(lines, line@, lines.len() as int);
                lines = lines.push(line@);
            }
            i = i + 1;
        }
        assert(are_lines(*self, *show, lines));
        text
    }
}

} // verus!
