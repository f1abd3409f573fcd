//! What reading an OBJ file keeps, and that its faces survive being written.
use crate::fields::{
    corner, digit_value, digits_value, integer, next_slash, part_start, unsigned_part,
};
use crate::obj::{
    after_lines, corner_key, face_corners, fan, vertex_of, with_corner, with_corners, with_face, Key,
    Answers, Reading,
};
use crate::text::{decimal, digit, to_decimal};
use vstd::prelude::*;
use vstd::string::*;

verus! {

// -- Faces name vertices there are -------------------------------------------

/// Whether a number is below a count, or the count is more than 32 bits can
/// number.
pub open spec fn is_numbered(n: u32, count: nat) -> bool {
    n < count || count > 0x1_0000_0000
}

/// Whether the vertices are distinct, each has a position, none has more than
/// one of anything else, and every face names vertices there are.
pub open spec fn is_consistent<T>(reading: Reading<T>) -> bool {
    let count = reading.vertices.len();
    &&& reading.vertices.no_duplicates()
    &&& reading.vertex_positions.len() == count
    &&& reading.vertex_colors.len() <= count
    &&& reading.vertex_uvs.len() <= count
    &&& reading.vertex_normals.len() <= count
    &&& forall|f: int|
        0 <= f < reading.faces.len() ==> is_numbered((#[trigger] reading.faces[f])[0], count)
            && is_numbered(reading.faces[f][1], count) && is_numbered(reading.faces[f][2], count)
}

proof fn lemma_corner_consistent<T>(reading: Reading<T>, c: (i64, i64, i64))
    requires
        is_consistent(reading),
        with_corner(reading, c) is Some,
    ensures
        is_consistent(with_corner(reading, c)->Some_0),
        with_corner(reading, c)->Some_0.vertices.len() >= reading.vertices.len(),
        with_corner(reading, c)->Some_0.vertices.contains(
            corner_key(with_corner(reading, c)->Some_0, c),
        ),
        forall|k: Key| #[trigger]
            reading.vertices.contains(k) ==> with_corner(reading, c)->Some_0.vertices.contains(k),
        with_corner(reading, c)->Some_0.positions == reading.positions,
        with_corner(reading, c)->Some_0.uvs == reading.uvs,
        with_corner(reading, c)->Some_0.normals == reading.normals,
        with_corner(reading, c)->Some_0.faces == reading.faces,
{
    let after = with_corner(reading, c)->Some_0;
    let key = corner_key(reading, c);
    assert(corner_key(after, c) == key);
    if !reading.vertices.contains(key) {
        assert(after.vertices[reading.vertices.len() as int] == key);
        assert forall|k: Key| #[trigger] reading.vertices.contains(k) implies
            after.vertices.contains(k) by {
            let i = choose|i: int| 0 <= i < reading.vertices.len() && reading.vertices[i] == k;
            assert(after.vertices[i] == k);
        }
    }
}

proof fn lemma_corners_consistent<T>(reading: Reading<T>, corners: Seq<(i64, i64, i64)>, k: int)
    requires
        is_consistent(reading),
        0 <= k <= corners.len(),
        with_corners(reading, corners, k) is Some,
    ensures
        ({
            let after = with_corners(reading, corners, k)->Some_0;
            &&& is_consistent(after)
            &&& after.faces == reading.faces
            &&& after.vertices.len() >= reading.vertices.len()
            &&& after.positions == reading.positions
            &&& after.uvs == reading.uvs
            &&& after.normals == reading.normals
            &&& forall|i: int|
                0 <= i < k ==> after.vertices.contains(corner_key(after, #[trigger] corners[i]))
        }),
    decreases k,
{
    if k > 0 {
        lemma_corners_consistent(reading, corners, k - 1);
        let before = with_corners(reading, corners, k - 1)->Some_0;
        lemma_corner_consistent(before, corners[k - 1]);
        let after = with_corners(reading, corners, k)->Some_0;
        assert forall|i: int| 0 <= i < k implies after.vertices.contains(
            corner_key(after, #[trigger] corners[i]),
        ) by {
            assert(corner_key(after, corners[i]) == corner_key(before, corners[i]));
            if i < k - 1 {
                assert(before.vertices.contains(corner_key(before, corners[i])));
            }
        }
    }
}

proof fn lemma_face_consistent<T>(reading: Reading<T>, fields: Seq<Seq<char>>)
    requires
        is_consistent(reading),
        with_face(reading, fields) is Ok,
    ensures
        is_consistent(with_face(reading, fields)->Ok_0),
{
    let corners = face_corners(fields, fields.len() as int)->Some_0;
    let after = with_corners(reading, corners, corners.len() as int)->Some_0;
    lemma_corners_consistent(reading, corners, corners.len() as int);
    let count = after.vertices.len();
    let polygon = corners.map_values(|c: (i64, i64, i64)| vertex_of(after, c));
    assert forall|i: int| 0 <= i < polygon.len() implies is_numbered(#[trigger] polygon[i], count) by {
        let key = corner_key(after, corners[i]);
        assert(after.vertices.contains(key));
        let at = after.vertices.index_of(key);
        assert(0 <= at < count);
    }
    let done = with_face(reading, fields)->Ok_0;
    assert forall|f: int| 0 <= f < done.faces.len() implies is_numbered(
        (#[trigger] done.faces[f])[0],
        count,
    ) && is_numbered(done.faces[f][1], count) && is_numbered(done.faces[f][2], count) by {
        if f < after.faces.len() {
            assert(done.faces[f] == after.faces[f]);
        } else {
            let i = f - after.faces.len();
            assert(done.faces[f] == fan(polygon)[i]);
            assert(is_numbered(polygon[0], count));
            assert(is_numbered(polygon[i + 1], count));
            assert(is_numbered(polygon[i + 2], count));
        }
    }
}

/// However far a file has been read, its vertices are distinct corners with
/// one position each, and its faces name vertices there are.
pub proof fn law_reading_is_consistent<T>(
    lines: Seq<Seq<Seq<char>>>,
    answers: Seq<Answers<T>>,
    k: int,
)
    requires
        after_lines(lines, answers, k) is Ok,
    ensures
        is_consistent(after_lines(lines, answers, k)->Ok_0),
    decreases k,
{
    if k > 0 {
        law_reading_is_consistent(lines, answers, k - 1);
        let before = after_lines(lines, answers, k - 1)->Ok_0;
        let line = lines[k - 1];
        if line.len() > 0 && line[0] == "f"@ {
            reveal_strlit("f");
            reveal_strlit("v");
            reveal_strlit("vn");
            reveal_strlit("vt");
            assert("v"@[0] != "f"@[0]);
            lemma_face_consistent(before, line.skip(1));
        }
    }
}

// -- Writing -----------------------------------------------------------------

/// A corner as it is written: its vertex, counted from one, and its normal
/// when there are normals.
pub open spec fn written_corner(vertex: u32, normals: bool) -> Seq<char> {
    let number = decimal((vertex + 1) as nat);
    if normals {
        number + "//"@ + number
    } else {
        number
    }
}

/// A face as it is written.
pub open spec fn written_face(face: [u32; 3], normals: bool) -> Seq<char> {
    "f "@ + written_corner(face[0], normals) + " "@ + written_corner(face[1], normals) + " "@
        + written_corner(face[2], normals)
}

fn write_corner(vertex: u32, normals: bool) -> (text: String)
    requires
        vertex < u32::MAX,
    ensures
        text@ == written_corner(vertex, normals),
{
    let mut text = to_decimal(vertex as u64 + 1);
    if normals {
        let number = to_decimal(vertex as u64 + 1);
        text.append("//");
        text.append(number.as_str());
    }
    text
}

/// The line of a face: its vertices counted from one, each with its normal
/// when there are normals.
pub fn write_face(face: [u32; 3], normals: bool) -> (text: String)
    requires
        face[0] < u32::MAX,
        face[1] < u32::MAX,
        face[2] < u32::MAX,
    ensures
        text@ == written_face(face, normals),
{
    let mut text = "f ".to_string();
    let first = write_corner(face[0], normals);
    let second = write_corner(face[1], normals);
    let third = write_corner(face[2], normals);
    text.append(first.as_str());
    text.append(" ");
    text.append(second.as_str());
    text.append(" ");
    text.append(third.as_str());
    text
}

proof fn lemma_digit(d: nat)
    requires
        d < 10,
    ensures
        digit_value(digit(d)) == Some(d as int),
        digit(d) != '/',
        digit(d) != '-',
        digit(d) != '+',
{
}

pub(crate) proof fn lemma_decimal(n: nat)
    ensures
        decimal(n).len() > 0,
        digits_value(decimal(n), decimal(n).len() as int) == Some(n as int),
        forall|i: int|
            0 <= i < decimal(n).len() ==> #[trigger] decimal(n)[i] != '/' && decimal(n)[i] != '-'
                && decimal(n)[i] != '+',
    decreases n,
{
    if n < 10 {
        lemma_digit(n);
        let one = decimal(n);
        assert(digits_value(one, 0) == Some(0int));
        assert(digits_value(one, 1) == Some(n as int));
    } else {
        lemma_decimal(n / 10);
        lemma_digit(n % 10);
        let (before, now) = (decimal(n / 10), decimal(n));
        let k = before.len() as int;
        lemma_digits_prefix(before, now, k);
        assert(now[k] == digit(n % 10));
        assert(digits_value(now, k + 1) == Some(10 * (n / 10) as int + (n % 10) as int));
        assert forall|i: int| 0 <= i < now.len() implies #[trigger] now[i] != '/' && now[i] != '-'
            && now[i] != '+' by {
            if i < k {
                assert(now[i] == before[i]);
            }
        }
    }
}

proof fn lemma_digits_prefix(a: Seq<char>, b: Seq<char>, k: int)
    requires
        0 <= k <= a.len(),
        k <= b.len(),
        forall|i: int| 0 <= i < k ==> #[trigger] a[i] == b[i],
    ensures
        digits_value(a, k) == digits_value(b, k),
    decreases k,
{
    if k > 0 {
        lemma_digits_prefix(a, b, k - 1);
        assert(a[k - 1] == b[k - 1]);
    }
}

proof fn lemma_next_slash(field: Seq<char>, start: int, end: int)
    requires
        0 <= start <= end <= field.len(),
        forall|i: int| start <= i < end ==> #[trigger] field[i] != '/',
        end == field.len() || field[end] == '/',
    ensures
        next_slash(field, start) == end,
    decreases end - start,
{
    if start < end {
        assert(field[start] != '/');
        lemma_next_slash(field, start + 1, end);
    }
}

proof fn lemma_integer(n: nat)
    requires
        n <= i64::MAX,
    ensures
        integer(decimal(n)) == Some(n as i64),
{
    lemma_decimal(n);
    assert(decimal(n)[0] != '-' && decimal(n)[0] != '+');
    assert(unsigned_part(decimal(n)) == decimal(n));
}

/// A number alone is read as a position.
proof fn lemma_plain_corner(n: nat)
    requires
        n <= i64::MAX,
    ensures
        corner(decimal(n)) == Some((n as i64, 0i64, 0i64)),
{
    let field = decimal(n);
    lemma_decimal(n);
    lemma_integer(n);
    lemma_next_slash(field, 0, field.len() as int);
    assert(field.subrange(0, field.len() as int) =~= field);
    assert(part_start(field, 0) == Some(0int));
    assert(part_start(field, 1) is None);
    assert(part_start(field, 2) is None);
}

/// Where the parts of a number, two slashes and a number lie.
proof fn lemma_double_slash(number: Seq<char>, field: Seq<char>)
    requires
        field == number + seq!['/', '/'] + number,
        forall|i: int| 0 <= i < number.len() ==> #[trigger] number[i] != '/',
    ensures
        next_slash(field, 0) == number.len(),
        next_slash(field, number.len() as int + 1) == number.len() + 1,
        next_slash(field, number.len() as int + 2) == field.len(),
        field.subrange(0, number.len() as int) == number,
        field.subrange(number.len() as int + 2, field.len() as int) == number,
{
    let k = number.len() as int;
    assert(field.len() == 2 * k + 2);
    assert(field[k] == '/' && field[k + 1] == '/');
    assert forall|i: int| 0 <= i < k implies #[trigger] field[i] != '/' by {
        assert(field[i] == number[i]);
    }
    assert forall|i: int| k + 2 <= i < field.len() implies #[trigger] field[i] != '/' by {
        assert(field[i] == number[i - k - 2]);
    }
    lemma_next_slash(field, 0, k);
    lemma_next_slash(field, k + 1, k + 1);
    lemma_next_slash(field, k + 2, 2 * k + 2);
    assert(field.subrange(0, k) =~= number);
    assert(field.subrange(k + 2, 2 * k + 2) =~= number);
}

/// A number, two slashes and the number again are read as a position and its
/// normal.
proof fn lemma_slashed_corner(n: nat, field: Seq<char>)
    requires
        n <= i64::MAX,
        field == decimal(n) + seq!['/', '/'] + decimal(n),
    ensures
        corner(field) == Some((n as i64, 0i64, n as i64)),
{
    let number = decimal(n);
    let k = number.len() as int;
    lemma_decimal(n);
    lemma_integer(n);
    lemma_double_slash(number, field);
    assert(part_start(field, 0) == Some(0int));
    assert(part_start(field, 1) == Some(k + 1));
    assert(part_start(field, 2) == Some(k + 2));
    let none = field.subrange(k + 1, k + 1);
    assert(none.len() == 0);
    assert(integer(none) is None);
}

/// A written corner is read back as the vertex it names, with a normal of the
/// same number when it was written with one.
pub proof fn law_corner_round_trip(vertex: u32, normals: bool)
    requires
        vertex < u32::MAX,
    ensures
        corner(written_corner(vertex, normals)) == Some(
            ((vertex + 1) as i64, 0i64, if normals { (vertex + 1) as i64 } else { 0i64 }),
        ),
{
    let n = (vertex + 1) as nat;
    if normals {
        reveal_strlit("//");
        assert("//"@ =~= seq!['/', '/']);
        lemma_slashed_corner(n, written_corner(vertex, normals));
    } else {
        lemma_plain_corner(n);
    }
}

} // verus!
