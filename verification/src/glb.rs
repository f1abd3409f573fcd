//! The GLB container: a header, a chunk of JSON, and a chunk of bytes that the
//! JSON points into.
use crate::error::{invalid_dataset, Fault, NetworkError};
use crate::json::{
    agrees, all_spaces, is_plain, parsed, reads_back, rendered, tree, written, Json, Tree,
};
use crate::text::{decimal, with_number};
use vstd::prelude::*;
use vstd::slice::{slice_subrange, slice_to_vec};

verus! {

/// The first word of every GLB file.
pub const MAGIC: u32 = 0x4654_6C67;

/// The kind of a JSON chunk.
pub const JSON_CHUNK: u32 = 0x4E4F_534A;

/// The kind of a binary chunk.
pub const BINARY_CHUNK: u32 = 0x0000_4E42;

/// A GLB file: its JSON description and its binary chunk.
#[derive(Debug)]
pub struct Glb {
    pub json: Json,
    pub binary: Vec<u8>,
}

/// The four bytes of a word, lowest first.
#[verifier::opaque]
pub open spec fn le(word: u32) -> Seq<u8> {
    seq![
        (word % 256) as u8,
        (word / 256 % 256) as u8,
        (word / 65536 % 256) as u8,
        (word / 16777216) as u8,
    ]
}

/// The word in four bytes from `at`.
pub open spec fn word(bytes: Seq<u8>, at: int) -> u32 {
    (bytes[at] + bytes[at + 1] * 256 + bytes[at + 2] * 65536 + bytes[at + 3] * 16777216) as u32
}

/// The next multiple of four.
pub open spec fn padded_length(length: int) -> int {
    length + (4 - length % 4) % 4
}

/// Bytes, padded to a multiple of four.
#[verifier::opaque]
pub open spec fn padded(bytes: Seq<u8>, with: u8) -> Seq<u8> {
    bytes + Seq::new((padded_length(bytes.len() as int) - bytes.len()) as nat, |i: int| with)
}

/// What the chunks of a file from `at` on leave of its JSON and its bytes: a
/// later chunk of a kind takes the place of an earlier one, and chunks of
/// unknown kinds are skipped.
pub open spec fn chunks(bytes: Seq<u8>, at: int, json: Option<Tree>, binary: Seq<u8>) -> Result<
    (Option<Tree>, Seq<u8>),
    Fault,
>
    decreases bytes.len() + 8 - at,
{
    if at < 0 || at + 8 > bytes.len() {
        Ok((json, binary))
    } else {
        let length = word(bytes, at) as int;
        let start = at + 8;
        if start + length > bytes.len() {
            Err(Fault::InvalidDataset("a chunk runs past the file"@))
        } else {
            let chunk = bytes.subrange(start, start + length);
            let next = start + padded_length(length);
            if word(bytes, at + 4) == JSON_CHUNK {
                match parsed(chunk) {
                    Ok(json) => chunks(bytes, next, Some(json), binary),
                    Err(words) => Err(Fault::Json(words)),
                }
            } else if word(bytes, at + 4) == BINARY_CHUNK {
                chunks(bytes, next, json, chunk)
            } else {
                chunks(bytes, next, json, binary)
            }
        }
    }
}

/// What a GLB file holds: its JSON and its bytes.
pub open spec fn contents(bytes: Seq<u8>) -> Result<(Tree, Seq<u8>), Fault> {
    if bytes.len() < 4 {
        Err(Fault::InvalidDataset("the file ends mid-header"@))
    } else if word(bytes, 0) != MAGIC {
        Err(Fault::InvalidDataset("this is not a GLB file: the magic word is wrong"@))
    } else if bytes.len() < 8 {
        Err(Fault::InvalidDataset("the file ends mid-header"@))
    } else if word(bytes, 4) != 2 {
        Err(
            Fault::InvalidDataset(
                "GLB version "@ + decimal(word(bytes, 4) as nat) + ", and only 2 is defined"@,
            ),
        )
    } else {
        match chunks(bytes, 12, None, Seq::empty()) {
            Ok((Some(json), binary)) => Ok((json, binary)),
            Ok((None, _)) => Err(Fault::InvalidDataset("the file has no JSON chunk"@)),
            Err(fault) => Err(fault),
        }
    }
}

/// A GLB file of a JSON text and the bytes it points into. The length words
/// are the low 32 bits of the lengths.
pub open spec fn file(text: Seq<u8>, binary: Seq<u8>) -> Seq<u8> {
    frame(padded(text, 0x20), padded(binary, 0))
}

/// The header and the chunks of a padded text and padded bytes.
pub open spec fn frame(json: Seq<u8>, bytes: Seq<u8>) -> Seq<u8> {
    le(MAGIC) + le(2) + le(low_word((28 + json.len() + bytes.len()) as int)) + le(
        low_word(json.len() as int),
    ) + le(JSON_CHUNK) + json + le(low_word(bytes.len() as int)) + le(BINARY_CHUNK) + bytes
}

/// The low 32 bits of a length.
pub open spec fn low_word(length: int) -> u32 {
    (length % 0x1_0000_0000) as u32
}

pub proof fn lemma_word(bytes: Seq<u8>, at: int, value: u32)
    requires
        0 <= at,
        at + 4 <= bytes.len(),
        bytes.subrange(at, at + 4) == le(value),
    ensures
        word(bytes, at) == value,
{
    reveal(le);
    let s = bytes.subrange(at, at + 4);
    assert(bytes[at] == s[0] && bytes[at + 1] == s[1] && bytes[at + 2] == s[2] && bytes[at + 3]
        == s[3]);
}

/// The word in four bytes from `at`.
pub(crate) fn read_word(bytes: &[u8], at: usize) -> (value: u32)
    requires
        at + 4 <= bytes@.len(),
    ensures
        value == word(bytes@, at as int),
{
    bytes[at] as u32 + bytes[at + 1] as u32 * 256 + bytes[at + 2] as u32 * 65536 + bytes[at
        + 3] as u32 * 16777216
}

/// Adds the four bytes of a word.
pub(crate) fn push_word(bytes: &mut Vec<u8>, value: u32)
    ensures
        final(bytes)@ == old(bytes)@ + le(value),
{
    bytes.push((value % 256) as u8);
    bytes.push((value / 256 % 256) as u8);
    bytes.push((value / 65536 % 256) as u8);
    bytes.push((value / 16777216) as u8);
    proof {
        reveal(le);
    }
    assert(bytes@ =~= old(bytes)@ + le(value));
}

/// Pads bytes to a multiple of four.
fn pad(bytes: &mut Vec<u8>, with: u8)
    ensures
        final(bytes)@ == padded(old(bytes)@, with),
{
    let missing: usize = (4 - bytes.len() % 4) % 4;
    let ghost start = bytes@;
    let mut i: usize = 0;
    while i < missing
        invariant
            i <= missing,
            bytes@ == start + Seq::new(i as nat, |i: int| with),
        decreases missing - i,
    {
        bytes.push(with);
        i = i + 1;
        assert(bytes@ =~= start + Seq::new(i as nat, |i: int| with));
    }
    proof {
        reveal(padded);
    }
    assert(bytes@ =~= padded(start, with));
}

impl Glb {
    /// A GLB from a scene description and the bytes it points into.
    pub fn new(json: Json, binary: Vec<u8>) -> (glb: Glb)
        ensures
            glb.json == json,
            glb.binary == binary,
    {
        Glb { json, binary }
    }

    /// Reads a GLB file from its bytes.
    pub fn parse(bytes: Vec<u8>) -> (glb: Result<Glb, NetworkError>)
        ensures
            match glb {
                Ok(glb) => contents(bytes@) == Ok::<_, Fault>((tree(glb.json), glb.binary@)),
                Err(error) => contents(bytes@) == Err::<(Tree, Seq<u8>), _>(error@),
            },
    {
        let slice = bytes.as_slice();
        let total: usize = slice.len();
        if total < 4 {
            return Err(invalid_dataset("the file ends mid-header"));
        }
        if read_word(slice, 0) != MAGIC {
            return Err(invalid_dataset("this is not a GLB file: the magic word is wrong"));
        }
        if total < 8 {
            return Err(invalid_dataset("the file ends mid-header"));
        }
        let version: u32 = read_word(slice, 4);
        if version != 2 {
            return Err(
                NetworkError::InvalidDataset(
                    with_number("GLB version ", version as u64, ", and only 2 is defined"),
                ),
            );
        }
        let mut json: Option<Json> = None;
        let mut binary: Vec<u8> = Vec::new();
        let mut at: usize = 12;
        let ghost mut place: int = 12;
        let ghost whole = chunks(bytes@, 12, None, Seq::empty());
        while at <= total && total - at >= 8
            invariant
                slice@ == bytes@,
                total == bytes@.len(),
                place == at || (place + 8 > total && at == total),
                whole == chunks(
                    bytes@,
                    place,
                    match json {
                        Some(json) => Some(tree(json)),
                        None => None,
                    },
                    binary@,
                ),
                whole == chunks(bytes@, 12, None, Seq::empty()),
                bytes@.len() >= 8,
                word(bytes@, 0) == MAGIC,
                word(bytes@, 4) == 2,
            decreases total - at,
        {
            let length: usize = read_word(slice, at) as usize;
            let kind: u32 = read_word(slice, at + 4);
            let start: usize = at + 8;
            if length > total - start {
                return Err(invalid_dataset("a chunk runs past the file"));
            }
            let chunk = slice_subrange(slice, start, start + length);
            if kind == JSON_CHUNK {
                match Json::parse(chunk) {
                    Ok(value) => {
                        json = Some(value);
                    },
                    Err(error) => {
                        return Err(error);
                    },
                }
            } else if kind == BINARY_CHUNK {
                binary = slice_to_vec(chunk);
                assert(binary@ =~= chunk@);
            }
            let missing: usize = (4 - length % 4) % 4;
            proof {
                place = start + padded_length(length as int);
            }
            at = if missing <= total - (start + length) {
                start + length + missing
            } else {
                total
            };
        }
        match json {
            Some(json) => Ok(Glb { json, binary }),
            None => Err(invalid_dataset("the file has no JSON chunk")),
        }
    }
}

/// Where the nine pieces of a file stand.
proof fn lemma_layout(
    p0: Seq<u8>,
    p1: Seq<u8>,
    p2: Seq<u8>,
    p3: Seq<u8>,
    p4: Seq<u8>,
    json: Seq<u8>,
    p6: Seq<u8>,
    p7: Seq<u8>,
    bytes: Seq<u8>,
)
    requires
        p0.len() == 4,
        p1.len() == 4,
        p2.len() == 4,
        p3.len() == 4,
        p4.len() == 4,
        p6.len() == 4,
        p7.len() == 4,
    ensures
        ({
            let all = p0 + p1 + p2 + p3 + p4 + json + p6 + p7 + bytes;
            let j = json.len() as int;
            &&& all.len() == 28 + j + bytes.len()
            &&& all.subrange(0, 4) == p0
            &&& all.subrange(4, 8) == p1
            &&& all.subrange(12, 16) == p3
            &&& all.subrange(16, 20) == p4
            &&& all.subrange(20, 20 + j) == json
            &&& all.subrange(20 + j, 24 + j) == p6
            &&& all.subrange(24 + j, 28 + j) == p7
            &&& all.subrange(28 + j, 28 + j + bytes.len() as int) == bytes
        }),
{
    let all = p0 + p1 + p2 + p3 + p4 + json + p6 + p7 + bytes;
    let j = json.len() as int;
    assert(all.subrange(0, 4) =~= p0);
    assert(all.subrange(4, 8) =~= p1);
    assert(all.subrange(12, 16) =~= p3);
    assert(all.subrange(16, 20) =~= p4);
    assert(all.subrange(20, 20 + j) =~= json);
    assert(all.subrange(20 + j, 24 + j) =~= p6);
    assert(all.subrange(24 + j, 28 + j) =~= p7);
    assert(all.subrange(28 + j, 28 + j + bytes.len() as int) =~= bytes);
}

proof fn lemma_padded(bytes: Seq<u8>, with: u8)
    ensures
        padded(bytes, with).len() == padded_length(bytes.len() as int),
        padded(bytes, with).len() % 4 == 0,
{
    reveal(padded);
}

proof fn lemma_le(word: u32)
    ensures
        le(word).len() == 4,
{
    reveal(le);
}

/// What the two chunks of a file hold, given where its words stand.
proof fn lemma_two_chunks(all: Seq<u8>, json: Seq<u8>, bytes: Seq<u8>)
    requires
        all.len() == 28 + json.len() + bytes.len(),
        json.len() % 4 == 0,
        bytes.len() % 4 == 0,
        word(all, 0) == MAGIC,
        word(all, 4) == 2,
        word(all, 12) == json.len(),
        word(all, 16) == JSON_CHUNK,
        word(all, 20 + json.len() as int) == bytes.len(),
        word(all, 24 + json.len() as int) == BINARY_CHUNK,
        all.subrange(20, 20 + json.len() as int) == json,
        all.subrange(28 + json.len() as int, all.len() as int) == bytes,
    ensures
        contents(all) == match parsed(json) {
            Ok(json) => Ok::<_, Fault>((json, bytes)),
            Err(words) => Err(Fault::Json(words)),
        },
{
    let (j, b) = (json.len() as int, bytes.len() as int);
    if let Ok(read) = parsed(json) {
        assert(chunks(all, 28 + j + b, Some(read), bytes) == Ok::<_, Fault>((Some(read), bytes)));
        assert(chunks(all, 20 + j, Some(read), Seq::empty()) == chunks(
            all,
            28 + j + b,
            Some(read),
            bytes,
        ));
        assert(chunks(all, 12, None, Seq::empty()) == chunks(
            all,
            20 + j,
            Some(read),
            Seq::empty(),
        ));
    }
}

/// What a written file holds.
proof fn lemma_file(text: Seq<u8>, binary: Seq<u8>)
    requires
        file(text, binary).len() <= u32::MAX,
    ensures
        contents(file(text, binary)) == match parsed(padded(text, 0x20)) {
            Ok(json) => Ok::<_, Fault>((json, padded(binary, 0))),
            Err(words) => Err(Fault::Json(words)),
        },
{
    let (json, bytes) = (padded(text, 0x20), padded(binary, 0));
    let all = file(text, binary);
    let total = low_word((28 + json.len() + bytes.len()) as int);
    let (json_word, bytes_word) = (low_word(json.len() as int), low_word(bytes.len() as int));
    lemma_padded(text, 0x20);
    lemma_padded(binary, 0);
    lemma_le(MAGIC);
    lemma_le(2);
    lemma_le(total);
    lemma_le(json_word);
    lemma_le(JSON_CHUNK);
    lemma_le(bytes_word);
    lemma_le(BINARY_CHUNK);
    lemma_layout(
        le(MAGIC),
        le(2),
        le(total),
        le(json_word),
        le(JSON_CHUNK),
        json,
        le(bytes_word),
        le(BINARY_CHUNK),
        bytes,
    );
    let j = json.len() as int;
    lemma_word(all, 0, MAGIC);
    lemma_word(all, 4, 2);
    lemma_word(all, 12, json_word);
    lemma_word(all, 16, JSON_CHUNK);
    lemma_word(all, 20 + j, bytes_word);
    lemma_word(all, 24 + j, BINARY_CHUNK);
    lemma_two_chunks(all, json, bytes);
}

/// A file whose text is read back holds what was written.
proof fn lemma_read_back(text: Seq<u8>, binary: Seq<u8>, tree: Tree)
    requires
        reads_back(text, tree),
        file(text, binary).len() <= u32::MAX,
    ensures
        contents(file(text, binary)) is Ok,
        agrees(contents(file(text, binary))->Ok_0.0, tree),
        contents(file(text, binary))->Ok_0.1 == padded(binary, 0),
{
    lemma_file(text, binary);
    let spaces = Seq::new((padded_length(text.len() as int) - text.len()) as nat, |i: int| 0x20u8);
    reveal(padded);
    assert(all_spaces(spaces));
    assert(padded(text, 0x20) == text + spaces);
}

impl Glb {
    /// The container: header, JSON chunk, binary chunk.
    ///
    /// Both chunks are padded to four bytes, the JSON with spaces so that it
    /// still parses, the binary with zeros. What is read back of the file is
    /// the same document, but perhaps for the digits of its fractions, and the
    /// same bytes with their padding.
    pub fn to_bytes(&self) -> (bytes: Vec<u8>)
        ensures
            bytes@ == file(rendered(written(tree(self.json))), self.binary@),
            is_plain(tree(self.json), 127) && bytes@.len() <= u32::MAX ==> contents(bytes@) is Ok
                && agrees(contents(bytes@)->Ok_0.0, tree(self.json)) && contents(bytes@)->Ok_0.1
                == padded(self.binary@, 0),
    {
        let mut json = self.json.to_bytes();
        let ghost text = json@;
        pad(&mut json, 0x20);
        let mut binary: Vec<u8> = Vec::new();
        extend(&mut binary, &self.binary);
        assert(binary@ =~= self.binary@);
        pad(&mut binary, 0);
        let bytes = assemble(&json, &binary);
        proof {
            assert(bytes@ == file(text, self.binary@));
            if is_plain(tree(self.json), 127) && bytes@.len() <= u32::MAX {
                lemma_read_back(text, self.binary@, tree(self.json));
            }
        }
        bytes
    }
}

/// Puts the header before two chunks.
fn assemble(json: &Vec<u8>, binary: &Vec<u8>) -> (bytes: Vec<u8>)
    ensures
        bytes@ == frame(json@, binary@),
{
    let mut bytes: Vec<u8> = Vec::new();
    push_word(&mut bytes, MAGIC);
    assert(bytes@ =~= le(MAGIC));
    push_word(&mut bytes, 2);
    push_word(&mut bytes, low_sum(28, json.len(), binary.len()));
    push_word(&mut bytes, low_sum(0, json.len(), 0));
    push_word(&mut bytes, JSON_CHUNK);
    extend(&mut bytes, json);
    push_word(&mut bytes, low_sum(0, binary.len(), 0));
    push_word(&mut bytes, BINARY_CHUNK);
    extend(&mut bytes, binary);
    bytes
}

/// The low 32 bits of a sum of lengths.
fn low_sum(a: usize, b: usize, c: usize) -> (word: u32)
    ensures
        word == low_word(a + b + c),
{
    let sum: u128 = a as u128 + b as u128 + c as u128;
    (sum % 0x1_0000_0000) as u32
}

/// Adds bytes.
pub(crate) fn extend(bytes: &mut Vec<u8>, more: &Vec<u8>)
    ensures
        final(bytes)@ == old(bytes)@ + more@,
{
    let ghost start = bytes@;
    let mut i: usize = 0;
    while i < more.len()
        invariant
            i <= more@.len(),
            bytes@ == start + more@.take(i as int),
        decreases more.len() - i,
    {
        bytes.push(more[i]);
        i = i + 1;
        assert(bytes@ =~= start + more@.take(i as int));
    }
    assert(more@.take(i as int) =~= more@);
}

} // verus!
