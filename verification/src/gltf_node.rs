//! What a node of a scene says of its transform: either the matrix it states,
//! or the translation, rotation and scale it states instead.
use crate::json::{items, member, tree, tree_of, Json, Tree};
use vstd::prelude::*;

verus! {

/// One number of a transform.
#[derive(Debug, PartialEq, Eq)]
pub enum Entry {
    Zero,
    One,
    /// The number with this decimal text.
    Number(String),
}

/// What a number of a transform is.
pub ghost enum Slot {
    Zero,
    One,
    Number(Seq<char>),
}

impl View for Entry {
    type V = Slot;

    open spec fn view(&self) -> Slot {
        match self {
            Entry::Zero => Slot::Zero,
            Entry::One => Slot::One,
            Entry::Number(text) => Slot::Number(text@),
        }
    }
}

/// The numbers of a node's transform: a matrix of sixteen, column by column, or
/// four for each of its parts.
#[derive(Debug, PartialEq, Eq)]
pub enum Transform {
    Matrix(Vec<Entry>),
    Parts { translation: Vec<Entry>, rotation: Vec<Entry>, scale: Vec<Entry> },
}

/// What the entries of a list are.
pub open spec fn slots(entries: Seq<Entry>) -> Seq<Slot> {
    entries.map_values(|entry: Entry| entry@)
}

/// The numbers a list states, over those it falls back on where it ends. An
/// item that is no number counts as zero; what is no list states nothing.
pub open spec fn stated(list: Tree, fallback: Seq<Slot>) -> Seq<Slot> {
    Seq::new(
        fallback.len(),
        |i: int|
            if list is Array && i < list->Array_0.len() {
                match list->Array_0[i].number_text() {
                    Some(text) => Slot::Number(text),
                    None => Slot::Zero,
                }
            } else {
                fallback[i]
            },
    )
}

/// The matrix that changes nothing.
pub open spec fn identity() -> Seq<Slot> {
    Seq::new(
        16,
        |i: int|
            if i % 5 == 0 {
                Slot::One
            } else {
                Slot::Zero
            },
    )
}

/// Whether a transform is the one a node states.
pub open spec fn is_transform(node: Tree, transform: Transform) -> bool {
    match transform {
        Transform::Matrix(matrix) => {
            &&& node.get("matrix"@) is Array
            &&& slots(matrix@) == stated(node.get("matrix"@), identity())
        },
        Transform::Parts { translation, rotation, scale } => {
            &&& !(node.get("matrix"@) is Array)
            &&& slots(translation@) == stated(
                node.get("translation"@),
                seq![Slot::Zero, Slot::Zero, Slot::Zero, Slot::Zero],
            )
            &&& slots(rotation@) == stated(
                node.get("rotation"@),
                seq![Slot::Zero, Slot::Zero, Slot::Zero, Slot::One],
            )
            &&& slots(scale@) == stated(
                node.get("scale"@),
                seq![Slot::One, Slot::One, Slot::One, Slot::One],
            )
        },
    }
}

/// The numbers a list states, over those it falls back on.
fn read(list: Option<&Json>, fallback: Vec<Entry>) -> (entries: Vec<Entry>)
    ensures
        slots(entries@) == stated(tree_of(list), slots(fallback@)),
{
    let mut entries = fallback;
    if let Some(values) = items(list) {
        let count: usize = entries.len();
        let mut i: usize = 0;
        while i < count && i < values.len()
            invariant
                i <= count,
                i <= values@.len(),
                count == entries@.len() == fallback@.len(),
                tree_of(list) is Array,
                tree_of(list)->Array_0.len() == values@.len(),
                forall|j: int|
                    0 <= j < values@.len() ==> tree_of(list)->Array_0[j] == tree(
                        #[trigger] values@[j],
                    ),
                forall|j: int| i <= j < count ==> #[trigger] entries@[j] == fallback@[j],
                forall|j: int|
                    0 <= j < i ==> (#[trigger] entries@[j])@ == stated(
                        tree_of(list),
                        slots(fallback@),
                    )[j],
            decreases count - i,
        {
            let entry = match values[i].as_number() {
                Some(text) => Entry::Number(text),
                None => Entry::Zero,
            };
            assert(entry@ == stated(tree_of(list), slots(fallback@))[i as int]);
            entries.set(i, entry);
            i = i + 1;
        }
    }
    assert(slots(entries@) =~= stated(tree_of(list), slots(fallback@)));
    entries
}

/// The transform a node states.
pub fn node_transform(node: Option<&Json>) -> (transform: Transform)
    ensures
        is_transform(tree_of(node), transform),
{
    let matrix = member(node, "matrix");
    if items(matrix).is_some() {
        let mut fallback: Vec<Entry> = Vec::new();
        let mut i: usize = 0;
        while i < 16
            invariant
                i <= 16,
                fallback@.len() == i,
                forall|j: int| 0 <= j < i ==> (#[trigger] fallback@[j])@ == identity()[j],
            decreases 16 - i,
        {
            fallback.push(
                if i % 5 == 0 {
                    Entry::One
                } else {
                    Entry::Zero
                },
            );
            i = i + 1;
        }
        assert(slots(fallback@) =~= identity());
        return Transform::Matrix(read(matrix, fallback));
    }
    let none = vec![Entry::Zero, Entry::Zero, Entry::Zero, Entry::Zero];
    let still = vec![Entry::Zero, Entry::Zero, Entry::Zero, Entry::One];
    let whole = vec![Entry::One, Entry::One, Entry::One, Entry::One];
    assert(slots(none@) =~= seq![Slot::Zero, Slot::Zero, Slot::Zero, Slot::Zero]);
    assert(slots(still@) =~= seq![Slot::Zero, Slot::Zero, Slot::Zero, Slot::One]);
    assert(slots(whole@) =~= seq![Slot::One, Slot::One, Slot::One, Slot::One]);
    Transform::Parts {
        translation: read(member(node, "translation"), none),
        rotation: read(member(node, "rotation"), still),
        scale: read(member(node, "scale"), whole),
    }
}

} // verus!
