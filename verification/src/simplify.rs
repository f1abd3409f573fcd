//! Simplifying a mesh by collapsing its edges, cheapest first.
//!
//! Every vertex carries a *quadric*, which says what moving it costs; an edge
//! is priced at the point it would collapse onto. What a quadric is, what a
//! collapse costs and whether it turns a face inside out are up to the caller.
//! What happens to the faces, the vertices and the queue is decided here.
use crate::compact::{
    is_compacted, is_proper, is_renewed, is_used, law_colours_are_carried, law_nothing_dangles,
};
use crate::edges::{edge, ordered, uses, Edges};
use crate::counting::{lemma_trues_all, lemma_trues_update, trues};
use crate::mesh::Mesh;
use crate::queue::{Collapse, Queue};
use crate::simplify_law::{law_run_shrinks, law_simplified_size};
use vstd::multiset::Multiset;
use vstd::prelude::*;

verus! {

/// A mesh in the middle of being simplified.
#[verifier::ext_equal]
pub ghost struct State<T, Q> {
    pub positions: Seq<[T; 3]>,
    pub quadrics: Seq<Q>,
    pub faces: Seq<[u32; 3]>,
    pub alive: Seq<bool>,
    /// How many faces are alive.
    pub live: nat,
    /// The faces around each vertex.
    pub around: Seq<Seq<u32>>,
    pub vertex_alive: Seq<bool>,
    /// How often each vertex has taken a collapse.
    pub stamps: Seq<u32>,
    pub queue: Multiset<Collapse<[T; 3]>>,
}

// -- Faces -------------------------------------------------------------------

/// Whether a vertex is a corner of a face.
pub open spec fn holds(face: [u32; 3], v: u32) -> bool {
    face[0] == v || face[1] == v || face[2] == v
}

/// A face with one vertex in place of another.
pub open spec fn renamed(face: [u32; 3], from: u32, into: u32) -> [u32; 3] {
    [
        if face[0] == from { into } else { face[0] },
        if face[1] == from { into } else { face[1] },
        if face[2] == from { into } else { face[2] },
    ]
}

/// The faces of a mesh while those around one vertex move over to another.
#[verifier::ext_equal]
pub ghost struct Moved {
    pub faces: Seq<[u32; 3]>,
    pub alive: Seq<bool>,
    pub live: nat,
    pub gained: Seq<u32>,
}

/// What becomes of the faces when the first `k` of those around `from` move
/// over to `into`: the faces along the collapsed edge die, and the rest have
/// the surviving vertex in place of the other.
pub open spec fn moved<T, Q>(s: State<T, Q>, from: u32, into: u32, k: int) -> Moved
    decreases k,
{
    if k <= 0 {
        Moved { faces: s.faces, alive: s.alive, live: s.live, gained: Seq::empty() }
    } else {
        let m = moved(s, from, into, k - 1);
        let f = s.around[from as int][k - 1];
        if !m.alive[f as int] {
            m
        } else if holds(m.faces[f as int], into) {
            Moved {
                alive: m.alive.update(f as int, false),
                live: if m.live > 0 { (m.live - 1) as nat } else { 0 },
                ..m
            }
        } else {
            Moved {
                faces: m.faces.update(f as int, renamed(m.faces[f as int], from, into)),
                gained: m.gained.push(f),
                ..m
            }
        }
    }
}

/// Whether a corner is another vertex than the given one.
pub open spec fn other_than(v: u32) -> spec_fn(u32) -> bool {
    |c: u32| c != v
}

/// The corners of a face other than one vertex.
pub open spec fn other_corners(face: [u32; 3], v: u32) -> Seq<u32> {
    seq![face[0], face[1], face[2]].filter(other_than(v))
}

/// The neighbours of a vertex among the first `k` of a list of faces, once for
/// every face they share.
pub open spec fn neighbours(list: Seq<u32>, faces: Seq<[u32; 3]>, v: u32, k: int) -> Seq<u32>
    decreases k,
{
    if k <= 0 {
        Seq::empty()
    } else {
        neighbours(list, faces, v, k - 1) + other_corners(faces[list[k - 1] as int], v)
    }
}

// -- Pricing -----------------------------------------------------------------

/// What pricing an edge answered: nothing for an edge of one vertex, else what
/// the caller's price says of its two ends.
pub open spec fn priced<T, Q, W: Fn([T; 3], [T; 3], Q, Q) -> Option<(u32, [T; 3])>>(
    weigh: W,
    s: State<T, Q>,
    e: (u32, u32),
    answer: Option<Collapse<[T; 3]>>,
) -> bool {
    let (from, into) = (e.0 as int, e.1 as int);
    let ends = (s.positions[from], s.positions[into], s.quadrics[from], s.quadrics[into]);
    if e.0 == e.1 {
        answer is None
    } else {
        match answer {
            None => call_ensures(weigh, ends, None),
            Some(c) => {
                &&& c.from == e.0
                &&& c.into == e.1
                &&& c.from_stamp == s.stamps[from]
                &&& c.into_stamp == s.stamps[into]
                &&& call_ensures(weigh, ends, Some((c.key, c.position)))
            },
        }
    }
}

/// Whether these are answers to pricing a list of edges in turn.
pub open spec fn all_priced<T, Q, W: Fn([T; 3], [T; 3], Q, Q) -> Option<(u32, [T; 3])>>(
    weigh: W,
    s: State<T, Q>,
    list: Seq<(u32, u32)>,
    answers: Seq<Option<Collapse<[T; 3]>>>,
) -> bool {
    &&& answers.len() == list.len()
    &&& forall|i: int| 0 <= i < list.len() ==> priced(weigh, s, list[i], #[trigger] answers[i])
}

/// The collapses among a list of answers.
pub open spec fn offers<T>(answers: Seq<Option<Collapse<[T; 3]>>>) -> Multiset<Collapse<[T; 3]>>
    decreases answers.len(),
{
    if answers.len() == 0 {
        Multiset::empty()
    } else {
        match answers.last() {
            Some(c) => offers(answers.drop_last()).insert(c),
            None => offers(answers.drop_last()),
        }
    }
}

// -- Steps -------------------------------------------------------------------

/// Whether an entry was queued before one of its ends last moved or died.
pub open spec fn is_stale<T, Q>(s: State<T, Q>, c: Collapse<[T; 3]>) -> bool {
    ||| !s.vertex_alive[c.from as int]
    ||| !s.vertex_alive[c.into as int]
    ||| s.stamps[c.from as int] != c.from_stamp
    ||| s.stamps[c.into as int] != c.into_stamp
}

/// Whether a face is one that a collapse moves without killing it.
pub open spec fn is_at_risk<T, Q>(s: State<T, Q>, c: Collapse<[T; 3]>, f: u32) -> bool {
    &&& s.around[c.from as int].contains(f) || s.around[c.into as int].contains(f)
    &&& s.alive[f as int]
    &&& !(holds(s.faces[f as int], c.from) && holds(s.faces[f as int], c.into))
}

/// The positions of a face's corners before a collapse.
pub open spec fn before_collapse<T, Q>(s: State<T, Q>, f: u32) -> [[T; 3]; 3] {
    let face = s.faces[f as int];
    [
        s.positions[face[0] as int],
        s.positions[face[1] as int],
        s.positions[face[2] as int],
    ]
}

/// Where a corner would be after a collapse.
pub open spec fn corner_after<T, Q>(s: State<T, Q>, c: Collapse<[T; 3]>, corner: u32) -> [T; 3] {
    if corner == c.from || corner == c.into {
        c.position
    } else {
        s.positions[corner as int]
    }
}

/// The positions of a face's corners after a collapse.
pub open spec fn after_collapse<T, Q>(s: State<T, Q>, c: Collapse<[T; 3]>, f: u32) -> [[T; 3]; 3] {
    let face = s.faces[f as int];
    [
        corner_after(s, c, face[0]),
        corner_after(s, c, face[1]),
        corner_after(s, c, face[2]),
    ]
}

/// Whether a collapse was refused because it would turn some face inside out.
pub open spec fn is_refused<T, Q, F: Fn([[T; 3]; 3], [[T; 3]; 3]) -> bool>(
    flips: F,
    s: State<T, Q>,
    c: Collapse<[T; 3]>,
) -> bool {
    exists|f: u32| #[trigger]
        is_at_risk(s, c, f) && call_ensures(
            flips,
            (before_collapse(s, f), after_collapse(s, c, f)),
            true,
        )
}

/// Whether a collapse was found to leave every face the right way round.
pub open spec fn is_safe<T, Q, F: Fn([[T; 3]; 3], [[T; 3]; 3]) -> bool>(
    flips: F,
    s: State<T, Q>,
    c: Collapse<[T; 3]>,
) -> bool {
    forall|f: u32| #[trigger]
        is_at_risk(s, c, f) ==> call_ensures(
            flips,
            (before_collapse(s, f), after_collapse(s, c, f)),
            false,
        )
}

/// The edges that are priced anew after a collapse.
pub open spec fn fresh_edges<T, Q>(t: State<T, Q>, into: u32) -> Seq<(u32, u32)> {
    let list = t.around[into as int];
    neighbours(list, t.faces, into, list.len() as int).filter(
        |n: u32| t.vertex_alive[n as int],
    ).map_values(|n: u32| edge(into, n))
}

/// Whether taking a collapse leads from `s` to `t`.
pub open spec fn collapses<
    T,
    Q,
    W: Fn([T; 3], [T; 3], Q, Q) -> Option<(u32, [T; 3])>,
    M: Fn(Q, Q) -> Q,
>(weigh: W, merge: M, s: State<T, Q>, c: Collapse<[T; 3]>, t: State<T, Q>) -> bool {
    let (from, into) = (c.from as int, c.into as int);
    let m = moved(s, c.from, c.into, s.around[from].len() as int);
    &&& t.positions == s.positions.update(into, c.position)
    &&& t.quadrics == s.quadrics.update(into, t.quadrics[into])
    &&& call_ensures(merge, (s.quadrics[into], s.quadrics[from]), t.quadrics[into])
    &&& t.vertex_alive == s.vertex_alive.update(from, false)
    &&& t.stamps == s.stamps.update(into, (s.stamps[into] + 1) as u32)
    &&& t.faces == m.faces
    &&& t.alive == m.alive
    &&& t.live == m.live
    &&& t.around == s.around.update(from, Seq::empty()).update(
        into,
        (s.around[into] + m.gained).filter(|f: u32| m.alive[f as int]),
    )
    &&& exists|answers: Seq<Option<Collapse<[T; 3]>>>| #[trigger]
        all_priced(weigh, t, fresh_edges(t, c.into), answers) && t.queue == s.queue.remove(c).add(
            offers(answers),
        )
}

/// Whether one step leads from `s` to `t`: the cheapest entry leaves the
/// queue, and is taken unless it is stale or refused.
pub open spec fn steps<
    T,
    Q,
    W: Fn([T; 3], [T; 3], Q, Q) -> Option<(u32, [T; 3])>,
    F: Fn([[T; 3]; 3], [[T; 3]; 3]) -> bool,
    M: Fn(Q, Q) -> Q,
>(weigh: W, flips: F, merge: M, s: State<T, Q>, t: State<T, Q>) -> bool {
    exists|c: Collapse<[T; 3]>| #[trigger] step_by(weigh, flips, merge, s, c, t)
}

/// Whether one step leads from `s` to `t` by the given entry.
pub open spec fn step_by<
    T,
    Q,
    W: Fn([T; 3], [T; 3], Q, Q) -> Option<(u32, [T; 3])>,
    F: Fn([[T; 3]; 3], [[T; 3]; 3]) -> bool,
    M: Fn(Q, Q) -> Q,
>(weigh: W, flips: F, merge: M, s: State<T, Q>, c: Collapse<[T; 3]>, t: State<T, Q>) -> bool {
    &&& s.queue.count(c) > 0
    &&& forall|other: Collapse<[T; 3]>| #[trigger] s.queue.count(other) > 0 ==> c.key <= other.key
    &&& if is_stale(s, c) {
        t == (State { queue: s.queue.remove(c), ..s })
    } else {
        ||| is_refused(flips, s, c) && t == (State { queue: s.queue.remove(c), ..s })
        ||| is_safe(flips, s, c) && collapses(weigh, merge, s, c, t)
    }
}

/// The faces around a vertex among the first `k`, once for every corner that
/// is the vertex.
pub open spec fn incident(faces: Seq<[u32; 3]>, v: u32, k: int) -> Seq<u32>
    decreases k,
{
    if k <= 0 {
        Seq::empty()
    } else {
        let before = incident(faces, v, k - 1);
        let f = (k - 1) as u32;
        let first = if faces[k - 1][0] == v { before.push(f) } else { before };
        let second = if faces[k - 1][1] == v { first.push(f) } else { first };
        if faces[k - 1][2] == v { second.push(f) } else { second }
    }
}

/// Whether simplifying starts at `s`: every face and vertex alive, and every
/// edge of the mesh priced once, in some order.
pub open spec fn starts<T, Q, W: Fn([T; 3], [T; 3], Q, Q) -> Option<(u32, [T; 3])>>(
    weigh: W,
    mesh: Mesh<T>,
    quadrics: Seq<Q>,
    s: State<T, Q>,
) -> bool {
    let (faces, n) = (mesh.indices@, mesh.positions@.len());
    &&& s.positions == mesh.positions@
    &&& s.quadrics == quadrics
    &&& s.faces == faces
    &&& s.alive == Seq::new(faces.len(), |f: int| true)
    &&& s.live == faces.len()
    &&& s.around == Seq::new(n, |v: int| incident(faces, v as u32, faces.len() as int))
    &&& s.vertex_alive == Seq::new(n, |v: int| true)
    &&& s.stamps == Seq::new(n, |v: int| 0u32)
    &&& exists|list: Seq<(u32, u32)>, answers: Seq<Option<Collapse<[T; 3]>>>|
        list.no_duplicates() && (forall|e: (u32, u32)| #[trigger]
            list.contains(e) <==> uses(faces, e) > 0) && #[trigger] all_priced(
            weigh,
            s,
            list,
            answers,
        ) && s.queue == offers(answers)
}

/// Whether a run of states is how simplifying a mesh down to `target` faces
/// went: it goes on while there are more faces and something is queued.
pub open spec fn is_run<
    T,
    Q,
    W: Fn([T; 3], [T; 3], Q, Q) -> Option<(u32, [T; 3])>,
    F: Fn([[T; 3]; 3], [[T; 3]; 3]) -> bool,
    M: Fn(Q, Q) -> Q,
>(
    weigh: W,
    flips: F,
    merge: M,
    mesh: Mesh<T>,
    quadrics: Seq<Q>,
    target: nat,
    run: Seq<State<T, Q>>,
) -> bool {
    &&& run.len() > 0
    &&& starts(weigh, mesh, quadrics, run[0])
    &&& forall|i: int|
        0 <= i < run.len() - 1 ==> (#[trigger] run[i]).live > target && steps(
            weigh,
            flips,
            merge,
            run[i],
            run[i + 1],
        )
}

// -- Doing it ----------------------------------------------------------------

/// The numbers in a list of lists.
spec fn lists(around: Seq<Vec<u32>>) -> Seq<Seq<u32>> {
    around.map_values(|list: Vec<u32>| list@)
}

/// Whether the parts of a state go together.
pub open spec fn is_sound<T, Q>(s: State<T, Q>) -> bool {
    let n = s.positions.len();
    &&& n <= u32::MAX
    &&& s.quadrics.len() == n
    &&& s.around.len() == n
    &&& s.vertex_alive.len() == n
    &&& s.stamps.len() == n
    &&& s.faces.len() <= u32::MAX
    &&& s.alive.len() == s.faces.len()
    &&& s.live == trues(s.alive)
    &&& forall|f: int|
        0 <= f < s.faces.len() ==> (#[trigger] s.faces[f])[0] < n && s.faces[f][1] < n
            && s.faces[f][2] < n
    &&& forall|v: int, i: int|
        0 <= v < n && 0 <= i < s.around[v].len() ==> (#[trigger] s.around[v][i]) < s.faces.len()
    &&& forall|v: int| 0 <= v < n ==> (#[trigger] s.stamps[v]) + trues(s.vertex_alive) <= n
    &&& forall|c: Collapse<[T; 3]>| #[trigger]
        s.queue.count(c) > 0 ==> c.from < n && c.into < n && c.from != c.into
}

struct Surgery<T, Q> {
    positions: Vec<[T; 3]>,
    quadrics: Vec<Q>,
    faces: Vec<[u32; 3]>,
    alive: Vec<bool>,
    live: usize,
    around: Vec<Vec<u32>>,
    vertex_alive: Vec<bool>,
    stamps: Vec<u32>,
    queue: Queue<[T; 3]>,
}

impl<T: Copy, Q: Copy> Surgery<T, Q> {
    spec fn state(&self) -> State<T, Q> {
        State {
            positions: self.positions@,
            quadrics: self.quadrics@,
            faces: self.faces@,
            alive: self.alive@,
            live: self.live as nat,
            around: lists(self.around@),
            vertex_alive: self.vertex_alive@,
            stamps: self.stamps@,
            queue: self.queue.entries(),
        }
    }

    spec fn wf(&self) -> bool {
        is_sound(self.state()) && self.queue.wf()
    }

    /// Prices an edge and queues it.
    fn offer<W: Fn([T; 3], [T; 3], Q, Q) -> Option<(u32, [T; 3])>>(
        &mut self,
        e: (u32, u32),
        weigh: &W,
    ) -> (answer: Ghost<Option<Collapse<[T; 3]>>>)
        requires
            old(self).wf(),
            e.0 < old(self).positions@.len(),
            e.1 < old(self).positions@.len(),
            forall|a: [T; 3], b: [T; 3], q: Q, r: Q| #[trigger] call_requires(weigh, (a, b, q, r)),
        ensures
            final(self).wf(),
            priced(*weigh, old(self).state(), e, answer@),
            final(self).state() == (State {
                queue: match answer@ {
                    Some(c) => old(self).state().queue.insert(c),
                    None => old(self).state().queue,
                },
                ..old(self).state()
            }),
    {
        broadcast use vstd::multiset::group_multiset_axioms;

        if e.0 == e.1 {
            return Ghost(None);
        }
        let (from, into) = (e.0 as usize, e.1 as usize);
        match weigh(
            self.positions[from],
            self.positions[into],
            self.quadrics[from],
            self.quadrics[into],
        ) {
            Some((key, position)) => {
                let c = Collapse {
                    key,
                    from: e.0,
                    into: e.1,
                    from_stamp: self.stamps[from],
                    into_stamp: self.stamps[into],
                    position,
                };
                self.queue.push(c);
                Ghost(Some(c))
            },
            None => Ghost(None),
        }
    }

    /// Prices a list of edges and queues them.
    fn offer_all<W: Fn([T; 3], [T; 3], Q, Q) -> Option<(u32, [T; 3])>>(
        &mut self,
        list: &Vec<(u32, u32)>,
        weigh: &W,
    ) -> (answers: Ghost<Seq<Option<Collapse<[T; 3]>>>>)
        requires
            old(self).wf(),
            forall|i: int|
                0 <= i < list@.len() ==> (#[trigger] list@[i]).0 < old(self).positions@.len()
                    && list@[i].1 < old(self).positions@.len(),
            forall|a: [T; 3], b: [T; 3], q: Q, r: Q| #[trigger] call_requires(weigh, (a, b, q, r)),
        ensures
            final(self).wf(),
            all_priced(*weigh, old(self).state(), list@, answers@),
            final(self).state() == (State {
                queue: old(self).state().queue.add(offers(answers@)),
                ..old(self).state()
            }),
    {
        broadcast use vstd::multiset::group_multiset_axioms;

        let ghost start = self.state();
        let ghost mut answers: Seq<Option<Collapse<[T; 3]>>> = Seq::empty();
        let mut i: usize = 0;
        assert(start.queue.add(offers(answers)) =~= start.queue);
        while i < list.len()
            invariant
                i <= list@.len(),
                self.wf(),
                start == old(self).state(),
                self.state() == (State { queue: start.queue.add(offers(answers)), ..start }),
                forall|i: int|
                    0 <= i < list@.len() ==> (#[trigger] list@[i]).0 < start.positions.len()
                        && list@[i].1 < start.positions.len(),
                forall|a: [T; 3], b: [T; 3], q: Q, r: Q| #[trigger]
                    call_requires(weigh, (a, b, q, r)),
                answers.len() == i,
                forall|k: int|
                    0 <= k < i ==> priced(*weigh, start, list@[k], #[trigger] answers[k]),
            decreases list.len() - i,
        {
            let answer = self.offer(list[i], weigh);
            proof {
                let before = answers;
                answers = answers.push(answer@);
                assert(answers.drop_last() =~= before);
                assert(start.queue.add(offers(answers)) =~= match answer@ {
                    Some(c) => start.queue.add(offers(before)).insert(c),
                    None => start.queue.add(offers(before)),
                });
            }
            i = i + 1;
        }
        Ghost(answers)
    }

    /// Whether a collapse would turn some face around one vertex inside out.
    fn folds_around<F: Fn([[T; 3]; 3], [[T; 3]; 3]) -> bool>(
        &self,
        c: &Collapse<[T; 3]>,
        vertex: u32,
        flips: &F,
    ) -> (folds: bool)
        requires
            self.wf(),
            c.from < self.positions@.len(),
            c.into < self.positions@.len(),
            vertex == c.from || vertex == c.into,
            forall|a: [[T; 3]; 3], b: [[T; 3]; 3]| #[trigger] call_requires(flips, (a, b)),
        ensures
            folds ==> is_refused(*flips, self.state(), *c),
            !folds ==> forall|f: u32|
                is_at_risk(self.state(), *c, f) && self.state().around[vertex as int].contains(f)
                    ==> call_ensures(
                    flips,
                    (
                        #[trigger] before_collapse(self.state(), f),
                        after_collapse(self.state(), *c, f),
                    ),
                    false,
                ),
    {
        let ghost s = self.state();
        let list = &self.around[vertex as usize];
        assert(s.around[vertex as int] == list@);
        let mut i: usize = 0;
        while i < list.len()
            invariant
                i <= list@.len(),
                self.wf(),
                s == self.state(),
                vertex < s.positions.len(),
                list@ == s.around[vertex as int],
                c.from < s.positions.len(),
                c.into < s.positions.len(),
                vertex == c.from || vertex == c.into,
                forall|a: [[T; 3]; 3], b: [[T; 3]; 3]| #[trigger] call_requires(flips, (a, b)),
                forall|k: int|
                    0 <= k < i && is_at_risk(s, *c, list@[k]) ==> call_ensures(
                        flips,
                        (before_collapse(s, #[trigger] list@[k]), after_collapse(s, *c, list@[k])),
                        false,
                    ),
            decreases list.len() - i,
        {
            let f: u32 = list[i];
            assert(s.around[vertex as int][i as int] < s.faces.len());
            let face = self.faces[f as usize];
            let from_here = face[0] == c.from || face[1] == c.from || face[2] == c.from;
            let into_here = face[0] == c.into || face[1] == c.into || face[2] == c.into;
            if self.alive[f as usize] && !(from_here && into_here) {
                assert(list@.contains(f)) by {
                    assert(list@[i as int] == f);
                }
                assert(s.faces[f as int] == face);
                let before = [
                    self.positions[face[0] as usize],
                    self.positions[face[1] as usize],
                    self.positions[face[2] as usize],
                ];
                let after = [
                    self.corner_after(c, face[0]),
                    self.corner_after(c, face[1]),
                    self.corner_after(c, face[2]),
                ];
                assert(before == before_collapse(s, f));
                assert(after == after_collapse(s, *c, f));
                assert(is_at_risk(s, *c, f));
                if flips(before, after) {
                    return true;
                }
            }
            i = i + 1;
        }
        proof {
            assert forall|f: u32|
                is_at_risk(s, *c, f) && s.around[vertex as int].contains(f) implies call_ensures(
                flips,
                (#[trigger] before_collapse(s, f), after_collapse(s, *c, f)),
                false,
            ) by {
                let k = choose|k: int| 0 <= k < list@.len() && list@[k] == f;
                assert(is_at_risk(s, *c, list@[k]));
            }
        }
        false
    }

    fn corner_after(&self, c: &Collapse<[T; 3]>, corner: u32) -> (position: [T; 3])
        requires
            corner < self.positions@.len(),
        ensures
            position == corner_after(self.state(), *c, corner),
    {
        if corner == c.from || corner == c.into {
            c.position
        } else {
            self.positions[corner as usize]
        }
    }

    /// Whether a collapse would turn any face inside out.
    fn folds<F: Fn([[T; 3]; 3], [[T; 3]; 3]) -> bool>(
        &self,
        c: &Collapse<[T; 3]>,
        flips: &F,
    ) -> (folds: bool)
        requires
            self.wf(),
            c.from < self.positions@.len(),
            c.into < self.positions@.len(),
            forall|a: [[T; 3]; 3], b: [[T; 3]; 3]| #[trigger] call_requires(flips, (a, b)),
        ensures
            folds ==> is_refused(*flips, self.state(), *c),
            !folds ==> is_safe(*flips, self.state(), *c),
    {
        if self.folds_around(c, c.from, flips) {
            return true;
        }
        if self.folds_around(c, c.into, flips) {
            return true;
        }
        proof {
            let s = self.state();
            assert forall|f: u32| #[trigger] is_at_risk(s, *c, f) implies call_ensures(
                flips,
                (before_collapse(s, f), after_collapse(s, *c, f)),
                false,
            ) by {
                let before = before_collapse(s, f);
            }
        }
        false
    }
}

fn copy_list(list: &Vec<u32>) -> (copy: Vec<u32>)
    ensures
        copy@ == list@,
{
    let mut copy: Vec<u32> = Vec::new();
    let mut i: usize = 0;
    while i < list.len()
        invariant
            i <= list@.len(),
            copy@ == list@.take(i as int),
        decreases list.len() - i,
    {
        copy.push(list[i]);
        i = i + 1;
        assert(copy@ =~= list@.take(i as int));
    }
    assert(copy@ =~= list@);
    copy
}

/// Adds the members of a list that are faces still alive.
fn push_alive(kept: &mut Vec<u32>, list: &Vec<u32>, alive: &Vec<bool>)
    requires
        forall|i: int| 0 <= i < list@.len() ==> (#[trigger] list@[i]) < alive@.len(),
    ensures
        final(kept)@ == old(kept)@ + list@.filter(|f: u32| alive@[f as int]),
{
    let ghost start = kept@;
    let ghost chosen = |f: u32| alive@[f as int];
    let mut i: usize = 0;
    proof {
        reveal(Seq::filter);
        assert(list@.take(0).filter(chosen) =~= Seq::empty());
        assert(start + list@.take(0).filter(chosen) =~= start);
    }
    while i < list.len()
        invariant
            i <= list@.len(),
            chosen == (|f: u32| alive@[f as int]),
            forall|i: int| 0 <= i < list@.len() ==> (#[trigger] list@[i]) < alive@.len(),
            kept@ == start + list@.take(i as int).filter(chosen),
        decreases list.len() - i,
    {
        let f: u32 = list[i];
        proof {
            reveal(Seq::filter);
            assert(list@.take(i + 1).drop_last() =~= list@.take(i as int));
        }
        if alive[f as usize] {
            kept.push(f);
            assert(kept@ =~= start + list@.take(i + 1).filter(chosen));
        }
        i = i + 1;
    }
    assert(list@.take(i as int) =~= list@);
}

proof fn lemma_filter_add(a: Seq<u32>, b: Seq<u32>, chosen: spec_fn(u32) -> bool)
    ensures
        (a + b).filter(chosen) == a.filter(chosen) + b.filter(chosen),
    decreases b.len(),
{
    reveal(Seq::filter);
    if b.len() == 0 {
        assert(a + b =~= a);
        assert(a.filter(chosen) + b.filter(chosen) =~= a.filter(chosen));
    } else {
        lemma_filter_add(a, b.drop_last(), chosen);
        assert((a + b).drop_last() =~= a + b.drop_last());
        let tail = b.drop_last().filter(chosen);
        if chosen(b.last()) {
            assert((a.filter(chosen) + tail).push(b.last()) =~= a.filter(chosen) + tail.push(
                b.last(),
            ));
        }
    }
}

pub proof fn lemma_filter_members(list: Seq<u32>, chosen: spec_fn(u32) -> bool)
    ensures
        forall|i: int|
            0 <= i < list.filter(chosen).len() ==> list.contains(
                #[trigger] list.filter(chosen)[i],
            ) && chosen(list.filter(chosen)[i]),
    decreases list.len(),
{
    reveal(Seq::filter);
    if list.len() > 0 {
        let before = list.drop_last();
        lemma_filter_members(before, chosen);
        assert forall|i: int| 0 <= i < list.filter(chosen).len() implies list.contains(
            #[trigger] list.filter(chosen)[i],
        ) && chosen(list.filter(chosen)[i]) by {
            if i < before.filter(chosen).len() {
                let v = before.filter(chosen)[i];
                assert(before.contains(v));
                let j = choose|j: int| 0 <= j < before.len() && before[j] == v;
                assert(list[j] == v);
            } else {
                assert(list[list.len() - 1] == list.filter(chosen)[i]);
            }
        }
    }
}

/// What moving faces from one vertex to another keeps.
pub proof fn lemma_moved<T, Q>(s: State<T, Q>, from: u32, into: u32, k: int)
    requires
        is_sound(s),
        from < s.positions.len(),
        into < s.positions.len(),
        0 <= k <= s.around[from as int].len(),
    ensures
        ({
            let m = moved(s, from, into, k);
            &&& m.faces.len() == s.faces.len()
            &&& m.alive.len() == s.alive.len()
            &&& m.live == trues(m.alive)
            &&& forall|f: int|
                0 <= f < m.faces.len() ==> (#[trigger] m.faces[f])[0] < s.positions.len()
                    && m.faces[f][1] < s.positions.len() && m.faces[f][2] < s.positions.len()
            &&& forall|i: int| 0 <= i < m.gained.len() ==> (#[trigger] m.gained[i]) < s.faces.len()
        }),
    decreases k,
{
    if k > 0 {
        lemma_moved(s, from, into, k - 1);
        let m = moved(s, from, into, k - 1);
        let f = s.around[from as int][k - 1];
        assert(f < s.faces.len());
        if m.alive[f as int] {
            lemma_trues_update(m.alive, f as int);
        }
    }
}

impl<T: Copy, Q: Copy> Surgery<T, Q> {
    /// Moves the faces around one vertex over to another.
    fn move_faces(&mut self, from: u32, into: u32, list: &Vec<u32>, Ghost(s): Ghost<State<T, Q>>) -> (
    gained: Vec<u32>)
        requires
            is_sound(s),
            from < s.positions.len(),
            into < s.positions.len(),
            list@ == s.around[from as int],
            old(self).faces@ == s.faces,
            old(self).alive@ == s.alive,
            old(self).live == s.live,
        ensures
            ({
                let m = moved(s, from, into, list@.len() as int);
                &&& final(self).faces@ == m.faces
                &&& final(self).alive@ == m.alive
                &&& final(self).live == m.live
                &&& gained@ == m.gained
            }),
            final(self).positions == old(self).positions,
            final(self).quadrics == old(self).quadrics,
            final(self).around == old(self).around,
            final(self).vertex_alive == old(self).vertex_alive,
            final(self).stamps == old(self).stamps,
            final(self).queue == old(self).queue,
    {
        let mut gained: Vec<u32> = Vec::new();
        let mut k: usize = 0;
        assert(gained@ =~= moved(s, from, into, 0).gained);
        while k < list.len()
            invariant
                k <= list@.len(),
                is_sound(s),
                from < s.positions.len(),
                into < s.positions.len(),
                list@ == s.around[from as int],
                self.faces@ == moved(s, from, into, k as int).faces,
                self.alive@ == moved(s, from, into, k as int).alive,
                self.live == moved(s, from, into, k as int).live,
                gained@ == moved(s, from, into, k as int).gained,
                self.positions == old(self).positions,
                self.quadrics == old(self).quadrics,
                self.around == old(self).around,
                self.vertex_alive == old(self).vertex_alive,
                self.stamps == old(self).stamps,
                self.queue == old(self).queue,
            decreases list.len() - k,
        {
            proof {
                lemma_moved(s, from, into, k as int);
                assert(s.around[from as int][k as int] < s.faces.len());
            }
            let f: usize = list[k] as usize;
            if self.alive[f] {
                let face = self.faces[f];
                if face[0] == into || face[1] == into || face[2] == into {
                    proof {
                        lemma_trues_update(self.alive@, f as int);
                    }
                    self.alive.set(f, false);
                    self.live = self.live - 1;
                } else {
                    self.faces.set(
                        f,
                        [
                            if face[0] == from {
                                into
                            } else {
                                face[0]
                            },
                            if face[1] == from {
                                into
                            } else {
                                face[1]
                            },
                            if face[2] == from {
                                into
                            } else {
                                face[2]
                            },
                        ],
                    );
                    gained.push(list[k]);
                }
            }
            k = k + 1;
        }
        gained
    }

    /// The edges from a vertex to its neighbours that are alive.
    fn fresh_edges(&self, into: u32) -> (list: Vec<(u32, u32)>)
        requires
            self.wf(),
            into < self.positions@.len(),
        ensures
            list@ == fresh_edges(self.state(), into),
            forall|i: int|
                0 <= i < list@.len() ==> (#[trigger] list@[i]).0 < self.positions@.len()
                    && list@[i].1 < self.positions@.len(),
    {
        let ghost s = self.state();
        let faces = &self.around[into as usize];
        assert(faces@ == s.around[into as int]);
        let ghost chosen = |n: u32| s.vertex_alive[n as int];
        let ghost pair = |n: u32| edge(into, n);
        let mut list: Vec<(u32, u32)> = Vec::new();
        let mut k: usize = 0;
        proof {
            reveal(Seq::filter);
            assert(list@ =~= neighbours(faces@, s.faces, into, 0).filter(chosen).map_values(pair));
        }
        while k < faces.len()
            invariant
                k <= faces@.len(),
                self.wf(),
                s == self.state(),
                into < s.positions.len(),
                faces@ == s.around[into as int],
                chosen == (|n: u32| s.vertex_alive[n as int]),
                pair == (|n: u32| edge(into, n)),
                list@ == neighbours(faces@, s.faces, into, k as int).filter(chosen).map_values(
                    pair,
                ),
                forall|i: int|
                    0 <= i < list@.len() ==> (#[trigger] list@[i]).0 < s.positions.len()
                        && list@[i].1 < s.positions.len(),
            decreases faces.len() - k,
        {
            assert(s.around[into as int][k as int] < s.faces.len());
            let face = self.faces[faces[k] as usize];
            let ghost before = neighbours(faces@, s.faces, into, k as int);
            let ghost corners = seq![face[0], face[1], face[2]];
            let ghost other = other_than(into);
            let mut c: usize = 0;
            proof {
                reveal(Seq::filter);
                assert(corners.take(0).filter(other) =~= Seq::empty());
                assert(before + corners.take(0).filter(other) =~= before);
            }
            while c < 3
                invariant
                    c <= 3,
                    self.wf(),
                    s == self.state(),
                    into < s.positions.len(),
                    corners == seq![face[0], face[1], face[2]],
                    face[0] < s.positions.len(),
                    face[1] < s.positions.len(),
                    face[2] < s.positions.len(),
                    chosen == (|n: u32| s.vertex_alive[n as int]),
                    pair == (|n: u32| edge(into, n)),
                    other == other_than(into),
                    list@ == (before + corners.take(c as int).filter(other)).filter(
                        chosen,
                    ).map_values(pair),
                    forall|i: int|
                        0 <= i < list@.len() ==> (#[trigger] list@[i]).0 < s.positions.len()
                            && list@[i].1 < s.positions.len(),
                decreases 3 - c,
            {
                let n: u32 = face[c];
                assert(corners[c as int] == n);
                let ghost so_far = corners.take(c as int).filter(other);
                proof {
                    reveal(Seq::filter);
                    assert(corners.take(c + 1).drop_last() =~= corners.take(c as int));
                    if n != into {
                        assert(corners.take(c + 1).filter(other) == so_far.push(n));
                        assert(before + so_far.push(n) =~= (before + so_far).push(n));
                        assert((before + so_far).push(n).drop_last() =~= before + so_far);
                    } else {
                        assert(corners.take(c + 1).filter(other) == so_far);
                    }
                }
                if n != into && self.vertex_alive[n as usize] {
                    let ghost all = (before + so_far).filter(chosen);
                    list.push(ordered(into, n));
                    assert(all.push(n).map_values(pair) =~= all.map_values(pair).push(pair(n)));
                }
                c = c + 1;
            }
            proof {
                assert(corners.take(3) =~= corners);
                assert(other_corners(face, into) == corners.filter(other));
                assert(neighbours(faces@, s.faces, into, k + 1) == before + other_corners(
                    face,
                    into,
                ));
            }
            k = k + 1;
        }
        list
    }

    /// Takes a collapse that is neither stale nor refused.
    fn collapse<
        W: Fn([T; 3], [T; 3], Q, Q) -> Option<(u32, [T; 3])>,
        M: Fn(Q, Q) -> Q,
    >(&mut self, c: &Collapse<[T; 3]>, weigh: &W, merge: &M, Ghost(s): Ghost<State<T, Q>>)
        requires
            old(self).wf(),
            is_sound(s),
            old(self).state() == (State { queue: s.queue.remove(*c), ..s }),
            s.queue.count(*c) > 0,
            !is_stale(s, *c),
            forall|a: [T; 3], b: [T; 3], q: Q, r: Q| #[trigger] call_requires(weigh, (a, b, q, r)),
            forall|q: Q, r: Q| #[trigger] call_requires(merge, (q, r)),
        ensures
            final(self).wf(),
            collapses(*weigh, *merge, s, *c, final(self).state()),
            trues(final(self).vertex_alive@) < trues(s.vertex_alive),
    {
        let (from, into) = (c.from as usize, c.into as usize);
        let ghost m = moved(s, c.from, c.into, s.around[from as int].len() as int);
        let ghost n = s.positions.len();
        proof {
            lemma_moved(s, c.from, c.into, s.around[from as int].len() as int);
            lemma_trues_update(s.vertex_alive, from as int);
            assert(s.stamps[into as int] + trues(s.vertex_alive) <= n);
            assert(trues(s.vertex_alive) >= 1);
        }
        let quadric = merge(self.quadrics[into], self.quadrics[from]);
        self.positions.set(into, c.position);
        self.quadrics.set(into, quadric);
        self.vertex_alive.set(from, false);
        let stamp: u32 = self.stamps[into];
        self.stamps.set(into, stamp + 1);
        let list = copy_list(&self.around[from]);
        assert(list@ == s.around[from as int]);
        let gained = self.move_faces(c.from, c.into, &list, Ghost(s));
        let mut kept: Vec<u32> = Vec::new();
        assert(self.around@[into as int]@ == s.around[into as int]);
        proof {
            assert forall|i: int| 0 <= i < s.around[into as int].len() implies (
            #[trigger] self.around@[into as int]@[i]) < self.alive@.len() by {
                assert(s.around[into as int][i] < s.faces.len());
            }
        }
        push_alive(&mut kept, &self.around[into], &self.alive);
        push_alive(&mut kept, &gained, &self.alive);
        let ghost chosen = |f: u32| m.alive[f as int];
        proof {
            lemma_filter_add(s.around[into as int], m.gained, chosen);
            assert(kept@ =~= (s.around[into as int] + m.gained).filter(chosen));
            lemma_filter_members(s.around[into as int] + m.gained, chosen);
        }
        self.around.set(from, Vec::new());
        self.around.set(into, kept);
        let ghost t0 = self.state();
        proof {
            assert(t0.around =~= s.around.update(from as int, Seq::empty()).update(
                into as int,
                (s.around[into as int] + m.gained).filter(chosen),
            ));
            assert forall|v: int, i: int| 0 <= v < n && 0 <= i < t0.around[v].len() implies (
            #[trigger] t0.around[v][i]) < t0.faces.len() by {
                if v == into {
                    let all = s.around[into as int] + m.gained;
                    let f = all.filter(chosen)[i];
                    assert(all.contains(f));
                    let j = choose|j: int| 0 <= j < all.len() && all[j] == f;
                    if j < s.around[into as int].len() {
                        assert(s.around[into as int][j] < s.faces.len());
                    } else {
                        assert(m.gained[j - s.around[into as int].len()] < s.faces.len());
                    }
                } else if v != from {
                    assert(s.around[v][i] < s.faces.len());
                }
            }
            assert forall|v: int| 0 <= v < n implies (#[trigger] t0.stamps[v]) + trues(
                t0.vertex_alive,
            ) <= n by {
                assert(s.stamps[v] + trues(s.vertex_alive) <= n);
            }
            assert forall|d: Collapse<[T; 3]>| #[trigger] t0.queue.count(d) > 0 implies d.from < n
                && d.into < n && d.from != d.into by {
                broadcast use vstd::multiset::group_multiset_axioms;

                assert(s.queue.count(d) > 0);
            }
            assert(is_sound(t0));
        }
        let edges = self.fresh_edges(c.into);
        let answers = self.offer_all(&edges, weigh);
        proof {
            let t = self.state();
            assert(fresh_edges(t, c.into) == fresh_edges(t0, c.into));
            assert(all_priced(*weigh, t, fresh_edges(t, c.into), answers@)) by {
                assert forall|i: int| 0 <= i < edges@.len() implies priced(
                    *weigh,
                    t,
                    edges@[i],
                    #[trigger] answers@[i],
                ) by {
                    assert(priced(*weigh, t0, edges@[i], answers@[i]));
                }
            }
            assert(t.queue == s.queue.remove(*c).add(offers(answers@)));
        }
    }
}

/// The faces around each vertex.
fn faces_around(faces: &Vec<[u32; 3]>, vertices: usize) -> (around: Vec<Vec<u32>>)
    requires
        faces@.len() <= u32::MAX,
        vertices <= u32::MAX,
        forall|f: int|
            0 <= f < faces@.len() ==> (#[trigger] faces@[f])[0] < vertices && faces@[f][1]
                < vertices && faces@[f][2] < vertices,
    ensures
        lists(around@) == Seq::new(
            vertices as nat,
            |v: int| incident(faces@, v as u32, faces@.len() as int),
        ),
{
    let mut around: Vec<Vec<u32>> = Vec::new();
    let mut v: usize = 0;
    while v < vertices
        invariant
            v <= vertices,
            around@.len() == v,
            forall|u: int| 0 <= u < v ==> (#[trigger] around@[u])@ == Seq::<u32>::empty(),
        decreases vertices - v,
    {
        around.push(Vec::new());
        v = v + 1;
    }
    let mut k: usize = 0;
    while k < faces.len()
        invariant
            k <= faces@.len(),
            faces@.len() <= u32::MAX,
            vertices <= u32::MAX,
            around@.len() == vertices,
            forall|f: int|
                0 <= f < faces@.len() ==> (#[trigger] faces@[f])[0] < vertices && faces@[f][1]
                    < vertices && faces@[f][2] < vertices,
            forall|u: int|
                0 <= u < vertices ==> (#[trigger] around@[u])@ == incident(
                    faces@,
                    u as u32,
                    k as int,
                ),
        decreases faces.len() - k,
    {
        let face = faces[k];
        let f: u32 = k as u32;
        let ghost before = around@;
        around[face[0] as usize].push(f);
        let ghost first = around@;
        around[face[1] as usize].push(f);
        let ghost second = around@;
        around[face[2] as usize].push(f);
        proof {
            assert forall|u: int| 0 <= u < vertices implies (#[trigger] around@[u])@ == incident(
                faces@,
                u as u32,
                k + 1,
            ) by {
                assert(before[u]@ == incident(faces@, u as u32, k as int));
                assert(first[u]@ == if face[0] == u as u32 {
                    before[u]@.push(f)
                } else {
                    before[u]@
                });
                assert(second[u]@ == if face[1] == u as u32 {
                    first[u]@.push(f)
                } else {
                    first[u]@
                });
            }
        }
        k = k + 1;
    }
    assert(lists(around@) =~= Seq::new(
        vertices as nat,
        |v: int| incident(faces@, v as u32, faces@.len() as int),
    ));
    around
}

fn copies<A: Copy>(list: &Vec<A>) -> (copy: Vec<A>)
    ensures
        copy@ == list@,
{
    let mut copy: Vec<A> = Vec::new();
    let mut i: usize = 0;
    while i < list.len()
        invariant
            i <= list@.len(),
            copy@ == list@.take(i as int),
        decreases list.len() - i,
    {
        copy.push(list[i]);
        i = i + 1;
        assert(copy@ =~= list@.take(i as int));
    }
    assert(copy@ =~= list@);
    copy
}

fn repeated<A: Copy>(value: A, count: usize) -> (list: Vec<A>)
    ensures
        list@ == Seq::new(count as nat, |i: int| value),
{
    let mut list: Vec<A> = Vec::new();
    let mut i: usize = 0;
    while i < count
        invariant
            i <= count,
            list@ == Seq::new(i as nat, |i: int| value),
        decreases count - i,
    {
        list.push(value);
        i = i + 1;
        assert(list@ =~= Seq::new(i as nat, |i: int| value));
    }
    list
}

pub proof fn lemma_incident(faces: Seq<[u32; 3]>, v: u32, k: int)
    requires
        0 <= k <= faces.len() <= u32::MAX,
    ensures
        forall|i: int|
            0 <= i < incident(faces, v, k).len() ==> (#[trigger] incident(faces, v, k)[i]) < k,
    decreases k,
{
    if k > 0 {
        lemma_incident(faces, v, k - 1);
        let before = incident(faces, v, k - 1);
        let now = incident(faces, v, k);
        assert forall|i: int| 0 <= i < now.len() implies (#[trigger] now[i]) < k by {
            if i < before.len() {
                assert(now[i] == before[i]);
            } else {
                assert(now[i] == (k - 1) as u32);
            }
        }
    }
}

impl<T: Copy, Q: Copy> Surgery<T, Q> {
    /// Where simplifying starts.
    fn start<W: Fn([T; 3], [T; 3], Q, Q) -> Option<(u32, [T; 3])>>(
        mesh: &Mesh<T>,
        quadrics: Vec<Q>,
        weigh: &W,
    ) -> (surgery: Surgery<T, Q>)
        requires
            is_simplifiable(*mesh),
            quadrics@.len() == mesh.positions@.len(),
            forall|a: [T; 3], b: [T; 3], q: Q, r: Q| #[trigger] call_requires(weigh, (a, b, q, r)),
        ensures
            surgery.wf(),
            starts(*weigh, *mesh, quadrics@, surgery.state()),
    {
        let vertices: usize = mesh.positions.len();
        let edges = Edges::of(&mesh.indices);
        let mut surgery = Surgery {
            positions: copies(&mesh.positions),
            quadrics,
            faces: copies(&mesh.indices),
            alive: repeated(true, mesh.indices.len()),
            live: mesh.indices.len(),
            around: faces_around(&mesh.indices, vertices),
            vertex_alive: repeated(true, vertices),
            stamps: repeated(0u32, vertices),
            queue: Queue::new(),
        };
        let ghost s = surgery.state();
        proof {
            broadcast use vstd::multiset::group_multiset_axioms;

            lemma_trues_all(s.alive);
            lemma_trues_all(s.vertex_alive);
            assert forall|v: int, i: int|
                0 <= v < vertices && 0 <= i < s.around[v].len() implies (#[trigger] s.around[v][i])
                < s.faces.len() by {
                lemma_incident(mesh.indices@, v as u32, mesh.indices@.len() as int);
                assert(s.around[v] == incident(
                    mesh.indices@,
                    v as u32,
                    mesh.indices@.len() as int,
                ));
            }
            assert(is_sound(s));
            assert forall|i: int| 0 <= i < edges.list@.len() implies (#[trigger] edges.list@[i]).0
                < vertices && edges.list@[i].1 < vertices by {
                assert(edges.list@.contains(edges.list@[i]));
                lemma_edge_in_range(mesh.indices@, edges.list@[i], vertices as nat);
            }
        }
        let answers = surgery.offer_all(&edges.list, weigh);
        proof {
            broadcast use vstd::multiset::group_multiset_axioms;

            let t = surgery.state();
            assert(t.queue =~= offers(answers@));
            assert forall|i: int| 0 <= i < edges.list@.len() implies priced(
                *weigh,
                t,
                edges.list@[i],
                #[trigger] answers@[i],
            ) by {
                assert(priced(*weigh, s, edges.list@[i], answers@[i]));
            }
            assert(all_priced(*weigh, t, edges.list@, answers@));
        }
        surgery
    }
}

pub proof fn lemma_edge_in_range(faces: Seq<[u32; 3]>, e: (u32, u32), n: nat)
    requires
        uses(faces, e) > 0,
        forall|f: int|
            0 <= f < faces.len() ==> (#[trigger] faces[f])[0] < n && faces[f][1] < n && faces[f][2]
                < n,
    ensures
        e.0 < n,
        e.1 < n,
{
    broadcast use vstd::seq_lib::group_to_multiset_ensures;

    let all = crate::edges::sides(faces);
    assert(all.contains(e));
    let i = choose|i: int| 0 <= i < all.len() && all[i] == e;
    let face = faces[i / 3];
    assert(face[0] < n && face[1] < n && face[2] < n);
}

/// Whether a mesh can be simplified at all: its faces name vertices it has,
/// both can be numbered with 32 bits, and the sides of its faces can be
/// counted.
pub open spec fn is_simplifiable<T>(mesh: Mesh<T>) -> bool {
    &&& mesh.positions@.len() <= u32::MAX
    &&& mesh.indices@.len() <= u32::MAX
    &&& 3 * mesh.indices@.len() <= usize::MAX
    &&& forall|f: int|
        0 <= f < mesh.indices@.len() ==> (#[trigger] mesh.indices@[f])[0] < mesh.positions@.len()
            && mesh.indices@[f][1] < mesh.positions@.len() && mesh.indices@[f][2]
            < mesh.positions@.len()
}

/// Whether a mesh has no degenerate face and no vertex that no face uses.
pub open spec fn is_tidy<T>(mesh: Mesh<T>) -> bool {
    &&& forall|f: int|
        0 <= f < mesh.indices@.len() ==> is_proper(#[trigger] mesh.indices@[f])
            && mesh.indices@[f][0] < mesh.positions@.len() && mesh.indices@[f][1]
            < mesh.positions@.len() && mesh.indices@[f][2] < mesh.positions@.len()
    &&& forall|v: int| 0 <= v < mesh.positions@.len() ==> #[trigger] is_used(mesh.indices@, v)
}

impl<T: Copy> Mesh<T> {
    /// Collapses edges until the mesh is down to `target` faces, cheapest
    /// first, and returns the face count it finished on, which can be above
    /// the target if nothing is left that could be collapsed safely.
    ///
    /// `quadrics` holds one quadric per vertex, and `merge` adds two of them
    /// up; `weigh` prices an edge from its two ends' positions and quadrics
    /// and picks the point it would collapse onto; `flips` tells, from a
    /// face's corners before and after, whether a collapse turns it inside
    /// out. Normals are renewed if the mesh had any, from what `cross`, `sum`
    /// and `unit` make of the faces that are left; texture coordinates are
    /// dropped.
    pub fn simplify<
        Q: Copy,
        W: Fn([T; 3], [T; 3], Q, Q) -> Option<(u32, [T; 3])>,
        F: Fn([[T; 3]; 3], [[T; 3]; 3]) -> bool,
        M: Fn(Q, Q) -> Q,
        P: Fn([[T; 3]; 3]) -> [T; 3],
        S: Fn([T; 3], [T; 3]) -> [T; 3],
        U: Fn([T; 3]) -> [T; 3],
    >(
        &mut self,
        target: usize,
        quadrics: Vec<Q>,
        weigh: W,
        flips: F,
        merge: M,
        zero: [T; 3],
        cross: &P,
        sum: &S,
        unit: &U,
    ) -> (left: usize)
        requires
            old(self).indices@.len() > target ==> is_simplifiable(*old(self)) && quadrics@.len()
                == old(self).positions@.len(),
            forall|c: [[T; 3]; 3]| #[trigger] call_requires(*cross, (c,)),
            forall|a: [T; 3], b: [T; 3]| #[trigger] call_requires(*sum, (a, b)),
            forall|a: [T; 3]| #[trigger] call_requires(*unit, (a,)),
            forall|a: [T; 3], b: [T; 3], q: Q, r: Q| #[trigger] call_requires(weigh, (a, b, q, r)),
            forall|a: [[T; 3]; 3], b: [[T; 3]; 3]| #[trigger] call_requires(flips, (a, b)),
            forall|q: Q, r: Q| #[trigger] call_requires(merge, (q, r)),
        ensures
            left == final(self).indices@.len(),
            old(self).indices@.len() <= target ==> *final(self) == *old(self),
            old(self).indices@.len() > target ==> exists|run: Seq<State<T, Q>>| #[trigger]
                is_run(weigh, flips, merge, *old(self), quadrics@, target as nat, run) && (
                run.last().live <= target || run.last().queue == Multiset::<
                    Collapse<[T; 3]>,
                >::empty()) && is_compacted(
                    *final(self),
                    old(self).colors@,
                    run.last().positions,
                    run.last().faces,
                    run.last().alive,
                ),
            old(self).indices@.len() > target ==> {
                &&& final(self).indices@.len() <= old(self).indices@.len()
                &&& is_tidy(*final(self))
                &&& is_renewed(*old(self), *final(self), zero, *cross, *sum, *unit)
                &&& old(self).colors@.len() == old(self).positions@.len()
                    ==> final(self).colors@.len() == final(self).positions@.len()
                &&& old(self).colors@.len() == 0 ==> final(self).colors@.len() == 0
            },
    {
        if self.indices.len() <= target {
            return self.indices.len();
        }
        let ghost start = *self;
        let ghost first = quadrics@;
        let mut surgery = Surgery::start(self, quadrics, &weigh);
        let ghost mut run: Seq<State<T, Q>> = seq![surgery.state()];
        while surgery.live > target
            invariant
                *self == start,
                surgery.wf(),
                is_run(weigh, flips, merge, start, first, target as nat, run),
                run.last() == surgery.state(),
                forall|a: [T; 3], b: [T; 3], q: Q, r: Q| #[trigger]
                    call_requires(weigh, (a, b, q, r)),
                forall|a: [[T; 3]; 3], b: [[T; 3]; 3]| #[trigger] call_requires(flips, (a, b)),
                forall|q: Q, r: Q| #[trigger] call_requires(merge, (q, r)),
            ensures
                *self == start,
                surgery.wf(),
                is_run(weigh, flips, merge, start, first, target as nat, run),
                run.last() == surgery.state(),
                surgery.live <= target || surgery.state().queue == Multiset::<
                    Collapse<[T; 3]>,
                >::empty(),
            decreases trues(surgery.vertex_alive@), surgery.queue.entries().len(),
        {
            broadcast use vstd::multiset::group_multiset_axioms;

            let ghost s = surgery.state();
            let c = match surgery.queue.pop() {
                Some(c) => c,
                None => {
                    assert(surgery.state() =~= s);
                    break;
                },
            };
            assert(s.queue.count(c) > 0);
            assert(surgery.state() =~= State { queue: s.queue.remove(c), ..s });
            let (from, into) = (c.from as usize, c.into as usize);
            let stale = !surgery.vertex_alive[from] || !surgery.vertex_alive[into]
                || surgery.stamps[from] != c.from_stamp || surgery.stamps[into] != c.into_stamp;
            assert(stale == is_stale(s, c));
            let refused = !stale && surgery.folds(&c, &flips);
            proof {
                if !stale {
                    let popped = surgery.state();
                    assert forall|f: u32| #[trigger] is_at_risk(s, c, f) == is_at_risk(
                        popped,
                        c,
                        f,
                    ) by {}
                    assert forall|f: u32|
                        before_collapse(s, f) == before_collapse(popped, f) && #[trigger]
                        after_collapse(s, c, f) == after_collapse(popped, c, f) by {}
                    if refused {
                        let f = choose|f: u32| #[trigger]
                            is_at_risk(popped, c, f) && call_ensures(
                                flips,
                                (before_collapse(popped, f), after_collapse(popped, c, f)),
                                true,
                            );
                        assert(is_at_risk(s, c, f));
                        assert(is_refused(flips, s, c));
                    } else {
                        assert forall|f: u32| #[trigger] is_at_risk(s, c, f) implies call_ensures(
                            flips,
                            (before_collapse(s, f), after_collapse(s, c, f)),
                            false,
                        ) by {
                            assert(is_at_risk(popped, c, f));
                        }
                        assert(is_safe(flips, s, c));
                    }
                }
            }
            if !stale && !refused {
                surgery.collapse(&c, &weigh, &merge, Ghost(s));
            }
            proof {
                let t = surgery.state();
                assert(step_by(weigh, flips, merge, s, c, t));
                assert(steps(weigh, flips, merge, s, t));
                let before = run;
                run = run.push(t);
                assert forall|i: int| 0 <= i < run.len() - 1 implies (#[trigger] run[i]).live
                    > target && steps(weigh, flips, merge, run[i], run[i + 1]) by {
                    if i < before.len() - 1 {
                        assert(before[i] == run[i] && before[i + 1] == run[i + 1]);
                    } else {
                        assert(run[i] == s && run[i + 1] == t);
                    }
                }
            }
        }
        self.compact(
            &surgery.positions,
            &surgery.faces,
            &surgery.alive,
            zero,
            cross,
            sum,
            unit,
        );
        proof {
            let last = run.last();
            let n = run.len() - 1;
            law_run_shrinks(weigh, flips, merge, start, first, target as nat, run, n);
            law_simplified_size(*self, start.colors@, last);
            law_nothing_dangles(*self, start.colors@, last.positions, last.faces, last.alive);
            law_colours_are_carried(
                *self,
                start.colors@,
                last.positions,
                last.faces,
                last.alive,
            );
        }
        self.indices.len()
    }
}

} // verus!
