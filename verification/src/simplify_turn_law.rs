//! Simplifying turns no face inside out.
use crate::mesh::Mesh;
use crate::queue::Collapse;
use crate::simplify::{
    after_collapse, before_collapse, collapses, holds, incident, is_at_risk, is_run, is_safe,
    is_simplifiable, is_sound, lemma_moved, moved, renamed, starts, step_by, steps, State,
};
use crate::simplify_law::{law_run_shrinks, law_start_is_sound, law_step_is_sound};
use vstd::prelude::*;

verus! {

/// Whether a face that is alive stands in the list of each of its corners.
pub open spec fn is_listed<T, Q>(s: State<T, Q>, f: int) -> bool {
    s.alive[f] ==> s.around[s.faces[f][0] as int].contains(f as u32)
        && s.around[s.faces[f][1] as int].contains(f as u32)
        && s.around[s.faces[f][2] as int].contains(f as u32)
}

/// Whether every vertex knows all the faces around it that are alive.
pub open spec fn is_complete<T, Q>(s: State<T, Q>) -> bool {
    forall|f: int| 0 <= f < s.faces.len() ==> #[trigger] is_listed(s, f)
}

/// Whether a face is among the first `k` around a vertex.
pub open spec fn is_seen<T, Q>(s: State<T, Q>, from: u32, k: int, f: int) -> bool {
    exists|j: int| 0 <= j < k && #[trigger] s.around[from as int][j] == f
}

/// What became of one face when the first `k` of those around `from` moved
/// over: it died, or it was renamed and is one that `into` gained, or it was
/// not among them and stayed as it was.
pub open spec fn is_moved<T, Q>(s: State<T, Q>, from: u32, into: u32, k: int, f: int) -> bool {
    let m = moved(s, from, into, k);
    m.alive[f] ==> {
        &&& s.alive[f]
        &&& if is_seen(s, from, k, f) {
            &&& m.faces[f] == renamed(s.faces[f], from, into)
            &&& !holds(s.faces[f], into)
            &&& m.gained.contains(f as u32)
        } else {
            m.faces[f] == s.faces[f]
        }
    }
}

proof fn lemma_renamed_again(face: [u32; 3], from: u32, into: u32)
    requires
        from != into,
    ensures
        renamed(renamed(face, from, into), from, into) == renamed(face, from, into),
        holds(face, into) ==> holds(renamed(face, from, into), into),
{
    let once = renamed(face, from, into);
    assert(renamed(once, from, into) =~= once);
}

proof fn lemma_face_moved<T, Q>(s: State<T, Q>, from: u32, into: u32, k: int, f: int)
    requires
        is_sound(s),
        from < s.positions.len(),
        into < s.positions.len(),
        from != into,
        0 <= k <= s.around[from as int].len(),
        0 <= f < s.faces.len(),
    ensures
        is_moved(s, from, into, k, f),
    decreases k,
{
    if k > 0 {
        lemma_face_moved(s, from, into, k - 1, f);
        lemma_moved(s, from, into, k - 1);
        let (m, now) = (moved(s, from, into, k - 1), moved(s, from, into, k));
        let list = s.around[from as int];
        let g = list[k - 1];
        assert(g < s.faces.len());
        lemma_renamed_again(s.faces[f], from, into);
        if now.alive[f] {
            assert(m.alive[f]);
            if g == f {
                assert(list[k - 1] == f);
                assert(is_seen(s, from, k, f));
                assert(now.gained[m.gained.len() as int] == f);
                assert(now.faces[f] == renamed(m.faces[f], from, into));
            } else {
                if is_seen(s, from, k, f) {
                    let j = choose|j: int| 0 <= j < k && #[trigger] list[j] == f;
                    assert(j < k - 1);
                    assert(is_seen(s, from, k - 1, f));
                    let i = choose|i: int| 0 <= i < m.gained.len() && m.gained[i] == f as u32;
                    assert(now.gained[i] == f as u32);
                } else {
                    assert(!is_seen(s, from, k - 1, f)) by {
                        if is_seen(s, from, k - 1, f) {
                            let j = choose|j: int| 0 <= j < k - 1 && #[trigger] list[j] == f;
                            assert(list[j] == f);
                        }
                    }
                }
                assert(now.faces[f] == m.faces[f]);
            }
        }
    }
}

/// Where the corners of a face are.
pub open spec fn corners_in<T, Q>(s: State<T, Q>, f: int) -> [[T; 3]; 3] {
    let face = s.faces[f];
    [s.positions[face[0] as int], s.positions[face[1] as int], s.positions[face[2] as int]]
}

/// Whether a face that is alive was alive before, and stayed where it was or
/// was found to be the right way round where it went.
pub open spec fn is_upright<T, Q, F: Fn([[T; 3]; 3], [[T; 3]; 3]) -> bool>(
    flips: F,
    s: State<T, Q>,
    t: State<T, Q>,
    f: int,
) -> bool {
    t.alive[f] ==> s.alive[f] && (corners_in(t, f) == corners_in(s, f) || call_ensures(
        flips,
        (corners_in(s, f), corners_in(t, f)),
        false,
    ))
}

/// One face through a collapse that was taken.
proof fn lemma_face_upright<
    T,
    Q,
    W: Fn([T; 3], [T; 3], Q, Q) -> Option<(u32, [T; 3])>,
    F: Fn([[T; 3]; 3], [[T; 3]; 3]) -> bool,
    M: Fn(Q, Q) -> Q,
>(
    weigh: W,
    flips: F,
    merge: M,
    s: State<T, Q>,
    c: Collapse<[T; 3]>,
    t: State<T, Q>,
    f: int,
)
    requires
        is_sound(s),
        is_complete(s),
        s.queue.count(c) > 0,
        is_safe(flips, s, c),
        collapses(weigh, merge, s, c, t),
        0 <= f < s.faces.len(),
    ensures
        is_upright(flips, s, t, f),
{
    if !t.alive[f] {
        return;
    }
    let (from, into) = (c.from, c.into);
    let k = s.around[from as int].len() as int;
    lemma_face_moved(s, from, into, k, f);
    assert(is_listed(s, f));
    let (old_face, new_face) = (s.faces[f], t.faces[f]);
    let g = f as u32;
    assert(corners_in(s, f) =~= before_collapse(s, g));
    if is_seen(s, from, k, f) {
        let j = choose|j: int| 0 <= j < k && #[trigger] s.around[from as int][j] == f;
        assert(s.around[from as int].contains(g));
        assert(is_at_risk(s, c, g));
        assert(corners_in(t, f) =~= after_collapse(s, c, g));
    } else {
        assert(!holds(old_face, from)) by {
            if holds(old_face, from) {
                assert(s.around[from as int].contains(g));
                let j = choose|j: int|
                    0 <= j < s.around[from as int].len() && s.around[from as int][j] == g;
                assert(s.around[from as int][j] == f);
            }
        }
        if holds(old_face, into) {
            assert(s.around[into as int].contains(g));
            assert(is_at_risk(s, c, g));
            assert(corners_in(t, f) =~= after_collapse(s, c, g));
        } else {
            assert(corners_in(t, f) =~= corners_in(s, f));
        }
    }
}

proof fn lemma_contains_filter(list: Seq<u32>, chosen: spec_fn(u32) -> bool, x: u32)
    requires
        list.contains(x),
        chosen(x),
    ensures
        list.filter(chosen).contains(x),
{
    let i = choose|i: int| 0 <= i < list.len() && list[i] == x;
    list.lemma_filter_contains(chosen, i);
}

/// One face through a collapse that was taken is listed where it is.
proof fn lemma_face_listed<
    T,
    Q,
    W: Fn([T; 3], [T; 3], Q, Q) -> Option<(u32, [T; 3])>,
    M: Fn(Q, Q) -> Q,
>(weigh: W, merge: M, s: State<T, Q>, c: Collapse<[T; 3]>, t: State<T, Q>, f: int)
    requires
        is_sound(s),
        is_complete(s),
        s.queue.count(c) > 0,
        collapses(weigh, merge, s, c, t),
        0 <= f < s.faces.len(),
    ensures
        is_listed(t, f),
{
    if t.alive[f] {
        let (from, into) = (c.from, c.into);
        let k = s.around[from as int].len() as int;
        lemma_face_moved(s, from, into, k, f);
        lemma_moved(s, from, into, k);
        assert(is_listed(s, f));
        let m = moved(s, from, into, k);
        let g = f as u32;
        let kept = |f: u32| m.alive[f as int];
        let both = s.around[into as int] + m.gained;
        assert(t.around[into as int] == both.filter(kept));
        assert(kept(g));
        let seen = is_seen(s, from, k, f);
        assert forall|i: int| 0 <= i < 3 implies t.around[(#[trigger] t.faces[f][i]) as int].contains(
            g,
        ) by {
            let (v, w) = (s.faces[f][i], t.faces[f][i]);
            assert(s.around[v as int].contains(g));
            if seen {
                assert(w == if v == from { into } else { v });
            } else {
                assert(w == v);
                assert(v != from) by {
                    if v == from {
                        let j = choose|j: int|
                            0 <= j < s.around[from as int].len() && s.around[from as int][j] == g;
                        assert(s.around[from as int][j] == f);
                    }
                }
            }
            if w == into {
                if seen {
                    let j = choose|j: int| 0 <= j < m.gained.len() && m.gained[j] == g;
                    assert(both[s.around[into as int].len() + j] == g);
                } else {
                    let j = choose|j: int|
                        0 <= j < s.around[into as int].len() && s.around[into as int][j] == g;
                    assert(both[j] == g);
                }
                assert(both.contains(g));
                lemma_contains_filter(both, kept, g);
            } else {
                assert(w == v && v != from);
                assert(t.around[w as int] == s.around[w as int]);
            }
        }
        assert(t.around[t.faces[f][0] as int].contains(g));
        assert(t.around[t.faces[f][1] as int].contains(g));
        assert(t.around[t.faces[f][2] as int].contains(g));
    }
}

/// Whether no face was turned inside out between two states: every face that
/// is alive in the second was alive in the first, and either did not move or
/// was found to be the right way round where it went.
pub open spec fn turns_nothing<T, Q, F: Fn([[T; 3]; 3], [[T; 3]; 3]) -> bool>(
    flips: F,
    s: State<T, Q>,
    t: State<T, Q>,
) -> bool {
    forall|f: int| 0 <= f < t.faces.len() ==> #[trigger] is_upright(flips, s, t, f)
}

proof fn lemma_taken_is_complete<
    T,
    Q,
    W: Fn([T; 3], [T; 3], Q, Q) -> Option<(u32, [T; 3])>,
    M: Fn(Q, Q) -> Q,
>(weigh: W, merge: M, s: State<T, Q>, c: Collapse<[T; 3]>, t: State<T, Q>)
    requires
        is_sound(s),
        is_complete(s),
        t.faces.len() == s.faces.len(),
        s.queue.count(c) > 0,
        collapses(weigh, merge, s, c, t),
    ensures
        is_complete(t),
{
    assert forall|f: int| 0 <= f < t.faces.len() implies #[trigger] is_listed(t, f) by {
        lemma_face_listed(weigh, merge, s, c, t, f);
    }
}

proof fn lemma_taken_turns_nothing<
    T,
    Q,
    W: Fn([T; 3], [T; 3], Q, Q) -> Option<(u32, [T; 3])>,
    F: Fn([[T; 3]; 3], [[T; 3]; 3]) -> bool,
    M: Fn(Q, Q) -> Q,
>(weigh: W, flips: F, merge: M, s: State<T, Q>, c: Collapse<[T; 3]>, t: State<T, Q>)
    requires
        is_sound(s),
        is_complete(s),
        t.faces.len() == s.faces.len(),
        s.queue.count(c) > 0,
        is_safe(flips, s, c),
        collapses(weigh, merge, s, c, t),
    ensures
        turns_nothing(flips, s, t),
{
    assert forall|f: int| 0 <= f < t.faces.len() implies #[trigger] is_upright(flips, s, t, f) by {
        lemma_face_upright(weigh, flips, merge, s, c, t, f);
    }
}

proof fn lemma_left<T, Q, F: Fn([[T; 3]; 3], [[T; 3]; 3]) -> bool>(
    flips: F,
    s: State<T, Q>,
    t: State<T, Q>,
)
    requires
        is_complete(s),
        t.faces == s.faces,
        t.alive == s.alive,
        t.around == s.around,
        t.positions == s.positions,
    ensures
        is_complete(t),
        turns_nothing(flips, s, t),
{
    assert forall|f: int| 0 <= f < t.faces.len() implies #[trigger] is_listed(t, f) by {
        assert(is_listed(s, f));
    }
    assert forall|f: int| 0 <= f < t.faces.len() implies #[trigger] is_upright(flips, s, t, f) by {
        assert(corners_in(t, f) =~= corners_in(s, f));
    }
}

/// No step turns a face inside out, and every vertex still knows the faces
/// around it.
pub proof fn law_no_face_is_turned<
    T,
    Q,
    W: Fn([T; 3], [T; 3], Q, Q) -> Option<(u32, [T; 3])>,
    F: Fn([[T; 3]; 3], [[T; 3]; 3]) -> bool,
    M: Fn(Q, Q) -> Q,
>(weigh: W, flips: F, merge: M, s: State<T, Q>, t: State<T, Q>)
    requires
        is_sound(s),
        is_complete(s),
        steps(weigh, flips, merge, s, t),
    ensures
        is_complete(t),
        turns_nothing(flips, s, t),
{
    law_step_is_sound(weigh, flips, merge, s, t);
    let c = choose|c: Collapse<[T; 3]>| #[trigger] step_by(weigh, flips, merge, s, c, t);
    if t == (State { queue: s.queue.remove(c), ..s }) {
        lemma_left(flips, s, t);
    } else {
        lemma_taken_is_complete(weigh, merge, s, c, t);
        lemma_taken_turns_nothing(weigh, flips, merge, s, c, t);
    }
}

proof fn lemma_incident_contains(faces: Seq<[u32; 3]>, v: u32, k: int, f: int)
    requires
        0 <= f < k <= faces.len() <= u32::MAX,
        holds(faces[f], v),
    ensures
        incident(faces, v, k).contains(f as u32),
    decreases k,
{
    let (before, now) = (incident(faces, v, k - 1), incident(faces, v, k));
    if f < k - 1 {
        lemma_incident_contains(faces, v, k - 1, f);
        let i = choose|i: int| 0 <= i < before.len() && before[i] == f as u32;
        assert(now[i] == f as u32);
    } else {
        assert(now[before.len() as int] == f as u32);
    }
}

/// Simplifying starts with every vertex knowing the faces around it.
pub proof fn law_start_is_complete<T, Q, W: Fn([T; 3], [T; 3], Q, Q) -> Option<(u32, [T; 3])>>(
    weigh: W,
    mesh: Mesh<T>,
    quadrics: Seq<Q>,
    s: State<T, Q>,
)
    requires
        is_simplifiable(mesh),
        quadrics.len() == mesh.positions@.len(),
        starts(weigh, mesh, quadrics, s),
    ensures
        is_complete(s),
{
    law_start_is_sound(weigh, mesh, quadrics, s);
    let (faces, n) = (mesh.indices@, mesh.indices@.len() as int);
    assert forall|f: int| 0 <= f < s.faces.len() implies #[trigger] is_listed(s, f) by {
        let face = faces[f];
        assert(s.faces[f] == face);
        lemma_incident_contains(faces, face[0], n, f);
        lemma_incident_contains(faces, face[1], n, f);
        lemma_incident_contains(faces, face[2], n, f);
    }
}

/// No step of a whole run turns a face inside out.
pub proof fn law_run_turns_no_face<
    T,
    Q,
    W: Fn([T; 3], [T; 3], Q, Q) -> Option<(u32, [T; 3])>,
    F: Fn([[T; 3]; 3], [[T; 3]; 3]) -> bool,
    M: Fn(Q, Q) -> Q,
>(
    weigh: W,
    flips: F,
    merge: M,
    mesh: Mesh<T>,
    quadrics: Seq<Q>,
    target: nat,
    run: Seq<State<T, Q>>,
    i: int,
)
    requires
        is_simplifiable(mesh),
        quadrics.len() == mesh.positions@.len(),
        is_run(weigh, flips, merge, mesh, quadrics, target, run),
        0 <= i < run.len(),
    ensures
        is_complete(run[i]),
        i > 0 ==> turns_nothing(flips, run[i - 1], run[i]),
    decreases i,
{
    law_run_shrinks(weigh, flips, merge, mesh, quadrics, target, run, i);
    if i == 0 {
        law_start_is_complete(weigh, mesh, quadrics, run[0]);
    } else {
        assert(run[i - 1].live > target);
        law_run_shrinks(weigh, flips, merge, mesh, quadrics, target, run, i - 1);
        law_run_turns_no_face(weigh, flips, merge, mesh, quadrics, target, run, i - 1);
        assert(steps(weigh, flips, merge, run[i - 1], run[i]));
        law_no_face_is_turned(weigh, flips, merge, run[i - 1], run[i]);
    }
}

} // verus!
