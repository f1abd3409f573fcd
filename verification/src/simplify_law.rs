//! What every step of a simplification keeps.
use crate::compact::{is_compacted, survivors};
use crate::counting::{lemma_trues_all, lemma_trues_update, trues};
use crate::edges::{edge, uses};
use crate::mesh::Mesh;
use crate::queue::Collapse;
use crate::simplify::{
    all_priced, fresh_edges, is_run, is_simplifiable, is_sound, lemma_edge_in_range,
    lemma_filter_members, lemma_incident, lemma_moved, moved, neighbours, offers, other_corners,
    other_than, priced, starts, step_by, steps, incident, State,
};
use vstd::multiset::Multiset;
use vstd::prelude::*;

verus! {

proof fn lemma_moved_live<T, Q>(s: State<T, Q>, from: u32, into: u32, k: int)
    ensures
        moved(s, from, into, k).live <= s.live,
    decreases k,
{
    if k > 0 {
        lemma_moved_live(s, from, into, k - 1);
    }
}

proof fn lemma_neighbours(list: Seq<u32>, faces: Seq<[u32; 3]>, v: u32, k: int, n: nat)
    requires
        0 <= k <= list.len(),
        forall|i: int| 0 <= i < list.len() ==> (#[trigger] list[i]) < faces.len(),
        forall|f: int|
            0 <= f < faces.len() ==> (#[trigger] faces[f])[0] < n && faces[f][1] < n && faces[f][2]
                < n,
    ensures
        forall|i: int|
            0 <= i < neighbours(list, faces, v, k).len() ==> (#[trigger] neighbours(
                list,
                faces,
                v,
                k,
            )[i]) < n,
    decreases k,
{
    if k > 0 {
        lemma_neighbours(list, faces, v, k - 1, n);
        let face = faces[list[k - 1] as int];
        assert(list[k - 1] < faces.len());
        let corners = seq![face[0], face[1], face[2]];
        lemma_filter_members(corners, other_than(v));
        let (before, now) = (neighbours(list, faces, v, k - 1), neighbours(list, faces, v, k));
        assert forall|i: int| 0 <= i < now.len() implies (#[trigger] now[i]) < n by {
            if i < before.len() {
                assert(now[i] == before[i]);
            } else {
                let c = other_corners(face, v)[i - before.len()];
                assert(corners.contains(c));
            }
        }
    }
}

proof fn lemma_fresh_edges<T, Q>(t: State<T, Q>, into: u32)
    requires
        into < t.positions.len(),
        t.around.len() == t.positions.len(),
        forall|i: int|
            0 <= i < t.around[into as int].len() ==> (#[trigger] t.around[into as int][i])
                < t.faces.len(),
        forall|f: int|
            0 <= f < t.faces.len() ==> (#[trigger] t.faces[f])[0] < t.positions.len()
                && t.faces[f][1] < t.positions.len() && t.faces[f][2] < t.positions.len(),
    ensures
        forall|i: int|
            0 <= i < fresh_edges(t, into).len() ==> (#[trigger] fresh_edges(t, into)[i]).0
                < t.positions.len() && fresh_edges(t, into)[i].1 < t.positions.len(),
{
    let list = t.around[into as int];
    let all = neighbours(list, t.faces, into, list.len() as int);
    let chosen = |n: u32| t.vertex_alive[n as int];
    lemma_neighbours(list, t.faces, into, list.len() as int, t.positions.len());
    lemma_filter_members(all, chosen);
    assert forall|i: int| 0 <= i < fresh_edges(t, into).len() implies (
    #[trigger] fresh_edges(t, into)[i]).0 < t.positions.len() && fresh_edges(t, into)[i].1
        < t.positions.len() by {
        let v = all.filter(chosen)[i];
        assert(all.contains(v));
        let j = choose|j: int| 0 <= j < all.len() && all[j] == v;
        assert(all[j] < t.positions.len());
        assert(fresh_edges(t, into)[i] == edge(into, v));
    }
}

proof fn lemma_offers<T, Q, W: Fn([T; 3], [T; 3], Q, Q) -> Option<(u32, [T; 3])>>(
    weigh: W,
    s: State<T, Q>,
    list: Seq<(u32, u32)>,
    answers: Seq<Option<Collapse<[T; 3]>>>,
    n: nat,
)
    requires
        all_priced(weigh, s, list, answers),
        forall|i: int| 0 <= i < list.len() ==> (#[trigger] list[i]).0 < n && list[i].1 < n,
    ensures
        forall|c: Collapse<[T; 3]>| #[trigger]
            offers(answers).count(c) > 0 ==> c.from < n && c.into < n && c.from != c.into,
    decreases answers.len(),
{
    broadcast use vstd::multiset::group_multiset_axioms;

    if answers.len() > 0 {
        let (some, rest) = (answers.drop_last(), list.drop_last());
        assert forall|i: int| 0 <= i < rest.len() implies priced(
            weigh,
            s,
            rest[i],
            #[trigger] some[i],
        ) by {
            assert(priced(weigh, s, list[i], answers[i]));
        }
        assert forall|i: int| 0 <= i < rest.len() implies (#[trigger] rest[i]).0 < n && rest[i].1
            < n by {
            assert(rest[i] == list[i]);
        }
        lemma_offers(weigh, s, rest, some, n);
        let last = list.len() - 1;
        assert(priced(weigh, s, list[last], answers[last]));
        assert(list[last].0 < n && list[last].1 < n);
        assert forall|c: Collapse<[T; 3]>| #[trigger] offers(answers).count(c) > 0 implies c.from
            < n && c.into < n && c.from != c.into by {
            if offers(some).count(c) == 0 {
                assert(answers.last() == Some(c));
            }
        }
    }
}

/// Every step keeps the parts of a state together: faces name vertices there
/// are, the count of live faces is the number of faces alive, and the queue
/// holds edges between different vertices. No step adds a live face.
pub proof fn law_step_is_sound<
    T,
    Q,
    W: Fn([T; 3], [T; 3], Q, Q) -> Option<(u32, [T; 3])>,
    F: Fn([[T; 3]; 3], [[T; 3]; 3]) -> bool,
    M: Fn(Q, Q) -> Q,
>(weigh: W, flips: F, merge: M, s: State<T, Q>, t: State<T, Q>)
    requires
        is_sound(s),
        steps(weigh, flips, merge, s, t),
    ensures
        is_sound(t),
        t.live <= s.live,
        t.faces.len() == s.faces.len(),
        t.positions.len() == s.positions.len(),
{
    let c = choose|c: Collapse<[T; 3]>| #[trigger] step_by(weigh, flips, merge, s, c, t);
    lemma_removed(s.queue, c, s.positions.len());
    if t != (State { queue: s.queue.remove(c), ..s }) {
        let (from, into) = (c.from as int, c.into as int);
        let n = s.positions.len();
        let m = moved(s, c.from, c.into, s.around[from].len() as int);
        lemma_moved(s, c.from, c.into, s.around[from].len() as int);
        lemma_moved_live(s, c.from, c.into, s.around[from].len() as int);
        lemma_trues_update(s.vertex_alive, from);
        let chosen = |f: u32| m.alive[f as int];
        let all = s.around[into] + m.gained;
        lemma_filter_members(all, chosen);
        assert(t.around[into] == all.filter(chosen));
        assert forall|v: int, i: int| 0 <= v < n && 0 <= i < t.around[v].len() implies (
        #[trigger] t.around[v][i]) < t.faces.len() by {
            if v == into {
                let f = all.filter(chosen)[i];
                assert(all.contains(f));
                let j = choose|j: int| 0 <= j < all.len() && all[j] == f;
                if j < s.around[into].len() {
                    assert(s.around[into][j] < s.faces.len());
                } else {
                    assert(m.gained[j - s.around[into].len()] < s.faces.len());
                }
            } else if v != from {
                assert(s.around[v][i] < s.faces.len());
            }
        }
        assert(s.stamps[into] + trues(s.vertex_alive) <= n);
        assert forall|v: int| 0 <= v < n implies (#[trigger] t.stamps[v]) + trues(t.vertex_alive)
            <= n by {
            assert(s.stamps[v] + trues(s.vertex_alive) <= n);
        }
        let answers = choose|answers: Seq<Option<Collapse<[T; 3]>>>| #[trigger]
            all_priced(weigh, t, fresh_edges(t, c.into), answers) && t.queue == s.queue.remove(
                c,
            ).add(offers(answers));
        lemma_fresh_edges(t, c.into);
        lemma_offers(weigh, t, fresh_edges(t, c.into), answers, n);
        lemma_added(s.queue.remove(c), offers(answers), n);
    }
}

/// A queue of edges between different vertices stays one without one of them.
proof fn lemma_removed<P>(queue: Multiset<Collapse<P>>, c: Collapse<P>, n: nat)
    requires
        forall|d: Collapse<P>| #[trigger]
            queue.count(d) > 0 ==> d.from < n && d.into < n && d.from != d.into,
    ensures
        forall|d: Collapse<P>| #[trigger]
            queue.remove(c).count(d) > 0 ==> d.from < n && d.into < n && d.from != d.into,
{
    broadcast use vstd::multiset::group_multiset_axioms;

    assert forall|d: Collapse<P>| #[trigger] queue.remove(c).count(d) > 0 implies d.from < n
        && d.into < n && d.from != d.into by {
        assert(queue.count(d) > 0);
    }
}

/// Two queues of edges between different vertices are one together.
proof fn lemma_added<P>(queue: Multiset<Collapse<P>>, more: Multiset<Collapse<P>>, n: nat)
    requires
        forall|d: Collapse<P>| #[trigger]
            queue.count(d) > 0 ==> d.from < n && d.into < n && d.from != d.into,
        forall|d: Collapse<P>| #[trigger]
            more.count(d) > 0 ==> d.from < n && d.into < n && d.from != d.into,
    ensures
        forall|d: Collapse<P>| #[trigger]
            queue.add(more).count(d) > 0 ==> d.from < n && d.into < n && d.from != d.into,
{
    broadcast use vstd::multiset::group_multiset_axioms;

    assert forall|d: Collapse<P>| #[trigger] queue.add(more).count(d) > 0 implies d.from < n
        && d.into < n && d.from != d.into by {
        if more.count(d) == 0 {
            assert(queue.count(d) > 0);
        }
    }
}

/// Simplifying starts from a sound state.
pub proof fn law_start_is_sound<T, Q, W: Fn([T; 3], [T; 3], Q, Q) -> Option<(u32, [T; 3])>>(
    weigh: W,
    mesh: Mesh<T>,
    quadrics: Seq<Q>,
    s: State<T, Q>,
)
    requires
        is_simplifiable(mesh),
        quadrics.len() == mesh.positions@.len(),
        starts(weigh, mesh, quadrics, s),
    ensures
        is_sound(s),
        s.live == mesh.indices@.len(),
{
    let n = mesh.positions@.len();
    lemma_trues_all(s.alive);
    lemma_trues_all(s.vertex_alive);
    assert forall|v: int, i: int| 0 <= v < n && 0 <= i < s.around[v].len() implies (
    #[trigger] s.around[v][i]) < s.faces.len() by {
        lemma_incident(mesh.indices@, v as u32, mesh.indices@.len() as int);
        assert(s.around[v] == incident(mesh.indices@, v as u32, mesh.indices@.len() as int));
    }
    let (list, answers) = choose|
        list: Seq<(u32, u32)>,
        answers: Seq<Option<Collapse<[T; 3]>>>,
    |
        list.no_duplicates() && (forall|e: (u32, u32)| #[trigger]
            list.contains(e) <==> uses(mesh.indices@, e) > 0) && #[trigger] all_priced(
            weigh,
            s,
            list,
            answers,
        ) && s.queue == offers(answers);
    assert forall|i: int| 0 <= i < list.len() implies (#[trigger] list[i]).0 < n && list[i].1
        < n by {
        assert(list.contains(list[i]));
        lemma_edge_in_range(mesh.indices@, list[i], n);
    }
    lemma_offers(weigh, s, list, answers, n);
}

/// Along a run every state is sound and the number of live faces never grows.
pub proof fn law_run_shrinks<
    T,
    Q,
    W: Fn([T; 3], [T; 3], Q, Q) -> Option<(u32, [T; 3])>,
    F: Fn([[T; 3]; 3], [[T; 3]; 3]) -> bool,
    M: Fn(Q, Q) -> Q,
>(
    weigh: W,
    flips: F,
    merge: M,
    mesh: Mesh<T>,
    quadrics: Seq<Q>,
    target: nat,
    run: Seq<State<T, Q>>,
    i: int,
)
    requires
        is_simplifiable(mesh),
        quadrics.len() == mesh.positions@.len(),
        is_run(weigh, flips, merge, mesh, quadrics, target, run),
        0 <= i < run.len(),
    ensures
        is_sound(run[i]),
        run[i].live <= mesh.indices@.len(),
        run[i].faces.len() == mesh.indices@.len(),
        run[i].positions.len() == mesh.positions@.len(),
        i > 0 ==> run[i].live <= run[i - 1].live,
    decreases i,
{
    if i == 0 {
        law_start_is_sound(weigh, mesh, quadrics, run[0]);
    } else {
        law_run_shrinks(weigh, flips, merge, mesh, quadrics, target, run, i - 1);
        assert(run[i - 1].live > target);
        law_step_is_sound(weigh, flips, merge, run[i - 1], run[i]);
    }
}

proof fn lemma_survivors_alive(faces: Seq<[u32; 3]>, alive: Seq<bool>, k: int)
    requires
        0 <= k <= alive.len(),
    ensures
        survivors(faces, alive, k).len() <= trues(alive.take(k)),
    decreases k,
{
    if k > 0 {
        lemma_survivors_alive(faces, alive, k - 1);
        assert(alive.take(k).drop_last() =~= alive.take(k - 1));
    }
}

/// A simplified mesh never has more faces than were alive at the end of the
/// run that led to it, so it reaches its target whenever the run does.
pub proof fn law_simplified_size<T, Q>(
    mesh: Mesh<T>,
    colors: Seq<[T; 3]>,
    last: State<T, Q>,
)
    requires
        is_sound(last),
        is_compacted(mesh, colors, last.positions, last.faces, last.alive),
    ensures
        mesh.indices@.len() <= last.live,
{
    lemma_survivors_alive(last.faces, last.alive, last.faces.len() as int);
    assert(last.alive.take(last.alive.len() as int) =~= last.alive);
}

} // verus!
