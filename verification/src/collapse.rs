//! The integer bookkeeping of one edge collapse: vertex `remove` is merged into vertex `keep`.

use vstd::prelude::*;
use crate::mesh::{EdgeIdx, FaceIdx, Vertex, VertexModel};
use std::collections::HashMap;

verus! {

/// What becomes of one edge recorded at either end of the collapsed edge.
///
/// The collapsed edge itself disappears and edges at `keep` stay; an edge
/// `(remove, x)` becomes `(keep, x)`; an edge `(x, remove)` from a third vertex
/// is written `(e.1, keep)`, that is `(remove, keep)`.
pub open spec fn relink_edge(e: EdgeIdx, keep: u32, remove: u32) -> Option<EdgeIdx> {
    if e.0 == keep {
        if e.1 == remove { None } else { Some(e) }
    } else if e.1 == keep {
        if e.0 == remove { None } else { Some(e) }
    } else if e.0 == remove {
        Some((keep, e.1))
    } else if e.1 == remove {
        Some((e.1, keep))
    } else {
        Some(e)
    }
}

/// What becomes of one face recorded at either end of the collapsed edge:
/// a face that holds both ends disappears, a face that holds `remove` only
/// has it replaced by `keep`.
pub open spec fn relink_face(f: FaceIdx, keep: u32, remove: u32) -> Option<FaceIdx> {
    if f.0 == keep {
        if f.1 == remove || f.2 == remove { None } else { Some(f) }
    } else if f.1 == keep {
        if f.0 == remove || f.2 == remove { None } else { Some(f) }
    } else if f.2 == keep {
        if f.0 == remove || f.1 == remove { None } else { Some(f) }
    } else if f.0 == remove {
        Some((keep, f.1, f.2))
    } else if f.1 == remove {
        Some((f.0, keep, f.2))
    } else if f.2 == remove {
        Some((f.0, f.1, keep))
    } else {
        Some(f)
    }
}

/// The edges that survive a collapse, in order.
pub open spec fn relink_edges(s: Seq<EdgeIdx>, keep: u32, remove: u32) -> Seq<EdgeIdx>
    decreases s.len(),
{
    if s.len() == 0 {
        Seq::empty()
    } else {
        let prev = relink_edges(s.drop_last(), keep, remove);
        match relink_edge(s.last(), keep, remove) {
            Some(e) => prev.push(e),
            None => prev,
        }
    }
}

/// The faces that survive a collapse, in order.
pub open spec fn relink_faces(s: Seq<FaceIdx>, keep: u32, remove: u32) -> Seq<FaceIdx>
    decreases s.len(),
{
    if s.len() == 0 {
        Seq::empty()
    } else {
        let prev = relink_faces(s.drop_last(), keep, remove);
        match relink_face(s.last(), keep, remove) {
            Some(f) => prev.push(f),
            None => prev,
        }
    }
}

/// The vertex that replaces `keep` and `remove` after the collapse: the
/// relinked edges and faces of `keep`, followed by those of `remove`.
pub open spec fn merged(v1: VertexModel, v2: VertexModel, keep: u32, remove: u32) -> VertexModel {
    VertexModel {
        edges: relink_edges(v1.edges, keep, remove) + relink_edges(v2.edges, keep, remove),
        faces: relink_faces(v1.faces, keep, remove) + relink_faces(v2.faces, keep, remove),
    }
}

/// Appends to `out` the edges of `edges` that survive the collapse, relinked.
pub fn relink_edge_set(out: &mut Vec<EdgeIdx>, edges: &Vec<EdgeIdx>, keep: u32, remove: u32)
    ensures
        final(out)@ == old(out)@ + relink_edges(edges@, keep, remove),
{
    let ghost start = out@;
    let n = edges.len();
    let mut i: usize = 0;
    while i < n
        invariant
            n == edges@.len(),
            i <= n,
            out@ == start + relink_edges(edges@.take(i as int), keep, remove),
        decreases n - i,
    {
        let e = edges[i];
        assert(edges@.take(i + 1).drop_last() =~= edges@.take(i as int));
        if e.0 == keep {
            if e.1 != remove {
                out.push(e);
            }
        } else if e.1 == keep {
            if e.0 != remove {
                out.push(e);
            }
        } else if e.0 == remove {
            out.push((keep, e.1));
        } else if e.1 == remove {
            out.push((e.1, keep));
        } else {
            out.push(e);
        }
        assert(out@ =~= start + relink_edges(edges@.take(i + 1), keep, remove));
        i = i + 1;
    }
    assert(edges@.take(n as int) =~= edges@);
}

/// Appends to `out` the faces of `faces` that survive the collapse, relinked.
pub fn relink_face_set(out: &mut Vec<FaceIdx>, faces: &Vec<FaceIdx>, keep: u32, remove: u32)
    ensures
        final(out)@ == old(out)@ + relink_faces(faces@, keep, remove),
{
    let ghost start = out@;
    let n = faces.len();
    let mut i: usize = 0;
    while i < n
        invariant
            n == faces@.len(),
            i <= n,
            out@ == start + relink_faces(faces@.take(i as int), keep, remove),
        decreases n - i,
    {
        let f = faces[i];
        assert(faces@.take(i + 1).drop_last() =~= faces@.take(i as int));
        if f.0 == keep {
            if f.1 != remove && f.2 != remove {
                out.push(f);
            }
        } else if f.1 == keep {
            if f.0 != remove && f.2 != remove {
                out.push(f);
            }
        } else if f.2 == keep {
            if f.0 != remove && f.1 != remove {
                out.push(f);
            }
        } else if f.0 == remove {
            out.push((keep, f.1, f.2));
        } else if f.1 == remove {
            out.push((f.0, keep, f.2));
        } else if f.2 == remove {
            out.push((f.0, f.1, keep));
        } else {
            out.push(f);
        }
        assert(out@ =~= start + relink_faces(faces@.take(i + 1), keep, remove));
        i = i + 1;
    }
    assert(faces@.take(n as int) =~= faces@);
}

/// The vertex that results from merging `v2` (vertex `remove`) into `v1` (vertex `keep`).
pub fn merge_vertices(v1: &Vertex, v2: &Vertex, keep: u32, remove: u32) -> (v: Vertex)
    ensures
        v@ == merged(v1@, v2@, keep, remove),
{
    let mut edge_set: Vec<EdgeIdx> = Vec::new();
    relink_edge_set(&mut edge_set, &v1.edge_set, keep, remove);
    relink_edge_set(&mut edge_set, &v2.edge_set, keep, remove);
    let mut face_set: Vec<FaceIdx> = Vec::new();
    relink_face_set(&mut face_set, &v1.face_set, keep, remove);
    relink_face_set(&mut face_set, &v2.face_set, keep, remove);
    proof {
        assert(edge_set@ =~= relink_edges(v1@.edges, keep, remove) + relink_edges(v2@.edges, keep, remove));
        assert(face_set@ =~= relink_faces(v1@.faces, keep, remove) + relink_faces(v2@.faces, keep, remove));
    }
    Vertex::new(edge_set, face_set)
}

/// Merges vertex `remove` into vertex `keep` in the vertex table.
pub fn collapse_vertices(vertices: &mut HashMap<u32, Vertex>, keep: u32, remove: u32)
    requires
        old(vertices)@.contains_key(keep),
        old(vertices)@.contains_key(remove),
    ensures
        final(vertices)@.dom() == old(vertices)@.dom().remove(remove).insert(keep),
        final(vertices)@[keep]@ == merged(old(vertices)@[keep]@, old(vertices)@[remove]@, keep, remove),
        forall|k: u32| k != keep && k != remove && #[trigger] old(vertices)@.contains_key(k)
            ==> final(vertices)@[k] == old(vertices)@[k],
{
    broadcast use vstd::std_specs::hash::group_hash_axioms;
    let new_vertex = match (vertices.get(&keep), vertices.get(&remove)) {
        (Some(v1), Some(v2)) => merge_vertices(v1, v2, keep, remove),
        _ => {
            proof { assert(false); }
            Vertex::new(Vec::new(), Vec::new())
        },
    };
    vertices.remove(&keep);
    vertices.remove(&remove);
    vertices.insert(keep, new_vertex);
}

/// The index list with every occurrence of `from` replaced by `to`.
pub open spec fn relabeled(s: Seq<u32>, from: u32, to: u32) -> Seq<u32> {
    s.map_values(|x: u32| if x == from { to } else { x })
}

/// Replaces every occurrence of vertex `from` in the index list by `to`.
pub fn relabel_vertex(index_list: &mut Vec<u32>, from: u32, to: u32)
    ensures
        final(index_list)@ == relabeled(old(index_list)@, from, to),
{
    let ghost start = index_list@;
    let n = index_list.len();
    let mut i: usize = 0;
    while i < n
        invariant
            n == index_list@.len(),
            n == start.len(),
            i <= n,
            forall|j: int| 0 <= j < i ==> index_list@[j] == (if start[j] == from { to } else { start[j] }),
            forall|j: int| i <= j < n ==> index_list@[j] == start[j],
        decreases n - i,
    {
        if index_list[i] == from {
            index_list.set(i, to);
        }
        i = i + 1;
    }
    assert(index_list@ =~= relabeled(start, from, to));
}

/// Whether triangle `t` of the index list has two of its corners on vertex `v`
/// (the test that finds the triangles a collapse onto `v` flattened).
pub open spec fn collapsed_at(s: Seq<u32>, t: int, v: u32) -> bool {
    let (a, b, c) = (s[3 * t], s[3 * t + 1], s[3 * t + 2]);
    (a == v && b == v) || (b == v && c == v) || (a == v && c == v)
}

/// The triangles `0..n` of the index list that are not collapsed at `v`, flattened.
pub open spec fn kept_triangles(s: Seq<u32>, n: nat, v: u32) -> Seq<u32>
    decreases n,
{
    if n == 0 {
        Seq::empty()
    } else {
        let t = n - 1;
        let prev = kept_triangles(s, (n - 1) as nat, v);
        if collapsed_at(s, t, v) {
            prev
        } else {
            prev + seq![s[3 * t], s[3 * t + 1], s[3 * t + 2]]
        }
    }
}

/// The number of triangles `0..n` of the index list that are collapsed at `v`.
pub open spec fn collapsed_count(s: Seq<u32>, n: nat, v: u32) -> nat
    decreases n,
{
    if n == 0 {
        0
    } else {
        collapsed_count(s, (n - 1) as nat, v) + if collapsed_at(s, n - 1, v) { 1nat } else { 0nat }
    }
}

/// Rebuilds the index list from its whole triangles, leaving out those that
/// have two corners on `keep`; also returns how many were left out. Indices
/// after the last whole triangle are not carried over.
pub fn drop_collapsed_triangles(index_list: &Vec<u32>, keep: u32) -> (res: (Vec<u32>, usize))
    ensures
        res.0@ == kept_triangles(index_list@, (index_list@.len() / 3) as nat, keep),
        res.1 == collapsed_count(index_list@, (index_list@.len() / 3) as nat, keep),
        res.0@.len() + 3 * res.1 == 3 * (index_list@.len() / 3),
        forall|u: int| 0 <= u < res.0@.len() / 3 ==>
            !two_corners_on(#[trigger] res.0@[3 * u], res.0@[3 * u + 1], res.0@[3 * u + 2], keep),
{
    let len = index_list.len();
    let tri_num = len / 3;
    let mut in_list: Vec<u32> = Vec::new();
    let mut dropped: usize = 0;
    let mut i: usize = 0;
    while i < tri_num
        invariant
            len == index_list@.len(),
            tri_num == index_list@.len() / 3,
            i <= tri_num,
            in_list@ == kept_triangles(index_list@, i as nat, keep),
            dropped == collapsed_count(index_list@, i as nat, keep),
            dropped <= i,
        decreases tri_num - i,
    {
        assert(i * 3 + 2 < index_list@.len()) by (nonlinear_arith)
            requires
                i < tri_num,
                tri_num == index_list@.len() / 3,
        ;
        let a = index_list[i * 3];
        let b = index_list[i * 3 + 1];
        let c = index_list[i * 3 + 2];
        if (a == keep && b == keep) || (b == keep && c == keep) || (a == keep && c == keep) {
            dropped = dropped + 1;
        } else {
            in_list.push(a);
            in_list.push(b);
            in_list.push(c);
        }
        proof {
            assert(in_list@ =~= kept_triangles(index_list@, (i + 1) as nat, keep));
        }
        i = i + 1;
    }
    proof {
        assert(3 * tri_num <= index_list@.len()) by (nonlinear_arith)
            requires
                tri_num == index_list@.len() / 3,
        ;
        law_rebuilt_list_drops_flattened(index_list@, tri_num as nat, keep);
    }
    (in_list, dropped)
}

/// What becomes of a candidate pair waiting in the queue after a collapse.
#[derive(PartialEq, Eq, Structural, Clone, Copy, Debug)]
pub enum PairUpdate {
    /// The pair leaves the queue.
    Discard,
    /// The pair stays as it is, with its cost.
    Keep,
    /// The pair stays, renamed as given, and its cost must be computed again.
    Recost(u32, u32),
}

/// `alive[x] && alive[y]`, evaluated left to right: `None` when a vertex
/// that gets looked at is out of range.
pub open spec fn both_alive(alive: Seq<bool>, x: u32, y: u32) -> Option<bool> {
    if x >= alive.len() {
        None
    } else if !alive[x as int] {
        Some(false)
    } else if y >= alive.len() {
        None
    } else {
        Some(alive[y as int])
    }
}

fn both_alive_exec(alive: &Vec<bool>, x: u32, y: u32) -> (r: Option<bool>)
    ensures
        r == both_alive(alive@, x, y),
{
    if x as usize >= alive.len() {
        None
    } else if !alive[x as usize] {
        Some(false)
    } else if y as usize >= alive.len() {
        None
    } else {
        Some(alive[y as usize])
    }
}

/// The update of a queued pair when its ends are both alive, `Discard` when
/// not, `None` when a vertex looked at is out of range.
pub open spec fn if_alive(alive: Seq<bool>, x: u32, y: u32, then: PairUpdate) -> Option<PairUpdate> {
    match both_alive(alive, x, y) {
        None => None,
        Some(true) => Some(then),
        Some(false) => Some(PairUpdate::Discard),
    }
}

/// The spec of [`update_pair`].
pub open spec fn pair_update(a: u32, b: u32, keep: u32, remove: u32, alive: Seq<bool>) -> Option<PairUpdate> {
    if a == remove {
        if b == keep {
            Some(PairUpdate::Discard)
        } else {
            if_alive(alive, keep, b, PairUpdate::Recost(keep, b))
        }
    } else if b == remove {
        if a == keep {
            Some(PairUpdate::Discard)
        } else {
            if_alive(alive, a, keep, PairUpdate::Recost(a, keep))
        }
    } else if a == keep || b == keep {
        if_alive(alive, a, b, PairUpdate::Recost(a, b))
    } else {
        if_alive(alive, a, b, PairUpdate::Keep)
    }
}

fn if_alive_exec(alive: &Vec<bool>, x: u32, y: u32, then: PairUpdate) -> (r: Option<PairUpdate>)
    ensures
        r == if_alive(alive@, x, y, then),
{
    match both_alive_exec(alive, x, y) {
        None => None,
        Some(true) => Some(then),
        Some(false) => Some(PairUpdate::Discard),
    }
}

/// Decides what becomes of the queued pair `(a, b)` after `remove` was merged
/// into `keep`: the collapsed pair leaves, pairs that touch `remove` are
/// renamed onto `keep`, pairs that touch `keep` get a new cost, and only pairs
/// whose ends are both alive stay. `None` when a vertex that is looked at in
/// the liveness table is out of its range.
pub fn update_pair(a: u32, b: u32, keep: u32, remove: u32, alive: &Vec<bool>) -> (r: Option<PairUpdate>)
    ensures
        r == pair_update(a, b, keep, remove, alive@),
{
    if a == remove {
        if b == keep {
            Some(PairUpdate::Discard)
        } else {
            if_alive_exec(alive, keep, b, PairUpdate::Recost(keep, b))
        }
    } else if b == remove {
        if a == keep {
            Some(PairUpdate::Discard)
        } else {
            if_alive_exec(alive, a, keep, PairUpdate::Recost(a, keep))
        }
    } else if a == keep || b == keep {
        if_alive_exec(alive, a, b, PairUpdate::Recost(a, b))
    } else {
        if_alive_exec(alive, a, b, PairUpdate::Keep)
    }
}

/// How a queued pair `(x, y)` fares when `remove` is merged into a different
/// vertex `keep` (with `remove` marked merged away and every vertex in range):
/// the collapsed pair leaves in either orientation; a pair with an end on
/// `remove` is renamed onto `keep` and costed again when both its new ends are
/// alive; a pair with an end on `keep` stays as it is and is costed again; a
/// pair touching neither stays with its cost; and any other pair with a dead
/// end leaves.
pub proof fn law_pair_update_cases(x: u32, y: u32, keep: u32, remove: u32, alive: Seq<bool>)
    requires
        keep != remove,
        x < alive.len(),
        y < alive.len(),
        keep < alive.len(),
        remove < alive.len(),
        !alive[remove as int],
    ensures
        (x == remove && y == keep) || (x == keep && y == remove)
            ==> pair_update(x, y, keep, remove, alive) == Some(PairUpdate::Discard),
        x == remove && y != keep && alive[keep as int] && alive[y as int]
            ==> pair_update(x, y, keep, remove, alive) == Some(PairUpdate::Recost(keep, y)),
        y == remove && x != keep && alive[x as int] && alive[keep as int]
            ==> pair_update(x, y, keep, remove, alive) == Some(PairUpdate::Recost(x, keep)),
        x != remove && y != remove && (x == keep || y == keep) && alive[x as int] && alive[y as int]
            ==> pair_update(x, y, keep, remove, alive) == Some(PairUpdate::Recost(x, y)),
        x != remove && y != remove && x != keep && y != keep && alive[x as int] && alive[y as int]
            ==> pair_update(x, y, keep, remove, alive) == Some(PairUpdate::Keep),
        pair_update(x, y, keep, remove, alive) is Some,
        ({
            let (nx, ny) = (if x == remove { keep } else { x }, if y == remove { keep } else { y });
            !(alive[nx as int] && alive[ny as int]) ==> pair_update(x, y, keep, remove, alive) == Some(PairUpdate::Discard)
        }),
{
}

/// Once `remove` is marked merged away, no pair that stays in the queue after
/// the collapse into a different vertex `keep` has `remove` as an end, and
/// both its ends are alive.
pub proof fn law_updated_pairs_alive(a: u32, b: u32, keep: u32, remove: u32, alive: Seq<bool>)
    requires
        keep != remove,
        remove < alive.len(),
        !alive[remove as int],
    ensures
        match pair_update(a, b, keep, remove, alive) {
            Some(PairUpdate::Keep) => a != remove && b != remove && alive[a as int] && alive[b as int],
            Some(PairUpdate::Recost(x, y)) => x != remove && y != remove && alive[x as int] && alive[y as int],
            _ => true,
        },
{
}

/// Whether a pair taken from the queue is passed over: both its ends were
/// merged away already (`!alive[a] && !alive[b]`, evaluated left to right).
/// `None` when a vertex that is looked at is out of range.
pub fn is_retired(alive: &Vec<bool>, a: u32, b: u32) -> (r: Option<bool>)
    ensures
        r == if a >= alive@.len() {
            None
        } else if alive@[a as int] {
            Some(false)
        } else if b >= alive@.len() {
            None
        } else {
            Some(!alive@[b as int])
        },
{
    if a as usize >= alive.len() {
        None
    } else if alive[a as usize] {
        Some(false)
    } else if b as usize >= alive.len() {
        None
    } else {
        Some(!alive[b as usize])
    }
}

/// The number of collapses asked for when the mesh of `tri_num` triangles is
/// to keep `limit` of them: the number of candidate pairs, capped by
/// `tri_num - limit`.
pub fn max_goal(pair_count: usize, tri_num: u32, limit: u32) -> (goal: usize)
    requires
        limit <= tri_num,
    ensures
        goal == if pair_count <= tri_num - limit { pair_count as int } else { tri_num - limit },
{
    let cap: usize = (tri_num - limit) as usize;
    if pair_count <= cap {
        pair_count
    } else {
        cap
    }
}

/// Carries out the connectivity side of collapsing the pair `(keep, remove)`:
/// vertex `remove` is marked merged away, the two vertex records are merged
/// under `keep`, `remove` is renamed `keep` in the index list, and the
/// triangles that the collapse flattened are taken out. Returns how many
/// triangles were taken out.
pub fn collapse_topology(
    alive: &mut Vec<bool>,
    vertices: &mut HashMap<u32, Vertex>,
    index_list: &mut Vec<u32>,
    keep: u32,
    remove: u32,
) -> (dropped: usize)
    requires
        remove < old(alive)@.len(),
        old(vertices)@.contains_key(keep),
        old(vertices)@.contains_key(remove),
    ensures
        final(alive)@ == old(alive)@.update(remove as int, false),
        final(vertices)@.dom() == old(vertices)@.dom().remove(remove).insert(keep),
        final(vertices)@[keep]@ == merged(old(vertices)@[keep]@, old(vertices)@[remove]@, keep, remove),
        forall|k: u32| k != keep && k != remove && #[trigger] old(vertices)@.contains_key(k)
            ==> final(vertices)@[k] == old(vertices)@[k],
        final(index_list)@ == kept_triangles(
            relabeled(old(index_list)@, remove, keep),
            (old(index_list)@.len() / 3) as nat,
            keep,
        ),
        dropped == collapsed_count(
            relabeled(old(index_list)@, remove, keep),
            (old(index_list)@.len() / 3) as nat,
            keep,
        ),
{
    alive.set(remove as usize, false);
    collapse_vertices(vertices, keep, remove);
    relabel_vertex(index_list, remove, keep);
    let (in_list, dropped) = drop_collapsed_triangles(index_list, keep);
    *index_list = in_list;
    dropped
}

/// The vertices whose flag is set in a liveness table.
pub open spec fn alive_set(alive: Seq<bool>) -> Set<u32> {
    Set::new(|k: u32| k < alive.len() && alive[k as int])
}

/// The vertex table starts out with one record per vertex, all of them alive.
pub proof fn law_initial_table_alive(dom: Set<u32>, v_num: nat)
    requires
        forall|k: u32| #[trigger] dom.contains(k) <==> k < v_num,
    ensures
        dom == alive_set(Seq::new(v_num, |i: int| true)),
{
    assert(dom =~= alive_set(Seq::new(v_num, |i: int| true)));
}

/// A collapse keeps the vertex table's records exactly on the alive vertices:
/// if they match before, and the two vertices of the pair are alive and
/// different, they match after.
pub proof fn law_collapse_keeps_table_on_alive(dom: Set<u32>, alive: Seq<bool>, keep: u32, remove: u32)
    requires
        dom == alive_set(alive),
        dom.contains(keep),
        dom.contains(remove),
        keep != remove,
    ensures
        dom.remove(remove).insert(keep) == alive_set(alive.update(remove as int, false)),
{
    assert(dom.remove(remove).insert(keep) =~= alive_set(alive.update(remove as int, false)));
}

/// Rebuilding the index list keeps whole triangles only: the triangles kept
/// and the triangles dropped together account for every whole triangle.
pub proof fn lemma_kept_triangles_len(s: Seq<u32>, n: nat, v: u32)
    ensures
        kept_triangles(s, n, v).len() + 3 * collapsed_count(s, n, v) == 3 * n,
    decreases n,
{
    if n > 0 {
        lemma_kept_triangles_len(s, (n - 1) as nat, v);
    }
}

/// Every index in the rebuilt list is an index of one of the triangles it was built from.
pub proof fn lemma_kept_triangles_from(s: Seq<u32>, n: nat, v: u32, j: int)
    requires
        3 * n <= s.len(),
        0 <= j < kept_triangles(s, n, v).len(),
    ensures
        exists|i: int| 0 <= i < 3 * n && s[i] == #[trigger] kept_triangles(s, n, v)[j],
    decreases n,
{
    let prev = kept_triangles(s, (n - 1) as nat, v);
    lemma_kept_triangles_len(s, (n - 1) as nat, v);
    if j < prev.len() {
        lemma_kept_triangles_from(s, (n - 1) as nat, v, j);
        let i = choose|i: int| 0 <= i < 3 * (n - 1) && s[i] == prev[j];
        assert(s[i] == kept_triangles(s, n, v)[j]);
    } else {
        let t = n - 1;
        let k = j - prev.len();
        assert(s[3 * t + k] == kept_triangles(s, n, v)[j]);
    }
}

/// Whether the corners `a`, `b`, `c` put two corners, in any two of the three
/// positions, on vertex `v`.
pub open spec fn two_corners_on(a: u32, b: u32, c: u32, v: u32) -> bool {
    (a == v && b == v) || (b == v && c == v) || (c == v && a == v)
}

/// Rebuilding the index list drops exactly the flattened triangles: no
/// triangle of the rebuilt list has two of its corners on `v`, every whole
/// triangle of the list that does not is kept, in order, and the number
/// reported dropped accounts for the rest.
pub proof fn law_rebuilt_list_drops_flattened(s: Seq<u32>, n: nat, v: u32)
    requires
        3 * n <= s.len(),
    ensures
        ({
            let out = kept_triangles(s, n, v);
            &&& out.len() % 3 == 0
            &&& out.len() + 3 * collapsed_count(s, n, v) == 3 * n
            &&& forall|u: int| 0 <= u < out.len() / 3 ==>
                !two_corners_on(#[trigger] out[3 * u], out[3 * u + 1], out[3 * u + 2], v)
            &&& forall|t: int| 0 <= t < n && !two_corners_on(#[trigger] s[3 * t], s[3 * t + 1], s[3 * t + 2], v) ==>
                exists|u: int| 0 <= u < out.len() / 3 && #[trigger] out[3 * u] == s[3 * t]
                    && out[3 * u + 1] == s[3 * t + 1] && out[3 * u + 2] == s[3 * t + 2]
        }),
    decreases n,
{
    lemma_kept_triangles_len(s, n, v);
    if n > 0 {
        let m = (n - 1) as nat;
        law_rebuilt_list_drops_flattened(s, m, v);
        lemma_kept_triangles_len(s, m, v);
        let prev = kept_triangles(s, m, v);
        let out = kept_triangles(s, n, v);
        let t0 = n - 1;
        assert(prev.len() % 3 == 0);
        assert forall|u: int| 0 <= u < out.len() / 3 implies
            !two_corners_on(#[trigger] out[3 * u], out[3 * u + 1], out[3 * u + 2], v) by {
            if u < prev.len() / 3 {
                assert(out[3 * u] == prev[3 * u]);
                assert(out[3 * u + 1] == prev[3 * u + 1]);
                assert(out[3 * u + 2] == prev[3 * u + 2]);
            } else {
                assert(!collapsed_at(s, t0, v));
                assert(3 * u == prev.len());
            }
        }
        assert forall|t: int| 0 <= t < n && !two_corners_on(#[trigger] s[3 * t], s[3 * t + 1], s[3 * t + 2], v) implies
            exists|u: int| 0 <= u < out.len() / 3 && #[trigger] out[3 * u] == s[3 * t]
                && out[3 * u + 1] == s[3 * t + 1] && out[3 * u + 2] == s[3 * t + 2] by {
            if t < m {
                let u = choose|u: int| 0 <= u < prev.len() / 3 && #[trigger] prev[3 * u] == s[3 * t]
                    && prev[3 * u + 1] == s[3 * t + 1] && prev[3 * u + 2] == s[3 * t + 2];
                assert(out[3 * u] == prev[3 * u]);
                assert(out[3 * u + 1] == prev[3 * u + 1]);
                assert(out[3 * u + 2] == prev[3 * u + 2]);
            } else {
                assert(!collapsed_at(s, t0, v));
                let u: int = (prev.len() / 3) as int;
                assert(3 * u == prev.len());
                assert(out[3 * u] == s[3 * t]);
            }
        }
    }
}

/// After a collapse of `remove` into a different vertex `keep`, the index list
/// is made of whole triangles, no longer mentions `remove`, and has lost three
/// indices for each triangle reported as dropped (plus any indices that
/// trailed after the last whole triangle).
pub proof fn law_collapse_index_list(old_list: Seq<u32>, keep: u32, remove: u32)
    requires
        keep != remove,
    ensures
        ({
            let n = (old_list.len() / 3) as nat;
            let r = relabeled(old_list, remove, keep);
            let new_list = kept_triangles(r, n, keep);
            &&& new_list.len() % 3 == 0
            &&& new_list.len() + 3 * collapsed_count(r, n, keep) == 3 * n
            &&& forall|j: int| 0 <= j < new_list.len() ==> #[trigger] new_list[j] != remove
        }),
{
    let n = (old_list.len() / 3) as nat;
    let r = relabeled(old_list, remove, keep);
    let new_list = kept_triangles(r, n, keep);
    lemma_kept_triangles_len(r, n, keep);
    assert forall|j: int| 0 <= j < new_list.len() implies #[trigger] new_list[j] != remove by {
        lemma_kept_triangles_from(r, n, keep, j);
    }
}

/// A face with three different corners that survives a collapse of `remove`
/// into a different vertex `keep` no longer has `remove` as a corner.
pub proof fn law_relinked_faces_leave_removed(faces: Seq<FaceIdx>, keep: u32, remove: u32)
    requires
        keep != remove,
        forall|i: int| 0 <= i < faces.len() ==> {
            let f = #[trigger] faces[i];
            f.0 != f.1 && f.1 != f.2 && f.0 != f.2
        },
    ensures
        forall|j: int| 0 <= j < relink_faces(faces, keep, remove).len() ==> {
            let f = #[trigger] relink_faces(faces, keep, remove)[j];
            f.0 != remove && f.1 != remove && f.2 != remove
        },
    decreases faces.len(),
{
    if faces.len() > 0 {
        let prev = faces.drop_last();
        assert forall|i: int| 0 <= i < prev.len() implies {
            let f = #[trigger] prev[i];
            f.0 != f.1 && f.1 != f.2 && f.0 != f.2
        } by {
            assert(prev[i] == faces[i]);
        }
        law_relinked_faces_leave_removed(prev, keep, remove);
        let l = faces.last();
        assert(l == faces[faces.len() - 1]);
        let r = relink_faces(faces, keep, remove);
        let pr = relink_faces(prev, keep, remove);
        assert forall|j: int| 0 <= j < r.len() implies {
            let f = #[trigger] r[j];
            f.0 != remove && f.1 != remove && f.2 != remove
        } by {
            if j < pr.len() {
                assert(r[j] == pr[j]);
            }
        }
    }
}

/// An edge without a repeated end that survives a collapse of `remove` into a
/// different vertex `keep` no longer has `remove` as an end, unless it arrived
/// at `remove` from a third vertex: that one becomes `(remove, keep)`.
pub proof fn law_relinked_edges_leave_removed(edges: Seq<EdgeIdx>, keep: u32, remove: u32)
    requires
        keep != remove,
        forall|i: int| 0 <= i < edges.len() ==> {
            let e = #[trigger] edges[i];
            &&& e.0 != e.1
            &&& e.1 == remove ==> e.0 == keep
        },
    ensures
        forall|j: int| 0 <= j < relink_edges(edges, keep, remove).len() ==> {
            let e = #[trigger] relink_edges(edges, keep, remove)[j];
            e.0 != remove && e.1 != remove
        },
    decreases edges.len(),
{
    if edges.len() > 0 {
        let prev = edges.drop_last();
        assert forall|i: int| 0 <= i < prev.len() implies {
            let e = #[trigger] prev[i];
            &&& e.0 != e.1
            &&& e.1 == remove ==> e.0 == keep
        } by {
            assert(prev[i] == edges[i]);
        }
        law_relinked_edges_leave_removed(prev, keep, remove);
        let l = edges.last();
        assert(l == edges[edges.len() - 1]);
        let r = relink_edges(edges, keep, remove);
        let pr = relink_edges(prev, keep, remove);
        assert forall|j: int| 0 <= j < r.len() implies {
            let e = #[trigger] r[j];
            e.0 != remove && e.1 != remove
        } by {
            if j < pr.len() {
                assert(r[j] == pr[j]);
            }
        }
    }
}

} // verus!
