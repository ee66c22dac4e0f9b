//! Connectivity of a triangle mesh: the edges and faces that meet at each vertex.

use vstd::prelude::*;
use std::collections::{HashMap, HashSet};
use vstd::std_specs::iter::IteratorSpec;

verus! {

/// An edge of the mesh, as a pair of vertex numbers.
pub type EdgeIdx = (u32, u32);

/// A triangle of the mesh, as three vertex numbers.
pub type FaceIdx = (u32, u32, u32);

/// The edges and faces recorded at one vertex.
#[derive(Debug, Clone)]
pub struct Vertex {
    pub edge_set: Vec<EdgeIdx>,
    pub face_set: Vec<FaceIdx>,
}

/// What a vertex records, as sequences.
pub struct VertexModel {
    pub edges: Seq<EdgeIdx>,
    pub faces: Seq<FaceIdx>,
}

impl View for Vertex {
    type V = VertexModel;

    open spec fn view(&self) -> VertexModel {
        VertexModel { edges: self.edge_set@, faces: self.face_set@ }
    }
}

impl Vertex {
    /// Builds a vertex from its edge and face lists.
    pub fn new(edge_set: Vec<EdgeIdx>, face_set: Vec<FaceIdx>) -> (v: Self)
        ensures
            v.edge_set@ == edge_set@,
            v.face_set@ == face_set@,
    {
        Vertex { edge_set, face_set }
    }
}

/// Whether triangle `j` of the index list has `v` as a corner.
pub open spec fn touches(s: Seq<u32>, j: int, v: u32) -> bool {
    s[3 * j] == v || s[3 * j + 1] == v || s[3 * j + 2] == v
}

/// The edges that triangle `j` contributes to vertex `v`: the two sides that
/// meet at the first corner found on `v`.
pub open spec fn triangle_edges(s: Seq<u32>, j: int, v: u32) -> Seq<EdgeIdx> {
    let (a, b, c) = (s[3 * j], s[3 * j + 1], s[3 * j + 2]);
    if a == v {
        seq![(a, b), (c, a)]
    } else if b == v {
        seq![(a, b), (b, c)]
    } else if c == v {
        seq![(b, c), (c, a)]
    } else {
        Seq::empty()
    }
}

/// The edges recorded at vertex `v` from triangles `0..n`.
pub open spec fn vertex_edges(s: Seq<u32>, n: nat, v: u32) -> Seq<EdgeIdx>
    decreases n,
{
    if n == 0 {
        Seq::empty()
    } else {
        vertex_edges(s, (n - 1) as nat, v) + triangle_edges(s, n - 1, v)
    }
}

/// The faces recorded at vertex `v` from triangles `0..n`: each triangle that has `v` as a corner.
pub open spec fn vertex_faces(s: Seq<u32>, n: nat, v: u32) -> Seq<FaceIdx>
    decreases n,
{
    if n == 0 {
        Seq::empty()
    } else {
        let j = n - 1;
        let prev = vertex_faces(s, (n - 1) as nat, v);
        if touches(s, j, v) {
            prev.push((s[3 * j], s[3 * j + 1], s[3 * j + 2]))
        } else {
            prev
        }
    }
}

/// The numbers, in increasing order, of the triangles among `0..n` that have `v` as a corner.
pub open spec fn incident(s: Seq<u32>, n: nat, v: u32) -> Seq<usize>
    decreases n,
{
    if n == 0 {
        Seq::empty()
    } else {
        let j = n - 1;
        let prev = incident(s, (n - 1) as nat, v);
        if touches(s, j, v) {
            prev.push(j as usize)
        } else {
            prev
        }
    }
}

/// The record of vertex `v` in a mesh whose index list is `s`.
pub open spec fn vertex_model(s: Seq<u32>, v: u32) -> VertexModel {
    let n = (s.len() / 3) as nat;
    VertexModel { edges: vertex_edges(s, n, v), faces: vertex_faces(s, n, v) }
}

/// Builds the record of vertex `v`: the edges and faces of the whole
/// triangles of the index list that have `v` as a corner.
pub fn build_vertex(index_list: &Vec<u32>, v: u32) -> (r: Vertex)
    ensures
        r@ == vertex_model(index_list@, v),
{
    let len = index_list.len();
    let tri_num = len / 3;
    let mut edge_set: Vec<EdgeIdx> = Vec::new();
    let mut face_set: Vec<FaceIdx> = Vec::new();
    let mut j: usize = 0;
    while j < tri_num
        invariant
            len == index_list@.len(),
            tri_num == len / 3,
            j <= tri_num,
            edge_set@ == vertex_edges(index_list@, j as nat, v),
            face_set@ == vertex_faces(index_list@, j as nat, v),
        decreases tri_num - j,
    {
        assert(j * 3 + 2 < len) by (nonlinear_arith)
            requires
                j < tri_num,
                tri_num == len / 3,
        ;
        let a = index_list[j * 3];
        let b = index_list[j * 3 + 1];
        let c = index_list[j * 3 + 2];
        if a == v {
            edge_set.push((a, b));
            edge_set.push((c, a));
            face_set.push((a, b, c));
        } else if b == v {
            edge_set.push((a, b));
            edge_set.push((b, c));
            face_set.push((a, b, c));
        } else if c == v {
            edge_set.push((b, c));
            edge_set.push((c, a));
            face_set.push((a, b, c));
        }
        proof {
            assert(edge_set@ =~= vertex_edges(index_list@, (j + 1) as nat, v));
        }
        j = j + 1;
    }
    Vertex::new(edge_set, face_set)
}

/// The numbers of the whole triangles of the index list that have `v` as a
/// corner, in increasing order (the faces whose error quadrics vertex `v`
/// sums up).
pub fn incident_triangles(index_list: &Vec<u32>, v: u32) -> (r: Vec<usize>)
    ensures
        r@ == incident(index_list@, (index_list@.len() / 3) as nat, v),
{
    let len = index_list.len();
    let tri_num = len / 3;
    let mut r: Vec<usize> = Vec::new();
    let mut j: usize = 0;
    while j < tri_num
        invariant
            len == index_list@.len(),
            tri_num == len / 3,
            j <= tri_num,
            r@ == incident(index_list@, j as nat, v),
        decreases tri_num - j,
    {
        assert(j * 3 + 2 < len) by (nonlinear_arith)
            requires
                j < tri_num,
                tri_num == len / 3,
        ;
        if index_list[j * 3] == v || index_list[j * 3 + 1] == v || index_list[j * 3 + 2] == v {
            r.push(j);
        }
        j = j + 1;
    }
    r
}

/// Builds the vertex table of a mesh with vertices `0..v_num`, and returns it
/// with the number of whole triangles in the index list.
pub fn initialize(index_list: &Vec<u32>, v_num: usize) -> (res: (HashMap<u32, Vertex>, u32))
    requires
        v_num <= 0x1_0000_0000,
    ensures
        forall|k: u32| #[trigger] res.0@.contains_key(k) <==> k < v_num,
        forall|k: u32| k < v_num ==> #[trigger] res.0@[k]@ == vertex_model(index_list@, k),
        res.1 == (index_list@.len() / 3) as u32,
{
    broadcast use vstd::std_specs::hash::group_hash_axioms;
    let mut vertex_list: HashMap<u32, Vertex> = HashMap::new();
    let mut i: usize = 0;
    while i < v_num
        invariant
            v_num <= 0x1_0000_0000,
            i <= v_num,
            forall|k: u32| #[trigger] vertex_list@.contains_key(k) <==> k < i,
            forall|k: u32| k < i ==> #[trigger] vertex_list@[k]@ == vertex_model(index_list@, k),
        decreases v_num - i,
    {
        let v = build_vertex(index_list, i as u32);
        vertex_list.insert(i as u32, v);
        i = i + 1;
    }
    let tri_num = index_list.len() / 3;
    (vertex_list, tri_num as u32)
}

/// What a vertex records of triangles `0..n`: one face per triangle that has
/// the vertex as a corner, in increasing order of triangle number, each face
/// being that triangle; two edges per such face, each with the vertex as an end.
pub proof fn law_vertex_record(s: Seq<u32>, n: nat, v: u32)
    requires
        3 * n <= s.len(),
        n <= usize::MAX,
    ensures
        vertex_faces(s, n, v).len() == incident(s, n, v).len(),
        vertex_edges(s, n, v).len() == 2 * vertex_faces(s, n, v).len(),
        forall|k: int| 0 <= k < incident(s, n, v).len() ==> {
            let j = #[trigger] incident(s, n, v)[k] as int;
            &&& 0 <= j < n
            &&& touches(s, j, v)
            &&& vertex_faces(s, n, v)[k] == (s[3 * j], s[3 * j + 1], s[3 * j + 2])
        },
        forall|k1: int, k2: int| 0 <= k1 < k2 < incident(s, n, v).len()
            ==> incident(s, n, v)[k1] < incident(s, n, v)[k2],
        forall|k: int| 0 <= k < vertex_edges(s, n, v).len() ==> {
            let e = #[trigger] vertex_edges(s, n, v)[k];
            e.0 == v || e.1 == v
        },
    decreases n,
{
    if n > 0 {
        let m = (n - 1) as nat;
        law_vertex_record(s, m, v);
        let inc = incident(s, n, v);
        let pinc = incident(s, m, v);
        let edges = vertex_edges(s, n, v);
        let pedges = vertex_edges(s, m, v);
        assert forall|k: int| 0 <= k < edges.len() implies {
            let e = #[trigger] edges[k];
            e.0 == v || e.1 == v
        } by {
            if k < pedges.len() {
                assert(edges[k] == pedges[k]);
            }
        }
        assert forall|k: int| 0 <= k < inc.len() implies {
            let j = #[trigger] inc[k] as int;
            &&& 0 <= j < n
            &&& touches(s, j, v)
            &&& vertex_faces(s, n, v)[k] == (s[3 * j], s[3 * j + 1], s[3 * j + 2])
        } by {
            if k < pinc.len() {
                assert(inc[k] == pinc[k]);
                assert(vertex_faces(s, n, v)[k] == vertex_faces(s, m, v)[k]);
            }
        }
        assert forall|k1: int, k2: int| 0 <= k1 < k2 < inc.len() implies inc[k1] < inc[k2] by {
            if k2 < pinc.len() {
                assert(inc[k1] == pinc[k1]);
                assert(inc[k2] == pinc[k2]);
            } else {
                assert(inc[k1] == pinc[k1]);
            }
        }
    }
}

/// An edge written with its smaller end first (its end vertices as a candidate pair).
pub open spec fn canonical(e: EdgeIdx) -> EdgeIdx {
    if e.1 > e.0 { (e.0, e.1) } else { (e.1, e.0) }
}

/// Writes an edge with its smaller end first.
pub fn canonical_pair(e: EdgeIdx) -> (r: EdgeIdx)
    ensures
        r == canonical(e),
        r.0 <= r.1,
{
    if e.1 > e.0 { (e.0, e.1) } else { (e.1, e.0) }
}

/// The candidate pairs given by the connectivity: every edge recorded at some
/// vertex, smaller end first.
pub open spec fn connected_pairs(vals: Set<Vertex>) -> Set<EdgeIdx> {
    Set::new(|p: EdgeIdx| exists|v: Vertex, j: int|
        #![trigger vals.contains(v), v.edge_set@[j]]
        vals.contains(v) && 0 <= j < v.edge_set@.len() && canonical(v.edge_set@[j]) == p)
}

/// Every candidate pair given by the connectivity has its smaller end first.
pub proof fn law_connected_pairs_ordered(vals: Set<Vertex>, p: EdgeIdx)
    requires
        connected_pairs(vals).contains(p),
    ensures
        p.0 <= p.1,
{
}

/// A single number that tells pairs apart.
pub open spec fn pair_key(p: EdgeIdx) -> int {
    p.0 * 0x1_0000_0000 + p.1
}

proof fn lemma_pair_key_injective(p: EdgeIdx, q: EdgeIdx)
    ensures
        pair_key(p) == pair_key(q) ==> p == q,
        0 <= pair_key(p) <= u64::MAX,
{
    let (a, b, c, d) = (p.0 as int, p.1 as int, q.0 as int, q.1 as int);
    assert(0 <= a * 0x1_0000_0000 + b <= u64::MAX) by (nonlinear_arith)
        requires
            0 <= a < 0x1_0000_0000,
            0 <= b < 0x1_0000_0000,
    ;
    assert(a * 0x1_0000_0000 + b == c * 0x1_0000_0000 + d ==> a == c && b == d) by (nonlinear_arith)
        requires
            0 <= a < 0x1_0000_0000,
            0 <= b < 0x1_0000_0000,
            0 <= c < 0x1_0000_0000,
            0 <= d < 0x1_0000_0000,
    ;
}

fn key_of(p: EdgeIdx) -> (k: u64)
    ensures
        k == pair_key(p),
{
    proof {
        lemma_pair_key_injective(p, p);
    }
    (p.0 as u64) * 0x1_0000_0000 + (p.1 as u64)
}

/// Adds to the candidate pairs `valid` the pairs given by the connectivity of
/// the vertex table, each once and smaller end first, after the pairs already
/// there.
pub fn add_connected_pairs(valid: &mut Vec<EdgeIdx>, vertices: &HashMap<u32, Vertex>)
    ensures
        final(valid)@.len() >= old(valid)@.len(),
        final(valid)@.subrange(0, old(valid)@.len() as int) == old(valid)@,
        final(valid)@.to_set() == old(valid)@.to_set().union(connected_pairs(vertices@.values())),
        old(valid)@.no_duplicates() ==> final(valid)@.no_duplicates(),
{
    broadcast use vstd::std_specs::hash::group_hash_axioms;
    broadcast use vstd::seq_lib::group_seq_properties;
    let ghost start = valid@;
    let mut seen: HashSet<u64> = HashSet::new();
    let n = valid.len();
    let mut i: usize = 0;
    while i < n
        invariant
            n == valid@.len(),
            valid@ == start,
            i <= n,
            forall|k: u64| #[trigger] seen@.contains(k) <==>
                exists|q: int| 0 <= q < i && pair_key(valid@[q]) == k,
        decreases n - i,
    {
        let k = key_of(valid[i]);
        seen.insert(k);
        proof {
            assert forall|k2: u64| #[trigger] seen@.contains(k2) <==>
                exists|q: int| 0 <= q < i + 1 && pair_key(valid@[q]) == k2 by {
                if k2 == k {
                    assert(pair_key(valid@[i as int]) == k2);
                }
            }
        }
        i = i + 1;
    }
    let ghost vals = vertices@.values();
    let ghost s0 = vertices.values().remaining();
    let ghost mut count: int = 0;
    for v in it: vertices.values()
        invariant
            it.seq() == s0,
            count == it.index(),
            s0.unref().to_set() == vals,
            valid@.len() >= start.len(),
            valid@.subrange(0, start.len() as int) == start,
            forall|k: u64| #[trigger] seen@.contains(k) <==>
                exists|q: int| 0 <= q < valid@.len() && pair_key(valid@[q]) == k,
            forall|q: int| start.len() <= q < valid@.len() ==>
                connected_pairs(vals).contains(#[trigger] valid@[q]),
            forall|q: int, j: int| 0 <= q < count && 0 <= j < (*s0[q]).edge_set@.len()
                ==> valid@.contains(canonical((*s0[q]).edge_set@[j])),
            start.no_duplicates() ==> valid@.no_duplicates(),
    {
        let ghost idx = count;
        let ghost before = valid@;
        proof {
            assert(s0.unref()[idx] == *v);
            assert(vals.contains(*v));
        }
        let edges = &v.edge_set;
        let m = edges.len();
        let mut j: usize = 0;
        while j < m
            invariant
                m == edges@.len(),
                j <= m,
                vals.contains(*v),
                edges@ == (*v).edge_set@,
                valid@.len() >= before.len(),
                valid@.subrange(0, before.len() as int) == before,
                before.len() >= start.len(),
                before.subrange(0, start.len() as int) == start,
                forall|k: u64| #[trigger] seen@.contains(k) <==>
                    exists|q: int| 0 <= q < valid@.len() && pair_key(valid@[q]) == k,
                forall|q: int| start.len() <= q < valid@.len() ==>
                    connected_pairs(vals).contains(#[trigger] valid@[q]),
                forall|jj: int| 0 <= jj < j ==> valid@.contains(canonical(#[trigger] edges@[jj])),
                start.no_duplicates() ==> valid@.no_duplicates(),
            decreases m - j,
        {
            let p = canonical_pair(edges[j]);
            let k = key_of(p);
            let ghost pre = valid@;
            let ghost pre_seen = seen@;
            if !seen.contains(&k) {
                valid.push(p);
                seen.insert(k);
                proof {
                    assert(valid@ == pre.push(p));
                    assert forall|q: int| 0 <= q < pre.len() implies pre[q] != p by {
                        lemma_pair_key_injective(pre[q], p);
                        if pre[q] == p {
                            assert(pair_key(pre[q]) == k);
                        }
                    }
                    assert(valid@.subrange(0, before.len() as int) =~= pre.subrange(0, before.len() as int));
                    assert forall|k2: u64| #[trigger] seen@.contains(k2) <==>
                        exists|q: int| 0 <= q < valid@.len() && pair_key(valid@[q]) == k2 by {
                        if k2 == k {
                            assert(pair_key(valid@[pre.len() as int]) == k2);
                        } else {
                            if seen@.contains(k2) {
                                assert(pre_seen.contains(k2));
                                let q = choose|q: int| 0 <= q < pre.len() && pair_key(pre[q]) == k2;
                                assert(valid@[q] == pre[q]);
                            }
                            if exists|q: int| 0 <= q < valid@.len() && pair_key(valid@[q]) == k2 {
                                let q = choose|q: int| 0 <= q < valid@.len() && pair_key(valid@[q]) == k2;
                                assert(q < pre.len());
                                assert(pre[q] == valid@[q]);
                                assert(pre_seen.contains(k2));
                            }
                        }
                    }
                    assert(connected_pairs(vals).contains(p)) by {
                        assert(vals.contains(*v) && 0 <= j < (*v).edge_set@.len()
                            && canonical((*v).edge_set@[j as int]) == p);
                    }
                    assert forall|jj: int| 0 <= jj < j + 1 implies valid@.contains(canonical(#[trigger] edges@[jj])) by {
                        if jj < j {
                            let q = choose|q: int| 0 <= q < pre.len() && pre[q] == canonical(edges@[jj]);
                            assert(valid@[q] == pre[q]);
                        } else {
                            assert(valid@[pre.len() as int] == p);
                        }
                    }
                }
            } else {
                proof {
                    let q = choose|q: int| 0 <= q < valid@.len() && pair_key(valid@[q]) == k;
                    lemma_pair_key_injective(valid@[q], p);
                    assert(valid@[q] == p);
                    assert(valid@.contains(canonical(edges@[j as int])));
                }
            }
            j = j + 1;
        }
        proof {
            assert forall|q: int, jj: int| 0 <= q < idx + 1 && 0 <= jj < (*s0[q]).edge_set@.len()
                implies valid@.contains(canonical((*s0[q]).edge_set@[jj])) by {
                if q < idx {
                    let r = choose|r: int| 0 <= r < before.len() && before[r] == canonical((*s0[q]).edge_set@[jj]);
                    assert(valid@[r] == before[r]);
                } else {
                    assert(*s0[q] == *v);
                    assert(valid@.contains(canonical(edges@[jj])));
                }
            }
            assert(valid@.subrange(0, start.len() as int) =~= before.subrange(0, start.len() as int));
            count = count + 1;
        }
    }
    proof {
        let fin = valid@;
        let conn = connected_pairs(vals);
        assert forall|p: EdgeIdx| fin.to_set().contains(p) <==> start.to_set().union(conn).contains(p) by {
            if fin.to_set().contains(p) {
                let q = choose|q: int| 0 <= q < fin.len() && fin[q] == p;
                if q < start.len() {
                    assert(fin.subrange(0, start.len() as int)[q] == start[q]);
                    assert(start.to_set().contains(p));
                }
            }
            if start.to_set().contains(p) {
                let q = choose|q: int| 0 <= q < start.len() && start[q] == p;
                assert(fin.subrange(0, start.len() as int)[q] == fin[q]);
                assert(fin.contains(p));
            }
            if conn.contains(p) {
                let (w, jj) = choose|w: Vertex, jj: int|
                    #![trigger vals.contains(w), w.edge_set@[jj]]
                    vals.contains(w) && 0 <= jj < w.edge_set@.len() && canonical(w.edge_set@[jj]) == p;
                assert(s0.unref().to_set().contains(w));
                let q = choose|q: int| 0 <= q < s0.unref().len() && s0.unref()[q] == w;
                assert(*s0[q] == w);
                assert(fin.contains(p));
            }
        }
        assert(fin.to_set() =~= start.to_set().union(conn));
    }
}

} // verus!
