//! The integer state of a decimation run and its collapse step: the index
//! list, which vertices are alive, the vertex records, the queue of candidate
//! pairs and the number of collapses still asked for.

use vstd::prelude::*;
use std::collections::HashMap;
use crate::collapse::{
    alive_set, collapse_topology, collapsed_count, kept_triangles, lemma_kept_triangles_from,
    law_collapse_keeps_table_on_alive, merged, pair_update, relabeled, update_pair, is_retired, PairUpdate,
};
use crate::mesh::{initialize, vertex_model, EdgeIdx, Vertex};

verus! {

/// Whether vertex `x` is in range and alive.
pub open spec fn live(alive: Seq<bool>, x: u32) -> bool {
    x < alive.len() && alive[x as int]
}

/// Where a queued pair of the new queue comes from.
#[derive(PartialEq, Eq, Structural, Clone, Copy, Debug)]
pub enum Origin {
    /// It is the pair at this position of the queue before the step, with its cost.
    Kept(usize),
    /// It is a renamed or touched pair, whose cost must be computed again.
    Recost,
}

/// The queue after a collapse: the pairs at positions `0..n` other than
/// `skip`, each updated by [`pair_update`] under the new liveness table, with
/// where each comes from; `None` when one of them looks at a vertex out of range.
pub open spec fn relinked_queue(
    q: Seq<EdgeIdx>,
    n: int,
    skip: int,
    keep: u32,
    remove: u32,
    alive: Seq<bool>,
) -> Option<(Seq<EdgeIdx>, Seq<Origin>)>
    decreases n,
{
    if n <= 0 {
        Some((Seq::empty(), Seq::empty()))
    } else {
        match relinked_queue(q, n - 1, skip, keep, remove, alive) {
            None => None,
            Some((pairs, origins)) => if n - 1 == skip {
                Some((pairs, origins))
            } else {
                match pair_update(q[n - 1].0, q[n - 1].1, keep, remove, alive) {
                    None => None,
                    Some(PairUpdate::Discard) => Some((pairs, origins)),
                    Some(PairUpdate::Keep) => Some((pairs.push(q[n - 1]), origins.push(Origin::Kept((n - 1) as usize)))),
                    Some(PairUpdate::Recost(x, y)) => Some((pairs.push((x, y)), origins.push(Origin::Recost))),
                }
            },
        }
    }
}

/// The pair that an update renames a queued pair to, when it does.
pub open spec fn recost_pair(u: Option<PairUpdate>) -> Option<EdgeIdx> {
    match u {
        Some(PairUpdate::Recost(x, y)) => Some((x, y)),
        _ => None,
    }
}

proof fn lemma_relinked_step(
    q: Seq<EdgeIdx>,
    n: int,
    skip: int,
    keep: u32,
    remove: u32,
    alive: Seq<bool>,
    pairs: Seq<EdgeIdx>,
    origins: Seq<Origin>,
) -> (prev: (Seq<EdgeIdx>, Seq<Origin>))
    requires
        0 < n,
        relinked_queue(q, n, skip, keep, remove, alive) == Some((pairs, origins)),
    ensures
        relinked_queue(q, n - 1, skip, keep, remove, alive) == Some(prev),
        ({
            let u = pair_update(q[n - 1].0, q[n - 1].1, keep, remove, alive);
            ||| (n - 1 == skip || u == Some(PairUpdate::Discard)) && pairs == prev.0 && origins == prev.1
            ||| n - 1 != skip && u == Some(PairUpdate::Keep) && pairs == prev.0.push(q[n - 1])
                && origins == prev.1.push(Origin::Kept((n - 1) as usize))
            ||| n - 1 != skip && recost_pair(u) is Some && pairs == prev.0.push(recost_pair(u)->Some_0)
                && origins == prev.1.push(Origin::Recost)
        }),
{
    relinked_queue(q, n - 1, skip, keep, remove, alive)->Some_0
}

proof fn lemma_relinked_lens(
    q: Seq<EdgeIdx>,
    n: int,
    skip: int,
    keep: u32,
    remove: u32,
    alive: Seq<bool>,
    pairs: Seq<EdgeIdx>,
    origins: Seq<Origin>,
)
    requires
        0 <= n,
        relinked_queue(q, n, skip, keep, remove, alive) == Some((pairs, origins)),
    ensures
        pairs.len() == origins.len(),
    decreases n,
{
    if n > 0 {
        let (pp, po) = lemma_relinked_step(q, n, skip, keep, remove, alive, pairs, origins);
        lemma_relinked_lens(q, n - 1, skip, keep, remove, alive, pp, po);
    }
}

proof fn lemma_kept_pair_stays(
    q: Seq<EdgeIdx>,
    n: int,
    skip: int,
    keep: u32,
    remove: u32,
    alive: Seq<bool>,
    pairs: Seq<EdgeIdx>,
    origins: Seq<Origin>,
    j: int,
)
    requires
        0 <= j < n <= q.len(),
        j != skip,
        relinked_queue(q, n, skip, keep, remove, alive) == Some((pairs, origins)),
        pair_update(q[j].0, q[j].1, keep, remove, alive) == Some(PairUpdate::Keep),
    ensures
        exists|k: int| 0 <= k < pairs.len() && #[trigger] origins[k] == Origin::Kept(j as usize) && pairs[k] == q[j],
    decreases n,
{
    let (pp, po) = lemma_relinked_step(q, n, skip, keep, remove, alive, pairs, origins);
    lemma_relinked_lens(q, n - 1, skip, keep, remove, alive, pp, po);
    if j < n - 1 {
        lemma_kept_pair_stays(q, n - 1, skip, keep, remove, alive, pp, po, j);
        let k = choose|k: int| 0 <= k < pp.len() && #[trigger] po[k] == Origin::Kept(j as usize) && pp[k] == q[j];
        assert(origins[k] == po[k] && pairs[k] == pp[k]);
    } else {
        let k = pp.len() as int;
        assert(origins[k] == Origin::Kept(j as usize) && pairs[k] == q[j]);
    }
}

proof fn lemma_renamed_pair_stays(
    q: Seq<EdgeIdx>,
    n: int,
    skip: int,
    keep: u32,
    remove: u32,
    alive: Seq<bool>,
    pairs: Seq<EdgeIdx>,
    origins: Seq<Origin>,
    j: int,
)
    requires
        0 <= j < n <= q.len(),
        j != skip,
        relinked_queue(q, n, skip, keep, remove, alive) == Some((pairs, origins)),
        recost_pair(pair_update(q[j].0, q[j].1, keep, remove, alive)) is Some,
    ensures
        exists|k: int| 0 <= k < pairs.len() && origins[k] == Origin::Recost
            && #[trigger] pairs[k] == recost_pair(pair_update(q[j].0, q[j].1, keep, remove, alive))->Some_0,
    decreases n,
{
    let (pp, po) = lemma_relinked_step(q, n, skip, keep, remove, alive, pairs, origins);
    lemma_relinked_lens(q, n - 1, skip, keep, remove, alive, pp, po);
    let target = recost_pair(pair_update(q[j].0, q[j].1, keep, remove, alive))->Some_0;
    if j < n - 1 {
        lemma_renamed_pair_stays(q, n - 1, skip, keep, remove, alive, pp, po, j);
        let k = choose|k: int| 0 <= k < pp.len() && po[k] == Origin::Recost && #[trigger] pp[k] == target;
        assert(origins[k] == po[k] && pairs[k] == pp[k]);
    } else {
        let k = pp.len() as int;
        assert(origins[k] == Origin::Recost && pairs[k] == target);
    }
}

proof fn lemma_new_pair_has_source(
    q: Seq<EdgeIdx>,
    n: int,
    skip: int,
    keep: u32,
    remove: u32,
    alive: Seq<bool>,
    pairs: Seq<EdgeIdx>,
    origins: Seq<Origin>,
    k: int,
)
    requires
        0 <= n <= q.len(),
        q.len() <= usize::MAX,
        relinked_queue(q, n, skip, keep, remove, alive) == Some((pairs, origins)),
        0 <= k < pairs.len(),
    ensures
        origins[k] is Kept ==> {
            let j = origins[k]->Kept_0 as int;
            &&& 0 <= j < n && j != skip
            &&& pairs[k] == q[j]
            &&& pair_update(q[j].0, q[j].1, keep, remove, alive) == Some(PairUpdate::Keep)
        },
        origins[k] is Recost ==> exists|j: int| 0 <= j < n && j != skip
            && recost_pair(pair_update((#[trigger] q[j]).0, q[j].1, keep, remove, alive)) == Some(pairs[k]),
    decreases n,
{
    let (pp, po) = lemma_relinked_step(q, n, skip, keep, remove, alive, pairs, origins);
    lemma_relinked_lens(q, n - 1, skip, keep, remove, alive, pp, po);
    if k < pp.len() {
        lemma_new_pair_has_source(q, n - 1, skip, keep, remove, alive, pp, po, k);
        assert(origins[k] == po[k] && pairs[k] == pp[k]);
        if po[k] is Recost {
            let j = choose|j: int| 0 <= j < n - 1 && j != skip
                && recost_pair(pair_update((#[trigger] q[j]).0, q[j].1, keep, remove, alive)) == Some(pp[k]);
            assert(0 <= j < n && j != skip);
        }
    } else {
        let last = n - 1;
        assert(recost_pair(pair_update(q[last].0, q[last].1, keep, remove, alive)) is Some ==>
            origins[k] is Recost && recost_pair(pair_update(q[last].0, q[last].1, keep, remove, alive)) == Some(pairs[k]));
    }
}

/// What the queue update after a collapse keeps, for the positions `0..n`
/// other than `skip`: every pair whose update is `Keep` stays as it is, with
/// its position as origin; every pair whose update renames it to `(x, y)`
/// stays as `(x, y)`, to be costed again; and nothing else is in the new queue.
pub proof fn law_relinked_queue_keeps_survivors(
    q: Seq<EdgeIdx>,
    n: int,
    skip: int,
    keep: u32,
    remove: u32,
    alive: Seq<bool>,
    pairs: Seq<EdgeIdx>,
    origins: Seq<Origin>,
)
    requires
        0 <= n <= q.len(),
        q.len() <= usize::MAX,
        relinked_queue(q, n, skip, keep, remove, alive) == Some((pairs, origins)),
    ensures
        pairs.len() == origins.len(),
        forall|j: int| 0 <= j < n && j != skip
            && pair_update((#[trigger] q[j]).0, q[j].1, keep, remove, alive) == Some(PairUpdate::Keep)
            ==> exists|k: int| 0 <= k < pairs.len() && #[trigger] origins[k] == Origin::Kept(j as usize)
                && pairs[k] == q[j],
        forall|j: int| 0 <= j < n && j != skip
            && recost_pair(pair_update((#[trigger] q[j]).0, q[j].1, keep, remove, alive)) is Some
            ==> exists|k: int| 0 <= k < pairs.len() && origins[k] == Origin::Recost
                && #[trigger] pairs[k] == recost_pair(pair_update(q[j].0, q[j].1, keep, remove, alive))->Some_0,
        forall|k: int| 0 <= k < pairs.len() && (#[trigger] origins[k]) is Kept ==> {
            let j = origins[k]->Kept_0 as int;
            &&& 0 <= j < n && j != skip
            &&& pairs[k] == q[j]
            &&& pair_update(q[j].0, q[j].1, keep, remove, alive) == Some(PairUpdate::Keep)
        },
        forall|k: int| 0 <= k < pairs.len() && (#[trigger] origins[k]) is Recost ==>
            exists|j: int| 0 <= j < n && j != skip
                && recost_pair(pair_update((#[trigger] q[j]).0, q[j].1, keep, remove, alive)) == Some(pairs[k]),
{
    lemma_relinked_lens(q, n, skip, keep, remove, alive, pairs, origins);
    assert forall|j: int| 0 <= j < n && j != skip
        && pair_update((#[trigger] q[j]).0, q[j].1, keep, remove, alive) == Some(PairUpdate::Keep)
        implies exists|k: int| 0 <= k < pairs.len() && #[trigger] origins[k] == Origin::Kept(j as usize)
            && pairs[k] == q[j] by {
        lemma_kept_pair_stays(q, n, skip, keep, remove, alive, pairs, origins, j);
    }
    assert forall|j: int| 0 <= j < n && j != skip
        && recost_pair(pair_update((#[trigger] q[j]).0, q[j].1, keep, remove, alive)) is Some
        implies exists|k: int| 0 <= k < pairs.len() && origins[k] == Origin::Recost
            && #[trigger] pairs[k] == recost_pair(pair_update(q[j].0, q[j].1, keep, remove, alive))->Some_0 by {
        lemma_renamed_pair_stays(q, n, skip, keep, remove, alive, pairs, origins, j);
    }
    assert forall|k: int| 0 <= k < pairs.len() && (#[trigger] origins[k]) is Kept implies {
        let j = origins[k]->Kept_0 as int;
        &&& 0 <= j < n && j != skip
        &&& pairs[k] == q[j]
        &&& pair_update(q[j].0, q[j].1, keep, remove, alive) == Some(PairUpdate::Keep)
    } by {
        lemma_new_pair_has_source(q, n, skip, keep, remove, alive, pairs, origins, k);
    }
    assert forall|k: int| 0 <= k < pairs.len() && (#[trigger] origins[k]) is Recost implies
        exists|j: int| 0 <= j < n && j != skip
            && recost_pair(pair_update((#[trigger] q[j]).0, q[j].1, keep, remove, alive)) == Some(pairs[k]) by {
        lemma_new_pair_has_source(q, n, skip, keep, remove, alive, pairs, origins, k);
    }
}

/// The state of a decimation run, as values.
pub struct DecimationModel {
    pub index_list: Seq<u32>,
    pub alive: Seq<bool>,
    pub vertices: Map<u32, Vertex>,
    pub queue: Seq<EdgeIdx>,
    pub goal: nat,
}

/// The vertices merged away are gone: the vertex table holds exactly the
/// alive vertices, and no index of the index list names a vertex merged away.
pub open spec fn dead_gone(m: DecimationModel) -> bool {
    &&& m.vertices.dom() == alive_set(m.alive)
    &&& forall|j: int| 0 <= j < m.index_list.len() && #[trigger] m.index_list[j] < m.alive.len()
        ==> m.alive[m.index_list[j] as int]
}

/// Every queued pair has both ends alive.
pub open spec fn queue_live(m: DecimationModel) -> bool {
    forall|k: int| 0 <= k < m.queue.len() ==> live(m.alive, (#[trigger] m.queue[k]).0) && live(m.alive, m.queue[k].1)
}

/// No queued pair joins a vertex to itself.
pub open spec fn queue_distinct(m: DecimationModel) -> bool {
    forall|k: int| 0 <= k < m.queue.len() ==> (#[trigger] m.queue[k]).0 != m.queue[k].1
}

/// What holds of the state all through a run: the vertices merged away are
/// gone, and every queued pair joins two different alive vertices.
pub open spec fn run_invariant(m: DecimationModel) -> bool {
    &&& dead_gone(m)
    &&& queue_live(m)
    &&& queue_distinct(m)
}

/// Why a collapse step cannot be carried out.
#[derive(PartialEq, Eq, Structural, Clone, Copy, Debug)]
pub enum StepError {
    /// A vertex looked at in the liveness table is out of its range.
    OutOfRange,
    /// A vertex of the pair has no record in the vertex table.
    MissingVertex,
    /// More triangles were flattened than collapses were still asked for.
    GoalUnderflow,
}

/// What a collapse step did.
pub enum StepOutcome {
    /// Both ends of the chosen pair were merged away already: the pair left the queue.
    Skipped,
    /// The pair `(keep, remove)` was collapsed; for each pair of the new queue,
    /// where it comes from.
    Collapsed(u32, u32, Vec<Origin>),
}

/// The first error a collapse step on the pair at position `i` meets, if any.
pub open spec fn step_error(m: DecimationModel, i: int) -> Option<StepError> {
    let (a, b) = m.queue[i];
    let alive2 = m.alive.update(b as int, false);
    let n = (m.index_list.len() / 3) as nat;
    let r = relabeled(m.index_list, b, a);
    if a >= m.alive.len() || (!m.alive[a as int] && b >= m.alive.len()) {
        Some(StepError::OutOfRange)
    } else if !m.alive[a as int] && !m.alive[b as int] {
        None
    } else if b >= m.alive.len() {
        Some(StepError::OutOfRange)
    } else if !m.vertices.contains_key(a) || !m.vertices.contains_key(b) {
        Some(StepError::MissingVertex)
    } else if collapsed_count(r, n, a) > m.goal {
        Some(StepError::GoalUnderflow)
    } else if relinked_queue(m.queue, m.queue.len() as int, i, a, b, alive2) is None {
        Some(StepError::OutOfRange)
    } else {
        None
    }
}

/// The integer state of a decimation run.
pub struct Decimation {
    index_list: Vec<u32>,
    alive: Vec<bool>,
    vertices: HashMap<u32, Vertex>,
    queue: Vec<EdgeIdx>,
    goal: usize,
}

impl View for Decimation {
    type V = DecimationModel;

    closed spec fn view(&self) -> DecimationModel {
        DecimationModel {
            index_list: self.index_list@,
            alive: self.alive@,
            vertices: self.vertices@,
            queue: self.queue@,
            goal: self.goal as nat,
        }
    }
}

impl Decimation {
    /// Starts a run on a mesh of vertices `0..v_num` with the given index
    /// list: all vertices alive, their records built from the index list, an
    /// empty queue and no collapse asked for. Also returns the number of
    /// whole triangles.
    pub fn new(index_list: Vec<u32>, v_num: usize) -> (r: (Self, u32))
        requires
            v_num <= 0x1_0000_0000,
        ensures
            r.0@.index_list == index_list@,
            r.0@.alive == Seq::new(v_num as nat, |k: int| true),
            forall|k: u32| #[trigger] r.0@.vertices.contains_key(k) <==> k < v_num,
            forall|k: u32| k < v_num ==> #[trigger] r.0@.vertices[k]@ == vertex_model(index_list@, k),
            r.0@.queue.len() == 0,
            r.0@.goal == 0,
            r.1 == (index_list@.len() / 3) as u32,
            run_invariant(r.0@),
    {
        let (vertices, tri_num) = initialize(&index_list, v_num);
        let alive: Vec<bool> = vec![true; v_num];
        let d = Decimation { index_list, alive, vertices, queue: Vec::new(), goal: 0 };
        proof {
            assert(d@.alive =~= Seq::new(v_num as nat, |k: int| true));
            assert(d@.vertices.dom() =~= alive_set(d@.alive));
        }
        (d, tri_num)
    }

    /// The index list.
    pub fn index_list(&self) -> (r: &Vec<u32>)
        ensures
            r@ == self@.index_list,
    {
        &self.index_list
    }

    /// Which vertices are alive.
    pub fn alive(&self) -> (r: &Vec<bool>)
        ensures
            r@ == self@.alive,
    {
        &self.alive
    }

    /// The vertex records.
    pub fn vertices(&self) -> (r: &HashMap<u32, Vertex>)
        ensures
            r@ == self@.vertices,
    {
        &self.vertices
    }

    /// The queued candidate pairs.
    pub fn queue(&self) -> (r: &Vec<EdgeIdx>)
        ensures
            r@ == self@.queue,
    {
        &self.queue
    }

    /// The number of collapses still asked for.
    pub fn goal(&self) -> (r: usize)
        ensures
            r == self@.goal,
    {
        self.goal
    }

    /// Puts the candidate pairs in the queue and sets the number of collapses
    /// asked for. The run's invariant holds afterwards exactly when the
    /// vertices merged away were gone and every pair given joins two
    /// different alive vertices.
    pub fn set_queue(&mut self, queue: Vec<EdgeIdx>, goal: usize)
        ensures
            final(self)@.queue == queue@,
            final(self)@.goal == goal,
            final(self)@.index_list == old(self)@.index_list,
            final(self)@.alive == old(self)@.alive,
            final(self)@.vertices == old(self)@.vertices,
            dead_gone(final(self)@) == dead_gone(old(self)@),
            queue_live(final(self)@) <==> forall|k: int| 0 <= k < queue@.len()
                ==> live(old(self)@.alive, (#[trigger] queue@[k]).0) && live(old(self)@.alive, queue@[k].1),
            queue_distinct(final(self)@) <==> forall|k: int| 0 <= k < queue@.len()
                ==> (#[trigger] queue@[k]).0 != queue@[k].1,
            run_invariant(final(self)@) <==> dead_gone(old(self)@) && forall|k: int| 0 <= k < queue@.len()
                ==> {
                    &&& live(old(self)@.alive, (#[trigger] queue@[k]).0)
                    &&& live(old(self)@.alive, queue@[k].1)
                    &&& queue@[k].0 != queue@[k].1
                },
    {
        self.queue = queue;
        self.goal = goal;
    }

    /// Carries out the collapse of the queued pair at position `i`, `(keep,
    /// remove)`. When both its ends were merged away already, the pair only
    /// leaves the queue. Otherwise `remove` is merged into `keep` (see
    /// [`collapse_topology`]), the flattened triangles are counted off the
    /// goal, and every other queued pair is updated by [`update_pair`]. After a
    /// collapse every queued pair has both ends alive; when the vertices
    /// merged away were gone before and `keep` differs from `remove`, they are
    /// gone after; a queue of pairs with two different ends keeps that
    /// property. So a step that succeeds keeps the run's invariant. What the
    /// new queue holds, pair by pair, is told by
    /// [`law_relinked_queue_keeps_survivors`].
    pub fn collapse_step(&mut self, i: usize) -> (r: Result<StepOutcome, StepError>)
        requires
            i < old(self)@.queue.len(),
        ensures
            ({
                let m = old(self)@;
                let f = final(self)@;
                let (a, b) = m.queue[i as int];
                let alive2 = m.alive.update(b as int, false);
                let n = (m.index_list.len() / 3) as nat;
                let rl = relabeled(m.index_list, b, a);
                match r {
                    Err(e) => step_error(m, i as int) == Some(e),
                    Ok(StepOutcome::Skipped) => {
                        &&& step_error(m, i as int) is None
                        &&& live(m.alive, a) == false && live(m.alive, b) == false
                        &&& a < m.alive.len() && b < m.alive.len()
                        &&& f == DecimationModel { queue: m.queue.remove(i as int), ..m }
                        &&& dead_gone(m) ==> dead_gone(f)
                        &&& queue_live(m) ==> queue_live(f)
                        &&& queue_distinct(m) ==> queue_distinct(f)
                        &&& run_invariant(m) ==> run_invariant(f)
                    },
                    Ok(StepOutcome::Collapsed(keep, remove, origins)) => {
                        &&& step_error(m, i as int) is None
                        &&& keep == a && remove == b
                        &&& live(m.alive, a) || live(m.alive, b)
                        &&& f.alive == alive2
                        &&& f.vertices.dom() == m.vertices.dom().remove(b).insert(a)
                        &&& f.vertices[a]@ == merged(m.vertices[a]@, m.vertices[b]@, a, b)
                        &&& forall|k: u32| k != a && k != b && #[trigger] m.vertices.contains_key(k)
                            ==> f.vertices[k] == m.vertices[k]
                        &&& f.index_list == kept_triangles(rl, n, a)
                        &&& f.goal == m.goal - collapsed_count(rl, n, a)
                        &&& relinked_queue(m.queue, m.queue.len() as int, i as int, a, b, alive2)
                            == Some((f.queue, origins@))
                        &&& origins@.len() == f.queue.len()
                        &&& queue_live(f)
                        &&& dead_gone(m) && a != b ==> dead_gone(f)
                        &&& dead_gone(m) && queue_distinct(m) ==> dead_gone(f)
                        &&& queue_distinct(m) ==> queue_distinct(f)
                        &&& run_invariant(m) ==> run_invariant(f)
                    },
                }
            }),
    {
        let (a, b) = self.queue[i];
        match is_retired(&self.alive, a, b) {
            None => return Err(StepError::OutOfRange),
            Some(true) => {
                let ghost m0 = self@;
                self.queue.remove(i);
                proof {
                    assert(self@ == DecimationModel { queue: m0.queue.remove(i as int), ..m0 });
                    assert forall|k: int| 0 <= k < self@.queue.len() implies
                        (queue_live(m0) ==> live(self@.alive, (#[trigger] self@.queue[k]).0)
                            && live(self@.alive, self@.queue[k].1))
                        && (queue_distinct(m0) ==> self@.queue[k].0 != self@.queue[k].1) by {
                        if k < i {
                            assert(self@.queue[k] == m0.queue[k]);
                        } else {
                            assert(self@.queue[k] == m0.queue[k + 1]);
                        }
                    }
                }
                return Ok(StepOutcome::Skipped);
            },
            Some(false) => {},
        }
        if b as usize >= self.alive.len() {
            return Err(StepError::OutOfRange);
        }
        if !self.vertices.contains_key(&a) || !self.vertices.contains_key(&b) {
            return Err(StepError::MissingVertex);
        }
        let ghost m = self@;
        let dropped = collapse_topology(&mut self.alive, &mut self.vertices, &mut self.index_list, a, b);
        if dropped > self.goal {
            return Err(StepError::GoalUnderflow);
        }
        self.goal = self.goal - dropped;
        let n = self.queue.len();
        let mut pairs: Vec<EdgeIdx> = Vec::new();
        let mut origins: Vec<Origin> = Vec::new();
        let mut j: usize = 0;
        while j < n
            invariant
                n == self.queue@.len(),
                i < n,
                j <= n,
                self.queue@ == m.queue,
                m == old(self)@,
                m.queue[i as int] == (a, b),
                a < m.alive.len(),
                b < m.alive.len(),
                m.alive[a as int] || m.alive[b as int],
                m.vertices.contains_key(a),
                m.vertices.contains_key(b),
                collapsed_count(relabeled(m.index_list, b, a), (m.index_list.len() / 3) as nat, a) <= m.goal,
                self.alive@ == m.alive.update(b as int, false),
                relinked_queue(m.queue, j as int, i as int, a, b, self.alive@) == Some((pairs@, origins@)),
                forall|k: int| 0 <= k < pairs@.len() ==>
                    live(self.alive@, (#[trigger] pairs@[k]).0) && live(self.alive@, pairs@[k].1),
                queue_distinct(m) ==> forall|k: int| 0 <= k < pairs@.len() ==>
                    (#[trigger] pairs@[k]).0 != pairs@[k].1,
            decreases n - j,
        {
            if j != i {
                let (x, y) = self.queue[j];
                proof {
                    if queue_distinct(m) {
                        assert(m.queue[j as int].0 != m.queue[j as int].1);
                    }
                }
                match update_pair(x, y, a, b, &self.alive) {
                    None => {
                        proof {
                            assert(relinked_queue(m.queue, j as int + 1, i as int, a, b, self.alive@) is None);
                            lemma_relinked_none(m.queue, j as int + 1, n as int, i as int, a, b, self.alive@);
                        }
                        return Err(StepError::OutOfRange);
                    },
                    Some(PairUpdate::Discard) => {},
                    Some(PairUpdate::Keep) => {
                        pairs.push((x, y));
                        origins.push(Origin::Kept(j));
                    },
                    Some(PairUpdate::Recost(u, w)) => {
                        pairs.push((u, w));
                        origins.push(Origin::Recost);
                    },
                }
            }
            j = j + 1;
        }
        self.queue = pairs;
        proof {
            law_relinked_queue_keeps_survivors(m.queue, n as int, i as int, a, b, self.alive@, self.queue@, origins@);
            if dead_gone(m) && a != b {
                law_collapse_keeps_table_on_alive(m.vertices.dom(), m.alive, a, b);
                let nn = (m.index_list.len() / 3) as nat;
                let rl = relabeled(m.index_list, b, a);
                assert forall|j: int| 0 <= j < self.index_list@.len() && #[trigger] self.index_list@[j] < self.alive@.len()
                    implies self.alive@[self.index_list@[j] as int] by {
                    lemma_kept_triangles_from(rl, nn, a, j);
                    let q = choose|q: int| 0 <= q < 3 * nn && rl[q] == self.index_list@[j];
                    assert(rl[q] == (if m.index_list[q] == b { a } else { m.index_list[q] }));
                }
            }
        }
        Ok(StepOutcome::Collapsed(a, b, origins))
    }
}

proof fn lemma_relinked_none(
    q: Seq<EdgeIdx>,
    j: int,
    n: int,
    skip: int,
    keep: u32,
    remove: u32,
    alive: Seq<bool>,
)
    requires
        0 <= j <= n,
        relinked_queue(q, j, skip, keep, remove, alive) is None,
    ensures
        relinked_queue(q, n, skip, keep, remove, alive) is None,
    decreases n - j,
{
    if j < n {
        lemma_relinked_none(q, j, n - 1, skip, keep, remove, alive);
    }
}

} // verus!
