use vstd::prelude::*;
use std::collections::VecDeque;
use crate::blocks::Block;
use crate::vector::{Vector2, Vector3};

verus! {

/// What waits to be done to the world: an edit, or a recomputation.
#[derive(Clone, Copy, Debug)]
pub enum ChunkAction {
    BreakBlock(Vector3),
    PlaceBlock(Block),
    /// Light the chunk at this chunk coordinate.
    UpdateChunkLighting(Vector2),
    /// Mesh a slice: chunk x, slice, chunk z.
    UpdateChunkMesh(Vector3),
}

impl ChunkAction {
    /// Recomputations are requests: one pending request for a target is
    /// enough. Edits are not: each of them must be applied.
    pub open spec fn is_update(self) -> bool {
        self is UpdateChunkLighting || self is UpdateChunkMesh
    }
}

/// The queue after a recomputation was requested: the request joins the
/// end unless the same request is pending already.
pub open spec fn with_update(q: Seq<ChunkAction>, a: ChunkAction) -> Seq<ChunkAction> {
    if q.contains(a) {
        q
    } else {
        q.push(a)
    }
}

/// The queue after the same recomputation was requested `k` times.
pub open spec fn with_updates(q: Seq<ChunkAction>, a: ChunkAction, k: nat) -> Seq<ChunkAction>
    decreases k,
{
    if k == 0 {
        q
    } else {
        with_updates(with_update(q, a), a, (k - 1) as nat)
    }
}

/// No recomputation is pending twice.
pub open spec fn updates_unique(q: Seq<ChunkAction>) -> bool {
    forall|i: int, j: int|
        0 <= i < j < q.len() && (#[trigger] q[i]).is_update() ==> q[i] != #[trigger] q[j]
}

/// However often a recomputation is requested before it is taken from the
/// queue, it is pending once: the first request adds it and the others
/// change nothing.
pub proof fn lemma_requests_collapse(q: Seq<ChunkAction>, a: ChunkAction, k: nat)
    requires
        k >= 1,
    ensures
        with_updates(q, a, k) == with_update(q, a),
        !q.contains(a) ==> with_updates(q, a, k) == q.push(a),
        with_updates(q, a, k).contains(a),
    decreases k,
{
    let once = with_update(q, a);
    assert(once.contains(a)) by {
        if !q.contains(a) {
            assert(q.push(a)[q.len() as int] == a);
        }
    }
    assert(with_update(once, a) == once);
    assert(with_updates(q, a, k) == with_updates(once, a, (k - 1) as nat));
    if k > 1 {
        lemma_requests_collapse(once, a, (k - 1) as nat);
    } else {
        assert(with_updates(once, a, 0) == once);
    }
}

/// Once a pending recomputation has been taken from the head of the queue,
/// the same request is accepted again and joins the end.
pub proof fn lemma_request_after_dequeue(q: Seq<ChunkAction>, a: ChunkAction)
    requires
        updates_unique(q),
        q.len() > 0,
        q[0] == a,
        a.is_update(),
    ensures
        !q.skip(1).contains(a),
        with_update(q.skip(1), a) == q.skip(1).push(a),
        updates_unique(q.skip(1)),
{
    let rest = q.skip(1);
    if rest.contains(a) {
        let j = choose|j: int| 0 <= j < rest.len() && rest[j] == a;
        assert(q[j + 1] == a);
        assert(q[0] != q[j + 1]);
    }
    assert forall|i: int, j: int|
        0 <= i < j < rest.len() && (#[trigger] rest[i]).is_update() implies rest[i] != #[trigger] rest[j] by {
        assert(q[i + 1] == rest[i]);
        assert(q[j + 1] == rest[j]);
    }
}

/// The ordered work list of the world: edits in the order they were made,
/// and at most one pending request for each recomputation.
pub struct ChunkActionQueue {
    queue: VecDeque<ChunkAction>,
}

impl View for ChunkActionQueue {
    type V = Seq<ChunkAction>;

    closed spec fn view(&self) -> Seq<ChunkAction> {
        self.queue@
    }
}

fn same_mesh_target(a: &ChunkAction, pos: Vector3) -> (r: bool)
    ensures
        r == (*a == ChunkAction::UpdateChunkMesh(pos)),
{
    match a {
        ChunkAction::UpdateChunkMesh(p) => p.x == pos.x && p.y == pos.y && p.z == pos.z,
        _ => false,
    }
}

fn same_lighting_target(a: &ChunkAction, pos: Vector2) -> (r: bool)
    ensures
        r == (*a == ChunkAction::UpdateChunkLighting(pos)),
{
    match a {
        ChunkAction::UpdateChunkLighting(p) => p.x == pos.x && p.y == pos.y,
        _ => false,
    }
}

impl ChunkActionQueue {
    #[verifier::type_invariant]
    spec fn inv(&self) -> bool {
        updates_unique(self@)
    }

    /// An empty queue.
    pub fn new() -> (r: Self)
        ensures
            r@ == Seq::<ChunkAction>::empty(),
    {
        ChunkActionQueue { queue: VecDeque::new() }
    }

    /// The number of pending actions. In every queue in hand no
    /// recomputation is pending twice.
    pub fn len(&self) -> (r: usize)
        ensures
            r == self@.len(),
            updates_unique(self@),
    {
        proof {
            use_type_invariant(self);
        }
        self.queue.len()
    }

    /// Requests the meshing of a slice: chunk x, slice, chunk z.
    pub fn update_chunk_mesh(&mut self, pos: Vector3)
        ensures
            final(self)@ == with_update(old(self)@, ChunkAction::UpdateChunkMesh(pos)),
    {
        proof {
            use_type_invariant(&*self);
        }
        let action = ChunkAction::UpdateChunkMesh(pos);
        let mut i: usize = 0;
        while i < self.queue.len()
            invariant
                i <= self.queue@.len(),
                self.queue@ == old(self).queue@,
                action == ChunkAction::UpdateChunkMesh(pos),
                forall|j: int| 0 <= j < i ==> self.queue@[j] != action,
            decreases self.queue@.len() - i,
        {
            if same_mesh_target(&self.queue[i], pos) {
                assert(self.queue@[i as int] == action);
                assert(self.queue@.contains(action));
                return ;
            }
            i = i + 1;
        }
        assert(!self.queue@.contains(action));
        let mut queue = VecDeque::new();
        std::mem::swap(&mut self.queue, &mut queue);
        push_action(&mut queue, action);
        self.queue = queue;
    }

    /// Requests the lighting of a chunk.
    pub fn update_chunk_lighting(&mut self, pos: Vector2)
        ensures
            final(self)@ == with_update(old(self)@, ChunkAction::UpdateChunkLighting(pos)),
    {
        proof {
            use_type_invariant(&*self);
        }
        let action = ChunkAction::UpdateChunkLighting(pos);
        let mut i: usize = 0;
        while i < self.queue.len()
            invariant
                i <= self.queue@.len(),
                self.queue@ == old(self).queue@,
                action == ChunkAction::UpdateChunkLighting(pos),
                forall|j: int| 0 <= j < i ==> self.queue@[j] != action,
            decreases self.queue@.len() - i,
        {
            if same_lighting_target(&self.queue[i], pos) {
                assert(self.queue@[i as int] == action);
                assert(self.queue@.contains(action));
                return ;
            }
            i = i + 1;
        }
        assert(!self.queue@.contains(action));
        let mut queue = VecDeque::new();
        std::mem::swap(&mut self.queue, &mut queue);
        push_action(&mut queue, action);
        self.queue = queue;
    }

    /// Queues the placing of a block. Edits are never merged.
    pub fn place_block(&mut self, block: Block)
        ensures
            final(self)@ == old(self)@.push(ChunkAction::PlaceBlock(block)),
    {
        proof {
            use_type_invariant(&*self);
        }
        let mut queue = VecDeque::new();
        std::mem::swap(&mut self.queue, &mut queue);
        push_action(&mut queue, ChunkAction::PlaceBlock(block));
        self.queue = queue;
    }

    /// Queues the breaking of a block. Edits are never merged.
    pub fn break_block(&mut self, position: Vector3)
        ensures
            final(self)@ == old(self)@.push(ChunkAction::BreakBlock(position)),
    {
        proof {
            use_type_invariant(&*self);
        }
        let mut queue = VecDeque::new();
        std::mem::swap(&mut self.queue, &mut queue);
        push_action(&mut queue, ChunkAction::BreakBlock(position));
        self.queue = queue;
    }

    /// Takes the oldest pending action from the queue.
    pub fn get_next_action(&mut self) -> (r: Option<ChunkAction>)
        ensures
            old(self)@.len() == 0 ==> r.is_none() && final(self)@ == old(self)@,
            old(self)@.len() > 0 ==> r == Some(old(self)@[0]) && final(self)@ == old(self)@.skip(1),
    {
        proof {
            use_type_invariant(&*self);
        }
        let mut queue = VecDeque::new();
        std::mem::swap(&mut self.queue, &mut queue);
        let r = pop_action(&mut queue);
        self.queue = queue;
        r
    }
}

fn push_action(queue: &mut VecDeque<ChunkAction>, action: ChunkAction)
    requires
        updates_unique(old(queue)@),
        action.is_update() ==> !old(queue)@.contains(action),
    ensures
        final(queue)@ == old(queue)@.push(action),
        updates_unique(final(queue)@),
{
    queue.push_back(action);
    proof {
        let q = old(queue)@;
        let q2 = queue@;
        assert forall|i: int, j: int|
            0 <= i < j < q2.len() && (#[trigger] q2[i]).is_update() implies q2[i] != #[trigger] q2[j] by {
            if j < q.len() {
                assert(q[i] == q2[i] && q[j] == q2[j]);
            } else {
                assert(q[i] == q2[i]);
                if q2[i] == q2[j] {
                    assert(q.contains(action));
                }
            }
        }
    }
}

fn pop_action(queue: &mut VecDeque<ChunkAction>) -> (r: Option<ChunkAction>)
    requires
        updates_unique(old(queue)@),
    ensures
        old(queue)@.len() == 0 ==> r.is_none() && final(queue)@ == old(queue)@,
        old(queue)@.len() > 0 ==> r == Some(old(queue)@[0]) && final(queue)@ == old(queue)@.skip(1),
        updates_unique(final(queue)@),
{
    let r = queue.pop_front();
    proof {
        let q = old(queue)@;
        let q2 = queue@;
        if q.len() > 0 {
            assert(q2 =~= q.skip(1));
            assert forall|i: int, j: int|
                0 <= i < j < q2.len() && (#[trigger] q2[i]).is_update() implies q2[i] != #[trigger] q2[j] by {
                assert(q[i + 1] == q2[i] && q[j + 1] == q2[j]);
            }
        }
    }
    r
}

} // verus!
