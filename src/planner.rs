//! Bookkeeping of the experimental tree planner: the flat, append-only tree
//! of sampled positions, the segments that one batched collision check
//! casts, and how its per-segment results are read.
//!
//! Sampling and the ray casts themselves happen outside; every function
//! here takes their results as arguments.
use vstd::prelude::*;

verus! {

/// The value a collision check writes for a segment that reached its
/// target without hitting geometry.
pub const CLEAR_FLAG: u32 = 1;

/// Why a planner step was refused.
#[derive(Clone, Copy, Debug, PartialEq, Eq, Structural)]
pub enum PlannerError {
    /// Two arrays of one batched call differ in length.
    LengthMismatch,
    /// A candidate is mapped to a target that does not exist.
    TargetOutOfRange,
    /// A sample is hung from a node that the tree does not hold.
    ParentOutOfRange,
}

/// How a tree node hangs in the tree.
#[derive(Clone, Copy, Debug, PartialEq, Eq, Structural)]
pub enum ParentRef {
    /// The start of the search.
    Root,
    /// A sample that is not connected to the tree yet.
    Unconnected,
    /// Connected to the node at this position of the tree.
    ParentIndex(usize),
    /// The goal, reached from the node at this position of the tree.
    GoalReached(usize),
}

impl ParentRef {
    /// The node this one hangs from, if any.
    pub open spec fn parent(self) -> Option<usize> {
        match self {
            ParentRef::ParentIndex(i) => Some(i),
            ParentRef::GoalReached(i) => Some(i),
            _ => None,
        }
    }
}

/// A node of the tree: a position and how it hangs in the tree.
#[derive(Clone, Copy, Debug)]
pub struct TreeNode {
    pub position: glam::Vec4,
    pub parent: ParentRef,
}

/// The tree, stored flat. Parent references point to earlier nodes only,
/// so following them always ends.
pub struct RrtTree {
    nodes: Vec<TreeNode>,
}

/// The segment that candidate `i` casts: from the candidate to the target
/// it is mapped to.
pub open spec fn segment_of(
    candidates: Seq<glam::Vec4>,
    targets: Seq<glam::Vec4>,
    parent_map: Seq<usize>,
    i: int,
) -> (glam::Vec4, glam::Vec4) {
    (candidates[i], targets[parent_map[i] as int])
}

/// The segments that one batched collision check casts, one per candidate,
/// from the candidate to `targets[parent_map[i]]`. The arrays of candidates
/// and of the map must be as long as each other, and every mapped target
/// must exist.
pub fn collision_segments(
    candidates: &Vec<glam::Vec4>,
    targets: &Vec<glam::Vec4>,
    parent_map: &Vec<usize>,
) -> (r: Result<Vec<(glam::Vec4, glam::Vec4)>, PlannerError>)
    ensures
        candidates@.len() != parent_map@.len() ==> r == Err::<
            Vec<(glam::Vec4, glam::Vec4)>,
            PlannerError,
        >(PlannerError::LengthMismatch),
        candidates@.len() == parent_map@.len() && (exists|i: int|
            0 <= i < parent_map@.len() && #[trigger] parent_map@[i] >= targets@.len()) ==> r == Err::<
            Vec<(glam::Vec4, glam::Vec4)>,
            PlannerError,
        >(PlannerError::TargetOutOfRange),
        r is Ok <==> candidates@.len() == parent_map@.len() && forall|i: int|
            0 <= i < parent_map@.len() ==> #[trigger] parent_map@[i] < targets@.len(),
        r matches Ok(s) ==> s@.len() == candidates@.len() && forall|i: int|
            0 <= i < s@.len() ==> #[trigger] s@[i] == segment_of(
                candidates@,
                targets@,
                parent_map@,
                i,
            ),
{
    if candidates.len() != parent_map.len() {
        return Err(PlannerError::LengthMismatch);
    }
    let mut k: usize = 0;
    while k < parent_map.len()
        invariant
            k <= parent_map@.len(),
            candidates@.len() == parent_map@.len(),
            forall|i: int| 0 <= i < k ==> #[trigger] parent_map@[i] < targets@.len(),
        decreases parent_map@.len() - k,
    {
        if parent_map[k] >= targets.len() {
            return Err(PlannerError::TargetOutOfRange);
        }
        k += 1;
    }
    let mut segments: Vec<(glam::Vec4, glam::Vec4)> = Vec::new();
    let mut i: usize = 0;
    while i < candidates.len()
        invariant
            i <= candidates@.len(),
            candidates@.len() == parent_map@.len(),
            forall|j: int| 0 <= j < parent_map@.len() ==> #[trigger] parent_map@[j] < targets@.len(),
            segments@.len() == i,
            forall|j: int|
                0 <= j < i ==> #[trigger] segments@[j] == segment_of(
                    candidates@,
                    targets@,
                    parent_map@,
                    j,
                ),
        decreases candidates@.len() - i,
    {
        segments.push((candidates[i], targets[parent_map[i]]));
        i += 1;
    }
    Ok(segments)
}

/// Reads the per-segment results of a batched collision check: `true` for
/// a segment that hit geometry. The batch either yields one result per
/// candidate or is refused whole.
pub fn collision_hits(raw: &Vec<u32>, num_candidates: usize) -> (r: Result<Vec<bool>, PlannerError>)
    ensures
        raw@.len() != num_candidates ==> r == Err::<Vec<bool>, PlannerError>(
            PlannerError::LengthMismatch,
        ),
        raw@.len() == num_candidates ==> r is Ok,
        r matches Ok(h) ==> h@.len() == raw@.len() && forall|i: int|
            0 <= i < h@.len() ==> #[trigger] h@[i] == (raw@[i] != CLEAR_FLAG),
{
    if raw.len() != num_candidates {
        return Err(PlannerError::LengthMismatch);
    }
    let mut hits: Vec<bool> = Vec::new();
    let mut i: usize = 0;
    while i < raw.len()
        invariant
            i <= raw@.len(),
            hits@.len() == i,
            forall|j: int| 0 <= j < i ==> #[trigger] hits@[j] == (raw@[j] != CLEAR_FLAG),
        decreases raw@.len() - i,
    {
        hits.push(raw[i] != CLEAR_FLAG);
        i += 1;
    }
    Ok(hits)
}

/// Positions, in order, of the segments that hit nothing.
pub open spec fn clear_indices(hits: Seq<bool>) -> Seq<usize>
    decreases hits.len(),
{
    if hits.len() == 0 {
        Seq::empty()
    } else {
        let rest = clear_indices(hits.drop_last());
        if hits.last() {
            rest
        } else {
            rest.push((hits.len() - 1) as usize)
        }
    }
}

/// The candidates whose segment hit nothing: the new frontier.
pub fn frontier(hits: &Vec<bool>) -> (r: Vec<usize>)
    ensures
        r@ == clear_indices(hits@),
{
    let mut out: Vec<usize> = Vec::new();
    let mut i: usize = 0;
    while i < hits.len()
        invariant
            i <= hits@.len(),
            out@ == clear_indices(hits@.take(i as int)),
        decreases hits@.len() - i,
    {
        proof {
            assert(hits@.take(i + 1).drop_last() =~= hits@.take(i as int));
        }
        if !hits[i] {
            out.push(i);
        }
        i += 1;
    }
    proof {
        assert(hits@.take(hits@.len() as int) =~= hits@);
    }
    out
}

/// The first candidate whose segment hit nothing, if any.
pub fn first_clear(hits: &Vec<bool>) -> (r: Option<usize>)
    ensures
        r matches Some(i) ==> i < hits@.len() && !hits@[i as int] && forall|j: int|
            0 <= j < i ==> #[trigger] hits@[j],
        r is None ==> forall|j: int| 0 <= j < hits@.len() ==> #[trigger] hits@[j],
{
    let mut i: usize = 0;
    while i < hits.len()
        invariant
            i <= hits@.len(),
            forall|j: int| 0 <= j < i ==> #[trigger] hits@[j],
        decreases hits@.len() - i,
    {
        if !hits[i] {
            return Some(i);
        }
        i += 1;
    }
    None
}

/// The nodes that the samples whose segment hit nothing become, in order:
/// sample `i` hung from node `parents[i]`.
pub open spec fn grown(samples: Seq<glam::Vec4>, parents: Seq<usize>, hits: Seq<bool>) -> Seq<TreeNode>
    decreases hits.len(),
{
    if hits.len() == 0 {
        Seq::empty()
    } else {
        let i = hits.len() - 1;
        let rest = grown(samples, parents, hits.drop_last());
        if hits.last() {
            rest
        } else {
            rest.push(TreeNode { position: samples[i], parent: ParentRef::ParentIndex(parents[i]) })
        }
    }
}

proof fn lemma_grown_len(samples: Seq<glam::Vec4>, parents: Seq<usize>, hits: Seq<bool>)
    ensures
        grown(samples, parents, hits).len() == clear_indices(hits).len(),
    decreases hits.len(),
{
    if hits.len() > 0 {
        lemma_grown_len(samples, parents, hits.drop_last());
    }
}

impl RrtTree {
    pub closed spec fn nodes_spec(&self) -> Seq<TreeNode> {
        self.nodes@
    }

    /// Every parent reference points to an earlier node, and only the first
    /// node is the root.
    pub open spec fn wf(&self) -> bool {
        &&& self.nodes_spec().len() >= 1
        &&& self.nodes_spec()[0].parent is Root
        &&& forall|i: int|
            0 <= i < self.nodes_spec().len() ==> match (#[trigger] self.nodes_spec()[i]).parent {
                ParentRef::Root => i == 0,
                ParentRef::Unconnected => true,
                ParentRef::ParentIndex(p) => p < i,
                ParentRef::GoalReached(p) => p < i,
            }
    }

    /// A tree of the start position alone.
    pub fn new(root: glam::Vec4) -> (r: RrtTree)
        ensures
            r.wf(),
            r.nodes_spec() == seq![TreeNode { position: root, parent: ParentRef::Root }],
    {
        let mut nodes: Vec<TreeNode> = Vec::new();
        nodes.push(TreeNode { position: root, parent: ParentRef::Root });
        proof {
            assert(nodes@ =~= seq![TreeNode { position: root, parent: ParentRef::Root }]);
        }
        RrtTree { nodes }
    }

    pub fn len(&self) -> (r: usize)
        ensures
            r == self.nodes_spec().len(),
    {
        self.nodes.len()
    }

    pub fn node(&self, i: usize) -> (r: TreeNode)
        requires
            i < self.nodes_spec().len(),
        ensures
            r == self.nodes_spec()[i as int],
    {
        self.nodes[i]
    }

    /// Appends a node and returns its position. The node hangs from an
    /// existing node, or from none: a second root is refused by `requires`.
    pub fn add_node(&mut self, position: glam::Vec4, parent: ParentRef) -> (r: usize)
        requires
            old(self).wf(),
            !(parent is Root),
            parent.parent() matches Some(p) ==> p < old(self).nodes_spec().len(),
        ensures
            final(self).wf(),
            r == old(self).nodes_spec().len(),
            final(self).nodes_spec() == old(self).nodes_spec().push(TreeNode { position, parent }),
    {
        let r = self.nodes.len();
        self.nodes.push(TreeNode { position, parent });
        proof {
            assert forall|i: int| 0 <= i < self.nodes_spec().len() implies match (
            #[trigger] self.nodes_spec()[i]).parent {
                ParentRef::Root => i == 0,
                ParentRef::Unconnected => true,
                ParentRef::ParentIndex(p) => p < i,
                ParentRef::GoalReached(p) => p < i,
            } by {
                if i < r {
                    assert(self.nodes_spec()[i] == old(self).nodes_spec()[i]);
                }
            }
        }
        r
    }

    /// The chain from node `i` back to the first node without a parent:
    /// `r[0] == i`, and each entry is the parent of the one before.
    pub fn path_to_root(&self, i: usize) -> (r: Vec<usize>)
        requires
            self.wf(),
            i < self.nodes_spec().len(),
        ensures
            r@.len() >= 1,
            r@[0] == i,
            forall|k: int| 0 <= k < r@.len() ==> #[trigger] r@[k] < self.nodes_spec().len(),
            forall|k: int|
                0 <= k < r@.len() - 1 ==> self.nodes_spec()[#[trigger] r@[k] as int].parent.parent()
                    == Some(r@[k + 1]),
            self.nodes_spec()[r@.last() as int].parent.parent() is None,
    {
        let mut path: Vec<usize> = Vec::new();
        path.push(i);
        let mut cur = i;
        loop
            invariant
                self.wf(),
                path@.len() >= 1,
                path@[0] == i,
                cur == path@.last(),
                cur < self.nodes_spec().len(),
                forall|k: int| 0 <= k < path@.len() ==> #[trigger] path@[k] < self.nodes_spec().len(),
                forall|k: int|
                    0 <= k < path@.len() - 1 ==> self.nodes_spec()[#[trigger] path@[k] as int].parent.parent()
                        == Some(path@[k + 1]),
            decreases cur,
        {
            let next = match self.nodes[cur].parent {
                ParentRef::ParentIndex(p) => p,
                ParentRef::GoalReached(p) => p,
                _ => {
                    return path;
                },
            };
            proof {
                assert(self.nodes_spec()[cur as int].parent.parent() == Some(next));
            }
            let ghost before = path@;
            path.push(next);
            proof {
                assert forall|k: int| 0 <= k < path@.len() - 1 implies self.nodes_spec()[#[trigger] path@[k] as int].parent.parent()
                    == Some(path@[k + 1]) by {
                    if k < before.len() - 1 {
                        assert(path@[k] == before[k] && path@[k + 1] == before[k + 1]);
                    } else {
                        assert(path@[k] == cur && path@[k + 1] == next);
                    }
                }
            }
            cur = next;
        }
    }

    /// Whether every entry of `from` names a node of the tree.
    pub open spec fn holds_all(&self, from: Seq<usize>) -> bool {
        forall|k: int| 0 <= k < from.len() ==> #[trigger] from[k] < self.nodes_spec().len()
    }

    fn check_nodes(&self, from: &Vec<usize>) -> (r: bool)
        ensures
            r == self.holds_all(from@),
    {
        let n = self.nodes.len();
        let mut k: usize = 0;
        while k < from.len()
            invariant
                n == self.nodes_spec().len(),
                k <= from@.len(),
                forall|j: int| 0 <= j < k ==> #[trigger] from@[j] < n,
            decreases from@.len() - k,
        {
            if from[k] >= n {
                return false;
            }
            k += 1;
        }
        true
    }

    /// Hangs each sample whose segment from its parent hit nothing into the
    /// tree, sample `i` under node `parents[i]`, and returns the new nodes'
    /// positions. The three arrays must be as long as each other, and every
    /// parent must be in the tree; else the tree is left as it was.
    pub fn extend_clear(&mut self, samples: &Vec<glam::Vec4>, parents: &Vec<usize>, hits: &Vec<bool>) -> (r:
        Result<Vec<usize>, PlannerError>)
        requires
            old(self).wf(),
        ensures
            final(self).wf(),
            samples@.len() != hits@.len() || parents@.len() != hits@.len() ==> r == Err::<
                Vec<usize>,
                PlannerError,
            >(PlannerError::LengthMismatch),
            samples@.len() == hits@.len() && parents@.len() == hits@.len() && !old(self).holds_all(
                parents@,
            ) ==> r == Err::<Vec<usize>, PlannerError>(PlannerError::ParentOutOfRange),
            r is Err ==> final(self).nodes_spec() == old(self).nodes_spec(),
            samples@.len() == hits@.len() && parents@.len() == hits@.len() && old(self).holds_all(
                parents@,
            ) ==> r is Ok,
            r matches Ok(added) ==> final(self).nodes_spec() == old(self).nodes_spec() + grown(
                samples@,
                parents@,
                hits@,
            ) && added@.len() == clear_indices(hits@).len() && forall|k: int|
                0 <= k < added@.len() ==> #[trigger] added@[k] == old(self).nodes_spec().len() + k,
    {
        if samples.len() != hits.len() || parents.len() != hits.len() {
            return Err(PlannerError::LengthMismatch);
        }
        if !self.check_nodes(parents) {
            return Err(PlannerError::ParentOutOfRange);
        }
        let ghost start = self.nodes@;
        let mut added: Vec<usize> = Vec::new();
        let mut i: usize = 0;
        while i < hits.len()
            invariant
                self.wf(),
                i <= hits@.len(),
                samples@.len() == hits@.len(),
                parents@.len() == hits@.len(),
                forall|k: int| 0 <= k < parents@.len() ==> #[trigger] parents@[k] < start.len(),
                self.nodes_spec() == start + grown(samples@, parents@, hits@.take(i as int)),
                added@.len() == clear_indices(hits@.take(i as int)).len(),
                forall|k: int| 0 <= k < added@.len() ==> #[trigger] added@[k] == start.len() + k,
            decreases hits@.len() - i,
        {
            proof {
                assert(hits@.take(i + 1).drop_last() =~= hits@.take(i as int));
                lemma_grown_len(samples@, parents@, hits@.take(i as int));
            }
            if !hits[i] {
                let at = self.add_node(samples[i], ParentRef::ParentIndex(parents[i]));
                added.push(at);
                proof {
                    assert(self.nodes_spec() =~= start + grown(samples@, parents@, hits@.take(i + 1)));
                }
            }
            i += 1;
        }
        proof {
            assert(hits@.take(hits@.len() as int) =~= hits@);
        }
        Ok(added)
    }

    /// Tries to reach `goal` from the nodes `from`: where the first segment
    /// `from[j]`-to-goal that hit nothing exists, the goal joins the tree
    /// under node `from[j]` and the path from it back to the root is
    /// returned; where every segment hit, the tree is left as it was.
    pub fn connect_goal(&mut self, goal: glam::Vec4, from: &Vec<usize>, goal_hits: &Vec<bool>) -> (r:
        Result<Option<Vec<usize>>, PlannerError>)
        requires
            old(self).wf(),
        ensures
            final(self).wf(),
            from@.len() != goal_hits@.len() ==> r == Err::<Option<Vec<usize>>, PlannerError>(
                PlannerError::LengthMismatch,
            ),
            from@.len() == goal_hits@.len() && !old(self).holds_all(from@) ==> r == Err::<
                Option<Vec<usize>>,
                PlannerError,
            >(PlannerError::ParentOutOfRange),
            from@.len() == goal_hits@.len() && old(self).holds_all(from@) ==> r is Ok,
            r is Err || r == Ok::<Option<Vec<usize>>, PlannerError>(None) ==> final(self).nodes_spec()
                == old(self).nodes_spec(),
            r == Ok::<Option<Vec<usize>>, PlannerError>(None) ==> forall|j: int|
                0 <= j < goal_hits@.len() ==> #[trigger] goal_hits@[j],
            r matches Ok(Some(path)) ==> exists|j: int|
                0 <= j < goal_hits@.len() && !goal_hits@[j] && (forall|jj: int|
                    0 <= jj < j ==> #[trigger] goal_hits@[jj]) && final(self).nodes_spec()
                    == old(self).nodes_spec().push(
                    TreeNode { position: goal, parent: ParentRef::GoalReached(from@[j]) },
                ) && path@.len() >= 2 && path@[0] == old(self).nodes_spec().len() && path@[1]
                    == from@[j],
            r matches Ok(Some(path)) ==> {
                &&& forall|k: int| 0 <= k < path@.len() ==> #[trigger] path@[k] < final(self).nodes_spec().len()
                &&& forall|k: int|
                    0 <= k < path@.len() - 1 ==> final(self).nodes_spec()[#[trigger] path@[k] as int].parent.parent()
                        == Some(path@[k + 1])
                &&& final(self).nodes_spec()[path@.last() as int].parent.parent() is None
            },
    {
        if from.len() != goal_hits.len() {
            return Err(PlannerError::LengthMismatch);
        }
        if !self.check_nodes(from) {
            return Err(PlannerError::ParentOutOfRange);
        }
        match first_clear(goal_hits) {
            None => Ok(None),
            Some(j) => {
                let g = self.add_node(goal, ParentRef::GoalReached(from[j]));
                let path = self.path_to_root(g);
                proof {
                    assert(self.nodes_spec()[g as int].parent.parent() == Some(from@[j as int]));
                    if path@.len() == 1 {
                        assert(self.nodes_spec()[path@.last() as int].parent.parent() is None);
                    }
                }
                Ok(Some(path))
            },
        }
    }

}

} // verus!
