//! The cooperative scheduler: tasks, the spawner, and the executor.
//!
//! A task wraps one pending script invocation.  The spawner enqueues
//! tasks onto a bounded work queue; the executor drains that queue,
//! asking its host to poll each task.  A task that cannot yet complete is
//! re-admitted by pushing it back onto the same queue — a single-threaded
//! trampoline, not parallelism.  Once the queue is empty, the structural
//! changes the completed tasks produced are reconciled against the tree:
//! they are ordered parent-before-descendant (by preorder rank, ties by
//! arrival) and applied one by one.

use vstd::multiset::Multiset;
use vstd::prelude::*;

use crate::registration::id::ID;
use crate::registration::relation::{
    forest_collect_ids, forest_get, forest_remove_subtree, forest_replace_keep_children,
    forest_replace_subtree, ids_distinct, lemma_segment_replaced_props, segment_replaced,
    tree_collect_ids, tree_contains,
};
use crate::scene::game_object::{
    forest_find, lemma_forest_ancestor_before, subtree_ids, GameObjectNode, NodeKind,
};
use crate::scene::Scene;
use crate::scripting::swap::Swap;
use crate::scripting::{Invocation, MAX_QUEUED_TASKS};

verus! {

/// One pending script invocation.
pub struct Task {
    pub invocation: Invocation,
}

/// The sending side of the work queue.
pub struct Spawner {
    pub tasks: Vec<Task>,
}

impl Spawner {
    /// Enqueue a task.  Exceeding the queue bound is a fatal overload and
    /// is excluded by precondition.
    pub fn spawn(&mut self, invocation: Invocation)
        requires
            old(self).tasks@.len() < MAX_QUEUED_TASKS,
        ensures
            final(self).tasks@ == old(self).tasks@.push(Task { invocation }),
    {
        self.tasks.push(Task { invocation });
    }
}

/// The draining side of the work queue.
pub struct Executor {
    pub ready: Vec<Task>,
}

/// A fresh executor and spawner sharing an empty work queue.
pub fn new_executor_and_spawner() -> (r: (Executor, Spawner))
    ensures
        r.0.ready@ == Seq::<Task>::empty(),
        r.1.tasks@ == Seq::<Task>::empty(),
{
    (Executor { ready: Vec::new() }, Spawner { tasks: Vec::new() })
}

/// What one poll of a task produced: not done yet, or done with a
/// (possibly empty) structural change request.
pub enum TaskPoll<G> {
    /// The task cannot complete yet and asks to be polled again.
    Pending,
    /// The task completed with this request.
    Ready(Swap<G>),
}

/// The party that actually runs script routines.  The executor owns the
/// queue and the barrier; the host owns the code behind each invocation.
/// An implementation may read and write the scene during a poll, but it
/// must keep the tree consistent — that is the one contract scripts live
/// under.
pub trait ScriptHost<G> {
    /// Poll one task: run the script routine it names until it suspends
    /// or completes.
    fn poll_task(&mut self, scene: &mut Scene<G>, task: &Task) -> (p: TaskPoll<G>)
        requires
            old(scene).wf(),
        ensures
            final(scene).wf(),
    ;
}

/// Why a structural change request was rejected.
#[derive(Clone, Copy, Debug, PartialEq, Eq, Structural)]
pub enum SwapError {
    /// A request without a target identifier reached reconciliation.
    MissingTarget,
    /// The target identifier is not in the tree.
    TargetNotFound,
    /// Deleting the main camera is forbidden: it may only be replaced.
    DeleteMainCamera,
    /// The node offered as the new main camera is not a camera.
    ReplacementNotCamera,
    /// The request would have left the main-camera reference dangling
    /// inside a dropped subtree.
    MainCameraInDroppedSubtree,
    /// The replacement brings an identifier that is already in the tree,
    /// or carries duplicates itself.
    DuplicateIdentifier,
}

/// Why a whole pass failed.
#[derive(Clone, Copy, Debug, PartialEq, Eq, Structural)]
pub enum RunError {
    /// The poll budget ran out with tasks still pending: some script
    /// never completed, which stalls the pass.
    Stalled,
    /// Reconciliation rejected a request.
    Reconcile(SwapError),
}

/// The decision reconciliation makes for one request against one scene
/// state: accepted, or rejected for the first reason found.
pub open spec fn apply_swap_decision<G>(scene: Scene<G>, swap: Swap<G>) -> Result<
    (),
    SwapError,
> {
    match swap {
        Swap::NoSwap => Err(SwapError::MissingTarget),
        Swap::Delete(id) => if scene.main_camera == Some(id) {
            Err(SwapError::DeleteMainCamera)
        } else if !scene.ids().contains(id) {
            Err(SwapError::TargetNotFound)
        } else if scene.main_camera matches Some(c) && subtree_ids(
            forest_find(scene.children@, id)->Some_0,
        ).contains(c) {
            Err(SwapError::MainCameraInDroppedSubtree)
        } else {
            Ok(())
        },
        Swap::SwapParent(id, new) => if !subtree_ids(new).no_duplicates() {
            Err(SwapError::DuplicateIdentifier)
        } else if !scene.ids().contains(id) {
            Err(SwapError::TargetNotFound)
        } else if exists|x: ID| #[trigger] subtree_ids(new).contains(x) && scene.ids().contains(
            x,
        ) {
            Err(SwapError::DuplicateIdentifier)
        } else if scene.main_camera == Some(id) && new.kind != NodeKind::FpvCamera {
            Err(SwapError::ReplacementNotCamera)
        } else {
            Ok(())
        },
        Swap::SwapFull(id, new) => if !subtree_ids(new).no_duplicates() {
            Err(SwapError::DuplicateIdentifier)
        } else if !scene.ids().contains(id) {
            Err(SwapError::TargetNotFound)
        } else if exists|x: ID| #[trigger] subtree_ids(new).contains(x) && scene.ids().contains(
            x,
        ) {
            Err(SwapError::DuplicateIdentifier)
        } else if scene.main_camera == Some(id) && new.kind != NodeKind::FpvCamera {
            Err(SwapError::ReplacementNotCamera)
        } else if scene.main_camera matches Some(c) && c != id && subtree_ids(
            forest_find(scene.children@, id)->Some_0,
        ).contains(c) {
            Err(SwapError::MainCameraInDroppedSubtree)
        } else {
            Ok(())
        },
    }
}

/// A structural change request paired with the preorder rank of its
/// target and its arrival position, ready for ordering.
pub struct RankedSwap<G> {
    pub rank: usize,
    pub index: usize,
    pub swap: Swap<G>,
}

/// The application order: lower rank first — a node before anything
/// deeper in preorder — and, between requests for the same rank, arrival
/// order.
pub open spec fn ranked_le<G>(a: RankedSwap<G>, b: RankedSwap<G>) -> bool {
    a.rank < b.rank || (a.rank == b.rank && a.index <= b.index)
}

/// Sorted under [`ranked_le`].
pub open spec fn sorted_by_rank<G>(s: Seq<RankedSwap<G>>) -> bool {
    forall|i: int, j: int| 0 <= i < j < s.len() ==> ranked_le(#[trigger] s[i], #[trigger] s[j])
}

/// Order the pending requests by the rank of their target, stably:
/// requests with the same rank keep their arrival order, because the
/// arrival index breaks the tie.
#[verifier::rlimit(100)]
#[verifier::loop_isolation(false)]
pub fn sort_swaps<G>(swaps: Vec<RankedSwap<G>>) -> (r: Vec<RankedSwap<G>>)
    ensures
        sorted_by_rank(r@),
        r@.to_multiset() == swaps@.to_multiset(),
{
    broadcast use vstd::seq_lib::group_to_multiset_ensures;

    let mut rest = swaps;
    let mut sorted: Vec<RankedSwap<G>> = Vec::new();
    proof {
        assert(sorted@.to_multiset().add(rest@.to_multiset()) =~= swaps@.to_multiset());
    }
    while rest.len() > 0
        invariant
            sorted_by_rank(sorted@),
            sorted@.to_multiset().add(rest@.to_multiset()) == swaps@.to_multiset(),
            forall|i: int, j: int|
                0 <= i < sorted@.len() && 0 <= j < rest@.len() ==> ranked_le(
                    #[trigger] sorted@[i],
                    #[trigger] rest@[j],
                ),
        decreases rest@.len(),
    {
        let n = rest.len();
        let mut m: usize = 0;
        let mut j: usize = 1;
        while j < n
            invariant
                n == rest@.len(),
                0 <= m < j <= n,
                forall|k: int| 0 <= k < j ==> ranked_le(rest@[m as int], #[trigger] rest@[k]),
            decreases n - j,
        {
            let strictly_less = rest[j].rank < rest[m].rank || (rest[j].rank == rest[m].rank
                && rest[j].index < rest[m].index);
            if strictly_less {
                m = j;
            }
            j = j + 1;
        }
        let ghost rest_before = rest@;
        let ghost sorted_before = sorted@;
        let item = rest.remove(m);
        sorted.push(item);
        proof {
            assert(rest_before.contains(item)) by {
                assert(rest_before[m as int] == item);
            }
            assert(rest_before.to_multiset().count(item) > 0);
            assert(sorted@.to_multiset() =~= sorted_before.to_multiset().insert(item));
            assert(rest@.to_multiset() =~= rest_before.to_multiset().remove(item));
            assert(sorted@.to_multiset().add(rest@.to_multiset()) =~= swaps@.to_multiset());
            assert forall|i: int, j2: int|
                0 <= i < sorted@.len() && 0 <= j2 < rest@.len() implies ranked_le(
                #[trigger] sorted@[i],
                #[trigger] rest@[j2],
            ) by {
                if j2 < m {
                    assert(rest@[j2] == rest_before[j2]);
                } else {
                    assert(rest@[j2] == rest_before[j2 + 1]);
                }
                if i < sorted@.len() - 1 {
                    assert(sorted@[i] == sorted_before[i]);
                } else {
                    assert(sorted@[i] == item);
                }
            }
        }
    }
    proof {
        assert(rest@.to_multiset() =~= Multiset::<RankedSwap<G>>::empty());
        assert(sorted@.to_multiset() =~= swaps@.to_multiset());
        assert(sorted@.to_multiset().add(Multiset::<RankedSwap<G>>::empty()) =~= sorted@.to_multiset());
    }
    sorted
}

/// What an accepted request does to the tree: the identifier-level
/// meaning of each mutation, stated between the scene before and the
/// scene after.
pub open spec fn apply_swap_effect<G>(
    before: Scene<G>,
    after: Scene<G>,
    swap: Swap<G>,
) -> bool {
    match swap {
        Swap::NoSwap => false,
        Swap::Delete(id) => {
            &&& forest_find(before.children@, id) matches Some(found) && segment_replaced(
                before.ids(),
                after.ids(),
                subtree_ids(found),
                Seq::<ID>::empty(),
            ) && (forall|x: ID|
                #[trigger] after.ids().contains(x) <==> (before.ids().contains(x)
                    && !subtree_ids(found).contains(x)))
            &&& !after.ids().contains(id)
            &&& after.main_camera == before.main_camera
        },
        Swap::SwapParent(id, new) => {
            &&& segment_replaced(before.ids(), after.ids(), seq![id], subtree_ids(new))
            &&& forall|x: ID|
                #[trigger] after.ids().contains(x) <==> ((before.ids().contains(x) && x != id)
                    || subtree_ids(new).contains(x))
            &&& after.main_camera == if before.main_camera == Some(id) {
                Some(new.id)
            } else {
                before.main_camera
            }
        },
        Swap::SwapFull(id, new) => {
            &&& forest_find(before.children@, id) matches Some(found) && segment_replaced(
                before.ids(),
                after.ids(),
                subtree_ids(found),
                subtree_ids(new),
            ) && (forall|x: ID|
                #[trigger] after.ids().contains(x) <==> ((before.ids().contains(x)
                    && !subtree_ids(found).contains(x)) || subtree_ids(new).contains(x)))
            &&& after.main_camera == if before.main_camera == Some(id) {
                Some(new.id)
            } else {
                before.main_camera
            }
        },
    }
}

/// Apply one structural change request to the tree, atomically: either
/// every check passes and the change is made, or the scene is untouched.
///
/// Deleting the main camera fails closed in all cases.  Replacing the
/// main camera leaves the slot pointing at the replacement, which must
/// itself be a camera.
#[verifier::rlimit(100)]
#[verifier::loop_isolation(false)]
pub fn apply_swap<G>(scene: &mut Scene<G>, swap: Swap<G>) -> (r: Result<(), SwapError>)
    requires
        old(scene).wf(),
    ensures
        final(scene).wf(),
        final(scene).worldspace == old(scene).worldspace,
        r == apply_swap_decision(*old(scene), swap),
        r is Err ==> final(scene).children@ == old(scene).children@ && final(scene).main_camera
            == old(scene).main_camera,
        r is Ok ==> apply_swap_effect(*old(scene), *final(scene), swap),
{
    match swap {
        Swap::NoSwap => Err(SwapError::MissingTarget),
        Swap::Delete(id) => {
            let is_cam = match &scene.main_camera {
                Some(c) => *c == id,
                None => false,
            };
            if is_cam {
                return Err(SwapError::DeleteMainCamera);
            }
            let ghost found_ghost: GameObjectNode<G>;
            match forest_get(&scene.children, &id) {
                None => {
                    return Err(SwapError::TargetNotFound);
                },
                Some(node) => {
                    proof {
                        found_ghost = *node;
                    }
                    match &scene.main_camera {
                        Some(c) => {
                            if tree_contains(node, c) {
                                return Err(SwapError::MainCameraInDroppedSubtree);
                            }
                        },
                        None => {},
                    }
                },
            }
            let removed = forest_remove_subtree(&mut scene.children, &id);
            match removed {
                Ok(removed_node) => {
                    proof {
                        assert(removed_node == found_ghost);
                        lemma_segment_replaced_props(
                            old(scene).ids(),
                            scene.ids(),
                            subtree_ids(removed_node),
                            Seq::<ID>::empty(),
                        );
                        assert(subtree_ids(removed_node)[0] == id);
                    }
                    Ok(())
                },
                Err(_) => {
                    proof {
                        assert(false);
                    }
                    Err(SwapError::TargetNotFound)
                },
            }
        },
        Swap::SwapParent(id, new) => {
            let mut new_ids: Vec<ID> = Vec::new();
            tree_collect_ids(&new, &mut new_ids);
            if !ids_distinct(&new_ids) {
                return Err(SwapError::DuplicateIdentifier);
            }
            if forest_get(&scene.children, &id).is_none() {
                return Err(SwapError::TargetNotFound);
            }
            let m = new_ids.len();
            let mut k: usize = 0;
            while k < m
                invariant
                    m == new_ids@.len(),
                    0 <= k <= m,
                    new_ids@ == subtree_ids(new),
                    forall|k1: int| 0 <= k1 < k ==> !scene.ids().contains(#[trigger] new_ids@[k1]),
                    scene.children@ == old(scene).children@,
                    scene.main_camera == old(scene).main_camera,
                    scene.worldspace == old(scene).worldspace,
                decreases m - k,
            {
                if forest_get(&scene.children, &new_ids[k]).is_some() {
                    proof {
                        assert(subtree_ids(new).contains(new_ids@[k as int]));
                    }
                    return Err(SwapError::DuplicateIdentifier);
                }
                k = k + 1;
            }
            proof {
                assert forall|x: ID|
                    !(#[trigger] subtree_ids(new).contains(x) && scene.ids().contains(x)) by {
                    if subtree_ids(new).contains(x) {
                        let k1 = choose|k1: int|
                            0 <= k1 < subtree_ids(new).len() && subtree_ids(new)[k1] == x;
                        assert(new_ids@[k1] == x);
                    }
                }
            }
            let is_cam = match &scene.main_camera {
                Some(c) => *c == id,
                None => false,
            };
            if is_cam && !new.is_camera() {
                return Err(SwapError::ReplacementNotCamera);
            }
            let new_id = new.id;
            let ghost new_sub = subtree_ids(new);
            let rr = forest_replace_keep_children(&mut scene.children, &id, new);
            match rr {
                Ok(()) => {
                    proof {
                        assert(seq![id].no_duplicates());
                        lemma_segment_replaced_props(
                            old(scene).ids(),
                            scene.ids(),
                            seq![id],
                            new_sub,
                        );
                        assert(new_sub[0] == new_id);
                        assert(seq![id][0] == id);
                        assert forall|x: ID| #[trigger] seq![id].contains(x) <==> x == id by {
                            if seq![id].contains(x) {
                                let k1 = choose|k1: int|
                                    0 <= k1 < 1 && #[trigger] seq![id][k1] == x;
                            }
                        }
                    }
                    if is_cam {
                        scene.main_camera = Some(new_id);
                    }
                    Ok(())
                },
                Err(_) => {
                    proof {
                        assert(false);
                    }
                    Err(SwapError::TargetNotFound)
                },
            }
        },
        Swap::SwapFull(id, new) => {
            let mut new_ids: Vec<ID> = Vec::new();
            tree_collect_ids(&new, &mut new_ids);
            if !ids_distinct(&new_ids) {
                return Err(SwapError::DuplicateIdentifier);
            }
            let ghost found_ghost: GameObjectNode<G>;
            match forest_get(&scene.children, &id) {
                None => {
                    return Err(SwapError::TargetNotFound);
                },
                Some(node) => {
                    proof {
                        found_ghost = *node;
                    }
                },
            }
            let m = new_ids.len();
            let mut k: usize = 0;
            while k < m
                invariant
                    m == new_ids@.len(),
                    0 <= k <= m,
                    new_ids@ == subtree_ids(new),
                    forall|k1: int| 0 <= k1 < k ==> !scene.ids().contains(#[trigger] new_ids@[k1]),
                    scene.children@ == old(scene).children@,
                    scene.main_camera == old(scene).main_camera,
                    scene.worldspace == old(scene).worldspace,
                decreases m - k,
            {
                if forest_get(&scene.children, &new_ids[k]).is_some() {
                    proof {
                        assert(subtree_ids(new).contains(new_ids@[k as int]));
                    }
                    return Err(SwapError::DuplicateIdentifier);
                }
                k = k + 1;
            }
            proof {
                assert forall|x: ID|
                    !(#[trigger] subtree_ids(new).contains(x) && scene.ids().contains(x)) by {
                    if subtree_ids(new).contains(x) {
                        let k1 = choose|k1: int|
                            0 <= k1 < subtree_ids(new).len() && subtree_ids(new)[k1] == x;
                        assert(new_ids@[k1] == x);
                    }
                }
            }
            let is_cam = match &scene.main_camera {
                Some(c) => *c == id,
                None => false,
            };
            if is_cam && !new.is_camera() {
                return Err(SwapError::ReplacementNotCamera);
            }
            match (&scene.main_camera, forest_get(&scene.children, &id)) {
                (Some(c), Some(node)) => {
                    if !(*c == id) && tree_contains(node, c) {
                        return Err(SwapError::MainCameraInDroppedSubtree);
                    }
                },
                _ => {},
            }
            let new_id = new.id;
            let ghost new_sub = subtree_ids(new);
            let rr = forest_replace_subtree(&mut scene.children, &id, new);
            match rr {
                Ok(replaced) => {
                    proof {
                        assert(replaced == found_ghost);
                        lemma_segment_replaced_props(
                            old(scene).ids(),
                            scene.ids(),
                            subtree_ids(replaced),
                            new_sub,
                        );
                        assert(new_sub[0] == new_id);
                        assert(subtree_ids(replaced)[0] == id);
                    }
                    if is_cam {
                        scene.main_camera = Some(new_id);
                    }
                    Ok(())
                },
                Err(_) => {
                    proof {
                        assert(false);
                    }
                    Err(SwapError::TargetNotFound)
                },
            }
        },
    }
}

/// Screening of one pass's requests, in arrival order: the first
/// request without a target, or whose target is not in the tree at the
/// start of the pass, decides; a pass whose requests all carry known
/// targets screens clean.
pub open spec fn screen_swaps<G>(all: Seq<Swap<G>>, ids: Seq<ID>) -> Result<(), SwapError>
    decreases all.len(),
{
    if all.len() == 0 {
        Ok(())
    } else {
        match all[0].spec_target() {
            None => Err(SwapError::MissingTarget),
            Some(t) => if !ids.contains(t) {
                Err(SwapError::TargetNotFound)
            } else {
                screen_swaps(all.drop_first(), ids)
            },
        }
    }
}

/// The ranking reconciliation assigns: each request paired with the
/// preorder position of its target and with its arrival position.
/// Meaningful once screening passed and the identifiers are distinct.
pub open spec fn ranking_of<G>(all: Seq<Swap<G>>, ids: Seq<ID>) -> Seq<RankedSwap<G>> {
    Seq::new(
        all.len(),
        |m: int|
            RankedSwap {
                rank: ids.index_of(all[m].spec_target()->Some_0) as usize,
                index: m as usize,
                swap: all[m],
            },
    )
}

/// The chain of applications a pass performs on its ordered requests:
/// each accepted request takes its [`apply_swap_effect`] on an
/// intermediate scene, and the first rejected request stops the pass
/// with the scene as it then stood — every earlier change kept, nothing
/// applied twice.
pub open spec fn reconcile_chain<G>(
    before: Scene<G>,
    after: Scene<G>,
    ordered: Seq<RankedSwap<G>>,
    r: Result<(), SwapError>,
) -> bool
    decreases ordered.len(),
{
    if ordered.len() == 0 {
        r is Ok && after.children@ == before.children@ && after.main_camera
            == before.main_camera
    } else {
        match apply_swap_decision(before, ordered[0].swap) {
            Err(e) => r == Err::<(), SwapError>(e) && after.children@ == before.children@
                && after.main_camera == before.main_camera,
            Ok(u) => exists|mid: Scene<G>|
                {
                    &&& #[trigger] apply_swap_effect(before, mid, ordered[0].swap)
                    &&& mid.wf()
                    &&& mid.worldspace == before.worldspace
                    &&& reconcile_chain(mid, after, ordered.drop_first(), r)
                },
        }
    }
}

/// Apply the ordered requests one by one: the first rejection stops the
/// pass, keeping the changes already made.
pub fn apply_all<G>(scene: &mut Scene<G>, sorted: Vec<RankedSwap<G>>) -> (r: Result<
    (),
    SwapError,
>)
    requires
        old(scene).wf(),
    ensures
        final(scene).wf(),
        final(scene).worldspace == old(scene).worldspace,
        reconcile_chain(*old(scene), *final(scene), sorted@, r),
    decreases sorted@.len(),
{
    let mut rest = sorted;
    if rest.len() == 0 {
        return Ok(());
    }
    let rs = rest.remove(0);
    proof {
        assert(rest@ =~= sorted@.drop_first());
    }
    let RankedSwap { swap, .. } = rs;
    match apply_swap(scene, swap) {
        Err(e) => {
            proof {
                assert(sorted@[0].swap == swap);
            }
            Err(e)
        },
        Ok(()) => {
            let ghost mid = *scene;
            let r2 = apply_all(scene, rest);
            proof {
                assert(sorted@[0].swap == swap);
                assert(apply_swap_effect(*old(scene), mid, sorted@[0].swap));
                assert(reconcile_chain(mid, *scene, sorted@.drop_first(), r2));
            }
            r2
        },
    }
}

/// Reconcile one pass's pending structural changes against the tree.
///
/// Every request must carry a target; every target must be in the tree
/// at the start of reconciliation — a dangling target is a programming
/// error in the issuing script and terminates the pass with the scene
/// untouched ([`screen_swaps`]).  The requests are then ordered
/// parent-before-descendant — ascending preorder rank of the target,
/// arrival order between equal ranks — and applied in that order
/// ([`reconcile_chain`]); the first rejected application terminates the
/// pass, leaving the changes applied so far in place.
#[verifier::rlimit(100)]
#[verifier::loop_isolation(false)]
pub fn reconcile<G>(scene: &mut Scene<G>, swaps: Vec<Swap<G>>) -> (r: Result<(), SwapError>)
    requires
        old(scene).wf(),
    ensures
        final(scene).wf(),
        final(scene).worldspace == old(scene).worldspace,
        screen_swaps(swaps@, old(scene).ids()) matches Err(e) ==> r == Err::<(), SwapError>(e)
            && final(scene).children@ == old(scene).children@ && final(scene).main_camera
            == old(scene).main_camera,
        screen_swaps(swaps@, old(scene).ids()) is Ok ==> exists|ordered: Seq<RankedSwap<G>>|
            {
                &&& #[trigger] ordered.to_multiset() == ranking_of(
                    swaps@,
                    old(scene).ids(),
                ).to_multiset()
                &&& sorted_by_rank(ordered)
                &&& reconcile_chain(*old(scene), *final(scene), ordered, r)
            },
{
    broadcast use vstd::seq_lib::group_to_multiset_ensures;

    let ghost all = swaps@;
    let mut ids_vec: Vec<ID> = Vec::new();
    forest_collect_ids(&scene.children, &mut ids_vec);
    let mut ranked: Vec<RankedSwap<G>> = Vec::new();
    let mut rest = swaps;
    proof {
        assert(rest@ =~= all.skip(0));
    }
    while rest.len() > 0
        invariant
            scene.children@ == old(scene).children@,
            scene.main_camera == old(scene).main_camera,
            scene.worldspace == old(scene).worldspace,
            ids_vec@ == scene.ids(),
            rest@ == all.skip(ranked@.len() as int),
            ranked@.len() + rest@.len() == all.len(),
            screen_swaps(all, ids_vec@) == screen_swaps(rest@, ids_vec@),
            forall|m: int|
                0 <= m < ranked@.len() ==> #[trigger] ranked@[m] == ranking_of(all, ids_vec@)[m],
        decreases rest@.len(),
    {
        let ghost processed = ranked@.len() as int;
        let ghost rest_before = rest@;
        let s = rest.remove(0);
        proof {
            assert(s == all[processed]);
            assert(rest@ =~= all.skip(processed + 1));
            assert(rest_before[0] == all[processed]);
            assert(rest_before.drop_first() =~= rest@);
        }
        let target: ID = match s.get_id() {
            Ok(i) => *i,
            Err(_) => {
                proof {
                    assert(screen_swaps(rest_before, ids_vec@) == Err::<(), SwapError>(
                        SwapError::MissingTarget,
                    ));
                }
                return Err(SwapError::MissingTarget);
            },
        };
        let n = ids_vec.len();
        let mut rank_found: Option<usize> = None;
        let mut k: usize = 0;
        while k < n && rank_found.is_none()
            invariant
                n == ids_vec@.len(),
                0 <= k <= n,
                match rank_found {
                    Some(rk) => rk < n && ids_vec@[rk as int] == target && (forall|k1: int|
                        0 <= k1 < rk ==> ids_vec@[k1] != target),
                    None => forall|k1: int| 0 <= k1 < k ==> ids_vec@[k1] != target,
                },
            decreases n - k,
        {
            if ids_vec[k] == target {
                rank_found = Some(k);
            }
            k = k + 1;
        }
        match rank_found {
            Some(rank) => {
                let arrival = ranked.len();
                ranked.push(RankedSwap { rank, index: arrival, swap: s });
                proof {
                    assert(ids_vec@.contains(target)) by {
                        assert(ids_vec@[rank as int] == target);
                    }
                    let io = ids_vec@.index_of(target);
                    assert(0 <= io < ids_vec@.len() && ids_vec@[io] == target);
                    assert(io == rank as int) by {
                        if io != rank as int {
                            assert(ids_vec@[io] == ids_vec@[rank as int]);
                        }
                    }
                    assert(ranked@[processed] == ranking_of(all, ids_vec@)[processed]);
                    assert(screen_swaps(rest_before, ids_vec@) == screen_swaps(
                        rest@,
                        ids_vec@,
                    ));
                }
            },
            None => {
                proof {
                    if ids_vec@.contains(target) {
                        let k1 = choose|k1: int|
                            0 <= k1 < ids_vec@.len() && #[trigger] ids_vec@[k1] == target;
                    }
                    assert(screen_swaps(rest_before, ids_vec@) == Err::<(), SwapError>(
                        SwapError::TargetNotFound,
                    ));
                }
                return Err(SwapError::TargetNotFound);
            },
        }
    }
    proof {
        assert(ranked@.len() == all.len());
        assert(screen_swaps(rest@, ids_vec@) == Ok::<(), SwapError>(()));
        assert(screen_swaps(all, old(scene).ids()) is Ok);
        assert(ranked@ =~= ranking_of(all, old(scene).ids()));
    }
    let sorted = sort_swaps(ranked);
    let ghost sorted_view = sorted@;
    let r = apply_all(scene, sorted);
    proof {
        assert(sorted_view.to_multiset() == ranking_of(all, old(scene).ids()).to_multiset());
        assert(reconcile_chain(*old(scene), *scene, sorted_view, r));
    }
    r
}

impl Executor {
    /// Drive one scheduling pass to its barrier: drain the queue,
    /// polling each task through the host and re-admitting tasks that
    /// report pending, then reconcile the structural changes the
    /// completed tasks produced.
    ///
    /// The call returns success only once no task is pending and every
    /// collected change has been applied: nothing scheduled afterwards
    /// can run before everything from this pass has settled.  A pass
    /// whose scripts never complete within the poll budget is reported
    /// as stalled.
    #[verifier::loop_isolation(false)]
    pub fn run<G, H: ScriptHost<G>>(
        &mut self,
        spawner: &mut Spawner,
        scene: &mut Scene<G>,
        host: &mut H,
        max_polls: usize,
    ) -> (r: Result<(), RunError>)
        requires
            old(scene).wf(),
        ensures
            final(scene).wf(),
            r is Ok ==> final(self).ready@.len() == 0 && final(spawner).tasks@.len() == 0,
            r == Err::<(), RunError>(RunError::Stalled) ==> final(spawner).tasks@.len() == 0,
            old(self).ready@.len() == 0 && old(spawner).tasks@.len() == 0 ==> r is Ok
                && final(scene).children@ == old(scene).children@
                && final(scene).main_camera == old(scene).main_camera,
    {
        broadcast use vstd::seq_lib::group_to_multiset_ensures;

        self.ready.append(&mut spawner.tasks);
        let mut swaps: Vec<Swap<G>> = Vec::new();
        let mut polls: usize = 0;
        while self.ready.len() > 0
            invariant
                scene.wf(),
                spawner.tasks@.len() == 0,
                polls <= max_polls,
                old(self).ready@.len() == 0 && old(spawner).tasks@.len() == 0 ==> {
                    &&& self.ready@.len() == 0
                    &&& swaps@.len() == 0
                    &&& scene.children@ == old(scene).children@
                    &&& scene.main_camera == old(scene).main_camera
                },
            decreases max_polls - polls,
        {
            if polls == max_polls {
                return Err(RunError::Stalled);
            }
            let task = self.ready.remove(0);
            let p = host.poll_task(scene, &task);
            polls = polls + 1;
            match p {
                TaskPoll::Pending => {
                    self.ready.push(task);
                },
                TaskPoll::Ready(produced) => {
                    match produced {
                        Swap::NoSwap => {},
                        other => {
                            swaps.push(other);
                        },
                    }
                },
            }
        }
        let ghost pre_reconcile = *scene;
        let ghost collected = swaps@;
        let rr = reconcile(scene, swaps);
        proof {
            if old(self).ready@.len() == 0 && old(spawner).tasks@.len() == 0 {
                assert(collected =~= Seq::<Swap<G>>::empty());
                assert(screen_swaps(collected, pre_reconcile.ids()) == Ok::<(), SwapError>(()));
                let ordered = choose|ordered: Seq<RankedSwap<G>>|
                    {
                        &&& #[trigger] ordered.to_multiset() == ranking_of(
                            collected,
                            pre_reconcile.ids(),
                        ).to_multiset()
                        &&& sorted_by_rank(ordered)
                        &&& reconcile_chain(pre_reconcile, *scene, ordered, rr)
                    };
                assert(ranking_of(collected, pre_reconcile.ids()) =~= Seq::<
                    RankedSwap<G>,
                >::empty());
                assert(ordered.len() == ordered.to_multiset().len());
                assert(ordered.len() == 0);
            }
        }
        match rr {
            Ok(()) => Ok(()),
            Err(e) => Err(RunError::Reconcile(e)),
        }
    }
}

/// Reconciliation ordering: reconciliation ranks each request by the
/// preorder position of its target in the tree and applies requests in
/// ascending rank, arrival order between equal ranks ([`sort_swaps`]).
/// In a consistent scene an ancestor's preorder position is strictly
/// smaller than the position of every node inside its subtree, so a
/// request targeting a node is applied before any request targeting one
/// of its descendants.
pub proof fn lemma_reconciliation_order<G>(scene: Scene<G>, anc: ID, desc: ID)
    requires
        scene.wf(),
        anc != desc,
        forest_find(scene.children@, anc) is Some,
        subtree_ids(forest_find(scene.children@, anc)->Some_0).contains(desc),
    ensures
        scene.ids().contains(anc),
        scene.ids().contains(desc),
        forall|i: int, j: int|
            0 <= i < scene.ids().len() && 0 <= j < scene.ids().len() && scene.ids()[i] == anc
                && scene.ids()[j] == desc ==> i < j,
{
    lemma_forest_ancestor_before(scene.children@, anc, desc);
}

} // verus!
