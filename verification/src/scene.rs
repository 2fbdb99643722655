//! The scene: root of the tree in which a world exists.

pub mod game_object;

use vstd::prelude::*;

use crate::registration::id::ID;
use crate::registration::relation;
use crate::scripting::executor::Spawner;
use crate::scripting::MAX_QUEUED_TASKS;
use crate::space::{space_copy, space_identity, space_join, space_join_reverse};
use crate::registration::relation::tree_contains;
use game_object::{
    forest_core_invocations, forest_find, forest_handler_invocations, forest_ids,
    forest_spawn_cores, forest_spawn_handlers, lemma_forest_ids_contains, started_version_forest,
    subtree_ids, tasks_of, GameObjectNode,
};

verus! {

/// The tree root.  It owns the top-level nodes and at most one designated
/// main-camera reference, which must name a node inside the tree.
pub struct Scene<G> {
    pub worldspace: feo_math::utils::space::Space,
    pub children: Vec<GameObjectNode<G>>,
    pub main_camera: Option<ID>,
}

impl<G> Scene<G> {
    /// All identifiers in the tree, in depth-first preorder over the
    /// top-level children.
    pub open spec fn ids(self) -> Seq<ID> {
        forest_ids(self.children@)
    }

    /// Tree consistency: identifiers are pairwise distinct, and the main
    /// camera, if set, names a node of the tree.
    pub open spec fn wf(self) -> bool {
        &&& self.ids().no_duplicates()
        &&& match self.main_camera {
            Some(c) => self.ids().contains(c),
            None => true,
        }
    }

    /// A new scene with the given world space, or the default one.
    pub fn new(worldspace: Option<feo_math::utils::space::Space>) -> (s: Scene<G>)
        ensures
            s.children@ == Seq::<GameObjectNode<G>>::empty(),
            s.main_camera is None,
            s.wf(),
            worldspace matches Some(w) ==> s.worldspace == w,
    {
        let s = Scene {
            worldspace: match worldspace {
                Some(w) => w,
                None => crate::space::space_default(),
            },
            children: Vec::new(),
            main_camera: None,
        };
        proof {
            assert(s.ids() =~= Seq::<ID>::empty());
        }
        s
    }

    /// Designate the main camera.  The node must already be part of the
    /// tree; a detached camera would never have its scripts run or be
    /// drawn.
    pub fn set_main_camera(&mut self, camera: ID)
        requires
            old(self).wf(),
            old(self).ids().contains(camera),
        ensures
            final(self).wf(),
            final(self).main_camera == Some(camera),
            final(self).children == old(self).children,
            final(self).worldspace == old(self).worldspace,
    {
        self.main_camera = Some(camera);
    }

    /// The scene's top-level children, in order.
    pub fn get_children(&self) -> (r: &Vec<GameObjectNode<G>>)
        ensures
            r == &self.children,
    {
        &self.children
    }

    /// Append a top-level child.  The tree stays consistent as long as
    /// the child brings only fresh, pairwise-distinct identifiers.
    pub fn add_child(&mut self, child: GameObjectNode<G>)
        ensures
            final(self).children@ == old(self).children@.push(child),
            final(self).main_camera == old(self).main_camera,
            final(self).worldspace == old(self).worldspace,
            final(self).ids() == old(self).ids() + subtree_ids(child),
            (old(self).wf() && subtree_ids(child).no_duplicates() && (forall|x: ID|
                subtree_ids(child).contains(x) ==> !old(self).ids().contains(x)))
                ==> final(self).wf(),
    {
        relation::add_child_to_list(&mut self.children, child);
        proof {
            relation::lemma_forest_ids_push(old(self).children@, child);
            if old(self).wf() && subtree_ids(child).no_duplicates() && (forall|x: ID|
                subtree_ids(child).contains(x) ==> !old(self).ids().contains(x)) {
                assert forall|i: int, j: int|
                    0 <= i < old(self).ids().len() && 0 <= j < subtree_ids(
                        child,
                    ).len() implies old(self).ids()[i] != subtree_ids(child)[j] by {
                    if old(self).ids()[i] == subtree_ids(child)[j] {
                        assert(subtree_ids(child).contains(subtree_ids(child)[j]));
                        assert(old(self).ids().contains(subtree_ids(child)[j]));
                    }
                }
                vstd::seq_lib::lemma_no_dup_in_concat(old(self).ids(), subtree_ids(child));
                relation::lemma_concat_contains(old(self).ids(), subtree_ids(child));
                assert(self.ids() == old(self).ids() + subtree_ids(child));
            }
        }
    }

    /// Remove the first top-level child with the given identifier,
    /// handing its subtree back; fails if no top-level child has it.
    pub fn remove_child(&mut self, id: &ID) -> (r: Result<GameObjectNode<G>, ()>)
        ensures
            r is Err ==> final(self).children@ == old(self).children@ && (forall|j: int|
                0 <= j < old(self).children@.len() ==> (#[trigger] old(self).children@[j]).id
                    != id),
            r matches Ok(removed) ==> exists|j: int|
                {
                    &&& 0 <= j < old(self).children@.len()
                    &&& (#[trigger] old(self).children@[j]).id == id
                    &&& forall|k: int|
                        0 <= k < j ==> (#[trigger] old(self).children@[k]).id != id
                    &&& removed == old(self).children@[j]
                    &&& final(self).children@ == old(self).children@.remove(j)
                },
            final(self).main_camera == old(self).main_camera,
            final(self).worldspace == old(self).worldspace,
    {
        relation::remove_child_from_list(&mut self.children, id)
    }

    /// Replace the first top-level child with the given identifier by the
    /// given node, wholesale.
    pub fn replace_child(&mut self, old_id: &ID, new: GameObjectNode<G>) -> (r: Result<(), ()>)
        ensures
            r is Err ==> final(self).children@ == old(self).children@ && (forall|j: int|
                0 <= j < old(self).children@.len() ==> (#[trigger] old(self).children@[j]).id
                    != old_id),
            r is Ok ==> exists|j: int|
                {
                    &&& 0 <= j < old(self).children@.len()
                    &&& (#[trigger] old(self).children@[j]).id == old_id
                    &&& forall|k: int|
                        0 <= k < j ==> (#[trigger] old(self).children@[k]).id != old_id
                    &&& final(self).children@ == old(self).children@.update(j, new)
                },
            final(self).main_camera == old(self).main_camera,
            final(self).worldspace == old(self).worldspace,
    {
        relation::replace_child_in_list(&mut self.children, old_id, new)
    }

    /// Find the top-level child with the given name.  Two same-named
    /// siblings are a fatal invariant violation and are excluded by the
    /// precondition.
    pub fn get_child_by_name<'a>(&'a self, name: &String) -> (r: Result<
        &'a GameObjectNode<G>,
        &'static str,
    >)
        requires
            relation::count_named(self.children@, name@) <= 1,
        ensures
            r matches Ok(c) ==> exists|j: int|
                0 <= j < self.children@.len() && c == &self.children@[j] && (
                #[trigger] self.children@[j]).name@ == name@,
            r is Err ==> relation::count_named(self.children@, name@) == 0,
    {
        relation::get_child_from_list_by_name(&self.children, name)
    }

    /// Is the node with the given identifier the designated main camera?
    pub fn is_main_camera(&self, id: &ID) -> (r: bool)
        ensures
            r == (self.main_camera == Some(*id)),
    {
        match &self.main_camera {
            Some(c) => *c == *id,
            None => false,
        }
    }

    /// Where the node with the given identifier hangs: under the scene
    /// root itself, or under the game object whose identifier is named.
    pub open spec fn parent_of(self, id: ID) -> Option<relation::ParentWrapper> {
        if relation::direct_count(self.children@, id) > 0 {
            Some(relation::ParentWrapper::Scene)
        } else {
            match relation::forest_parent_of(self.children@, id) {
                Some(p) => Some(relation::ParentWrapper::GameObject(p)),
                None => None,
            }
        }
    }

    /// The parent of the node with the given identifier: the scene root,
    /// or another game object.  Every node of the tree has one.
    #[verifier::loop_isolation(false)]
    pub fn get_parent(&self, id: &ID) -> (r: Result<relation::ParentWrapper, ()>)
        ensures
            r matches Ok(p) ==> self.parent_of(*id) == Some(p),
            r is Err <==> self.parent_of(*id) is None,
            self.ids().contains(*id) ==> r is Ok,
    {
        let n = self.children.len();
        let mut i: usize = 0;
        while i < n
            invariant
                n == self.children@.len(),
                0 <= i <= n,
                forall|k: int| 0 <= k < i ==> (#[trigger] self.children@[k]).id != id,
            decreases n - i,
        {
            if self.children[i].id == *id {
                proof {
                    relation::lemma_direct_count_positive(self.children@, *id);
                }
                return Ok(relation::ParentWrapper::Scene);
            }
            i = i + 1;
        }
        proof {
            relation::lemma_direct_count_positive(self.children@, *id);
        }
        match relation::forest_parent(&self.children, id) {
            Some(p) => Ok(relation::ParentWrapper::GameObject(p)),
            None => {
                proof {
                    if self.ids().contains(*id) {
                        relation::lemma_forest_parent_exists(self.children@, *id);
                    }
                }
                Err(())
            },
        }
    }

    /// Find the node with the given identifier anywhere in the tree.
    pub fn get_node<'a>(&'a self, id: &ID) -> (r: Option<&'a GameObjectNode<G>>)
        ensures
            match r {
                Some(n) => forest_find(self.children@, *id) == Some(*n) && self.ids().contains(
                    *id,
                ),
                None => !self.ids().contains(*id),
            },
    {
        relation::forest_get(&self.children, id)
    }

    /// Schedule the core scripts: for each node with a binding, its start
    /// routine if it has not started (marking it started), else its frame
    /// routine.  The walk is depth-first from the top-level children;
    /// nothing runs during the walk.
    pub fn spawn_script_cores(&mut self, spawner: &mut Spawner)
        requires
            old(spawner).tasks@.len() + forest_core_invocations(old(self).children@).len()
                <= MAX_QUEUED_TASKS as int,
        ensures
            started_version_forest(old(self).children@, final(self).children@),
            final(spawner).tasks@ == old(spawner).tasks@ + tasks_of(
                forest_core_invocations(old(self).children@),
            ),
            final(self).main_camera == old(self).main_camera,
            final(self).worldspace == old(self).worldspace,
            old(self).wf() ==> final(self).wf(),
    {
        forest_spawn_cores(&mut self.children, spawner);
        proof {
            game_object::lemma_started_version_ids(old(self).children@, self.children@);
        }
    }

    /// Schedule the event-handler routine of every script that has
    /// started and has one, against the event at the given position in
    /// the batch being dispatched.  The tree is not changed.
    pub fn spawn_script_handlers(&self, spawner: &mut Spawner, event_index: usize)
        requires
            old(spawner).tasks@.len() + forest_handler_invocations(
                self.children@,
                event_index,
            ).len() <= MAX_QUEUED_TASKS as int,
        ensures
            final(spawner).tasks@ == old(spawner).tasks@ + tasks_of(
                forest_handler_invocations(self.children@, event_index),
            ),
    {
        forest_spawn_handlers(&self.children, spawner, event_index);
    }

    /// The composition of a node's local transform with its ancestor
    /// chain, out to world space.  Recomputed on demand: any ancestor may
    /// have moved since the last query.
    pub fn get_subspace(&self, id: &ID) -> (r: Result<feo_math::utils::space::Space, ()>)
        ensures
            r is Ok <==> self.ids().contains(*id),
    {
        let acc = space_copy(&self.worldspace);
        forest_subspace(&self.children, id, acc)
    }

    /// The inverse composition, leaving world space back down to the
    /// node.  Recomputed on demand.
    pub fn get_inversed_subspace(&self, id: &ID) -> (r: Result<
        feo_math::utils::space::Space,
        (),
    >)
        ensures
            r is Ok <==> self.ids().contains(*id),
    {
        let identity = space_identity();
        let acc = space_join_reverse(&self.worldspace, &identity);
        forest_inversed_subspace(&self.children, id, acc)
    }
}

/// Walk down to the node with the given identifier, joining each local
/// transform onto the accumulated ancestor composition.
#[verifier::loop_isolation(false)]
fn forest_subspace<G>(
    children: &Vec<GameObjectNode<G>>,
    id: &ID,
    acc: feo_math::utils::space::Space,
) -> (r: Result<feo_math::utils::space::Space, ()>)
    ensures
        r is Ok <==> forest_ids(children@).contains(*id),
    decreases forest_ids(children@).len(),
{
    let n = children.len();
    let mut i: usize = 0;
    while i < n
        invariant
            n == children@.len(),
            0 <= i <= n,
            forall|j: int|
                0 <= j < i ==> !subtree_ids(#[trigger] children@[j]).contains(*id),
        decreases n - i,
    {
        if tree_contains(&children[i], id) {
            let joined = space_join(&children[i].subspace, &acc);
            if children[i].id == *id {
                proof {
                    lemma_forest_ids_contains(children@, *id);
                }
                return Ok(joined);
            }
            proof {
                let k = choose|k: int|
                    0 <= k < subtree_ids(children@[i as int]).len() && subtree_ids(
                        children@[i as int],
                    )[k] == *id;
                assert(k != 0);
                assert(forest_ids(children@[i as int].children@)[k - 1] == *id);
                game_object::lemma_forest_ids_split(children@, i as int);
                assert(forest_ids(children@[i as int].children@).len() < forest_ids(
                    children@,
                ).len());
                lemma_forest_ids_contains(children@, *id);
            }
            return forest_subspace(&children[i].children, id, joined);
        }
        i = i + 1;
    }
    proof {
        lemma_forest_ids_contains(children@, *id);
    }
    Err(())
}

/// Walk down to the node with the given identifier, composing the
/// inverse transforms.
#[verifier::loop_isolation(false)]
fn forest_inversed_subspace<G>(
    children: &Vec<GameObjectNode<G>>,
    id: &ID,
    acc: feo_math::utils::space::Space,
) -> (r: Result<feo_math::utils::space::Space, ()>)
    ensures
        r is Ok <==> forest_ids(children@).contains(*id),
    decreases forest_ids(children@).len(),
{
    let n = children.len();
    let mut i: usize = 0;
    while i < n
        invariant
            n == children@.len(),
            0 <= i <= n,
            forall|j: int|
                0 <= j < i ==> !subtree_ids(#[trigger] children@[j]).contains(*id),
        decreases n - i,
    {
        if tree_contains(&children[i], id) {
            let joined = space_join_reverse(&children[i].subspace, &acc);
            if children[i].id == *id {
                proof {
                    lemma_forest_ids_contains(children@, *id);
                }
                return Ok(joined);
            }
            proof {
                let k = choose|k: int|
                    0 <= k < subtree_ids(children@[i as int]).len() && subtree_ids(
                        children@[i as int],
                    )[k] == *id;
                assert(k != 0);
                assert(forest_ids(children@[i as int].children@)[k - 1] == *id);
                game_object::lemma_forest_ids_split(children@, i as int);
                assert(forest_ids(children@[i as int].children@).len() < forest_ids(
                    children@,
                ).len());
                lemma_forest_ids_contains(children@, *id);
            }
            return forest_inversed_subspace(&children[i].children, id, joined);
        }
        i = i + 1;
    }
    proof {
        lemma_forest_ids_contains(children@, *id);
    }
    Err(())
}

/// Tree ownership invariant: at the end of any reconciliation pass the
/// scene is consistent ([`Scene::wf`], ensured by reconciliation), and in
/// a consistent scene every node of the tree stands in exactly one child
/// list — the scene's own list or exactly one parent node's list.
pub proof fn lemma_tree_ownership_scene<G>(scene: Scene<G>, id: ID)
    requires
        scene.wf(),
        scene.ids().contains(id),
    ensures
        relation::direct_count(scene.children@, id) + relation::forest_child_slots(
            scene.children@,
            id,
        ) == 1,
{
    relation::lemma_tree_ownership(scene.children@, id);
}

} // verus!
