//! Game objects: the polymorphic nodes of the scene tree.
//!
//! A node owns its children exclusively, so the scene is a true tree by
//! construction: no node can sit in two child lists.  The node's payload
//! is a tagged variant (group, mesh, camera, light kinds) plus a local
//! transform, an optional script binding, and an identifier issued by the
//! scene's allocator.

use vstd::prelude::*;

use crate::registration::id::ID;
use crate::scripting::executor::{Spawner, Task};
use crate::scripting::globals::GlobalClone;
use crate::scripting::{Invocation, RoutineKind, Script, MAX_QUEUED_TASKS};

verus! {

/// The closed set of node payloads.
#[derive(Clone, Copy, Debug, PartialEq, Eq, Structural)]
pub enum NodeKind {
    /// A plain grouping node.
    Group,
    /// A mesh instance loaded from a model.
    Obj,
    /// A first-person camera.
    FpvCamera,
    /// A directional light.
    DirectionalLight,
    /// A point light.
    PointLight,
}

/// A node of the scene tree.
pub struct GameObjectNode<G> {
    pub id: ID,
    pub name: String,
    pub subspace: feo_math::utils::space::Space,
    pub visible: bool,
    pub script: Option<Script<G>>,
    pub children: Vec<GameObjectNode<G>>,
    pub kind: NodeKind,
}

/// The identifiers of a subtree, in depth-first preorder: the node first,
/// then each child's subtree in child-list order.
pub open spec fn subtree_ids<G>(node: GameObjectNode<G>) -> Seq<ID>
    decreases node,
{
    seq![node.id] + forest_ids(node.children@)
}

/// The identifiers of a sequence of subtrees, concatenated in order.
pub open spec fn forest_ids<G>(nodes: Seq<GameObjectNode<G>>) -> Seq<ID>
    decreases nodes,
{
    if nodes.len() == 0 {
        Seq::empty()
    } else {
        subtree_ids(nodes[0]) + forest_ids(nodes.drop_first())
    }
}

/// The node with the given identifier inside a subtree, if any.  With
/// duplicate-free identifiers this is the unique such node.
pub open spec fn tree_find<G>(node: GameObjectNode<G>, id: ID) -> Option<GameObjectNode<G>>
    decreases node,
{
    if node.id == id {
        Some(node)
    } else {
        forest_find(node.children@, id)
    }
}

/// The node with the given identifier inside a sequence of subtrees.
pub open spec fn forest_find<G>(nodes: Seq<GameObjectNode<G>>, id: ID) -> Option<
    GameObjectNode<G>,
>
    decreases nodes,
{
    if nodes.len() == 0 {
        None
    } else if subtree_ids(nodes[0]).contains(id) {
        tree_find(nodes[0], id)
    } else {
        forest_find(nodes.drop_first(), id)
    }
}

/// Splitting a forest's preorder identifiers at one of its trees.
pub proof fn lemma_forest_ids_split<G>(nodes: Seq<GameObjectNode<G>>, i: int)
    requires
        0 <= i < nodes.len(),
    ensures
        forest_ids(nodes) == forest_ids(nodes.take(i)) + subtree_ids(nodes[i]) + forest_ids(
            nodes.skip(i + 1),
        ),
    decreases i,
{
    if i == 0 {
        assert(nodes.take(0) == Seq::<GameObjectNode<G>>::empty());
        assert(nodes.skip(1) == nodes.drop_first());
        assert(forest_ids(nodes.take(0)) == Seq::<ID>::empty());
        assert(forest_ids(nodes) == forest_ids(nodes.take(0)) + subtree_ids(nodes[0])
            + forest_ids(nodes.skip(1)));
    } else {
        lemma_forest_ids_split(nodes.drop_first(), i - 1);
        assert(nodes.drop_first().take(i - 1) == nodes.take(i).drop_first());
        assert(nodes.drop_first()[i - 1] == nodes[i]);
        assert(nodes.drop_first().skip(i) == nodes.skip(i + 1));
        assert(nodes.take(i)[0] == nodes[0]);
        assert(forest_ids(nodes.take(i)) == subtree_ids(nodes[0]) + forest_ids(
            nodes.take(i).drop_first(),
        ));
        assert(forest_ids(nodes) == subtree_ids(nodes[0]) + forest_ids(nodes.drop_first()));
        assert(forest_ids(nodes.drop_first()) == forest_ids(nodes.drop_first().take(i - 1))
            + subtree_ids(nodes.drop_first()[i - 1]) + forest_ids(nodes.drop_first().skip(i)));
        assert(forest_ids(nodes) == forest_ids(nodes.take(i)) + subtree_ids(nodes[i])
            + forest_ids(nodes.skip(i + 1)));
    }
}

/// A forest contains an identifier exactly when one of its trees does.
pub proof fn lemma_forest_ids_contains<G>(nodes: Seq<GameObjectNode<G>>, id: ID)
    ensures
        forest_ids(nodes).contains(id) <==> exists|j: int|
            0 <= j < nodes.len() && subtree_ids(#[trigger] nodes[j]).contains(id),
    decreases nodes.len(),
{
    if nodes.len() == 0 {
    } else {
        lemma_forest_ids_contains(nodes.drop_first(), id);
        assert forall|j: int|
            0 <= j < nodes.len() && subtree_ids(#[trigger] nodes[j]).contains(
                id,
            ) implies forest_ids(nodes).contains(id) by {
            if j == 0 {
                let k = choose|k: int|
                    0 <= k < subtree_ids(nodes[0]).len() && subtree_ids(nodes[0])[k] == id;
                assert(forest_ids(nodes)[k] == id);
            } else {
                assert(nodes.drop_first()[j - 1] == nodes[j]);
                assert(forest_ids(nodes.drop_first()).contains(id));
                let k = choose|k: int|
                    0 <= k < forest_ids(nodes.drop_first()).len() && forest_ids(
                        nodes.drop_first(),
                    )[k] == id;
                assert(forest_ids(nodes)[subtree_ids(nodes[0]).len() + k] == id);
            }
        }
        if forest_ids(nodes).contains(id) {
            let k = choose|k: int|
                0 <= k < forest_ids(nodes).len() && forest_ids(nodes)[k] == id;
            if k < subtree_ids(nodes[0]).len() {
                assert(subtree_ids(nodes[0]).contains(id));
            } else {
                assert(forest_ids(nodes.drop_first())[k - subtree_ids(nodes[0]).len()] == id);
                assert(forest_ids(nodes.drop_first()).contains(id));
            }
        }
    }
}

/// A found node really carries the identifier it was found by.
pub proof fn lemma_find_some_iff_contains<G>(nodes: Seq<GameObjectNode<G>>, id: ID)
    ensures
        forest_find(nodes, id) is Some <==> forest_ids(nodes).contains(id),
        forest_find(nodes, id) matches Some(n) ==> n.id == id,
    decreases nodes,
{
    if nodes.len() == 0 {
    } else {
        lemma_forest_ids_contains(nodes, id);
        if subtree_ids(nodes[0]).contains(id) {
            lemma_tree_find_some(nodes[0], id);
        } else {
            lemma_find_some_iff_contains(nodes.drop_first(), id);
            lemma_forest_ids_contains(nodes.drop_first(), id);
            assert forall|j: int|
                0 <= j < nodes.drop_first().len() && subtree_ids(
                    #[trigger] nodes.drop_first()[j],
                ).contains(id) implies exists|k: int|
                0 <= k < nodes.len() && subtree_ids(#[trigger] nodes[k]).contains(id) by {
                assert(nodes[j + 1] == nodes.drop_first()[j]);
            }
            assert forall|j: int|
                0 <= j < nodes.len() && subtree_ids(#[trigger] nodes[j]).contains(
                    id,
                ) implies exists|k: int|
                0 <= k < nodes.drop_first().len() && subtree_ids(
                    #[trigger] nodes.drop_first()[k],
                ).contains(id) by {
                assert(j != 0);
                assert(nodes.drop_first()[j - 1] == nodes[j]);
            }
        }
    }
}

/// Inside one subtree, a contained identifier is found.
pub proof fn lemma_tree_find_some<G>(node: GameObjectNode<G>, id: ID)
    requires
        subtree_ids(node).contains(id),
    ensures
        tree_find(node, id) is Some,
        tree_find(node, id) matches Some(n) ==> n.id == id,
    decreases node,
{
    if node.id == id {
    } else {
        assert(forest_ids(node.children@).contains(id)) by {
            let k = choose|k: int|
                0 <= k < subtree_ids(node).len() && subtree_ids(node)[k] == id;
            assert(k != 0);
            assert(forest_ids(node.children@)[k - 1] == id);
        }
        lemma_forest_ids_contains(node.children@, id);
        let j = choose|j: int|
            0 <= j < node.children@.len() && subtree_ids(#[trigger] node.children@[j]).contains(
                id,
            );
        lemma_forest_find_in_child(node.children@, id);
    }
}

/// If some tree of a forest contains the identifier, the forest-level
/// find succeeds.
pub proof fn lemma_forest_find_in_child<G>(nodes: Seq<GameObjectNode<G>>, id: ID)
    requires
        exists|j: int|
            0 <= j < nodes.len() && subtree_ids(#[trigger] nodes[j]).contains(id),
    ensures
        forest_find(nodes, id) is Some,
        forest_find(nodes, id) matches Some(n) ==> n.id == id,
    decreases nodes,
{
    let j = choose|j: int|
        0 <= j < nodes.len() && subtree_ids(#[trigger] nodes[j]).contains(id);
    if subtree_ids(nodes[0]).contains(id) {
        lemma_tree_find_some(nodes[0], id);
    } else {
        assert(j != 0);
        assert(nodes.drop_first()[j - 1] == nodes[j]);
        lemma_forest_find_in_child(nodes.drop_first(), id);
    }
}

/// The core invocations one dispatch pass schedules for this subtree:
/// for a node with a script, its start routine if it has not started,
/// else its frame routine; then the children's, in order.
pub open spec fn tree_core_invocations<G>(node: GameObjectNode<G>) -> Seq<Invocation>
    decreases node,
{
    (match node.script {
        Some(s) => seq![
            Invocation {
                target: node.id,
                routine: if s.has_started {
                    RoutineKind::Frame
                } else {
                    RoutineKind::Start
                },
            },
        ],
        None => Seq::empty(),
    }) + forest_core_invocations(node.children@)
}

/// The core invocations for a sequence of subtrees, concatenated.
pub open spec fn forest_core_invocations<G>(nodes: Seq<GameObjectNode<G>>) -> Seq<Invocation>
    decreases nodes,
{
    if nodes.len() == 0 {
        Seq::empty()
    } else {
        tree_core_invocations(nodes[0]) + forest_core_invocations(nodes.drop_first())
    }
}

/// The event-handler invocations one event dispatch schedules for this
/// subtree: nodes whose script has started and has an event handler,
/// each answering the event at the given batch position.
pub open spec fn tree_handler_invocations<G>(node: GameObjectNode<G>, event_index: usize) -> Seq<
    Invocation,
>
    decreases node,
{
    (match node.script {
        Some(s) => if s.has_started && s.has_event_handler {
            seq![Invocation { target: node.id, routine: RoutineKind::EventHandler(event_index) }]
        } else {
            Seq::empty()
        },
        None => Seq::empty(),
    }) + forest_handler_invocations(node.children@, event_index)
}

/// The event-handler invocations for a sequence of subtrees.
pub open spec fn forest_handler_invocations<G>(
    nodes: Seq<GameObjectNode<G>>,
    event_index: usize,
) -> Seq<Invocation>
    decreases nodes,
{
    if nodes.len() == 0 {
        Seq::empty()
    } else {
        tree_handler_invocations(nodes[0], event_index) + forest_handler_invocations(
            nodes.drop_first(),
            event_index,
        )
    }
}

/// The queue entries for a sequence of invocations.
pub open spec fn tasks_of(invocations: Seq<Invocation>) -> Seq<Task> {
    invocations.map_values(|inv: Invocation| Task { invocation: inv })
}

/// `after` is `before` with every script marked started, and nothing
/// else changed.
pub open spec fn started_version_tree<G>(
    before: GameObjectNode<G>,
    after: GameObjectNode<G>,
) -> bool
    decreases before,
{
    &&& after.id == before.id
    &&& after.name == before.name
    &&& after.subspace == before.subspace
    &&& after.visible == before.visible
    &&& after.kind == before.kind
    &&& (before.script is Some <==> after.script is Some)
    &&& (before.script matches Some(s) ==> (after.script matches Some(t) && t.has_started
        && t.globals == s.globals && t.has_event_handler == s.has_event_handler))
    &&& started_version_forest(before.children@, after.children@)
}

/// Pointwise [`started_version_tree`] over two forests.
pub open spec fn started_version_forest<G>(
    before: Seq<GameObjectNode<G>>,
    after: Seq<GameObjectNode<G>>,
) -> bool
    decreases before,
{
    if before.len() == 0 {
        after.len() == 0
    } else {
        &&& after.len() == before.len()
        &&& started_version_tree(before[0], after[0])
        &&& started_version_forest(before.drop_first(), after.drop_first())
    }
}

/// Marking scripts started never touches the identifiers.
pub proof fn lemma_started_version_ids<G>(
    before: Seq<GameObjectNode<G>>,
    after: Seq<GameObjectNode<G>>,
)
    requires
        started_version_forest(before, after),
    ensures
        forest_ids(after) == forest_ids(before),
    decreases before,
{
    if before.len() == 0 {
        assert(forest_ids(after) =~= forest_ids(before));
    } else {
        assert(started_version_tree(before[0], after[0]));
        assert(started_version_forest(before[0].children@, after[0].children@));
        lemma_started_version_ids(before.drop_first(), after.drop_first());
        lemma_started_version_ids(before[0].children@, after[0].children@);
        assert(subtree_ids(after[0]) =~= subtree_ids(before[0]));
        assert(forest_ids(after) =~= forest_ids(before));
    }
}

/// Splitting a forest's core invocations at one of its trees.
pub proof fn lemma_forest_core_invocations_split<G>(nodes: Seq<GameObjectNode<G>>, i: int)
    requires
        0 <= i < nodes.len(),
    ensures
        forest_core_invocations(nodes) == forest_core_invocations(nodes.take(i))
            + tree_core_invocations(nodes[i]) + forest_core_invocations(nodes.skip(i + 1)),
    decreases i,
{
    if i == 0 {
        assert(nodes.take(0) =~= Seq::<GameObjectNode<G>>::empty());
        assert(nodes.skip(1) =~= nodes.drop_first());
        assert(forest_core_invocations(nodes) =~= forest_core_invocations(nodes.take(0))
            + tree_core_invocations(nodes[0]) + forest_core_invocations(nodes.skip(1)));
    } else {
        lemma_forest_core_invocations_split(nodes.drop_first(), i - 1);
        assert(nodes.drop_first().take(i - 1) =~= nodes.take(i).drop_first());
        assert(nodes.drop_first()[i - 1] == nodes[i]);
        assert(nodes.drop_first().skip(i) =~= nodes.skip(i + 1));
        assert(nodes.take(i)[0] == nodes[0]);
        assert(nodes.take(i).len() > 0);
        assert(forest_core_invocations(nodes.take(i)) == tree_core_invocations(nodes[0])
            + forest_core_invocations(nodes.take(i).drop_first()));
        assert(forest_core_invocations(nodes) =~= forest_core_invocations(nodes.take(i))
            + tree_core_invocations(nodes[i]) + forest_core_invocations(nodes.skip(i + 1)));
    }
}

/// Splitting a forest's handler invocations at one of its trees.
pub proof fn lemma_forest_handler_invocations_split<G>(
    nodes: Seq<GameObjectNode<G>>,
    event_index: usize,
    i: int,
)
    requires
        0 <= i < nodes.len(),
    ensures
        forest_handler_invocations(nodes, event_index) == forest_handler_invocations(
            nodes.take(i),
            event_index,
        ) + tree_handler_invocations(nodes[i], event_index) + forest_handler_invocations(
            nodes.skip(i + 1),
            event_index,
        ),
    decreases i,
{
    if i == 0 {
        assert(nodes.take(0) =~= Seq::<GameObjectNode<G>>::empty());
        assert(nodes.skip(1) =~= nodes.drop_first());
        assert(forest_handler_invocations(nodes, event_index) =~= forest_handler_invocations(
            nodes.take(0),
            event_index,
        ) + tree_handler_invocations(nodes[0], event_index) + forest_handler_invocations(
            nodes.skip(1),
            event_index,
        ));
    } else {
        lemma_forest_handler_invocations_split(nodes.drop_first(), event_index, i - 1);
        assert(nodes.drop_first().take(i - 1) =~= nodes.take(i).drop_first());
        assert(nodes.drop_first()[i - 1] == nodes[i]);
        assert(nodes.drop_first().skip(i) =~= nodes.skip(i + 1));
        assert(nodes.take(i)[0] == nodes[0]);
        assert(nodes.take(i).len() > 0);
        assert(forest_handler_invocations(nodes.take(i), event_index)
            == tree_handler_invocations(nodes[0], event_index) + forest_handler_invocations(
            nodes.take(i).drop_first(),
            event_index,
        ));
        assert(forest_handler_invocations(nodes, event_index) =~= forest_handler_invocations(
            nodes.take(i),
            event_index,
        ) + tree_handler_invocations(nodes[i], event_index) + forest_handler_invocations(
            nodes.skip(i + 1),
            event_index,
        ));
    }
}

/// Within one subtree with distinct identifiers, an ancestor's
/// identifier stands strictly before any identifier inside its subtree
/// in the preorder sequence.
pub proof fn lemma_tree_ancestor_before<G>(t: GameObjectNode<G>, anc: ID, desc: ID)
    requires
        subtree_ids(t).no_duplicates(),
        tree_find(t, anc) is Some,
        subtree_ids(tree_find(t, anc)->Some_0).contains(desc),
        anc != desc,
    ensures
        subtree_ids(t).contains(desc),
        subtree_ids(t).contains(anc),
        forall|i: int, j: int|
            0 <= i < subtree_ids(t).len() && 0 <= j < subtree_ids(t).len() && subtree_ids(t)[i]
                == anc && subtree_ids(t)[j] == desc ==> i < j,
    decreases t,
{
    let ids = subtree_ids(t);
    assert(ids == seq![t.id] + forest_ids(t.children@));
    crate::registration::relation::lemma_no_dup_split(seq![t.id], forest_ids(t.children@));
    if t.id == anc {
        let a = tree_find(t, anc)->Some_0;
        assert(a == t);
        assert(ids[0] == anc);
        assert forall|i: int, j: int|
            0 <= i < ids.len() && 0 <= j < ids.len() && ids[i] == anc && ids[j]
                == desc implies i < j by {
            assert(ids[0] == ids[i]);
            assert(i == 0);
            assert(j != 0);
        }
        assert(ids.contains(anc));
    } else {
        lemma_forest_ancestor_before(t.children@, anc, desc);
        let fids = forest_ids(t.children@);
        assert(seq![t.id][0] == t.id);
        assert forall|i: int, j: int|
            0 <= i < ids.len() && 0 <= j < ids.len() && ids[i] == anc && ids[j]
                == desc implies i < j by {
            assert(ids[0] == t.id);
            let ka = choose|ka: int| 0 <= ka < fids.len() && fids[ka] == anc;
            let kd = choose|kd: int| 0 <= kd < fids.len() && fids[kd] == desc;
            assert(i != 0) by {
                if i == 0 {
                    assert(seq![t.id][0] == fids[ka]);
                }
            }
            assert(j != 0) by {
                if j == 0 {
                    assert(seq![t.id][0] == fids[kd]);
                }
            }
            assert(fids[i - 1] == anc);
            assert(fids[j - 1] == desc);
        }
        let ka = choose|ka: int| 0 <= ka < fids.len() && fids[ka] == anc;
        let kd = choose|kd: int| 0 <= kd < fids.len() && fids[kd] == desc;
        assert(ids[1 + ka] == anc);
        assert(ids[1 + kd] == desc);
    }
}

/// Within a forest with distinct identifiers, an ancestor's identifier
/// stands strictly before any identifier inside its subtree.
pub proof fn lemma_forest_ancestor_before<G>(nodes: Seq<GameObjectNode<G>>, anc: ID, desc: ID)
    requires
        forest_ids(nodes).no_duplicates(),
        forest_find(nodes, anc) is Some,
        subtree_ids(forest_find(nodes, anc)->Some_0).contains(desc),
        anc != desc,
    ensures
        forest_ids(nodes).contains(desc),
        forest_ids(nodes).contains(anc),
        forall|i: int, j: int|
            0 <= i < forest_ids(nodes).len() && 0 <= j < forest_ids(nodes).len() && forest_ids(
                nodes,
            )[i] == anc && forest_ids(nodes)[j] == desc ==> i < j,
    decreases nodes,
{
    lemma_find_some_iff_contains(nodes, anc);
    let ids = forest_ids(nodes);
    let t0 = nodes[0];
    let rest = nodes.drop_first();
    assert(ids == subtree_ids(t0) + forest_ids(rest));
    crate::registration::relation::lemma_no_dup_split(subtree_ids(t0), forest_ids(rest));
    if subtree_ids(t0).contains(anc) {
        assert(forest_find(nodes, anc) == tree_find(t0, anc));
        lemma_tree_ancestor_before(t0, anc, desc);
        let sub = subtree_ids(t0);
        assert forall|i: int, j: int|
            0 <= i < ids.len() && 0 <= j < ids.len() && ids[i] == anc && ids[j]
                == desc implies i < j by {
            let ka = choose|ka: int| 0 <= ka < sub.len() && sub[ka] == anc;
            let kd = choose|kd: int| 0 <= kd < sub.len() && sub[kd] == desc;
            assert(i < sub.len()) by {
                if i >= sub.len() {
                    assert(forest_ids(rest)[i - sub.len()] == sub[ka]);
                }
            }
            assert(j < sub.len()) by {
                if j >= sub.len() {
                    assert(forest_ids(rest)[j - sub.len()] == sub[kd]);
                }
            }
            assert(sub[i] == anc);
            assert(sub[j] == desc);
        }
        let ka = choose|ka: int| 0 <= ka < sub.len() && sub[ka] == anc;
        let kd = choose|kd: int| 0 <= kd < sub.len() && sub[kd] == desc;
        assert(ids[ka] == anc);
        assert(ids[kd] == desc);
    } else {
        assert(forest_find(nodes, anc) == forest_find(rest, anc));
        lemma_forest_ancestor_before(rest, anc, desc);
        let sub = subtree_ids(t0);
        let rids = forest_ids(rest);
        assert forall|i: int, j: int|
            0 <= i < ids.len() && 0 <= j < ids.len() && ids[i] == anc && ids[j]
                == desc implies i < j by {
            let ka = choose|ka: int| 0 <= ka < rids.len() && rids[ka] == anc;
            let kd = choose|kd: int| 0 <= kd < rids.len() && rids[kd] == desc;
            assert(i >= sub.len()) by {
                if i < sub.len() {
                    assert(sub[i] == rids[ka]);
                }
            }
            assert(j >= sub.len()) by {
                if j < sub.len() {
                    assert(sub[j] == rids[kd]);
                }
            }
            assert(rids[i - sub.len()] == anc);
            assert(rids[j - sub.len()] == desc);
        }
        let ka = choose|ka: int| 0 <= ka < rids.len() && rids[ka] == anc;
        let kd = choose|kd: int| 0 <= kd < rids.len() && rids[kd] == desc;
        assert(ids[sub.len() + ka] == anc);
        assert(ids[sub.len() + kd] == desc);
    }
}

/// Extending two related forests by related trees keeps them related.
pub proof fn lemma_started_version_forest_push<G>(
    before: Seq<GameObjectNode<G>>,
    after: Seq<GameObjectNode<G>>,
    b: GameObjectNode<G>,
    a: GameObjectNode<G>,
)
    requires
        started_version_forest(before, after),
        started_version_tree(b, a),
    ensures
        started_version_forest(before.push(b), after.push(a)),
    decreases before,
{
    if before.len() == 0 {
        assert(before.push(b)[0] == b);
        assert(after.push(a)[0] == a);
        assert(before.push(b).drop_first() =~= Seq::<GameObjectNode<G>>::empty());
        assert(after.push(a).drop_first() =~= Seq::<GameObjectNode<G>>::empty());
        assert(started_version_forest(
            Seq::<GameObjectNode<G>>::empty(),
            Seq::<GameObjectNode<G>>::empty(),
        ));
        assert(started_version_forest(
            before.push(b).drop_first(),
            after.push(a).drop_first(),
        ));
        assert(before.push(b).len() == 1);
    } else {
        assert(started_version_tree(before[0], after[0]));
        lemma_started_version_forest_push(before.drop_first(), after.drop_first(), b, a);
        assert(before.push(b).drop_first() =~= before.drop_first().push(b));
        assert(after.push(a).drop_first() =~= after.drop_first().push(a));
        assert(started_version_forest(
            before.push(b).drop_first(),
            after.push(a).drop_first(),
        ));
        assert(before.push(b)[0] == before[0]);
        assert(after.push(a)[0] == after[0]);
        assert(before.push(b).len() == before.len() + 1);
        assert(after.push(a).len() == after.len() + 1);
    }
}

/// Walk these trees, scheduling each script's start or frame routine and
/// marking every script started; children are visited after their
/// parent, in order.
#[verifier::rlimit(100)]
#[verifier::loop_isolation(false)]
pub fn forest_spawn_cores<G>(children: &mut Vec<GameObjectNode<G>>, spawner: &mut Spawner)
    requires
        old(spawner).tasks@.len() + forest_core_invocations(old(children)@).len()
            <= MAX_QUEUED_TASKS as int,
    ensures
        started_version_forest(old(children)@, final(children)@),
        final(spawner).tasks@ == old(spawner).tasks@ + tasks_of(
            forest_core_invocations(old(children)@),
        ),
    decreases forest_ids(old(children)@).len(),
{
    let ghost orig = old(children)@;
    let ghost tasks0 = old(spawner).tasks@;
    let n = children.len();
    let mut i: usize = 0;
    proof {
        assert(orig.take(0) =~= Seq::<GameObjectNode<G>>::empty());
        assert(children@.take(0) =~= Seq::<GameObjectNode<G>>::empty());
        assert(tasks_of(forest_core_invocations(orig.take(0))) =~= Seq::<Task>::empty());
        assert(spawner.tasks@ =~= tasks0 + tasks_of(forest_core_invocations(orig.take(0))));
    }
    while i < n
        invariant
            n == children@.len(),
            n == orig.len(),
            0 <= i <= n,
            forall|j: int| i <= j < n ==> children@[j] == orig[j],
            started_version_forest(orig.take(i as int), children@.take(i as int)),
            spawner.tasks@ == tasks0 + tasks_of(forest_core_invocations(orig.take(i as int))),
        decreases n - i,
    {
        proof {
            lemma_forest_core_invocations_split(orig, i as int);
            lemma_forest_ids_split(orig, i as int);
            lemma_forest_core_invocations_split(orig.take(i as int + 1), i as int);
            assert(orig.take(i as int + 1).take(i as int) =~= orig.take(i as int));
            assert(orig.take(i as int + 1).skip(i as int + 1) =~= Seq::<
                GameObjectNode<G>,
            >::empty());
            assert(orig.take(i as int + 1)[i as int] == orig[i as int]);
        }
        let ghost prefix = children@.take(i as int);
        let mut c = children.remove(i);
        proof {
            assert(c == orig[i as int]);
            assert(children@.take(i as int) =~= prefix);
        }
        let ghost c0 = c;
        match &mut c.script {
            Some(s) => {
                let routine: RoutineKind = if s.has_started {
                    RoutineKind::Frame
                } else {
                    s.has_started = true;
                    RoutineKind::Start
                };
                let target = c.id;
                spawner.spawn(Invocation { target, routine });
            },
            None => {},
        }
        proof {
            assert(c.children@ == orig[i as int].children@);
            assert(subtree_ids(orig[i as int]) == seq![c0.id] + forest_ids(c.children@));
            assert(forest_ids(c.children@).len() < forest_ids(orig).len());
            assert(tree_core_invocations(orig[i as int]) == (match orig[i as int].script {
                Some(s) => seq![
                    Invocation {
                        target: orig[i as int].id,
                        routine: if s.has_started {
                            RoutineKind::Frame
                        } else {
                            RoutineKind::Start
                        },
                    },
                ],
                None => Seq::<Invocation>::empty(),
            }) + forest_core_invocations(orig[i as int].children@));
            assert(spawner.tasks@ =~= tasks0 + tasks_of(
                forest_core_invocations(orig.take(i as int)) + (match orig[i as int].script {
                    Some(s) => seq![
                        Invocation {
                            target: orig[i as int].id,
                            routine: if s.has_started {
                                RoutineKind::Frame
                            } else {
                                RoutineKind::Start
                            },
                        },
                    ],
                    None => Seq::<Invocation>::empty(),
                }),
            ));
        }
        forest_spawn_cores(&mut c.children, spawner);
        children.insert(i, c);
        proof {
            assert(children@.take(i as int) =~= prefix);
            assert(children@[i as int] == c);
            assert(started_version_tree(orig[i as int], c));
            lemma_started_version_forest_push(orig.take(i as int), prefix, orig[i as int], c);
            assert(orig.take(i as int + 1) =~= orig.take(i as int).push(orig[i as int]));
            assert(children@.take(i as int + 1) =~= prefix.push(c));
            assert(spawner.tasks@ =~= tasks0 + tasks_of(
                forest_core_invocations(orig.take(i as int + 1)),
            ));
            assert(forall|j: int| i as int + 1 <= j < n ==> children@[j] == orig[j]);
        }
        i = i + 1;
    }
    proof {
        assert(orig.take(n as int) =~= orig);
        assert(children@.take(n as int) =~= children@);
    }
}

/// Walk these trees, scheduling the event-handler routine of every
/// script that has started and has one, against the event at the given
/// batch position; nothing is mutated.
#[verifier::rlimit(100)]
#[verifier::loop_isolation(false)]
pub fn forest_spawn_handlers<G>(
    children: &Vec<GameObjectNode<G>>,
    spawner: &mut Spawner,
    event_index: usize,
)
    requires
        old(spawner).tasks@.len() + forest_handler_invocations(children@, event_index).len()
            <= MAX_QUEUED_TASKS as int,
    ensures
        final(spawner).tasks@ == old(spawner).tasks@ + tasks_of(
            forest_handler_invocations(children@, event_index),
        ),
    decreases forest_ids(children@).len(),
{
    let ghost tasks0 = old(spawner).tasks@;
    let n = children.len();
    let mut i: usize = 0;
    proof {
        assert(children@.take(0) =~= Seq::<GameObjectNode<G>>::empty());
        assert(tasks_of(forest_handler_invocations(children@.take(0), event_index)) =~= Seq::<
            Task,
        >::empty());
        assert(spawner.tasks@ =~= tasks0 + tasks_of(
            forest_handler_invocations(children@.take(0), event_index),
        ));
    }
    while i < n
        invariant
            n == children@.len(),
            0 <= i <= n,
            spawner.tasks@ == tasks0 + tasks_of(
                forest_handler_invocations(children@.take(i as int), event_index),
            ),
        decreases n - i,
    {
        proof {
            lemma_forest_handler_invocations_split(children@, event_index, i as int);
            lemma_forest_ids_split(children@, i as int);
            lemma_forest_handler_invocations_split(
                children@.take(i as int + 1),
                event_index,
                i as int,
            );
            assert(children@.take(i as int + 1).take(i as int) =~= children@.take(i as int));
            assert(children@.take(i as int + 1).skip(i as int + 1) =~= Seq::<
                GameObjectNode<G>,
            >::empty());
            assert(children@.take(i as int + 1)[i as int] == children@[i as int]);
        }
        let c = &children[i];
        match &c.script {
            Some(s) => {
                if s.has_started && s.has_event_handler {
                    spawner.spawn(
                        Invocation {
                            target: c.id,
                            routine: RoutineKind::EventHandler(event_index),
                        },
                    );
                }
            },
            None => {},
        }
        proof {
            assert(subtree_ids(children@[i as int]) == seq![c.id] + forest_ids(c.children@));
            assert(forest_ids(c.children@).len() < forest_ids(children@).len());
            assert(spawner.tasks@ =~= tasks0 + tasks_of(
                forest_handler_invocations(children@.take(i as int), event_index) + (
                match children@[i as int].script {
                    Some(s) => if s.has_started && s.has_event_handler {
                        seq![
                            Invocation {
                                target: children@[i as int].id,
                                routine: RoutineKind::EventHandler(event_index),
                            },
                        ]
                    } else {
                        Seq::<Invocation>::empty()
                    },
                    None => Seq::<Invocation>::empty(),
                }),
            ));
        }
        forest_spawn_handlers(&c.children, spawner, event_index);
        proof {
            assert(spawner.tasks@ =~= tasks0 + tasks_of(
                forest_handler_invocations(children@.take(i as int + 1), event_index),
            ));
        }
        i = i + 1;
    }
    proof {
        assert(children@.take(n as int) =~= children@);
    }
}

/// The character of one decimal digit.
pub open spec fn decimal_digit(d: nat) -> char {
    if d == 0 {
        '0'
    } else if d == 1 {
        '1'
    } else if d == 2 {
        '2'
    } else if d == 3 {
        '3'
    } else if d == 4 {
        '4'
    } else if d == 5 {
        '5'
    } else if d == 6 {
        '6'
    } else if d == 7 {
        '7'
    } else if d == 8 {
        '8'
    } else {
        '9'
    }
}

/// The decimal digits of a value, most significant first, no leading
/// zeroes (a lone zero for zero).
pub open spec fn spec_decimal(n: nat) -> Seq<char>
    decreases n,
{
    if n < 10 {
        seq![decimal_digit(n)]
    } else {
        spec_decimal(n / 10).push(decimal_digit(n % 10))
    }
}

/// The default name of a node constructed without one: `group_` followed
/// by the decimal value of its identifier.
pub open spec fn default_node_name(value: usize) -> Seq<char> {
    seq!['g', 'r', 'o', 'u', 'p', '_'] + spec_decimal(value as nat)
}

/// Relies on `usize`'s `Display` (via `format!`): the decimal digits of
/// the value, prefixed with `group_`.
#[verifier::external_body]
fn default_group_name(value: usize) -> (r: String)
    ensures
        r@ == default_node_name(value),
{
    format!("group_{}", value)
}

impl<G> GameObjectNode<G> {
    /// A fresh node with no children.  Without a name, the node is
    /// named `group_` followed by its identifier's decimal value.
    pub fn new(
        id: ID,
        name: Option<String>,
        subspace: feo_math::utils::space::Space,
        visible: bool,
        script: Option<Script<G>>,
        kind: NodeKind,
    ) -> (n: GameObjectNode<G>)
        ensures
            n.id == id,
            name matches Some(given) ==> n.name == given,
            name is None ==> n.name@ == default_node_name(id.spec_value()),
            n.visible == visible,
            n.script == script,
            n.kind == kind,
            n.children@ == Seq::<GameObjectNode<G>>::empty(),
            subtree_ids(n) == seq![id],
    {
        let name_value = match name {
            Some(given) => given,
            None => default_group_name(id.get_value()),
        };
        let n = GameObjectNode {
            id,
            name: name_value,
            subspace,
            visible,
            script,
            children: Vec::new(),
            kind,
        };
        proof {
            assert(subtree_ids(n) =~= seq![id]);
        }
        n
    }

    /// The node's identifier.
    pub fn get_id(&self) -> (id: ID)
        ensures
            id == self.id,
    {
        self.id
    }

    /// Capability query: is this node a camera?
    pub fn is_camera(&self) -> (r: bool)
        ensures
            r == (self.kind == NodeKind::FpvCamera),
    {
        matches!(self.kind, NodeKind::FpvCamera)
    }

    /// Capability query: is this node a light?
    pub fn is_light(&self) -> (r: bool)
        ensures
            r == (self.kind == NodeKind::DirectionalLight || self.kind == NodeKind::PointLight),
    {
        matches!(self.kind, NodeKind::DirectionalLight | NodeKind::PointLight)
    }

    /// The node's direct children, in order.
    pub fn get_children(&self) -> (r: &Vec<GameObjectNode<G>>)
        ensures
            r == &self.children,
    {
        &self.children
    }

    /// Append a child; the child's parent is this node from now on,
    /// simply by ownership.
    pub fn add_child(&mut self, child: GameObjectNode<G>)
        ensures
            final(self).children@ == old(self).children@.push(child),
            subtree_ids(*final(self)) == subtree_ids(*old(self)) + subtree_ids(child),
            final(self).id == old(self).id,
            final(self).name == old(self).name,
            final(self).subspace == old(self).subspace,
            final(self).visible == old(self).visible,
            final(self).script == old(self).script,
            final(self).kind == old(self).kind,
    {
        crate::registration::relation::add_child_to_list(&mut self.children, child);
        proof {
            crate::registration::relation::lemma_forest_ids_push(old(self).children@, child);
            assert(subtree_ids(*self) =~= subtree_ids(*old(self)) + subtree_ids(child));
        }
    }

    /// Remove the first direct child with the given identifier, handing
    /// its subtree back; fails if no direct child has it.
    pub fn remove_child(&mut self, id: &ID) -> (r: Result<GameObjectNode<G>, ()>)
        ensures
            r is Err ==> final(self).children@ == old(self).children@ && (forall|j: int|
                0 <= j < old(self).children@.len() ==> (#[trigger] old(self).children@[j]).id
                    != id),
            r matches Ok(removed) ==> exists|j: int|
                {
                    &&& 0 <= j < old(self).children@.len()
                    &&& (#[trigger] old(self).children@[j]).id == id
                    &&& forall|k: int|
                        0 <= k < j ==> (#[trigger] old(self).children@[k]).id != id
                    &&& removed == old(self).children@[j]
                    &&& final(self).children@ == old(self).children@.remove(j)
                },
            final(self).id == old(self).id,
            final(self).name == old(self).name,
            final(self).subspace == old(self).subspace,
            final(self).visible == old(self).visible,
            final(self).script == old(self).script,
            final(self).kind == old(self).kind,
    {
        crate::registration::relation::remove_child_from_list(&mut self.children, id)
    }

    /// Replace the first direct child with the given identifier by the
    /// given node, wholesale; grandchildren of other children untouched.
    pub fn replace_child(&mut self, old_id: &ID, new: GameObjectNode<G>) -> (r: Result<(), ()>)
        ensures
            r is Err ==> final(self).children@ == old(self).children@ && (forall|j: int|
                0 <= j < old(self).children@.len() ==> (#[trigger] old(self).children@[j]).id
                    != old_id),
            r is Ok ==> exists|j: int|
                {
                    &&& 0 <= j < old(self).children@.len()
                    &&& (#[trigger] old(self).children@[j]).id == old_id
                    &&& forall|k: int|
                        0 <= k < j ==> (#[trigger] old(self).children@[k]).id != old_id
                    &&& final(self).children@ == old(self).children@.update(j, new)
                },
            final(self).id == old(self).id,
            final(self).name == old(self).name,
            final(self).subspace == old(self).subspace,
            final(self).visible == old(self).visible,
            final(self).script == old(self).script,
            final(self).kind == old(self).kind,
    {
        crate::registration::relation::replace_child_in_list(&mut self.children, old_id, new)
    }

    /// Find the direct child with the given name.  Two same-named
    /// siblings are a fatal invariant violation and are excluded by the
    /// precondition.
    pub fn get_child_by_name<'a>(&'a self, name: &String) -> (r: Result<
        &'a GameObjectNode<G>,
        &'static str,
    >)
        requires
            crate::registration::relation::count_named(self.children@, name@) <= 1,
        ensures
            r matches Ok(c) ==> exists|j: int|
                0 <= j < self.children@.len() && c == &self.children@[j] && (
                #[trigger] self.children@[j]).name@ == name@,
            r is Err ==> crate::registration::relation::count_named(self.children@, name@) == 0,
    {
        crate::registration::relation::get_child_from_list_by_name(&self.children, name)
    }

    /// Schedule this subtree's core scripts: this node's start routine
    /// if it has not started (marking it started), else its frame
    /// routine; then the children's, in order.  Nothing runs during the
    /// walk.
    pub fn spawn_script_core(&mut self, spawner: &mut Spawner)
        requires
            old(spawner).tasks@.len() + tree_core_invocations(*old(self)).len()
                <= MAX_QUEUED_TASKS as int,
        ensures
            started_version_tree(*old(self), *final(self)),
            final(spawner).tasks@ == old(spawner).tasks@ + tasks_of(
                tree_core_invocations(*old(self)),
            ),
    {
        let ghost head = if old(self).script is Some {
            seq![
                Invocation {
                    target: old(self).id,
                    routine: if old(self).script->Some_0.has_started {
                        RoutineKind::Frame
                    } else {
                        RoutineKind::Start
                    },
                },
            ]
        } else {
            Seq::<Invocation>::empty()
        };
        match &mut self.script {
            Some(s) => {
                let routine: RoutineKind = if s.has_started {
                    RoutineKind::Frame
                } else {
                    s.has_started = true;
                    RoutineKind::Start
                };
                let target = self.id;
                spawner.spawn(Invocation { target, routine });
            },
            None => {},
        }
        proof {
            assert(spawner.tasks@ =~= old(spawner).tasks@ + tasks_of(head));
            assert(self.children@ == old(self).children@);
        }
        forest_spawn_cores(&mut self.children, spawner);
        proof {
            assert(tree_core_invocations(*old(self)) == head + forest_core_invocations(
                old(self).children@,
            ));
            assert(spawner.tasks@ =~= old(spawner).tasks@ + tasks_of(
                tree_core_invocations(*old(self)),
            ));
        }
    }

    /// Schedule this subtree's event-handler routines against the event
    /// at the given batch position: this node's, if its script has
    /// started and has one, then the children's.  The subtree is not
    /// changed.
    pub fn spawn_script_handler(&self, spawner: &mut Spawner, event_index: usize)
        requires
            old(spawner).tasks@.len() + tree_handler_invocations(*self, event_index).len()
                <= MAX_QUEUED_TASKS as int,
        ensures
            final(spawner).tasks@ == old(spawner).tasks@ + tasks_of(
                tree_handler_invocations(*self, event_index),
            ),
    {
        let ghost head = if self.script is Some && self.script->Some_0.has_started
            && self.script->Some_0.has_event_handler {
            seq![Invocation { target: self.id, routine: RoutineKind::EventHandler(event_index) }]
        } else {
            Seq::<Invocation>::empty()
        };
        match &self.script {
            Some(s) => {
                if s.has_started && s.has_event_handler {
                    spawner.spawn(
                        Invocation {
                            target: self.id,
                            routine: RoutineKind::EventHandler(event_index),
                        },
                    );
                }
            },
            None => {},
        }
        proof {
            assert(spawner.tasks@ =~= old(spawner).tasks@ + tasks_of(head));
        }
        forest_spawn_handlers(&self.children, spawner, event_index);
        proof {
            assert(tree_handler_invocations(*self, event_index) == head
                + forest_handler_invocations(self.children@, event_index));
            assert(spawner.tasks@ =~= old(spawner).tasks@ + tasks_of(
                tree_handler_invocations(*self, event_index),
            ));
        }
    }

    /// The script's state slot, cloned out, or an error when there is no
    /// script or no stored state.
    pub fn get_globals(&self) -> (r: Result<G, &'static str>) where G: GlobalClone
        ensures
            r is Ok <==> (self.script matches Some(s) && s.globals is Some),
    {
        match &self.script {
            Some(s) => match &s.globals {
                Some(g) => Ok(g.clone_global()),
                None => Err("No globals found in script."),
            },
            None => Err("No script found."),
        }
    }

    /// Store a value in the script's state slot; fails when the node has
    /// no script.
    pub fn set_globals(&mut self, globals: G) -> (r: Result<(), &'static str>)
        ensures
            r is Ok <==> old(self).script is Some,
            final(self).id == old(self).id,
            final(self).name == old(self).name,
            final(self).subspace == old(self).subspace,
            final(self).visible == old(self).visible,
            final(self).kind == old(self).kind,
            final(self).children == old(self).children,
            old(self).script matches Some(s) ==> final(self).script == Some(
                (Script::<G> {
                    has_started: s.has_started,
                    globals: Some(globals),
                    has_event_handler: s.has_event_handler,
                }),
            ),
            old(self).script is None ==> final(self).script == old(self).script,
    {
        match &mut self.script {
            Some(s) => {
                s.globals = Some(globals);
                Ok(())
            },
            None => Err("No script found."),
        }
    }
}

} // verus!
